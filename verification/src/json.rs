//! JSON values.
use vstd::prelude::*;
use serde_json::Value;
use crate::order::ints;
use crate::text::{
    chars_of, contains, join, joined_parts_are_there, parts_hold_in_the_whole, same_text,
};
use crate::text_order::{
    comes_before, text_before, text_order_is_total, text_order_is_transitive,
};

verus! {

/// A number of serde_json, with how it is written, its value where it is a whole
/// number of 64 bits, and how it is written as a double.
pub struct JsonNumber {
    text: String,
    integer: Option<i64>,
    double: Option<String>,
    value: Value,
}

impl JsonNumber {
    pub closed spec fn written_as(self) -> Seq<char> {
        self.text@
    }

    pub closed spec fn whole(self) -> Option<i64> {
        self.integer
    }

    pub closed spec fn as_double(self) -> Option<Seq<char>> {
        optional(self.double)
    }
}

impl View for JsonNumber {
    type V = JsonModel;

    open spec fn view(&self) -> JsonModel {
        JsonModel::Number(self.written_as(), self.whole(), self.as_double())
    }
}

/// A JSON value. The members of an object that was read stand in the order of
/// their keys; those of one that was put together, in any order.
pub enum Json {
    Null,
    Bool(bool),
    Number(JsonNumber),
    Str(String),
    Array(Vec<Json>),
    Object(Vec<(String, Json)>),
}

/// A JSON value as data.
pub enum JsonModel {
    Null,
    Bool(bool),
    Number(Seq<char>, Option<i64>, Option<Seq<char>>),
    Str(Seq<char>),
    Array(Seq<JsonModel>),
    Object(Seq<(Seq<char>, JsonModel)>),
}

pub open spec fn optional(s: Option<String>) -> Option<Seq<char>> {
    match s {
        Some(t) => Some(t@),
        None => None,
    }
}

/// What a value holds.
pub open spec fn json_model(v: Json) -> JsonModel
    decreases v, 0nat,
{
    match v {
        Json::Null => JsonModel::Null,
        Json::Bool(b) => JsonModel::Bool(b),
        Json::Number(n) => n@,
        Json::Str(s) => JsonModel::Str(s@),
        Json::Array(a) => JsonModel::Array(items_model(a@, a@.len())),
        Json::Object(m) => JsonModel::Object(members_model(m@, m@.len())),
    }
}

/// What the first `n` items of an array hold.
pub open spec fn items_model(a: Seq<Json>, n: nat) -> Seq<JsonModel>
    decreases a, n,
{
    if n == 0 || n > a.len() {
        Seq::empty()
    } else {
        items_model(a, (n - 1) as nat).push(json_model(a[n - 1]))
    }
}

/// What the first `n` members of an object hold.
pub open spec fn members_model(m: Seq<(String, Json)>, n: nat) -> Seq<(Seq<char>, JsonModel)>
    decreases m, n,
{
    if n == 0 || n > m.len() {
        Seq::empty()
    } else {
        members_model(m, (n - 1) as nat).push((m[n - 1].0@, json_model(m[n - 1].1)))
    }
}

impl View for Json {
    type V = JsonModel;

    open spec fn view(&self) -> JsonModel {
        json_model(*self)
    }
}

pub proof fn lemma_items_model(a: Seq<Json>, n: nat)
    requires
        n <= a.len(),
    ensures
        items_model(a, n).len() == n,
        forall|k: int| 0 <= k < n ==> #[trigger] items_model(a, n)[k] == json_model(a[k]),
    decreases n,
{
    if n > 0 {
        lemma_items_model(a, (n - 1) as nat);
        assert forall|k: int| 0 <= k < n implies #[trigger] items_model(a, n)[k] == json_model(
            a[k],
        ) by {
            if k < n - 1 {
                assert(items_model(a, n)[k] == items_model(a, (n - 1) as nat)[k]);
            }
        }
    }
}

pub proof fn lemma_members_model(m: Seq<(String, Json)>, n: nat)
    requires
        n <= m.len(),
    ensures
        members_model(m, n).len() == n,
        forall|k: int|
            0 <= k < n ==> #[trigger] members_model(m, n)[k] == (m[k].0@, json_model(m[k].1)),
    decreases n,
{
    if n > 0 {
        lemma_members_model(m, (n - 1) as nat);
        assert forall|k: int| 0 <= k < n implies #[trigger] members_model(m, n)[k] == (
            m[k].0@,
            json_model(m[k].1),
        ) by {
            if k < n - 1 {
                assert(members_model(m, n)[k] == members_model(m, (n - 1) as nat)[k]);
            }
        }
    }
}

/// A value of serde_json.
#[verifier::external_type_specification]
#[verifier::external_body]
pub struct ExValue(Value);

/// What a value of serde_json holds.
pub uninterp spec fn value_model(v: &Value) -> JsonModel;

/// What serde_json makes of a text, or what it says when it is not JSON.
pub uninterp spec fn json_reading(text: Seq<char>) -> Result<JsonModel, Seq<char>>;

/// What serde_json makes of a text; nothing if it is not JSON.
pub open spec fn json_parse(text: Seq<char>) -> Option<JsonModel> {
    json_reading(text).ok()
}

/// The outermost layer of a value.
enum Shape {
    Null,
    Bool(bool),
    Number(JsonNumber),
    Str(String),
    Array(Vec<Value>),
    Object(Vec<(String, Value)>),
}

spec fn shape_model(s: Shape) -> JsonModel {
    match s {
        Shape::Null => JsonModel::Null,
        Shape::Bool(b) => JsonModel::Bool(b),
        Shape::Number(n) => n@,
        Shape::Str(s) => JsonModel::Str(s@),
        Shape::Array(a) => JsonModel::Array(Seq::new(a@.len(), |i: int| value_model(&a@[i]))),
        Shape::Object(m) => JsonModel::Object(
            Seq::new(m@.len(), |i: int| (m@[i].0@, value_model(&m@[i].1))),
        ),
    }
}

/// `serde_json::Value` is taken apart by one layer: each variant gives the
/// variant of the same name with what it holds, in the same order. A number is
/// given as `Number`'s `Display`, `as_i64` and the text of its `as_f64`, and is
/// kept beside them. `Map` hands its members out in the order of their keys.
#[verifier::external_body]
fn open_value(v: Value) -> (shape: Shape)
    ensures
        shape_model(shape) == value_model(&v),
        keys_in_order(shape),
{
    match v {
        Value::Null => Shape::Null,
        Value::Bool(b) => Shape::Bool(b),
        Value::Number(n) => Shape::Number(
            JsonNumber {
                text: n.to_string(),
                integer: n.as_i64(),
                double: n.as_f64().map(|d| Value::from(d).to_string()),
                value: Value::Number(n),
            },
        ),
        Value::String(s) => Shape::Str(s),
        Value::Array(a) => Shape::Array(a),
        Value::Object(m) => Shape::Object(m.into_iter().collect()),
    }
}

pub open spec fn parsed_model(r: Option<Value>) -> Option<JsonModel> {
    match r {
        Some(v) => Some(value_model(&v)),
        None => None,
    }
}

pub open spec fn reading_model(r: Result<Value, String>) -> Result<JsonModel, Seq<char>> {
    match r {
        Ok(v) => Ok(value_model(&v)),
        Err(e) => Err(e@),
    }
}

/// `serde_json::from_str` reads a value from a text. Whether it succeeds, what it
/// reads and what it says depend on the text alone.
#[verifier::external_body]
fn read_value(text: &str) -> (r: Result<Value, String>)
    ensures
        reading_model(r) == json_reading(text@),
{
    serde_json::from_str(text).map_err(|e: serde_json::Error| e.to_string())
}

/// The value that a value of serde_json is.
pub fn to_json(v: Value) -> (r: Json)
    ensures
        r@ == value_model(&v),
        tidy(r@),
    decreases value_model(&v),
{
    let ghost whole = value_model(&v);
    match open_value(v) {
        Shape::Null => Json::Null,
        Shape::Bool(b) => Json::Bool(b),
        Shape::Number(n) => Json::Number(n),
        Shape::Str(s) => Json::Str(s),
        Shape::Array(a) => {
            let ghost all = a@;
            let mut rest = a;
            let mut items: Vec<Json> = Vec::new();
            let ghost children = whole->Array_0;
            assert(children == Seq::new(all.len(), |i: int| value_model(&all[i])));
            rest_reverse(&mut rest);
            while rest.len() > 0
                invariant
                    whole == value_model(&v),
                    whole is Array,
                    children == whole->Array_0,
                    children == Seq::new(all.len(), |i: int| value_model(&all[i])),
                    items@.len() + rest@.len() == all.len(),
                    forall|k: int| 0 <= k < rest@.len() ==> rest@[k] == all[all.len() - 1 - k],
                    forall|k: int|
                        0 <= k < items@.len() ==> (#[trigger] items@[k])@ == value_model(&all[k])
                            && tidy(items@[k]@),
                decreases rest@.len(),
            {
                let ghost at = items@.len() as int;
                assert(rest@.last() == all[at]);
                assert(children[at] == value_model(&all[at]));
                assert(decreases_to!(children => children[at]));
                let item = rest.pop().unwrap();
                assert(decreases_to!(whole => whole->Array_0));
                let j = to_json(item);
                items.push(j);
            }
            proof {
                lemma_items_model(items@, items@.len());
            }
            assert(items_model(items@, items@.len()) =~= children);
            proof {
                lemma_tidy_items(children, children.len());
                assert forall|k: int| 0 <= k < children.len() implies tidy(
                    #[trigger] children[k],
                ) by {
                    assert(tidy(items@[k]@));
                }
            }
            Json::Array(items)
        },
        Shape::Object(m) => {
            let ghost all = m@;
            let mut rest = m;
            let mut items: Vec<(String, Json)> = Vec::new();
            let ghost children = whole->Object_0;
            assert(children == Seq::new(all.len(), |i: int| (all[i].0@, value_model(&all[i].1))));
            rest_reverse(&mut rest);
            while rest.len() > 0
                invariant
                    whole == value_model(&v),
                    whole is Object,
                    children == whole->Object_0,
                    children == Seq::new(
                        all.len(),
                        |i: int| (all[i].0@, value_model(&all[i].1)),
                    ),
                    items@.len() + rest@.len() == all.len(),
                    forall|k: int| 0 <= k < rest@.len() ==> rest@[k] == all[all.len() - 1 - k],
                    forall|k: int|
                        0 <= k < items@.len() ==> (#[trigger] items@[k]).0@ == all[k].0@
                            && items@[k].1@ == value_model(&all[k].1) && tidy(items@[k].1@),
                decreases rest@.len(),
            {
                let ghost at = items@.len() as int;
                assert(rest@.last() == all[at]);
                assert(children[at] == (all[at].0@, value_model(&all[at].1)));
                assert(decreases_to!(children => children[at]));
                let (key, item) = rest.pop().unwrap();
                assert(decreases_to!(whole => whole->Object_0));
                assert(decreases_to!(children[at] => children[at].1));
                let j = to_json(item);
                items.push((key, j));
            }
            proof {
                lemma_members_model(items@, items@.len());
            }
            assert(members_model(items@, items@.len()) =~= children);
            proof {
                lemma_tidy_members(children, children.len());
                assert forall|k: int| 0 <= k < children.len() implies tidy(
                    (#[trigger] children[k]).1,
                ) by {
                    assert(tidy(items@[k].1@));
                }
            }
            Json::Object(items)
        },
    }
}

/// Turns a list round, so that its items can be taken from the end in order.
fn rest_reverse<T>(v: &mut Vec<T>)
    ensures
        final(v)@.len() == old(v)@.len(),
        forall|k: int|
            0 <= k < final(v)@.len() ==> final(v)@[k] == old(v)@[old(v)@.len() - 1 - k],
{
    let n: usize = v.len();
    let mut out: Vec<T> = Vec::new();
    while v.len() > 0
        invariant
            n == old(v)@.len(),
            out@.len() + v@.len() == n,
            forall|k: int| 0 <= k < out@.len() ==> out@[k] == old(v)@[n - 1 - k],
            forall|k: int| 0 <= k < v@.len() ==> v@[k] == old(v)@[k],
        decreases v@.len(),
    {
        let x = v.pop().unwrap();
        out.push(x);
    }
    *v = out;
}

/// Reads a JSON value from a text, or says why it is not JSON. The members of its
/// objects are in order.
pub fn read_json(text: &str) -> (r: Result<Json, String>)
    ensures
        match r {
            Ok(j) => json_reading(text@) == Ok::<JsonModel, Seq<char>>(j@) && tidy(j@),
            Err(e) => json_reading(text@) == Err::<JsonModel, Seq<char>>(e@),
        },
{
    match read_value(text) {
        Ok(v) => Ok(to_json(v)),
        Err(e) => Err(e),
    }
}

/// Reads a JSON value from a text; nothing if it is not JSON. The members of its
/// objects are in order.
pub fn parse_json(text: &str) -> (r: Option<Json>)
    ensures
        match r {
            Some(j) => json_parse(text@) == Some(j@) && tidy(j@),
            None => json_parse(text@) is None,
        },
{
    read_json(text).ok()
}

/// The keys of two members that follow one another are in order.
pub open spec fn in_order(m: Seq<(Seq<char>, JsonModel)>, i: int) -> bool {
    text_before(m[i].0, m[i + 1].0)
}

/// The members of an object stand in the order of their keys, each key once.
pub open spec fn ascending(m: Seq<(Seq<char>, JsonModel)>) -> bool {
    forall|i: int| 0 <= i < m.len() - 1 ==> #[trigger] in_order(m, i)
}

/// A value with the members of each object in order.
pub open spec fn tidy(v: JsonModel) -> bool
    decreases v, 0nat,
{
    match v {
        JsonModel::Array(a) => tidy_items(a, a.len()),
        JsonModel::Object(m) => ascending(m) && tidy_members(m, m.len()),
        _ => true,
    }
}

pub open spec fn tidy_items(a: Seq<JsonModel>, n: nat) -> bool
    decreases a, n,
{
    n == 0 || n > a.len() || (tidy_items(a, (n - 1) as nat) && tidy(a[n - 1]))
}

pub open spec fn tidy_members(m: Seq<(Seq<char>, JsonModel)>, n: nat) -> bool
    decreases m, n,
{
    n == 0 || n > m.len() || (tidy_members(m, (n - 1) as nat) && tidy(m[n - 1].1))
}

pub proof fn lemma_tidy_items(a: Seq<JsonModel>, n: nat)
    requires
        n <= a.len(),
    ensures
        tidy_items(a, n) == (forall|k: int| 0 <= k < n ==> tidy(#[trigger] a[k])),
    decreases n,
{
    if n > 0 {
        lemma_tidy_items(a, (n - 1) as nat);
    }
}

pub proof fn lemma_tidy_members(m: Seq<(Seq<char>, JsonModel)>, n: nat)
    requires
        n <= m.len(),
    ensures
        tidy_members(m, n) == (forall|k: int| 0 <= k < n ==> tidy((#[trigger] m[k]).1)),
    decreases n,
{
    if n > 0 {
        lemma_tidy_members(m, (n - 1) as nat);
    }
}

/// How serde_json writes a value over several lines, or what it says when it
/// cannot.
pub uninterp spec fn json_pretty(v: JsonModel) -> Result<Seq<char>, Seq<char>>;

/// The keys of an object are in order.
spec fn keys_in_order(s: Shape) -> bool {
    match s {
        Shape::Object(m) => shape_model(s) matches JsonModel::Object(o) && ascending(o),
        _ => true,
    }
}

/// `serde_json::Value` is put together from one layer: each variant gives the
/// variant of the same name with what it holds, in the same order. `Map` keeps
/// its members in the order of their keys, so they are given in that order. A
/// number is the one that was kept.
#[verifier::external_body]
fn close_value(shape: Shape) -> (v: Value)
    requires
        keys_in_order(shape),
    ensures
        value_model(&v) == shape_model(shape),
{
    match shape {
        Shape::Null => Value::Null,
        Shape::Bool(b) => Value::Bool(b),
        Shape::Number(n) => n.value,
        Shape::Str(s) => Value::String(s),
        Shape::Array(a) => Value::Array(a),
        Shape::Object(m) => Value::Object(m.into_iter().collect()),
    }
}

/// How serde_json writes a value without any white space, or what it says when
/// it cannot.
pub uninterp spec fn json_text(v: JsonModel) -> Result<Seq<char>, Seq<char>>;

pub open spec fn written(r: Result<String, String>) -> Result<Seq<char>, Seq<char>> {
    match r {
        Ok(t) => Ok(t@),
        Err(e) => Err(e@),
    }
}

/// `serde_json::to_string_pretty` writes a value over several lines. Whether it
/// succeeds, what it writes and what it says depend on the value alone.
#[verifier::external_body]
fn write_value(v: &Value) -> (r: Result<String, String>)
    ensures
        written(r) == json_pretty(value_model(v)),
{
    serde_json::to_string_pretty(v).map_err(|e| e.to_string())
}

/// `serde_json::to_string` writes a value without any white space. Whether it
/// succeeds, what it writes and what it says depend on the value alone.
#[verifier::external_body]
fn write_text(v: &Value) -> (r: Result<String, String>)
    ensures
        written(r) == json_text(value_model(v)),
{
    serde_json::to_string(v).map_err(|e| e.to_string())
}

/// `Value::clone` copies a value.
#[verifier::external_body]
fn copy_value(v: &Value) -> (r: Value)
    ensures
        value_model(&r) == value_model(v),
{
    v.clone()
}

/// The number that a double is.
pub open spec fn doubled(v: JsonModel) -> Option<JsonModel> {
    match v {
        JsonModel::Number(_, _, Some(d)) => Some(JsonModel::Number(d, None, Some(d))),
        _ => None,
    }
}

/// `Value::as_f64` gives the double of a number, and `Value::from` the number
/// that a double is. It is written as the double is, and counts as no whole
/// number.
#[verifier::external_body]
fn double_value(v: &Value) -> (r: Option<Value>)
    ensures
        parsed_model(r) == doubled(value_model(v)),
{
    v.as_f64().map(Value::from)
}

impl JsonNumber {
    #[verifier::type_invariant]
    spec fn is_kept(self) -> bool {
        value_model(&self.value) == self@
    }

    /// How the number is written.
    pub fn text(&self) -> (r: &str)
        ensures
            r@ == self.written_as(),
    {
        self.text.as_str()
    }

    /// The value of a whole number of 64 bits.
    pub fn integer(&self) -> (r: Option<i64>)
        ensures
            r == self.whole(),
    {
        self.integer
    }

    /// How the number is written as a double.
    pub fn double(&self) -> (r: Option<String>)
        ensures
            optional(r) == self.as_double(),
    {
        self.double.clone()
    }

    /// The double that the number is; nothing if it is none.
    pub fn to_double(&self) -> (r: Option<JsonNumber>)
        ensures
            match r {
                Some(n) => doubled(self@) == Some(n@),
                None => doubled(self@) is None,
            },
    {
        proof {
            use_type_invariant(self);
        }
        match double_value(&self.value) {
            Some(v) => match open_value(v) {
                Shape::Number(n) => Some(n),
                _ => None,
            },
            None => None,
        }
    }

    fn copy(&self) -> (r: JsonNumber)
        ensures
            r@ == self@,
    {
        proof {
            use_type_invariant(self);
        }
        JsonNumber {
            text: self.text.clone(),
            integer: self.integer,
            double: self.double.clone(),
            value: copy_value(&self.value),
        }
    }
}

fn to_value(v: Json) -> (r: Value)
    requires
        tidy(v@),
    ensures
        value_model(&r) == v@,
    decreases v@,
{
    let ghost whole = v@;
    match v {
        Json::Null => close_value(Shape::Null),
        Json::Bool(b) => close_value(Shape::Bool(b)),
        Json::Number(n) => close_value(Shape::Number(n)),
        Json::Str(s) => close_value(Shape::Str(s)),
        Json::Array(a) => {
            let ghost all = a@;
            let ghost children = whole->Array_0;
            proof {
                lemma_items_model(all, all.len());
                lemma_tidy_items(children, children.len());
            }
            let mut rest = a;
            let mut items: Vec<Value> = Vec::new();
            rest_reverse(&mut rest);
            while rest.len() > 0
                invariant
                    whole == v@,
                    whole is Array,
                    children == whole->Array_0,
                    children.len() == all.len(),
                    forall|k: int| 0 <= k < all.len() ==> #[trigger] children[k] == all[k]@,
                    forall|k: int| 0 <= k < all.len() ==> tidy(#[trigger] children[k]),
                    items@.len() + rest@.len() == all.len(),
                    forall|k: int| 0 <= k < rest@.len() ==> rest@[k] == all[all.len() - 1 - k],
                    forall|k: int|
                        0 <= k < items@.len() ==> value_model(&#[trigger] items@[k]) == children[k],
                decreases rest@.len(),
            {
                let ghost at = items@.len() as int;
                assert(rest@.last() == all[at]);
                assert(children[at] == all[at]@);
                assert(decreases_to!(children => children[at]));
                assert(decreases_to!(whole => whole->Array_0));
                let item = rest.pop().unwrap();
                let j = to_value(item);
                items.push(j);
            }
            assert(Seq::new(items@.len(), |i: int| value_model(&items@[i])) =~= children);
            close_value(Shape::Array(items))
        },
        Json::Object(m) => {
            let ghost all = m@;
            let ghost children = whole->Object_0;
            proof {
                lemma_members_model(all, all.len());
                lemma_tidy_members(children, children.len());
            }
            let mut rest = m;
            let mut items: Vec<(String, Value)> = Vec::new();
            rest_reverse(&mut rest);
            while rest.len() > 0
                invariant
                    whole == v@,
                    whole is Object,
                    children == whole->Object_0,
                    children.len() == all.len(),
                    forall|k: int|
                        0 <= k < all.len() ==> #[trigger] children[k] == (all[k].0@, all[k].1@),
                    forall|k: int| 0 <= k < all.len() ==> tidy((#[trigger] children[k]).1),
                    items@.len() + rest@.len() == all.len(),
                    forall|k: int| 0 <= k < rest@.len() ==> rest@[k] == all[all.len() - 1 - k],
                    forall|k: int|
                        0 <= k < items@.len() ==> (#[trigger] items@[k]).0@ == children[k].0
                            && value_model(&items@[k].1) == children[k].1,
                decreases rest@.len(),
            {
                let ghost at = items@.len() as int;
                assert(rest@.last() == all[at]);
                assert(children[at] == (all[at].0@, all[at].1@));
                assert(decreases_to!(children => children[at]));
                assert(decreases_to!(whole => whole->Object_0));
                assert(decreases_to!(children[at] => children[at].1));
                let (key, item) = rest.pop().unwrap();
                let j = to_value(item);
                items.push((key, j));
            }
            assert(Seq::new(items@.len(), |i: int| (items@[i].0@, value_model(&items@[i].1)))
                =~= children);
            close_value(Shape::Object(items))
        },
    }
}

/// The place at or behind `k` of a member with a key, or where it belongs among
/// sorted members.
pub open spec fn member_place(m: Seq<(Seq<char>, JsonModel)>, key: Seq<char>, k: int) -> int
    decreases m.len() - k,
{
    if k >= m.len() || m[k].0 == key || text_before(key, m[k].0) {
        k
    } else {
        member_place(m, key, k + 1)
    }
}

/// The members with one set.
pub open spec fn with_member(
    m: Seq<(Seq<char>, JsonModel)>,
    key: Seq<char>,
    value: JsonModel,
) -> Seq<(Seq<char>, JsonModel)> {
    let p = member_place(m, key, 0);
    if p < m.len() && m[p].0 == key {
        m.update(p, (key, value))
    } else {
        m.insert(p, (key, value))
    }
}

/// The members with all of others set, one after the other.
pub open spec fn with_members(
    m: Seq<(Seq<char>, JsonModel)>,
    others: Seq<(Seq<char>, JsonModel)>,
) -> Seq<(Seq<char>, JsonModel)>
    decreases others.len(),
{
    if others.len() == 0 {
        m
    } else {
        with_member(with_members(m, others.drop_last()), others.last().0, others.last().1)
    }
}

proof fn lemma_member_place(m: Seq<(Seq<char>, JsonModel)>, key: Seq<char>, k: int)
    requires
        0 <= k <= m.len(),
    ensures
        k <= member_place(m, key, k) <= m.len(),
        forall|q: int|
            k <= q < member_place(m, key, k) ==> (#[trigger] m[q]).0 != key && !text_before(
                key,
                m[q].0,
            ),
        member_place(m, key, k) < m.len() ==> m[member_place(m, key, k)].0 == key || text_before(
            key,
            m[member_place(m, key, k)].0,
        ),
    decreases m.len() - k,
{
    if k < m.len() && m[k].0 != key && !text_before(key, m[k].0) {
        lemma_member_place(m, key, k + 1);
    }
}

/// What is set last is what is there.
pub proof fn set_member_is_there(
    m: Seq<(Seq<char>, JsonModel)>,
    key: Seq<char>,
    value: JsonModel,
)
    ensures
        with_member(m, key, value).contains((key, value)),
{
    lemma_member_place(m, key, 0);
    let p = member_place(m, key, 0);
    let w = with_member(m, key, value);
    assert(w[p] == (key, value));
}

/// Sets a member of an object whose members are in order.
pub fn set_member(members: &mut Vec<(String, Json)>, key: String, value: Json)
    ensures
        members_model(final(members)@, final(members)@.len()) == with_member(
            members_model(old(members)@, old(members)@.len()),
            key@,
            value@,
        ),
{
    let ghost before = members@;
    let ghost m = members_model(before, before.len());
    let n: usize = members.len();
    let mut p: usize = 0;
    proof {
        lemma_members_model(before, before.len());
        lemma_member_place(m, key@, 0);
    }
    while p < n && !same_text(members[p].0.as_str(), key.as_str()) && !comes_before(
        key.as_str(),
        members[p].0.as_str(),
    )
        invariant
            p <= n,
            n == members@.len(),
            members@ == before,
            m.len() == n,
            forall|k: int|
                0 <= k < n ==> #[trigger] m[k] == (before[k].0@, json_model(before[k].1)),
            member_place(m, key@, 0) == member_place(m, key@, p as int),
        decreases n - p,
    {
        assert(m[p as int].0 == before[p as int].0@);
        p = p + 1;
    }
    proof {
        if p < n {
            assert(m[p as int].0 == before[p as int].0@);
        }
    }
    let found = p < n && same_text(members[p].0.as_str(), key.as_str());
    if found {
        members.set(p, (key, value));
    } else {
        members.insert(p, (key, value));
    }
    proof {
        lemma_members_model(members@, members@.len());
        let w = members_model(members@, members@.len());
        let want = with_member(m, key@, value@);
        assert(w.len() == want.len());
        assert forall|k: int| 0 <= k < w.len() implies w[k] == want[k] by {
            if found {
                if k != p {
                    assert(members@[k] == before[k]);
                    assert(m[k] == (before[k].0@, json_model(before[k].1)));
                }
            } else if k < p {
                assert(members@[k] == before[k]);
                assert(m[k] == (before[k].0@, json_model(before[k].1)));
            } else if k > p {
                assert(members@[k] == before[k - 1]);
                assert(m[k - 1] == (before[k - 1].0@, json_model(before[k - 1].1)));
            }
        }
        assert(w =~= want);
    }
}

/// A value as serde_json holds it: the members of each object in the order of
/// their keys, and of members with one key the last.
pub open spec fn settled(v: JsonModel) -> JsonModel
    decreases v, 0nat,
{
    match v {
        JsonModel::Array(a) => JsonModel::Array(settled_items(a, a.len())),
        JsonModel::Object(m) => JsonModel::Object(settled_members(m, m.len())),
        _ => v,
    }
}

/// The first `n` items of an array as serde_json holds them.
pub open spec fn settled_items(a: Seq<JsonModel>, n: nat) -> Seq<JsonModel>
    decreases a, n,
{
    if n == 0 || n > a.len() {
        Seq::empty()
    } else {
        settled_items(a, (n - 1) as nat).push(settled(a[n - 1]))
    }
}

/// The first `n` members of an object as serde_json holds them.
pub open spec fn settled_members(m: Seq<(Seq<char>, JsonModel)>, n: nat) -> Seq<
    (Seq<char>, JsonModel),
>
    decreases m, n,
{
    if n == 0 || n > m.len() {
        Seq::empty()
    } else {
        with_member(settled_members(m, (n - 1) as nat), m[n - 1].0, settled(m[n - 1].1))
    }
}

/// How serde_json writes a value, without any white space.
pub open spec fn compact(v: JsonModel) -> Result<Seq<char>, Seq<char>> {
    json_text(settled(v))
}

/// How serde_json writes a value, over several lines.
pub open spec fn pretty(v: JsonModel) -> Result<Seq<char>, Seq<char>> {
    json_pretty(settled(v))
}

/// Setting a member keeps the members in order.
pub proof fn set_members_stay_in_order(
    m: Seq<(Seq<char>, JsonModel)>,
    key: Seq<char>,
    value: JsonModel,
)
    requires
        ascending(m),
    ensures
        ascending(with_member(m, key, value)),
{
    let p = member_place(m, key, 0);
    let w = with_member(m, key, value);
    lemma_member_place(m, key, 0);
    assert forall|i: int| 0 <= i < w.len() - 1 implies #[trigger] in_order(w, i) by {
        if p < m.len() && m[p].0 == key {
            assert(in_order(m, i));
        } else if i < p - 1 {
            assert(in_order(m, i));
        } else if i == p - 1 {
            assert(w[i] == m[i]);
            text_order_is_total(m[i].0, key);
        } else if i > p {
            assert(in_order(m, i - 1));
        }
    }
}

proof fn lemma_settled_items(a: Seq<JsonModel>, n: nat)
    requires
        n <= a.len(),
    ensures
        settled_items(a, n).len() == n,
        tidy_items(settled_items(a, n), n),
        forall|k: int| 0 <= k < n ==> #[trigger] settled_items(a, n)[k] == settled(a[k]),
    decreases a, n,
{
    if n > 0 {
        lemma_settled_items(a, (n - 1) as nat);
        settled_values_are_tidy(a[n - 1]);
        let s = settled_items(a, n);
        let t = settled_items(a, (n - 1) as nat);
        assert forall|k: int| 0 <= k < n implies #[trigger] s[k] == settled(a[k]) by {
            if k < n - 1 {
                assert(s[k] == t[k]);
            }
        }
        lemma_tidy_items(t, (n - 1) as nat);
        lemma_tidy_items(s, n);
        assert forall|k: int| 0 <= k < n implies tidy(#[trigger] s[k]) by {
            if k < n - 1 {
                assert(s[k] == t[k]);
            }
        }
    }
}

proof fn lemma_settled_members(m: Seq<(Seq<char>, JsonModel)>, n: nat)
    requires
        n <= m.len(),
    ensures
        ascending(settled_members(m, n)),
        tidy_members(settled_members(m, n), settled_members(m, n).len()),
    decreases m, n,
{
    if n > 0 {
        lemma_settled_members(m, (n - 1) as nat);
        assert(decreases_to!(m => m[n - 1]));
        settled_values_are_tidy(m[n - 1].1);
        let t = settled_members(m, (n - 1) as nat);
        let s = settled_members(m, n);
        let key = m[n - 1].0;
        set_members_stay_in_order(t, key, settled(m[n - 1].1));
        lemma_member_place(t, key, 0);
        lemma_tidy_members(t, t.len());
        lemma_tidy_members(s, s.len());
        let p = member_place(t, key, 0);
        assert forall|k: int| 0 <= k < s.len() implies tidy((#[trigger] s[k]).1) by {
            if p < t.len() && t[p].0 == key {
                if k != p {
                    assert(s[k] == t[k]);
                }
            } else if k < p {
                assert(s[k] == t[k]);
            } else if k > p {
                assert(s[k] == t[k - 1]);
            }
        }
    }
}

/// A value as serde_json holds it has the members of each object in order.
pub proof fn settled_values_are_tidy(v: JsonModel)
    ensures
        tidy(settled(v)),
    decreases v, 0nat,
{
    match v {
        JsonModel::Array(a) => {
            assert(decreases_to!(v => v->Array_0));
            lemma_settled_items(a, a.len());
        },
        JsonModel::Object(m) => {
            assert(decreases_to!(v => v->Object_0));
            lemma_settled_members(m, m.len());
        },
        _ => {},
    }
}

proof fn lemma_last_place(m: Seq<(Seq<char>, JsonModel)>, key: Seq<char>)
    requires
        ascending(m),
        m.len() > 0 ==> text_before(m.last().0, key),
    ensures
        member_place(m, key, 0) == m.len(),
{
    let p = member_place(m, key, 0);
    lemma_member_place(m, key, 0);
    if p < m.len() {
        lemma_before_last(m, p);
        if p < m.len() - 1 {
            text_order_is_transitive(m[p].0, m.last().0, key);
        }
        text_order_is_total(m[p].0, key);
    }
}

proof fn lemma_before_last(m: Seq<(Seq<char>, JsonModel)>, i: int)
    requires
        ascending(m),
        0 <= i < m.len(),
    ensures
        i < m.len() - 1 ==> text_before(m[i].0, m.last().0),
    decreases m.len() - i,
{
    if i < m.len() - 1 {
        assert(in_order(m, i));
        lemma_before_last(m, i + 1);
        if i + 1 < m.len() - 1 {
            text_order_is_transitive(m[i].0, m[i + 1].0, m.last().0);
        }
    }
}

proof fn lemma_same_items(a: Seq<JsonModel>, n: nat)
    requires
        n <= a.len(),
        tidy_items(a, n),
    ensures
        settled_items(a, n) == a.subrange(0, n as int),
    decreases a, n,
{
    if n > 0 {
        lemma_same_items(a, (n - 1) as nat);
        tidy_values_stay(a[n - 1]);
        assert(a.subrange(0, n - 1).push(a[n - 1]) =~= a.subrange(0, n as int));
    } else {
        assert(a.subrange(0, 0) =~= Seq::<JsonModel>::empty());
    }
}

proof fn lemma_same_settled(m: Seq<(Seq<char>, JsonModel)>, n: nat)
    requires
        n <= m.len(),
        ascending(m),
        tidy_members(m, n),
    ensures
        settled_members(m, n) == m.subrange(0, n as int),
    decreases m, n,
{
    if n > 0 {
        lemma_same_settled(m, (n - 1) as nat);
        assert(decreases_to!(m => m[n - 1]));
        tidy_values_stay(m[n - 1].1);
        let t = m.subrange(0, n - 1);
        assert forall|i: int| 0 <= i < t.len() - 1 implies #[trigger] in_order(t, i) by {
            assert(in_order(m, i));
        }
        if n > 1 {
            assert(in_order(m, n - 2));
        }
        lemma_last_place(t, m[n - 1].0);
        assert(t.insert(n - 1, m[n - 1]) =~= m.subrange(0, n as int));
    } else {
        assert(m.subrange(0, 0) =~= Seq::<(Seq<char>, JsonModel)>::empty());
    }
}

/// A value with the members of each object in order is held as it is.
pub proof fn tidy_values_stay(v: JsonModel)
    requires
        tidy(v),
    ensures
        settled(v) == v,
    decreases v, 0nat,
{
    match v {
        JsonModel::Array(a) => {
            assert(decreases_to!(v => v->Array_0));
            lemma_same_items(a, a.len());
            assert(a.subrange(0, a.len() as int) =~= a);
        },
        JsonModel::Object(m) => {
            assert(decreases_to!(v => v->Object_0));
            lemma_same_settled(m, m.len());
            assert(m.subrange(0, m.len() as int) =~= m);
        },
        _ => {},
    }
}

/// A copy of a value, with the members of each object as serde_json holds them.
pub fn settle(v: &Json) -> (r: Json)
    ensures
        r@ == settled(v@),
    decreases v@,
{
    let ghost whole = v@;
    match v {
        Json::Null => Json::Null,
        Json::Bool(b) => Json::Bool(*b),
        Json::Number(n) => Json::Number(n.copy()),
        Json::Str(s) => Json::Str(s.clone()),
        Json::Array(a) => {
            let ghost model = whole->Array_0;
            let mut items: Vec<Json> = Vec::new();
            let mut i: usize = 0;
            proof {
                lemma_items_model(a@, a@.len());
            }
            while i < a.len()
                invariant
                    i <= a@.len(),
                    whole == v@,
                    whole is Array,
                    model == whole->Array_0,
                    model.len() == a@.len(),
                    forall|k: int| 0 <= k < a@.len() ==> (#[trigger] a@[k])@ == model[k],
                    items_model(items@, items@.len()) == settled_items(model, i as nat),
                decreases a@.len() - i,
            {
                assert(a@[i as int]@ == model[i as int]);
                assert(decreases_to!(model => model[i as int]));
                assert(decreases_to!(whole => whole->Array_0));
                let item = settle(&a[i]);
                add_item(&mut items, item);
                i = i + 1;
            }
            Json::Array(items)
        },
        Json::Object(m) => {
            let ghost model = whole->Object_0;
            let mut members: Vec<(String, Json)> = Vec::new();
            let mut i: usize = 0;
            proof {
                lemma_members_model(m@, m@.len());
            }
            while i < m.len()
                invariant
                    i <= m@.len(),
                    whole == v@,
                    whole is Object,
                    model == whole->Object_0,
                    model.len() == m@.len(),
                    forall|k: int|
                        0 <= k < m@.len() ==> (#[trigger] m@[k]).0@ == model[k].0 && m@[k].1@
                            == model[k].1,
                    members_model(members@, members@.len()) == settled_members(model, i as nat),
                decreases m@.len() - i,
            {
                assert(m@[i as int].1@ == model[i as int].1);
                assert(decreases_to!(model => model[i as int]));
                assert(decreases_to!(model[i as int] => model[i as int].1));
                assert(decreases_to!(whole => whole->Object_0));
                let value = settle(&m[i].1);
                set_member(&mut members, m[i].0.clone(), value);
                i = i + 1;
            }
            Json::Object(members)
        },
    }
}

/// Adds an item to an array that is being put together.
pub fn add_item(items: &mut Vec<Json>, item: Json)
    ensures
        items_model(final(items)@, final(items)@.len()) == items_model(
            old(items)@,
            old(items)@.len(),
        ).push(item@),
{
    let ghost before = items@;
    items.push(item);
    proof {
        lemma_items_model(before, before.len());
        lemma_items_model(items@, items@.len());
        assert(items_model(items@, items@.len()) =~= items_model(before, before.len()).push(item@));
    }
}

/// The value of serde_json that a value is.
pub fn value_of(v: &Json) -> (r: Value)
    ensures
        value_model(&r) == settled(v@),
{
    proof {
        settled_values_are_tidy(v@);
    }
    to_value(settle(v))
}

/// Writes a value without any white space.
pub fn compact_json(v: &Json) -> (r: Result<String, String>)
    ensures
        written(r) == compact(v@),
{
    let value = value_of(v);
    write_text(&value)
}

/// Writes a value over several lines.
pub fn pretty_json(v: &Json) -> (r: Result<String, String>)
    ensures
        written(r) == pretty(v@),
{
    let value = value_of(v);
    write_value(&value)
}

/// Adds a member to an object that is being put together.
pub fn put(m: &mut Vec<(String, Json)>, key: &str, value: Json)
    ensures
        members_model(final(m)@, final(m)@.len()) == members_model(
            old(m)@,
            old(m)@.len(),
        ).push((key@, value@)),
{
    let ghost before = m@;
    m.push((String::from_str(key), value));
    proof {
        lemma_members_model(before, before.len());
        lemma_members_model(m@, m@.len());
        assert(members_model(m@, m@.len()) =~= members_model(before, before.len()).push(
            (key@, value@),
        ));
    }
}

/// The lower-case hexadecimal digit of a number below sixteen.
pub open spec fn hex_digit(n: int) -> char {
    if n == 10 {
        'a'
    } else if n == 11 {
        'b'
    } else if n == 12 {
        'c'
    } else if n == 13 {
        'd'
    } else if n == 14 {
        'e'
    } else if n == 15 {
        'f'
    } else {
        crate::text::digit(n)
    }
}

/// A character as it is written inside a JSON string.
pub open spec fn json_char(c: char) -> Seq<char> {
    if c == '"' {
        "\\\""@
    } else if c == '\\' {
        "\\\\"@
    } else if c == '\n' {
        "\\n"@
    } else if c == '\r' {
        "\\r"@
    } else if c == '\t' {
        "\\t"@
    } else if c == '\u{8}' {
        "\\b"@
    } else if c == '\u{c}' {
        "\\f"@
    } else if (c as u32) < 0x20 {
        "\\u00"@ + seq![
            hex_digit((c as u32 / 16) as int),
            hex_digit((c as u32 % 16) as int),
        ]
    } else {
        seq![c]
    }
}

/// A text as it is written inside a JSON string.
pub open spec fn json_chars(s: Seq<char>) -> Seq<char>
    decreases s.len(),
{
    if s.len() == 0 {
        Seq::empty()
    } else {
        json_chars(s.drop_last()) + json_char(s.last())
    }
}

/// A JSON string.
pub open spec fn json_string(s: Seq<char>) -> Seq<char> {
    "\""@ + json_chars(s) + "\""@
}

fn hex_char(n: u32) -> (c: char)
    requires
        n < 16,
    ensures
        c == hex_digit(n as int),
{
    match n {
        1 => '1',
        2 => '2',
        3 => '3',
        4 => '4',
        5 => '5',
        6 => '6',
        7 => '7',
        8 => '8',
        9 => '9',
        10 => 'a',
        11 => 'b',
        12 => 'c',
        13 => 'd',
        14 => 'e',
        15 => 'f',
        _ => '0',
    }
}

/// Appends a JSON string. Besides the quote, the backslash and control
/// characters everything is written as it is.
pub fn emit_string(s: &str, out: &mut String)
    ensures
        final(out)@ == old(out)@ + json_string(s@),
{
    let cs = chars_of(s);
    let ghost start = out@;
    out.append("\"");
    let mut i: usize = 0;
    assert(out@ + json_chars(s@.subrange(0, 0)) =~= start + "\""@);
    while i < cs.len()
        invariant
            i <= cs@.len(),
            cs@ == s@,
            out@ == start + "\""@ + json_chars(s@.subrange(0, i as int)),
        decreases cs@.len() - i,
    {
        assert(s@.subrange(0, i + 1).drop_last() =~= s@.subrange(0, i as int));
        let ghost before = out@;
        let c = cs[i];
        if c == '"' {
            out.append("\\\"");
        } else if c == '\\' {
            out.append("\\\\");
        } else if c == '\n' {
            out.append("\\n");
        } else if c == '\r' {
            out.append("\\r");
        } else if c == '\t' {
            out.append("\\t");
        } else if c == '\u{8}' {
            out.append("\\b");
        } else if c == '\u{c}' {
            out.append("\\f");
        } else if (c as u32) < 0x20 {
            out.append("\\u00");
            out.push(hex_char(c as u32 / 16));
            out.push(hex_char(c as u32 % 16));
        } else {
            out.push(c);
        }
        assert(out@ =~= before + json_char(c));
        assert(out@ =~= start + "\""@ + json_chars(s@.subrange(0, i + 1)));
        i = i + 1;
    }
    assert(s@.subrange(0, i as int) =~= s@);
    out.append("\"");
    assert(out@ =~= start + json_string(s@));
}

/// The first place at or behind `p` whose key comes after key number `x`.
pub open spec fn key_slot(keys: Seq<Seq<char>>, order: Seq<int>, x: int, p: int) -> int
    decreases order.len() - p,
{
    if p >= order.len() || text_before(keys[x], keys[order[p]]) {
        p
    } else {
        key_slot(keys, order, x, p + 1)
    }
}

/// The numbers of the first `n` keys in the order of the keys.
pub open spec fn key_order(keys: Seq<Seq<char>>, n: int) -> Seq<int>
    decreases n,
{
    if n <= 0 {
        Seq::empty()
    } else {
        let o = key_order(keys, n - 1);
        o.insert(key_slot(keys, o, n - 1, 0), n - 1)
    }
}

pub open spec fn keys_of(m: Seq<(Seq<char>, JsonModel)>) -> Seq<Seq<char>> {
    Seq::new(m.len(), |i: int| m[i].0)
}

/// A value written in one fixed way: the members of an object in the order of
/// their keys, `, ` and `: ` between, and no character escaped that need not
/// be.
pub open spec fn canonical(v: JsonModel) -> Seq<char>
    decreases v, 0nat,
{
    match v {
        JsonModel::Null => "null"@,
        JsonModel::Bool(b) => if b {
            "true"@
        } else {
            "false"@
        },
        JsonModel::Number(text, _, _) => text,
        JsonModel::Str(s) => json_string(s),
        JsonModel::Array(a) => "["@ + join(canonical_items(a, a.len()), ", "@) + "]"@,
        JsonModel::Object(m) => "{"@ + join(
            canonical_members(m, key_order(keys_of(m), m.len() as int), m.len()),
            ", "@,
        ) + "}"@,
    }
}

/// The first `n` items of an array in canonical form.
pub open spec fn canonical_items(a: Seq<JsonModel>, n: nat) -> Seq<Seq<char>>
    decreases a, n,
{
    if n == 0 || n > a.len() {
        Seq::empty()
    } else {
        canonical_items(a, (n - 1) as nat).push(canonical(a[n - 1]))
    }
}

/// The first `n` members of an object, in the given order, in canonical form.
pub open spec fn canonical_members(
    m: Seq<(Seq<char>, JsonModel)>,
    order: Seq<int>,
    n: nat,
) -> Seq<Seq<char>>
    decreases m, n,
{
    if n == 0 || n > order.len() || order[n - 1] < 0 || order[n - 1] >= m.len() {
        Seq::empty()
    } else {
        canonical_members(m, order, (n - 1) as nat).push(
            json_string(m[order[n - 1]].0) + ": "@ + canonical(m[order[n - 1]].1),
        )
    }
}

/// The members of an object in the order of their keys.
pub open spec fn sorted_members(m: Seq<(Seq<char>, JsonModel)>) -> Seq<(Seq<char>, JsonModel)> {
    let o = key_order(keys_of(m), m.len() as int);
    Seq::new(m.len(), |i: int| m[o[i]])
}

proof fn lemma_key_slot(keys: Seq<Seq<char>>, order: Seq<int>, x: int, p: int)
    requires
        0 <= p <= order.len(),
    ensures
        p <= key_slot(keys, order, x, p) <= order.len(),
        key_slot(keys, order, x, p) < order.len() ==> text_before(
            keys[x],
            keys[order[key_slot(keys, order, x, p)]],
        ),
        forall|q: int|
            p <= q < key_slot(keys, order, x, p) ==> !text_before(
                keys[x],
                keys[#[trigger] order[q]],
            ),
    decreases order.len() - p,
{
    if p < order.len() && !text_before(keys[x], keys[order[p]]) {
        lemma_key_slot(keys, order, x, p + 1);
    }
}

/// The order holds each number once.
proof fn lemma_key_order(keys: Seq<Seq<char>>, n: int)
    requires
        0 <= n <= keys.len(),
    ensures
        key_order(keys, n).len() == n,
        forall|i: int| 0 <= i < n ==> 0 <= #[trigger] key_order(keys, n)[i] < n,
        forall|x: int| 0 <= x < n ==> key_order(keys, n).contains(x),
    decreases n,
{
    if n > 0 {
        lemma_key_order(keys, n - 1);
        let o = key_order(keys, n - 1);
        let p = key_slot(keys, o, n - 1, 0);
        lemma_key_slot(keys, o, n - 1, 0);
        o.insert_ensures(p, n - 1);
        let w = key_order(keys, n);
        assert forall|x: int| 0 <= x < n implies w.contains(x) by {
            if x == n - 1 {
                assert(w[p] == x);
            } else {
                assert(o.contains(x));
                let i = choose|i: int| 0 <= i < o.len() && o[i] == x;
                if i < p {
                    assert(w[i] == x);
                } else {
                    assert(w[i + 1] == x);
                }
            }
        }
    }
}

/// No two keys are equal.
pub open spec fn distinct_keys(m: Seq<(Seq<char>, JsonModel)>) -> bool {
    forall|i: int, j: int| 0 <= i < j < m.len() ==> (#[trigger] m[i]).0 != (#[trigger] m[j]).0
}

/// Different keys stand in strict order.
proof fn lemma_key_order_strict(keys: Seq<Seq<char>>, n: int)
    requires
        0 <= n <= keys.len(),
        forall|i: int, j: int| 0 <= i < j < keys.len() ==> #[trigger] keys[i] != #[trigger] keys[j],
    ensures
        forall|i: int, j: int|
            0 <= i < j < n ==> text_before(
                keys[#[trigger] key_order(keys, n)[i]],
                keys[#[trigger] key_order(keys, n)[j]],
            ),
    decreases n,
{
    if n > 0 {
        lemma_key_order_strict(keys, n - 1);
        lemma_key_order(keys, n - 1);
        let o = key_order(keys, n - 1);
        let p = key_slot(keys, o, n - 1, 0);
        lemma_key_slot(keys, o, n - 1, 0);
        o.insert_ensures(p, n - 1);
        let w = key_order(keys, n);
        assert forall|i: int, j: int| 0 <= i < j < n implies text_before(
            keys[#[trigger] w[i]],
            keys[#[trigger] w[j]],
        ) by {
            let oi = if i < p { i } else { i - 1 };
            let oj = if j < p { j } else { j - 1 };
            if i != p && j != p {
                assert(w[i] == o[oi] && w[j] == o[oj]);
            } else if j == p {
                assert(w[i] == o[i]);
                assert(0 <= o[i] < n - 1);
                text_order_is_total(keys[o[i]], keys[n - 1]);
            } else {
                assert(w[j] == o[j - 1]);
                if j - 1 > p {
                    assert(text_before(keys[o[p]], keys[o[j - 1]]));
                    text_order_is_transitive(keys[n - 1], keys[o[p]], keys[o[j - 1]]);
                }
            }
        }
    }
}

/// Sequences in strict order with the same members are equal.
proof fn lemma_strict_unique(a: Seq<(Seq<char>, JsonModel)>, b: Seq<(Seq<char>, JsonModel)>)
    requires
        forall|i: int, j: int|
            0 <= i < j < a.len() ==> text_before((#[trigger] a[i]).0, (#[trigger] a[j]).0),
        forall|i: int, j: int|
            0 <= i < j < b.len() ==> text_before((#[trigger] b[i]).0, (#[trigger] b[j]).0),
        forall|x: (Seq<char>, JsonModel)| #[trigger] a.contains(x) <==> b.contains(x),
    ensures
        a == b,
    decreases a.len(),
{
    if a.len() == 0 {
        if b.len() > 0 {
            assert(b.contains(b[0]));
            assert(a.contains(b[0]));
        }
        assert(a =~= b);
    } else {
        assert(a.contains(a[0]));
        assert(b.contains(a[0]));
        let j = choose|j: int| 0 <= j < b.len() && b[j] == a[0];
        assert(b.contains(b[0]));
        assert(a.contains(b[0]));
        let i = choose|i: int| 0 <= i < a.len() && a[i] == b[0];
        if i > 0 {
            assert(text_before(a[0].0, a[i].0));
            if j > 0 {
                assert(text_before(b[0].0, b[j].0));
            }
            text_order_is_total(a[0].0, b[0].0);
        }
        assert(a[0] == b[0]);
        let a1 = a.drop_first();
        let b1 = b.drop_first();
        assert forall|x: (Seq<char>, JsonModel)| #[trigger] a1.contains(x) implies b1.contains(
            x,
        ) by {
            let k = choose|k: int| 0 <= k < a1.len() && a1[k] == x;
            assert(a[k + 1] == x);
            assert(a.contains(x));
            assert(b.contains(x));
            let q = choose|q: int| 0 <= q < b.len() && b[q] == x;
            assert(text_before(a[0].0, a[k + 1].0));
            text_order_is_total(a[0].0, a[0].0);
            assert(q > 0);
            assert(b1[q - 1] == x);
        }
        assert forall|x: (Seq<char>, JsonModel)| #[trigger] b1.contains(x) implies a1.contains(
            x,
        ) by {
            let k = choose|k: int| 0 <= k < b1.len() && b1[k] == x;
            assert(b[k + 1] == x);
            assert(b.contains(x));
            assert(a.contains(x));
            let q = choose|q: int| 0 <= q < a.len() && a[q] == x;
            assert(text_before(b[0].0, b[k + 1].0));
            text_order_is_total(b[0].0, b[0].0);
            assert(q > 0);
            assert(a1[q - 1] == x);
        }
        lemma_strict_unique(a1, b1);
        assert(a =~= seq![a[0]] + a1);
        assert(b =~= seq![b[0]] + b1);
    }
}

proof fn lemma_sorted_members(m: Seq<(Seq<char>, JsonModel)>)
    requires
        distinct_keys(m),
    ensures
        forall|i: int, j: int|
            0 <= i < j < m.len() ==> text_before(
                (#[trigger] sorted_members(m)[i]).0,
                (#[trigger] sorted_members(m)[j]).0,
            ),
        forall|x: (Seq<char>, JsonModel)|
            #[trigger] sorted_members(m).contains(x) <==> m.contains(x),
{
    let n = m.len() as int;
    let keys = keys_of(m);
    let o = key_order(keys, n);
    lemma_key_order(keys, n);
    lemma_key_order_strict(keys, n);
    let s = sorted_members(m);
    assert forall|i: int, j: int| 0 <= i < j < n implies text_before(
        (#[trigger] s[i]).0,
        (#[trigger] s[j]).0,
    ) by {
        assert(text_before(keys[o[i]], keys[o[j]]));
        assert(0 <= o[i] < n && 0 <= o[j] < n);
    }
    assert forall|x: (Seq<char>, JsonModel)| #[trigger] s.contains(x) <==> m.contains(x) by {
        if s.contains(x) {
            let i = choose|i: int| 0 <= i < s.len() && s[i] == x;
            assert(0 <= o[i] < n);
            assert(m[o[i]] == x);
        }
        if m.contains(x) {
            let k = choose|k: int| 0 <= k < m.len() && m[k] == x;
            assert(o.contains(k));
            let i = choose|i: int| 0 <= i < o.len() && o[i] == k;
            assert(s[i] == x);
        }
    }
}

/// The canonical form of an object is the same whatever the order of its
/// members.
pub proof fn canonical_forgets_member_order(
    a: Seq<(Seq<char>, JsonModel)>,
    b: Seq<(Seq<char>, JsonModel)>,
)
    requires
        distinct_keys(a),
        distinct_keys(b),
        forall|x: (Seq<char>, JsonModel)| #[trigger] a.contains(x) <==> b.contains(x),
    ensures
        canonical(JsonModel::Object(a)) == canonical(JsonModel::Object(b)),
{
    lemma_sorted_members(a);
    lemma_sorted_members(b);
    assert forall|x: (Seq<char>, JsonModel)| #[trigger]
        sorted_members(a).contains(x) <==> sorted_members(b).contains(x) by {
        assert(a.contains(x) <==> b.contains(x));
    }
    lemma_strict_unique(sorted_members(a), sorted_members(b));
    assert forall|i: int| 0 <= i < a.len() implies a[#[trigger] key_order(
        keys_of(a),
        a.len() as int,
    )[i]] == b[key_order(keys_of(b), b.len() as int)[i]] by {
        assert(sorted_members(a)[i] == sorted_members(b)[i]);
    }
    assert(sorted_members(a).len() == a.len());
    assert(sorted_members(b).len() == b.len());
    let oa = key_order(keys_of(a), a.len() as int);
    let ob = key_order(keys_of(b), b.len() as int);
    lemma_key_order(keys_of(a), a.len() as int);
    lemma_key_order(keys_of(b), b.len() as int);
    lemma_same_members(a, oa, b, ob, a.len());
}

proof fn lemma_same_members(
    a: Seq<(Seq<char>, JsonModel)>,
    oa: Seq<int>,
    b: Seq<(Seq<char>, JsonModel)>,
    ob: Seq<int>,
    n: nat,
)
    requires
        n <= oa.len(),
        n <= ob.len(),
        forall|i: int| 0 <= i < oa.len() ==> 0 <= #[trigger] oa[i] < a.len(),
        forall|i: int| 0 <= i < ob.len() ==> 0 <= #[trigger] ob[i] < b.len(),
        forall|i: int| 0 <= i < n ==> a[#[trigger] oa[i]] == b[ob[i]],
    ensures
        canonical_members(a, oa, n) == canonical_members(b, ob, n),
    decreases n,
{
    if n > 0 {
        lemma_same_members(a, oa, b, ob, (n - 1) as nat);
        assert(a[oa[n - 1]] == b[ob[n - 1]]);
        assert(0 <= ob[n - 1] < b.len());
    }
}

proof fn lemma_items_step(a: Seq<JsonModel>, n: nat)
    requires
        n < a.len(),
    ensures
        canonical_items(a, n + 1) == canonical_items(a, n).push(canonical(a[n as int])),
        canonical_items(a, n + 1).drop_last() == canonical_items(a, n),
        canonical_items(a, n).len() == n,
    decreases n,
{
    if n > 0 {
        lemma_items_step(a, (n - 1) as nat);
    }
    assert(canonical_items(a, n + 1).drop_last() =~= canonical_items(a, n));
}

proof fn lemma_members_step(m: Seq<(Seq<char>, JsonModel)>, order: Seq<int>, n: nat)
    requires
        n < order.len(),
        forall|i: int| 0 <= i < order.len() ==> 0 <= #[trigger] order[i] < m.len(),
    ensures
        canonical_members(m, order, n + 1) == canonical_members(m, order, n).push(
            json_string(m[order[n as int]].0) + ": "@ + canonical(m[order[n as int]].1),
        ),
        canonical_members(m, order, n + 1).drop_last() == canonical_members(m, order, n),
        canonical_members(m, order, n).len() == n,
    decreases n,
{
    assert(0 <= order[n as int] < m.len());
    if n > 0 {
        lemma_members_step(m, order, (n - 1) as nat);
    }
    assert(canonical_members(m, order, n + 1).drop_last() =~= canonical_members(m, order, n));
}

pub open spec fn member_keys(m: Seq<(String, Json)>) -> Seq<Seq<char>> {
    Seq::new(m.len(), |i: int| m[i].0@)
}

/// The numbers of the members of an object in the order of their keys.
fn member_order(m: &Vec<(String, Json)>) -> (r: Vec<usize>)
    ensures
        ints(r@) == key_order(member_keys(m@), m@.len() as int),
        r@.len() == m@.len(),
        forall|i: int| 0 <= i < r@.len() ==> (#[trigger] r@[i]) < m@.len(),
{
    let ghost keys = member_keys(m@);
    let mut order: Vec<usize> = Vec::new();
    let mut x: usize = 0;
    assert(ints(order@) =~= Seq::<int>::empty());
    while x < m.len()
        invariant
            x <= m@.len(),
            keys == member_keys(m@),
            order@.len() == x,
            ints(order@) == key_order(keys, x as int),
            forall|i: int| 0 <= i < order@.len() ==> (#[trigger] order@[i]) < x,
        decreases m@.len() - x,
    {
        let ghost o = ints(order@);
        let mut p: usize = 0;
        while p < order.len() && !comes_before(m[x].0.as_str(), m[order[p]].0.as_str())
            invariant
                p <= order@.len(),
                order@.len() == x,
                x < m@.len(),
                keys == member_keys(m@),
                o == ints(order@),
                forall|i: int| 0 <= i < order@.len() ==> (#[trigger] order@[i]) < x,
                key_slot(keys, o, x as int, 0) == key_slot(keys, o, x as int, p as int),
            decreases order@.len() - p,
        {
            assert(o[p as int] == order@[p as int]);
            p = p + 1;
        }
        proof {
            if p < order@.len() {
                assert(o[p as int] == order@[p as int]);
            }
            lemma_key_slot(keys, o, x as int, 0);
        }
        order.insert(p, x);
        assert(ints(order@) =~= o.insert(p as int, x as int));
        x = x + 1;
    }
    order
}

/// Appends a value in canonical form.
pub fn emit(v: &Json, out: &mut String)
    ensures
        final(out)@ == old(out)@ + canonical(v@),
    decreases v@,
{
    let ghost start = out@;
    let ghost whole = v@;
    match v {
        Json::Null => out.append("null"),
        Json::Bool(b) => {
            if *b {
                out.append("true")
            } else {
                out.append("false")
            }
        },
        Json::Number(n) => out.append(n.text()),
        Json::Str(s) => emit_string(s.as_str(), out),
        Json::Array(a) => {
            proof {
                lemma_items_model(a@, a@.len());
            }
            let ghost model = whole->Array_0;
            out.append("[");
            let mut i: usize = 0;
            assert(out@ + join(canonical_items(model, 0), ", "@) =~= out@);
            while i < a.len()
                invariant
                    i <= a@.len(),
                    whole == v@,
                    whole is Array,
                    model == whole->Array_0,
                    model.len() == a@.len(),
                    forall|k: int| 0 <= k < a@.len() ==> (#[trigger] a@[k])@ == model[k],
                    out@ == start + "["@ + join(canonical_items(model, i as nat), ", "@),
                decreases a@.len() - i,
            {
                let ghost before = out@;
                proof {
                    lemma_items_step(model, i as nat);
                    assert(a@[i as int]@ == model[i as int]);
                    assert(decreases_to!(model => model[i as int]));
                    assert(decreases_to!(whole => whole->Array_0));
                }
                if i > 0 {
                    out.append(", ");
                }
                emit(&a[i], out);
                assert(out@ =~= start + "["@ + join(canonical_items(model, (i + 1) as nat), ", "@));
                i = i + 1;
            }
            out.append("]");
            assert(out@ =~= start + canonical(whole));
        },
        Json::Object(m) => {
            proof {
                lemma_members_model(m@, m@.len());
            }
            let ghost model = whole->Object_0;
            let order = member_order(m);
            let ghost o = ints(order@);
            assert(keys_of(model) =~= member_keys(m@));
            assert(forall|k: int| 0 <= k < o.len() ==> o[k] == order@[k]);
            out.append("{");
            let mut i: usize = 0;
            assert(out@ + join(canonical_members(model, o, 0), ", "@) =~= out@);
            while i < m.len()
                invariant
                    i <= m@.len(),
                    whole == v@,
                    whole is Object,
                    model == whole->Object_0,
                    model.len() == m@.len(),
                    order@.len() == m@.len(),
                    o == ints(order@),
                    forall|k: int| 0 <= k < o.len() ==> 0 <= #[trigger] o[k] < model.len(),
                    forall|k: int|
                        0 <= k < m@.len() ==> (#[trigger] m@[k]).0@ == model[k].0 && m@[k].1@
                            == model[k].1,
                    out@ == start + "{"@ + join(canonical_members(model, o, i as nat), ", "@),
                decreases m@.len() - i,
            {
                let at: usize = order[i];
                proof {
                    lemma_members_step(model, o, i as nat);
                    assert(o[i as int] == at);
                    assert(m@[at as int].1@ == model[at as int].1);
                    assert(decreases_to!(model => model[at as int]));
                    assert(decreases_to!(model[at as int] => model[at as int].1));
                    assert(decreases_to!(whole => whole->Object_0));
                }
                if i > 0 {
                    out.append(", ");
                }
                emit_string(m[at].0.as_str(), out);
                out.append(": ");
                emit(&m[at].1, out);
                assert(out@ =~= start + "{"@ + join(
                    canonical_members(model, o, (i + 1) as nat),
                    ", "@,
                ));
                i = i + 1;
            }
            out.append("}");
            assert(out@ =~= start + canonical(whole));
        },
    }
}

/// The value of the first member with a key.
pub open spec fn member_of(m: Seq<(Seq<char>, JsonModel)>, key: Seq<char>) -> Option<JsonModel>
    decreases m.len(),
{
    if m.len() == 0 {
        None
    } else if m[0].0 == key {
        Some(m[0].1)
    } else {
        member_of(m.drop_first(), key)
    }
}

impl JsonModel {
    /// The value of a member of an object.
    pub open spec fn member(self, key: Seq<char>) -> Option<JsonModel> {
        match self {
            JsonModel::Object(m) => member_of(m, key),
            _ => None,
        }
    }

    /// The text of a member that is a string.
    pub open spec fn text_member(self, key: Seq<char>) -> Option<Seq<char>> {
        match self.member(key) {
            Some(JsonModel::Str(s)) => Some(s),
            _ => None,
        }
    }
}

impl Json {
    /// The value of a member of an object; nothing where this is no object or
    /// has no such member.
    pub fn get(&self, key: &str) -> (r: Option<&Json>)
        ensures
            match r {
                Some(j) => self@.member(key@) == Some(j@),
                None => self@.member(key@) is None,
            },
    {
        match self {
            Json::Object(m) => {
                proof {
                    lemma_members_model(m@, m@.len());
                }
                let ghost model = self@->Object_0;
                let n: usize = m.len();
                let mut i: usize = 0;
                assert(model.subrange(0, model.len() as int) =~= model);
                while i < n
                    invariant
                        i <= n,
                        n == m@.len(),
                        n == model.len(),
                        forall|k: int|
                            0 <= k < m@.len() ==> (#[trigger] m@[k]).0@ == model[k].0 && m@[k].1@
                                == model[k].1,
                        self@.member(key@) == member_of(
                            model.subrange(i as int, n as int),
                            key@,
                        ),
                    decreases n - i,
                {
                    let ghost rest = model.subrange(i as int, n as int);
                    assert(rest[0] == model[i as int]);
                    assert(rest.drop_first() =~= model.subrange(i + 1, n as int));
                    if same_text(m[i].0.as_str(), key) {
                        return Some(&m[i].1);
                    }
                    i = i + 1;
                }
                None
            },
            _ => None,
        }
    }

    /// The text of a member that is a string.
    pub fn get_text(&self, key: &str) -> (r: Option<&String>)
        ensures
            match r {
                Some(s) => self@.text_member(key@) == Some(s@),
                None => self@.text_member(key@) is None,
            },
    {
        match self.get(key) {
            Some(Json::Str(s)) => Some(s),
            _ => None,
        }
    }
}

/// A key finds the first member that has it, and nothing if none does.
pub proof fn keys_find_their_first_member(
    m: Seq<(Seq<char>, JsonModel)>,
    key: Seq<char>,
    i: int,
)
    ensures
        0 <= i < m.len() && m[i].0 == key && (forall|k: int|
            0 <= k < i ==> (#[trigger] m[k]).0 != key) ==> member_of(m, key) == Some(m[i].1),
        (forall|k: int| 0 <= k < m.len() ==> (#[trigger] m[k]).0 != key) ==> member_of(
            m,
            key,
        ) is None,
    decreases m.len(),
{
    if m.len() > 0 {
        let t = m.drop_first();
        keys_find_their_first_member(t, key, i - 1);
        if 0 <= i < m.len() && m[i].0 == key && (forall|k: int|
            0 <= k < i ==> (#[trigger] m[k]).0 != key) && i > 0 {
            assert(m[0].0 != key);
            assert(t[i - 1] == m[i]);
            assert forall|k: int| 0 <= k < i - 1 implies (#[trigger] t[k]).0 != key by {
                assert(t[k] == m[k + 1]);
            }
        }
        if forall|k: int| 0 <= k < m.len() ==> (#[trigger] m[k]).0 != key {
            assert(m[0].0 != key);
            assert forall|k: int| 0 <= k < t.len() implies (#[trigger] t[k]).0 != key by {
                assert(t[k] == m[k + 1]);
            }
        }
    }
}

proof fn lemma_ascending(m: Seq<(Seq<char>, JsonModel)>, i: int, j: int)
    requires
        ascending(m),
        0 <= i < j < m.len(),
    ensures
        text_before(m[i].0, m[j].0),
        m[i].0 != m[j].0,
    decreases j - i,
{
    assert(in_order(m, j - 1));
    if i < j - 1 {
        lemma_ascending(m, i, j - 1);
        text_order_is_transitive(m[i].0, m[j - 1].0, m[j].0);
    }
    text_order_is_total(m[i].0, m[j].0);
}

proof fn lemma_found(m: Seq<(Seq<char>, JsonModel)>, i: int)
    requires
        ascending(m),
        0 <= i < m.len(),
    ensures
        member_of(m, m[i].0) == Some(m[i].1),
{
    assert forall|k: int| 0 <= k < i implies (#[trigger] m[k]).0 != m[i].0 by {
        lemma_ascending(m, k, i);
    }
    keys_find_their_first_member(m, m[i].0, i);
}

/// Setting a member changes that one and no other.
pub proof fn setting_changes_one_member(
    m: Seq<(Seq<char>, JsonModel)>,
    key: Seq<char>,
    value: JsonModel,
    other: Seq<char>,
)
    requires
        ascending(m),
    ensures
        member_of(with_member(m, key, value), key) == Some(value),
        other != key ==> member_of(with_member(m, key, value), other) == member_of(m, other),
{
    let w = with_member(m, key, value);
    let p = member_place(m, key, 0);
    lemma_member_place(m, key, 0);
    set_members_stay_in_order(m, key, value);
    assert(w[p] == (key, value));
    lemma_found(w, p);
    let update = p < m.len() && m[p].0 == key;
    if other != key {
        if exists|i: int| 0 <= i < m.len() && (#[trigger] m[i]).0 == other {
            let i = choose|i: int| 0 <= i < m.len() && (#[trigger] m[i]).0 == other;
            lemma_found(m, i);
            let j = if update || i < p {
                i
            } else {
                i + 1
            };
            assert(w[j] == m[i]);
            lemma_found(w, j);
        } else {
            keys_find_their_first_member(m, other, 0);
            assert forall|k: int| 0 <= k < w.len() implies (#[trigger] w[k]).0 != other by {
                if k != p {
                    let i = if update || k < p {
                        k
                    } else {
                        k - 1
                    };
                    assert(w[k] == m[i]);
                }
            }
            keys_find_their_first_member(w, other, 0);
        }
    }
}

/// Of members that are set one after the other the last with a key counts, and a key
/// that none of them has keeps its value.
pub proof fn the_last_member_set_counts(
    m: Seq<(Seq<char>, JsonModel)>,
    others: Seq<(Seq<char>, JsonModel)>,
    key: Seq<char>,
    i: int,
)
    requires
        ascending(m),
    ensures
        ascending(with_members(m, others)),
        0 <= i < others.len() && others[i].0 == key && (forall|k: int|
            i < k < others.len() ==> (#[trigger] others[k]).0 != key) ==> member_of(
            with_members(m, others),
            key,
        ) == Some(others[i].1),
        (forall|k: int| 0 <= k < others.len() ==> (#[trigger] others[k]).0 != key) ==> member_of(
            with_members(m, others),
            key,
        ) == member_of(m, key),
    decreases others.len(),
{
    if others.len() > 0 {
        let t = others.drop_last();
        let last = others.last();
        the_last_member_set_counts(m, t, key, i);
        set_members_stay_in_order(with_members(m, t), last.0, last.1);
        setting_changes_one_member(with_members(m, t), last.0, last.1, key);
        assert(others[others.len() - 1] == last);
        assert(forall|k: int| 0 <= k < t.len() ==> t[k] == #[trigger] others[k]);
    }
}

/// What is written inside a string is written character by character: only quotes,
/// backslashes and control characters are changed.
pub proof fn strings_are_written_by_characters(a: Seq<char>, b: Seq<char>, c: char)
    ensures
        json_chars(a + b) == json_chars(a) + json_chars(b),
        json_chars(seq!['"']) == seq!['\\', '"'],
        json_chars(seq!['\\']) == seq!['\\', '\\'],
        json_chars(seq!['\n']) == seq!['\\', 'n'],
        json_chars(seq!['\r']) == seq!['\\', 'r'],
        json_chars(seq!['\t']) == seq!['\\', 't'],
        c != '"' && c != '\\' && (c as u32) >= 0x20 ==> json_chars(seq![c]) == seq![c],
        (forall|i: int|
            0 <= i < a.len() ==> (#[trigger] a[i]) != '"' && a[i] != '\\' && (a[i] as u32) >= 0x20)
            ==> json_string(a) == seq!['"'] + a + seq!['"'],
{
    lemma_json_chars_concat(a, b);
    lemma_json_char('"');
    lemma_json_char('\\');
    lemma_json_char('\n');
    lemma_json_char('\r');
    lemma_json_char('\t');
    lemma_json_char(c);
    reveal_strlit("\\\"");
    reveal_strlit("\\\\");
    reveal_strlit("\\n");
    reveal_strlit("\\r");
    reveal_strlit("\\t");
    reveal_strlit("\"");
    assert(json_char('"') =~= seq!['\\', '"']);
    assert(json_char('\\') =~= seq!['\\', '\\']);
    assert(json_char('\n') =~= seq!['\\', 'n']);
    assert(json_char('\r') =~= seq!['\\', 'r']);
    assert(json_char('\t') =~= seq!['\\', 't']);
    if forall|i: int|
        0 <= i < a.len() ==> (#[trigger] a[i]) != '"' && a[i] != '\\' && (a[i] as u32) >= 0x20 {
        lemma_plain_json_chars(a);
        assert("\""@ =~= seq!['"']);
    }
}

proof fn lemma_json_char(c: char)
    ensures
        json_chars(seq![c]) == json_char(c),
{
    reveal_with_fuel(json_chars, 2);
    assert(seq![c].drop_last() =~= Seq::<char>::empty());
    assert(Seq::<char>::empty() + json_char(c) =~= json_char(c));
}

proof fn lemma_json_chars_concat(a: Seq<char>, b: Seq<char>)
    ensures
        json_chars(a + b) == json_chars(a) + json_chars(b),
    decreases b.len(),
{
    if b.len() == 0 {
        assert(a + b =~= a);
        assert(json_chars(a) + json_chars(b) =~= json_chars(a));
    } else {
        lemma_json_chars_concat(a, b.drop_last());
        assert((a + b).drop_last() =~= a + b.drop_last());
        assert((a + b).last() == b.last());
        assert(json_chars(a) + (json_chars(b.drop_last()) + json_char(b.last())) =~= json_chars(a)
            + json_chars(b.drop_last()) + json_char(b.last()));
    }
}

proof fn lemma_plain_json_chars(a: Seq<char>)
    requires
        forall|i: int|
            0 <= i < a.len() ==> (#[trigger] a[i]) != '"' && a[i] != '\\' && (a[i] as u32) >= 0x20,
    ensures
        json_chars(a) == a,
    decreases a.len(),
{
    if a.len() > 0 {
        lemma_plain_json_chars(a.drop_last());
        assert(a[a.len() - 1] == a.last());
        assert(a.drop_last() + seq![a.last()] =~= a);
    }
}

/// The canonical form of an object holds each of its members: the key as a string, a
/// colon and the canonical form of the value.
pub proof fn canonical_objects_hold_every_member(m: Seq<(Seq<char>, JsonModel)>, i: int)
    requires
        0 <= i < m.len(),
    ensures
        contains(
            canonical(JsonModel::Object(m)),
            json_string(m[i].0) + ": "@ + canonical(m[i].1),
        ),
{
    let o = key_order(keys_of(m), m.len() as int);
    lemma_key_order(keys_of(m), m.len() as int);
    assert(o.contains(i));
    let p = choose|p: int| 0 <= p < o.len() && o[p] == i;
    let parts = canonical_members(m, o, m.len());
    lemma_canonical_members(m, o, m.len(), p);
    joined_parts_are_there(parts, ", "@, p);
    parts_hold_in_the_whole("{"@, join(parts, ", "@), "}"@, parts[p]);
}

proof fn lemma_canonical_members(
    m: Seq<(Seq<char>, JsonModel)>,
    order: Seq<int>,
    n: nat,
    p: int,
)
    requires
        0 <= p < n <= order.len(),
        forall|i: int| 0 <= i < order.len() ==> 0 <= #[trigger] order[i] < m.len(),
    ensures
        canonical_members(m, order, n).len() == n,
        canonical_members(m, order, n)[p] == json_string(m[order[p]].0) + ": "@ + canonical(
            m[order[p]].1,
        ),
    decreases n,
{
    lemma_members_step(m, order, (n - 1) as nat);
    if p < n - 1 {
        lemma_canonical_members(m, order, (n - 1) as nat, p);
    }
}

/// The canonical form of a list holds each of its items.
pub proof fn canonical_lists_hold_every_item(a: Seq<JsonModel>, i: int)
    requires
        0 <= i < a.len(),
    ensures
        contains(canonical(JsonModel::Array(a)), canonical(a[i])),
{
    let parts = canonical_items(a, a.len());
    lemma_canonical_items(a, a.len(), i);
    joined_parts_are_there(parts, ", "@, i);
    parts_hold_in_the_whole("["@, join(parts, ", "@), "]"@, parts[i]);
}

proof fn lemma_canonical_items(a: Seq<JsonModel>, n: nat, p: int)
    requires
        0 <= p < n <= a.len(),
    ensures
        canonical_items(a, n).len() == n,
        canonical_items(a, n)[p] == canonical(a[p]),
    decreases n,
{
    lemma_items_step(a, (n - 1) as nat);
    if p < n - 1 {
        lemma_canonical_items(a, (n - 1) as nat, p);
    }
}

/// A value that is held as serde_json holds it is written as it stands, on one line or
/// on several.
pub proof fn tidy_values_are_written_as_they_stand(v: JsonModel)
    requires
        tidy(v),
    ensures
        compact(v) == json_text(v),
        pretty(v) == json_pretty(v),
{
    tidy_values_stay(v);
}

/// Of members with one key the last counts, and no other member is lost.
pub proof fn the_last_of_equal_keys_counts(
    m: Seq<(Seq<char>, JsonModel)>,
    key: Seq<char>,
    i: int,
)
    ensures
        0 <= i < m.len() && m[i].0 == key && (forall|k: int|
            i < k < m.len() ==> (#[trigger] m[k]).0 != key) ==> settled(
            JsonModel::Object(m),
        ).member(key) == Some(settled(m[i].1)),
        (forall|k: int| 0 <= k < m.len() ==> (#[trigger] m[k]).0 != key) ==> settled(
            JsonModel::Object(m),
        ).member(key) is None,
{
    lemma_settled_member(m, m.len(), key, i);
}

proof fn lemma_settled_member(
    m: Seq<(Seq<char>, JsonModel)>,
    n: nat,
    key: Seq<char>,
    i: int,
)
    requires
        n <= m.len(),
    ensures
        ascending(settled_members(m, n)),
        0 <= i < n && m[i].0 == key && (forall|k: int| i < k < n ==> (#[trigger] m[k]).0 != key)
            ==> member_of(settled_members(m, n), key) == Some(settled(m[i].1)),
        (forall|k: int| 0 <= k < n ==> (#[trigger] m[k]).0 != key) ==> member_of(
            settled_members(m, n),
            key,
        ) is None,
    decreases n,
{
    if n > 0 {
        let p = (n - 1) as nat;
        lemma_settled_member(m, p, key, i);
        let t = settled_members(m, p);
        set_members_stay_in_order(t, m[n - 1].0, settled(m[n - 1].1));
        setting_changes_one_member(t, m[n - 1].0, settled(m[n - 1].1), key);
    }
}

} // verus!
