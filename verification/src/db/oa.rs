//! Sites, sessions and cases of an office system.
use vstd::prelude::*;
use crate::json::{
    add_item, compact, compact_json, doubled, items_model, lemma_items_model, members_model, optional,
    put, Json, JsonModel, JsonNumber,
};
use crate::court_sms::{signed_decimal, signed_text};
use crate::numbers::{decimals_differ, is_digit, lemma_decimal_number};
use crate::text::{
    cat2, cat3, chars_of, contains, copy_range, decimal, full_texts_stay, is_blank, is_white, join,
    join_texts, joined_parts_are_there, occurs_at, same_text, split_on, split_text,
    splitting_goes_side_by_side, string_of, texts, trim, trim_text,
};

verus! {

/// A site of the office system.
pub struct OAConfig {
    pub id: String,
    pub site_name: String,
    pub login_url: String,
    pub oa_type: String,
    pub is_enabled: i64,
    pub field_mapping: String,
    pub created_at: String,
    pub updated_at: String,
}

/// A site that is to be entered.
pub struct NewOAConfig {
    pub site_name: String,
    pub login_url: String,
    pub oa_type: String,
    pub field_mapping: Option<String>,
}

/// What is to be changed of a site.
pub struct UpdateOAConfig {
    pub site_name: Option<String>,
    pub login_url: Option<String>,
    pub oa_type: Option<String>,
    pub is_enabled: Option<i64>,
    pub field_mapping: Option<String>,
}

/// A login to a site. Its password is kept elsewhere.
pub struct OACredential {
    pub id: String,
    pub oa_config_id: String,
    pub account: String,
    pub display_name: Option<String>,
    pub cookies_path: Option<String>,
    pub last_login_at: Option<String>,
    pub created_at: String,
    pub updated_at: String,
}

/// A login that is to be entered.
pub struct NewOACredential {
    pub oa_config_id: String,
    pub account: String,
    pub display_name: Option<String>,
}

/// Something that is done at a site.
pub struct OASession {
    pub id: String,
    pub oa_config_id: String,
    pub session_type: String,
    pub status: String,
    pub case_id: Option<String>,
    pub progress_pct: i64,
    pub progress_msg: String,
    pub result_json: Option<String>,
    pub error_message: String,
    pub started_at: Option<String>,
    pub completed_at: Option<String>,
    pub created_at: String,
    pub updated_at: String,
}

/// How many cases were taken over.
#[derive(Clone, Copy, Debug)]
pub struct OAImportReport {
    pub total: usize,
    pub inserted: usize,
    pub updated: usize,
    pub skipped: usize,
}

/// The type of a site of which none is named.
pub fn default_oa_type() -> (r: String)
    ensures
        r@ == "nedev"@,
{
    String::from_str("nedev")
}

/// The mapping of fields that is entered for a new site.
pub fn mapping_or_empty(mapping: &Option<String>) -> (r: String)
    ensures
        r@ == match *mapping {
            Some(m) => m@,
            None => "{}"@,
        },
{
    match mapping {
        Some(m) => m.clone(),
        None => String::from_str("{}"),
    }
}

/// A text, or another in its place.
pub open spec fn replaced_by(old_text: Seq<char>, new_text: Option<String>) -> Seq<char> {
    match new_text {
        Some(t) => t@,
        None => old_text,
    }
}

/// Something is to be changed.
pub open spec fn changes_something(patch: UpdateOAConfig) -> bool {
    patch.site_name is Some || patch.login_url is Some || patch.oa_type is Some
        || patch.is_enabled is Some || patch.field_mapping is Some
}

impl OAConfig {
    /// Changes what is to be changed and nothing else. The time of the last
    /// change is set only if there is a change.
    pub fn apply(&mut self, patch: UpdateOAConfig, now: &str)
        ensures
            final(self).id@ == old(self).id@,
            final(self).site_name@ == replaced_by(old(self).site_name@, patch.site_name),
            final(self).login_url@ == replaced_by(old(self).login_url@, patch.login_url),
            final(self).oa_type@ == replaced_by(old(self).oa_type@, patch.oa_type),
            final(self).is_enabled == (match patch.is_enabled {
                Some(e) => e,
                None => old(self).is_enabled,
            }),
            final(self).field_mapping@ == replaced_by(
                old(self).field_mapping@,
                patch.field_mapping,
            ),
            final(self).created_at@ == old(self).created_at@,
            final(self).updated_at@ == if changes_something(patch) {
                now@
            } else {
                old(self).updated_at@
            },
    {
        let mut changed = false;
        if let Some(v) = patch.site_name {
            self.site_name = v;
            changed = true;
        }
        if let Some(v) = patch.login_url {
            self.login_url = v;
            changed = true;
        }
        if let Some(v) = patch.oa_type {
            self.oa_type = v;
            changed = true;
        }
        if let Some(v) = patch.is_enabled {
            self.is_enabled = v;
            changed = true;
        }
        if let Some(v) = patch.field_mapping {
            self.field_mapping = v;
            changed = true;
        }
        if changed {
            self.updated_at = String::from_str(now);
        }
    }
}

/// The statuses that a session can be given.
#[derive(Clone, Copy, Debug, PartialEq, Eq, Structural)]
pub enum SessionStatus {
    Running,
    Completed,
    Failed,
    Conflict,
}

/// A session as data, without what never changes.
pub struct SessionModel {
    pub status: Seq<char>,
    pub progress_pct: int,
    pub progress_msg: Seq<char>,
    pub result_json: Option<Seq<char>>,
    pub error_message: Seq<char>,
    pub started_at: Option<Seq<char>>,
    pub completed_at: Option<Seq<char>>,
    pub updated_at: Seq<char>,
}

impl View for OASession {
    type V = SessionModel;

    open spec fn view(&self) -> SessionModel {
        SessionModel {
            status: self.status@,
            progress_pct: self.progress_pct as int,
            progress_msg: self.progress_msg@,
            result_json: optional(self.result_json),
            error_message: self.error_message@,
            started_at: optional(self.started_at),
            completed_at: optional(self.completed_at),
            updated_at: self.updated_at@,
        }
    }
}

/// A session after it was given a status.
pub open spec fn with_status(
    s: SessionModel,
    status: SessionStatus,
    error: Seq<char>,
    now: Seq<char>,
) -> SessionModel {
    match status {
        SessionStatus::Running => SessionModel {
            status: "running"@,
            started_at: Some(now),
            updated_at: now,
            ..s
        },
        SessionStatus::Completed => SessionModel {
            status: "completed"@,
            progress_pct: 100,
            completed_at: Some(now),
            updated_at: now,
            ..s
        },
        SessionStatus::Failed => SessionModel {
            status: "failed"@,
            error_message: error,
            completed_at: Some(now),
            updated_at: now,
            ..s
        },
        SessionStatus::Conflict => SessionModel {
            status: "conflict"@,
            error_message: error,
            updated_at: now,
            ..s
        },
    }
}

/// The status of a name; a session can be given no other.
pub open spec fn status_named(name: Seq<char>) -> Option<SessionStatus> {
    if name == "running"@ {
        Some(SessionStatus::Running)
    } else if name == "completed"@ {
        Some(SessionStatus::Completed)
    } else if name == "failed"@ {
        Some(SessionStatus::Failed)
    } else if name == "conflict"@ {
        Some(SessionStatus::Conflict)
    } else {
        None
    }
}

/// The session stays the one it is.
pub open spec fn same_session(a: OASession, b: OASession) -> bool {
    a.id@ == b.id@ && a.oa_config_id@ == b.oa_config_id@ && a.session_type@ == b.session_type@
        && optional(a.case_id) == optional(b.case_id) && a.created_at@ == b.created_at@
}

impl OASession {
    /// Gives the session a status by its name. Any other name changes nothing.
    pub fn set_status(&mut self, name: &str, error: Option<String>, now: &str)
        ensures
            same_session(*old(self), *final(self)),
            match status_named(name@) {
                Some(s) => final(self)@ == with_status(
                    old(self)@,
                    s,
                    match error {
                        Some(e) => e@,
                        None => Seq::empty(),
                    },
                    now@,
                ),
                None => final(self)@ == old(self)@,
            },
    {
        let error = match error {
            Some(e) => e,
            None => {
                let e = String::new();
                assert(e@ =~= Seq::empty());
                e
            },
        };
        if same_text(name, "running") {
            self.status = String::from_str("running");
            self.started_at = Some(String::from_str(now));
        } else if same_text(name, "completed") {
            self.status = String::from_str("completed");
            self.progress_pct = 100;
            self.completed_at = Some(String::from_str(now));
        } else if same_text(name, "failed") {
            self.status = String::from_str("failed");
            self.error_message = error;
            self.completed_at = Some(String::from_str(now));
        } else if same_text(name, "conflict") {
            self.status = String::from_str("conflict");
            self.error_message = error;
        } else {
            return;
        }
        self.updated_at = String::from_str(now);
    }
}

/// `s` without any number of the same beginning.
pub open spec fn without_lead(s: Seq<char>, lead: Seq<char>) -> Seq<char>
    decreases s.len(),
{
    if lead.len() > 0 && lead.is_prefix_of(s) {
        without_lead(s.subrange(lead.len() as int, s.len() as int), lead)
    } else {
        s
    }
}

/// The host of a site: its address without protocol and without slashes at the
/// end.
pub open spec fn host_of(site_url: Seq<char>) -> Seq<char> {
    crate::telemetry::without_slashes(
        without_lead(without_lead(trim(site_url), "https://"@), "http://"@),
    )
}

fn drop_lead(s: &[char], lead: &[char]) -> (r: Vec<char>)
    requires
        lead@.len() > 0,
    ensures
        r@ == without_lead(s@, lead@),
{
    let n: usize = s.len();
    let mut i: usize = 0;
    assert(s@.subrange(0, n as int) =~= s@);
    while crate::text::stands_at(s, lead, i)
        invariant
            n == s@.len(),
            i <= n,
            lead@.len() > 0,
            without_lead(s@, lead@) == without_lead(s@.subrange(i as int, n as int), lead@),
        decreases n - i,
    {
        let ghost rest = s@.subrange(i as int, n as int);
        assert(rest.subrange(0, lead@.len() as int) =~= lead@);
        assert(rest.subrange(lead@.len() as int, rest.len() as int) =~= s@.subrange(
            i + lead@.len(),
            n as int,
        ));
        i = i + lead.len();
    }
    let ghost rest = s@.subrange(i as int, n as int);
    proof {
        if lead@.is_prefix_of(rest) {
            assert(s@.subrange(i as int, i + lead@.len()) =~= rest.subrange(
                0,
                lead@.len() as int,
            ));
        }
    }
    copy_range(s, i, n)
}

/// The host of a site.
pub fn oa_host(site_url: &str) -> (r: String)
    ensures
        r@ == host_of(site_url@),
{
    let t = trim_text(site_url);
    let cs = chars_of(t.as_str());
    let https = chars_of("https://");
    let http = chars_of("http://");
    proof {
        reveal_strlit("https://");
        reveal_strlit("http://");
    }
    let a = drop_lead(cs.as_slice(), https.as_slice());
    let b = drop_lead(a.as_slice(), http.as_slice());
    let mut n: usize = b.len();
    assert(b@.subrange(0, n as int) =~= b@);
    while n > 0 && b[n - 1] == '/'
        invariant
            n <= b@.len(),
            crate::telemetry::without_slashes(b@) == crate::telemetry::without_slashes(
                b@.subrange(0, n as int),
            ),
        decreases n,
    {
        assert(b@.subrange(0, n as int).drop_last() =~= b@.subrange(0, n - 1));
        n = n - 1;
    }
    let head = copy_range(b.as_slice(), 0, n);
    string_of(head.as_slice())
}

/// A text of a case, trimmed; nothing if it is empty.
pub open spec fn text_of(item: JsonModel, key: Seq<char>) -> Option<Seq<char>> {
    match item.text_member(key) {
        Some(s) => if trim(s).len() == 0 {
            None
        } else {
            Some(trim(s))
        },
        None => None,
    }
}

/// A text of a case, trimmed; nothing if it is empty.
pub fn str_field(item: &Json, key: &str) -> (r: Option<String>)
    ensures
        optional(r) == text_of(item@, key@),
{
    match item.get_text(key) {
        Some(s) => {
            let t = trim_text(s.as_str());
            if t.as_str().unicode_len() == 0 {
                None
            } else {
                Some(t)
            }
        },
        None => None,
    }
}

/// An amount of a case, written as a double.
pub open spec fn amount_of(item: JsonModel, key: Seq<char>) -> Option<Seq<char>> {
    match item.member(key) {
        Some(JsonModel::Number(_, _, d)) => d,
        _ => None,
    }
}

/// An amount of a case, written as a double.
pub fn number_field(item: &Json, key: &str) -> (r: Option<String>)
    ensures
        optional(r) == amount_of(item@, key@),
{
    match item.get(key) {
        Some(Json::Number(n)) => n.double(),
        _ => None,
    }
}

/// One text or else another.
pub open spec fn either(a: Option<Seq<char>>, b: Option<Seq<char>>) -> Option<Seq<char>> {
    match a {
        Some(s) => Some(s),
        None => b,
    }
}

/// The name of a case: its parties and its cause, as far as they are there, or
/// else its number.
pub open spec fn name_of(item: JsonModel) -> Option<Seq<char>> {
    let cause = text_of(item, "causeAction"@);
    let wtr = text_of(item, "wtrNames"@);
    let tos = text_of(item, "tosNames"@);
    match (wtr, tos, cause) {
        (Some(a), Some(b), Some(c)) => Some(a + " 与 "@ + b + " "@ + c),
        (Some(a), None, Some(c)) => Some(a + " "@ + c),
        (Some(a), Some(b), None) => Some(a + " 与 "@ + b),
        (None, Some(b), Some(c)) => Some(b + " "@ + c),
        (Some(a), None, None) => Some(a),
        (None, None, Some(c)) => Some(c),
        _ => either(text_of(item, "no"@), text_of(item, "preNo"@)),
    }
}

/// The name of a case.
pub fn case_name(item: &Json) -> (r: Option<String>)
    ensures
        optional(r) == name_of(item@),
{
    let cause = str_field(item, "causeAction");
    let wtr = str_field(item, "wtrNames");
    let tos = str_field(item, "tosNames");
    match (wtr, tos, cause) {
        (Some(a), Some(b), Some(c)) => {
            let mut out = cat3(a.as_str(), " 与 ", b.as_str());
            out.append(" ");
            out.append(c.as_str());
            Some(out)
        },
        (Some(a), None, Some(c)) => Some(cat3(a.as_str(), " ", c.as_str())),
        (Some(a), Some(b), None) => Some(cat3(a.as_str(), " 与 ", b.as_str())),
        (None, Some(b), Some(c)) => Some(cat3(b.as_str(), " ", c.as_str())),
        (Some(a), None, None) => Some(a),
        (None, None, Some(c)) => Some(c),
        _ => match str_field(item, "no") {
            Some(n) => Some(n),
            None => str_field(item, "preNo"),
        },
    }
}

/// A character that stands between names.
pub open spec fn is_name_separator(c: char) -> bool {
    c == '、' || c == ',' || c == '，' || c == ';' || c == '；'
}

/// `s` with one separator for all.
pub open spec fn one_separator(s: Seq<char>) -> Seq<char> {
    Seq::new(
        s.len(),
        |i: int|
            if is_name_separator(s[i]) {
                ','
            } else {
                s[i]
            },
    )
}

/// The texts, trimmed, that are not empty.
pub open spec fn trimmed_parts(parts: Seq<Seq<char>>) -> Seq<Seq<char>>
    decreases parts.len(),
{
    if parts.len() == 0 {
        Seq::empty()
    } else {
        let t = trim(parts.last());
        if t.len() == 0 {
            trimmed_parts(parts.drop_last())
        } else {
            trimmed_parts(parts.drop_last()).push(t)
        }
    }
}

/// The names in a text.
pub open spec fn names_in(s: Seq<char>) -> Seq<Seq<char>> {
    trimmed_parts(split_on(one_separator(s), ','))
}

/// A list of texts.
pub open spec fn json_list(parts: Seq<Seq<char>>) -> JsonModel {
    JsonModel::Array(Seq::new(parts.len(), |i: int| JsonModel::Str(parts[i])))
}

/// The names of a side of a case, as a list in JSON.
pub open spec fn names_list(value: Option<Seq<char>>) -> Option<Seq<char>> {
    match value {
        None => None,
        Some(s) => if names_in(s).len() == 0 {
            None
        } else {
            compact(json_list(names_in(s))).ok()
        },
    }
}

fn to_json_list(parts: &Vec<String>) -> (r: Json)
    ensures
        r@ == json_list(texts(parts@)),
{
    let ghost want = json_list(texts(parts@))->Array_0;
    let mut items: Vec<Json> = Vec::new();
    let mut i: usize = 0;
    assert(items_model(items@, 0) =~= want.subrange(0, 0));
    while i < parts.len()
        invariant
            i <= parts@.len(),
            want == json_list(texts(parts@))->Array_0,
            items_model(items@, items@.len()) == want.subrange(0, i as int),
        decreases parts@.len() - i,
    {
        let item = Json::Str(parts[i].clone());
        assert(item@ == want[i as int]);
        assert(want.subrange(0, i + 1) =~= want.subrange(0, i as int).push(item@));
        add_item(&mut items, item);
        i = i + 1;
    }
    assert(want.subrange(0, i as int) =~= want);
    Json::Array(items)
}

/// The names of a side of a case, as a list in JSON; nothing if there are none.
pub fn names_json(value: Option<String>) -> (r: Option<String>)
    ensures
        optional(r) == names_list(optional(value)),
{
    let value = match value {
        Some(v) => v,
        None => {
            return None;
        },
    };
    let cs = chars_of(value.as_str());
    let mut plain = String::new();
    let mut i: usize = 0;
    while i < cs.len()
        invariant
            i <= cs@.len(),
            cs@ == value@,
            plain@ =~= one_separator(value@).subrange(0, i as int),
        decreases cs@.len() - i,
    {
        let c = cs[i];
        if c == '、' || c == ',' || c == '，' || c == ';' || c == '；' {
            plain.push(',');
        } else {
            plain.push(c);
        }
        i = i + 1;
    }
    assert(plain@ =~= one_separator(value@));
    let pieces = split_text(plain.as_str(), ',');
    let ghost all = texts(pieces@);
    let mut names: Vec<String> = Vec::new();
    let mut k: usize = 0;
    assert(texts(names@) =~= trimmed_parts(all.subrange(0, 0)));
    while k < pieces.len()
        invariant
            k <= pieces@.len(),
            all == texts(pieces@),
            texts(names@) == trimmed_parts(all.subrange(0, k as int)),
        decreases pieces@.len() - k,
    {
        assert(all.subrange(0, k + 1).drop_last() =~= all.subrange(0, k as int));
        let t = trim_text(pieces[k].as_str());
        if t.as_str().unicode_len() > 0 {
            let ghost before = texts(names@);
            names.push(t);
            assert(texts(names@) =~= before.push(t@));
        }
        k = k + 1;
    }
    assert(all.subrange(0, k as int) =~= all);
    assert(texts(names@).len() == names@.len());
    if names.len() == 0 {
        None
    } else {
        compact_json(&to_json_list(&names)).ok()
    }
}

/// A number, as JSON writes it, is greater than zero: it has no sign, and a
/// digit other than zero before its exponent.
pub open spec fn is_positive(number: Seq<char>) -> bool {
    number.len() > 0 && number[0] != '-' && exists|i: int|
        0 <= i < number.len() && '1' <= #[trigger] number[i] && number[i] <= '9' && forall|k: int|
            0 <= k < i ==> #[trigger] number[k] != 'e' && number[k] != 'E'
}

/// Whether a number, as JSON writes it, is greater than zero.
pub fn positive(number: &str) -> (r: bool)
    ensures
        r == is_positive(number@),
{
    let cs = chars_of(number);
    if cs.len() == 0 || cs[0] == '-' {
        return false;
    }
    let mut i: usize = 0;
    while i < cs.len()
        invariant
            i <= cs@.len(),
            cs@ == number@,
            cs@.len() > 0,
            cs@[0] != '-',
            forall|k: int|
                0 <= k < i ==> #[trigger] cs@[k] != 'e' && cs@[k] != 'E' && !('1' <= cs@[k]
                    && cs@[k] <= '9'),
        decreases cs@.len() - i,
    {
        let c = cs[i];
        if '1' <= c && c <= '9' {
            return true;
        }
        if c == 'e' || c == 'E' {
            return false;
        }
        i = i + 1;
    }
    false
}

/// An amount of a case, as a double.
pub open spec fn double_of(item: JsonModel, key: Seq<char>) -> Option<JsonModel> {
    match item.member(key) {
        Some(v) => doubled(v),
        None => None,
    }
}

fn double_field(item: &Json, key: &str) -> (r: Option<JsonNumber>)
    ensures
        match r {
            Some(n) => double_of(item@, key@) == Some(n@),
            None => double_of(item@, key@) is None,
        },
{
    match item.get(key) {
        Some(Json::Number(n)) => n.to_double(),
        _ => None,
    }
}

/// One fee.
pub open spec fn fee_entry(item: Seq<char>, amount: JsonModel) -> JsonModel {
    JsonModel::Object(
        seq![("amount"@, amount), ("item"@, JsonModel::Str(item)), ("note"@, JsonModel::Null)],
    )
}

/// The fees with one more, if there is an amount.
pub open spec fn with_fee(
    fees: Seq<JsonModel>,
    item: Seq<char>,
    amount: Option<JsonModel>,
) -> Seq<JsonModel> {
    match amount {
        Some(a) => fees.push(fee_entry(item, a)),
        None => fees,
    }
}

/// The fees of a case.
pub open spec fn fees_of(item: JsonModel) -> Seq<JsonModel> {
    let other = match amount_of(item, "otherCharge"@) {
        Some(a) => if is_positive(a) {
            double_of(item, "otherCharge"@)
        } else {
            None
        },
        None => None,
    };
    let f0 = Seq::<JsonModel>::empty();
    let f1 = with_fee(f0, "委托费用"@, double_of(item, "chargeAmount"@));
    let f2 = with_fee(f1, "其他收费"@, other);
    let f3 = with_fee(f2, "已收"@, double_of(item, "yishou"@));
    with_fee(f3, "未收"@, double_of(item, "weishou"@))
}

/// The fees of a case, as a list in JSON.
pub open spec fn fees_list(item: JsonModel) -> Option<Seq<char>> {
    if fees_of(item).len() == 0 {
        None
    } else {
        compact(JsonModel::Array(fees_of(item))).ok()
    }
}

pub open spec fn number_option(n: Option<JsonNumber>) -> Option<JsonModel> {
    match n {
        Some(v) => Some(v@),
        None => None,
    }
}

fn add_fee(fees: &mut Vec<Json>, item: &str, amount: Option<JsonNumber>)
    ensures
        items_model(final(fees)@, final(fees)@.len()) == with_fee(
            items_model(old(fees)@, old(fees)@.len()),
            item@,
            number_option(amount),
        ),
{
    if let Some(a) = amount {
        let ghost model = fee_entry(item@, a@);
        let mut m: Vec<(String, Json)> = Vec::new();
        put(&mut m, "amount", Json::Number(a));
        put(&mut m, "item", Json::Str(String::from_str(item)));
        put(&mut m, "note", Json::Null);
        assert(members_model(m@, m@.len()) =~= model->Object_0);
        add_item(fees, Json::Object(m));
    }
}

/// The fees of a case, as a list in JSON; nothing if there are none. Other
/// charges count only if there are any.
pub fn fees_json(item: &Json) -> (r: Option<String>)
    ensures
        optional(r) == fees_list(item@),
{
    let mut fees: Vec<Json> = Vec::new();
    assert(items_model(fees@, fees@.len()) =~= Seq::<JsonModel>::empty());
    add_fee(&mut fees, "委托费用", double_field(item, "chargeAmount"));
    let other = match number_field(item, "otherCharge") {
        Some(a) => if positive(a.as_str()) {
            double_field(item, "otherCharge")
        } else {
            None
        },
        None => None,
    };
    add_fee(&mut fees, "其他收费", other);
    add_fee(&mut fees, "已收", double_field(item, "yishou"));
    add_fee(&mut fees, "未收", double_field(item, "weishou"));
    proof {
        lemma_items_model(fees@, fees@.len());
    }
    if fees.len() == 0 {
        None
    } else {
        compact_json(&Json::Array(fees)).ok()
    }
}

/// The parts of a summary with one more, if there is a value.
pub open spec fn with_part(
    parts: Seq<Seq<char>>,
    label: Seq<char>,
    value: Option<Seq<char>>,
) -> Seq<Seq<char>> {
    match value {
        Some(v) => parts.push(label + ": "@ + v),
        None => parts,
    }
}

/// The parts of the summary of a case.
pub open spec fn summary_parts(item: JsonModel) -> Seq<Seq<char>> {
    let p0 = Seq::<Seq<char>>::empty();
    let p1 = with_part(p0, "OA案号"@, text_of(item, "no"@));
    let p2 = with_part(p1, "待审号"@, text_of(item, "preNo"@));
    let p3 = with_part(p2, "状态"@, text_of(item, "statusName"@));
    let p4 = with_part(p3, "案件分类"@, text_of(item, "caseCategoryName"@));
    with_part(p4, "经办律师"@, text_of(item, "empNames"@))
}

/// The summary of a case.
pub open spec fn summary_of(item: JsonModel) -> Option<Seq<char>> {
    if summary_parts(item).len() == 0 {
        None
    } else {
        Some(join(summary_parts(item), "；"@))
    }
}

fn add_part(parts: &mut Vec<String>, label: &str, value: Option<String>)
    ensures
        texts(final(parts)@) == with_part(texts(old(parts)@), label@, optional(value)),
{
    if let Some(v) = value {
        let ghost before = texts(parts@);
        parts.push(cat3(label, ": ", v.as_str()));
        assert(texts(parts@) =~= before.push(label@ + ": "@ + v@));
    }
}

/// The summary of a case; nothing if there is nothing to say.
pub fn summary_text(item: &Json) -> (r: Option<String>)
    ensures
        optional(r) == summary_of(item@),
{
    let mut parts: Vec<String> = Vec::new();
    assert(texts(parts@) =~= Seq::<Seq<char>>::empty());
    add_part(&mut parts, "OA案号", str_field(item, "no"));
    add_part(&mut parts, "待审号", str_field(item, "preNo"));
    add_part(&mut parts, "状态", str_field(item, "statusName"));
    add_part(&mut parts, "案件分类", str_field(item, "caseCategoryName"));
    add_part(&mut parts, "经办律师", str_field(item, "empNames"));
    assert(texts(parts@).len() == parts@.len());
    if parts.len() == 0 {
        None
    } else {
        Some(join_texts(&parts, "；"))
    }
}

/// A case as it is entered here.
pub struct ImportRow {
    /// By this the case is known again.
    pub source_folder: String,
    pub name: String,
    pub case_type: String,
    pub cause: Option<String>,
    pub case_no: Option<String>,
    pub filed_at: Option<String>,
    pub plaintiffs: Option<String>,
    pub defendants: Option<String>,
    pub fees: Option<String>,
    /// Written as a double.
    pub charge_amount: Option<String>,
    pub status_name: Option<String>,
    pub summary: Option<String>,
}

/// A case as it is entered here, as data.
pub struct RowModel {
    pub source_folder: Seq<char>,
    pub name: Seq<char>,
    pub case_type: Seq<char>,
    pub cause: Option<Seq<char>>,
    pub case_no: Option<Seq<char>>,
    pub filed_at: Option<Seq<char>>,
    pub plaintiffs: Option<Seq<char>>,
    pub defendants: Option<Seq<char>>,
    pub fees: Option<Seq<char>>,
    pub charge_amount: Option<Seq<char>>,
    pub status_name: Option<Seq<char>>,
    pub summary: Option<Seq<char>>,
}

impl View for ImportRow {
    type V = RowModel;

    open spec fn view(&self) -> RowModel {
        RowModel {
            source_folder: self.source_folder@,
            name: self.name@,
            case_type: self.case_type@,
            cause: optional(self.cause),
            case_no: optional(self.case_no),
            filed_at: optional(self.filed_at),
            plaintiffs: optional(self.plaintiffs),
            defendants: optional(self.defendants),
            fees: optional(self.fees),
            charge_amount: optional(self.charge_amount),
            status_name: optional(self.status_name),
            summary: optional(self.summary),
        }
    }
}

/// The number of a case in the office system.
pub open spec fn id_of(item: JsonModel) -> Option<i64> {
    match item.member("id"@) {
        Some(JsonModel::Number(_, i, _)) => i,
        _ => None,
    }
}

/// A case of the office system as it is entered here; nothing if it has no
/// number.
pub open spec fn row_of(host: Seq<char>, item: JsonModel) -> Option<RowModel> {
    match id_of(item) {
        None => None,
        Some(id) => Some(
            RowModel {
                source_folder: "oa://"@ + host + "/lawcase/"@ + signed_decimal(id as int),
                name: match name_of(item) {
                    Some(n) => n,
                    None => "OA 案件 "@ + signed_decimal(id as int),
                },
                case_type: match text_of(item, "baseTypeName"@) {
                    Some(t) => t,
                    None => "诉讼"@,
                },
                cause: text_of(item, "causeAction"@),
                case_no: either(text_of(item, "no"@), text_of(item, "preNo"@)),
                filed_at: text_of(item, "shouliDate"@),
                plaintiffs: names_list(text_of(item, "wtrNames"@)),
                defendants: names_list(text_of(item, "tosNames"@)),
                fees: fees_list(item),
                charge_amount: amount_of(item, "chargeAmount"@),
                status_name: text_of(item, "statusName"@),
                summary: summary_of(item),
            },
        ),
    }
}

/// A case of the office system as it is entered here; nothing if it has no
/// number.
pub fn import_row(host: &str, item: &Json) -> (r: Option<ImportRow>)
    ensures
        match r {
            Some(row) => row_of(host@, item@) == Some(row@),
            None => row_of(host@, item@) is None,
        },
{
    let id: i64 = match item.get("id") {
        Some(Json::Number(n)) => match n.integer() {
            Some(i) => i,
            None => {
                return None;
            },
        },
        _ => {
            return None;
        },
    };
    let number = signed_text(id);
    let mut source_folder = cat3("oa://", host, "/lawcase/");
    source_folder.append(number.as_str());
    let name = match case_name(item) {
        Some(n) => n,
        None => cat2("OA 案件 ", number.as_str()),
    };
    let case_type = match str_field(item, "baseTypeName") {
        Some(t) => t,
        None => String::from_str("诉讼"),
    };
    let case_no = match str_field(item, "no") {
        Some(n) => Some(n),
        None => str_field(item, "preNo"),
    };
    Some(
        ImportRow {
            source_folder,
            name,
            case_type,
            cause: str_field(item, "causeAction"),
            case_no,
            filed_at: str_field(item, "shouliDate"),
            plaintiffs: names_json(str_field(item, "wtrNames")),
            defendants: names_json(str_field(item, "tosNames")),
            fees: fees_json(item),
            charge_amount: number_field(item, "chargeAmount"),
            status_name: str_field(item, "statusName"),
            summary: summary_text(item),
        },
    )
}

/// A case that is entered, and whether it was here before.
pub struct ImportStep {
    pub row: ImportRow,
    pub exists: bool,
}

/// What is entered, and how much of what was offered.
pub struct ImportPlan {
    pub steps: Vec<ImportStep>,
    pub report: OAImportReport,
}

pub open spec fn steps_model(v: Seq<ImportStep>) -> Seq<(RowModel, bool)> {
    Seq::new(v.len(), |i: int| (v[i].row@, v[i].exists))
}

/// The case is among some that are here or were entered before it.
pub open spec fn is_here(
    folder: Seq<char>,
    known: Seq<Seq<char>>,
    steps: Seq<(RowModel, bool)>,
) -> bool {
    known.contains(folder) || exists|i: int|
        0 <= i < steps.len() && (#[trigger] steps[i]).0.source_folder == folder
}

/// What is entered of the first cases that are offered, when the cases with the
/// `known` folders are here.
pub open spec fn import_steps(
    host: Seq<char>,
    known: Seq<Seq<char>>,
    cases: Seq<JsonModel>,
) -> Seq<(RowModel, bool)>
    decreases cases.len(),
{
    if cases.len() == 0 {
        Seq::empty()
    } else {
        let done = import_steps(host, known, cases.drop_last());
        match row_of(host, cases.last()) {
            None => done,
            Some(row) => done.push((row, is_here(row.source_folder, known, done))),
        }
    }
}

/// How many of the steps enter a case that was not here.
pub open spec fn count_new(steps: Seq<(RowModel, bool)>) -> nat
    decreases steps.len(),
{
    if steps.len() == 0 {
        0
    } else {
        count_new(steps.drop_last()) + if steps.last().1 {
            0nat
        } else {
            1nat
        }
    }
}

pub open spec fn items_of(cases: Seq<Json>) -> Seq<JsonModel> {
    Seq::new(cases.len(), |i: int| cases[i]@)
}

fn known_already(folder: &str, known: &Vec<String>, steps: &Vec<ImportStep>) -> (r: bool)
    ensures
        r == is_here(folder@, texts(known@), steps_model(steps@)),
{
    let mut i: usize = 0;
    while i < known.len()
        invariant
            i <= known@.len(),
            forall|k: int| 0 <= k < i ==> (#[trigger] known@[k])@ != folder@,
        decreases known@.len() - i,
    {
        if same_text(known[i].as_str(), folder) {
            assert(texts(known@)[i as int] == folder@);
            return true;
        }
        i = i + 1;
    }
    assert forall|k: int| 0 <= k < texts(known@).len() implies texts(known@)[k] != folder@ by {
        assert(known@[k]@ != folder@);
    }
    let mut j: usize = 0;
    while j < steps.len()
        invariant
            j <= steps@.len(),
            forall|k: int| 0 <= k < j ==> (#[trigger] steps@[k]).row.source_folder@ != folder@,
        decreases steps@.len() - j,
    {
        if same_text(steps[j].row.source_folder.as_str(), folder) {
            assert(steps_model(steps@)[j as int].0.source_folder == folder@);
            return true;
        }
        j = j + 1;
    }
    assert forall|k: int| 0 <= k < steps_model(steps@).len() implies (#[trigger] steps_model(
        steps@,
    )[k]).0.source_folder != folder@ by {
        assert(steps@[k].row.source_folder@ != folder@);
    }
    false
}

/// What to enter of the cases that a site offers, when the cases with the
/// `known` folders are here: those with a number, anew or over what is here.
pub fn import_cases_from_agent_api(site_url: &str, cases: &Vec<Json>, known: &Vec<String>) -> (r:
    ImportPlan)
    ensures
        steps_model(r.steps@) == import_steps(host_of(site_url@), texts(known@), items_of(cases@)),
        r.report.total == cases@.len(),
        r.report.inserted == count_new(steps_model(r.steps@)),
        r.report.inserted + r.report.updated == r.steps@.len(),
        r.report.inserted + r.report.updated + r.report.skipped == r.report.total,
{
    let host = oa_host(site_url);
    let ghost all = items_of(cases@);
    let ghost k0 = texts(known@);
    let mut steps: Vec<ImportStep> = Vec::new();
    let mut inserted: usize = 0;
    let mut updated: usize = 0;
    let mut skipped: usize = 0;
    let n: usize = cases.len();
    let mut i: usize = 0;
    assert(steps_model(steps@) =~= import_steps(host@, k0, all.subrange(0, 0)));
    while i < n
        invariant
            i <= n,
            n == cases@.len(),
            all == items_of(cases@),
            k0 == texts(known@),
            steps_model(steps@) == import_steps(host@, k0, all.subrange(0, i as int)),
            inserted == count_new(steps_model(steps@)),
            inserted + updated == steps@.len(),
            inserted + updated + skipped == i,
        decreases n - i,
    {
        assert(all.subrange(0, i + 1).drop_last() =~= all.subrange(0, i as int));
        assert(all.subrange(0, i + 1).last() == cases@[i as int]@);
        match import_row(host.as_str(), &cases[i]) {
            None => {
                skipped = skipped + 1;
            },
            Some(row) => {
                let exists = known_already(row.source_folder.as_str(), known, &steps);
                let ghost before = steps_model(steps@);
                steps.push(ImportStep { row, exists });
                assert(steps_model(steps@) =~= before.push((row@, exists)));
                assert(before.push((row@, exists)).drop_last() =~= before);
                if exists {
                    updated = updated + 1;
                } else {
                    inserted = inserted + 1;
                }
            },
        }
        i = i + 1;
    }
    assert(all.subrange(0, i as int) =~= all);
    ImportPlan { steps, report: OAImportReport { total: n, inserted, updated, skipped } }
}

/// The folders of the cases that are here after an import.
pub open spec fn known_after(known: Seq<Seq<char>>, steps: Seq<(RowModel, bool)>) -> Seq<Seq<char>> {
    known + Seq::new(steps.len(), |i: int| steps[i].0.source_folder)
}

proof fn lemma_all_known(
    host: Seq<char>,
    known: Seq<Seq<char>>,
    cases: Seq<JsonModel>,
    here: Seq<Seq<char>>,
)
    requires
        forall|i: int|
            0 <= i < import_steps(host, known, cases).len() ==> here.contains(
                (#[trigger] import_steps(host, known, cases)[i]).0.source_folder,
            ),
    ensures
        count_new(import_steps(host, here, cases)) == 0,
        import_steps(host, here, cases).len() == import_steps(host, known, cases).len(),
    decreases cases.len(),
{
    if cases.len() > 0 {
        let done = import_steps(host, known, cases.drop_last());
        let whole = import_steps(host, known, cases);
        assert forall|i: int| 0 <= i < done.len() implies here.contains(
            (#[trigger] done[i]).0.source_folder,
        ) by {
            assert(whole[i] == done[i]);
        }
        lemma_all_known(host, known, cases.drop_last(), here);
        if let Some(row) = row_of(host, cases.last()) {
            assert(whole.last().0 == row);
            assert(here.contains(whole[whole.len() - 1].0.source_folder));
            let again = import_steps(host, here, cases.drop_last());
            assert(import_steps(host, here, cases).drop_last() =~= again);
        }
    }
}

/// Importing the same cases once more enters none of them anew.
pub proof fn second_import_inserts_nothing(
    host: Seq<char>,
    known: Seq<Seq<char>>,
    cases: Seq<JsonModel>,
)
    ensures
        ({
            let first = import_steps(host, known, cases);
            let second = import_steps(host, known_after(known, first), cases);
            count_new(second) == 0 && second.len() == first.len()
        }),
{
    let first = import_steps(host, known, cases);
    let here = known_after(known, first);
    assert forall|i: int| 0 <= i < first.len() implies here.contains(
        (#[trigger] first[i]).0.source_folder,
    ) by {
        assert(here[known.len() + i] == first[i].0.source_folder);
    }
    lemma_all_known(host, known, cases, here);
}

/// A text of a case is the trimmed text of that very member, if that says
/// something.
pub proof fn texts_are_those_of_their_members(item: JsonModel, key: Seq<char>)
    ensures
        text_of(item, key) matches Some(t) ==> item.text_member(key) is Some && t == trim(
            item.text_member(key)->0,
        ) && t.len() > 0,
        text_of(item, key) is None ==> item.text_member(key) is None || is_blank(
            item.text_member(key)->0,
        ),
        item.text_member(key) is Some && !is_blank(item.text_member(key)->0) ==> text_of(item, key)
            is Some,
{
}

proof fn lemma_trimmed_concat(a: Seq<Seq<char>>, b: Seq<Seq<char>>)
    ensures
        trimmed_parts(a + b) == trimmed_parts(a) + trimmed_parts(b),
    decreases b.len(),
{
    if b.len() == 0 {
        assert(a + b =~= a);
        assert(trimmed_parts(a) + trimmed_parts(b) =~= trimmed_parts(a));
    } else {
        lemma_trimmed_concat(a, b.drop_last());
        assert((a + b).drop_last() =~= a + b.drop_last());
        assert(trimmed_parts(a + b) =~= trimmed_parts(a) + trimmed_parts(b));
    }
}

/// The names of a side are what stands between the separators: a text without any
/// is one name, a blank one is none, and the names of two texts around a separator
/// are those of the one and then those of the other.
pub proof fn names_stand_between_separators(a: Seq<char>, sep: char, b: Seq<char>)
    requires
        sep == '、' || sep == ',' || sep == '，' || sep == ';' || sep == '；',
    ensures
        names_in(a.push(sep) + b) == names_in(a) + names_in(b),
        is_blank(a) ==> names_in(a).len() == 0,
        !is_blank(a) && (forall|i: int|
            0 <= i < a.len() ==> (#[trigger] a[i]) != '、' && a[i] != ',' && a[i] != '，' && a[i]
                != ';' && a[i] != '；') ==> names_in(a) == seq![trim(a)],
{
    let x = one_separator(a);
    let y = one_separator(b);
    assert(one_separator(a.push(sep) + b) =~= x.push(',') + y);
    splitting_goes_side_by_side(x, ',', y);
    lemma_trimmed_concat(split_on(x, ','), split_on(y, ','));
    full_texts_stay(a);
    reveal_with_fuel(trimmed_parts, 2);
    if is_blank(a) {
        assert forall|i: int| 0 <= i < a.len() implies (#[trigger] a[i]) != '、' && a[i] != ','
            && a[i] != '，' && a[i] != ';' && a[i] != '；' by {
            assert(is_white(a[i]));
        }
    }
    if forall|i: int|
        0 <= i < a.len() ==> (#[trigger] a[i]) != '、' && a[i] != ',' && a[i] != '，' && a[i] != ';'
            && a[i] != '；' {
        assert(x =~= a);
        assert(!a.contains(','));
        assert(split_on(x, ',') == seq![a]);
        assert(seq![a].drop_last() =~= Seq::<Seq<char>>::empty());
        assert(trimmed_parts(seq![a]) =~= if is_blank(a) {
            Seq::empty()
        } else {
            seq![trim(a)]
        });
    }
}

/// Each column of a case that is imported is read from its own member: two items
/// that agree on that member agree on the column, whatever else they hold. The
/// clients are the plaintiffs and the other side the defendants.
pub proof fn columns_are_read_from_their_members(host: Seq<char>, a: JsonModel, b: JsonModel)
    requires
        row_of(host, a) is Some,
        row_of(host, b) is Some,
    ensures
        ({
            let x = row_of(host, a)->0;
            let y = row_of(host, b)->0;
            &&& a.member("wtrNames"@) == b.member("wtrNames"@) ==> x.plaintiffs == y.plaintiffs
            &&& a.member("tosNames"@) == b.member("tosNames"@) ==> x.defendants == y.defendants
            &&& a.member("causeAction"@) == b.member("causeAction"@) ==> x.cause == y.cause
            &&& a.member("shouliDate"@) == b.member("shouliDate"@) ==> x.filed_at == y.filed_at
            &&& a.member("statusName"@) == b.member("statusName"@) ==> x.status_name
                == y.status_name
            &&& a.member("baseTypeName"@) == b.member("baseTypeName"@) ==> x.case_type
                == y.case_type
            &&& a.member("chargeAmount"@) == b.member("chargeAmount"@) ==> x.charge_amount
                == y.charge_amount
            &&& a.member("no"@) == b.member("no"@) && a.member("preNo"@) == b.member("preNo"@)
                ==> x.case_no == y.case_no
            &&& a.member("id"@) == b.member("id"@) ==> x.source_folder == y.source_folder
        }),
{
}

/// A case with a number is imported, and what is entered is what it says: the
/// clients as plaintiffs and the other side as defendants, each as a list of its
/// names, and the other columns as they stand. A case without a number is not.
pub proof fn imported_rows_say_what_the_case_says(host: Seq<char>, item: JsonModel)
    ensures
        row_of(host, item) is Some <==> match item.member("id"@) {
            Some(JsonModel::Number(_, i, _)) => i is Some,
            _ => false,
        },
        row_of(host, item) matches Some(row) ==> {
            &&& item.text_member("wtrNames"@) matches Some(s) ==> (names_in(trim(s)).len() == 0
                ==> row.plaintiffs is None) && (names_in(trim(s)).len() > 0 ==> row.plaintiffs
                == compact(json_list(names_in(trim(s)))).ok())
            &&& item.text_member("wtrNames"@) is None ==> row.plaintiffs is None
            &&& item.text_member("tosNames"@) matches Some(s) ==> (names_in(trim(s)).len() == 0
                ==> row.defendants is None) && (names_in(trim(s)).len() > 0 ==> row.defendants
                == compact(json_list(names_in(trim(s)))).ok())
            &&& item.text_member("tosNames"@) is None ==> row.defendants is None
            &&& item.text_member("causeAction"@) matches Some(s) ==> (!is_blank(s) ==> row.cause
                == Some(trim(s)))
            &&& item.text_member("shouliDate"@) matches Some(s) ==> (!is_blank(s)
                ==> row.filed_at == Some(trim(s)))
            &&& item.text_member("statusName"@) matches Some(s) ==> (!is_blank(s)
                ==> row.status_name == Some(trim(s)))
            &&& item.text_member("baseTypeName"@) matches Some(s) ==> (!is_blank(s)
                ==> row.case_type == trim(s))
            &&& item.text_member("baseTypeName"@) is None ==> row.case_type == "诉讼"@
            &&& item.text_member("no"@) matches Some(s) ==> (!is_blank(s) ==> row.case_no == Some(
                trim(s),
            ))
            &&& item.text_member("no"@) is None ==> (item.text_member("preNo"@) matches Some(s)
                ==> (!is_blank(s) ==> row.case_no == Some(trim(s))))
            &&& item.member("chargeAmount"@) matches Some(JsonModel::Number(_, _, d))
                ==> row.charge_amount == d
        },
{
    assert(item.text_member("wtrNames"@) matches Some(s) ==> (is_blank(s) ==> names_in(trim(s)).len()
        == 0)) by {
        if let Some(s) = item.text_member("wtrNames"@) {
            lemma_blank_names(trim(s));
        }
    }
    assert(item.text_member("tosNames"@) matches Some(s) ==> (is_blank(s) ==> names_in(trim(s)).len()
        == 0)) by {
        if let Some(s) = item.text_member("tosNames"@) {
            lemma_blank_names(trim(s));
        }
    }
}

proof fn lemma_blank_names(t: Seq<char>)
    ensures
        t.len() == 0 ==> names_in(t).len() == 0,
{
    if t.len() == 0 {
        names_stand_between_separators(t, ',', t);
        full_texts_stay(t);
    }
}

proof fn lemma_signed_differ(a: int, b: int)
    ensures
        signed_decimal(a) == signed_decimal(b) ==> a == b,
{
    reveal_strlit("-");
    if a < 0 && b < 0 {
        decimals_differ((-a) as nat, (-b) as nat);
        if signed_decimal(a) == signed_decimal(b) {
            assert(signed_decimal(a).drop_first() =~= decimal((-a) as nat));
            assert(signed_decimal(b).drop_first() =~= decimal((-b) as nat));
        }
    } else if a >= 0 && b >= 0 {
        decimals_differ(a as nat, b as nat);
    } else if a < 0 {
        decimals_differ(0, b as nat);
        lemma_decimal_number(b as nat);
        assert(signed_decimal(a)[0] == '-');
        assert(is_digit(decimal(b as nat)[0]));
    } else {
        decimals_differ(0, a as nat);
        lemma_decimal_number(a as nat);
        assert(signed_decimal(b)[0] == '-');
        assert(is_digit(decimal(a as nat)[0]));
    }
}

/// Two cases of one site are known by the same folder if and only if they have the
/// same number there.
pub proof fn cases_are_known_by_their_numbers(host: Seq<char>, a: JsonModel, b: JsonModel)
    requires
        row_of(host, a) is Some,
        row_of(host, b) is Some,
    ensures
        row_of(host, a)->0.source_folder == row_of(host, b)->0.source_folder <==> match (
            a.member("id"@),
            b.member("id"@),
        ) {
            (Some(JsonModel::Number(_, i, _)), Some(JsonModel::Number(_, j, _))) => i == j,
            _ => false,
        },
{
    let head = "oa://"@ + host + "/lawcase/"@;
    let i = id_of(a)->0 as int;
    let j = id_of(b)->0 as int;
    let x = row_of(host, a)->0.source_folder;
    let y = row_of(host, b)->0.source_folder;
    if x == y {
        assert(x.skip(head.len() as int) =~= signed_decimal(i));
        assert(y.skip(head.len() as int) =~= signed_decimal(j));
        lemma_signed_differ(i, j);
    }
}

/// The name of a case holds its client, the other side and its cause, as far as
/// they are there, and with all three they stand in this order.
pub proof fn names_hold_both_sides_and_the_cause(item: JsonModel)
    ensures
        ({
            let w = text_of(item, "wtrNames"@);
            let t = text_of(item, "tosNames"@);
            let c = text_of(item, "causeAction"@);
            &&& w is Some && t is Some && c is Some ==> name_of(item) == Some(
                w->0 + " 与 "@ + t->0 + " "@ + c->0,
            )
            &&& w is Some ==> name_of(item) is Some && w->0.is_prefix_of(name_of(item)->0)
            &&& c is Some && (w is Some || t is Some) ==> name_of(item) is Some
                && c->0.is_suffix_of(name_of(item)->0)
            &&& t is Some && (w is Some || c is Some) ==> name_of(item) is Some && contains(
                name_of(item)->0,
                t->0,
            )
            &&& w is None && t is None && c is Some ==> name_of(item) == c
        }),
{
    let w = text_of(item, "wtrNames"@);
    let t = text_of(item, "tosNames"@);
    let c = text_of(item, "causeAction"@);
    if let Some(n) = name_of(item) {
        if w is Some {
            assert(n.subrange(0, w->0.len() as int) =~= w->0);
        }
        if c is Some && (w is Some || t is Some) {
            assert(n.subrange(n.len() - c->0.len(), n.len() as int) =~= c->0);
        }
        if t is Some && (w is Some || c is Some) {
            let k: int = if w is Some {
                (w->0.len() + " 与 "@.len()) as int
            } else {
                0
            };
            assert(n.subrange(k, k + t->0.len()) =~= t->0);
            assert(occurs_at(n, t->0, k));
        }
    }
}

/// The fee of a name, if there is an amount.
pub open spec fn is_fee(entry: JsonModel, name: Seq<char>, amount: JsonModel) -> bool {
    entry.text_member("item"@) == Some(name) && entry.member("amount"@) == Some(amount)
        && entry.member("note"@) == Some(JsonModel::Null)
}

/// The first of the fees is what was agreed and the last what is still owed, if
/// there are such amounts, each as the case gives it. There are no more than four,
/// and none without an amount.
pub proof fn fees_are_those_of_the_case(item: JsonModel)
    ensures
        ({
            let fees = fees_of(item);
            let agreed = double_of(item, "chargeAmount"@);
            let got = double_of(item, "yishou"@);
            let owed = double_of(item, "weishou"@);
            let other = double_of(item, "otherCharge"@);
            &&& agreed is Some ==> fees.len() > 0 && is_fee(fees[0], "委托费用"@, agreed->0)
            &&& owed is Some ==> fees.len() > 0 && is_fee(fees.last(), "未收"@, owed->0)
            &&& got is Some && owed is None ==> fees.len() > 0 && is_fee(
                fees.last(),
                "已收"@,
                got->0,
            )
            &&& got is Some && owed is Some ==> fees.len() > 1 && is_fee(
                fees[fees.len() - 2],
                "已收"@,
                got->0,
            )
            &&& agreed is None && got is None && owed is None && fees.len() > 0 ==> fees.len() == 1
                && other is Some && is_fee(fees[0], "其他收费"@, other->0)
            &&& agreed is None && got is None && owed is None && other is None ==> fees.len() == 0
            &&& fees.len() <= 4
        }),
{
    reveal_strlit("item");
    reveal_strlit("amount");
    reveal_strlit("note");
    reveal_with_fuel(crate::json::member_of, 4);
    assert forall|name: Seq<char>, amount: JsonModel| #[trigger]
        is_fee(fee_entry(name, amount), name, amount) by {
        lemma_fee_entry(name, amount);
    }
}

proof fn lemma_fee_entry(name: Seq<char>, amount: JsonModel)
    ensures
        is_fee(fee_entry(name, amount), name, amount),
{
    reveal_strlit("item");
    reveal_strlit("amount");
    reveal_strlit("note");
    let m = fee_entry(name, amount)->Object_0;
    assert("amount"@.len() != "item"@.len());
    assert("item"@[0] != "note"@[0]);
    assert("amount"@.len() != "note"@.len());
    reveal_with_fuel(crate::json::member_of, 4);
    assert(m.drop_first()[0] == m[1]);
    assert(m.drop_first().drop_first()[0] == m[2]);
}

/// A case is entered anew if and only if it was neither here nor among those that
/// were entered before it.
pub proof fn known_cases_are_not_entered_anew(
    host: Seq<char>,
    known: Seq<Seq<char>>,
    cases: Seq<JsonModel>,
    i: int,
)
    requires
        0 <= i < import_steps(host, known, cases).len(),
    ensures
        ({
            let steps = import_steps(host, known, cases);
            steps[i].1 <==> known.contains(steps[i].0.source_folder) || exists|j: int|
                0 <= j < i && (#[trigger] steps[j]).0.source_folder == steps[i].0.source_folder
        }),
    decreases cases.len(),
{
    let w = cases.drop_last();
    let done = import_steps(host, known, w);
    let steps = import_steps(host, known, cases);
    let folder = steps[i].0.source_folder;
    if i < done.len() {
        known_cases_are_not_entered_anew(host, known, w, i);
        assert(steps[i] == done[i]);
    }
    if exists|j: int| 0 <= j < i && (#[trigger] steps[j]).0.source_folder == folder {
        let j = choose|j: int| 0 <= j < i && (#[trigger] steps[j]).0.source_folder == folder;
        assert(done[j] == steps[j]);
    }
    if exists|j: int| 0 <= j < i && (#[trigger] done[j]).0.source_folder == folder {
        let j = choose|j: int| 0 <= j < i && (#[trigger] done[j]).0.source_folder == folder;
        assert(done[j] == steps[j]);
    }
}

/// Each case that is offered and has a number is entered.
pub proof fn every_numbered_case_is_entered(
    host: Seq<char>,
    known: Seq<Seq<char>>,
    cases: Seq<JsonModel>,
    k: int,
)
    requires
        0 <= k < cases.len(),
        row_of(host, cases[k]) is Some,
    ensures
        exists|i: int|
            0 <= i < import_steps(host, known, cases).len() && (#[trigger] import_steps(
                host,
                known,
                cases,
            )[i]).0 == row_of(host, cases[k])->0,
    decreases cases.len(),
{
    let w = cases.drop_last();
    let done = import_steps(host, known, w);
    let steps = import_steps(host, known, cases);
    if k < w.len() {
        assert(w[k] == cases[k]);
        every_numbered_case_is_entered(host, known, w, k);
        let i = choose|i: int|
            0 <= i < done.len() && (#[trigger] done[i]).0 == row_of(host, w[k])->0;
        assert(steps[i] == done[i]);
    } else {
        assert(steps[done.len() as int].0 == row_of(host, cases[k])->0);
    }
}

/// Nothing is entered that was not offered, and cases that all have a number are
/// entered in the order in which they came.
pub proof fn cases_are_entered_in_order(
    host: Seq<char>,
    known: Seq<Seq<char>>,
    cases: Seq<JsonModel>,
)
    ensures
        import_steps(host, known, cases).len() <= cases.len(),
        (forall|k: int| 0 <= k < cases.len() ==> row_of(host, #[trigger] cases[k]) is Some)
            ==> import_steps(host, known, cases).len() == cases.len() && forall|k: int|
            0 <= k < cases.len() ==> Some((#[trigger] import_steps(host, known, cases)[k]).0)
                == row_of(host, cases[k]),
    decreases cases.len(),
{
    if cases.len() > 0 {
        let w = cases.drop_last();
        let done = import_steps(host, known, w);
        let steps = import_steps(host, known, cases);
        cases_are_entered_in_order(host, known, w);
        if forall|k: int| 0 <= k < cases.len() ==> row_of(host, #[trigger] cases[k]) is Some {
            assert forall|k: int| 0 <= k < w.len() implies row_of(host, #[trigger] w[k])
                is Some by {
                assert(w[k] == cases[k]);
            }
            assert(row_of(host, cases[cases.len() - 1]) is Some);
            assert forall|k: int| 0 <= k < cases.len() implies Some((#[trigger] steps[k]).0)
                == row_of(host, cases[k]) by {
                if k < w.len() {
                    assert(steps[k] == done[k]);
                    assert(w[k] == cases[k]);
                }
            }
        }
    }
}

/// Nothing is counted as new if and only if everything was here.
pub proof fn new_cases_are_counted(steps: Seq<(RowModel, bool)>)
    ensures
        count_new(steps) <= steps.len(),
        count_new(steps) == 0 <==> forall|i: int| 0 <= i < steps.len() ==> (#[trigger] steps[i]).1,
        count_new(steps) == steps.len() <==> forall|i: int|
            0 <= i < steps.len() ==> !(#[trigger] steps[i]).1,
    decreases steps.len(),
{
    if steps.len() > 0 {
        let w = steps.drop_last();
        new_cases_are_counted(w);
        let last = steps[steps.len() - 1];
        assert(forall|i: int| 0 <= i < w.len() ==> w[i] == #[trigger] steps[i]);
        if forall|i: int| 0 <= i < w.len() ==> (#[trigger] w[i]).1 {
            if last.1 {
                assert forall|i: int| 0 <= i < steps.len() implies (#[trigger] steps[i]).1 by {
                    if i < w.len() {
                        assert(w[i].1);
                    }
                }
            }
        } else {
            let i = choose|i: int| 0 <= i < w.len() && !(#[trigger] w[i]).1;
            assert(!steps[i].1);
        }
        if forall|i: int| 0 <= i < w.len() ==> !(#[trigger] w[i]).1 {
            if !last.1 {
                assert forall|i: int| 0 <= i < steps.len() implies !(#[trigger] steps[i]).1 by {
                    if i < w.len() {
                        assert(!w[i].1);
                    }
                }
            }
        } else {
            let i = choose|i: int| 0 <= i < w.len() && (#[trigger] w[i]).1;
            assert(steps[i].1);
        }
    }
}

/// A summary holds each of its parts behind its name, as far as the case has it.
pub proof fn summaries_hold_their_parts(item: JsonModel)
    ensures
        ({
            let s = summary_of(item);
            &&& text_of(item, "no"@) matches Some(v) ==> s is Some && contains(
                s->0,
                "OA案号: "@ + v,
            )
            &&& text_of(item, "preNo"@) matches Some(v) ==> s is Some && contains(
                s->0,
                "待审号: "@ + v,
            )
            &&& text_of(item, "statusName"@) matches Some(v) ==> s is Some && contains(
                s->0,
                "状态: "@ + v,
            )
            &&& text_of(item, "caseCategoryName"@) matches Some(v) ==> s is Some && contains(
                s->0,
                "案件分类: "@ + v,
            )
            &&& text_of(item, "empNames"@) matches Some(v) ==> s is Some && contains(
                s->0,
                "经办律师: "@ + v,
            )
        }),
{
    reveal_strlit("OA案号: ");
    reveal_strlit("OA案号");
    reveal_strlit("待审号: ");
    reveal_strlit("待审号");
    reveal_strlit("状态: ");
    reveal_strlit("状态");
    reveal_strlit("案件分类: ");
    reveal_strlit("案件分类");
    reveal_strlit("经办律师: ");
    reveal_strlit("经办律师");
    reveal_strlit(": ");
    assert("OA案号: "@ =~= "OA案号"@ + ": "@);
    assert("待审号: "@ =~= "待审号"@ + ": "@);
    assert("状态: "@ =~= "状态"@ + ": "@);
    assert("案件分类: "@ =~= "案件分类"@ + ": "@);
    assert("经办律师: "@ =~= "经办律师"@ + ": "@);
    let parts = summary_parts(item);
    let p0 = Seq::<Seq<char>>::empty();
    let p1 = with_part(p0, "OA案号"@, text_of(item, "no"@));
    let p2 = with_part(p1, "待审号"@, text_of(item, "preNo"@));
    let p3 = with_part(p2, "状态"@, text_of(item, "statusName"@));
    let p4 = with_part(p3, "案件分类"@, text_of(item, "caseCategoryName"@));
    if text_of(item, "no"@) is Some {
        assert(parts[0] == p1[0]);
        joined_parts_are_there(parts, "；"@, 0);
    }
    if text_of(item, "preNo"@) is Some {
        assert(parts[p1.len() as int] == p2.last());
        joined_parts_are_there(parts, "；"@, p1.len() as int);
    }
    if text_of(item, "statusName"@) is Some {
        assert(parts[p2.len() as int] == p3.last());
        joined_parts_are_there(parts, "；"@, p2.len() as int);
    }
    if text_of(item, "caseCategoryName"@) is Some {
        assert(parts[p3.len() as int] == p4.last());
        joined_parts_are_there(parts, "；"@, p3.len() as int);
    }
    if text_of(item, "empNames"@) is Some {
        joined_parts_are_there(parts, "；"@, p4.len() as int);
    }
}

/// Other charges are among the fees if their number begins with a digit other than
/// zero, and are not if it is below zero or all its digits are zero.
pub proof fn only_real_charges_count(item: JsonModel, t: Seq<char>)
    requires
        amount_of(item, "otherCharge"@) == Some(t),
        t.len() > 0,
    ensures
        '1' <= t[0] <= '9' ==> exists|i: int|
            0 <= i < fees_of(item).len() && is_fee(
                #[trigger] fees_of(item)[i],
                "其他收费"@,
                JsonModel::Number(t, None, Some(t)),
            ),
        t[0] == '-' || (forall|i: int| 0 <= i < t.len() ==> #[trigger] t[i] == '0' || t[i] == '.')
            ==> forall|i: int|
            0 <= i < fees_of(item).len() ==> (#[trigger] fees_of(item)[i]).text_member("item"@)
                != Some("其他收费"@),
{
    let d = double_of(item, "otherCharge"@);
    assert(d == Some(JsonModel::Number(t, None, Some(t))));
    let f0 = Seq::<JsonModel>::empty();
    let f1 = with_fee(f0, "委托费用"@, double_of(item, "chargeAmount"@));
    assert forall|name: Seq<char>, amount: JsonModel| #[trigger]
        is_fee(fee_entry(name, amount), name, amount) by {
        lemma_fee_entry(name, amount);
    }
    reveal_strlit("委托费用");
    reveal_strlit("其他收费");
    reveal_strlit("已收");
    reveal_strlit("未收");
    assert("委托费用"@[0] != "其他收费"@[0]);
    assert("已收"@[0] != "其他收费"@[0]);
    assert("未收"@[0] != "其他收费"@[0]);
    let fees = fees_of(item);
    if '1' <= t[0] <= '9' {
        assert(is_positive(t));
        let k = f1.len() as int;
        assert(fees[k] == fee_entry("其他收费"@, d->0));
        assert(is_fee(fees[k], "其他收费"@, d->0));
    }
    if t[0] == '-' || (forall|i: int|
        0 <= i < t.len() ==> #[trigger] t[i] == '0' || t[i] == '.') {
        assert(!is_positive(t));
        let f3 = with_fee(f1, "已收"@, double_of(item, "yishou"@));
        assert(fees == with_fee(f3, "未收"@, double_of(item, "weishou"@)));
        assert forall|i: int| 0 <= i < fees.len() implies (#[trigger] fees[i]).text_member("item"@)
            != Some("其他收费"@) by {
            if i < f1.len() {
                assert(fees[i] == fee_entry("委托费用"@, double_of(item, "chargeAmount"@)->0));
                assert(is_fee(fees[i], "委托费用"@, double_of(item, "chargeAmount"@)->0));
            } else if i < f3.len() {
                assert(fees[i] == fee_entry("已收"@, double_of(item, "yishou"@)->0));
                assert(is_fee(fees[i], "已收"@, double_of(item, "yishou"@)->0));
            } else {
                assert(fees[i] == fee_entry("未收"@, double_of(item, "weishou"@)->0));
                assert(is_fee(fees[i], "未收"@, double_of(item, "weishou"@)->0));
            }
        }
    }
}

proof fn lemma_lead(h: Seq<char>, lead: Seq<char>)
    requires
        lead.len() > 0,
    ensures
        without_lead(lead + h, lead) == without_lead(h, lead),
{
    assert((lead + h).subrange(0, lead.len() as int) =~= lead);
    assert((lead + h).subrange(lead.len() as int, (lead + h).len() as int) =~= h);
}

/// A site is the same however its address is typed: with or without protocol,
/// with or without a slash at the end. A host without either is left as it is.
pub proof fn hosts_forget_protocol_and_slash(h: Seq<char>)
    requires
        h.len() > 0,
        !is_white(h[0]),
        !is_white(h.last()),
    ensures
        host_of("https://"@ + h) == host_of(h),
        !h.contains('/') ==> host_of(h.push('/')) == h && host_of(h) == h,
        !"https://"@.is_prefix_of(h) && !"http://"@.is_prefix_of(h) ==> host_of("http://"@ + h)
            == host_of(h),
        !"https://"@.is_prefix_of(h) && !"http://"@.is_prefix_of(h) && h.last() != '/' ==> host_of(
            h,
        ) == h,
{
    reveal_strlit("https://");
    reveal_strlit("http://");
    let a = "https://"@ + h;
    let b = "http://"@ + h;
    let c = h.push('/');
    full_texts_stay(h);
    full_texts_stay(a);
    full_texts_stay(b);
    full_texts_stay(c);
    assert(a[0] == 'h' && b[0] == 'h' && c[0] == h[0]);
    assert(a.last() == h.last() && b.last() == h.last());
    lemma_lead(h, "https://"@);
    lemma_lead(h, "http://"@);
    if !"https://"@.is_prefix_of(h) && !"http://"@.is_prefix_of(h) {
        assert(b.subrange(0, 8)[4] == ':');
        assert(!"https://"@.is_prefix_of(b)) by {
            assert("https://"@[4] == 's');
        }
    }
    if !h.contains('/') {
        if "https://"@.is_prefix_of(c) {
            assert(c.subrange(0, 8)[6] == '/');
            assert(h[6] == '/');
        }
        if "http://"@.is_prefix_of(c) {
            assert(c.subrange(0, 7)[5] == '/');
            assert(h[5] == '/');
        }
        if "https://"@.is_prefix_of(h) {
            assert(h.subrange(0, 8)[6] == '/');
            assert(h[6] == '/');
        }
        if "http://"@.is_prefix_of(h) {
            assert(h.subrange(0, 7)[5] == '/');
            assert(h[5] == '/');
        }
        assert(h[h.len() - 1] != '/');
        assert(c.drop_last() =~= h);
        reveal_with_fuel(crate::telemetry::without_slashes, 2);
    }
}

/// A status says what became of a session: one that runs has begun, one that is
/// completed has all of its work behind it, and one that failed says why. What a
/// session handed over and said before stays.
pub proof fn statuses_say_what_became_of_a_session(
    s: SessionModel,
    name: Seq<char>,
    error: Seq<char>,
    now: Seq<char>,
)
    ensures
        status_named(name) is Some <==> name == "running"@ || name == "completed"@ || name
            == "failed"@ || name == "conflict"@,
        status_named(name) matches Some(status) ==> {
            let after = with_status(s, status, error, now);
            &&& after.status == name
            &&& after.updated_at == now
            &&& after.result_json == s.result_json && after.progress_msg == s.progress_msg
            &&& name == "running"@ ==> after.started_at == Some(now) && after.completed_at
                == s.completed_at
            &&& name != "running"@ ==> after.started_at == s.started_at
            &&& name == "completed"@ ==> after.progress_pct == 100 && after.error_message
                == s.error_message
            &&& name != "completed"@ ==> after.progress_pct == s.progress_pct
            &&& name == "completed"@ || name == "failed"@ ==> after.completed_at == Some(now)
            &&& name == "failed"@ || name == "conflict"@ ==> after.error_message == error
            &&& name == "conflict"@ ==> after.completed_at == s.completed_at
        },
{
    reveal_strlit("running");
    reveal_strlit("completed");
    reveal_strlit("failed");
    reveal_strlit("conflict");
    assert("running"@.len() == 7 && "completed"@.len() == 9 && "failed"@.len() == 6
        && "conflict"@.len() == 8);
}

/// What is to be changed is replaced, and what is not stays.
pub proof fn only_what_is_given_is_replaced(old_text: Seq<char>, new_text: String)
    ensures
        replaced_by(old_text, Some(new_text)) == new_text@,
        replaced_by(old_text, None) == old_text,
{
}

/// A case without fees has no list of them, and one with fees has the list of all.
pub proof fn fees_are_listed_if_there_are_any(item: JsonModel)
    ensures
        fees_of(item).len() == 0 ==> fees_list(item) is None,
        fees_of(item).len() > 0 ==> match compact(JsonModel::Array(fees_of(item))) {
            Ok(t) => fees_list(item) == Some(t),
            Err(_) => fees_list(item) is None,
        },
{
}

} // verus!
