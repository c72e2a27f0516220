//! What a member shows the team of a case: no more than a register would hold.
use vstd::prelude::*;
use vstd::utf8::*;
use crate::bytes::slice_text;
use crate::case_files::Case;
use crate::json::{items_model, json_parse, lemma_items_model, optional, parse_json, Json, JsonModel};
use crate::text::{
    blank, cat2, cat3, contains, first_chars, full_texts_stay, head_text, is_blank, is_white, join,
    join_texts, joined_parts_are_there, same_text, texts, trim, trim_text,
};
use crate::text_order::{
    comes_before, text_before, text_order_is_total, text_order_is_transitive,
};

verus! {

/// Names of one side, at most.
pub const NAMES_SHOWN: usize = 4;

/// Dates of a case, at most.
pub const DATES_SHOWN: usize = 20;

/// A date of a case, and what it is about.
pub struct SnapshotDate {
    pub date: String,
    pub event: String,
}

/// A date of a case, as data.
pub struct DateModel {
    pub date: Seq<char>,
    pub event: Seq<char>,
}

impl View for SnapshotDate {
    type V = DateModel;

    open spec fn view(&self) -> DateModel {
        DateModel { date: self.date@, event: self.event@ }
    }
}

pub open spec fn dates_model(v: Seq<SnapshotDate>) -> Seq<DateModel> {
    Seq::new(v.len(), |i: int| v[i]@)
}

/// What is shown of a case, but for its amounts.
pub struct SnapshotCase {
    pub id: String,
    pub name: String,
    pub case_no: Option<String>,
    pub parties: Option<String>,
    pub case_type: Option<String>,
    pub stage: Option<String>,
    pub status_detail: Option<String>,
    pub key_dates: Vec<SnapshotDate>,
    pub last_activity: Option<String>,
    pub summary: Option<String>,
    pub latest_event: Option<SnapshotDate>,
    pub court: Option<String>,
    pub cause: Option<String>,
    pub filed_at: Option<String>,
    pub plaintiffs: Vec<String>,
    pub defendants: Vec<String>,
    pub third_parties: Vec<String>,
}

/// What is shown of a case, as data.
pub struct SnapshotCaseModel {
    pub id: Seq<char>,
    pub name: Seq<char>,
    pub case_no: Option<Seq<char>>,
    pub parties: Option<Seq<char>>,
    pub case_type: Option<Seq<char>>,
    pub stage: Option<Seq<char>>,
    pub status_detail: Option<Seq<char>>,
    pub key_dates: Seq<DateModel>,
    pub last_activity: Option<Seq<char>>,
    pub summary: Option<Seq<char>>,
    pub latest_event: Option<DateModel>,
    pub court: Option<Seq<char>>,
    pub cause: Option<Seq<char>>,
    pub filed_at: Option<Seq<char>>,
    pub plaintiffs: Seq<Seq<char>>,
    pub defendants: Seq<Seq<char>>,
    pub third_parties: Seq<Seq<char>>,
}

pub open spec fn optional_date(d: Option<SnapshotDate>) -> Option<DateModel> {
    match d {
        Some(d) => Some(d@),
        None => None,
    }
}

impl View for SnapshotCase {
    type V = SnapshotCaseModel;

    open spec fn view(&self) -> SnapshotCaseModel {
        SnapshotCaseModel {
            id: self.id@,
            name: self.name@,
            case_no: optional(self.case_no),
            parties: optional(self.parties),
            case_type: optional(self.case_type),
            stage: optional(self.stage),
            status_detail: optional(self.status_detail),
            key_dates: dates_model(self.key_dates@),
            last_activity: optional(self.last_activity),
            summary: optional(self.summary),
            latest_event: optional_date(self.latest_event),
            court: optional(self.court),
            cause: optional(self.cause),
            filed_at: optional(self.filed_at),
            plaintiffs: texts(self.plaintiffs@),
            defendants: texts(self.defendants@),
            third_parties: texts(self.third_parties@),
        }
    }
}

pub open spec fn optional_json(v: Option<Json>) -> Option<JsonModel> {
    match v {
        Some(j) => Some(j@),
        None => None,
    }
}

/// What a column holds, if it holds JSON.
pub open spec fn column(raw: Option<String>) -> Option<JsonModel> {
    match raw {
        Some(t) => json_parse(t@),
        None => None,
    }
}

fn read_column(raw: &Option<String>) -> (r: Option<Json>)
    ensures
        optional_json(r) == column(*raw),
{
    match raw {
        Some(t) => parse_json(t.as_str()),
        None => None,
    }
}

/// The name in an item of a list: the item itself, or its member.
pub open spec fn name_in(v: JsonModel) -> Option<Seq<char>> {
    match v {
        JsonModel::Str(s) => Some(s),
        _ => v.text_member("name"@),
    }
}

/// The first names of those that say something.
pub open spec fn names_in(a: Seq<JsonModel>) -> Seq<Seq<char>>
    decreases a.len(),
{
    if a.len() == 0 {
        Seq::empty()
    } else {
        let before = names_in(a.drop_last());
        match name_in(a.last()) {
            Some(s) => if !is_blank(s) && before.len() < NAMES_SHOWN {
                before.push(s)
            } else {
                before
            },
            None => before,
        }
    }
}

/// The names in a list; none if it is no list.
pub open spec fn names_of(v: Option<JsonModel>) -> Seq<Seq<char>> {
    match v {
        Some(JsonModel::Array(a)) => names_in(a),
        _ => Seq::empty(),
    }
}

/// The names in a list, those that say something, at most four.
pub fn list_names(v: &Option<Json>) -> (r: Vec<String>)
    ensures
        texts(r@) == names_of(optional_json(*v)),
{
    let mut out: Vec<String> = Vec::new();
    assert(texts(out@) =~= Seq::<Seq<char>>::empty());
    if let Some(Json::Array(a)) = v {
        let ghost all = items_model(a@, a@.len());
        proof {
            lemma_items_model(a@, a@.len());
            assert(all.subrange(0, 0) =~= Seq::<JsonModel>::empty());
        }
        let mut i: usize = 0;
        while i < a.len()
            invariant
                i <= a@.len(),
                all.len() == a@.len(),
                forall|k: int| 0 <= k < a@.len() ==> #[trigger] all[k] == a@[k]@,
                texts(out@) == names_in(all.subrange(0, i as int)),
            decreases a@.len() - i,
        {
            let ghost before = texts(out@);
            proof {
                assert(all.subrange(0, i + 1).drop_last() =~= all.subrange(0, i as int));
                assert(all.subrange(0, i + 1).last() == a@[i as int]@);
            }
            let name: Option<&String> = match &a[i] {
                Json::Str(s) => Some(s),
                other => other.get_text("name"),
            };
            if let Some(s) = name {
                if !blank(s.as_str()) && out.len() < NAMES_SHOWN {
                    out.push(String::from_str(s.as_str()));
                    assert(texts(out@) =~= before.push(s@));
                }
            }
            i = i + 1;
        }
        assert(all.subrange(0, i as int) =~= all);
    }
    out
}

/// The names in a column.
pub fn parse_name_list(raw: &Option<String>) -> (r: Vec<String>)
    ensures
        texts(r@) == names_of(column(*raw)),
{
    let v = read_column(raw);
    list_names(&v)
}

/// Names one after the other, or a dash.
pub open spec fn names_or_dash(v: Seq<Seq<char>>) -> Seq<char> {
    if v.len() == 0 {
        "—"@
    } else {
        join(v, "、"@)
    }
}

/// Names one after the other, or a dash.
pub fn join_or_dash(v: &Vec<String>) -> (r: String)
    ensures
        r@ == names_or_dash(texts(v@)),
{
    if v.len() == 0 {
        String::from_str("—")
    } else {
        join_texts(v, "、")
    }
}

/// The two sides of a case; nothing if neither is known.
pub open spec fn parties_of(ps: Seq<Seq<char>>, ds: Seq<Seq<char>>) -> Option<Seq<char>> {
    if ps.len() == 0 && ds.len() == 0 {
        None
    } else {
        Some(names_or_dash(ps) + " vs "@ + names_or_dash(ds))
    }
}

/// The two sides of a case; nothing if neither is known.
pub fn build_parties(ps: &Vec<String>, ds: &Vec<String>) -> (r: Option<String>)
    ensures
        optional(r) == parties_of(texts(ps@), texts(ds@)),
{
    if ps.len() == 0 && ds.len() == 0 {
        None
    } else {
        let a = join_or_dash(ps);
        let b = join_or_dash(ds);
        Some(cat3(a.as_str(), " vs ", b.as_str()))
    }
}

/// The date in an item of a list.
pub open spec fn date_in(v: JsonModel) -> Option<DateModel> {
    match v.text_member("date"@) {
        Some(d) => if trim(d).len() == 0 {
            None
        } else {
            Some(
                DateModel {
                    date: trim(d),
                    event: match v.text_member("event"@) {
                        Some(e) => e,
                        None => "关键日期"@,
                    },
                },
            )
        },
        None => None,
    }
}

/// The dates in a list.
pub open spec fn dates_in(a: Seq<JsonModel>) -> Seq<DateModel>
    decreases a.len(),
{
    if a.len() == 0 {
        Seq::empty()
    } else {
        match date_in(a.last()) {
            Some(d) => dates_in(a.drop_last()).push(d),
            None => dates_in(a.drop_last()),
        }
    }
}

/// The dates in a list; none if it is no list.
pub open spec fn dates_of(v: Option<JsonModel>) -> Seq<DateModel> {
    match v {
        Some(JsonModel::Array(a)) => dates_in(a),
        _ => Seq::empty(),
    }
}

/// The dates in a list, in its order.
pub fn list_dates(v: &Option<Json>) -> (r: Vec<SnapshotDate>)
    ensures
        dates_model(r@) == dates_of(optional_json(*v)),
{
    let mut out: Vec<SnapshotDate> = Vec::new();
    assert(dates_model(out@) =~= Seq::<DateModel>::empty());
    if let Some(Json::Array(a)) = v {
        let ghost all = items_model(a@, a@.len());
        proof {
            lemma_items_model(a@, a@.len());
            assert(all.subrange(0, 0) =~= Seq::<JsonModel>::empty());
        }
        let mut i: usize = 0;
        while i < a.len()
            invariant
                i <= a@.len(),
                all.len() == a@.len(),
                forall|k: int| 0 <= k < a@.len() ==> #[trigger] all[k] == a@[k]@,
                dates_model(out@) == dates_in(all.subrange(0, i as int)),
            decreases a@.len() - i,
        {
            let ghost before = dates_model(out@);
            proof {
                assert(all.subrange(0, i + 1).drop_last() =~= all.subrange(0, i as int));
                assert(all.subrange(0, i + 1).last() == a@[i as int]@);
            }
            if let Some(d) = a[i].get_text("date") {
                let date = trim_text(d.as_str());
                if date.as_str().unicode_len() > 0 {
                    let event = match a[i].get_text("event") {
                        Some(e) => String::from_str(e.as_str()),
                        None => String::from_str("关键日期"),
                    };
                    let item = SnapshotDate { date, event };
                    let ghost model = item@;
                    out.push(item);
                    assert(dates_model(out@) =~= before.push(model));
                }
            }
            i = i + 1;
        }
        assert(all.subrange(0, i as int) =~= all);
    }
    out
}

/// The dates in a column.
pub fn parse_key_dates(raw: &Option<String>) -> (r: Vec<SnapshotDate>)
    ensures
        dates_model(r@) == dates_of(column(*raw)),
{
    let v = read_column(raw);
    list_dates(&v)
}

/// Where a date goes among dates that are in order, from place `p` on.
pub open spec fn date_slot(v: Seq<DateModel>, date: Seq<char>, p: int) -> int
    decreases v.len() - p,
{
    if p >= v.len() || text_before(date, v[p].date) {
        p
    } else {
        date_slot(v, date, p + 1)
    }
}

/// The dates in order, those of one day in the order in which they came.
pub open spec fn in_order(v: Seq<DateModel>) -> Seq<DateModel>
    decreases v.len(),
{
    if v.len() == 0 {
        v
    } else {
        let o = in_order(v.drop_last());
        o.insert(date_slot(o, v.last().date, 0), v.last())
    }
}

/// Of dates that follow one another and are the same, the first.
pub open spec fn once(v: Seq<DateModel>) -> Seq<DateModel>
    decreases v.len(),
{
    if v.len() == 0 {
        v
    } else {
        let o = once(v.drop_last());
        if o.len() > 0 && o.last() == v.last() {
            o
        } else {
            o.push(v.last())
        }
    }
}

/// The first of the dates.
pub open spec fn first_dates(v: Seq<DateModel>) -> Seq<DateModel> {
    if v.len() > DATES_SHOWN {
        v.subrange(0, DATES_SHOWN as int)
    } else {
        v
    }
}

/// The dates that are shown.
pub open spec fn shown_dates(v: Seq<DateModel>) -> Seq<DateModel> {
    first_dates(once(in_order(v)))
}

fn copy_date(d: &SnapshotDate) -> (r: SnapshotDate)
    ensures
        r@ == d@,
{
    SnapshotDate {
        date: String::from_str(d.date.as_str()),
        event: String::from_str(d.event.as_str()),
    }
}

fn sort_dates(v: &Vec<SnapshotDate>) -> (r: Vec<SnapshotDate>)
    ensures
        dates_model(r@) == in_order(dates_model(v@)),
{
    let ghost all = dates_model(v@);
    let mut out: Vec<SnapshotDate> = Vec::new();
    let mut i: usize = 0;
    assert(dates_model(out@) =~= in_order(all.subrange(0, 0)));
    while i < v.len()
        invariant
            i <= v@.len(),
            all == dates_model(v@),
            dates_model(out@) == in_order(all.subrange(0, i as int)),
        decreases v@.len() - i,
    {
        let ghost o = dates_model(out@);
        assert(all.subrange(0, i + 1).drop_last() =~= all.subrange(0, i as int));
        assert(all.subrange(0, i + 1).last() == v@[i as int]@);
        let d = copy_date(&v[i]);
        let mut p: usize = 0;
        while p < out.len() && !comes_before(d.date.as_str(), out[p].date.as_str())
            invariant
                p <= out@.len(),
                o == dates_model(out@),
                date_slot(o, d.date@, 0) == date_slot(o, d.date@, p as int),
            decreases out@.len() - p,
        {
            assert(o[p as int].date == out@[p as int].date@);
            p = p + 1;
        }
        proof {
            if p < out@.len() {
                assert(o[p as int].date == out@[p as int].date@);
            }
        }
        let ghost model = d@;
        out.insert(p, d);
        assert(dates_model(out@) =~= o.insert(p as int, model));
        i = i + 1;
    }
    assert(all.subrange(0, i as int) =~= all);
    out
}

fn keep_once(v: &Vec<SnapshotDate>) -> (r: Vec<SnapshotDate>)
    ensures
        dates_model(r@) == once(dates_model(v@)),
{
    let ghost all = dates_model(v@);
    let mut out: Vec<SnapshotDate> = Vec::new();
    let mut i: usize = 0;
    assert(dates_model(out@) =~= once(all.subrange(0, 0)));
    while i < v.len()
        invariant
            i <= v@.len(),
            all == dates_model(v@),
            dates_model(out@) == once(all.subrange(0, i as int)),
        decreases v@.len() - i,
    {
        let ghost o = dates_model(out@);
        assert(all.subrange(0, i + 1).drop_last() =~= all.subrange(0, i as int));
        assert(all.subrange(0, i + 1).last() == v@[i as int]@);
        let n: usize = out.len();
        let again = n > 0 && same_text(out[n - 1].date.as_str(), v[i].date.as_str()) && same_text(
            out[n - 1].event.as_str(),
            v[i].event.as_str(),
        );
        proof {
            if n > 0 {
                assert(o.last() == out@[n - 1]@);
            }
        }
        if !again {
            let d = copy_date(&v[i]);
            let ghost model = d@;
            out.push(d);
            assert(dates_model(out@) =~= o.push(model));
        }
        i = i + 1;
    }
    assert(all.subrange(0, i as int) =~= all);
    out
}

/// The dates that are shown: in order, each once, at most twenty.
pub fn show_dates(v: &Vec<SnapshotDate>) -> (r: Vec<SnapshotDate>)
    ensures
        dates_model(r@) == shown_dates(dates_model(v@)),
{
    let sorted = sort_dates(v);
    let mut out = keep_once(&sorted);
    if out.len() > DATES_SHOWN {
        let ghost o = dates_model(out@);
        out.truncate(DATES_SHOWN);
        assert(dates_model(out@) =~= o.subrange(0, DATES_SHOWN as int));
    }
    out
}

/// A date is today or earlier. One that is shorter than a day is written, or in
/// which no character ends there, is not.
pub open spec fn happened(date: Seq<char>, today: Seq<char>) -> bool {
    let b = encode_utf8(date);
    b.len() >= 10 && is_char_boundary(b, 10) && !text_before(
        today,
        decode_utf8(b.subrange(0, 10)),
    )
}

/// The last date of those that are today or earlier.
pub open spec fn latest(v: Seq<DateModel>, today: Seq<char>) -> Option<DateModel>
    decreases v.len(),
{
    if v.len() == 0 {
        None
    } else if happened(v.last().date, today) {
        Some(v.last())
    } else {
        latest(v.drop_last(), today)
    }
}

fn has_happened(date: &str, today: &str) -> (r: bool)
    ensures
        r == happened(date@, today@),
{
    let n: usize = date.as_bytes().len();
    if n < 10 || !date.is_char_boundary(10) {
        return false;
    }
    proof {
        encode_utf8_valid_utf8(date@);
    }
    let day = slice_text(date, 0, 10);
    !comes_before(today, day)
}

/// The last date of those that are today or earlier.
pub fn find_latest(v: &Vec<SnapshotDate>, today: &str) -> (r: Option<SnapshotDate>)
    ensures
        optional_date(r) == latest(dates_model(v@), today@),
{
    let ghost all = dates_model(v@);
    let mut i: usize = v.len();
    assert(all.subrange(0, i as int) =~= all);
    while i > 0
        invariant
            i <= v@.len(),
            all == dates_model(v@),
            latest(all, today@) == latest(all.subrange(0, i as int), today@),
        decreases i,
    {
        assert(all.subrange(0, i as int).drop_last() =~= all.subrange(0, i - 1));
        assert(all.subrange(0, i as int).last() == v@[i - 1]@);
        if has_happened(v[i - 1].date.as_str(), today) {
            return Some(copy_date(&v[i - 1]));
        }
        i = i - 1;
    }
    None
}

/// The dates of a case: those of its list and the next one that is planned.
pub open spec fn all_dates(c: Case, listed: Seq<DateModel>) -> Seq<DateModel> {
    match (c.next_milestone_at, c.next_milestone_type) {
        (Some(at), Some(ty)) => listed.push(DateModel { date: at@, event: ty@ }),
        _ => listed,
    }
}

/// The first that is there.
pub open spec fn either(a: Option<String>, b: Option<String>) -> Option<Seq<char>> {
    if a is Some {
        optional(a)
    } else {
        optional(b)
    }
}

/// What is shown of a case, given what its lists hold.
pub open spec fn snapshot_of(
    c: Case,
    plaintiffs: Seq<Seq<char>>,
    defendants: Seq<Seq<char>>,
    third_parties: Seq<Seq<char>>,
    listed: Seq<DateModel>,
    today: Seq<char>,
) -> SnapshotCaseModel {
    let dates = shown_dates(all_dates(c, listed));
    SnapshotCaseModel {
        id: c.id@,
        name: c.name@,
        case_no: either(c.agg_case_no, c.case_no),
        parties: parties_of(plaintiffs, defendants),
        case_type: Some(c.case_type@),
        stage: either(c.workflow_status, c.stage),
        status_detail: optional(c.agg_resolution),
        key_dates: dates,
        last_activity: Some("更新于 "@ + first_chars(c.updated_at@, 10)),
        summary: optional(c.case_summary),
        latest_event: latest(dates, today),
        court: either(c.agg_court, c.court),
        cause: either(c.agg_cause, c.cause),
        filed_at: optional(c.agg_filed_at),
        plaintiffs,
        defendants,
        third_parties,
    }
}

fn copy_optional(s: &Option<String>) -> (r: Option<String>)
    ensures
        optional(r) == optional(*s),
{
    match s {
        Some(t) => Some(String::from_str(t.as_str())),
        None => None,
    }
}

fn copy_either(a: &Option<String>, b: &Option<String>) -> (r: Option<String>)
    ensures
        optional(r) == either(*a, *b),
{
    if a.is_some() {
        copy_optional(a)
    } else {
        copy_optional(b)
    }
}

/// What is shown of a case, given what its lists hold.
pub fn snapshot_with(
    c: &Case,
    plaintiffs: Vec<String>,
    defendants: Vec<String>,
    third_parties: Vec<String>,
    listed: Vec<SnapshotDate>,
    today: &str,
) -> (r: SnapshotCase)
    ensures
        r@ == snapshot_of(
            *c,
            texts(plaintiffs@),
            texts(defendants@),
            texts(third_parties@),
            dates_model(listed@),
            today@,
        ),
{
    let ghost before = dates_model(listed@);
    let mut dates = listed;
    if let (Some(at), Some(ty)) = (&c.next_milestone_at, &c.next_milestone_type) {
        let d = SnapshotDate {
            date: String::from_str(at.as_str()),
            event: String::from_str(ty.as_str()),
        };
        let ghost model = d@;
        dates.push(d);
        assert(dates_model(dates@) =~= before.push(model));
    }
    let key_dates = show_dates(&dates);
    let latest_event = find_latest(&key_dates, today);
    let parties = build_parties(&plaintiffs, &defendants);
    let day = head_text(c.updated_at.as_str(), 10);
    SnapshotCase {
        id: String::from_str(c.id.as_str()),
        name: String::from_str(c.name.as_str()),
        case_no: copy_either(&c.agg_case_no, &c.case_no),
        parties,
        case_type: Some(String::from_str(c.case_type.as_str())),
        stage: copy_either(&c.workflow_status, &c.stage),
        status_detail: copy_optional(&c.agg_resolution),
        key_dates,
        last_activity: Some(cat2("更新于 ", day.as_str())),
        summary: copy_optional(&c.case_summary),
        latest_event,
        court: copy_either(&c.agg_court, &c.court),
        cause: copy_either(&c.agg_cause, &c.cause),
        filed_at: copy_optional(&c.agg_filed_at),
        plaintiffs,
        defendants,
        third_parties,
    }
}

/// What is shown of a case.
pub fn snapshot_case_from(c: &Case, today: &str) -> (r: SnapshotCase)
    ensures
        r@ == snapshot_of(
            *c,
            names_of(column(c.agg_plaintiffs)),
            names_of(column(c.agg_defendants)),
            names_of(column(c.agg_third_parties)),
            dates_of(column(c.agg_key_dates)),
            today@,
        ),
        r.id@ == c.id@,
        r.name@ == c.name@,
        optional(r.case_no) == (if c.agg_case_no is Some {
            optional(c.agg_case_no)
        } else {
            optional(c.case_no)
        }),
        optional(r.case_type) == Some(c.case_type@),
        optional(r.stage) == (if c.workflow_status is Some {
            optional(c.workflow_status)
        } else {
            optional(c.stage)
        }),
        optional(r.status_detail) == optional(c.agg_resolution),
        optional(r.summary) == optional(c.case_summary),
        optional(r.court) == (if c.agg_court is Some {
            optional(c.agg_court)
        } else {
            optional(c.court)
        }),
        optional(r.cause) == (if c.agg_cause is Some {
            optional(c.agg_cause)
        } else {
            optional(c.cause)
        }),
        optional(r.filed_at) == optional(c.agg_filed_at),
        texts(r.plaintiffs@) == names_of(column(c.agg_plaintiffs)),
        texts(r.defendants@) == names_of(column(c.agg_defendants)),
        texts(r.third_parties@) == names_of(column(c.agg_third_parties)),
        optional(r.parties) == parties_of(texts(r.plaintiffs@), texts(r.defendants@)),
        dates_model(r.key_dates@) == shown_dates(
            all_dates(*c, dates_of(column(c.agg_key_dates))),
        ),
        optional_date(r.latest_event) == latest(dates_model(r.key_dates@), today@),
{
    let plaintiffs = parse_name_list(&c.agg_plaintiffs);
    let defendants = parse_name_list(&c.agg_defendants);
    let third_parties = parse_name_list(&c.agg_third_parties);
    let listed = parse_key_dates(&c.agg_key_dates);
    snapshot_with(c, plaintiffs, defendants, third_parties, listed, today)
}

/// Two cases that a register would show alike, whatever their papers.
pub open spec fn alike_in_register(a: Case, b: Case) -> bool {
    &&& a.id@ == b.id@
    &&& a.name@ == b.name@
    &&& either(a.agg_case_no, a.case_no) == either(b.agg_case_no, b.case_no)
    &&& a.case_type@ == b.case_type@
    &&& either(a.workflow_status, a.stage) == either(b.workflow_status, b.stage)
    &&& optional(a.agg_resolution) == optional(b.agg_resolution)
    &&& optional(a.next_milestone_at) == optional(b.next_milestone_at)
    &&& optional(a.next_milestone_type) == optional(b.next_milestone_type)
    &&& a.updated_at@ == b.updated_at@
    &&& optional(a.case_summary) == optional(b.case_summary)
    &&& either(a.agg_court, a.court) == either(b.agg_court, b.court)
    &&& either(a.agg_cause, a.cause) == either(b.agg_cause, b.cause)
    &&& optional(a.agg_filed_at) == optional(b.agg_filed_at)
    &&& optional(a.agg_plaintiffs) == optional(b.agg_plaintiffs)
    &&& optional(a.agg_defendants) == optional(b.agg_defendants)
    &&& optional(a.agg_third_parties) == optional(b.agg_third_parties)
    &&& optional(a.agg_key_dates) == optional(b.agg_key_dates)
}

/// What is shown of a case does not depend on where its papers are, on its
/// reports, or on how anyone can be reached.
pub proof fn papers_stay_private(a: Case, b: Case, today: Seq<char>)
    requires
        alike_in_register(a, b),
    ensures
        snapshot_of(
            a,
            names_of(column(a.agg_plaintiffs)),
            names_of(column(a.agg_defendants)),
            names_of(column(a.agg_third_parties)),
            dates_of(column(a.agg_key_dates)),
            today,
        ) == snapshot_of(
            b,
            names_of(column(b.agg_plaintiffs)),
            names_of(column(b.agg_defendants)),
            names_of(column(b.agg_third_parties)),
            dates_of(column(b.agg_key_dates)),
            today,
        ),
{
}

/// No list of names is longer than four, and no name in it is blank.
pub proof fn names_are_few_and_full(a: Seq<JsonModel>)
    ensures
        names_in(a).len() <= NAMES_SHOWN,
        forall|i: int| 0 <= i < names_in(a).len() ==> !is_blank(#[trigger] names_in(a)[i]),
    decreases a.len(),
{
    if a.len() > 0 {
        names_are_few_and_full(a.drop_last());
    }
}

/// No date stands before an earlier one.
pub open spec fn ordered(v: Seq<DateModel>) -> bool {
    forall|i: int, j: int|
        0 <= i < j < v.len() ==> !text_before(#[trigger] v[j].date, #[trigger] v[i].date)
}

proof fn lemma_date_slot(v: Seq<DateModel>, date: Seq<char>, p: int)
    requires
        0 <= p <= v.len(),
    ensures
        p <= date_slot(v, date, p) <= v.len(),
        forall|k: int| p <= k < date_slot(v, date, p) ==> !text_before(date, #[trigger] v[k].date),
        date_slot(v, date, p) < v.len() ==> text_before(date, v[date_slot(v, date, p)].date),
    decreases v.len() - p,
{
    if p < v.len() && !text_before(date, v[p].date) {
        lemma_date_slot(v, date, p + 1);
    }
}

proof fn lemma_in_order(v: Seq<DateModel>)
    ensures
        ordered(in_order(v)),
    decreases v.len(),
{
    if v.len() > 0 {
        let o = in_order(v.drop_last());
        lemma_in_order(v.drop_last());
        let x = v.last();
        lemma_date_slot(o, x.date, 0);
        let p = date_slot(o, x.date, 0);
        let r = o.insert(p, x);
        assert forall|i: int, j: int| 0 <= i < j < r.len() implies !text_before(
            #[trigger] r[j].date,
            #[trigger] r[i].date,
        ) by {
            let a = if i < p {
                o[i]
            } else if i == p {
                x
            } else {
                o[i - 1]
            };
            let b = if j < p {
                o[j]
            } else if j == p {
                x
            } else {
                o[j - 1]
            };
            assert(r[i] == a && r[j] == b);
            if j == p {
                assert(!text_before(x.date, o[i].date));
            } else if i == p {
                let first = o[p];
                assert(text_before(x.date, first.date));
                text_order_is_total(x.date, b.date);
                if text_before(b.date, x.date) {
                    text_order_is_transitive(b.date, x.date, first.date);
                    if j - 1 > p {
                        assert(!text_before(o[j - 1].date, o[p].date));
                    } else {
                        text_order_is_total(b.date, first.date);
                    }
                }
            }
        }
    }
}

proof fn lemma_once(v: Seq<DateModel>)
    requires
        ordered(v),
    ensures
        ordered(once(v)),
        forall|k: int| 0 <= k < once(v).len() ==> #[trigger] v.contains(once(v)[k]),
        forall|k: int| 0 < k < once(v).len() ==> once(v)[k - 1] != #[trigger] once(v)[k],
    decreases v.len(),
{
    if v.len() > 0 {
        let w = v.drop_last();
        let o = once(w);
        assert forall|i: int, j: int| 0 <= i < j < w.len() implies !text_before(
            #[trigger] w[j].date,
            #[trigger] w[i].date,
        ) by {
            assert(w[i] == v[i] && w[j] == v[j]);
            assert(!text_before(v[j].date, v[i].date));
        }
        lemma_once(w);
        let r = once(v);
        assert forall|k: int| 0 <= k < r.len() implies #[trigger] v.contains(r[k]) by {
            if k < o.len() {
                assert(w.contains(o[k]));
                let m = choose|m: int| 0 <= m < w.len() && w[m] == o[k];
                assert(v[m] == r[k]);
            } else {
                assert(v[v.len() - 1] == r[k]);
            }
        }
        assert forall|i: int, j: int| 0 <= i < j < r.len() implies !text_before(
            #[trigger] r[j].date,
            #[trigger] r[i].date,
        ) by {
            if j < o.len() {
                assert(r[i] == o[i] && r[j] == o[j]);
            } else {
                assert(r[i] == o[i]);
                assert(w.contains(o[i]));
                let m = choose|m: int| 0 <= m < w.len() && w[m] == o[i];
                assert(v[m] == o[i] && v[v.len() - 1] == r[j]);
                assert(!text_before(v[v.len() - 1].date, v[m].date));
            }
        }
    }
}

/// The dates that are shown are in order, no two that follow one another are the
/// same, and there are at most twenty.
pub proof fn dates_are_in_order(v: Seq<DateModel>)
    ensures
        ordered(shown_dates(v)),
        shown_dates(v).len() <= DATES_SHOWN,
        forall|k: int|
            0 < k < shown_dates(v).len() ==> shown_dates(v)[k - 1] != #[trigger] shown_dates(v)[k],
{
    lemma_in_order(v);
    lemma_once(in_order(v));
}

/// The latest event of a case is one of its dates, is not in the future, and
/// none that has happened stands behind it.
pub proof fn latest_event_has_happened(v: Seq<DateModel>, today: Seq<char>)
    ensures
        match latest(v, today) {
            Some(d) => exists|k: int|
                0 <= k < v.len() && #[trigger] v[k] == d && happened(d.date, today) && forall|
                    j: int,
                |
                    k < j < v.len() ==> !happened((#[trigger] v[j]).date, today),
            None => forall|j: int| 0 <= j < v.len() ==> !happened((#[trigger] v[j]).date, today),
        },
    decreases v.len(),
{
    if v.len() > 0 {
        let n = v.len() - 1;
        if happened(v.last().date, today) {
            assert(v[n] == v.last());
        } else {
            let w = v.drop_last();
            latest_event_has_happened(w, today);
            if latest(w, today) is Some {
                let d = latest(w, today).unwrap();
                let k = choose|k: int|
                    0 <= k < w.len() && #[trigger] w[k] == d && happened(d.date, today) && forall|
                        j: int,
                    |
                        k < j < w.len() ==> !happened((#[trigger] w[j]).date, today);
                assert(v[k] == d);
                assert forall|j: int| k < j < v.len() implies !happened(
                    (#[trigger] v[j]).date,
                    today,
                ) by {
                    if j < n {
                        assert(w[j] == v[j]);
                    }
                }
            } else {
                assert forall|j: int| 0 <= j < v.len() implies !happened(
                    (#[trigger] v[j]).date,
                    today,
                ) by {
                    if j < n {
                        assert(w[j] == v[j]);
                    }
                }
            }
        }
    }
}

proof fn lemma_in_order_holds(v: Seq<DateModel>, d: DateModel)
    ensures
        in_order(v).len() == v.len(),
        in_order(v).contains(d) <==> v.contains(d),
    decreases v.len(),
{
    if v.len() > 0 {
        let w = v.drop_last();
        let x = v.last();
        let o = in_order(w);
        lemma_in_order_holds(w, d);
        let p = date_slot(o, x.date, 0);
        lemma_date_slot(o, x.date, 0);
        o.insert_ensures(p, x);
        let r = o.insert(p, x);
        if v.contains(d) {
            let k = choose|k: int| 0 <= k < v.len() && v[k] == d;
            if k == v.len() - 1 {
                assert(r[p] == d);
            } else {
                assert(w[k] == d);
                let m = choose|m: int| 0 <= m < o.len() && o[m] == d;
                if m < p {
                    assert(r[m] == d);
                } else {
                    assert(r[m + 1] == d);
                }
            }
        }
        if r.contains(d) {
            let m = choose|m: int| 0 <= m < r.len() && r[m] == d;
            if m == p {
                assert(v[v.len() - 1] == d);
            } else {
                if m < p {
                    assert(o[m] == d);
                } else {
                    assert(o[m - 1] == d);
                }
                let k = choose|k: int| 0 <= k < w.len() && w[k] == d;
                assert(v[k] == d);
            }
        }
    }
}

proof fn lemma_once_holds(v: Seq<DateModel>, d: DateModel)
    ensures
        v.len() > 0 ==> once(v).len() > 0 && once(v).last() == v.last(),
        once(v).contains(d) <==> v.contains(d),
    decreases v.len(),
{
    if v.len() > 0 {
        let w = v.drop_last();
        let o = once(w);
        lemma_once_holds(w, d);
        let r = once(v);
        if v.contains(d) {
            let k = choose|k: int| 0 <= k < v.len() && v[k] == d;
            if k == v.len() - 1 {
                assert(r[r.len() - 1] == d);
            } else {
                assert(w[k] == d);
                let m = choose|m: int| 0 <= m < o.len() && o[m] == d;
                assert(r[m] == d);
            }
        }
        if r.contains(d) {
            let m = choose|m: int| 0 <= m < r.len() && r[m] == d;
            if m < o.len() {
                assert(o[m] == d);
                let k = choose|k: int| 0 <= k < w.len() && w[k] == d;
                assert(v[k] == d);
            } else {
                assert(v[v.len() - 1] == d);
            }
        }
    }
}

/// No date is lost but to the limit: a date of a case, together with its event, is
/// shown, unless as many as the limit allows are shown and none of them comes
/// after it. Nothing is shown that is not a date of the case.
pub proof fn no_date_is_lost(v: Seq<DateModel>, d: DateModel)
    ensures
        v.contains(d) ==> shown_dates(v).contains(d) || (shown_dates(v).len() == 20 && forall|
            i: int,
        |
            0 <= i < shown_dates(v).len() ==> !text_before(
                d.date,
                (#[trigger] shown_dates(v)[i]).date,
            )),
        shown_dates(v).contains(d) ==> v.contains(d),
        v.len() <= 20 ==> (shown_dates(v).contains(d) <==> v.contains(d)),
{
    let s = in_order(v);
    let o = once(s);
    let r = shown_dates(v);
    lemma_in_order(v);
    lemma_in_order_holds(v, d);
    lemma_once(s);
    lemma_once_holds(s, d);
    lemma_once_shorter(s);
    if r.contains(d) {
        let k = choose|k: int| 0 <= k < r.len() && r[k] == d;
        assert(o[k] == d);
    }
    if v.contains(d) {
        let k = choose|k: int| 0 <= k < o.len() && o[k] == d;
        if k < r.len() {
            assert(r[k] == d);
        } else {
            assert forall|i: int| 0 <= i < r.len() implies !text_before(
                d.date,
                (#[trigger] r[i]).date,
            ) by {
                assert(r[i] == o[i]);
                assert(!text_before(o[k].date, o[i].date));
            }
        }
    }
}

proof fn lemma_once_shorter(v: Seq<DateModel>)
    ensures
        once(v).len() <= v.len(),
    decreases v.len(),
{
    if v.len() > 0 {
        lemma_once_shorter(v.drop_last());
    }
}

/// Dates that follow one another in order, none like the one before, and no more
/// than the limit allows, are shown as they are. Giving the last once more changes
/// nothing.
pub proof fn orderly_dates_are_shown_as_they_are(v: Seq<DateModel>)
    requires
        ordered(v),
        v.len() <= 20,
        forall|k: int| 0 < k < v.len() ==> v[k - 1] != #[trigger] v[k],
    ensures
        shown_dates(v) == v,
        v.len() > 0 ==> shown_dates(v.push(v.last())) == v,
{
    lemma_orderly(v);
    if v.len() > 0 {
        let w = v.push(v.last());
        assert(w.drop_last() =~= v);
        lemma_slot_at_end(v, v.last().date);
        assert(in_order(w) =~= w);
        assert(once(w) == v);
    }
}

proof fn lemma_slot_at_end(v: Seq<DateModel>, date: Seq<char>)
    requires
        forall|i: int| 0 <= i < v.len() ==> !text_before(date, #[trigger] v[i].date),
    ensures
        date_slot(v, date, 0) == v.len(),
{
    lemma_date_slot(v, date, 0);
}

proof fn lemma_orderly(v: Seq<DateModel>)
    requires
        ordered(v),
        forall|k: int| 0 < k < v.len() ==> v[k - 1] != #[trigger] v[k],
    ensures
        in_order(v) == v,
        once(v) == v,
        v.len() > 0 ==> forall|i: int|
            0 <= i < v.len() ==> !text_before(v.last().date, #[trigger] v[i].date),
    decreases v.len(),
{
    if v.len() > 0 {
        let w = v.drop_last();
        assert forall|i: int, j: int| 0 <= i < j < w.len() implies !text_before(
            #[trigger] w[j].date,
            #[trigger] w[i].date,
        ) by {
            assert(!text_before(v[j].date, v[i].date));
        }
        assert forall|k: int| 0 < k < w.len() implies w[k - 1] != #[trigger] w[k] by {
            assert(v[k - 1] != v[k]);
        }
        lemma_orderly(w);
        let x = v.last();
        assert forall|i: int| 0 <= i < v.len() implies !text_before(
            x.date,
            #[trigger] v[i].date,
        ) by {
            if i < v.len() - 1 {
                assert(!text_before(v[v.len() - 1].date, v[i].date));
            } else {
                text_order_is_total(x.date, x.date);
            }
        }
        assert forall|i: int| 0 <= i < w.len() implies !text_before(
            x.date,
            #[trigger] w[i].date,
        ) by {
            assert(w[i] == v[i]);
        }
        lemma_slot_at_end(w, x.date);
        assert(w.insert(w.len() as int, x) =~= v);
        assert(w.push(x) =~= v);
        if w.len() > 0 {
            assert(v[v.len() - 2] != v[v.len() - 1]);
        }
    }
}

/// Of two dates of one day, the one that came first stands first, as long as the
/// limit is not reached.
pub proof fn days_keep_their_order(v: Seq<DateModel>, i: int, j: int) -> (r: (int, int))
    requires
        0 <= i < j < v.len(),
        v[i].date == v[j].date,
        v[i] != v[j],
        shown_dates(v).len() < 20,
    ensures
        0 <= r.0 < r.1 < shown_dates(v).len(),
        shown_dates(v)[r.0] == v[i],
        shown_dates(v)[r.1] == v[j],
{
    let (a, b) = lemma_stable(v, i, j);
    lemma_once_order(in_order(v), a, b)
}

proof fn lemma_stable(v: Seq<DateModel>, i: int, j: int) -> (r: (int, int))
    requires
        0 <= i < j < v.len(),
        v[i].date == v[j].date,
    ensures
        0 <= r.0 < r.1 < in_order(v).len(),
        in_order(v)[r.0] == v[i],
        in_order(v)[r.1] == v[j],
    decreases v.len(),
{
    let w = v.drop_last();
    let x = v.last();
    let o = in_order(w);
    let p = date_slot(o, x.date, 0);
    lemma_date_slot(o, x.date, 0);
    lemma_in_order_holds(w, x);
    o.insert_ensures(p, x);
    let t = o.insert(p, x);
    if j < v.len() - 1 {
        let (a, b) = lemma_stable(w, i, j);
        let c = if a < p {
            a
        } else {
            a + 1
        };
        let d = if b < p {
            b
        } else {
            b + 1
        };
        assert(t[c] == v[i] && t[d] == v[j]);
        (c, d)
    } else {
        lemma_in_order_holds(w, v[i]);
        assert(w[i] == v[i]);
        assert(w.contains(v[i]));
        let a = choose|a: int| 0 <= a < o.len() && o[a] == v[i];
        lemma_in_order(w);
        if a >= p {
            text_order_is_total(x.date, x.date);
            assert(text_before(x.date, o[p].date));
            if a > p {
                assert(!text_before(o[a].date, o[p].date));
            }
        }
        assert(t[a] == v[i] && t[p] == x);
        (a, p)
    }
}

proof fn lemma_once_place(v: Seq<DateModel>, i: int) -> (r: int)
    requires
        0 <= i < v.len(),
    ensures
        0 <= r < once(v).len(),
        once(v)[r] == v[i],
        r < once(v.subrange(0, i + 1)).len(),
        once(v.subrange(0, i + 1)).len() == r + 1,
        once(v.subrange(0, i + 1)).is_prefix_of(once(v)),
    decreases v.len(),
{
    if i == v.len() - 1 {
        lemma_once_holds(v, v[i]);
        assert(v.subrange(0, i + 1) =~= v);
        let o = once(v);
        assert(o.subrange(0, o.len() as int) =~= o);
        once(v).len() - 1
    } else {
        let w = v.drop_last();
        let r = lemma_once_place(w, i);
        assert(w.subrange(0, i + 1) =~= v.subrange(0, i + 1));
        let h = once(v.subrange(0, i + 1));
        assert(once(w).subrange(0, h.len() as int) == h);
        assert(once(v).subrange(0, h.len() as int) =~= h);
        assert(once(v)[r] == once(w)[r]);
        r
    }
}

proof fn lemma_once_order(v: Seq<DateModel>, i: int, j: int) -> (r: (int, int))
    requires
        0 <= i < j < v.len(),
        v[i] != v[j],
    ensures
        0 <= r.0 < r.1 < once(v).len(),
        once(v)[r.0] == v[i],
        once(v)[r.1] == v[j],
{
    let a = lemma_once_place(v, i);
    let b = lemma_once_place(v, j);
    let w = v.subrange(0, j + 1);
    let c = lemma_once_place(w, i);
    assert(w.subrange(0, i + 1) =~= v.subrange(0, i + 1));
    (a, b)
}

/// A date that is written in ten letters or more of ASCII has happened if and only
/// if its first ten letters do not come after today.
pub proof fn written_days_are_compared(date: Seq<char>, today: Seq<char>)
    requires
        is_ascii_chars(date),
    ensures
        date.len() >= 10 ==> (happened(date, today) <==> !text_before(
            today,
            date.subrange(0, 10),
        )),
        date.len() < 10 ==> !happened(date, today),
{
    is_ascii_chars_encode_utf8(date);
    encode_utf8_valid_utf8(date);
    let b = encode_utf8(date);
    if date.len() >= 10 {
        let head = date.subrange(0, 10);
        let tail = date.subrange(10, date.len() as int);
        assert(is_ascii_chars(head));
        is_ascii_chars_encode_utf8(head);
        crate::bytes::lemma_encode_concat(head, tail);
        assert(head + tail =~= date);
        assert(b.subrange(0, 10) =~= encode_utf8(head));
        encode_utf8_decode_utf8(head);
        assert(date[9] as u8 == b[9]);
        assert(date[9] <= '\u{7f}');
        crate::bytes::lemma_ascii_boundary(b, 9);
    }
}

proof fn lemma_names_grow(a: Seq<JsonModel>, n: int)
    requires
        0 <= n <= a.len(),
    ensures
        names_in(a.subrange(0, n)).is_prefix_of(names_in(a)),
    decreases a.len(),
{
    if n == a.len() {
        assert(a.subrange(0, n) =~= a);
        assert(names_in(a).subrange(0, names_in(a).len() as int) =~= names_in(a));
    } else {
        let w = a.drop_last();
        lemma_names_grow(w, n);
        assert(w.subrange(0, n) =~= a.subrange(0, n));
        let h = names_in(a.subrange(0, n));
        assert(names_in(a).subrange(0, h.len() as int) =~= names_in(w).subrange(
            0,
            h.len() as int,
        ));
    }
}

/// The names of a list are shown from its beginning: an item that is a name, or
/// holds one, and says something is shown, unless four names before it are. What
/// is shown of a beginning of the list is shown first of the whole.
pub proof fn names_are_shown_from_the_front(a: Seq<JsonModel>, k: int, s: Seq<char>)
    requires
        0 <= k < a.len(),
        a[k] == JsonModel::Str(s) || (a[k] is Object && a[k].member("name"@) == Some(
            JsonModel::Str(s),
        )),
        exists|i: int| 0 <= i < s.len() && !is_white(#[trigger] s[i]),
    ensures
        names_in(a.subrange(0, k)).is_prefix_of(names_in(a)),
        names_in(a.subrange(0, k)).len() < 4 ==> {
            let at = names_in(a.subrange(0, k)).len() as int;
            at < names_in(a).len() && names_in(a)[at] == s
        },
        names_in(a.subrange(0, k)).len() == 4 ==> names_in(a) == names_in(a.subrange(0, k)),
{
    full_texts_stay(s);
    lemma_names_grow(a, k);
    lemma_names_grow(a, k + 1);
    names_are_few_and_full(a);
    let h = a.subrange(0, k + 1);
    assert(h.drop_last() =~= a.subrange(0, k));
    assert(name_in(a[k]) == Some(s));
    let before = names_in(a.subrange(0, k));
    if before.len() < 4 {
        let at = before.len() as int;
        assert(names_in(h) == before.push(s));
        assert(names_in(h)[at] == names_in(a).subrange(0, names_in(h).len() as int)[at]);
    } else {
        assert(names_in(a).subrange(0, 4) =~= names_in(a));
    }
}

/// Every name that is shown is one of the list.
pub proof fn shown_names_are_of_the_list(a: Seq<JsonModel>, i: int)
    requires
        0 <= i < names_in(a).len(),
    ensures
        exists|k: int|
            0 <= k < a.len() && (#[trigger] a[k] == JsonModel::Str(names_in(a)[i]) || a[k].member(
                "name"@,
            ) == Some(JsonModel::Str(names_in(a)[i]))),
    decreases a.len(),
{
    let w = a.drop_last();
    if i < names_in(w).len() {
        shown_names_are_of_the_list(w, i);
        let k = choose|k: int|
            0 <= k < w.len() && (#[trigger] w[k] == JsonModel::Str(names_in(w)[i]) || w[k].member(
                "name"@,
            ) == Some(JsonModel::Str(names_in(w)[i])));
        assert(a[k] == w[k]);
    } else {
        assert(a[a.len() - 1] == a.last());
    }
}

/// The two sides of a case stand on their own sides of the `vs`, each with all its
/// names, and a dash stands for a side without any.
pub proof fn sides_are_not_exchanged(ps: Seq<Seq<char>>, ds: Seq<Seq<char>>) -> (r: (
    Seq<char>,
    Seq<char>,
))
    ensures
        parties_of(ps, ds) is None <==> ps.len() == 0 && ds.len() == 0,
        parties_of(ps, ds) matches Some(t) ==> t == r.0 + " vs "@ + r.1,
        ps.len() == 0 ==> r.0 == "—"@,
        ds.len() == 0 ==> r.1 == "—"@,
        forall|i: int| 0 <= i < ps.len() ==> contains(r.0, #[trigger] ps[i]),
        forall|i: int| 0 <= i < ds.len() ==> contains(r.1, #[trigger] ds[i]),
        ps.len() == 1 ==> r.0 == ps[0],
        ds.len() == 1 ==> r.1 == ds[0],
{
    assert forall|i: int| 0 <= i < ps.len() implies contains(
        names_or_dash(ps),
        #[trigger] ps[i],
    ) by {
        joined_parts_are_there(ps, "、"@, i);
    }
    assert forall|i: int| 0 <= i < ds.len() implies contains(
        names_or_dash(ds),
        #[trigger] ds[i],
    ) by {
        joined_parts_are_there(ds, "、"@, i);
    }
    (names_or_dash(ps), names_or_dash(ds))
}

proof fn lemma_dates_in(a: Seq<JsonModel>, d: DateModel)
    ensures
        dates_in(a).contains(d) <==> exists|k: int|
            0 <= k < a.len() && date_in(#[trigger] a[k]) == Some(d),
        dates_in(a).len() <= a.len(),
    decreases a.len(),
{
    if a.len() > 0 {
        let w = a.drop_last();
        let o = dates_in(w);
        let r = dates_in(a);
        lemma_dates_in(w, d);
        if exists|k: int| 0 <= k < a.len() && date_in(#[trigger] a[k]) == Some(d) {
            let k = choose|k: int| 0 <= k < a.len() && date_in(#[trigger] a[k]) == Some(d);
            if k < w.len() {
                assert(date_in(w[k]) == Some(d));
                let m = choose|m: int| 0 <= m < o.len() && o[m] == d;
                assert(r[m] == d);
            } else {
                assert(r[r.len() - 1] == d);
            }
        }
        if r.contains(d) {
            let m = choose|m: int| 0 <= m < r.len() && r[m] == d;
            if m < o.len() {
                assert(o[m] == d);
                let k = choose|k: int| 0 <= k < w.len() && date_in(#[trigger] w[k]) == Some(d);
                assert(date_in(a[k]) == Some(d));
            } else {
                assert(date_in(a[a.len() - 1]) == Some(d));
            }
        }
    }
}

/// The dates of a list are those of its items that name a day that says something,
/// with the event that the item names, or a word that stands for none.
pub proof fn dates_come_from_items(a: Seq<JsonModel>, d: DateModel)
    ensures
        dates_in(a).contains(d) <==> exists|k: int|
            #![trigger a[k]]
            0 <= k < a.len() && a[k].text_member("date"@) is Some && trim(
                a[k].text_member("date"@)->0,
            ) == d.date && d.date.len() > 0 && d.event == (if a[k].text_member("event"@) is Some {
                a[k].text_member("event"@)->0
            } else {
                "关键日期"@
            }),
{
    lemma_dates_in(a, d);
    if dates_in(a).contains(d) {
        let k = choose|k: int| 0 <= k < a.len() && date_in(#[trigger] a[k]) == Some(d);
        assert(a[k].text_member("date"@) is Some);
    }
    if exists|k: int|
        #![trigger a[k]]
        0 <= k < a.len() && a[k].text_member("date"@) is Some && trim(
            a[k].text_member("date"@)->0,
        ) == d.date && d.date.len() > 0 && d.event == (if a[k].text_member("event"@) is Some {
            a[k].text_member("event"@)->0
        } else {
            "关键日期"@
        }) {
        let k = choose|k: int|
            #![trigger a[k]]
            0 <= k < a.len() && a[k].text_member("date"@) is Some && trim(
                a[k].text_member("date"@)->0,
            ) == d.date && d.date.len() > 0 && d.event == (if a[k].text_member("event"@) is Some {
                a[k].text_member("event"@)->0
            } else {
                "关键日期"@
            });
        assert(date_in(a[k]) == Some(d));
    }
}

/// The next date that is planned is among the dates of a case, and so are all that
/// are listed.
pub proof fn planned_dates_count(c: Case, listed: Seq<DateModel>, d: DateModel)
    ensures
        all_dates(c, listed).contains(d) <==> listed.contains(d) || (c.next_milestone_at is Some
            && c.next_milestone_type is Some && d.date == c.next_milestone_at->0@ && d.event
            == c.next_milestone_type->0@),
{
    let all = all_dates(c, listed);
    if listed.contains(d) {
        let k = choose|k: int| 0 <= k < listed.len() && listed[k] == d;
        assert(all[k] == d);
    }
    if c.next_milestone_at is Some && c.next_milestone_type is Some {
        assert(all.last() == all[listed.len() as int]);
        assert(all[listed.len() as int].date == c.next_milestone_at->0@);
    }
    if all.contains(d) && !listed.contains(d) {
        let k = choose|k: int| 0 <= k < all.len() && all[k] == d;
        if k < listed.len() {
            assert(listed[k] == d);
        }
    }
}

/// What was read from the papers of a case is shown in place of what was entered, and
/// what was entered only where nothing was read.
pub proof fn what_was_read_comes_first(
    c: Case,
    plaintiffs: Seq<Seq<char>>,
    defendants: Seq<Seq<char>>,
    third_parties: Seq<Seq<char>>,
    listed: Seq<DateModel>,
    today: Seq<char>,
)
    ensures
        ({
            let s = snapshot_of(c, plaintiffs, defendants, third_parties, listed, today);
            &&& c.agg_case_no is Some ==> s.case_no == Some(c.agg_case_no->0@)
            &&& c.agg_case_no is None ==> s.case_no == optional(c.case_no)
            &&& c.agg_court is Some ==> s.court == Some(c.agg_court->0@)
            &&& c.agg_court is None ==> s.court == optional(c.court)
            &&& c.agg_cause is Some ==> s.cause == Some(c.agg_cause->0@)
            &&& c.agg_cause is None ==> s.cause == optional(c.cause)
            &&& c.workflow_status is Some ==> s.stage == Some(c.workflow_status->0@)
            &&& c.workflow_status is None ==> s.stage == optional(c.stage)
            &&& s.id == c.id@ && s.name == c.name@ && s.case_type == Some(c.case_type@)
            &&& s.status_detail == optional(c.agg_resolution) && s.summary == optional(
                c.case_summary,
            ) && s.filed_at == optional(c.agg_filed_at)
            &&& s.plaintiffs == plaintiffs && s.defendants == defendants && s.third_parties
                == third_parties
        }),
{
}

} // verus!
