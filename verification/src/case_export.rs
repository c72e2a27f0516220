//! Handing a case over: the list of what there is, as JSON, and a note that
//! says how to go on.
use std::path::Path;
use vstd::prelude::*;
use crate::case_files::{Case, Document};
use crate::db::rows::{below, names_are_put_below_their_directory, path_below};
use crate::json::{
    ascending, in_order, items_model, json_pretty, lemma_items_model, lemma_tidy_items,
    lemma_tidy_members, members_model, optional, pretty_json, put, tidy, tidy_values_stay, Json, JsonModel,
};
use crate::text::{
    cat2, contains, join, join_texts, joined_parts_are_there, parts_hold_in_the_whole, same_text,
    split_on, texts,
};
use crate::text_order::lemma_before_at;

verus! {

/// Where the parts of the hand-over are.
pub struct CaseOsInputExport {
    pub manifest_path: String,
    pub memo_path: String,
    pub case_id: String,
}

/// What is to be written for a hand-over, and where.
pub struct CaseExport {
    /// The directory that has to be there.
    pub dir: String,
    pub manifest: String,
    pub memo: String,
    pub export: CaseOsInputExport,
}

/// How work on a case is taken up.
pub const TRIGGER: &'static str = "在该案件目录触发：案件OS / 继续";

/// What holds for the list.
pub const NOTE: &'static str =
    "CaseBoard 仅导出本地输入清单；案件OS执行仍以案件目录、LOG.md 与 _archive/case-os-state.json 为权威。";

/// Documents in the note, at most.
pub const MEMO_DOCUMENTS: usize = 200;

pub open spec fn text(s: Seq<char>) -> JsonModel {
    JsonModel::Str(s)
}

pub open spec fn opt_text(s: Option<String>) -> JsonModel {
    match s {
        Some(t) => JsonModel::Str(t@),
        None => JsonModel::Null,
    }
}

/// The first that is there.
pub open spec fn first_of(a: Option<String>, b: Option<String>) -> Option<String> {
    if a is Some {
        a
    } else {
        b
    }
}

/// A name below a folder: not empty, and neither the folder itself nor the one
/// above.
pub open spec fn plain_name(name: Seq<char>) -> bool {
    name.len() > 0 && name != "."@ && name != ".."@
}

/// A path from the root on, of names with one slash between.
pub open spec fn plain_path(path: Seq<char>) -> bool {
    &&& path.len() > 0 && path[0] == '/' && !path.contains('\\')
    &&& forall|i: int|
        1 <= i < split_on(path, '/').len() ==> plain_name(#[trigger] split_on(path, '/')[i])
}

/// What is left of a path below a folder; nothing if it is not below it.
pub open spec fn below_folder(path: Seq<char>, folder: Seq<char>) -> Option<Seq<char>> {
    if path == folder {
        Some(Seq::empty())
    } else if folder.push('/').is_prefix_of(path) {
        Some(path.skip((folder.len() + 1) as int))
    } else {
        None
    }
}

/// A result that stripping a folder off a path can have.
pub open spec fn may_strip(
    path: Seq<char>,
    folder: Seq<char>,
    result: Option<Seq<char>>,
) -> bool {
    plain_path(path) && plain_path(folder) ==> result == below_folder(path, folder)
}

/// `Path::strip_prefix` takes a folder off the front of a path. For paths from
/// the root on, of names with one slash between, it gives the rest, and fails if
/// the folder is not the path or above it. What it makes of other paths depends
/// on the system, by whose rules a path is taken apart, and is left unsaid.
#[verifier::external_body]
fn strip_folder(path: &str, folder: &str) -> (r: Option<String>)
    ensures
        may_strip(path@, folder@, optional(r)),
{
    Path::new(path).strip_prefix(folder).ok().map(|p| p.to_string_lossy().to_string())
}

/// Results that stripping the folder of a case off the paths of its documents
/// can have.
pub open spec fn may_lie(
    docs: Seq<Document>,
    folder: Seq<char>,
    rels: Seq<Option<String>>,
) -> bool {
    &&& rels.len() == docs.len()
    &&& forall|i: int|
        0 <= i < docs.len() ==> may_strip(
            (#[trigger] docs[i]).source_path@,
            folder,
            optional(rels[i]),
        )
}

fn relative_paths(docs: &Vec<Document>, folder: &str) -> (r: Vec<Option<String>>)
    ensures
        may_lie(docs@, folder@, r@),
{
    let mut rels: Vec<Option<String>> = Vec::new();
    let mut i: usize = 0;
    while i < docs.len()
        invariant
            i <= docs@.len(),
            rels@.len() == i,
            forall|k: int|
                0 <= k < i ==> may_strip(
                    (#[trigger] docs@[k]).source_path@,
                    folder@,
                    optional(rels@[k]),
                ),
        decreases docs@.len() - i,
    {
        rels.push(strip_folder(docs[i].source_path.as_str(), folder));
        i = i + 1;
    }
    rels
}

/// The members of a document that lies at `rel` below the folder of its case.
pub open spec fn document_members(d: Document, rel: Option<String>) -> Seq<(Seq<char>, JsonModel)> {
    seq![
        ("category"@, opt_text(d.category)),
        ("extracted_text_path"@, opt_text(d.extracted_text_path)),
        ("extraction_status"@, text(d.extraction_status@)),
        ("filename"@, text(d.filename@)),
        ("id"@, text(d.id@)),
        ("is_ai_artifact"@, JsonModel::Bool(d.is_ai_artifact)),
        ("missing"@, JsonModel::Bool(d.missing)),
        ("relative_path"@, opt_text(rel)),
        ("source"@, text(d.source@)),
        ("source_path"@, text(d.source_path@)),
        ("stage"@, opt_text(d.stage)),
    ]
}

/// The members of a case.
pub open spec fn case_members(case: Case) -> Seq<(Seq<char>, JsonModel)> {
    seq![
        ("case_no"@, opt_text(first_of(case.agg_case_no, case.case_no))),
        ("case_status"@, text(case.case_status@)),
        ("case_type"@, text(case.case_type@)),
        ("cause"@, opt_text(first_of(case.agg_cause, case.cause))),
        ("court"@, opt_text(first_of(case.agg_court, case.court))),
        ("court_contacts_json"@, opt_text(case.agg_court_contacts)),
        ("deep_dive_report_path"@, opt_text(case.deep_dive_report_path)),
        ("fees_json"@, opt_text(case.agg_fees)),
        ("full_report_path"@, opt_text(case.full_report_path)),
        ("id"@, text(case.id@)),
        ("key_dates_json"@, opt_text(case.agg_key_dates)),
        ("name"@, text(case.name@)),
        ("party_contacts_json"@, opt_text(case.agg_party_contacts)),
        ("report_path"@, opt_text(case.case_report_path)),
        ("risk_assessment_path"@, opt_text(case.risk_assessment_path)),
        ("source_folder"@, text(case.source_folder@)),
        ("summary"@, opt_text(case.case_summary)),
        ("workflow_status"@, opt_text(case.workflow_status)),
    ]
}

/// What is looked at, in this order, when work is taken up. The first is the
/// file in which the user's tool keeps its notes.
pub open spec fn resume_order(notes: Seq<char>) -> Seq<Seq<char>> {
    seq![notes, "LOG.md"@, "_archive/case-os-state.json"@, "intermediate/_index.json"@]
}

/// The members that say how to go on.
pub open spec fn entry_members(folder: Seq<char>, notes: Seq<char>) -> Seq<(Seq<char>, JsonModel)> {
    seq![
        ("case_directory"@, text(folder)),
        ("note"@, text(NOTE@)),
        (
            "resume_check_order"@,
            JsonModel::Array(
                Seq::new(resume_order(notes).len(), |i: int| text(resume_order(notes)[i])),
            ),
        ),
        ("trigger"@, text(TRIGGER@)),
    ]
}

/// The members of the list.
pub open spec fn manifest_members(
    case: Case,
    docs: Seq<Document>,
    rels: Seq<Option<String>>,
    now: Seq<char>,
    notes: Seq<char>,
) -> Seq<(Seq<char>, JsonModel)> {
    seq![
        ("case"@, JsonModel::Object(case_members(case))),
        ("case_os_entry"@, JsonModel::Object(entry_members(case.source_folder@, notes))),
        (
            "documents"@,
            JsonModel::Array(
                Seq::new(docs.len(), |i: int| JsonModel::Object(document_members(docs[i], rels[i]))),
            ),
        ),
        ("generated_at"@, text(now)),
        ("schema"@, text("caseboard.case_os_input.v1"@)),
        ("source"@, text("CaseBoard"@)),
    ]
}

proof fn lemma_document_order(d: Document, rel: Option<String>)
    ensures
        ascending(document_members(d, rel)),
{
    let m = document_members(d, rel);
    reveal_strlit("category");
    reveal_strlit("extracted_text_path");
    reveal_strlit("extraction_status");
    reveal_strlit("filename");
    reveal_strlit("id");
    reveal_strlit("is_ai_artifact");
    reveal_strlit("missing");
    reveal_strlit("relative_path");
    reveal_strlit("source");
    reveal_strlit("source_path");
    reveal_strlit("stage");
    lemma_before_at("category"@, "extracted_text_path"@, 0);
    lemma_before_at("extracted_text_path"@, "extraction_status"@, 7);
    lemma_before_at("extraction_status"@, "filename"@, 0);
    lemma_before_at("filename"@, "id"@, 0);
    lemma_before_at("id"@, "is_ai_artifact"@, 1);
    lemma_before_at("is_ai_artifact"@, "missing"@, 0);
    lemma_before_at("missing"@, "relative_path"@, 0);
    lemma_before_at("relative_path"@, "source"@, 0);
    lemma_before_at("source"@, "source_path"@, 6);
    lemma_before_at("source_path"@, "stage"@, 1);
    assert forall|i: int| 0 <= i < m.len() - 1 implies #[trigger] in_order(m, i) by {
        if i == 0 {
            assert(in_order(m, 0));
        }
        if i == 1 {
            assert(in_order(m, 1));
        }
        if i == 2 {
            assert(in_order(m, 2));
        }
        if i == 3 {
            assert(in_order(m, 3));
        }
        if i == 4 {
            assert(in_order(m, 4));
        }
        if i == 5 {
            assert(in_order(m, 5));
        }
        if i == 6 {
            assert(in_order(m, 6));
        }
        if i == 7 {
            assert(in_order(m, 7));
        }
        if i == 8 {
            assert(in_order(m, 8));
        }
        if i == 9 {
            assert(in_order(m, 9));
        }
    }
}

proof fn lemma_case_order(case: Case)
    ensures
        ascending(case_members(case)),
{
    let m = case_members(case);
    reveal_strlit("case_no");
    reveal_strlit("case_status");
    reveal_strlit("case_type");
    reveal_strlit("cause");
    reveal_strlit("court");
    reveal_strlit("court_contacts_json");
    reveal_strlit("deep_dive_report_path");
    reveal_strlit("fees_json");
    reveal_strlit("full_report_path");
    reveal_strlit("id");
    reveal_strlit("key_dates_json");
    reveal_strlit("name");
    reveal_strlit("party_contacts_json");
    reveal_strlit("report_path");
    reveal_strlit("risk_assessment_path");
    reveal_strlit("source_folder");
    reveal_strlit("summary");
    reveal_strlit("workflow_status");
    lemma_before_at("case_no"@, "case_status"@, 5);
    lemma_before_at("case_status"@, "case_type"@, 5);
    lemma_before_at("case_type"@, "cause"@, 2);
    lemma_before_at("cause"@, "court"@, 1);
    lemma_before_at("court"@, "court_contacts_json"@, 5);
    lemma_before_at("court_contacts_json"@, "deep_dive_report_path"@, 0);
    lemma_before_at("deep_dive_report_path"@, "fees_json"@, 0);
    lemma_before_at("fees_json"@, "full_report_path"@, 1);
    lemma_before_at("full_report_path"@, "id"@, 0);
    lemma_before_at("id"@, "key_dates_json"@, 0);
    lemma_before_at("key_dates_json"@, "name"@, 0);
    lemma_before_at("name"@, "party_contacts_json"@, 0);
    lemma_before_at("party_contacts_json"@, "report_path"@, 0);
    lemma_before_at("report_path"@, "risk_assessment_path"@, 1);
    lemma_before_at("risk_assessment_path"@, "source_folder"@, 0);
    lemma_before_at("source_folder"@, "summary"@, 1);
    lemma_before_at("summary"@, "workflow_status"@, 0);
    assert forall|i: int| 0 <= i < m.len() - 1 implies #[trigger] in_order(m, i) by {
        if i == 0 {
            assert(in_order(m, 0));
        }
        if i == 1 {
            assert(in_order(m, 1));
        }
        if i == 2 {
            assert(in_order(m, 2));
        }
        if i == 3 {
            assert(in_order(m, 3));
        }
        if i == 4 {
            assert(in_order(m, 4));
        }
        if i == 5 {
            assert(in_order(m, 5));
        }
        if i == 6 {
            assert(in_order(m, 6));
        }
        if i == 7 {
            assert(in_order(m, 7));
        }
        if i == 8 {
            assert(in_order(m, 8));
        }
        if i == 9 {
            assert(in_order(m, 9));
        }
        if i == 10 {
            assert(in_order(m, 10));
        }
        if i == 11 {
            assert(in_order(m, 11));
        }
        if i == 12 {
            assert(in_order(m, 12));
        }
        if i == 13 {
            assert(in_order(m, 13));
        }
        if i == 14 {
            assert(in_order(m, 14));
        }
        if i == 15 {
            assert(in_order(m, 15));
        }
        if i == 16 {
            assert(in_order(m, 16));
        }
    }
}

proof fn lemma_entry_order(folder: Seq<char>, notes: Seq<char>)
    ensures
        ascending(entry_members(folder, notes)),
{
    let m = entry_members(folder, notes);
    reveal_strlit("case_directory");
    reveal_strlit("note");
    reveal_strlit("resume_check_order");
    reveal_strlit("trigger");
    lemma_before_at("case_directory"@, "note"@, 0);
    lemma_before_at("note"@, "resume_check_order"@, 0);
    lemma_before_at("resume_check_order"@, "trigger"@, 0);
    assert forall|i: int| 0 <= i < m.len() - 1 implies #[trigger] in_order(m, i) by {
        if i == 0 {
            assert(in_order(m, 0));
        }
        if i == 1 {
            assert(in_order(m, 1));
        }
        if i == 2 {
            assert(in_order(m, 2));
        }
    }
}

proof fn lemma_manifest_order(
    case: Case,
    docs: Seq<Document>,
    rels: Seq<Option<String>>,
    now: Seq<char>,
    notes: Seq<char>,
)
    ensures
        ascending(manifest_members(case, docs, rels, now, notes)),
{
    let m = manifest_members(case, docs, rels, now, notes);
    reveal_strlit("case");
    reveal_strlit("case_os_entry");
    reveal_strlit("documents");
    reveal_strlit("generated_at");
    reveal_strlit("schema");
    reveal_strlit("source");
    lemma_before_at("case"@, "case_os_entry"@, 4);
    lemma_before_at("case_os_entry"@, "documents"@, 0);
    lemma_before_at("documents"@, "generated_at"@, 0);
    lemma_before_at("generated_at"@, "schema"@, 0);
    lemma_before_at("schema"@, "source"@, 1);
    assert forall|i: int| 0 <= i < m.len() - 1 implies #[trigger] in_order(m, i) by {
        if i == 0 {
            assert(in_order(m, 0));
        }
        if i == 1 {
            assert(in_order(m, 1));
        }
        if i == 2 {
            assert(in_order(m, 2));
        }
        if i == 3 {
            assert(in_order(m, 3));
        }
        if i == 4 {
            assert(in_order(m, 4));
        }
    }
}

fn text_json(s: &str) -> (r: Json)
    ensures
        r@ == text(s@),
{
    Json::Str(String::from_str(s))
}

fn optional_json(s: &Option<String>) -> (r: Json)
    ensures
        r@ == opt_text(*s),
{
    match s {
        Some(t) => Json::Str(String::from_str(t.as_str())),
        None => Json::Null,
    }
}

fn document_json(d: &Document, rel: &Option<String>) -> (r: Json)
    ensures
        r@ == JsonModel::Object(document_members(*d, *rel)),
{
    let mut m: Vec<(String, Json)> = Vec::new();
    put(&mut m, "category", optional_json(&d.category));
    put(&mut m, "extracted_text_path", optional_json(&d.extracted_text_path));
    put(&mut m, "extraction_status", text_json(d.extraction_status.as_str()));
    put(&mut m, "filename", text_json(d.filename.as_str()));
    put(&mut m, "id", text_json(d.id.as_str()));
    put(&mut m, "is_ai_artifact", Json::Bool(d.is_ai_artifact));
    put(&mut m, "missing", Json::Bool(d.missing));
    put(&mut m, "relative_path", optional_json(rel));
    put(&mut m, "source", text_json(d.source.as_str()));
    put(&mut m, "source_path", text_json(d.source_path.as_str()));
    put(&mut m, "stage", optional_json(&d.stage));
    assert(members_model(m@, m@.len()) =~= document_members(*d, *rel));
    Json::Object(m)
}

fn case_json(case: &Case) -> (r: Json)
    ensures
        r@ == JsonModel::Object(case_members(*case)),
{
    let mut m: Vec<(String, Json)> = Vec::new();
    put(&mut m, "case_no", optional_json(if case.agg_case_no.is_some() {
            &case.agg_case_no
        } else {
            &case.case_no
        }));
    put(&mut m, "case_status", text_json(case.case_status.as_str()));
    put(&mut m, "case_type", text_json(case.case_type.as_str()));
    put(&mut m, "cause", optional_json(if case.agg_cause.is_some() {
            &case.agg_cause
        } else {
            &case.cause
        }));
    put(&mut m, "court", optional_json(if case.agg_court.is_some() {
            &case.agg_court
        } else {
            &case.court
        }));
    put(&mut m, "court_contacts_json", optional_json(&case.agg_court_contacts));
    put(&mut m, "deep_dive_report_path", optional_json(&case.deep_dive_report_path));
    put(&mut m, "fees_json", optional_json(&case.agg_fees));
    put(&mut m, "full_report_path", optional_json(&case.full_report_path));
    put(&mut m, "id", text_json(case.id.as_str()));
    put(&mut m, "key_dates_json", optional_json(&case.agg_key_dates));
    put(&mut m, "name", text_json(case.name.as_str()));
    put(&mut m, "party_contacts_json", optional_json(&case.agg_party_contacts));
    put(&mut m, "report_path", optional_json(&case.case_report_path));
    put(&mut m, "risk_assessment_path", optional_json(&case.risk_assessment_path));
    put(&mut m, "source_folder", text_json(case.source_folder.as_str()));
    put(&mut m, "summary", optional_json(&case.case_summary));
    put(&mut m, "workflow_status", optional_json(&case.workflow_status));
    assert(members_model(m@, m@.len()) =~= case_members(*case));
    Json::Object(m)
}

fn entry_json(folder: &str, notes: &str) -> (r: Json)
    ensures
        r@ == JsonModel::Object(entry_members(folder@, notes@)),
{
    let mut order: Vec<Json> = Vec::new();
    order.push(text_json(notes));
    order.push(text_json("LOG.md"));
    order.push(text_json("_archive/case-os-state.json"));
    order.push(text_json("intermediate/_index.json"));
    proof {
        lemma_items_model(order@, order@.len());
    }
    assert(items_model(order@, order@.len()) =~= Seq::new(
        resume_order(notes@).len(),
        |i: int| text(resume_order(notes@)[i]),
    ));
    let mut m: Vec<(String, Json)> = Vec::new();
    put(&mut m, "case_directory", text_json(folder));
    put(&mut m, "note", text_json(NOTE));
    put(&mut m, "resume_check_order", Json::Array(order));
    put(&mut m, "trigger", text_json(TRIGGER));
    assert(members_model(m@, m@.len()) =~= entry_members(folder@, notes@));
    Json::Object(m)
}

/// The list of what there is of a case.
pub fn manifest_json(
    case: &Case,
    docs: &Vec<Document>,
    rels: &Vec<Option<String>>,
    now: &str,
    notes: &str,
) -> (r: Json)
    requires
        rels@.len() == docs@.len(),
    ensures
        r@ == JsonModel::Object(manifest_members(*case, docs@, rels@, now@, notes@)),
{
    let mut items: Vec<Json> = Vec::new();
    let mut i: usize = 0;
    while i < docs.len()
        invariant
            i <= docs@.len(),
            rels@.len() == docs@.len(),
            items@.len() == i,
            forall|k: int|
                0 <= k < i ==> (#[trigger] items@[k])@ == JsonModel::Object(
                    document_members(docs@[k], rels@[k]),
                ),
        decreases docs@.len() - i,
    {
        let d = document_json(&docs[i], &rels[i]);
        items.push(d);
        i = i + 1;
    }
    proof {
        lemma_items_model(items@, items@.len());
    }
    assert(items_model(items@, items@.len()) =~= Seq::new(
        docs@.len(),
        |i: int| JsonModel::Object(document_members(docs@[i], rels@[i])),
    ));
    let mut m: Vec<(String, Json)> = Vec::new();
    put(&mut m, "case", case_json(case));
    put(&mut m, "case_os_entry", entry_json(case.source_folder.as_str(), notes));
    put(&mut m, "documents", Json::Array(items));
    put(&mut m, "generated_at", text_json(now));
    put(&mut m, "schema", text_json("caseboard.case_os_input.v1"));
    put(&mut m, "source", text_json("CaseBoard"));
    assert(members_model(m@, m@.len()) =~= manifest_members(*case, docs@, rels@, now@, notes@));
    Json::Object(m)
}

proof fn lemma_flat(m: Seq<(Seq<char>, JsonModel)>)
    requires
        ascending(m),
        forall|k: int|
            0 <= k < m.len() ==> ((#[trigger] m[k]).1 is Str || m[k].1 is Null || m[k].1 is Bool),
    ensures
        tidy(JsonModel::Object(m)),
{
    lemma_tidy_members(m, m.len());
}

proof fn lemma_manifest_tidy(
    case: Case,
    docs: Seq<Document>,
    rels: Seq<Option<String>>,
    now: Seq<char>,
    notes: Seq<char>,
)
    ensures
        tidy(JsonModel::Object(manifest_members(case, docs, rels, now, notes))),
{
    let m = manifest_members(case, docs, rels, now, notes);
    lemma_manifest_order(case, docs, rels, now, notes);
    lemma_case_order(case);
    lemma_flat(case_members(case));
    let entry = entry_members(case.source_folder@, notes);
    lemma_entry_order(case.source_folder@, notes);
    lemma_tidy_members(entry, entry.len());
    let order = entry[2].1->Array_0;
    lemma_tidy_items(order, order.len());
    let items = m[2].1->Array_0;
    assert forall|k: int| 0 <= k < items.len() implies tidy(#[trigger] items[k]) by {
        lemma_document_order(docs[k], rels[k]);
        lemma_flat(document_members(docs[k], rels[k]));
    }
    lemma_tidy_items(items, items.len());
    lemma_tidy_members(m, m.len());
}

/// The line of a document in the note.
pub open spec fn memo_line(d: Document) -> Seq<char> {
    "- "@ + d.filename@ + " | "@ + (match d.category {
        Some(c) => c@,
        None => "未分类"@,
    }) + " | "@ + d.extraction_status@ + " | "@ + d.source_path@
}

/// The lines of the first documents.
pub open spec fn memo_lines(docs: Seq<Document>) -> Seq<Seq<char>> {
    Seq::new(
        if docs.len() < MEMO_DOCUMENTS {
            docs.len()
        } else {
            MEMO_DOCUMENTS as nat
        },
        |i: int| memo_line(docs[i]),
    )
}

/// The note that goes with the list.
pub open spec fn memo_text(
    case: Case,
    docs: Seq<Document>,
    now: Seq<char>,
    notes: Seq<char>,
    manifest_path: Seq<char>,
) -> Seq<char> {
    "# CaseBoard 案件OS入口\n\n- 生成时间："@ + now + "\n- 案件名称："@ + case.name@
        + "\n- 案件目录："@ + case.source_folder@ + "\n- 输入清单："@ + manifest_path
        + "\n\n## 执行入口\n\n在本案件目录触发 `案件OS` 或 `继续`。若目录已有 `"@
        + notes
        + "`、`LOG.md`、`_archive/case-os-state.json`、`intermediate/_index.json`，按案件OS断点恢复规则继续，不重新通读全卷。\n\n## 看板文档清单\n\n"@
        + (if docs.len() == 0 {
        "- 暂无文档"@
    } else {
        join(memo_lines(docs), "\n"@)
    }) + "\n"@
}

fn memo_entry(d: &Document) -> (r: String)
    ensures
        r@ == memo_line(*d),
{
    let mut out = cat2("- ", d.filename.as_str());
    out.append(" | ");
    match &d.category {
        Some(c) => out.append(c.as_str()),
        None => out.append("未分类"),
    }
    out.append(" | ");
    out.append(d.extraction_status.as_str());
    out.append(" | ");
    out.append(d.source_path.as_str());
    out
}

/// The note that goes with the list: how to go on, and the first documents.
pub fn memo(
    case: &Case,
    docs: &Vec<Document>,
    now: &str,
    notes: &str,
    manifest_path: &str,
) -> (r: String)
    ensures
        r@ == memo_text(*case, docs@, now@, notes@, manifest_path@),
{
    let mut out = String::from_str("# CaseBoard 案件OS入口\n\n- 生成时间：");
    out.append(now);
    out.append("\n- 案件名称：");
    out.append(case.name.as_str());
    out.append("\n- 案件目录：");
    out.append(case.source_folder.as_str());
    out.append("\n- 输入清单：");
    out.append(manifest_path);
    out.append(
        "\n\n## 执行入口\n\n在本案件目录触发 `案件OS` 或 `继续`。若目录已有 `",
    );
    out.append(notes);
    out.append(
        "`、`LOG.md`、`_archive/case-os-state.json`、`intermediate/_index.json`，按案件OS断点恢复规则继续，不重新通读全卷。\n\n## 看板文档清单\n\n",
    );
    if docs.len() == 0 {
        out.append("- 暂无文档");
    } else {
        let mut lines: Vec<String> = Vec::new();
        let mut i: usize = 0;
        while i < docs.len() && i < MEMO_DOCUMENTS
            invariant
                i <= docs@.len(),
                i <= MEMO_DOCUMENTS,
                lines@.len() == i,
                forall|k: int| 0 <= k < i ==> (#[trigger] lines@[k])@ == memo_line(docs@[k]),
            decreases docs@.len() - i,
        {
            let line = memo_entry(&docs[i]);
            lines.push(line);
            i = i + 1;
        }
        assert(texts(lines@) =~= memo_lines(docs@));
        let all = join_texts(&lines, "\n");
        out.append(all.as_str());
    }
    out.append("\n");
    out
}

/// Why a case cannot be handed over, if so.
pub open spec fn export_objection(folder: Seq<char>, is_dir: bool) -> Option<Seq<char>> {
    if folder == "__DEMO__"@ {
        Some("示例案件没有真实案件目录，不能导出案件 OS 输入源"@)
    } else if !is_dir {
        Some("案件源文件夹不可用: "@ + folder)
    } else {
        None
    }
}

/// Checks that a case can be handed over.
pub fn check_export(folder: &str, is_dir: bool) -> (r: Result<(), String>)
    ensures
        match export_objection(folder@, is_dir) {
            Some(m) => r matches Err(e) && e@ == m,
            None => r is Ok,
        },
{
    if same_text(folder, "__DEMO__") {
        return Err(
            String::from_str("示例案件没有真实案件目录，不能导出案件 OS 输入源"),
        );
    }
    if !is_dir {
        return Err(cat2("案件源文件夹不可用: ", folder));
    }
    Ok(())
}

/// What a hand-over of a case comes to, if its documents lie at `rels` below its
/// folder.
pub open spec fn handed_over(
    r: Result<CaseExport, String>,
    case: Case,
    docs: Seq<Document>,
    rels: Seq<Option<String>>,
    is_dir: bool,
    now: Seq<char>,
    notes: Seq<char>,
    separator: char,
) -> bool {
    match export_objection(case.source_folder@, is_dir) {
        Some(m) => r matches Err(e) && e@ == m,
        None => {
            let dir = below(case.source_folder@, separator, "_caseboard"@);
            let path = below(dir, separator, "case_os_input.json"@);
            match json_pretty(JsonModel::Object(manifest_members(case, docs, rels, now, notes))) {
                Err(e) => r matches Err(m) && m@ == "生成 JSON 失败: "@ + e,
                Ok(t) => r matches Ok(x) && x.dir@ == dir && x.manifest@ == t && x.memo@
                    == memo_text(case, docs, now, notes, path) && x.export.manifest_path@ == path
                    && x.export.memo_path@ == below(dir, separator, "CASE_OS入口.md"@)
                    && x.export.case_id@ == case.id@,
            }
        },
    }
}

/// What is to be written so that a case can be handed over, and where. A case
/// that is only shown, or whose folder is not there, is refused. `notes` is the
/// file in which the user's tool keeps its notes.
pub fn export_case_os_input(
    case: &Case,
    docs: &Vec<Document>,
    is_dir: bool,
    now: &str,
    notes: &str,
    separator: char,
) -> (r: Result<CaseExport, String>)
    ensures
        exists|rels: Seq<Option<String>>| #[trigger]
            may_lie(docs@, case.source_folder@, rels) && handed_over(
                r,
                *case,
                docs@,
                rels,
                is_dir,
                now@,
                notes@,
                separator,
            ),
{
    let rels = relative_paths(docs, case.source_folder.as_str());
    let r = export_with_paths(case, docs, &rels, is_dir, now, notes, separator);
    assert(may_lie(docs@, case.source_folder@, rels@));
    r
}

/// What is to be written so that a case can be handed over, and where, if its
/// documents lie at `rels` below its folder.
pub fn export_with_paths(
    case: &Case,
    docs: &Vec<Document>,
    rels: &Vec<Option<String>>,
    is_dir: bool,
    now: &str,
    notes: &str,
    separator: char,
) -> (r: Result<CaseExport, String>)
    requires
        rels@.len() == docs@.len(),
    ensures
        handed_over(r, *case, docs@, rels@, is_dir, now@, notes@, separator),
{
    match check_export(case.source_folder.as_str(), is_dir) {
        Ok(_) => {},
        Err(e) => {
            return Err(e);
        },
    }
    let dir = path_below(case.source_folder.as_str(), separator, "_caseboard");
    let manifest_path = path_below(dir.as_str(), separator, "case_os_input.json");
    let memo_path = path_below(dir.as_str(), separator, "CASE_OS入口.md");
    let list = manifest_json(case, docs, rels, now, notes);
    proof {
        lemma_manifest_tidy(*case, docs@, rels@, now@, notes@);
        tidy_values_stay(JsonModel::Object(manifest_members(*case, docs@, rels@, now@, notes@)));
    }
    match pretty_json(&list) {
        Err(e) => Err(cat2("生成 JSON 失败: ", e.as_str())),
        Ok(manifest) => {
            let memo = memo(case, docs, now, notes, manifest_path.as_str());
            let case_id = String::from_str(case.id.as_str());
            Ok(
                CaseExport {
                    dir,
                    manifest,
                    memo,
                    export: CaseOsInputExport { manifest_path, memo_path, case_id },
                },
            )
        },
    }
}

/// Each column of a case stands in the list under its own name. What was drawn from
/// the papers goes before what was entered.
pub proof fn cases_are_listed_column_by_column(case: Case)
    ensures
        case.agg_case_no is Some ==> case_members(case).contains(("case_no"@, JsonModel::Str(case.agg_case_no->0@))),
        case.agg_case_no is None && case.case_no is Some ==> case_members(case).contains(("case_no"@, JsonModel::Str(case.case_no->0@))),
        case.agg_case_no is None && case.case_no is None ==> case_members(case).contains(("case_no"@, JsonModel::Null)),
        case_members(case).contains(("case_status"@, JsonModel::Str(case.case_status@))),
        case_members(case).contains(("case_type"@, JsonModel::Str(case.case_type@))),
        case.agg_cause is Some ==> case_members(case).contains(("cause"@, JsonModel::Str(case.agg_cause->0@))),
        case.agg_cause is None && case.cause is Some ==> case_members(case).contains(("cause"@, JsonModel::Str(case.cause->0@))),
        case.agg_cause is None && case.cause is None ==> case_members(case).contains(("cause"@, JsonModel::Null)),
        case.agg_court is Some ==> case_members(case).contains(("court"@, JsonModel::Str(case.agg_court->0@))),
        case.agg_court is None && case.court is Some ==> case_members(case).contains(("court"@, JsonModel::Str(case.court->0@))),
        case.agg_court is None && case.court is None ==> case_members(case).contains(("court"@, JsonModel::Null)),
        case.agg_court_contacts is Some ==> case_members(case).contains(("court_contacts_json"@, JsonModel::Str(case.agg_court_contacts->0@))),
        case.agg_court_contacts is None ==> case_members(case).contains(("court_contacts_json"@, JsonModel::Null)),
        case.deep_dive_report_path is Some ==> case_members(case).contains(("deep_dive_report_path"@, JsonModel::Str(case.deep_dive_report_path->0@))),
        case.deep_dive_report_path is None ==> case_members(case).contains(("deep_dive_report_path"@, JsonModel::Null)),
        case.agg_fees is Some ==> case_members(case).contains(("fees_json"@, JsonModel::Str(case.agg_fees->0@))),
        case.agg_fees is None ==> case_members(case).contains(("fees_json"@, JsonModel::Null)),
        case.full_report_path is Some ==> case_members(case).contains(("full_report_path"@, JsonModel::Str(case.full_report_path->0@))),
        case.full_report_path is None ==> case_members(case).contains(("full_report_path"@, JsonModel::Null)),
        case_members(case).contains(("id"@, JsonModel::Str(case.id@))),
        case.agg_key_dates is Some ==> case_members(case).contains(("key_dates_json"@, JsonModel::Str(case.agg_key_dates->0@))),
        case.agg_key_dates is None ==> case_members(case).contains(("key_dates_json"@, JsonModel::Null)),
        case_members(case).contains(("name"@, JsonModel::Str(case.name@))),
        case.agg_party_contacts is Some ==> case_members(case).contains(("party_contacts_json"@, JsonModel::Str(case.agg_party_contacts->0@))),
        case.agg_party_contacts is None ==> case_members(case).contains(("party_contacts_json"@, JsonModel::Null)),
        case.case_report_path is Some ==> case_members(case).contains(("report_path"@, JsonModel::Str(case.case_report_path->0@))),
        case.case_report_path is None ==> case_members(case).contains(("report_path"@, JsonModel::Null)),
        case.risk_assessment_path is Some ==> case_members(case).contains(("risk_assessment_path"@, JsonModel::Str(case.risk_assessment_path->0@))),
        case.risk_assessment_path is None ==> case_members(case).contains(("risk_assessment_path"@, JsonModel::Null)),
        case_members(case).contains(("source_folder"@, JsonModel::Str(case.source_folder@))),
        case.case_summary is Some ==> case_members(case).contains(("summary"@, JsonModel::Str(case.case_summary->0@))),
        case.case_summary is None ==> case_members(case).contains(("summary"@, JsonModel::Null)),
        case.workflow_status is Some ==> case_members(case).contains(("workflow_status"@, JsonModel::Str(case.workflow_status->0@))),
        case.workflow_status is None ==> case_members(case).contains(("workflow_status"@, JsonModel::Null)),
        case_members(case).len() == 18,
        ascending(case_members(case)),
{
    let m = case_members(case);
    lemma_case_order(case);
    assert(m[0].0 == "case_no"@);
    assert(m[1].0 == "case_status"@);
    assert(m[2].0 == "case_type"@);
    assert(m[3].0 == "cause"@);
    assert(m[4].0 == "court"@);
    assert(m[5].0 == "court_contacts_json"@);
    assert(m[6].0 == "deep_dive_report_path"@);
    assert(m[7].0 == "fees_json"@);
    assert(m[8].0 == "full_report_path"@);
    assert(m[9].0 == "id"@);
    assert(m[10].0 == "key_dates_json"@);
    assert(m[11].0 == "name"@);
    assert(m[12].0 == "party_contacts_json"@);
    assert(m[13].0 == "report_path"@);
    assert(m[14].0 == "risk_assessment_path"@);
    assert(m[15].0 == "source_folder"@);
    assert(m[16].0 == "summary"@);
    assert(m[17].0 == "workflow_status"@);
}

/// Each column of a document stands in the list under its own name.
pub proof fn documents_are_listed_column_by_column(d: Document, rel: Option<String>)
    ensures
        d.category is Some ==> document_members(d, rel).contains(("category"@, JsonModel::Str(d.category->0@))),
        d.category is None ==> document_members(d, rel).contains(("category"@, JsonModel::Null)),
        d.extracted_text_path is Some ==> document_members(d, rel).contains(("extracted_text_path"@, JsonModel::Str(d.extracted_text_path->0@))),
        d.extracted_text_path is None ==> document_members(d, rel).contains(("extracted_text_path"@, JsonModel::Null)),
        document_members(d, rel).contains(("extraction_status"@, JsonModel::Str(d.extraction_status@))),
        document_members(d, rel).contains(("filename"@, JsonModel::Str(d.filename@))),
        document_members(d, rel).contains(("id"@, JsonModel::Str(d.id@))),
        document_members(d, rel).contains(("is_ai_artifact"@, JsonModel::Bool(d.is_ai_artifact))),
        document_members(d, rel).contains(("missing"@, JsonModel::Bool(d.missing))),
        rel is Some ==> document_members(d, rel).contains(("relative_path"@, JsonModel::Str(rel->0@))),
        rel is None ==> document_members(d, rel).contains(("relative_path"@, JsonModel::Null)),
        document_members(d, rel).contains(("source"@, JsonModel::Str(d.source@))),
        document_members(d, rel).contains(("source_path"@, JsonModel::Str(d.source_path@))),
        d.stage is Some ==> document_members(d, rel).contains(("stage"@, JsonModel::Str(d.stage->0@))),
        d.stage is None ==> document_members(d, rel).contains(("stage"@, JsonModel::Null)),
        document_members(d, rel).len() == 11,
        ascending(document_members(d, rel)),
{
    let m = document_members(d, rel);
    lemma_document_order(d, rel);
    assert(m[0].0 == "category"@);
    assert(m[1].0 == "extracted_text_path"@);
    assert(m[2].0 == "extraction_status"@);
    assert(m[3].0 == "filename"@);
    assert(m[4].0 == "id"@);
    assert(m[5].0 == "is_ai_artifact"@);
    assert(m[6].0 == "missing"@);
    assert(m[7].0 == "relative_path"@);
    assert(m[8].0 == "source"@);
    assert(m[9].0 == "source_path"@);
    assert(m[10].0 == "stage"@);
}

/// The list holds the case and every one of its documents, in order, with the path
/// of each.
pub proof fn lists_hold_the_case_and_all_documents(
    case: Case,
    docs: Seq<Document>,
    rels: Seq<Option<String>>,
    now: Seq<char>,
    notes: Seq<char>,
)
    ensures
        ({
            let m = manifest_members(case, docs, rels, now, notes);
            &&& m.contains(("case"@, JsonModel::Object(case_members(case))))
            &&& m.contains(
                (
                    "documents"@,
                    JsonModel::Array(
                        Seq::new(
                            docs.len(),
                            |i: int| JsonModel::Object(document_members(docs[i], rels[i])),
                        ),
                    ),
                ),
            )
            &&& m.contains(("generated_at"@, JsonModel::Str(now)))
            &&& m.contains(("schema"@, JsonModel::Str("caseboard.case_os_input.v1"@)))
            &&& m.contains(("source"@, JsonModel::Str("CaseBoard"@)))
        }),
{
    let m = manifest_members(case, docs, rels, now, notes);
    assert(m[0].0 == "case"@ && m[2].0 == "documents"@ && m[3].0 == "generated_at"@);
    assert(m[4].0 == "schema"@ && m[5].0 == "source"@);
    let d = ("documents"@, JsonModel::Array(
        Seq::new(docs.len(), |i: int| JsonModel::Object(document_members(docs[i], rels[i]))),
    ));
    assert(m[2] == d);
}

/// The note names the case, its folder, the list and each of the first two hundred
/// documents with its kind, its state and its path.
pub proof fn notes_name_the_documents(
    case: Case,
    docs: Seq<Document>,
    now: Seq<char>,
    notes: Seq<char>,
    manifest_path: Seq<char>,
    i: int,
)
    ensures
        contains(
            memo_text(case, docs, now, notes, manifest_path),
            "\n- 案件名称："@ + case.name@ + "\n- 案件目录："@ + case.source_folder@
                + "\n- 输入清单："@ + manifest_path + "\n"@,
        ),
        0 <= i < docs.len() && i < 200 && docs[i].category is Some ==> contains(
            memo_text(case, docs, now, notes, manifest_path),
            "- "@ + docs[i].filename@ + " | "@ + docs[i].category->0@ + " | "@
                + docs[i].extraction_status@ + " | "@ + docs[i].source_path@,
        ),
        0 <= i < docs.len() && i < 200 && docs[i].category is None ==> contains(
            memo_text(case, docs, now, notes, manifest_path),
            "- "@ + docs[i].filename@ + " | "@ + "未分类"@ + " | "@ + docs[i].extraction_status@
                + " | "@ + docs[i].source_path@,
        ),
        memo_lines(docs).len() <= 200,
{
    let whole = memo_text(case, docs, now, notes, manifest_path);
    let a = "# CaseBoard 案件OS入口\n\n- 生成时间："@ + now;
    let mid = "\n- 案件名称："@ + case.name@ + "\n- 案件目录："@ + case.source_folder@
        + "\n- 输入清单："@ + manifest_path;
    let go = "\n\n## 执行入口\n\n在本案件目录触发 `案件OS` 或 `继续`。若目录已有 `"@;
    let rest =
        "`、`LOG.md`、`_archive/case-os-state.json`、`intermediate/_index.json`，按案件OS断点恢复规则继续，不重新通读全卷。\n\n## 看板文档清单\n\n"@;
    let list = if docs.len() == 0 {
        "- 暂无文档"@
    } else {
        join(memo_lines(docs), "\n"@)
    };
    let head = a + mid + go + notes + rest;
    assert(whole =~= head + list + "\n"@);
    reveal_strlit("\n");
    reveal_strlit("\n\n## 执行入口\n\n在本案件目录触发 `案件OS` 或 `继续`。若目录已有 `");
    let after = go.skip(1) + notes + rest + list + "\n"@;
    assert(go =~= "\n"@ + go.skip(1));
    assert(whole =~= a + (mid + "\n"@) + after);
    parts_hold_in_the_whole(a, mid + "\n"@, after, Seq::empty());
    assert(mid + "\n"@ =~= "\n- 案件名称："@ + case.name@ + "\n- 案件目录："@
        + case.source_folder@ + "\n- 输入清单："@ + manifest_path + "\n"@);
    if 0 <= i < docs.len() && i < 200 {
        let lines = memo_lines(docs);
        joined_parts_are_there(lines, "\n"@, i);
        parts_hold_in_the_whole(head, list, "\n"@, lines[i]);
        assert(lines[i] == memo_line(docs[i]));
    }
}

/// A case can be handed over if and only if it is a real one and its folder is there.
pub proof fn real_cases_with_a_folder_are_handed_over(folder: Seq<char>, is_dir: bool)
    ensures
        export_objection(folder, is_dir) is None <==> folder != "__DEMO__"@ && is_dir,
{
}

/// A case that is handed over leads to a list and a note in a directory of its folder,
/// under the identifier of the case. One that may not be, or whose list cannot be
/// written, leads to an error that says so.
pub proof fn handed_over_cases_lie_in_their_folder(
    r: Result<CaseExport, String>,
    case: Case,
    docs: Seq<Document>,
    rels: Seq<Option<String>>,
    is_dir: bool,
    now: Seq<char>,
    notes: Seq<char>,
    separator: char,
)
    requires
        handed_over(r, case, docs, rels, is_dir, now, notes, separator),
    ensures
        case.source_folder@ == "__DEMO__"@ || !is_dir ==> r is Err,
        case.source_folder@ != "__DEMO__"@ && !is_dir ==> case.source_folder@.is_suffix_of(
            r->Err_0@,
        ),
        r matches Ok(x) ==> case.source_folder@ != "__DEMO__"@ && is_dir && x.export.case_id@
            == case.id@ && case.source_folder@.is_prefix_of(x.dir@) && x.dir@.is_prefix_of(
            x.export.manifest_path@,
        ) && x.dir@.is_prefix_of(x.export.memo_path@) && "case_os_input.json"@.is_suffix_of(
            x.export.manifest_path@,
        ) && "CASE_OS入口.md"@.is_suffix_of(x.export.memo_path@),
        case.source_folder@ != "__DEMO__"@ && is_dir ==> match json_pretty(
            JsonModel::Object(manifest_members(case, docs, rels, now, notes)),
        ) {
            Ok(t) => r matches Ok(x) && x.manifest@ == t,
            Err(e) => r matches Err(m) && e.is_suffix_of(m@),
        },
{
    let folder = case.source_folder@;
    let dir = below(folder, separator, "_caseboard"@);
    names_are_put_below_their_directory(folder, separator, "_caseboard"@);
    names_are_put_below_their_directory(dir, separator, "case_os_input.json"@);
    names_are_put_below_their_directory(dir, separator, "CASE_OS入口.md"@);
    let missing = "案件源文件夹不可用: "@ + folder;
    assert(missing.subrange(missing.len() - folder.len(), missing.len() as int) =~= folder);
    if let Err(e) = json_pretty(
        JsonModel::Object(manifest_members(case, docs, rels, now, notes)),
    ) {
        let m = "生成 JSON 失败: "@ + e;
        assert(m.subrange(m.len() - e.len(), m.len() as int) =~= e);
    }
}

/// What lies in a folder is named by the rest of its path, the folder itself by
/// nothing, and what lies elsewhere not at all.
pub proof fn documents_lie_below_their_folder(folder: Seq<char>, rest: Seq<char>, path: Seq<char>)
    ensures
        below_folder(folder.push('/') + rest, folder) == Some(rest),
        below_folder(folder, folder) == Some(Seq::<char>::empty()),
        path != folder && !folder.push('/').is_prefix_of(path) ==> below_folder(
            path,
            folder,
        ) is None,
{
    let w = folder.push('/') + rest;
    assert(w.subrange(0, (folder.len() + 1) as int) =~= folder.push('/'));
    assert(w.skip((folder.len() + 1) as int) =~= rest);
    assert(w.len() > folder.len());
}

} // verus!
