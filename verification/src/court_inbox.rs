//! Documents that courts announce by message: which case they belong to, and
//! what is kept of them.
use vstd::prelude::*;
use crate::case_files::{file_name_of, free_name, sanitize_filename, unique_path, Case};
use crate::court_sms::{normal_case_no, normalize_case_no, ParsedCourtSms, ZxfwDoc, ZxfwLink};
use crate::json::optional;
use crate::text::{cat2, cat3, same_text, texts};

verus! {

/// A document as it is announced.
pub struct CourtSmsDocBrief {
    pub name: String,
    pub ext: String,
}

/// What a message announces.
pub struct CourtSmsPreview {
    pub court: Option<String>,
    pub case_no: Option<String>,
    pub has_link: bool,
    pub link: Option<ZxfwLink>,
    pub docs: Vec<CourtSmsDocBrief>,
    pub matched_case_id: Option<String>,
    pub matched_case_name: Option<String>,
    pub note: Option<String>,
}

/// What was kept, and what was not.
pub struct IngestReport {
    pub downloaded: Vec<String>,
    pub skipped: Vec<String>,
}

/// A case has that number, however it is typed.
pub open spec fn has_number(case: Case, target: Seq<char>) -> bool {
    case.agg_case_no matches Some(no) && normal_case_no(no@) == target
}

/// Where the first case from `i` on with that number is; the number of cases if
/// there is none.
pub open spec fn numbered_case(cases: Seq<Case>, target: Seq<char>, i: int) -> int
    decreases cases.len() - i,
{
    if i < 0 || i >= cases.len() {
        cases.len() as int
    } else if has_number(cases[i], target) {
        i
    } else {
        numbered_case(cases, target, i + 1)
    }
}

/// The identifier and the shown name of the first case with that number.
pub open spec fn case_by_number(cases: Seq<Case>, case_no: Seq<char>) -> Option<
    (Seq<char>, Seq<char>),
> {
    let target = normal_case_no(case_no);
    let at = numbered_case(cases, target, 0);
    if target.len() == 0 || at >= cases.len() {
        None
    } else {
        Some(
            (
                cases[at].id@,
                match cases[at].agg_cause {
                    Some(c) => c@,
                    None => cases[at].name@,
                },
            ),
        )
    }
}

/// The parts of a pair that may not be there.
pub open spec fn parts(p: Option<(Seq<char>, Seq<char>)>) -> (Option<Seq<char>>, Option<Seq<char>>) {
    match p {
        Some(q) => (Some(q.0), Some(q.1)),
        None => (None, None),
    }
}

/// The identifier and the shown name of the first case with that number.
pub fn find_case_by_case_no(cases: &Vec<Case>, case_no: &str) -> (r: (
    Option<String>,
    Option<String>,
))
    ensures
        (optional(r.0), optional(r.1)) == parts(case_by_number(cases@, case_no@)),
{
    let target = normalize_case_no(case_no);
    if target.as_str().unicode_len() == 0 {
        return (None, None);
    }
    let mut i: usize = 0;
    while i < cases.len()
        invariant
            i <= cases@.len(),
            target@ == normal_case_no(case_no@),
            target@.len() > 0,
            numbered_case(cases@, target@, 0) == numbered_case(cases@, target@, i as int),
        decreases cases@.len() - i,
    {
        if let Some(no) = &cases[i].agg_case_no {
            let n = normalize_case_no(no.as_str());
            if same_text(n.as_str(), target.as_str()) {
                let name = match &cases[i].agg_cause {
                    Some(c) => String::from_str(c.as_str()),
                    None => String::from_str(cases[i].name.as_str()),
                };
                return (Some(String::from_str(cases[i].id.as_str())), Some(name));
            }
        }
        i = i + 1;
    }
    (None, None)
}

proof fn lemma_numbered_case(cases: Seq<Case>, target: Seq<char>, i: int)
    requires
        0 <= i <= cases.len(),
    ensures
        ({
            let at = numbered_case(cases, target, i);
            &&& i <= at <= cases.len()
            &&& at < cases.len() ==> has_number(cases[at], target)
            &&& forall|k: int| i <= k < at ==> !has_number(#[trigger] cases[k], target)
        }),
    decreases cases.len() - i,
{
    if i < cases.len() && !has_number(cases[i], target) {
        lemma_numbered_case(cases, target, i + 1);
    }
}

/// A message goes to a case only if their numbers agree, and it goes to one if
/// any agrees.
pub proof fn matching_goes_by_number(cases: Seq<Case>, case_no: Seq<char>)
    ensures
        case_by_number(cases, case_no) is Some <==> normal_case_no(case_no).len() > 0 && exists|
            k: int,
        |
            0 <= k < cases.len() && has_number(#[trigger] cases[k], normal_case_no(case_no)),
        case_by_number(cases, case_no) matches Some(p) ==> exists|k: int|
            0 <= k < cases.len() && (#[trigger] cases[k]).id@ == p.0 && has_number(
                cases[k],
                normal_case_no(case_no),
            ),
{
    lemma_numbered_case(cases, normal_case_no(case_no), 0);
}

/// What is said where no link was found.
pub const NO_LINK: &'static str =
    "没识别到「人民法院在线服务/一张网」(zxfw.court.gov.cn)送达链接。目前只支持一张网;其它平台(江苏微解纷等)暂不支持自动下载。";

/// What is said where no case was found.
pub const NO_CASE: &'static str = "没自动匹配到在办案件,请手动选择要归档到哪个案件。";

/// The documents as they are announced.
pub open spec fn briefs_of(docs: Seq<ZxfwDoc>, briefs: Seq<CourtSmsDocBrief>) -> bool {
    briefs.len() == docs.len() && forall|i: int|
        0 <= i < docs.len() ==> (#[trigger] briefs[i]).name@ == docs[i].name@ && briefs[i].ext@
            == docs[i].ext@
}

/// A preview is that of a message without a link.
pub open spec fn shows_no_link(sms: ParsedCourtSms, p: CourtSmsPreview) -> bool {
    &&& p.court == sms.court
    &&& p.case_no == sms.case_no
    &&& !p.has_link
    &&& p.link is None
    &&& p.docs@.len() == 0
    &&& p.matched_case_id is None
    &&& p.matched_case_name is None
    &&& optional(p.note) == Some(NO_LINK@)
}

/// The court of a message, or else that of the first document.
pub open spec fn court_of(sms: ParsedCourtSms, docs: Seq<ZxfwDoc>) -> Option<Seq<char>> {
    if sms.court is Some {
        optional(sms.court)
    } else if docs.len() > 0 {
        optional(docs[0].court)
    } else {
        None
    }
}

/// The case of a message.
pub open spec fn case_of(sms: ParsedCourtSms, cases: Seq<Case>) -> Option<
    (Seq<char>, Seq<char>),
> {
    match sms.case_no {
        Some(n) => case_by_number(cases, n@),
        None => None,
    }
}

/// A preview is that of a message with a link.
pub open spec fn shows_docs(
    sms: ParsedCourtSms,
    docs: Seq<ZxfwDoc>,
    cases: Seq<Case>,
    p: CourtSmsPreview,
) -> bool {
    &&& optional(p.court) == court_of(sms, docs)
    &&& p.case_no == sms.case_no
    &&& p.has_link
    &&& p.link == sms.link
    &&& briefs_of(docs, p.docs@)
    &&& (optional(p.matched_case_id), optional(p.matched_case_name)) == parts(case_of(sms, cases))
    &&& optional(p.note) == if case_of(sms, cases) is None {
        Some(NO_CASE@)
    } else {
        None
    }
}

fn briefs(docs: &Vec<ZxfwDoc>) -> (r: Vec<CourtSmsDocBrief>)
    ensures
        briefs_of(docs@, r@),
{
    let mut out: Vec<CourtSmsDocBrief> = Vec::new();
    let mut i: usize = 0;
    while i < docs.len()
        invariant
            i <= docs@.len(),
            out@.len() == i,
            forall|k: int|
                0 <= k < i ==> (#[trigger] out@[k]).name@ == docs@[k].name@ && out@[k].ext@
                    == docs@[k].ext@,
        decreases docs@.len() - i,
    {
        let name = String::from_str(docs[i].name.as_str());
        let ext = String::from_str(docs[i].ext.as_str());
        out.push(CourtSmsDocBrief { name, ext });
        i = i + 1;
    }
    out
}

/// What a message announces. The documents are those that the service lists for
/// the link, or what it said against that; without a link they are not looked
/// at.
pub fn preview_court_sms(
    sms: ParsedCourtSms,
    listed: Result<Vec<ZxfwDoc>, String>,
    cases: &Vec<Case>,
) -> (r: Result<CourtSmsPreview, String>)
    ensures
        if sms.link is None {
            r matches Ok(p) && shows_no_link(sms, p)
        } else {
            match listed {
                Err(e) => r == Err::<CourtSmsPreview, String>(e),
                Ok(docs) => r matches Ok(p) && shows_docs(sms, docs@, cases@, p),
            }
        },
{
    let ParsedCourtSms { court, case_no, link } = sms;
    if link.is_none() {
        return Ok(
            CourtSmsPreview {
                court,
                case_no,
                has_link: false,
                link: None,
                docs: Vec::new(),
                matched_case_id: None,
                matched_case_name: None,
                note: Some(String::from_str(NO_LINK)),
            },
        );
    }
    let docs = match listed {
        Ok(docs) => docs,
        Err(e) => {
            return Err(e);
        },
    };
    let (matched_case_id, matched_case_name) = match &case_no {
        Some(n) => find_case_by_case_no(cases, n.as_str()),
        None => (None, None),
    };
    let shown = briefs(&docs);
    let note = if matched_case_id.is_none() {
        Some(String::from_str(NO_CASE))
    } else {
        None
    };
    let court = if court.is_some() {
        court
    } else if docs.len() > 0 {
        match &docs[0].court {
            Some(c) => Some(String::from_str(c.as_str())),
            None => None,
        }
    } else {
        None
    };
    Ok(
        CourtSmsPreview {
            court,
            case_no,
            has_link: true,
            link,
            docs: shown,
            matched_case_id,
            matched_case_name,
            note,
        },
    )
}

/// Whether documents can be put into the folder of a case.
pub fn check_inbox(folder: &str, is_dir: bool) -> (r: Result<(), String>)
    ensures
        is_dir ==> r is Ok,
        !is_dir ==> (r matches Err(e) && e@ == "案件源文件夹不可用: "@ + folder@),
{
    if is_dir {
        Ok(())
    } else {
        Err(cat2("案件源文件夹不可用: ", folder))
    }
}

/// Whether there are documents at all.
pub fn check_listed(docs: &Vec<ZxfwDoc>) -> (r: Result<(), String>)
    ensures
        docs@.len() > 0 ==> r is Ok,
        docs@.len() == 0 ==> (r matches Err(e) && e@
            == "一张网未返回任何文书(链接可能已失效,请重新粘贴最新短信)"@),
{
    if docs.len() > 0 {
        Ok(())
    } else {
        Err(
            String::from_str(
                "一张网未返回任何文书(链接可能已失效,请重新粘贴最新短信)",
            ),
        )
    }
}

/// The name under which a document is kept: made of its own, and not one of
/// those that are taken.
pub fn inbox_name(doc: &ZxfwDoc, taken: &Vec<String>) -> (r: String)
    ensures
        r@ == free_name(file_name_of(doc.name@), doc.ext@, texts(taken@), 1),
{
    let base = sanitize_filename(doc.name.as_str());
    unique_path(base.as_str(), doc.ext.as_str(), taken)
}

impl IngestReport {
    /// Nothing yet.
    pub fn new() -> (r: IngestReport)
        ensures
            r.downloaded@.len() == 0,
            r.skipped@.len() == 0,
    {
        IngestReport { downloaded: Vec::new(), skipped: Vec::new() }
    }

    /// Takes down what became of a document: it is among those kept, under its
    /// file's name, or among those left out, with the reason.
    pub fn note(&mut self, doc_name: &str, file_name: String, outcome: Result<(), String>)
        ensures
            match outcome {
                Ok(_) => final(self).downloaded@ == old(self).downloaded@.push(file_name)
                    && final(self).skipped == old(self).skipped,
                Err(e) => final(self).downloaded == old(self).downloaded && texts(
                    final(self).skipped@,
                ) == texts(old(self).skipped@).push(doc_name@ + "("@ + e@ + ")"@),
            },
    {
        match outcome {
            Ok(_) => self.downloaded.push(file_name),
            Err(e) => {
                let mut line = cat3(doc_name, "(", e.as_str());
                line.append(")");
                let ghost before = self.skipped@;
                self.skipped.push(line);
                assert(texts(self.skipped@) =~= texts(before).push(line@));
            },
        }
    }
}

/// A message goes to a case whose own number is that of the message, up to white
/// space and the width of brackets, and to the first such case. It goes to none
/// only if no case has that number or the message names none.
pub proof fn matched_cases_carry_the_number(cases: Seq<Case>, case_no: Seq<char>)
    ensures
        match case_by_number(cases, case_no) {
            Some((id, name)) => exists|k: int|
                #![trigger cases[k]]
                0 <= k < cases.len() && cases[k].id@ == id && cases[k].agg_case_no is Some
                    && normal_case_no(cases[k].agg_case_no->0@) == normal_case_no(case_no)
                    && normal_case_no(case_no).len() > 0 && (cases[k].agg_cause is Some ==> name
                    == cases[k].agg_cause->0@) && (cases[k].agg_cause is None ==> name
                    == cases[k].name@) && forall|j: int|
                    #![trigger cases[j]]
                    0 <= j < k && cases[j].agg_case_no is Some ==> normal_case_no(
                        cases[j].agg_case_no->0@,
                    ) != normal_case_no(case_no),
            None => normal_case_no(case_no).len() == 0 || forall|k: int|
                #![trigger cases[k]]
                0 <= k < cases.len() && cases[k].agg_case_no is Some ==> normal_case_no(
                    cases[k].agg_case_no->0@,
                ) != normal_case_no(case_no),
        },
{
    let target = normal_case_no(case_no);
    lemma_numbered_case(cases, target, 0);
    let at = numbered_case(cases, target, 0);
    assert forall|k: int|
        #![trigger cases[k]]
        0 <= k < at && cases[k].agg_case_no is Some implies normal_case_no(
        cases[k].agg_case_no->0@,
    ) != target by {
        assert(!has_number(cases[k], target));
    }
    if at < cases.len() {
        assert(has_number(cases[at], target));
        assert(cases[at].agg_case_no is Some);
    }
}

/// What is shown of a message names a case only by the number in that very
/// message, and asks the user to choose exactly where it names none.
pub proof fn previews_name_no_other_case(
    sms: ParsedCourtSms,
    docs: Seq<ZxfwDoc>,
    cases: Seq<Case>,
    p: CourtSmsPreview,
)
    requires
        shows_docs(sms, docs, cases, p),
    ensures
        p.matched_case_id is Some ==> sms.case_no is Some && exists|k: int|
            #![trigger cases[k]]
            0 <= k < cases.len() && cases[k].id@ == p.matched_case_id->0@
                && cases[k].agg_case_no is Some && normal_case_no(cases[k].agg_case_no->0@)
                == normal_case_no(sms.case_no->0@),
        p.note is Some <==> p.matched_case_id is None,
        p.docs@.len() == docs.len(),
        forall|i: int|
            0 <= i < docs.len() ==> (#[trigger] p.docs@[i]).name@ == docs[i].name@
                && p.docs@[i].ext@ == docs[i].ext@,
        sms.court is Some ==> p.court is Some && p.court->0@ == sms.court->0@,
{
    if sms.case_no is Some {
        matched_cases_carry_the_number(cases, sms.case_no->0@);
    }
}

/// A preview shows what the message says: its number and its link, and its court, or
/// that of the first document where the message names none. Without a link nothing is
/// announced and no case is named.
pub proof fn previews_show_what_the_message_says(
    sms: ParsedCourtSms,
    docs: Seq<ZxfwDoc>,
    cases: Seq<Case>,
    p: CourtSmsPreview,
)
    ensures
        shows_docs(sms, docs, cases, p) ==> p.case_no == sms.case_no && p.link == sms.link
            && p.has_link && (sms.court is Some ==> optional(p.court) == optional(sms.court)) && (
        sms.court is None && docs.len() > 0 ==> optional(p.court) == optional(docs[0].court)) && (
        sms.court is None && docs.len() == 0 ==> p.court is None) && (sms.case_no is None
            ==> p.matched_case_id is None && p.matched_case_name is None),
        shows_docs(sms, docs, cases, p) && sms.case_no is Some ==> match case_by_number(
            cases,
            sms.case_no->0@,
        ) {
            Some((id, name)) => optional(p.matched_case_id) == Some(id) && optional(
                p.matched_case_name,
            ) == Some(name),
            None => p.matched_case_id is None && p.matched_case_name is None,
        },
        shows_no_link(sms, p) ==> p.case_no == sms.case_no && p.court == sms.court && !p.has_link
            && p.link is None && p.docs@.len() == 0 && p.matched_case_id is None
            && p.matched_case_name is None && p.note is Some,
{
}

} // verus!
