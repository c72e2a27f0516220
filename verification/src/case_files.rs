//! Files and folders of cases: what can be opened, imported and refreshed.
use vstd::prelude::*;
use crate::element_convert::{is_unsafe_char, mask_unsafe, masked};
use crate::numbers::decimals_differ;
use crate::text::{
    cat2, cat3, decimal, decimal_text, first_chars, head_text, is_blank, same_text, texts, trim,
    trim_text, trimming_takes_only_white_space,
};

verus! {

/// The state of the database.
pub struct DbHealth {
    pub ok: bool,
    pub table_count: i64,
    pub case_count: i64,
    pub db_path: String,
}

/// The state of a database that answers.
pub fn healthy(table_count: i64, case_count: i64, db_path: Option<String>) -> (r: DbHealth)
    ensures
        r.ok,
        r.table_count == table_count,
        r.case_count == case_count,
        r.db_path@ == match db_path {
            Some(p) => p@,
            None => "<unknown>"@,
        },
{
    let db_path = match db_path {
        Some(p) => p,
        None => String::from_str("<unknown>"),
    };
    DbHealth { ok: true, table_count, case_count, db_path }
}

/// A case, as far as lists of cases need it.
pub struct Case {
    pub id: String,
    pub name: String,
    pub case_type: String,
    pub source_folder: String,
    pub case_no: Option<String>,
    pub court: Option<String>,
    pub cause: Option<String>,
    pub stage: Option<String>,
    pub workflow_status: Option<String>,
    pub case_status: String,
    pub case_summary: Option<String>,
    pub agg_case_no: Option<String>,
    pub agg_court: Option<String>,
    pub agg_cause: Option<String>,
    pub agg_filed_at: Option<String>,
    pub agg_resolution: Option<String>,
    pub agg_plaintiffs: Option<String>,
    pub agg_defendants: Option<String>,
    pub agg_third_parties: Option<String>,
    pub agg_key_dates: Option<String>,
    pub agg_fees: Option<String>,
    pub agg_party_contacts: Option<String>,
    pub agg_court_contacts: Option<String>,
    pub case_report_path: Option<String>,
    pub risk_assessment_path: Option<String>,
    pub deep_dive_report_path: Option<String>,
    pub full_report_path: Option<String>,
    pub next_milestone_at: Option<String>,
    pub next_milestone_type: Option<String>,
    pub updated_at: String,
}

/// A file that was found in a folder.
pub struct ScannedDoc {
    pub source_path: String,
    pub filename: String,
}

/// A document of a case.
pub struct Document {
    pub id: String,
    pub filename: String,
    pub source_path: String,
    pub stage: Option<String>,
    pub category: Option<String>,
    pub source: String,
    pub is_ai_artifact: bool,
    pub extraction_status: String,
    pub extracted_text_path: Option<String>,
    pub missing: bool,
}

/// A case that was imported, with the files that were found.
pub struct ImportResult {
    pub case: Case,
    pub docs: Vec<ScannedDoc>,
    /// Whether it was here before.
    pub is_existing: bool,
}

/// A case with its documents.
pub struct CaseWithDocs {
    pub case: Case,
    pub documents: Vec<Document>,
}

/// A case that is to be made of a folder.
pub struct CommitCase {
    pub dir: String,
    pub name: String,
}

/// Whether a text file can be shown: it is there, a file, and not too large.
pub fn check_text_file(path: &str, is_there: bool, is_file: bool, size: u64) -> (r: Result<
    (),
    String,
>)
    ensures
        if !is_there {
            r matches Err(e) && e@ == "文件不存在: "@ + path@
        } else if !is_file {
            r matches Err(e) && e@ == "不是文件: "@ + path@
        } else if size > crate::editor::TEXT_FILE_MAX_BYTES {
            r matches Err(e) && e@ == "文件太大("@ + decimal(size as nat)
                + " 字节),超过 5 MB 上限,渲染会卡"@
        } else {
            r is Ok
        },
{
    if !is_there {
        return Err(cat2("文件不存在: ", path));
    }
    if !is_file {
        return Err(cat2("不是文件: ", path));
    }
    if size > crate::editor::TEXT_FILE_MAX_BYTES {
        let n = decimal_text(size as u128);
        return Err(cat3("文件太大(", n.as_str(), " 字节),超过 5 MB 上限,渲染会卡"));
    }
    Ok(())
}

/// Whether an office document can be read: it is there, a file, and not too
/// large. Its megabytes are shown as given.
pub fn check_office_file(
    path: &str,
    is_there: bool,
    is_file: bool,
    size: u64,
    shown_megabytes: &str,
) -> (r: Result<(), String>)
    ensures
        if !is_there {
            r matches Err(e) && e@ == "文件不存在: "@ + path@
        } else if !is_file {
            r matches Err(e) && e@ == "不是文件: "@ + path@
        } else if size > 52_428_800 {
            r matches Err(e) && e@ == "文件太大("@ + shown_megabytes@ + " MB),超过 50 MB 上限"@
        } else {
            r is Ok
        },
{
    if !is_there {
        return Err(cat2("文件不存在: ", path));
    }
    if !is_file {
        return Err(cat2("不是文件: ", path));
    }
    if size > 52_428_800 {
        return Err(cat3("文件太大(", shown_megabytes, " MB),超过 50 MB 上限"));
    }
    Ok(())
}

/// What is said of a conversion that failed.
pub fn office_failure(stderr: &str) -> (r: String)
    ensures
        r@ == "textutil 转换失败: "@ + if stderr@.len() == 0 {
            "未知错误"@
        } else {
            trim(stderr@)
        },
{
    if stderr.unicode_len() == 0 {
        String::from_str("textutil 转换失败: ").concat("未知错误")
    } else {
        let t = trim_text(stderr);
        cat2("textutil 转换失败: ", t.as_str())
    }
}

/// Whether a folder can be imported.
pub fn check_folder(path: &str, is_there: bool, is_dir: bool) -> (r: Result<(), String>)
    ensures
        if !is_there {
            r matches Err(e) && e@ == "路径不存在: "@ + path@
        } else if !is_dir {
            r matches Err(e) && e@ == "不是文件夹: "@ + path@
        } else {
            r is Ok
        },
{
    if !is_there {
        Err(cat2("路径不存在: ", path))
    } else if !is_dir {
        Err(cat2("不是文件夹: ", path))
    } else {
        Ok(())
    }
}

/// Whether the folder of a case can be refreshed.
pub fn check_case_folder(folder: &str, is_there: bool, is_dir: bool) -> (r: Result<(), String>)
    ensures
        if !is_there {
            r matches Err(e) && e@ == "案件源文件夹已不存在: "@ + folder@
        } else if !is_dir {
            r matches Err(e) && e@ == "案件源路径不是文件夹: "@ + folder@
        } else {
            r is Ok
        },
{
    if !is_there {
        Err(cat2("案件源文件夹已不存在: ", folder))
    } else if !is_dir {
        Err(cat2("案件源路径不是文件夹: ", folder))
    } else {
        Ok(())
    }
}

/// The name of a case that is imported: that of its folder.
pub fn default_case_name(folder_name: Option<String>) -> (r: String)
    ensures
        r@ == match folder_name {
            Some(n) => n@,
            None => "未命名案件"@,
        },
{
    match folder_name {
        Some(n) => n,
        None => String::from_str("未命名案件"),
    }
}

/// One of the cases is made of a folder.
pub open spec fn made_of(cases: Seq<CommitCase>, dir: Seq<char>) -> bool {
    exists|i: int| 0 <= i < cases.len() && (#[trigger] cases[i]).dir@ == dir
}

/// The case that the whole folder was before gives way, unless it is one of
/// those to be made.
pub open spec fn drops_whole(root: Seq<char>, cases: Seq<CommitCase>) -> bool {
    root.len() > 0 && !made_of(cases, root)
}

/// What to do before cases are made of the parts of a folder.
pub fn plan_split(root: &str, cases: &Vec<CommitCase>) -> (r: Result<bool, String>)
    ensures
        if cases@.len() == 0 {
            r matches Err(e) && e@ == "没有要导入的案件"@
        } else {
            r matches Ok(b) && b == drops_whole(root@, cases@)
        },
{
    if cases.len() == 0 {
        return Err(String::from_str("没有要导入的案件"));
    }
    if root.unicode_len() == 0 {
        return Ok(false);
    }
    let mut i: usize = 0;
    while i < cases.len()
        invariant
            i <= cases@.len(),
            cases@.len() > 0,
            root@.len() > 0,
            forall|k: int| 0 <= k < i ==> (#[trigger] cases@[k]).dir@ != root@,
        decreases cases@.len() - i,
    {
        if same_text(cases[i].dir.as_str(), root) {
            assert(made_of(cases@, root@));
            return Ok(false);
        }
        i = i + 1;
    }
    Ok(true)
}

/// The name of a case that is made of a part of a folder: the one given, or that
/// of its folder.
pub fn split_case_name(case: &CommitCase, folder_name: Option<String>) -> (r: String)
    ensures
        r@ == if !is_blank(case.name@) {
            trim(case.name@)
        } else {
            match folder_name {
                Some(n) => n@,
                None => "未命名案件"@,
            }
        },
{
    let t = trim_text(case.name.as_str());
    if t.as_str().unicode_len() > 0 {
        t
    } else {
        default_case_name(folder_name)
    }
}

/// Whether documents have to be read after a refresh: something changed, or
/// something still waits.
pub fn needs_reading(added: u64, updated: u64, deleted: u64, pending: i64) -> (r: bool)
    ensures
        r == (added > 0 || updated > 0 || deleted > 0 || pending > 0),
{
    added > 0 || updated > 0 || deleted > 0 || pending > 0
}

/// Checks an entry of the log of a case.
pub fn check_log(content: &str) -> (r: Result<(), String>)
    ensures
        if is_blank(content@) {
            r matches Err(e) && e@ == "日志内容不能为空"@
        } else if trim(content@).len() > 5000 {
            r matches Err(e) && e@ == "日志内容过长，最多 5000 字"@
        } else {
            r is Ok
        },
{
    let t = trim_text(content);
    let n: usize = t.as_str().unicode_len();
    if n == 0 {
        Err(String::from_str("日志内容不能为空"))
    } else if n > 5000 {
        Err(String::from_str("日志内容过长，最多 5000 字"))
    } else {
        Ok(())
    }
}

/// The name of a file made of a text.
pub open spec fn file_name_of(s: Seq<char>) -> Seq<char> {
    let t = trim(masked(s));
    if t.len() == 0 {
        "court_document"@
    } else {
        first_chars(t, 80)
    }
}

/// The name of a file made of a text: an underscore for each character that may
/// not stand in it, trimmed, at most eighty characters.
pub fn sanitize_filename(s: &str) -> (r: String)
    ensures
        r@ == file_name_of(s@),
{
    let m = mask_unsafe(s);
    let t = trim_text(m.as_str());
    if t.as_str().unicode_len() == 0 {
        String::from_str("court_document")
    } else {
        head_text(t.as_str(), 80)
    }
}

/// The name for the `n`th file of that name.
pub open spec fn numbered_name(base: Seq<char>, ext: Seq<char>, n: nat) -> Seq<char> {
    if n <= 1 {
        base + "."@ + ext
    } else {
        base + " ("@ + decimal(n) + ")."@ + ext
    }
}

/// The first name from number `n` on that is not taken; the plain name if all
/// up to 999 are.
pub open spec fn free_name(
    base: Seq<char>,
    ext: Seq<char>,
    taken: Seq<Seq<char>>,
    n: nat,
) -> Seq<char>
    decreases 1000 - n,
{
    if n >= 1000 {
        numbered_name(base, ext, 1)
    } else if !taken.contains(numbered_name(base, ext, n)) {
        numbered_name(base, ext, n)
    } else {
        free_name(base, ext, taken, n + 1)
    }
}

/// The name for the `n`th file of that name.
pub fn numbered(base: &str, ext: &str, n: usize) -> (r: String)
    ensures
        r@ == numbered_name(base@, ext@, n as nat),
{
    if n <= 1 {
        cat3(base, ".", ext)
    } else {
        let d = decimal_text(n as u128);
        let mut out = cat3(base, " (", d.as_str());
        out.append(").");
        out.append(ext);
        out
    }
}

fn is_taken(name: &str, taken: &Vec<String>) -> (r: bool)
    ensures
        r == texts(taken@).contains(name@),
{
    let mut i: usize = 0;
    while i < taken.len()
        invariant
            i <= taken@.len(),
            forall|k: int| 0 <= k < i ==> (#[trigger] taken@[k])@ != name@,
        decreases taken@.len() - i,
    {
        if same_text(taken[i].as_str(), name) {
            assert(texts(taken@)[i as int] == name@);
            return true;
        }
        i = i + 1;
    }
    assert forall|k: int| 0 <= k < texts(taken@).len() implies texts(taken@)[k] != name@ by {
        assert(taken@[k]@ != name@);
    }
    false
}

/// A name for a file that none in the folder has: `base.ext`, or else
/// `base (2).ext` and so on.
pub fn unique_path(base: &str, ext: &str, taken: &Vec<String>) -> (r: String)
    ensures
        r@ == free_name(base@, ext@, texts(taken@), 1),
{
    let mut n: usize = 1;
    while n < 1000
        invariant
            1 <= n <= 1000,
            free_name(base@, ext@, texts(taken@), 1) == free_name(
                base@,
                ext@,
                texts(taken@),
                n as nat,
            ),
        decreases 1000 - n,
    {
        let name = numbered(base, ext, n);
        if !is_taken(name.as_str(), taken) {
            return name;
        }
        n = n + 1;
    }
    numbered(base, ext, 1)
}

proof fn lemma_free_name(
    base: Seq<char>,
    ext: Seq<char>,
    taken: Seq<Seq<char>>,
    n: nat,
    k: nat,
)
    requires
        n <= k < 1000,
        !taken.contains(numbered_name(base, ext, k)),
    ensures
        !taken.contains(free_name(base, ext, taken, n)),
    decreases k - n,
{
    if taken.contains(numbered_name(base, ext, n)) {
        lemma_free_name(base, ext, taken, n + 1, k);
    }
}

/// A file that is there is not overwritten as long as one of the names is free.
pub proof fn free_names_are_free(base: Seq<char>, ext: Seq<char>, taken: Seq<Seq<char>>, k: nat)
    requires
        1 <= k < 1000,
        !taken.contains(numbered_name(base, ext, k)),
    ensures
        !taken.contains(free_name(base, ext, taken, 1)),
{
    lemma_free_name(base, ext, taken, 1, k);
}

proof fn lemma_free_is_numbered(
    base: Seq<char>,
    ext: Seq<char>,
    taken: Seq<Seq<char>>,
    n: nat,
)
    requires
        1 <= n <= 1000,
    ensures
        exists|k: nat| 1 <= k < 1000 && free_name(base, ext, taken, n) == #[trigger] numbered_name(
            base,
            ext,
            k,
        ),
    decreases 1000 - n,
{
    if n < 1000 && taken.contains(numbered_name(base, ext, n)) {
        lemma_free_is_numbered(base, ext, taken, n + 1);
    } else if n < 1000 {
        assert(free_name(base, ext, taken, n) == numbered_name(base, ext, n));
    } else {
        assert(free_name(base, ext, taken, n) == numbered_name(base, ext, 1));
    }
}

/// A file is called by its base and its extension if that name is free, and by the
/// base, a number in brackets and the extension if not. The number is the first
/// that makes the name free, and different numbers make different names.
pub proof fn files_are_numbered_only_if_needed(
    base: Seq<char>,
    ext: Seq<char>,
    taken: Seq<Seq<char>>,
    m: nat,
    n: nat,
)
    ensures
        !taken.contains(base + "."@ + ext) ==> free_name(base, ext, taken, 1) == base + "."@ + ext,
        taken.contains(base + "."@ + ext) && !taken.contains(base + " ("@ + decimal(2) + ")."@ + ext)
            ==> free_name(base, ext, taken, 1) == base + " ("@ + decimal(2) + ")."@ + ext,
        exists|k: nat| 1 <= k < 1000 && free_name(base, ext, taken, 1) == #[trigger] numbered_name(
            base,
            ext,
            k,
        ),
        n > 1 ==> numbered_name(base, ext, n) == base + " ("@ + decimal(n) + ")."@ + ext,
        m > 1 && n > 1 && numbered_name(base, ext, m) == numbered_name(base, ext, n) ==> m == n,
{
    lemma_free_is_numbered(base, ext, taken, 1);
    reveal_with_fuel(free_name, 3);
    decimals_differ(m, n);
    if m > 1 && n > 1 && numbered_name(base, ext, m) == numbered_name(base, ext, n) {
        let x = numbered_name(base, ext, m);
        let h = (base + " ("@).len() as int;
        let t = (")."@ + ext).len() as int;
        assert(x.subrange(h, x.len() - t) =~= decimal(m));
        assert(x.subrange(h, x.len() - t) =~= decimal(n));
    }
}

/// The name of a file is not empty, has no more than eighty characters and none
/// that may not stand in it, and a short text without such characters is only
/// trimmed.
pub proof fn file_names_are_safe(s: Seq<char>)
    ensures
        0 < file_name_of(s).len() <= 80,
        forall|i: int|
            0 <= i < file_name_of(s).len() ==> !is_unsafe_char(#[trigger] file_name_of(s)[i]),
        (forall|i: int| 0 <= i < s.len() ==> !is_unsafe_char(#[trigger] s[i])) && !is_blank(s)
            && s.len() <= 80 ==> file_name_of(s) == trim(s),
{
    let m = masked(s);
    let (i, j) = trimming_takes_only_white_space(m);
    reveal_strlit("court_document");
    assert forall|k: int| 0 <= k < file_name_of(s).len() implies !is_unsafe_char(
        #[trigger] file_name_of(s)[k],
    ) by {
        if trim(m).len() > 0 {
            assert(file_name_of(s)[k] == m[i + k]);
        }
    }
    if forall|k: int| 0 <= k < s.len() ==> !is_unsafe_char(#[trigger] s[k]) {
        assert(m =~= s);
    }
}

/// The case of a whole folder stays if one of the cases to be made is made of that
/// same folder, and gives way otherwise.
pub proof fn the_whole_gives_way_to_its_parts(root: Seq<char>, cases: Seq<CommitCase>, i: int)
    requires
        0 <= i < cases.len(),
    ensures
        cases[i].dir@ == root ==> !drops_whole(root, cases),
        root.len() == 0 ==> !drops_whole(root, cases),
        root.len() > 0 && (forall|k: int| 0 <= k < cases.len() ==> (#[trigger] cases[k]).dir@ != root)
            ==> drops_whole(root, cases),
{
}

} // verus!
