//! Two tools of the assistant: reading a document once more, and keeping a
//! report on a company.
use vstd::prelude::*;
use crate::case_files::Document;
use crate::element_convert::{is_unsafe_char, mask_unsafe, masked};
use crate::text::{cat3, first_chars, head_text, same_text, trim, trim_end, trim_start, trim_text};

verus! {

/// Why a tool did nothing.
pub enum ToolError {
    NoCaseBound,
    InvalidArgs(String),
    Runtime(String),
}

/// Reads a document of a case once more.
pub struct ReextractDocument;

impl ReextractDocument {
    /// The name under which the tool is called.
    pub fn name(&self) -> (r: &'static str)
        ensures
            r@ == "reextract_document"@,
    {
        "reextract_document"
    }

    /// Whether the tool changes anything.
    pub fn is_mutating(&self) -> (r: bool)
        ensures
            r,
    {
        true
    }

    /// Whether a document can be read once more: there has to be a case and a
    /// window to report to, and the document must not be one that was written
    /// by the assistant, which has no source.
    pub fn check(
        &self,
        case_bound: bool,
        has_window: bool,
        is_ai_artifact: bool,
        filename: &str,
    ) -> (r: Result<(), ToolError>)
        ensures
            if !case_bound {
                r matches Err(ToolError::NoCaseBound)
            } else if !has_window {
                r matches Err(ToolError::Runtime(m)) && m@
                    == "当前环境无法触发重抽(缺 AppHandle)。请提示用户在源文件列表手动点「重新抽取」。"@
            } else if is_ai_artifact {
                r matches Err(ToolError::InvalidArgs(m)) && m@ == "「"@ + filename@
                    + "」是 AI 生成的文档,没有可重抽的原始文件,无法重抽。"@
            } else {
                r is Ok
            },
    {
        if !case_bound {
            return Err(ToolError::NoCaseBound);
        }
        if !has_window {
            return Err(
                ToolError::Runtime(
                    String::from_str(
                        "当前环境无法触发重抽(缺 AppHandle)。请提示用户在源文件列表手动点「重新抽取」。",
                    ),
                ),
            );
        }
        if is_ai_artifact {
            return Err(
                ToolError::InvalidArgs(
                    cat3(
                        "「",
                        filename,
                        "」是 AI 生成的文档,没有可重抽的原始文件,无法重抽。",
                    ),
                ),
            );
        }
        Ok(())
    }

    /// What is answered once the reading was started.
    pub fn reply(&self, filename: &str, doc_id: &str) -> (r: String)
        ensures
            r@ == "✅ 已触发后台重新抽取《"@ + filename@ + "》(doc_id="@ + doc_id@ + REEXTRACT_NOTE@,
    {
        let mut out = cat3("✅ 已触发后台重新抽取《", filename, "》(doc_id=");
        out.append(doc_id);
        out.append(REEXTRACT_NOTE);
        out
    }
}

/// What stands behind the id in the answer of the first tool.
pub const REEXTRACT_NOTE: &'static str = ")。\n这是**异步任务**:PDF/扫描件走云端 OCR 可能要数十秒到几分钟。完成后该文档的抽取文本会更新,源文件列表会显示进度与结果。\n⚠️ 本轮无法立即读到重抽后的新内容 —— 请提示用户等待完成,稍后再读取/分析,别在本轮紧接着 read_case_doc。\n⚠️ 重抽会重跑 OCR/LLM,PDF 走云端 OCR 会消耗 MinerU 积分。";

/// The name of the file of a company.
pub open spec fn company_stem(name: Seq<char>) -> Seq<char> {
    first_chars(trim(masked(name)), 80)
}

/// The name of the file of a company: an underscore for each character that may
/// not stand in the name of a file, trimmed, at most eighty characters.
pub fn safe_company_stem(s: &str) -> (r: String)
    ensures
        r@ == company_stem(s@),
{
    let m = mask_unsafe(s);
    let t = trim_text(m.as_str());
    head_text(t.as_str(), 80)
}

proof fn lemma_trim_start_keeps(s: Seq<char>, i: int)
    requires
        0 <= i < trim_start(s).len(),
    ensures
        trim_start(s).len() <= s.len(),
        trim_start(s)[i] == s[i + s.len() - trim_start(s).len()],
    decreases s.len(),
{
    if s.len() > 0 && crate::text::is_white(s[0]) {
        lemma_trim_start_keeps(s.drop_first(), i);
    }
}

proof fn lemma_trim_end_keeps(s: Seq<char>, i: int)
    requires
        0 <= i < trim_end(s).len(),
    ensures
        trim_end(s).len() <= s.len(),
        trim_end(s)[i] == s[i],
    decreases s.len(),
{
    if s.len() > 0 && crate::text::is_white(s.last()) {
        lemma_trim_end_keeps(s.drop_last(), i);
    }
}

/// The name of the file of a company holds no character that may not stand in
/// the name of a file, and no more than eighty.
pub proof fn company_stems_are_safe(name: Seq<char>, i: int)
    requires
        0 <= i < company_stem(name).len(),
    ensures
        !is_unsafe_char(company_stem(name)[i]),
        company_stem(name).len() <= 80,
{
    let m = masked(name);
    lemma_trim_end_keeps(trim_start(m), i);
    lemma_trim_start_keeps(m, i);
    let k = i + m.len() - trim_start(m).len();
    assert(company_stem(name)[i] == m[k]);
}

/// A report that is to be kept: where, and what is written.
pub struct CompanyReport {
    /// The path below the knowledge base.
    pub relpath: String,
    pub body: String,
}

/// Keeps a report on a company.
pub struct SaveCompanyReport;

impl SaveCompanyReport {
    /// The name under which the tool is called.
    pub fn name(&self) -> (r: &'static str)
        ensures
            r@ == "save_company_report"@,
    {
        "save_company_report"
    }

    /// Whether the tool changes anything.
    pub fn is_mutating(&self) -> (r: bool)
        ensures
            r,
    {
        true
    }

    /// Where a report goes and what is written, unless there is no knowledge
    /// base or no name.
    pub fn plan(&self, has_kb: bool, company_name: &str, content_md: &str, today: &str) -> (r:
        Result<CompanyReport, ToolError>)
        ensures
            if !has_kb {
                r matches Err(ToolError::Runtime(m)) && m@
                    == "本地知识库未启用(用户未设置 local_kb_root 或路径不存在),无法入库"@
            } else if company_stem(company_name@).len() == 0 {
                r matches Err(ToolError::InvalidArgs(m)) && m@ == "company_name 不能为空"@
            } else {
                r matches Ok(p) && p.relpath@ == "raw/companies/"@ + company_stem(company_name@)
                    + ".md"@ && p.body@ == "# "@ + company_name@
                    + " — 调查报告\n\n**入库时间:** "@ + today@
                    + "\n**数据来源:** 元典企业信息接口(CaseBoard AI 助手综合)\n\n---\n\n"@
                    + content_md@ + "\n"@
            },
    {
        if !has_kb {
            return Err(
                ToolError::Runtime(
                    String::from_str(
                        "本地知识库未启用(用户未设置 local_kb_root 或路径不存在),无法入库",
                    ),
                ),
            );
        }
        let stem = safe_company_stem(company_name);
        if stem.as_str().unicode_len() == 0 {
            return Err(ToolError::InvalidArgs(String::from_str("company_name 不能为空")));
        }
        let relpath = cat3("raw/companies/", stem.as_str(), ".md");
        let mut body = cat3("# ", company_name, " — 调查报告\n\n**入库时间:** ");
        body.append(today);
        body.append("\n**数据来源:** 元典企业信息接口(CaseBoard AI 助手综合)\n\n---\n\n");
        body.append(content_md);
        body.append("\n");
        Ok(CompanyReport { relpath, body })
    }

    /// What is answered. A report that is there already is not overwritten.
    pub fn reply(&self, existed: bool, relpath: &str) -> (r: String)
        ensures
            r@ == if existed {
                relpath@
                    + " 已存在,未覆盖(防冲掉人工标注过的旧档)。若要更新,请让用户确认后手动处理,或换带日期 / 区分的标题再存。"@
            } else {
                "✅ 已入库:"@ + relpath@
                    + "。之后 search_local_kb 可直接检索到这家公司(0 积分),不必再调元典重查。\n⚠️ 报告系元典数据综合,关键结论请人工复核后用于办案。"@
            },
    {
        if existed {
            crate::text::cat2(
                relpath,
                " 已存在,未覆盖(防冲掉人工标注过的旧档)。若要更新,请让用户确认后手动处理,或换带日期 / 区分的标题再存。",
            )
        } else {
            cat3(
                "✅ 已入库:",
                relpath,
                "。之后 search_local_kb 可直接检索到这家公司(0 积分),不必再调元典重查。\n⚠️ 报告系元典数据综合,关键结论请人工复核后用于办案。",
            )
        }
    }
}

/// The first document from `k` on with an identifier; the number of documents
/// if there is none.
pub open spec fn with_id(docs: Seq<Document>, key: Seq<char>, k: int) -> int
    decreases docs.len() - k,
{
    if k >= docs.len() || docs[k].id@ == key {
        k
    } else {
        with_id(docs, key, k + 1)
    }
}

/// The first document from `k` on with a name; the number of documents if there
/// is none.
pub open spec fn with_filename(docs: Seq<Document>, key: Seq<char>, k: int) -> int
    decreases docs.len() - k,
{
    if k >= docs.len() || docs[k].filename@ == key {
        k
    } else {
        with_filename(docs, key, k + 1)
    }
}

/// The document that is meant by a key: the one with that identifier, or else
/// the first of that name.
///
/// What a model may name a document by is not laid down anywhere; that it is the
/// identifier first and then the name is this library's own choice.
pub fn find_document(docs: &Vec<Document>, key: &str) -> (r: Option<usize>)
    ensures
        if with_id(docs@, key@, 0) < docs@.len() {
            r == Some(with_id(docs@, key@, 0) as usize)
        } else if with_filename(docs@, key@, 0) < docs@.len() {
            r == Some(with_filename(docs@, key@, 0) as usize)
        } else {
            r is None
        },
        r matches Some(i) ==> i < docs@.len(),
{
    let n: usize = docs.len();
    let mut k: usize = 0;
    while k < n
        invariant
            k <= n,
            n == docs@.len(),
            with_id(docs@, key@, 0) == with_id(docs@, key@, k as int),
        decreases n - k,
    {
        if same_text(docs[k].id.as_str(), key) {
            return Some(k);
        }
        k = k + 1;
    }
    let mut j: usize = 0;
    while j < n
        invariant
            j <= n,
            n == docs@.len(),
            with_id(docs@, key@, 0) == n,
            with_filename(docs@, key@, 0) == with_filename(docs@, key@, j as int),
        decreases n - j,
    {
        if same_text(docs[j].filename.as_str(), key) {
            return Some(j);
        }
        j = j + 1;
    }
    None
}

/// What is found by an identifier has it, and nothing before it does. Without any
/// such document nothing is found.
pub proof fn identifiers_find_their_document(docs: Seq<Document>, key: Seq<char>, k: int)
    requires
        0 <= k <= docs.len(),
    ensures
        k <= with_id(docs, key, k) <= docs.len(),
        with_id(docs, key, k) < docs.len() ==> docs[with_id(docs, key, k)].id@ == key,
        forall|i: int| k <= i < with_id(docs, key, k) ==> (#[trigger] docs[i]).id@ != key,
    decreases docs.len() - k,
{
    if k < docs.len() && docs[k].id@ != key {
        identifiers_find_their_document(docs, key, k + 1);
    }
}

/// What is found by a name has it, and nothing before it does. Without any such
/// document nothing is found.
pub proof fn names_find_their_document(docs: Seq<Document>, key: Seq<char>, k: int)
    requires
        0 <= k <= docs.len(),
    ensures
        k <= with_filename(docs, key, k) <= docs.len(),
        with_filename(docs, key, k) < docs.len() ==> docs[with_filename(docs, key, k)].filename@
            == key,
        forall|i: int|
            k <= i < with_filename(docs, key, k) ==> (#[trigger] docs[i]).filename@ != key,
    decreases docs.len() - k,
{
    if k < docs.len() && docs[k].filename@ != key {
        names_find_their_document(docs, key, k + 1);
    }
}

/// A short name of a company without characters that may not stand in the name of a
/// file is only trimmed.
pub proof fn plain_companies_keep_their_names(name: Seq<char>)
    requires
        forall|i: int| 0 <= i < name.len() ==> !is_unsafe_char(#[trigger] name[i]),
        trim(name).len() <= 80,
    ensures
        company_stem(name) == trim(name),
{
    assert(masked(name) =~= name);
}

} // verus!
