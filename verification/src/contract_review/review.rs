//! From the bytes of a contract to its paragraphs, and what goes with a review.
use vstd::prelude::*;
use vstd::utf8::*;
use crate::contract_review::docx::{
    docx_contents, holds_text, lemma_collected_document, lists_text, read_text_part, zip_listing,
    zip_text_part, TextPart, TextPartModel,
};
use crate::contract_review::parse::{
    paragraph_models, paragraphs_of, parse_paragraphs, ParsedContract,
};
use crate::contract_review::redline::{ContractReviewResult, RedlineOutcome};
use crate::text::{blank, cat2, cat3, is_blank, texts, trim, trim_text};

verus! {

/// A contract may have this many bytes.
pub const MAX_DOCX_BYTES: u64 = 52_428_800;

/// What a review comes to.
pub struct ContractReviewResponse {
    pub contract_name: String,
    /// How many paragraphs hold more than white space.
    pub paragraph_count: usize,
    pub result: ContractReviewResult,
    /// The opinion in Markdown.
    pub opinion_md: String,
}

/// What became of the risks in a marked contract.
pub struct RedlineSummary {
    pub applied_inline: usize,
    pub applied_comment: usize,
    pub skipped: Vec<String>,
    pub saved_path: String,
}

/// What reading the document of a contract comes to.
pub open spec fn document_of(read: TextPartModel) -> Result<Seq<char>, Seq<char>> {
    match read {
        TextPartModel::Text(s) => Ok(s),
        TextPartModel::NotArchive(e) => Err(
            "读 .docx zip 失败(可能不是 OOXML 格式,是旧 .doc 二进制?): "@ + e,
        ),
        TextPartModel::Missing(e) => Err(".docx 内找不到 word/document.xml: "@ + e),
        TextPartModel::Broken(e) => Err("读 word/document.xml 失败: "@ + e),
    }
}

/// The document of a contract, from what reading it gave.
pub fn take_document(read: TextPart) -> (r: Result<String, String>)
    ensures
        match document_of(read@) {
            Ok(s) => r matches Ok(d) && d@ == s,
            Err(e) => r matches Err(m) && m@ == e,
        },
{
    match read {
        TextPart::Text(s) => Ok(s),
        TextPart::NotArchive(e) => Err(
            cat2("读 .docx zip 失败(可能不是 OOXML 格式,是旧 .doc 二进制?): ", e.as_str()),
        ),
        TextPart::Missing(e) => Err(
            cat2(".docx 内找不到 word/document.xml: ", e.as_str()),
        ),
        TextPart::Broken(e) => Err(cat2("读 word/document.xml 失败: ", e.as_str())),
    }
}

/// The document of a contract, from the bytes of its .docx. If its parts can be
/// read so that it can be marked, it is the document among them.
pub fn read_document_xml(docx: &Vec<u8>) -> (r: Result<String, String>)
    ensures
        match document_of(zip_text_part(docx@, "word/document.xml"@)) {
            Ok(s) => r matches Ok(d) && d@ == s,
            Err(e) => r matches Err(m) && m@ == e,
        },
        match docx_contents(docx@) {
            Ok((_, doc)) => r matches Ok(d) && d@ == doc,
            Err(_) => true,
        },
{
    let part = read_text_part(docx.as_slice(), "word/document.xml");
    proof {
        if let Ok((_, doc)) = docx_contents(docx@) {
            let entries = zip_listing(docx@)->Ok_0;
            lemma_collected_document(entries, doc);
            let i = choose|i: int|
                0 <= i < entries.len() && holds_text(
                    #[trigger] entries[i],
                    "word/document.xml"@,
                    doc,
                );
            assert(lists_text(docx@, "word/document.xml"@, doc, i));
        }
    }
    take_document(part)
}

/// The contract that a document holds; an error if there is no paragraph.
pub fn contract_from_document(doc_xml: String) -> (r: Result<ParsedContract, String>)
    ensures
        ({
            let ps = paragraphs_of(encode_utf8(doc_xml@));
            if ps.len() == 0 {
                r matches Err(e) && e@ == "合同正文为空(未解析到任何段落)"@
            } else {
                r matches Ok(c) && c.model() == ps && c.raw_document_xml@ == doc_xml@
            }
        }),
{
    let paragraphs = parse_paragraphs(doc_xml.as_str());
    assert(paragraph_models(paragraphs@).len() == paragraphs@.len());
    if paragraphs.len() == 0 {
        return Err(String::from_str("合同正文为空(未解析到任何段落)"));
    }
    Ok(ParsedContract { paragraphs, raw_document_xml: doc_xml })
}

/// Reads a contract from the bytes of its .docx. The paragraphs that are
/// reviewed are those of the document that is marked, under the same numbers.
pub fn parse_contract_docx(docx: &Vec<u8>) -> (r: Result<ParsedContract, String>)
    ensures
        match document_of(zip_text_part(docx@, "word/document.xml"@)) {
            Err(e) => r matches Err(m) && m@ == e,
            Ok(doc) => {
                let ps = paragraphs_of(encode_utf8(doc));
                if ps.len() == 0 {
                    r matches Err(e) && e@ == "合同正文为空(未解析到任何段落)"@
                } else {
                    r matches Ok(c) && c.model() == ps && c.raw_document_xml@ == doc
                }
            },
        },
        match docx_contents(docx@) {
            Ok((_, doc)) => paragraphs_of(encode_utf8(doc)).len() > 0 ==> (r matches Ok(c)
                && c.model() == paragraphs_of(encode_utf8(doc)) && c.raw_document_xml@ == doc),
            Err(_) => true,
        },
{
    match read_document_xml(docx) {
        Ok(doc_xml) => contract_from_document(doc_xml),
        Err(e) => Err(e),
    }
}

/// Checks the size of a contract, whose megabytes are shown as given.
pub fn check_size(len: u64, shown_megabytes: &str) -> (r: Result<(), String>)
    ensures
        len > MAX_DOCX_BYTES ==> (r matches Err(e) && e@ == ".docx 过大("@ + shown_megabytes@
            + " MB),超过 50 MB 上限"@),
        len <= MAX_DOCX_BYTES ==> r is Ok,
{
    if len > MAX_DOCX_BYTES {
        Err(cat3(".docx 过大(", shown_megabytes, " MB),超过 50 MB 上限"))
    } else {
        Ok(())
    }
}

/// Checks that there is anything to review.
pub fn check_numbered(numbered: &str) -> (r: Result<(), String>)
    ensures
        is_blank(numbered@) ==> (r matches Err(e) && e@
            == "合同正文为空,未解析到可审查的文字(可能是扫描件图片?请先 OCR)"@),
        !is_blank(numbered@) ==> r is Ok,
{
    if blank(numbered) {
        Err(
            String::from_str(
                "合同正文为空,未解析到可审查的文字(可能是扫描件图片?请先 OCR)",
            ),
        )
    } else {
        Ok(())
    }
}

/// The name of a contract: what its file is called without the extension.
pub fn contract_name(stem: Option<String>) -> (r: String)
    ensures
        match stem {
            Some(s) => r@ == s@,
            None => r@ == "合同"@,
        },
{
    match stem {
        Some(s) => s,
        None => String::from_str("合同"),
    }
}

/// In whose name marks are made.
pub fn mark_author(author: &str) -> (r: String)
    ensures
        r@ == if is_blank(author@) {
            "合同审查(CaseBoard)"@
        } else {
            trim(author@)
        },
{
    let t = trim_text(author);
    if t.as_str().unicode_len() == 0 {
        String::from_str("合同审查(CaseBoard)")
    } else {
        t
    }
}

/// What became of the risks, to be shown.
pub fn summarize(outcome: RedlineOutcome, saved_path: &str) -> (r: RedlineSummary)
    ensures
        r.applied_inline == outcome.applied_inline,
        r.applied_comment == outcome.applied_comment,
        texts(r.skipped@) == texts(outcome.skipped@),
        r.saved_path@ == saved_path@,
{
    RedlineSummary {
        applied_inline: outcome.applied_inline,
        applied_comment: outcome.applied_comment,
        skipped: outcome.skipped,
        saved_path: String::from_str(saved_path),
    }
}

/// What a converter did.
pub enum TryOutcome {
    Converted,
    Failed(String),
}

/// What to do about the conversion of an old document.
pub enum ConvertStep {
    /// Try the converter of this number.
    Try(usize),
    /// It is converted.
    Done,
    /// It cannot be converted.
    GiveUp(String),
}

/// The names under which a converter may be found.
pub fn converter_names(windows: bool) -> (r: Vec<&'static str>)
    ensures
        r@.len() == if windows {
            3nat
        } else {
            2nat
        },
        windows ==> r@[0]@ == "soffice.exe"@ && r@[1]@ == "soffice"@ && r@[2]@ == "soffice.com"@,
        !windows ==> r@[0]@ == "libreoffice"@ && r@[1]@ == "soffice"@,
{
    let mut r: Vec<&'static str> = Vec::new();
    if windows {
        r.push("soffice.exe");
        r.push("soffice");
        r.push("soffice.com");
    } else {
        r.push("libreoffice");
        r.push("soffice");
    }
    r
}

/// What to do after converter number `tried` of `count`: stop if it worked, try
/// the next if it did not, and give up after the last, with what the last said.
pub fn after_converter(count: usize, tried: usize, outcome: &TryOutcome) -> (r: ConvertStep)
    requires
        tried < count,
    ensures
        match outcome {
            TryOutcome::Converted => r is Done,
            TryOutcome::Failed(e) => if tried + 1 < count {
                r == ConvertStep::Try((tried + 1) as usize)
            } else {
                r matches ConvertStep::GiveUp(m) && m@
                    == "本机未找到可用的转换工具(LibreOffice / soffice),无法把旧 .doc 自动转 .docx。请在 Word 里把合同「另存为 .docx」后再拖入。详情:"@
                    + e@
            },
        },
{
    match outcome {
        TryOutcome::Converted => ConvertStep::Done,
        TryOutcome::Failed(e) => if tried + 1 < count {
            ConvertStep::Try(tried + 1)
        } else {
            ConvertStep::GiveUp(
                cat2(
                    "本机未找到可用的转换工具(LibreOffice / soffice),无法把旧 .doc 自动转 .docx。请在 Word 里把合同「另存为 .docx」后再拖入。详情:",
                    e.as_str(),
                ),
            )
        },
    }
}

/// The document of a contract is the text that was read, and an error says what was
/// complained of.
pub proof fn documents_are_taken_as_read(text: Seq<char>, said: Seq<char>)
    ensures
        document_of(TextPartModel::Text(text)) == Ok::<Seq<char>, Seq<char>>(text),
        document_of(TextPartModel::NotArchive(said)) matches Err(e) && said.is_suffix_of(e),
        document_of(TextPartModel::Missing(said)) matches Err(e) && said.is_suffix_of(e),
        document_of(TextPartModel::Broken(said)) matches Err(e) && said.is_suffix_of(e),
        document_of(TextPartModel::NotArchive(said)) != document_of(TextPartModel::Missing(said)),
{
    let a = document_of(TextPartModel::NotArchive(said))->Err_0;
    let b = document_of(TextPartModel::Missing(said))->Err_0;
    let c = document_of(TextPartModel::Broken(said))->Err_0;
    assert(a.subrange(a.len() - said.len(), a.len() as int) =~= said);
    assert(b.subrange(b.len() - said.len(), b.len() as int) =~= said);
    assert(c.subrange(c.len() - said.len(), c.len() as int) =~= said);
    reveal_strlit("读 .docx zip 失败(可能不是 OOXML 格式,是旧 .doc 二进制?): ");
    reveal_strlit(".docx 内找不到 word/document.xml: ");
    assert(a[0] == '读' && b[0] == '.');
}

} // verus!
