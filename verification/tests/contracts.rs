use caseboard::contract_review::docx::{
    finished_archive, part_error, read_docx_parts, write_docx_parts,
};
use caseboard::contract_review::events::{fold_run_events, read_events};
use caseboard::contract_review::inline::try_build_inline;
use caseboard::contract_review::marks::{
    build_comments_xml, comment_range_end, comment_range_start, comment_reference_run, comment_text,
    text_run, xml_escape, ReviewRisk,
};
use caseboard::contract_review::package::{fresh_rid, parts_set, register_comments_part};
use caseboard::contract_review::parse::{
    find_paragraph_spans, find_run_pieces, next_element_span, parse_paragraphs,
};
use caseboard::contract_review::redline::{
    apply_edits, build_redlined_docx, mark_document, whole_paragraph_comment_points,
    ContractReviewResult, Edit, RedlineOutcome,
};
use caseboard::contract_review::review::{
    after_converter, check_numbered, check_size, contract_from_document, contract_name,
    converter_names, mark_author, parse_contract_docx, read_document_xml, summarize, ConvertStep,
    TryOutcome,
};
use std::io::{Cursor, Read, Write};

const DOC: &str = "<w:document><w:body>\
<w:p><w:pPr><w:jc/></w:pPr><w:r><w:t>甲方应当付款。</w:t></w:r></w:p>\
<w:p/>\
<w:p><w:r><w:rPr><w:b/></w:rPr><w:t>违约金为</w:t></w:r><w:r><w:t>百分之三十&amp;利息</w:t></w:r></w:p>\
</w:body></w:document>";

fn risk(title: &str, index: Option<usize>, anchor: &str, words: &str, revise: bool) -> ReviewRisk {
    ReviewRisk {
        title: title.into(),
        level: "高".into(),
        clause_ref: String::new(),
        consequence: String::new(),
        suggestion: String::new(),
        recommended_text: words.into(),
        basis: String::new(),
        anchor_text: anchor.into(),
        paragraph_index: index,
        revise,
    }
}

fn docx(parts: &[(&str, &[u8])]) -> Vec<u8> {
    let mut w = zip::ZipWriter::new(Cursor::new(Vec::new()));
    let options = zip::write::SimpleFileOptions::default();
    for (name, bytes) in parts {
        if name.ends_with('/') {
            w.add_directory(*name, options).unwrap();
        } else {
            w.start_file(*name, options).unwrap();
            w.write_all(bytes).unwrap();
        }
    }
    w.finish().unwrap().into_inner()
}

fn part(docx: &[u8], name: &str) -> Option<String> {
    let mut z = zip::ZipArchive::new(Cursor::new(docx.to_vec())).unwrap();
    let mut f = z.by_name(name).ok()?;
    let mut s = String::new();
    f.read_to_string(&mut s).unwrap();
    Some(s)
}

const TYPES: &str = "<Types></Types>";
const RELS: &str = "<Relationships><Relationship Id=\"rId4\"/></Relationships>";

fn contract(doc: &str) -> Vec<u8> {
    docx(&[
        ("[Content_Types].xml", TYPES.as_bytes()),
        ("word/", b""),
        ("word/document.xml", doc.as_bytes()),
        ("word/_rels/document.xml.rels", RELS.as_bytes()),
        ("word/media/image1.png", b"\x89PNG\x00\xff"),
    ])
}

#[test]
fn elements_are_found_by_whole_names() {
    let xml = "<w:pPr/><w:p a=\"1\">x</w:p><w:p/>";
    assert_eq!(next_element_span(xml, "w:p", 0), Some((8, 26)));
    assert_eq!(next_element_span(xml, "w:p", 26), Some((26, 32)));
    assert_eq!(next_element_span(xml, "w:p", 32), None);
    assert_eq!(next_element_span("<w:p>open", "w:p", 0), None);
}

#[test]
fn paragraphs_and_runs_are_read() {
    let spans = find_paragraph_spans(DOC);
    assert_eq!(spans.len(), 3);
    let third = &DOC[spans[2].0..spans[2].1];
    let runs = find_run_pieces(third);
    assert_eq!(runs.len(), 2);
    assert_eq!(runs[0].text, "违约金为");
    assert_eq!(runs[0].rpr_xml, "<w:rPr><w:b/></w:rPr>");
    assert!(runs[0].simple && runs[1].simple);
    assert_eq!(runs[1].rpr_xml, "");
    let paragraphs = parse_paragraphs(DOC);
    assert_eq!(paragraphs[0].text(), "甲方应当付款。");
    assert_eq!(paragraphs[1].text(), "");
    assert_eq!(paragraphs[2].index, 2);
}

#[test]
fn entities_are_decoded() {
    let paragraphs = parse_paragraphs(DOC);
    assert_eq!(paragraphs[2].text(), "违约金为百分之三十&利息");
    let xml = "<w:r><w:t>a&lt;b&gt;c&quot;d&apos;e&#65;&#x42;&unknown;</w:t></w:r>";
    let (text, simple) = fold_run_events(&read_events(xml));
    assert_eq!(text, "a<b>c\"d'eAB");
    assert!(simple);
}

#[test]
fn breaks_tabs_and_pictures_in_runs() {
    let (text, simple) =
        fold_run_events(&read_events("<w:r><w:t>a</w:t><w:br/><w:tab/><w:t>b</w:t></w:r>"));
    assert_eq!(text, "a\n\tb");
    assert!(simple);
    let (_, simple) = fold_run_events(&read_events("<w:r><w:drawing/></w:r>"));
    assert!(!simple);
    let (text, simple) =
        fold_run_events(&read_events("<w:r><w:rPr><w:tab/><w:t>no</w:t></w:rPr><w:t>yes</w:t></w:r>"));
    assert_eq!(text, "yes");
    assert!(simple);
}

#[test]
fn contract_texts() {
    let c = match contract_from_document(DOC.to_string()) {
        Ok(c) => c,
        Err(e) => panic!("{}", e),
    };
    assert_eq!(c.plain_text(), "甲方应当付款。\n\n违约金为百分之三十&利息");
    assert_eq!(c.numbered_text(), "[P0] 甲方应当付款。\n[P2] 违约金为百分之三十&利息\n");
    assert_eq!(c.non_empty_count(), 2);
    assert!(contract_from_document("<w:document/>".to_string()).is_err());
}

#[test]
fn text_is_escaped() {
    assert_eq!(xml_escape("<a & \"b\" 'c'>"), "&lt;a &amp; &quot;b&quot; &apos;c&apos;&gt;");
    assert_eq!(xml_escape("&lt;"), "&amp;lt;");
    assert_eq!(
        text_run("<w:rPr/>", "a<b"),
        "<w:r><w:rPr/><w:t xml:space=\"preserve\">a&lt;b</w:t></w:r>"
    );
    assert_eq!(text_run("<w:rPr/>", ""), "");
    assert_eq!(comment_range_start(3), "<w:commentRangeStart w:id=\"3\"/>");
    assert_eq!(comment_range_end(3), "<w:commentRangeEnd w:id=\"3\"/>");
    assert_eq!(
        comment_reference_run(3),
        "<w:r><w:rPr><w:rStyle w:val=\"CommentReference\"/></w:rPr><w:commentReference w:id=\"3\"/></w:r>"
    );
}

#[test]
fn comments_say_all_that_is_known() {
    let mut r = risk(" 违约金过高 ", Some(0), "", "按实际损失", false);
    assert_eq!(comment_text(&r), "【高】违约金过高\n推荐措辞:按实际损失");
    r.clause_ref = "第三条".into();
    r.consequence = "可能被调减".into();
    r.suggestion = "降低".into();
    r.basis = "民法典".into();
    assert_eq!(
        comment_text(&r),
        "【高】违约金过高\n条款位置:第三条\n风险后果:可能被调减\n整改建议:降低\n推荐措辞:按实际损失\n法律依据:民法典"
    );
    let xml = build_comments_xml(&vec!["a\nb".to_string()], "律师", "D");
    assert_eq!(
        xml,
        "<?xml version=\"1.0\" encoding=\"UTF-8\" standalone=\"yes\"?>\n<w:comments xmlns:w=\"http://schemas.openxmlformats.org/wordprocessingml/2006/main\"><w:comment w:id=\"0\" w:author=\"律师\" w:date=\"D\" w:initials=\"\"><w:p><w:r><w:t xml:space=\"preserve\">a</w:t></w:r></w:p><w:p><w:r><w:t xml:space=\"preserve\">b</w:t></w:r></w:p></w:comment></w:comments>"
    );
}

#[test]
fn a_tracked_change_over_two_runs() {
    let para = "<w:p><w:r><w:rPr><w:b/></w:rPr><w:t>违约金为</w:t></w:r><w:r><w:t>三十元</w:t></w:r></w:p>";
    let r = risk("t", Some(0), "金为三", "金为一", true);
    let mut rev: u128 = 1000;
    let (s, e, xml) = try_build_inline(para, &r, "A", "D", &mut rev, 7).unwrap();
    assert_eq!(rev, 1002);
    assert_eq!(&para[..s], "<w:p>");
    assert_eq!(&para[e..], "</w:p>");
    assert_eq!(
        xml,
        "<w:r><w:rPr><w:b/></w:rPr><w:t xml:space=\"preserve\">违约</w:t></w:r>\
<w:commentRangeStart w:id=\"7\"/>\
<w:del w:id=\"1000\" w:author=\"A\" w:date=\"D\"><w:r><w:rPr><w:b/></w:rPr><w:delText xml:space=\"preserve\">金为三</w:delText></w:r></w:del>\
<w:ins w:id=\"1001\" w:author=\"A\" w:date=\"D\"><w:r><w:rPr><w:b/></w:rPr><w:t xml:space=\"preserve\">金为一</w:t></w:r></w:ins>\
<w:commentRangeEnd w:id=\"7\"/>\
<w:r><w:rPr><w:rStyle w:val=\"CommentReference\"/></w:rPr><w:commentReference w:id=\"7\"/></w:r>\
<w:r><w:t xml:space=\"preserve\">十元</w:t></w:r>"
    );
}

#[test]
fn no_tracked_change_where_text_could_suffer() {
    let mut rev: u128 = 1000;
    let with_break = "<w:p><w:r><w:t>甲</w:t><w:br/><w:t>乙</w:t></w:r></w:p>";
    assert!(try_build_inline(with_break, &risk("t", Some(0), "乙", "丙", true), "A", "D", &mut rev, 0).is_none());
    let with_picture = "<w:p><w:r><w:t>甲</w:t><w:drawing/></w:r></w:p>";
    assert!(try_build_inline(with_picture, &risk("t", Some(0), "甲", "丙", true), "A", "D", &mut rev, 0).is_none());
    let plain = "<w:p><w:r><w:t>甲</w:t></w:r></w:p>";
    assert!(try_build_inline(plain, &risk("t", Some(0), "丁", "丙", true), "A", "D", &mut rev, 0).is_none());
    assert!(try_build_inline(plain, &risk("t", Some(0), " ", "丙", true), "A", "D", &mut rev, 0).is_none());
    assert_eq!(rev, 1000);
    let (_, _, xml) =
        try_build_inline(plain, &risk("t", Some(0), "甲", "", true), "A", "D", &mut rev, 0).unwrap();
    assert!(!xml.contains("<w:ins"));
}

#[test]
fn edits_from_the_back() {
    let e = |start: usize, end: usize, s: &str| Edit { start, end, replacement: s.into() };
    assert_eq!(apply_edits("abcdef", &vec![e(1, 2, "XX"), e(4, 4, "-")]), "aXXcd-ef");
    assert_eq!(apply_edits("abcdef", &vec![e(1, 1, "-"), e(1, 3, "XX")]), "a-XXdef");
    assert_eq!(apply_edits("abcdef", &vec![e(1, 3, "XX"), e(1, 1, "-")]), "a-XXdef");
    assert_eq!(
        apply_edits("abcdef", &vec![e(4, 4, "-"), e(0, 1, "Z"), e(1, 2, "XX")]),
        apply_edits("abcdef", &vec![e(1, 2, "XX"), e(4, 4, "-"), e(0, 1, "Z")])
    );
    assert_eq!(apply_edits("abc", &vec![e(2, 1, "no"), e(2, 9, "no")]), "abc");
    assert_eq!(apply_edits("甲乙", &vec![e(1, 2, "no"), e(3, 6, "b")]), "甲b");
}

#[test]
fn comment_places() {
    assert_eq!(whole_paragraph_comment_points("<w:p><w:pPr/><w:r/></w:p>"), (13, 19));
    assert_eq!(whole_paragraph_comment_points("<w:p a=\"1\"><w:r/></w:p>"), (11, 17));
}

#[test]
fn every_risk_is_marked_or_set_aside() {
    let result = ContractReviewResult {
        risks: vec![
            risk("缺失", None, "", "", false),
            risk("太远", Some(9), "", "", false),
            risk("空段", Some(1), "", "", false),
            risk("整段", Some(0), "", "", false),
            risk("行内", Some(2), "百分之三十", "百分之十", true),
            risk("重叠", Some(2), "三十", "二十", true),
        ],
    };
    let m = mark_document(DOC, &result, "律师<甲>", "D");
    assert_eq!(m.applied_inline, 1);
    assert_eq!(m.applied_comment, 2);
    assert_eq!(m.skipped, vec!["[高] 空段(段落为空,无法落痕)", "[高] 太远", "[高] 缺失"]);
    assert_eq!(m.comments.len(), 3);
    assert!(m.document_xml.contains("w:author=\"律师&lt;甲&gt;\""));
    assert!(m.document_xml.contains(
        "<w:pPr><w:jc/></w:pPr><w:commentRangeStart w:id=\"0\"/><w:r><w:t>甲方应当付款。</w:t></w:r><w:commentRangeEnd w:id=\"0\"/>"
    ));
    assert!(m.document_xml.contains("<w:delText xml:space=\"preserve\">百分之三十</w:delText>"));
    assert!(m.document_xml.contains("<w:t xml:space=\"preserve\">&amp;利息</w:t>"));
    assert_eq!(find_paragraph_spans(&m.document_xml).len(), 3);
}

#[test]
fn a_marked_contract_can_be_read_again() {
    let source = contract(DOC);
    let result = ContractReviewResult {
        risks: vec![risk("行内", Some(0), "应当", "必须", true)],
    };
    let out = match build_redlined_docx(source, &result, "律师", "2026-06-17T00:00:00Z") {
        Ok(o) => o,
        Err(e) => panic!("{}", e),
    };
    assert_eq!((out.applied_inline, out.applied_comment), (1, 0));
    let doc = part(&out.docx, "word/document.xml").unwrap();
    assert!(doc.contains("<w:delText xml:space=\"preserve\">应当</w:delText>"));
    assert!(doc.contains("<w:t xml:space=\"preserve\">必须</w:t>"));
    assert!(part(&out.docx, "word/comments.xml").unwrap().contains("【高】行内"));
    assert!(part(&out.docx, "[Content_Types].xml").unwrap().contains("/word/comments.xml"));
    assert!(part(&out.docx, "word/_rels/document.xml.rels").unwrap().contains("rId5"));
    let mut z = zip::ZipArchive::new(Cursor::new(out.docx.clone())).unwrap();
    let mut image = Vec::new();
    z.by_name("word/media/image1.png").unwrap().read_to_end(&mut image).unwrap();
    assert_eq!(image, b"\x89PNG\x00\xff");
    match parse_contract_docx(&out.docx) {
        Ok(c) => assert_eq!(c.paragraphs.len(), 3),
        Err(e) => panic!("{}", e),
    }
}

#[test]
fn a_contract_without_risks_keeps_its_document() {
    let out = match build_redlined_docx(
        contract(DOC),
        &ContractReviewResult { risks: Vec::new() },
        "律师",
        "D",
    ) {
        Ok(o) => o,
        Err(e) => panic!("{}", e),
    };
    assert_eq!(part(&out.docx, "word/document.xml").unwrap(), DOC);
    assert!(part(&out.docx, "word/comments.xml").is_none());
}

#[test]
fn broken_contracts_are_refused() {
    let none = ContractReviewResult { risks: Vec::new() };
    match build_redlined_docx(b"no zip".to_vec(), &none, "a", "d") {
        Err(e) => assert!(e.starts_with("读 .docx zip 失败: "), "{}", e),
        Ok(_) => panic!("read"),
    }
    let without = docx(&[("a.txt", b"x")]);
    match build_redlined_docx(without.clone(), &none, "a", "d") {
        Err(e) => assert!(e.contains("document.xml"), "{}", e),
        Ok(_) => panic!("read"),
    }
    assert!(read_document_xml(&without).is_err());
    let bad = docx(&[("word/document.xml", b"\xff\xfe")]);
    match build_redlined_docx(bad.clone(), &none, "a", "d") {
        Err(e) => assert!(e.contains("UTF-8") || e.contains("utf-8"), "{}", e),
        Ok(_) => panic!("read"),
    }
    assert!(read_document_xml(&bad).is_err());
    let no_types = docx(&[("word/document.xml", DOC.as_bytes())]);
    let one = ContractReviewResult { risks: vec![risk("t", Some(0), "", "", false)] };
    assert!(build_redlined_docx(no_types, &one, "a", "d").is_err());
}

#[test]
fn parts_keep_their_order() {
    let (mut parts, doc) = match read_docx_parts(contract(DOC)) {
        Ok(p) => p,
        Err(e) => panic!("{}", e),
    };
    assert_eq!(doc, DOC);
    let names: Vec<&str> = parts.iter().map(|p| p.0.as_str()).collect();
    assert_eq!(
        names,
        vec![
            "[Content_Types].xml",
            "word/document.xml",
            "word/_rels/document.xml.rels",
            "word/media/image1.png"
        ]
    );
    parts_set(&mut parts, "word/document.xml", b"new".to_vec());
    parts_set(&mut parts, "extra.txt", b"more".to_vec());
    assert_eq!(parts[1].1, b"new");
    assert_eq!(parts[4].0, "extra.txt");
    assert!(register_comments_part(&mut parts).is_ok());
    let again = parts.clone();
    assert!(register_comments_part(&mut parts).is_ok());
    assert_eq!(again, parts);
    let bytes = match write_docx_parts(&parts) {
        Ok(b) => b,
        Err(e) => panic!("{}", e),
    };
    assert_eq!(part(&bytes, "extra.txt").unwrap(), "more");
}

#[test]
fn refused_parts_are_named() {
    let twice = vec![("a.txt".to_string(), b"1".to_vec()), ("a.txt".to_string(), b"2".to_vec())];
    assert_eq!(
        write_docx_parts(&twice),
        Err("写 zip 条目 a.txt 失败: invalid Zip archive: Duplicate filename: a.txt".to_string())
    );
    let name = "n".repeat(65536);
    assert_eq!(
        write_docx_parts(&vec![(name.clone(), Vec::new())]),
        Err(format!("写 zip 条目 {} 失败: name too long", name))
    );
    assert!(write_docx_parts(&vec![("n".repeat(65535), Vec::new())]).is_ok());
    assert!(write_docx_parts(&Vec::new()).is_ok());
    assert_eq!(part_error("写 zip 内容 ", "a.txt", "full"), "写 zip 内容 a.txt 失败: full");
    assert_eq!(finished_archive(Ok(vec![1, 2])), Ok(vec![1, 2]));
    assert_eq!(finished_archive(Err("full".to_string())), Err("收尾 zip 失败: full".to_string()));
}

#[test]
fn relation_ids_are_fresh() {
    assert_eq!(fresh_rid("<a Id=\"rId1\"/><b Id=\"rId12\"/>"), "rId13");
    assert_eq!(fresh_rid(""), "rId1");
    assert_eq!(fresh_rid("<a Id=\"rIdx\"/>"), "rId1");
}

#[test]
fn reviews_are_checked_and_summed_up() {
    assert!(check_size(52_428_801, "50.1").is_err());
    assert!(check_size(52_428_800, "50.0").is_ok());
    assert!(check_numbered("  ").is_err());
    assert!(check_numbered("[0] x").is_ok());
    assert_eq!(contract_name(Some("租赁合同".into())), "租赁合同");
    assert!(!contract_name(None).is_empty());
    assert_eq!(mark_author(" 律师 "), "律师");
    assert!(!mark_author("  ").is_empty());
    let s = summarize(
        RedlineOutcome {
            docx: Vec::new(),
            applied_inline: 1,
            applied_comment: 2,
            skipped: vec!["x".into()],
        },
        "/tmp/a.docx",
    );
    assert_eq!((s.applied_inline, s.applied_comment), (1, 2));
    assert_eq!(s.saved_path, "/tmp/a.docx");
}

#[test]
fn converters_are_tried_in_turn() {
    let names = converter_names(false);
    assert!(!names.is_empty());
    assert!(matches!(after_converter(2, 0, &TryOutcome::Converted), ConvertStep::Done));
    assert!(matches!(after_converter(2, 0, &TryOutcome::Failed("e".into())), ConvertStep::Try(1)));
    assert!(matches!(after_converter(2, 1, &TryOutcome::Failed("e".into())), ConvertStep::GiveUp(_)));
}
