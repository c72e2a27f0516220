use caseboard::case_export::{
    check_export, export_case_os_input, export_with_paths, manifest_json, memo,
};
use caseboard::case_files::{
    check_case_folder, check_folder, check_log, check_office_file, check_text_file,
    default_case_name, healthy, needs_reading, office_failure, plan_split, sanitize_filename,
    split_case_name, unique_path, Case, CommitCase, Document,
};
use caseboard::commands::{
    can_ask_carrier, check_url, conflict_strategy, db_error, home_order, key_or_empty,
    require_case, require_kb, require_model_key, require_register_key, title_from_filename,
    wants_default_kb, ConflictStrategy, KbAction,
};
use caseboard::court_inbox::{
    check_inbox, check_listed, find_case_by_case_no, inbox_name, preview_court_sms, IngestReport,
    NO_CASE, NO_LINK,
};
use caseboard::court_sms::{
    assemble_sms, check_address, check_reply, default_pdf, normalize_case_no, parse_sms,
    reply_data, status_error, take_data, truncate, ZxfwDoc,
};
use caseboard::editor::{safe_title, write_editor_doc, EditedDoc};
use caseboard::json::{compact_json, parse_json, Json};

fn case(id: &str, case_no: Option<&str>) -> Case {
    Case {
        id: id.into(),
        name: "张三诉李四".into(),
        case_type: "诉讼".into(),
        source_folder: "/cases/a".into(),
        case_no: Some("旧".into()),
        court: None,
        cause: Some("借贷".into()),
        stage: None,
        workflow_status: None,
        case_status: "open".into(),
        case_summary: Some("概括 \"引号\"".into()),
        agg_case_no: case_no.map(String::from),
        agg_court: None,
        agg_cause: None,
        agg_filed_at: None,
        agg_resolution: None,
        agg_plaintiffs: None,
        agg_defendants: None,
        agg_third_parties: None,
        agg_key_dates: None,
        agg_fees: None,
        agg_party_contacts: None,
        agg_court_contacts: None,
        case_report_path: None,
        risk_assessment_path: None,
        deep_dive_report_path: None,
        full_report_path: None,
        next_milestone_at: None,
        next_milestone_type: None,
        updated_at: "2026-06-02".into(),
    }
}

fn document(name: &str) -> Document {
    Document {
        id: "d1".into(),
        filename: name.into(),
        source_path: format!("/cases/a/{}", name),
        stage: None,
        category: None,
        source: "scan".into(),
        is_ai_artifact: false,
        extraction_status: "done".into(),
        extracted_text_path: None,
        missing: false,
    }
}

#[test]
fn exported_lists_are_pretty_json() {
    let docs = vec![document("起诉状.pdf")];
    let x = match export_case_os_input(&case("c1", Some("新")), &docs, true, "T", "NOTES.md", '/') {
        Ok(x) => x,
        Err(e) => panic!("{}", e),
    };
    assert_eq!(x.dir, "/cases/a/_caseboard");
    assert_eq!(x.export.manifest_path, "/cases/a/_caseboard/case_os_input.json");
    assert_eq!(x.export.memo_path, "/cases/a/_caseboard/CASE_OS入口.md");
    assert_eq!(x.export.case_id, "c1");
    let v: serde_json::Value = serde_json::from_str(&x.manifest).unwrap();
    assert_eq!(v["schema"], "caseboard.case_os_input.v1");
    assert_eq!(v["case"]["case_no"], "新");
    assert_eq!(v["case"]["cause"], "借贷");
    assert!(v["case"]["court"].is_null());
    assert_eq!(v["case"]["summary"], "概括 \"引号\"");
    assert_eq!(v["documents"][0]["relative_path"], "起诉状.pdf");
    assert_eq!(v["documents"][0]["is_ai_artifact"], false);
    assert_eq!(v["case_os_entry"]["resume_check_order"][0], "NOTES.md");
    assert_eq!(v["case_os_entry"]["resume_check_order"].as_array().unwrap().len(), 4);
    assert_eq!(v["generated_at"], "T");
    assert_eq!(x.manifest, serde_json::to_string_pretty(&v).unwrap());
    assert!(x.manifest.starts_with("{\n  \"case\": {\n    \"case_no\": \"新\",\n"));
}

#[test]
fn paths_are_given_below_the_folder() {
    let at = |path: &str| {
        let mut d = document("x");
        d.source_path = path.into();
        let x = match export_case_os_input(&case("c1", None), &vec![d], true, "T", "N", '/') {
            Ok(x) => x,
            Err(e) => panic!("{}", e),
        };
        let v: serde_json::Value = serde_json::from_str(&x.manifest).unwrap();
        v["documents"][0]["relative_path"].clone()
    };
    assert_eq!(at("/cases/a/x/y.pdf"), "x/y.pdf");
    assert_eq!(at("/cases/a"), "");
    assert!(at("/cases/ab/y.pdf").is_null());
    assert!(at("/cases").is_null());
    assert!(at("/other/a/y.pdf").is_null());
    let rels = vec![Some("elsewhere".to_string())];
    let x = match export_with_paths(&case("c1", None), &vec![document("x")], &rels, true, "T", "N", '/') {
        Ok(x) => x,
        Err(e) => panic!("{}", e),
    };
    assert!(x.manifest.contains("\"relative_path\": \"elsewhere\""));
}

#[test]
fn cases_that_cannot_be_handed_over() {
    assert!(check_export("/cases/a", true).is_ok());
    assert_eq!(check_export("/cases/a", false).unwrap_err(), "案件源文件夹不可用: /cases/a");
    let mut c = case("c1", None);
    match export_case_os_input(&c, &Vec::new(), false, "T", "N", '/') {
        Err(e) => assert_eq!(e, "案件源文件夹不可用: /cases/a"),
        Ok(_) => panic!("exported"),
    }
    c.source_folder = "__DEMO__".into();
    match export_case_os_input(&c, &Vec::new(), true, "T", "N", '/') {
        Err(e) => assert_eq!(e, "示例案件没有真实案件目录，不能导出案件 OS 输入源"),
        Ok(_) => panic!("exported"),
    }
}

#[test]
fn memos_list_two_hundred_documents() {
    let c = case("c1", None);
    let none = memo(&c, &Vec::new(), "T", "NOTES.md", "/m.json");
    assert!(none.starts_with("# CaseBoard 案件OS入口\n\n- 生成时间：T\n- 案件名称：张三诉李四\n- 案件目录：/cases/a\n- 输入清单：/m.json\n\n## 执行入口\n\n"));
    assert!(none.ends_with("## 看板文档清单\n\n- 暂无文档\n"));
    let docs: Vec<Document> = (0..201).map(|i| document(&format!("{}.pdf", i))).collect();
    let many = memo(&c, &docs, "T", "NOTES.md", "/m.json");
    assert!(many.contains("- 199.pdf | 未分类 | done | /cases/a/199.pdf\n"));
    assert!(!many.contains("200.pdf"));
}

#[test]
fn lists_hold_every_document() {
    let docs = vec![document("a.pdf"), document("b.pdf")];
    let rels = vec![Some("a.pdf".to_string()), None];
    let text = compact_json(&manifest_json(&case("c1", None), &docs, &rels, "T", "N")).unwrap();
    let v: serde_json::Value = serde_json::from_str(&text).unwrap();
    assert_eq!(v["documents"].as_array().unwrap().len(), 2);
    assert_eq!(v["documents"][0]["relative_path"], "a.pdf");
    assert!(v["documents"][1]["relative_path"].is_null());
    assert_eq!(v["case"]["case_no"], "旧");
}

#[test]
fn files_and_folders_are_checked() {
    assert_eq!(check_text_file("/x", false, false, 0).unwrap_err(), "文件不存在: /x");
    assert_eq!(check_text_file("/x", true, false, 0).unwrap_err(), "不是文件: /x");
    assert_eq!(
        check_text_file("/x", true, true, 5_242_881).unwrap_err(),
        "文件太大(5242881 字节),超过 5 MB 上限,渲染会卡"
    );
    assert!(check_text_file("/x", true, true, 5_242_880).is_ok());
    assert_eq!(
        check_office_file("/x", true, true, 52_428_801, "50.0").unwrap_err(),
        "文件太大(50.0 MB),超过 50 MB 上限"
    );
    assert_eq!(office_failure(""), "textutil 转换失败: 未知错误");
    assert_eq!(office_failure(" bad\n"), "textutil 转换失败: bad");
    assert_eq!(check_folder("/x", false, false).unwrap_err(), "路径不存在: /x");
    assert_eq!(check_folder("/x", true, false).unwrap_err(), "不是文件夹: /x");
    assert_eq!(
        check_case_folder("/x", false, false).unwrap_err(),
        "案件源文件夹已不存在: /x"
    );
    assert_eq!(
        check_case_folder("/x", true, false).unwrap_err(),
        "案件源路径不是文件夹: /x"
    );
    assert_eq!(default_case_name(None), "未命名案件");
    assert!(needs_reading(0, 0, 0, 1));
    assert!(!needs_reading(0, 0, 0, 0));
}

#[test]
fn extract_doc_text_rejects_missing_file() {
    let result = check_office_file("/nonexistent/path.docx", false, false, 0, "0.0");
    assert!(result.is_err());
    assert!(result.unwrap_err().contains("不存在"));
}

#[test]
fn folders_are_split() {
    let c = |dir: &str, name: &str| CommitCase { dir: dir.into(), name: name.into() };
    assert_eq!(plan_split("/r", &Vec::new()).unwrap_err(), "没有要导入的案件");
    assert!(plan_split("/r", &vec![c("/r/a", ""), c("/r/b", "")]).unwrap());
    assert!(!plan_split("/r", &vec![c("/r/a", ""), c("/r", "")]).unwrap());
    assert!(!plan_split("", &vec![c("/r/a", "")]).unwrap());
    assert_eq!(split_case_name(&c("/r/a", " 甲案 "), Some("a".into())), "甲案");
    assert_eq!(split_case_name(&c("/r/a", " "), Some("a".into())), "a");
    assert_eq!(split_case_name(&c("/", ""), None), "未命名案件");
}

#[test]
fn logs_and_health() {
    assert_eq!(check_log("  ").unwrap_err(), "日志内容不能为空");
    assert_eq!(check_log(&"长".repeat(5001)).unwrap_err(), "日志内容过长，最多 5000 字");
    assert!(check_log(&"长".repeat(5000)).is_ok());
    let h = healthy(9, 2, None);
    assert!(h.ok);
    assert_eq!(h.db_path, "<unknown>");
}

fn artifact(source: &str, ai: bool) -> Option<EditedDoc> {
    Some(EditedDoc {
        category: Some("民事起诉状".into()),
        is_ai_artifact: ai,
        source: source.into(),
    })
}

#[test]
fn write_editor_doc_rewrites_in_place_and_rebuilds_header() {
    let body = "# 一、诉讼请求\n\n新正文,内容已改。";
    let text = write_editor_doc(artifact("chat_artifact", true), "新标题", body, "T").unwrap();
    assert!(text.contains("新正文,内容已改。"));
    assert!(text.contains("title=新标题"));
    assert!(text.contains("doc_type=民事起诉状"));
    assert!(text.starts_with("<!-- filing"));
    assert_eq!(
        text,
        format!("<!-- filing · doc_type=民事起诉状 · title=新标题 · ts=T -->\n\n{}", body)
    );
}

#[test]
fn write_editor_doc_refuses_original_file() {
    let err = write_editor_doc(artifact("scan", false), "x", "篡改内容", "T").unwrap_err();
    assert!(err.contains("原始文件"), "应拒绝编辑原始文件: {}", err);
    let err = write_editor_doc(artifact("scan", true), "x", "篡改内容", "T").unwrap_err();
    assert!(err.contains("原始文件"), "应拒绝编辑原始文件: {}", err);
    let err = write_editor_doc(None, "x", "y", "T").unwrap_err();
    assert_eq!(err, "文书不存在或已删除(doc_id 无效)");
    let long = "x".repeat(5_242_881);
    let err = write_editor_doc(artifact("chat", true), "x", &long, "T").unwrap_err();
    assert_eq!(err, "文书内容太大(5242881 字节),超过 5 MB 上限");
}

#[test]
fn write_editor_doc_sanitizes_title_for_comment() {
    let text =
        write_editor_doc(artifact("chat_artifact", true), "标题-->注入\n第二行", "正文", "T").unwrap();
    let header = text.lines().next().unwrap();
    assert_eq!(header.matches("-->").count(), 1, "注释头不能被标题里的 --> 破坏");
    assert!(header.starts_with("<!-- filing"));
    assert_eq!(safe_title(" a\r\nb-->c "), "a  b—>c");
    assert_eq!(safe_title("--->"), "-—>");
}

#[test]
fn commands_are_checked() {
    assert!(check_url("https://a").is_ok());
    assert!(check_url("http://a").is_ok());
    assert_eq!(check_url("file:///a").unwrap_err(), "不是合法 http(s) URL: file:///a");
    assert_eq!(home_order(Vec::new()), None);
    assert_eq!(home_order(vec!["a".into()]), Some(vec!["a".to_string()]));
    assert_eq!(db_error("x"), "数据库错误: x");
    assert_eq!(key_or_empty(None), "");
    assert!(wants_default_kb(None, &None));
    assert!(wants_default_kb(Some(true), &Some("  ".into())));
    assert!(!wants_default_kb(Some(false), &None));
    assert!(!wants_default_kb(None, &Some("/kb".into())));
    assert_eq!(conflict_strategy("skip").unwrap(), ConflictStrategy::Skip);
    assert_eq!(conflict_strategy("overwrite_older").unwrap(), ConflictStrategy::OverwriteOlder);
    assert_eq!(conflict_strategy("always_overwrite").unwrap(), ConflictStrategy::AlwaysOverwrite);
    assert_eq!(conflict_strategy("x").unwrap_err(), "未知冲突策略: x");
    match require_case(None, "c9") {
        Err(e) => assert_eq!(e, "案件不存在: c9"),
        Ok(_) => panic!("found"),
    }
    assert!(require_register_key(None).is_err());
    assert_eq!(require_model_key(None).unwrap_err(), "尚未配置云端模型 API Key");
    assert_eq!(require_kb(false, KbAction::Export).unwrap_err(), "本地知识库未启用,无法导出");
    assert!(require_kb(true, KbAction::Prune).is_ok());
    assert_eq!(title_from_filename("a.md.md"), "a");
    assert_eq!(title_from_filename("md"), "md");
    assert!(!can_ask_carrier("a", ""));
    assert!(can_ask_carrier("a", "b"));
}

#[test]
fn file_names_are_safe_and_free() {
    assert_eq!(sanitize_filename(" a/b:c\n "), "a_b_c_");
    assert_eq!(sanitize_filename("  "), "court_document");
    assert_eq!(sanitize_filename(&"长".repeat(90)).chars().count(), 80);
    let taken = vec!["a.pdf".to_string(), "a (2).pdf".to_string()];
    assert_eq!(unique_path("a", "pdf", &taken), "a (3).pdf");
    assert_eq!(unique_path("b", "pdf", &taken), "b.pdf");
    let mut all: Vec<String> = (2..1000).map(|n| format!("a ({}).pdf", n)).collect();
    all.push("a.pdf".into());
    assert_eq!(unique_path("a", "pdf", &all), "a.pdf");
}

#[test]
fn case_numbers_are_compared_as_typed_plainly() {
    assert_eq!(normalize_case_no("（2025） 粤 0104 民初 123 号"), "(2025)粤0104民初123号");
    let cases = vec![case("c1", None), case("c2", Some("(2025)粤0104民初123号"))];
    let (id, name) = find_case_by_case_no(&cases, "（2025）粤0104民初 123号");
    assert_eq!(id.as_deref(), Some("c2"));
    assert_eq!(name.as_deref(), Some("张三诉李四"));
    assert_eq!(find_case_by_case_no(&cases, "  ").0, None);
    assert_eq!(find_case_by_case_no(&cases, "x").0, None);
}

const SMS: &str = "【广州市越秀区人民法院】张三,（2025）粤0104民初123号案件文书已送达,请点击 https://zxfw.court.gov.cn/zxfw/#/pagesAjkj/app/wssd/index?qdbh=Q1&sdbh=S1&sdsin=N1 查收。";

#[test]
fn messages_are_read() {
    let p = parse_sms(SMS);
    assert_eq!(p.court.as_deref(), Some("广州市越秀区人民法院"));
    assert_eq!(p.case_no.as_deref(), Some("（2025）粤0104民初123号"));
    let l = p.link.unwrap();
    assert_eq!((l.sdbh.as_str(), l.qdbh.as_str(), l.sdsin.as_str()), ("S1", "Q1", "N1"));
    let none = parse_sms("您好,请查收");
    assert!(none.court.is_none() && none.case_no.is_none() && none.link.is_none());
    assert!(assemble_sms(None, None, false, Some("a".into()), Some("b".into()), Some("c".into()))
        .link
        .is_none());
    assert!(assemble_sms(None, None, true, None, Some("b".into()), Some("c".into())).link.is_none());
    assert_eq!(default_pdf(), "pdf");
    assert_eq!(truncate("甲乙丙", 2), "甲乙");
}

fn served(name: &str, court: Option<&str>) -> ZxfwDoc {
    ZxfwDoc {
        name: name.into(),
        ext: "pdf".into(),
        wjlj: "https://x".into(),
        court: court.map(String::from),
    }
}

#[test]
fn messages_are_previewed() {
    let cases = vec![case("c2", Some("(2025)粤0104民初123号"))];
    let p = preview_court_sms(parse_sms(SMS), Ok(vec![served("判决书", None)]), &cases);
    let p = match p {
        Ok(p) => p,
        Err(e) => panic!("{}", e),
    };
    assert!(p.has_link && p.note.is_none());
    assert_eq!(p.matched_case_id.as_deref(), Some("c2"));
    assert_eq!(p.docs[0].name, "判决书");
    let p = match preview_court_sms(parse_sms(SMS), Ok(Vec::new()), &Vec::new()) {
        Ok(p) => p,
        Err(e) => panic!("{}", e),
    };
    assert_eq!(p.note.as_deref(), Some(NO_CASE));
    let p = match preview_court_sms(parse_sms("x"), Err("unused".into()), &cases) {
        Ok(p) => p,
        Err(e) => panic!("{}", e),
    };
    assert!(!p.has_link);
    assert_eq!(p.note.as_deref(), Some(NO_LINK));
    assert!(preview_court_sms(parse_sms(SMS), Err("断网".into()), &cases).is_err());
    let mut sms = parse_sms(SMS);
    sms.court = None;
    match preview_court_sms(sms, Ok(vec![served("a", Some("某院"))]), &cases) {
        Ok(p) => assert_eq!(p.court.as_deref(), Some("某院")),
        Err(e) => panic!("{}", e),
    }
}

#[test]
fn served_documents_are_kept_or_named() {
    assert_eq!(check_inbox("/x", false).unwrap_err(), "案件源文件夹不可用: /x");
    assert!(check_listed(&Vec::new()).is_err());
    assert_eq!(inbox_name(&served("判决/书", None), &Vec::new()), "判决_书.pdf");
    let mut r = IngestReport::new();
    r.note("判决书", "判决书.pdf".into(), Ok(()));
    r.note("传票", "传票.pdf".into(), Err("超时".into()));
    assert_eq!(r.downloaded, vec!["判决书.pdf"]);
    assert_eq!(r.skipped, vec!["传票(超时)"]);
}

#[test]
fn replies_of_the_court_service() {
    let ok = parse_json("{\"code\":200,\"data\":[]}").unwrap();
    assert!(check_reply(&ok).is_ok());
    let bad = parse_json("{\"code\":-3,\"msg\":\"失效\"}").unwrap();
    assert_eq!(check_reply(&bad).unwrap_err(), "一张网业务错误(code=Some(-3)): 失效");
    assert_eq!(check_reply(&Json::Null).unwrap_err(), "一张网业务错误(code=None): 未知");
    let data = |text: &str| match reply_data(text) {
        Ok(v) => compact_json(&v).unwrap(),
        Err(e) => e,
    };
    assert_eq!(data("{\"code\":200,\"data\":[{\"b\":1,\"a\":2}]}"), "[{\"a\":2,\"b\":1}]");
    assert_eq!(data("{\"code\":200}"), "null");
    assert_eq!(data("{\"code\":500,\"data\":[]}"), "一张网业务错误(code=Some(500)): 未知");
    let long = format!("<{}", "甲".repeat(400));
    let error = serde_json::from_str::<serde_json::Value>(&long).unwrap_err();
    assert_eq!(
        data(&long),
        format!("一张网响应非 JSON: {} · <{}", error, "甲".repeat(299))
    );
    match take_data(Err("坏".into()), "<html>") {
        Err(e) => assert_eq!(e, "一张网响应非 JSON: 坏 · <html>"),
        Ok(_) => panic!("taken"),
    }
    assert_eq!(status_error("502 Bad Gateway", "x"), "一张网返回 HTTP 502 Bad Gateway: x");
    assert!(check_address(" ").is_err());
    assert!(check_address("https://a").is_ok());
}
