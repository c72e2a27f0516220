use base64::Engine;
use caseboard::element_catalog::{catalog, find_template, list_element_document_types};
use caseboard::element_convert::{
    check_document_text, check_key, check_source, choice_content, decode_external_docx,
    external_filename, extraction_prompt, merge_model_output, model_input, object_part,
    asks_for_json, ModelField, ModelOutput,
};
use caseboard::external_convert::{
    accept_result, check_request, check_upload, element_filename, fachuan_mbid_for_template,
    parse_system_proxy, upload_name, AUTH_ENTRY_URL,
};
use caseboard::json::parse_json;
use std::collections::HashSet;

#[test]
fn catalog_has_62_unique_complete_types() {
    let items = catalog();
    assert_eq!(items.len(), 62);
    let ids: HashSet<_> = items.iter().map(|item| item.id.as_str()).collect();
    assert_eq!(ids.len(), 62);
    assert!(items.iter().all(|item| {
        !item.name.is_empty()
            && !item.category.is_empty()
            && !item.template_version.is_empty()
            && item.fields.iter().any(|field| field.required)
    }));
}

#[test]
fn exactly_twelve_high_frequency_types_are_refined() {
    let refined = catalog()
        .into_iter()
        .filter(|item| item.quality_level == "refined")
        .collect::<Vec<_>>();
    assert_eq!(refined.len(), 12);
    assert!(refined
        .iter()
        .all(|item| item.category == "起诉状" || item.category == "答辩状"));
    assert!(refined.iter().all(|item| item.fields.len() >= 11));
}

#[test]
fn missing_required_fields_are_reported_without_inventing_values() {
    let template = match find_template("complaint_private_lending") {
        Ok(t) => t,
        Err(e) => panic!("{}", e),
    };
    let draft = merge_model_output(
        &template,
        &ModelOutput {
            fields: vec![ModelField {
                key: "facts".into(),
                value: "2025年1月1日签订借款合同。".into(),
                evidence: "原文第二段".into(),
                confidence_millionths: 900_000,
            }],
        },
    );
    assert!(!draft.missing_required.is_empty());
    assert_eq!(
        draft
            .fields
            .iter()
            .find(|field| field.key == "facts")
            .unwrap()
            .value,
        "2025年1月1日签订借款合同。"
    );
    assert!(draft
        .fields
        .iter()
        .find(|field| field.key == "parties")
        .unwrap()
        .value
        .is_empty());
}

#[test]
fn external_result_must_be_base64_encoded_docx() {
    assert!(decode_external_docx("not base64").is_err());
    let text = base64::engine::general_purpose::STANDARD.encode(b"plain text");
    assert!(decode_external_docx(&text).is_err());
    let docx = base64::engine::general_purpose::STANDARD.encode(b"PK\x03\x04fixture");
    assert_eq!(decode_external_docx(&docx).unwrap(), b"PK\x03\x04fixture");
}

#[test]
fn external_conversion_requires_confirmation_before_io() {
    let denied = check_request(false, "type");
    assert!(denied.unwrap_err().contains("未获得"));

    assert_eq!(
        fachuan_mbid_for_template("complaint_private_lending"),
        Some("mjjdqsz")
    );
    assert_eq!(
        element_filename("传统民间借贷起诉状.docx"),
        "要素式民间借贷起诉状.docx"
    );
    assert_eq!(
        AUTH_ENTRY_URL,
        "https://www.gdzqfy.gov.cn/api/utils/getscwsurl"
    );
}

#[test]
fn every_catalog_entry_has_a_form_of_the_service() {
    for item in list_element_document_types() {
        assert!(fachuan_mbid_for_template(&item.id).is_some(), "{}", item.id);
    }
    assert_eq!(fachuan_mbid_for_template("nothing"), None);
    let forms: HashSet<_> =
        catalog().iter().filter_map(|t| fachuan_mbid_for_template(&t.id)).collect();
    assert_eq!(forms.len(), 62);
}

#[test]
fn unknown_templates_are_refused() {
    match find_template("nothing") {
        Ok(_) => panic!("found"),
        Err(e) => assert!(e.contains("nothing"), "{}", e),
    }
}

#[test]
fn model_values_are_bounded_and_unknown_keys_dropped() {
    let template = match find_template("complaint_private_lending") {
        Ok(t) => t,
        Err(e) => panic!("{}", e),
    };
    let field = |key: &str, value: &str, c: i64| ModelField {
        key: key.into(),
        value: value.into(),
        evidence: "e".into(),
        confidence_millionths: c,
    };
    let draft = merge_model_output(
        &template,
        &ModelOutput {
            fields: vec![
                field("facts", " 事实 ", 2_000_000),
                field("made_up", "x", 500_000),
            ],
        },
    );
    let facts = draft.fields.iter().find(|f| f.key == "facts").unwrap();
    assert_eq!(facts.confidence_millionths, 1_000_000);
    assert!(draft.fields.iter().all(|f| f.key != "made_up"));
    assert_eq!(draft.fields.len(), template.fields.len());
}

#[test]
fn long_input_is_cut() {
    let (same, cut) = model_input("短文");
    assert_eq!(same, "短文");
    assert!(!cut);
    let long = "长".repeat(80_001);
    let (head, cut) = model_input(&long);
    assert_eq!(head.chars().count(), 80_000);
    assert!(cut);
}

#[test]
fn sources_are_checked() {
    assert!(check_source(20_971_521, "docx", false).is_err());
    assert!(check_source(10, "docx", false).is_ok());
    assert!(check_source(10, "txt", true).is_ok());
    assert!(check_source(10, "txt", false).is_err());
    assert!(check_source(10, "exe", true).is_err());
    assert!(check_document_text("  ").is_err());
    assert!(check_document_text("x").is_ok());
    assert!(check_key(&None, "https://api.example.com").is_err());
    assert!(check_upload(20_971_521, "docx").is_err());
    assert_eq!(upload_name(Some("a.docx".into())), "a.docx");
}

#[test]
fn replies_of_the_model_are_opened() {
    let reply =
        parse_json("{\"choices\":[{\"message\":{\"content\":\"{}\"}}]}").unwrap();
    assert_eq!(choice_content(&reply).map(|s| s.as_str()), Some("{}"));
    let none = parse_json("{\"choices\":[]}").unwrap();
    assert!(choice_content(&none).is_none());
    let content = |s: &str| choice_content(&parse_json(s).unwrap()).cloned();
    assert_eq!(
        content("{\"choices\":{\"0\":{\"message\":{\"content\":\"x\"}}}}").as_deref(),
        Some("x")
    );
    assert!(content("{\"choices\":{\"1\":{\"message\":{\"content\":\"x\"}}}}").is_none());
    assert!(content("{\"choices\":\"0\"}").is_none());
    assert!(content("{\"choices\":[{\"message\":{\"content\":1}}]}").is_none());
    let template = match find_template("complaint_private_lending") {
        Ok(t) => t,
        Err(e) => panic!("{}", e),
    };
    let p = extraction_prompt(&template, "原文正文");
    assert!(p.contains("原文正文"));
    for f in &template.fields {
        assert!(p.contains(&f.key), "{}", f.key);
    }
}

#[test]
fn results_of_the_service_are_encoded() {
    match accept_result(b"PK\x03\x04body".to_vec(), "a.docx") {
        Ok(r) => {
            assert_eq!(decode_external_docx(&r.data_base64).unwrap(), b"PK\x03\x04body");
            assert_eq!(r.data_base64, base64::engine::general_purpose::STANDARD.encode(b"PK\x03\x04body"));
        }
        Err(e) => panic!("{}", e),
    }
    assert!(accept_result(b"<html>".to_vec(), "a.docx").is_err());
}

#[test]
fn stored_names_hold_no_path() {
    let n = external_filename("a/b\\c:d.docx");
    assert!(!n.contains('/') && !n.contains('\\') && !n.contains(':'));
    assert!(n.ends_with(".docx"));
}

#[test]
fn proxies_are_read_from_the_system_report() {
    let text = "<dictionary> {\n  HTTPSEnable : 1\n  HTTPSPort : 7890\n  HTTPSProxy : 127.0.0.1\n}\n";
    assert_eq!(parse_system_proxy(text), Some("http://127.0.0.1:7890".to_string()));
    let off = "<dictionary> {\n  HTTPSEnable : 0\n  HTTPSPort : 7890\n  HTTPSProxy : 127.0.0.1\n}\n";
    assert_eq!(parse_system_proxy(off), None);
}

#[test]
fn objects_are_taken_out_of_what_a_model_said() {
    assert_eq!(object_part("好的:```json\n{\"a\":{}}\n```"), "{\"a\":{}}");
    assert_eq!(object_part("没有"), "没有");
    assert_eq!(object_part("} {"), "} {");
    assert_eq!(object_part(""), "");
    assert!(asks_for_json("https://a/v1/chat/completions"));
    assert!(!asks_for_json("https://a/v1/text/chatcompletion_v2"));
}
