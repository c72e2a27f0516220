use caseboard::bytes::{bytes_are, bytes_end_with, slice_text};
use caseboard::json::{
    compact_json, emit, parse_json, pretty_json, put, set_member, settle, to_json, value_of, Json,
};
use caseboard::lines::{all_lines, find_last_lines, split_words};
use caseboard::local_kb::experience::{card_name, card_root, sanitize, KbError};
use caseboard::local_kb::hash::{canonical_json_str, key_from_digest, query_hash};
use caseboard::local_kb::init::{kb_subdirs, plan_kb, welcome_page, KbState};
use caseboard::numbers::{count_digits, parse_unsigned, read_number};
use caseboard::order::stable_order;
use caseboard::text::{
    begins_with, blank, chars_of, decimal_text, find_bytes, find_chars, finishes_with, has_text,
    head_text, join_texts, lower_text, replace_text, split_text, trim_text, white,
};
use caseboard::text_order::{comes_before, sort_texts};

#[test]
fn white_space_is_that_of_the_language() {
    for n in 0..=0x10ffffu32 {
        if let Some(c) = char::from_u32(n) {
            assert_eq!(white(c), c.is_whitespace(), "{:x}", n);
        }
    }
}

#[test]
fn texts_are_handled_like_strings() {
    for s in ["", " ", "abc", " a b ", "\u{3000}甲\u{3000}", "a,b,,c", "aaa", "\r\n", "x\u{85}"] {
        assert_eq!(trim_text(s), s.trim());
        assert_eq!(blank(s), s.trim().is_empty());
        assert_eq!(replace_text(s, "a", "bb"), s.replace('a', "bb"));
        assert_eq!(replace_text(s, "aa", "b"), s.replace("aa", "b"));
        assert_eq!(split_text(s, ','), s.split(',').collect::<Vec<_>>());
        assert_eq!(has_text(s, "b"), s.contains('b'));
        assert_eq!(begins_with(s, "a"), s.starts_with('a'));
        assert_eq!(finishes_with(s, " "), s.ends_with(' '));
        assert_eq!(all_lines(s), s.lines().collect::<Vec<_>>());
        assert_eq!(split_words(s), s.split_whitespace().collect::<Vec<_>>());
        assert_eq!(head_text(s, 2), s.chars().take(2).collect::<String>());
        assert_eq!(lower_text(s), s.to_ascii_lowercase());
    }
    assert_eq!(lower_text("AbÀ甲Z"), "abÀ甲z");
    assert_eq!(find_chars(&chars_of("甲乙甲乙"), &chars_of("乙"), 2), Some(3));
    assert_eq!(find_bytes(b"abab", b"ab", 1), Some(2));
    assert_eq!(decimal_text(0), "0");
    assert_eq!(decimal_text(u128::MAX), u128::MAX.to_string());
    assert_eq!(join_texts(&vec!["a".into(), "".into(), "b".into()], "-"), "a--b");
    assert_eq!(find_last_lines("a\nb\nc\n", 2), vec!["b", "c"]);
    assert_eq!(slice_text("甲乙丙", 3, 6), "乙");
    assert!(bytes_are(b"abc", "abc") && !bytes_are(b"abc", "ab"));
    assert!(bytes_end_with(b"xabc", "abc") && !bytes_end_with(b"c", "abc"));
}

#[test]
fn numbers_are_read() {
    assert_eq!(parse_unsigned("0012", 100), Some(12));
    assert_eq!(parse_unsigned("101", 100), None);
    assert_eq!(parse_unsigned("+7", 100), Some(7));
    assert_eq!(parse_unsigned("", 100), None);
    assert_eq!(parse_unsigned("-1", 100), None);
    assert_eq!(parse_unsigned("99999999999999999999999", usize::MAX), None);
    assert_eq!(count_digits(&chars_of("a12b"), 1), 2);
    assert_eq!(read_number(&chars_of("a12b"), 1, 3), Some(12));
}

#[test]
fn orders_are_stable() {
    assert_eq!(stable_order(&vec![(2, 0), (1, 1), (2, 0), (1, 0)]), vec![3, 1, 0, 2]);
    let mut v: Vec<String> = ["b", "", "甲", "a", "ab", "B"].iter().map(|s| s.to_string()).collect();
    let sorted = sort_texts(&v);
    v.sort();
    assert_eq!(sorted, v);
    assert!(comes_before("a", "ab") && !comes_before("ab", "a") && !comes_before("a", "a"));
}

#[test]
fn json_is_read_and_written() {
    let text = "{\"b\":[1,-2.5,1e3,true,false,null,\"x\\n\\u0001\\\"\"],\"a\":{}}";
    let v = parse_json(text).unwrap();
    let out = compact_json(&v).unwrap();
    let same: serde_json::Value = serde_json::from_str(text).unwrap();
    assert_eq!(out, serde_json::to_string(&same).unwrap());
    let mut out = String::new();
    emit(&v, &mut out);
    assert_eq!(
        out,
        "{\"a\": {}, \"b\": [1, -2.5, 1000.0, true, false, null, \"x\\n\\u0001\\\"\"]}"
    );
    assert!(parse_json("{").is_none());
    assert!(parse_json("").is_none());
    assert_eq!(v.get("a").is_some(), true);
    assert!(v.get("c").is_none());
    assert!(v.get_text("b").is_none());
}

#[test]
fn json_is_written_over_lines() {
    let mut m = Vec::new();
    put(&mut m, "a", Json::Str("x".into()));
    put(&mut m, "b", Json::Array(vec![Json::Null, Json::Bool(true)]));
    assert_eq!(
        pretty_json(&Json::Object(m)).unwrap(),
        "{\n  \"a\": \"x\",\n  \"b\": [\n    null,\n    true\n  ]\n}"
    );
}

#[test]
fn members_settle_in_order() {
    let mut m = Vec::new();
    put(&mut m, "b", Json::Bool(true));
    put(&mut m, "a", Json::Null);
    put(&mut m, "b", Json::Bool(false));
    let v = Json::Object(m);
    assert_eq!(compact_json(&v).unwrap(), "{\"a\":null,\"b\":false}");
    assert_eq!(value_of(&v), value_of(&settle(&v)));
    let mut m = Vec::new();
    set_member(&mut m, "b".into(), Json::Null);
    set_member(&mut m, "a".into(), Json::Null);
    set_member(&mut m, "b".into(), Json::Bool(true));
    assert_eq!(m.len(), 2);
    assert_eq!(m[0].0, "a");
    assert!(matches!(m[1].1, Json::Bool(true)));
}

#[test]
fn numbers_are_kept() {
    let text = "[0,-7,18446744073709551615,1.5,1e300,-0.0,5e-324]";
    let value: serde_json::Value = serde_json::from_str(text).unwrap();
    let v = to_json(value.clone());
    assert_eq!(value_of(&v), value);
    assert_eq!(compact_json(&v).unwrap(), serde_json::to_string(&value).unwrap());
    let Json::Array(items) = v else { panic!("no array") };
    let Json::Number(n) = &items[1] else { panic!("no number") };
    assert_eq!(n.text(), "-7");
    assert_eq!(n.integer(), Some(-7));
    assert_eq!(n.double().as_deref(), Some("-7.0"));
    let d = n.to_double().unwrap();
    assert_eq!(d.text(), "-7.0");
    assert_eq!(d.integer(), None);
    assert_eq!(d.double().as_deref(), Some("-7.0"));
    let Json::Number(n) = &items[2] else { panic!("no number") };
    assert_eq!(n.integer(), None);
}

#[test]
fn keys_of_queries() {
    let a = parse_json("{\"q\":\"借贷\",\"n\":1}").unwrap();
    let b = parse_json("{\"n\": 1, \"q\": \"借贷\"}").unwrap();
    assert_eq!(canonical_json_str(&a), "{\"n\": 1, \"q\": \"借贷\"}");
    assert_eq!(query_hash("law", &a), query_hash("law", &b));
    assert_ne!(query_hash("law", &a), query_hash("case", &a));
    let raw = format!("law:{}", canonical_json_str(&a));
    let digest = format!("{:x}", md5::compute(raw.as_bytes()));
    assert_eq!(query_hash("law", &a), format!("law-{}", &digest[..12]));
    assert_eq!(key_from_digest("t", "0123456789abcdef"), "t-0123456789ab");
}

#[test]
fn experience_cards_have_safe_names() {
    assert_eq!(card_name("c/1", "甲:乙"), format!("{}_{}.md", sanitize("c/1"), sanitize("甲:乙")));
    let n = sanitize("..a/b\\c\u{7}..");
    assert!(!n.contains('/') && !n.contains('\\') && !n.contains('\u{7}'));
    assert!(!n.starts_with('.') && !n.ends_with('.'));
    assert_eq!(sanitize(" .. "), "");
    assert_eq!(sanitize(&"长".repeat(70)).chars().count(), 60);
    assert!(matches!(card_root(None, &Some("/kb".into()), true), Err(KbError::NoPath(_))));
    assert!(matches!(card_root(Some(true), &Some("/kb".into()), false), Err(KbError::NoPath(_))));
    match card_root(Some(true), &Some("/kb".into()), true) {
        Ok(p) => assert_eq!(p, "/kb"),
        Err(_) => panic!("refused"),
    }
}

#[test]
fn knowledge_bases_are_completed_not_overwritten() {
    let state = |exists: bool, is_dir: bool, have: Vec<bool>, files: bool| KbState {
        path: "/kb".into(),
        exists,
        is_dir,
        have,
        have_index: files,
        have_gap_log: files,
    };
    match plan_kb(&state(false, false, vec![false; 8], false)) {
        Ok(p) => {
            assert_eq!(p.dirs, kb_subdirs());
            assert_eq!((p.dirs_created, p.files_created, p.reused_existing), (9, 2, false));
        }
        Err(_) => panic!("refused"),
    }
    match plan_kb(&state(true, true, vec![true; 8], true)) {
        Ok(p) => {
            assert!(p.dirs.is_empty() && !p.write_index && !p.write_gap_log);
            assert_eq!((p.dirs_created, p.files_created, p.reused_existing), (0, 0, true));
        }
        Err(_) => panic!("refused"),
    }
    assert!(matches!(plan_kb(&state(true, false, Vec::new(), false)), Err(KbError::NotADir(_))));
    let page = welcome_page("工具");
    assert!(page.starts_with("# 法律知识库\n\n这是 CaseBoard 为你创建的空知识库。\n"));
    assert_eq!(page.matches("工具").count(), 3);
}
