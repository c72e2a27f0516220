use caseboard::case_files::Document;
use caseboard::chat::arg_repair::{
    balance_braces, mend, repair, strip_control_chars_in_strings, strip_excess_closers,
    strip_trailing_commas, ArgRepairError,
};
use caseboard::chat::context::TaskType;
use caseboard::chat::loop_guard::{LoopGuard, LoopGuardViolation};
use caseboard::chat::model_router::{route_model, ModelChoice, ProviderPreset};
use caseboard::chat::prefix_cache::{short12, PrefixFingerprint, PrefixStabilityManager};
use caseboard::chat::prompts::task_user_prompt;
use caseboard::chat::tools::{
    find_document, safe_company_stem, ReextractDocument, SaveCompanyReport, ToolError,
};
use caseboard::json::{compact_json, parse_json, Json};
use caseboard::settings::Settings;

fn make_settings(mode: Option<&str>) -> Settings {
    Settings { chat_loop_max_iters: None, cloud_llm_model: mode.map(String::from) }
}

fn deepseek() -> ProviderPreset {
    ProviderPreset {
        flash_model: "deepseek-v4-flash".into(),
        pro_model: "deepseek-v4-pro".into(),
        thinking_model: Some("deepseek-v4-pro-thinking".into()),
        max_output_tokens: 64_000,
    }
}

fn mimo() -> ProviderPreset {
    ProviderPreset {
        flash_model: "mimo-v2.5".into(),
        pro_model: "mimo-v2.5-pro".into(),
        thinking_model: None,
        max_output_tokens: 131_072,
    }
}

fn temperature(c: &ModelChoice) -> f32 {
    c.temperature_hundredths as f32 / 100.0
}

#[test]
fn case_1_global_pro_all_tasks_pro() {
    let s = make_settings(Some("deepseek-v4-pro"));
    let c = route_model(TaskType::FreeChat, "随便问", &s, &deepseek());
    assert_eq!(c.model, "deepseek-v4-pro");
}

#[test]
fn case_2_global_thinking_all_tasks_thinking() {
    let s = make_settings(Some("deepseek-v4-pro-thinking"));
    let c = route_model(TaskType::FreeChat, "", &s, &deepseek());
    assert_eq!(c.model, "deepseek-v4-pro-thinking");
}

#[test]
fn case_3_default_and_global_flash_never_force_pro() {
    for s in [make_settings(None), make_settings(Some("deepseek-v4-flash"))] {
        for task in [
            TaskType::CompileLegalBasis,
            TaskType::SimulateOpposition,
            TaskType::FreeChat,
        ] {
            let c = route_model(
                task,
                "对方主张违约金过高怎么办有没有策略建议分析",
                &s,
                &deepseek(),
            );
            assert_eq!(
                c.model, "deepseek-v4-flash",
                "全局flash下 {:?} 必须 flash",
                task
            );
        }
    }
}

#[test]
fn case_5_auto_tool_tasks_route_to_pro() {
    let s = make_settings(Some("auto"));
    for task in [
        TaskType::CompileLegalBasis,
        TaskType::FindSimilarCases,
        TaskType::VerifyMyDraft,
    ] {
        let c = route_model(task, "", &s, &deepseek());
        assert_eq!(c.model, "deepseek-v4-pro", "auto挡 {:?} 应走 pro", task);
        assert_eq!(temperature(&c), 0.15);
    }
}

#[test]
fn case_6_auto_free_chat_short_message_goes_flash() {
    let s = make_settings(Some("auto"));
    let c = route_model(TaskType::FreeChat, "案号是多少", &s, &deepseek());
    assert_eq!(c.model, "deepseek-v4-flash");
}

#[test]
fn case_7_auto_free_chat_long_with_reasoning_keyword_goes_pro() {
    let s = make_settings(Some("auto"));
    let msg = "这个案件对方主张违约金过高,我们应该怎么办?有没有应对策略?给一些建议";
    assert!(msg.chars().count() >= 30);
    let c = route_model(TaskType::FreeChat, msg, &s, &deepseek());
    assert_eq!(c.model, "deepseek-v4-pro");
    assert_eq!(temperature(&c), 0.15);
}

#[test]
fn case_8_auto_free_chat_long_without_reasoning_keyword_stays_flash() {
    let s = make_settings(Some("auto"));
    let msg = "请把这个案件里张三和李四之间签订的合同内容列出来,我想看看具体条款约定了什么内容";
    assert!(msg.chars().count() >= 30);
    let c = route_model(TaskType::FreeChat, msg, &s, &deepseek());
    assert_eq!(c.model, "deepseek-v4-flash");
}

#[test]
fn case_9_auto_free_chat_anti_enforcement_keyword_triggers_pro() {
    let s = make_settings(Some("auto"));
    let msg = "对方公司在立案后突击转移股权,涉嫌拒执罪,我们能不能追加刑事责任?";
    let c = route_model(TaskType::FreeChat, msg, &s, &deepseek());
    assert_eq!(c.model, "deepseek-v4-pro");
}

#[test]
fn case_10_forced_unknown_model_passes_through() {
    let s = make_settings(Some("my-custom-model"));
    let c = route_model(TaskType::FreeChat, "", &s, &deepseek());
    assert_eq!(c.model, "my-custom-model");
}

#[test]
fn mimo_default_routes_to_flash() {
    let s = make_settings(None);
    let c = route_model(TaskType::FreeChat, "随便问", &s, &mimo());
    assert_eq!(c.model, "mimo-v2.5");
    assert_eq!(c.max_tokens, 131_072);
}

#[test]
fn mimo_auto_routes_tool_to_pro() {
    let s = make_settings(Some("auto"));
    let c = route_model(TaskType::CompileLegalBasis, "", &s, &mimo());
    assert_eq!(c.model, "mimo-v2.5-pro");
}

#[test]
fn mimo_pro_thinking_falls_back_to_pro() {
    let c = ModelChoice::pro(&mimo(), true);
    assert_eq!(c.model, "mimo-v2.5-pro");
}

#[test]
fn short_reasoning_message_stays_flash_below_thirty_characters() {
    let s = make_settings(Some("auto"));
    let short: String = "怎么办".to_string() + &"问".repeat(26);
    assert_eq!(short.chars().count(), 29);
    let c = route_model(TaskType::FreeChat, &short, &s, &deepseek());
    assert_eq!(c.model, "deepseek-v4-flash");
    let long: String = "怎么办".to_string() + &"问".repeat(27);
    let c = route_model(TaskType::FreeChat, &long, &s, &deepseek());
    assert_eq!(c.model, "deepseek-v4-pro");
}

#[test]
fn each_tool_task_has_concrete_template() {
    for task in [
        TaskType::CompileLegalBasis,
        TaskType::FindSimilarCases,
        TaskType::VerifyMyDraft,
        TaskType::SimulateOpposition,
    ] {
        let p = task_user_prompt(task);
        assert!(p.is_some(), "task {:?} 应该有模板", task);
        let p = p.unwrap();
        assert!(p.len() > 50, "task {:?} 模板太短", task);
        assert!(p.len() < 4000, "task {:?} 模板太长", task);
    }
}

#[test]
fn v0_2_tool_tasks_mention_tools() {
    let p = task_user_prompt(TaskType::CompileLegalBasis).unwrap();
    assert!(p.contains("search_laws") || p.contains("search_local_kb"));
    let p = task_user_prompt(TaskType::FindSimilarCases).unwrap();
    assert!(p.contains("search_cases_authority") || p.contains("case_vector_search"));
    let p = task_user_prompt(TaskType::VerifyMyDraft).unwrap();
    assert!(p.contains("verify_legal_citations"));
    let p = task_user_prompt(TaskType::SimulateOpposition).unwrap();
    assert!(p.contains("search_cases_authority") || p.contains("search_laws"));
}

#[test]
fn free_chat_returns_none() {
    assert!(task_user_prompt(TaskType::FreeChat).is_none());
}

fn compact(v: &Json) -> String {
    compact_json(v).unwrap()
}

fn repaired(raw: &str) -> String {
    match repair(raw) {
        Ok(v) => compact(&v),
        Err(e) => e.message(),
    }
}

#[test]
fn good_arguments_pass_unchanged() {
    assert_eq!(repaired("{\"a\": [1, 2.5, null], \"b\": \"x\"}"), "{\"a\":[1,2.5,null],\"b\":\"x\"}");
}

#[test]
fn broken_arguments_are_mended() {
    assert_eq!(repaired("{\"a\": 1,}"), "{\"a\":1}");
    assert_eq!(repaired("{\"a\": [1, 2"), "{\"a\":[1,2]}");
    assert_eq!(repaired("{\"a\": 1}}"), "{\"a\":1}");
    assert_eq!(repaired("{\"a\": \"x\u{1}y\"}"), "{\"a\":\"xy\"}");
}

#[test]
fn hopeless_arguments_become_empty() {
    assert_eq!(repaired("not json at all"), "{}");
    assert_eq!(repaired(""), "{}");
}

#[test]
fn too_large_arguments_are_refused() {
    let raw = "x".repeat(4_194_305);
    match repair(&raw) {
        Err(ArgRepairError::TooLarge(n)) => assert_eq!(n, 4_194_305),
        Ok(_) => panic!("accepted"),
    }
    assert_eq!(
        ArgRepairError::TooLarge(7).message(),
        "参数超过 7 字符且非合法 JSON,拒绝修复"
    );
}

#[test]
fn steps_of_mending() {
    assert_eq!(strip_control_chars_in_strings("\"a\u{2}b\"\u{2}"), "\"ab\"\u{2}");
    assert_eq!(strip_control_chars_in_strings("\"a\tb\""), "\"a\tb\"");
    assert_eq!(strip_trailing_commas("[1,2,,],"), "[1,2]");
    assert_eq!(strip_trailing_commas("[1,2, ]"), "[1,2, ]");
    assert_eq!(strip_trailing_commas("{\"a\":1,},,"), "{\"a\":1}");
    assert_eq!(balance_braces("{\"a\":[1", 50), "{\"a\":[1]}");
    assert_eq!(strip_excess_closers("]}[1]"), "[1]");
    assert_eq!(mend(1, "[1,]"), strip_trailing_commas(&mend(0, "[1,]")));
}

fn guard(max: Option<u32>) -> LoopGuard {
    LoopGuard::from_settings(&Settings { chat_loop_max_iters: max, cloud_llm_model: None })
}

#[test]
fn rounds_are_capped() {
    let mut g = guard(Some(2));
    assert!(g.check_iter_cap().is_ok());
    assert!(g.check_iter_cap().is_ok());
    match g.check_iter_cap() {
        Err(e) => assert_eq!(e.message(), "超过本会话最大轮数(max=2)"),
        Ok(_) => panic!("third round"),
    }
    assert_eq!(g.iter_count(), 2);
    let mut g = guard(None);
    for _ in 0..16 {
        assert!(g.check_iter_cap().is_ok());
    }
    assert!(g.check_iter_cap().is_err());
}

#[test]
fn repeated_calls_are_stopped() {
    let mut g = guard(None);
    let a = parse_json("{\"q\":\"x\",\"n\":1}").unwrap();
    let same = parse_json("{\"n\": 1, \"q\": \"x\"}").unwrap();
    let other = parse_json("{\"q\":\"y\"}").unwrap();
    assert!(g.check_duplicate_tool_call("search", &a).is_ok());
    assert!(g.check_duplicate_tool_call("search", &other).is_ok());
    assert!(g.check_duplicate_tool_call("fetch", &a).is_ok());
    match g.check_duplicate_tool_call("search", &same) {
        Err(LoopGuardViolation::DuplicateToolCall { tool }) => assert_eq!(tool, "search"),
        _ => panic!("not stopped"),
    }
}

#[test]
fn time_and_tokens_are_capped() {
    let mut g = guard(None);
    assert!(g.check_duration_cap(300_000_000_000).is_ok());
    match g.check_duration_cap(300_000_000_001) {
        Err(e) => assert_eq!(e.message(), "本会话总耗时超 300s,可能后端慢或卡死,提前 abort"),
        Ok(_) => panic!("too long"),
    }
    assert!(g.add_reasoning_tokens(64_000).is_ok());
    match g.add_reasoning_tokens(1) {
        Err(e) => assert_eq!(e.message(), "reasoning token 累计超 64000,thinking 模型可能跑飞"),
        Ok(_) => panic!("too many"),
    }
    assert!(g.add_reasoning_tokens(u64::MAX).is_err());
}

#[test]
fn fingerprint_of_known_texts() {
    let fp = PrefixFingerprint::compute("abc", &Vec::new());
    assert_eq!(fp.system, "900150983cd24fb0d6963f7d28e17f72");
    assert_eq!(fp.tools, "d41d8cd98f00b204e9800998ecf8427e");
    assert_eq!(fp.system_short(), "900150983cd2");
    assert_eq!(fp.tools_short(), "d41d8cd98f00");
    assert_eq!(fp.short().len(), 12);
    assert_eq!(short12("短语短语短语"), "短语短语");
    assert_eq!(short12("短语短a"), "短语短a");
    assert_eq!(short12("abcdefghijklm"), "abcdefghijkl");
}

#[test]
fn tool_order_does_not_change_the_fingerprint() {
    let one = || parse_json("{\"name\":\"a\"}").unwrap();
    let two = || parse_json("{\"name\":\"b\"}").unwrap();
    let x = PrefixFingerprint::compute("s", &vec![one(), two()]);
    let y = PrefixFingerprint::compute("s", &vec![two(), one()]);
    assert_eq!(x.combined, y.combined);
    let z = PrefixFingerprint::compute("s", &vec![one()]);
    assert_ne!(x.combined, z.combined);
    assert_eq!(x.system, z.system);
}

#[test]
fn prefix_changes_are_noticed_once() {
    let tools = Vec::new();
    let mut m = PrefixStabilityManager::new("one", &tools);
    assert!(matches!(m.check_and_update("one", &tools), Ok(true)));
    match m.check_and_update("two", &tools) {
        Err(c) => assert_eq!(c.label(), "sys"),
        Ok(_) => panic!("not noticed"),
    }
    assert!(matches!(m.check_and_update("two", &tools), Ok(_)));
    assert_eq!(m.change_count(), 1);
    assert_eq!(m.check_count(), 3);
    assert!(m.last_change().is_some());
    let mut fresh = PrefixStabilityManager::new_unpinned();
    assert!(fresh.pinned_fingerprint().is_none());
    assert!(fresh.check_and_update("one", &tools).is_ok());
    assert!(fresh.pinned_fingerprint().is_some());
}

#[test]
fn company_reports_are_planned() {
    let t = SaveCompanyReport;
    assert_eq!(t.name(), "save_company_report");
    assert!(t.is_mutating());
    match t.plan(false, "甲公司", "正文", "2026-06-01") {
        Err(ToolError::Runtime(m)) => assert!(m.starts_with("本地知识库未启用")),
        _ => panic!("no knowledge base"),
    }
    match t.plan(true, "  ", "正文", "2026-06-01") {
        Err(ToolError::InvalidArgs(m)) => assert_eq!(m, "company_name 不能为空"),
        _ => panic!("no name"),
    }
    match t.plan(true, "甲/乙公司", "正文", "2026-06-01") {
        Ok(p) => {
            assert_eq!(p.relpath, "raw/companies/甲_乙公司.md");
            assert!(p.body.starts_with("# 甲/乙公司"));
            assert!(p.body.contains("正文"));
        }
        Err(_) => panic!("refused"),
    }
    assert_eq!(safe_company_stem(" a:b*c "), "a_b_c");
    assert_eq!(safe_company_stem(&"长".repeat(100)).chars().count(), 80);
}

#[test]
fn documents_are_read_again_only_where_that_is_possible() {
    let t = ReextractDocument;
    assert_eq!(t.name(), "reextract_document");
    assert!(matches!(t.check(false, true, false, "a.pdf"), Err(ToolError::NoCaseBound)));
    assert!(matches!(t.check(true, false, false, "a.pdf"), Err(ToolError::Runtime(_))));
    match t.check(true, true, true, "a.md") {
        Err(ToolError::InvalidArgs(m)) => {
            assert_eq!(m, "「a.md」是 AI 生成的文档,没有可重抽的原始文件,无法重抽。")
        }
        _ => panic!("accepted"),
    }
    assert!(t.check(true, true, false, "a.pdf").is_ok());
    assert!(t.reply("a.pdf", "d1").starts_with("✅ 已触发后台重新抽取《a.pdf》(doc_id=d1)。"));
}

#[test]
fn documents_are_found_by_identifier_before_name() {
    let doc = |id: &str, filename: &str| Document {
        id: id.into(),
        filename: filename.into(),
        source_path: String::new(),
        stage: None,
        category: None,
        source: "scan".into(),
        is_ai_artifact: false,
        extraction_status: "done".into(),
        extracted_text_path: None,
        missing: false,
    };
    let docs = vec![doc("1", "b"), doc("2", "a"), doc("b", "c"), doc("3", "a")];
    assert_eq!(find_document(&docs, "b"), Some(2));
    assert_eq!(find_document(&docs, "a"), Some(1));
    assert_eq!(find_document(&docs, "z"), None);
}
