use caseboard::db::instances::{
    list_instances, recompute_current, replace_llm_instances, CaseInstance, NewInstance,
};
use caseboard::db::oa::{
    case_name, default_oa_type, fees_json, import_cases_from_agent_api, mapping_or_empty,
    names_json, number_field, oa_host, str_field, summary_text, OAConfig, OASession, UpdateOAConfig,
};
use caseboard::db::rows::{
    default_db_path, max_connections, path_below, DbError, NewCalendarEvent,
};
use caseboard::db::todos::{NewTodo, UpdateTodo};
use caseboard::external_convert::{
    choose_params, download_params, require_success, required_str, reset_yuandian_credits,
    retry_entry, status_error, telemetry_get, transport_error, Conversion, EntryRetry,
    ServiceRequest, TransportFailure,
};
use caseboard::json::{compact_json, parse_json, Json};
use caseboard::lifecycle::{
    detect_local_readiness, plan_ready, plan_server, resolve_model_dir, wait_step, Probe,
    ServerPlan, WaitStep,
};
use caseboard::oa::{
    approval_action, approval_args, check_args, check_case, credential_args, exit_message,
    filing_text, import_message, keychain_password, make_task_args, monitor_args, needs_case_data,
    offered_cases, session_result, sidecar_command, with_report, CaseLookup, KeychainReply,
    LineOutcome, SidecarProgress, SidecarRun,
};
use caseboard::telemetry::{enabled, event_type, events_url};
use caseboard::update::{is_strictly_newer, parse_version, RemoteVersion, UpdateInfo};
use caseboard::wechat_evidence::{
    command_output_to_error, decide, parse_export_stdout, parse_ocr_stdout, sanitize_path_segment,
    CloudConfig, JobAction, JobEvent, JobPlan, JobUpdate, Phase, WechatEvidenceJob,
    WechatEvidenceJobStatus, WechatEvidenceStage, WechatEvidenceStartInput,
};
use caseboard::wechat_start::{
    check_ocr_tool, check_recording, choose_output, output_name, place_error, task_note, OcrTool,
    OutputChoice,
};

#[test]
fn versions_are_compared_by_number() {
    assert_eq!(parse_version(" v0.3.12-beta "), (0, 3, 12));
    assert_eq!(parse_version("1"), (1, 0, 0));
    assert_eq!(parse_version("x.y"), (0, 0, 0));
    assert_eq!(parse_version("99999999999.1.2"), (0, 1, 2));
    assert!(is_strictly_newer("0.10.0", "0.9.9"));
    assert!(!is_strictly_newer("0.3.1", "0.3.1"));
    assert!(!is_strictly_newer("0.3", "0.3.1"));
    let u = UpdateInfo::from_remote(
        "0.3.1",
        RemoteVersion {
            version: "0.4.0".into(),
            released_at: None,
            notes: Some("n".into()),
            download_url: None,
        },
    );
    assert!(u.has_update);
    assert_eq!(u.download_url.as_deref(), Some("https://lawtools.top/"));
    let f = UpdateInfo::fail("0.3.1", "断网");
    assert!(!f.has_update);
    assert_eq!(f.error.as_deref(), Some("断网"));
}

#[test]
fn events_are_sent_where_a_service_is_set() {
    assert!(!enabled(true, &Some("u".into()), &Some("k".into())));
    assert!(!enabled(false, &None, &Some("k".into())));
    assert!(enabled(false, &Some("u".into()), &Some("k".into())));
    assert_eq!(events_url("https://a//"), "https://a/rest/v1/usage_events");
    assert_eq!(event_type(0), "session_start");
    assert_eq!(event_type(1), "heartbeat");
}

fn probe(path: &str, exists: bool) -> Probe {
    Probe { path: path.into(), exists }
}

#[test]
fn the_model_server_is_planned() {
    assert_eq!(
        resolve_model_dir(Some(probe("/a", false)), Some(probe("/b", true)), Some(probe("/c", true))),
        Some("/b".to_string())
    );
    assert_eq!(resolve_model_dir(None, None, None), None);
    let r = detect_local_readiness(None, true, true, true, false);
    assert!(!r.has_main_model && !r.has_mmproj && r.llama_cpp_installed);
    assert!(matches!(
        plan_server(true, None, &probe("/m", false), &probe("/p", false)),
        Ok(ServerPlan::Running)
    ));
    match plan_server(false, None, &probe("/m", true), &probe("/p", true)) {
        Err(e) => assert_eq!(e, "llama-server 没装 — 请先运行 `brew install llama.cpp`"),
        Ok(_) => panic!("planned"),
    }
    match plan_server(false, Some("/bin/l".into()), &probe("/m", true), &probe("/p", false)) {
        Err(e) => assert_eq!(e, "视觉投影器缺失: /p"),
        Ok(_) => panic!("planned"),
    }
    match plan_server(false, Some("/bin/l".into()), &probe("/m", true), &probe("/p", true)) {
        Ok(ServerPlan::Start { program, args }) => {
            assert_eq!(program, "/bin/l");
            assert_eq!(&args[..2], ["-m", "/m"]);
            assert!(args.contains(&"8899".to_string()));
        }
        _ => panic!("not planned"),
    }
    assert!(matches!(wait_step(0, 0, true), WaitStep::Ready));
    assert!(matches!(wait_step(2, 3, false), WaitStep::Again { report_secs: None }));
    assert!(matches!(wait_step(8, 4, false), WaitStep::Again { report_secs: Some(10) }));
    assert!(matches!(wait_step(90, 44, true), WaitStep::TimedOut(_)));
    assert!(matches!(plan_ready(true, None), Ok(None)));
    assert!(plan_ready(false, None).is_err());
}

fn input(case_id: Option<&str>, ocr: Option<bool>, cloud: Option<bool>) -> WechatEvidenceStartInput {
    WechatEvidenceStartInput {
        video_path: "/v/a.mp4".into(),
        case_id: case_id.map(String::from),
        target_folder: None,
        interval_text: "1".into(),
        head_secs_text: "3".into(),
        run_ocr: ocr,
        ocr_scope: None,
        cloud_text_summary: cloud,
    }
}

fn plan(case_id: Option<&str>, ocr: Option<bool>, cloud: Option<bool>) -> JobPlan {
    JobPlan {
        input: input(case_id, ocr, cloud),
        output_dir: "/out".into(),
        default_report: "/out/r.md".into(),
    }
}

fn done(s: &str) -> JobEvent {
    JobEvent::Done(s.into())
}

#[test]
fn a_recording_is_worked_through_and_filed() {
    let p = plan(Some("c1"), None, None);
    let mut job = WechatEvidenceJob::queued("j", Some("c1".into()), "/v/a.mp4", "/out", "T0");
    let mut phase = Phase::New;
    let mut labels = Vec::new();
    let outputs = ["", "/log\n/out/a.pdf\n/out/i.json\n", "", "/out/x/聊天记录分析报告.md\n", "", "", "", ""];
    for out in outputs {
        let step = decide(phase, &p, done(out));
        for u in step.updates {
            job.record(u, "T1");
        }
        match step.action {
            JobAction::Run { label, args, .. } => labels.push(format!("{} {}", label, args.len())),
            JobAction::ReadCase => labels.push("case".into()),
            JobAction::Sync => labels.push("sync".into()),
            JobAction::List => labels.push("list".into()),
            JobAction::ReadCloud => labels.push("cloud".into()),
            JobAction::Finish => labels.push("finish".into()),
        }
        phase = step.phase;
    }
    assert_eq!(
        labels,
        vec![
            "导出录屏取证 PDF 12",
            "校验证据输出 2",
            "OCR 索引 6",
            "校验 OCR 输出 3",
            "case",
            "sync",
            "list",
            "finish"
        ]
    );
    assert_eq!(phase, Phase::Finished);
    assert_eq!(job.status, WechatEvidenceJobStatus::Completed);
    assert_eq!(job.pct, 100);
    assert_eq!(job.pdf_path.as_deref(), Some("/out/a.pdf"));
    assert_eq!(job.report_path.as_deref(), Some("/out/x/聊天记录分析报告.md"));
    assert_eq!(job.finished_at.as_deref(), Some("T1"));
    assert_eq!(job.message, "录屏取证已完成并归档到案件材料");
}

#[test]
fn jobs_fail_and_stop() {
    let p = plan(None, Some(false), None);
    let step = decide(Phase::Exporting, &p, JobEvent::Failed("坏".into()));
    assert!(matches!(step.action, JobAction::Finish));
    let mut job = WechatEvidenceJob::queued("j", None, "/v", "/out", "T0");
    for u in step.updates {
        job.record(u, "T1");
    }
    assert_eq!(job.status, WechatEvidenceJobStatus::Failed);
    assert_eq!(job.stage, WechatEvidenceStage::Export);
    assert_eq!(job.error.as_deref(), Some("坏"));
    assert_eq!(job.message, "处理失败");
    let step = decide(Phase::Validating, &p, JobEvent::Stopped);
    assert!(step.updates.is_empty());
    assert_eq!(step.phase, Phase::Finished);
    job.record(JobUpdate::Stopped, "T2");
    assert_eq!(job.message, "任务已停止,已保留当前输出目录");
    let step = decide(Phase::Validating, &p, done(""));
    assert_eq!(step.phase, Phase::Finished);
    assert_eq!(step.updates.len(), 2);
    let step = decide(Phase::ReadingCase, &plan(Some("c"), None, None), JobEvent::Missing);
    assert!(matches!(&step.updates[0], JobUpdate::Failed { error, .. } if error == "案件不存在"));
}

#[test]
fn the_model_that_sums_up_needs_a_key() {
    let p = plan(None, None, Some(true));
    let step = decide(Phase::Validating, &p, done(""));
    assert!(matches!(step.action, JobAction::ReadCloud));
    let config = |unsupported: bool, key: Option<&str>| {
        JobEvent::Cloud(CloudConfig {
            unsupported,
            endpoint: "https://a/v1/chat/completions".into(),
            model: "m".into(),
            api_key: key.map(String::from),
            speaker_key: Some(" s ".into()),
        })
    };
    let failed = |e: JobEvent| match &decide(Phase::ReadingCloud, &p, e).updates[0] {
        JobUpdate::Failed { error, .. } => error.clone(),
        _ => panic!("not failed"),
    };
    assert!(failed(config(true, Some("k"))).contains("MiniMax"));
    assert_eq!(failed(config(false, None)), "已开启云端文字增强,但当前云端模型没有配置 API Key");
    assert_eq!(failed(JobEvent::Failed("x".into())), "读取云端模型配置失败: x");
    match decide(Phase::ReadingCloud, &p, config(false, Some("k"))).action {
        JobAction::Run { args, speaker_key, .. } => {
            assert_eq!(&args[6..10], ["--cloud", "text-summary", "--base-url", "https://a"]);
            assert_eq!(speaker_key.as_deref(), Some("s"));
        }
        _ => panic!("not run"),
    }
}

#[test]
fn output_of_the_script_is_read() {
    assert_eq!(
        parse_export_stdout("text\n /a \n/b\r\n/c"),
        (Some("/b".to_string()), Some("/c".to_string()))
    );
    assert_eq!(parse_export_stdout("/a"), (None, None));
    assert_eq!(parse_ocr_stdout("/a.md\n/b.txt"), Some("/a.md".to_string()));
    assert_eq!(
        parse_ocr_stdout("/x/聊天记录分析报告.md\n/z.md"),
        Some("/x/聊天记录分析报告.md".to_string())
    );
    assert_eq!(command_output_to_error("步骤", Some(2), "o", " e "), "步骤失败(exit=Some(2)): e");
    assert_eq!(command_output_to_error("步骤", None, " o ", " "), "步骤失败(exit=None): o");
    assert_eq!(command_output_to_error("步骤", Some(-1), "", ""), "步骤失败(exit=Some(-1)): 无详细输出");
    let seg = sanitize_path_segment("a/b c");
    assert!(!seg.contains('/'));
}

#[test]
fn jobs_are_begun_with_what_they_need() {
    assert!(check_recording(false, true, "/a.mp4", "mp4").unwrap_err().contains("ffmpeg"));
    assert_eq!(check_recording(true, false, "/a.mp4", "mp4").unwrap_err(), "录屏文件不存在: /a.mp4");
    assert!(check_recording(true, true, "/a.avi", "avi").is_err());
    assert!(check_recording(true, true, "/a.MP4", "MP4").is_ok());
    assert!(check_ocr_tool(Some(false), &OcrTool::NoHome).is_ok());
    assert_eq!(
        check_ocr_tool(None, &OcrTool::Missing("/t".into())).unwrap_err(),
        "未找到 OCR 工具: /t"
    );
    assert!(check_ocr_tool(None, &OcrTool::Found).is_ok());
    match choose_output(&Some(" ".into()), &Some("/f".into())) {
        Ok(OutputChoice::Folder(f)) => assert_eq!(f, "/f"),
        _ => panic!("no folder"),
    }
    assert!(choose_output(&None, &None).is_err());
    let c = OutputChoice::Case("c".into());
    assert_eq!(place_error(&c, false, "/x"), "案件不存在: c");
    assert_eq!(place_error(&c, true, "/x"), "案件源文件夹不可用: /x");
    assert_eq!(output_name(None, "20260101"), "录屏_20260101");
}

#[test]
fn a_note_is_left_with_the_output() {
    let mut job = WechatEvidenceJob::queued("j", None, "/v/a.mp4", "/out", "T0");
    let note = task_note(&job, &input(None, None, None), &vec!["b.pdf".into(), "a.png".into()]).unwrap();
    assert!(note.contains("- 任务状态: Queued\n"));
    assert!(note.ends_with("## 输出文件\n\n- `a.png`\n- `b.pdf`\n\n"));
    job.output_dir = None;
    assert!(task_note(&job, &input(None, None, None), &Vec::new()).is_none());
}

#[test]
fn the_office_script_is_called() {
    assert_eq!(
        sidecar_command("cli.py", "filing", "s1", vec!["x".into()]),
        vec!["cli.py", "--action", "filing", "--session-id", "s1", "x"]
    );
    assert_eq!(
        credential_args("u", "a", "p", "t"),
        vec!["--site-url", "u", "--account", "a", "--password", "p", "--oa-type", "t"]
    );
    assert_eq!(
        make_task_args(vec!["l".into()], &Some("c".into()), Some("{}".into())),
        vec!["l", "--case-id", "c", "--case-data", "{}"]
    );
    assert!(needs_case_data("filing", &Some("c".into())));
    assert!(!needs_case_data("import", &Some("c".into())));
    assert_eq!(check_case(&CaseLookup::Missing).unwrap_err(), "本机案件不存在");
    assert_eq!(approval_action(true), "approval_approve");
    assert_eq!(
        approval_args(-7, "m", "{}"),
        vec!["--lawcase-id", "-7", "--memo", "m", "--confirm", "--approval-options", "{}"]
    );
    assert_eq!(check_args(3, "{}"), vec!["--lawcase-id", "3", "--approval-options", "{}"]);
    assert_eq!(
        monitor_args("{}", "/s"),
        vec!["--approval-options", "{}", "--monitor-state-path", "/s"]
    );
    assert_eq!(
        keychain_password(&KeychainReply::Printed("secret\r\n".into())).unwrap(),
        "secret"
    );
    assert_eq!(
        keychain_password(&KeychainReply::Printed("\n".into())).unwrap_err(),
        "钥匙串条目为空"
    );
    assert_eq!(
        keychain_password(&KeychainReply::Failed { code: Some(44), stderr: " ".into() }).unwrap_err(),
        "security 退出码 Some(44)"
    );
}

#[test]
fn case_data_is_merged_with_options() {
    let data = parse_json("{\"id\":\"c\",\"name\":\"n\"}").unwrap();
    let options = parse_json("{\"urgent\":true}").unwrap();
    let text = filing_text(data, Some(options)).unwrap();
    let v: serde_json::Value = serde_json::from_str(&text).unwrap();
    assert_eq!(v["id"], "c");
    assert_eq!(text, "{\"id\":\"c\",\"name\":\"n\",\"urgent\":true}");
    let plain = filing_text(parse_json("{\"a\":1}").unwrap(), None).unwrap();
    assert_eq!(plain, "{\"a\":1}");
}

fn line(event: &str, msg: Option<&str>, data: Option<Json>) -> SidecarProgress {
    SidecarProgress {
        event: event.into(),
        pct: Some(40),
        message: msg.map(String::from),
        data,
    }
}

#[test]
fn sessions_come_to_what_the_script_handed_over() {
    let mut run = SidecarRun::begin();
    match run.take_line(line("progress", Some("登录"), None)) {
        LineOutcome::Progress { pct, msg } => assert_eq!((pct, msg.as_str()), (40, "登录")),
        _ => panic!("failed"),
    }
    run.take_line(line("completed", None, parse_json("{\"b\": 1, \"a\": [true]}")));
    let r = match session_result(run, true, Some(0), "noise") {
        Ok(r) => r,
        Err(e) => panic!("{}", e),
    };
    assert_eq!(r.kept.as_deref(), Some("{\"a\":[true],\"b\":1}"));
    assert!(r.value.get("b").is_some());
    match session_result(SidecarRun::begin(), true, Some(0), "") {
        Ok(r) => assert!(r.kept.is_none() && matches!(r.value, Json::Null)),
        Err(e) => panic!("{}", e),
    }
    let mut run = SidecarRun::begin();
    assert!(matches!(run.take_line(line("failed", Some("拒绝"), None)), LineOutcome::Failed { .. }));
    let stderr: String = (0..25).map(|i| format!("line {}\n", i)).collect();
    let e = match session_result(SidecarRun::begin(), false, Some(1), &stderr) {
        Err(e) => e,
        Ok(_) => panic!("succeeded"),
    };
    assert!(e.starts_with("OA 脚本退出码: Some(1)\nline 5\n"));
    assert!(e.ends_with("line 24"));
    assert_eq!(exit_message(None, " \n"), "OA 脚本退出码: None");
}

#[test]
fn imports_offer_their_cases() {
    let result = parse_json("{\"cases\":[{\"id\":1},{\"id\":2}],\"z\":0}").unwrap();
    assert!(offered_cases("filing", &result).is_none());
    let cases = offered_cases("case_import", &result).unwrap();
    assert_eq!(cases.len(), 2);
    assert_eq!(compact_json(&cases[1]).unwrap(), "{\"id\":2}");
    let odd = parse_json("{\"cases\":\"none\"}").unwrap();
    assert_eq!(offered_cases("case_import", &odd).unwrap().len(), 0);
    assert_eq!(offered_cases("case_import", &Json::Null).unwrap().len(), 0);
    let report = || parse_json("{\"inserted\":2}").unwrap();
    assert_eq!(
        compact_json(&with_report(result, report())).unwrap(),
        "{\"cases\":[{\"id\":1},{\"id\":2}],\"import_report\":{\"inserted\":2},\"z\":0}"
    );
    assert!(matches!(with_report(Json::Null, report()), Json::Null));
}

#[test]
fn cases_of_the_office_are_imported_once() {
    let item = parse_json(
        "{\"id\":12,\"wtrNames\":\" 甲、乙；\",\"tosNames\":\"丙\",\"causeAction\":\"借贷\",\"preNo\":\"P1\",\"statusName\":\"在办\",\"chargeAmount\":5000,\"otherCharge\":0,\"yishou\":12.5}",
    )
    .unwrap();
    assert_eq!(case_name(&item).as_deref(), Some("甲、乙； 与 丙 借贷"));
    assert_eq!(names_json(str_field(&item, "wtrNames")).as_deref(), Some("[\"甲\",\"乙\"]"));
    assert_eq!(number_field(&item, "yishou").as_deref(), Some("12.5"));
    assert_eq!(
        fees_json(&item).as_deref(),
        Some("[{\"amount\":5000.0,\"item\":\"委托费用\",\"note\":null},{\"amount\":12.5,\"item\":\"已收\",\"note\":null}]")
    );
    assert_eq!(summary_text(&item).as_deref(), Some("待审号: P1；状态: 在办"));
    assert_eq!(oa_host(" https://oa.example.com// "), "oa.example.com");
    let none = parse_json("{\"id\":\"x\"}").unwrap();
    let again = parse_json("{\"id\":12}").unwrap();
    let p = import_cases_from_agent_api(
        "https://oa.example.com/",
        &vec![item, none, again],
        &Vec::new(),
    );
    assert_eq!((p.report.total, p.report.inserted, p.report.updated, p.report.skipped), (3, 1, 1, 1));
    assert_eq!(p.steps[0].row.source_folder, "oa://oa.example.com/lawcase/12");
    assert!(p.steps[1].exists);
    assert_eq!(p.steps[1].row.name, "OA 案件 12");
    assert_eq!(p.steps[1].row.case_type, "诉讼");
    assert_eq!(
        import_message(&p.report),
        "已导入 OA 案件: 新增 1 条, 更新 1 条, 跳过 1 条"
    );
    let q = import_cases_from_agent_api(
        "https://oa.example.com/",
        &vec![parse_json("{\"id\":12}").unwrap()],
        &vec!["oa://oa.example.com/lawcase/12".to_string()],
    );
    assert_eq!(q.report.inserted, 0);
}

#[test]
fn rows_are_changed_field_by_field() {
    let mut c = OAConfig {
        id: "1".into(),
        site_name: "s".into(),
        login_url: "u".into(),
        oa_type: default_oa_type(),
        is_enabled: 1,
        field_mapping: mapping_or_empty(&None),
        created_at: "T0".into(),
        updated_at: "T0".into(),
    };
    assert_eq!(c.field_mapping, "{}");
    let patch = |name: Option<&str>| UpdateOAConfig {
        site_name: name.map(String::from),
        login_url: None,
        oa_type: None,
        is_enabled: None,
        field_mapping: None,
    };
    c.apply(patch(None), "T1");
    assert_eq!(c.updated_at, "T0");
    c.apply(patch(Some("n")), "T2");
    assert_eq!((c.site_name.as_str(), c.updated_at.as_str(), c.login_url.as_str()), ("n", "T2", "u"));
    let mut s = OASession {
        id: "1".into(),
        oa_config_id: "c".into(),
        session_type: "filing".into(),
        status: "pending".into(),
        case_id: None,
        progress_pct: 0,
        progress_msg: String::new(),
        result_json: None,
        error_message: String::new(),
        started_at: None,
        completed_at: None,
        created_at: "T0".into(),
        updated_at: "T0".into(),
    };
    s.set_status("running", None, "T1");
    assert_eq!(s.started_at.as_deref(), Some("T1"));
    s.set_status("completed", None, "T2");
    assert_eq!((s.progress_pct, s.status.as_str()), (100, "completed"));
    s.set_status("failed", Some("e".into()), "T3");
    assert_eq!(s.error_message, "e");
    s.set_status("nonsense", None, "T4");
    assert_eq!(s.status, "failed");
}

#[test]
fn todos_are_ticked_off() {
    let mut t = NewTodo { case_id: "c".into(), title: "t".into() }.into_todo("1", "T0");
    assert_eq!(t.done, 0);
    t.apply(UpdateTodo { title: None, done: Some(1) }, "T1");
    assert_eq!(t.done_at.as_deref(), Some("T1"));
    t.apply(UpdateTodo { title: Some("n".into()), done: None }, "T2");
    assert_eq!((t.title.as_str(), t.done_at.as_deref()), ("n", Some("T1")));
    t.apply(UpdateTodo { title: None, done: Some(0) }, "T3");
    assert_eq!(t.done_at, None);
    let e = NewCalendarEvent { date: " d ".into(), title: " t ".into() }.into_row("1", "T");
    assert_eq!((e.date.as_str(), e.title.as_str()), ("d", "t"));
}

fn level(seq: i64) -> NewInstance {
    NewInstance {
        level: "一审".into(),
        seq,
        case_no: None,
        authority: None,
        authority_type: None,
        handlers: None,
        party_roles: None,
        filed_at: None,
        result: None,
        note: None,
    }
}

#[test]
fn the_highest_level_is_current() {
    let row = |id: &str, seq: i64, source: &str| level(seq).into_row(id, "c", source, "T");
    let rows = recompute_current(vec![row("a", 1, "llm"), row("b", 3, "user"), row("d", 2, "llm")]);
    let current: Vec<&str> = rows.iter().filter(|r| r.is_current).map(|r| r.id.as_str()).collect();
    assert_eq!(current, vec!["b"]);
    let fresh = vec![row("f", 1, "llm"), row("e", 5, "llm")];
    let rows: Vec<CaseInstance> = replace_llm_instances(rows, fresh);
    let ids: Vec<&str> = rows.iter().map(|r| r.id.as_str()).collect();
    assert_eq!(ids, vec!["e", "b", "f"]);
    assert!(rows[0].is_current && !rows[1].is_current && !rows[2].is_current);
    let at = |id: &str, seq: i64, now: &str| level(seq).into_row(id, "c", "user", now);
    let rows = vec![at("p", 1, "T2"), at("q", 2, "T2"), at("r", 2, "T1"), at("s", 2, "T2")];
    let rows = replace_llm_instances(rows, Vec::new());
    let ids: Vec<&str> = rows.iter().map(|r| r.id.as_str()).collect();
    assert_eq!(ids, vec!["r", "q", "s", "p"]);
    let current: Vec<&str> = rows.iter().filter(|r| r.is_current).map(|r| r.id.as_str()).collect();
    assert_eq!(current, vec!["q"]);
    let ids: Vec<String> =
        list_instances(vec![at("x", 1, "T"), at("y", 2, "T")]).into_iter().map(|r| r.id).collect();
    assert_eq!(ids, vec!["y", "x"]);
    let mut r = row("x", 1, "llm");
    r.change(level(9), "T2");
    assert_eq!((r.seq, r.source.as_str()), (9, "user"));
}

#[test]
fn the_database_has_its_place() {
    assert_eq!(path_below("/a/", '/', "b"), "/a/b");
    assert_eq!(path_below("/a", '/', "b"), "/a/b");
    assert_eq!(path_below("/a\\", '/', "b"), "/a\\/b");
    assert_eq!(path_below("", '/', "b"), "b");
    assert_eq!(path_below("C:\\a", '\\', "b"), "C:\\a\\b");
    assert_eq!(path_below("C:\\a\\", '\\', "b"), "C:\\a\\b");
    assert_eq!(path_below("C:/a/", '\\', "b"), "C:/a/b");
    assert_eq!(path_below("C:", '\\', "b"), "C:b");
    assert_eq!(path_below("C:", '/', "b"), "C:/b");
    assert_eq!(path_below("1:", '\\', "b"), "1:\\b");
    assert_eq!(path_below("\\\\?\\C:\\a", '\\', "b"), "\\\\?\\C:\\a\\b");
    assert_eq!(default_db_path(Some("/d".into()), '/').unwrap_or_default(), "/d/caseboard.db");
    match default_db_path(None, '/') {
        Err(e) => assert!(matches!(e, DbError::HomeDirNotFound)),
        Ok(_) => panic!("found"),
    }
    assert_eq!(max_connections(":memory:"), 1);
    assert!(max_connections("/d/caseboard.db") > 1);
    assert!(!DbError::Io("x".into()).message().is_empty());
}

#[test]
fn a_conversion_goes_through_all_steps() {
    let reply = |s: &str| parse_json(s).unwrap();
    let step = |c: Conversion, s: &str| match c.advance(&reply(s)) {
        Ok(x) => x,
        Err(e) => panic!("{}", e),
    };
    let c = Conversion::begin("mjjdqsz");
    let (c, q) = step(c, "{\"code\":\"200\",\"data\":\"https://a?x=1&signatureCode=SIG&y=2\"}");
    assert!(matches!(&q, ServiceRequest::Authenticate { signature } if signature == "SIG"));
    let (c, q) = step(c, "{\"success\":true,\"data\":{\"token\":\"TOK\",\"mac\":\"MAC\"}}");
    assert!(matches!(&q, ServiceRequest::Device { mac } if mac == "MAC"));
    let (c, q) = step(c, "{\"success\":true,\"code\":\"DEV\"}");
    assert!(matches!(&q, ServiceRequest::Upload { mac } if mac == "MAC"));
    let (c, q) = step(c, "{\"success\":true,\"data\":\"正文\"}");
    assert!(matches!(&q, ServiceRequest::Transcribe { token, text, mbid, .. }
        if token == "TOK" && text == "正文" && mbid == "mjjdqsz"));
    let (c, q) = step(c, "{\"success\":true,\"data\":{\"b\":1,\"a\":\"x\"}}");
    assert!(matches!(&q, ServiceRequest::Render { data, device, .. }
        if compact_json(data).unwrap() == "{\"a\":\"x\",\"b\":1}" && device == "DEV"));
    let (_, q) = step(c, "{\"success\":true,\"data\":\"/f.docx?id=7&n=%E7%94%B2\"}");
    let pair = |k: &str, v: &str| (k.to_string(), v.to_string());
    assert!(matches!(&q, ServiceRequest::Download { params, .. }
        if *params == vec![pair("id", "7"), pair("n", "甲")]));
}

#[test]
fn addresses_give_their_parameters() {
    let pair = |k: &str, v: &str| (k.to_string(), v.to_string());
    assert_eq!(
        download_params("https://a.example/x?b=1&a=x+y&b=").unwrap(),
        vec![pair("b", "1"), pair("a", "x y"), pair("b", "")]
    );
    assert_eq!(download_params("/x?k=v").unwrap(), vec![pair("k", "v")]);
    assert_eq!(download_params("").unwrap(), Vec::new());
    assert_eq!(download_params(":x").unwrap_err(), "无法解析要素式 Word 下载地址");
    let one = || vec![pair("k", "v")];
    assert_eq!(choose_params(Some(one()), None).unwrap(), one());
    assert_eq!(choose_params(Some(one()), Some(Vec::new())).unwrap(), one());
    assert_eq!(choose_params(None, Some(one())).unwrap(), one());
    assert_eq!(choose_params(None, None).unwrap_err(), "无法解析要素式 Word 下载地址");
}

#[test]
fn a_conversion_ends_with_what_went_wrong() {
    let failed = |s: &str| match Conversion::begin("m").advance(&parse_json(s).unwrap()) {
        Err(e) => e,
        Ok(_) => panic!("went on"),
    };
    assert_eq!(failed("{\"code\":\"500\",\"msg\":\"忙\"}"), "获取智能转写入口失败: 忙");
    assert_eq!(failed("{\"code\":\"200\"}"), "智能转写入口缺少认证地址");
    assert_eq!(failed("{\"code\":\"200\",\"data\":\"https://a\"}"), "智能转写入口缺少 signatureCode");
    let ok = parse_json("{\"success\":true,\"k\":\"v\",\"e\":\"\"}").unwrap();
    assert!(require_success(&ok, "m").is_ok());
    assert_eq!(required_str(&ok, "k", "m").unwrap(), "v");
    assert_eq!(required_str(&ok, "e", "m").unwrap_err(), "m");
    assert_eq!(require_success(&Json::Null, "m").unwrap_err(), "m");
    assert_eq!(transport_error(&TransportFailure::Timeout, "上传"), "上传超时(60 秒)，请稍后重试");
    assert_eq!(
        transport_error(&TransportFailure::NoConnection, "上传"),
        "上传无法连接智能转写服务，请检查网络"
    );
    assert_eq!(status_error("上传", 502), "上传失败，HTTP 状态码 502");
    assert_eq!(reset_yuandian_credits().unwrap_err(), "该功能仅在作者自用版提供");
    assert_eq!(telemetry_get("b", "k", "p", 0, 1).unwrap_err(), "该功能仅在作者自用版提供");
    assert!(matches!(retry_entry(1, "x"), EntryRetry::Again(1)));
    assert!(matches!(retry_entry(2, "x"), EntryRetry::GiveUp(m) if m.ends_with(": x")));
}
