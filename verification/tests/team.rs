use caseboard::case_files::Case;
use caseboard::json::parse_json;
use caseboard::team::edits::{merge_edits, EditMark};
use caseboard::team::http::{
    claimed_auth, closed_early, endpoint, find_subslice, http_reply, judge_request, parse_head,
    Endpoint, Verdict,
};
use caseboard::team::members::{
    check_exchange, check_join, check_leader, discover_teams, find_leader, is_teammate, join_error,
    join_request, joined_identity, judge_roster, note_peer, service_host, JoinRequest, PeerAddr,
    Roster, RosterMember, RosterVerdict, SyncReport, TeamIdentity,
};
use caseboard::team::merge::{
    check_exchange_reply, merge_snapshots, next_own_seq, should_replace, takes_edit,
    SnapshotEnvelope, TeamEdit,
};
use caseboard::team::snapshot::{
    build_parties, find_latest, list_dates, parse_key_dates, parse_name_list, show_dates,
    snapshot_case_from, SnapshotDate,
};

fn request(text: &str) -> Vec<u8> {
    text.as_bytes().to_vec()
}

#[test]
fn requests_are_read_when_they_are_whole() {
    let full = "POST /exchange HTTP/1.1\r\nX-Team-Auth: abc\r\nContent-Length: 5\r\n\r\nhello";
    for cut in 0..full.len() {
        match judge_request(&request(&full[..cut])) {
            Verdict::More => {}
            _ => panic!("judged after {} bytes", cut),
        }
    }
    match judge_request(&request(&format!("{}more", full))) {
        Verdict::Done(r) => {
            assert_eq!(r.path, "/exchange");
            assert_eq!(r.body, b"hello");
        }
        _ => panic!("not whole"),
    }
}

#[test]
fn bad_requests_are_refused() {
    let refused = |text: &str| match judge_request(&request(text)) {
        Verdict::Refuse(m) => m,
        _ => panic!("not refused"),
    };
    assert_eq!(refused("GET / HTTP/1.1\r\nContent-Length: 1\r\n\r\n"), "只支持 POST");
    assert_eq!(refused("POST / HTTP/1.1\r\n\r\n"), "缺 Content-Length");
    assert_eq!(refused("POST / HTTP/1.1\r\nContent-Length: x\r\n\r\n"), "缺 Content-Length");
    assert_eq!(
        refused("POST / HTTP/1.1\r\nContent-Length: 4194305\r\n\r\n"),
        "body 过大"
    );
    assert_eq!(refused(&"a".repeat(65_537)), "头部过大");
    assert_eq!(closed_early(&request("POST / HTTP/1.1\r\n")), "连接提前关闭");
    assert_eq!(
        closed_early(&request("POST / HTTP/1.1\r\nContent-Length: 9\r\n\r\nabc")),
        "body 不完整"
    );
}

#[test]
fn bytes_that_are_no_text_stand_in_a_head() {
    let mut bytes = b"POST /join HTTP/1.1\r\nX: \xff\r\ncontent-length: 0\r\n\r\n".to_vec();
    match judge_request(&bytes) {
        Verdict::Done(r) => {
            assert_eq!(r.path, "/join");
            let x = r.headers.iter().find(|h| h.0 == "x").unwrap();
            assert_eq!(x.1, "\u{fffd}");
        }
        _ => panic!("not read"),
    }
    bytes.truncate(3);
    assert!(matches!(judge_request(&bytes), Verdict::More));
}

#[test]
fn heads_are_parsed() {
    match parse_head("POST /join HTTP/1.1\nA: b:c\n Content-Length : 12 \nnothing") {
        Ok(h) => {
            assert_eq!(h.path, "/join");
            assert_eq!(h.length, 12);
            assert_eq!(h.headers[0], ("a".to_string(), "b:c".to_string()));
        }
        Err(e) => panic!("{}", e),
    }
    assert_eq!(find_subslice(b"abcabc", b"ca"), Some(2));
    assert_eq!(find_subslice(b"abc", b"x"), None);
    assert!(matches!(endpoint("/exchange"), Endpoint::Exchange));
    assert!(matches!(endpoint("/join"), Endpoint::Join));
    assert!(matches!(endpoint("/"), Endpoint::Unknown));
}

#[test]
fn replies_carry_their_length() {
    let r = http_reply(200, "{\"甲\":1}", &None);
    assert_eq!(
        r,
        "HTTP/1.1 200 OK\r\nContent-Type: application/json\r\nContent-Length: 9\r\nConnection: close\r\n\r\n{\"甲\":1}"
    );
    let r = http_reply(403, "", &Some("mac".into()));
    assert!(r.starts_with("HTTP/1.1 403 Forbidden\r\n"));
    assert!(r.contains(": mac\r\n"));
    assert!(http_reply(500, "", &None).starts_with("HTTP/1.1 500 Error\r\n"));
}

fn identity(role: &str) -> TeamIdentity {
    TeamIdentity {
        team_id: "t1".into(),
        team_name: "团队".into(),
        team_secret: "s".into(),
        member_id: "m1".into(),
        my_name: "甲".into(),
        role: role.into(),
        pairing_code: Some("1234".into()),
    }
}

#[test]
fn strangers_are_turned_away() {
    let team = Some("t1".to_string());
    let own = Some("t1".to_string());
    let refused = |r: Result<(), caseboard::team::members::Refusal>| match r {
        Err(e) => (e.status, e.body),
        Ok(_) => panic!("let in"),
    };
    assert_eq!(refused(check_exchange(false, &team, "a", "a", &own)).0, 403);
    assert_eq!(refused(check_exchange(true, &None, "a", "a", &own)).1, "{\"error\":\"not in team\"}");
    assert_eq!(refused(check_exchange(true, &team, "a", "b", &own)).1, "{\"error\":\"auth failed\"}");
    assert_eq!(refused(check_exchange(true, &team, "a", "a", &None)).0, 400);
    assert_eq!(
        refused(check_exchange(true, &team, "a", "a", &Some("t2".into()))).1,
        "{\"error\":\"team mismatch\"}"
    );
    assert!(check_exchange(true, &team, "a", "a", &own).is_ok());
}

#[test]
fn joining_takes_a_leader_and_the_code() {
    let join = |code: &str| {
        Some(JoinRequest {
            team_id: "t1".into(),
            code: code.into(),
            member_id: "m2".into(),
            name: "乙".into(),
        })
    };
    assert!(check_join(true, &Some(identity("leader")), &join("1234")).is_ok());
    assert!(check_join(true, &Some(identity("leader")), &join("9999")).is_err());
    assert!(check_join(true, &Some(identity("member")), &join("1234")).is_err());
    assert!(check_join(true, &None, &join("1234")).is_err());
    assert!(check_join(true, &Some(identity("leader")), &None).is_err());
    assert!(check_leader(&identity("leader")).is_ok());
    assert!(check_leader(&identity("member")).is_err());
}

fn roster() -> Roster {
    Roster {
        team_id: "t1".into(),
        team_name: "团队".into(),
        seq: 3,
        updated_at: "old".into(),
        members: vec![RosterMember {
            member_id: "m1".into(),
            name: "甲".into(),
            role: "leader".into(),
            view: None,
            edit: Vec::new(),
        }],
    }
}

#[test]
fn members_join_once() {
    let mut r = roster();
    r.welcome("m2", "乙");
    assert_eq!(r.members.len(), 2);
    assert_eq!(r.find("m2"), Some(1));
    r.welcome("m2", "乙二");
    assert_eq!(r.members.len(), 2);
    assert_eq!(r.members[1].name, "乙二");
    assert_eq!(r.members[0].name, "甲");
    r.advance("now");
    assert_eq!(r.seq, 4);
    assert_eq!(r.updated_at, "now");
    assert_eq!(r.find("m9"), None);
}

#[test]
fn newer_rosters_are_taken() {
    assert!(matches!(judge_roster(Some(2), Some(2), true), RosterVerdict::Keep));
    assert!(matches!(judge_roster(Some(3), Some(2), true), RosterVerdict::Take { removed: false }));
    assert!(matches!(judge_roster(Some(3), None, false), RosterVerdict::Take { removed: true }));
    assert!(matches!(judge_roster(None, Some(2), true), RosterVerdict::Keep));
}

fn peer(member: &str, team: &str, role: &str) -> PeerAddr {
    PeerAddr {
        member_id: member.into(),
        role: role.into(),
        team_id: team.into(),
        team_name: format!("名{}", team),
        ip: "10.0.0.1".into(),
        port: 1,
    }
}

#[test]
fn peers_are_noted_once_and_grouped() {
    let mut peers = Vec::new();
    note_peer(&mut peers, peer("m1", "t2", "member"));
    note_peer(&mut peers, peer("m2", "t1", "leader"));
    note_peer(&mut peers, peer("m1", "t2", "member"));
    note_peer(&mut peers, peer("m3", "t1", "member"));
    assert_eq!(peers.len(), 3);
    let teams = discover_teams(&peers);
    assert_eq!(teams.len(), 2);
    assert_eq!(teams[0].team_id, "t1");
    assert!(teams[0].leader_online);
    assert_eq!(teams[0].online_members, 2);
    assert!(!teams[1].leader_online);
    assert_eq!(find_leader(&peers, "t1").unwrap(), 1);
    assert!(find_leader(&peers, "t2").is_err());
    assert!(is_teammate(&peer("m2", "t1", "member"), &identity("leader")));
    assert!(!is_teammate(&peer("m1", "t1", "member"), &identity("leader")));
    assert!(!is_teammate(&peer("m2", "t2", "member"), &identity("leader")));
}

#[test]
fn rounds_are_summed_up() {
    let mut r = SyncReport::begin(2);
    r.take("m2", Ok(3));
    r.take("m3", Err("拒绝".into()));
    assert_eq!((r.peers_found, r.peers_synced, r.snapshots_merged), (2, 1, 3));
    assert_eq!(r.errors.len(), 1);
    assert!(r.errors[0].contains("拒绝"));
}

#[test]
fn joining_a_team() {
    let q = join_request("t1", " 1234 ", "m2", " 乙 ");
    assert_eq!(q.team_id, "t1");
    assert_eq!(q.code, "1234");
    let id = joined_identity(&roster(), "secret", "m2", "乙");
    assert_eq!(id.role, "member");
    assert_eq!(id.team_secret, "secret");
    assert!(id.pairing_code.is_none());
    let reply = parse_json("{\"error\":\"配对码不对\"}");
    assert!(join_error(&reply, "403").contains("配对码不对"));
    assert!(!join_error(&None, "403").is_empty());
    assert_eq!(service_host("12345678-90"), "caseboard-12345678.local.");
    assert_eq!(service_host("m1"), "caseboard-m1.local.");
}

#[test]
fn claimed_digests_are_read() {
    let full = http_request_with_auth("digest");
    match judge_request(&full) {
        Verdict::Done(r) => assert_eq!(claimed_auth(&r), "digest"),
        _ => panic!("not whole"),
    }
    let none = request("POST /exchange HTTP/1.1\r\nContent-Length: 0\r\n\r\n");
    match judge_request(&none) {
        Verdict::Done(r) => assert_eq!(claimed_auth(&r), ""),
        _ => panic!("not whole"),
    }
}

fn http_request_with_auth(mac: &str) -> Vec<u8> {
    let reply = http_reply(200, "", &Some(mac.into()));
    let line = reply.lines().find(|l| l.ends_with(mac)).unwrap().to_string();
    request(&format!("POST /exchange HTTP/1.1\r\n{}\r\nContent-Length: 0\r\n\r\n", line))
}

fn envelope(member: &str, seq: i64) -> SnapshotEnvelope {
    SnapshotEnvelope {
        member_id: member.into(),
        name: "n".into(),
        seq,
        updated_at: "u".into(),
        payload: format!("{}-{}", member, seq),
    }
}

#[test]
fn newest_snapshots_stay() {
    assert!(should_replace(None, 1));
    assert!(should_replace(Some(1), 2));
    assert!(!should_replace(Some(2), 2));
    let mut here = vec![envelope("a", 5)];
    let incoming = vec![envelope("a", 4), envelope("b", 1), envelope("b", 3), envelope("a", 6)];
    assert_eq!(merge_snapshots(&mut here, &incoming), 3);
    assert_eq!(here.len(), 2);
    assert_eq!(here[0].payload, "a-6");
    assert_eq!(here[1].payload, "b-3");
    assert_eq!(merge_snapshots(&mut here, &incoming), 0);
    assert_eq!(next_own_seq(None), 1);
    assert_eq!(next_own_seq(Some(7)), 8);
}

fn edit(field: &str, status: &str) -> TeamEdit {
    TeamEdit {
        id: "e".into(),
        team_id: "t1".into(),
        editor_id: "m2".into(),
        editor_name: "乙".into(),
        target_member_id: "m1".into(),
        case_id: "c".into(),
        case_name: "案".into(),
        field: field.into(),
        value: "v".into(),
        prev_value: None,
        status: status.into(),
        created_at: "t".into(),
        applied_at: None,
    }
}

#[test]
fn only_notes_take_effect() {
    let mut e = edit("note", "pending");
    assert!(e.settle(true, false, "now"));
    assert_eq!(e.status, "applied");
    assert_eq!(e.applied_at.as_deref(), Some("now"));
    let mut e = edit("note", "pending");
    assert!(!e.settle(false, true, "now"));
    assert_eq!(e.status, "rejected");
    let mut e = edit("workflow_status", "pending");
    assert!(!e.settle(true, true, "now"));
    assert_eq!(e.status, "rejected");
}

#[test]
fn only_the_owner_takes_an_edit_back() {
    let mut e = edit("note", "applied");
    assert!(e.revert("m9").is_err());
    assert_eq!(e.status, "applied");
    assert!(e.revert("m1").is_ok());
    assert_eq!(e.status, "reverted");
    assert!(e.revert("m1").is_err());
}

#[test]
fn edits_come_in_by_rank() {
    assert!(takes_edit("note", 1, None));
    assert!(takes_edit("note", 2, Some(1)));
    assert!(!takes_edit("note", 1, Some(1)));
}

#[test]
fn replies_to_an_exchange_are_checked() {
    assert!(check_exchange_reply(true, "200", "{}", "a", "a").is_ok());
    assert!(check_exchange_reply(true, "200", "{}", "a", "b").is_err());
    assert!(check_exchange_reply(false, "403", "no", "a", "a").is_err());
}

fn case() -> Case {
    Case {
        id: "c1".into(),
        name: "张三诉李四".into(),
        case_type: "诉讼".into(),
        source_folder: "/secret/folder".into(),
        case_no: Some("旧号".into()),
        court: None,
        cause: None,
        stage: Some("一审".into()),
        workflow_status: None,
        case_status: "open".into(),
        case_summary: None,
        agg_case_no: None,
        agg_court: Some("某法院".into()),
        agg_cause: None,
        agg_filed_at: None,
        agg_resolution: None,
        agg_plaintiffs: Some("[\"张三\", {\"name\":\"王五\"}, \" \", 7, \"a\", \"b\", \"c\"]".into()),
        agg_defendants: Some("[]".into()),
        agg_third_parties: Some("not json".into()),
        agg_key_dates: Some(
            "[{\"date\":\" 2026-03-01 \",\"event\":\"立案\"},{\"date\":\"2026-01-01\"},{\"event\":\"x\"},{\"date\":\"2026-03-01\",\"event\":\"立案\"}]"
                .into(),
        ),
        agg_fees: None,
        agg_party_contacts: Some("[{\"phone\":\"123\"}]".into()),
        agg_court_contacts: None,
        case_report_path: Some("/secret/report.md".into()),
        risk_assessment_path: None,
        deep_dive_report_path: None,
        full_report_path: None,
        next_milestone_at: Some("2026-09-01".into()),
        next_milestone_type: Some("开庭".into()),
        updated_at: "2026-06-02T10:00:00".into(),
    }
}

#[test]
fn snapshots_of_cases() {
    let s = snapshot_case_from(&case(), "2026-06-15");
    assert_eq!(s.case_no.as_deref(), Some("旧号"));
    assert_eq!(s.parties.as_deref(), Some("张三、王五、a、b vs —"));
    assert_eq!(s.plaintiffs, vec!["张三", "王五", "a", "b"]);
    assert!(s.third_parties.is_empty());
    assert_eq!(s.stage.as_deref(), Some("一审"));
    assert_eq!(s.court.as_deref(), Some("某法院"));
    let dates: Vec<(&str, &str)> =
        s.key_dates.iter().map(|d| (d.date.as_str(), d.event.as_str())).collect();
    assert_eq!(
        dates,
        vec![("2026-01-01", "关键日期"), ("2026-03-01", "立案"), ("2026-09-01", "开庭")]
    );
    assert_eq!(s.latest_event.unwrap().event, "立案");
    assert_eq!(s.last_activity.as_deref(), Some("更新于 2026-06-02"));
}

#[test]
fn snapshots_do_not_depend_on_papers() {
    let a = snapshot_case_from(&case(), "2026-06-15");
    let mut other = case();
    other.source_folder = "/elsewhere".into();
    other.case_report_path = None;
    other.agg_party_contacts = None;
    let b = snapshot_case_from(&other, "2026-06-15");
    assert_eq!(a.name, b.name);
    assert_eq!(a.parties, b.parties);
    assert_eq!(a.key_dates.len(), b.key_dates.len());
    assert_eq!(a.summary, b.summary);
}

#[test]
fn lists_of_names_and_dates() {
    assert!(parse_name_list(&None).is_empty());
    assert!(parse_name_list(&Some("{\"name\":\"x\"}".into())).is_empty());
    assert!(parse_key_dates(&Some("[1]".into())).is_empty());
    assert_eq!(build_parties(&Vec::new(), &Vec::new()), None);
    assert_eq!(
        build_parties(&Vec::new(), &vec!["乙".to_string()]).as_deref(),
        Some("— vs 乙")
    );
    assert!(list_dates(&parse_json("[{\"date\":\"  \"}]")).is_empty());
}

#[test]
fn dates_are_cut_at_twenty() {
    let d = |date: String| SnapshotDate { date, event: "e".into() };
    let many: Vec<SnapshotDate> = (0..30).rev().map(|i| d(format!("2026-01-{:02}", i))).collect();
    let shown = show_dates(&many);
    assert_eq!(shown.len(), 20);
    assert_eq!(shown[0].date, "2026-01-00");
    assert_eq!(shown[19].date, "2026-01-19");
    let twice = vec![d("b".into()), d("a".into()), d("b".into())];
    assert_eq!(show_dates(&twice).len(), 2);
    let odd = vec![d("2026-1-1".into()), d("二〇二六年一月".into())];
    assert!(find_latest(&odd, "2026-06-15").is_none());
    let past = vec![d("2026-06-15T09:00".into()), d("2026-06-16".into())];
    assert_eq!(find_latest(&past, "2026-06-15").unwrap().date, "2026-06-15T09:00");
}

fn mark(id: &str, team: &str, field: &str, rank: i64) -> EditMark {
    EditMark { id: id.into(), team_id: team.into(), field: field.into(), rank }
}

#[test]
fn edits_only_get_further() {
    let mut here = vec![mark("a", "t1", "note", 2)];
    let incoming = vec![
        mark("a", "t1", "note", 1),
        mark("b", "t1", "note", 0),
        mark("b", "t1", "note", 3),
        mark("c", "t2", "note", 9),
        mark("d", "t1", "workflow_status", 9),
        mark("a", "t1", "note", 3),
    ];
    let taken = merge_edits(&mut here, "t1", &incoming);
    assert_eq!(taken, vec![false, true, true, false, false, true]);
    let ranks: Vec<(&str, i64)> = here.iter().map(|m| (m.id.as_str(), m.rank)).collect();
    assert_eq!(ranks, vec![("a", 3), ("b", 3)]);
    assert_eq!(merge_edits(&mut here, "t1", &incoming), vec![false; 6]);
    let mut here = vec![mark("a", "t0", "workflow_status", 1)];
    assert_eq!(merge_edits(&mut here, "t1", &vec![mark("a", "t1", "note", 2)]), vec![true]);
    assert_eq!(
        (here[0].team_id.as_str(), here[0].field.as_str(), here[0].rank),
        ("t0", "workflow_status", 2)
    );
}
