//! The script that works at a site of an office system.
//!
//! The script prints its progress line by line. `SidecarRun` takes the lines
//! and, at the end, says what came of the session.
use vstd::prelude::*;
use crate::court_sms::{signed_decimal, signed_text};
use crate::db::oa::{OACredential, OAImportReport};
use crate::json::{
    ascending, compact, compact_json, items_model, json_model, lemma_members_model, members_model,
    optional, set_member, setting_changes_one_member, settle, settled_items,
    the_last_member_set_counts, with_member, with_members, Json, JsonModel,
};
use crate::text::{
    blank, cat2, cat3, chars_of, decimal, decimal_text, is_blank, join, join_texts, same_text,
    texts,
};
use crate::lines::{find_last_lines, last_lines};
use crate::wechat_evidence::shown_status;

verus! {

/// One line of progress.
pub struct SidecarProgress {
    pub event: String,
    pub pct: Option<i64>,
    pub message: Option<String>,
    pub data: Option<Json>,
}

/// The arguments with which the script is started.
pub open spec fn command_args(
    script: Seq<char>,
    action: Seq<char>,
    session_id: Seq<char>,
    args: Seq<Seq<char>>,
) -> Seq<Seq<char>> {
    seq![script, "--action"@, action, "--session-id"@, session_id] + args
}

/// The arguments with which the script is started.
pub fn sidecar_command(script: &str, action: &str, session_id: &str, args: Vec<String>) -> (r: Vec<
    String,
>)
    ensures
        texts(r@) == command_args(script@, action@, session_id@, texts(args@)),
{
    let mut r: Vec<String> = Vec::new();
    r.push(String::from_str(script));
    r.push(String::from_str("--action"));
    r.push(String::from_str(action));
    r.push(String::from_str("--session-id"));
    r.push(String::from_str(session_id));
    let ghost head = texts(r@);
    assert(head =~= seq![script@, "--action"@, action@, "--session-id"@, session_id@]);
    let ghost tail = texts(args@);
    let mut rest = args;
    r.append(&mut rest);
    assert(texts(r@) =~= head + tail);
    r
}

/// The arguments for logging in.
pub open spec fn login_args(
    login_url: Seq<char>,
    account: Seq<char>,
    password: Seq<char>,
    oa_type: Seq<char>,
) -> Seq<Seq<char>> {
    seq![
        "--site-url"@,
        login_url,
        "--account"@,
        account,
        "--password"@,
        password,
        "--oa-type"@,
        oa_type,
    ]
}

/// The arguments for logging in.
pub fn credential_args(login_url: &str, account: &str, password: &str, oa_type: &str) -> (r: Vec<
    String,
>)
    ensures
        texts(r@) == login_args(login_url@, account@, password@, oa_type@),
{
    let mut r: Vec<String> = Vec::new();
    r.push(String::from_str("--site-url"));
    r.push(String::from_str(login_url));
    r.push(String::from_str("--account"));
    r.push(String::from_str(account));
    r.push(String::from_str("--password"));
    r.push(String::from_str(password));
    r.push(String::from_str("--oa-type"));
    r.push(String::from_str(oa_type));
    assert(texts(r@) =~= login_args(login_url@, account@, password@, oa_type@));
    r
}

/// The number of the first login with an id; the number of logins if there is
/// none.
pub open spec fn credential_at(creds: Seq<OACredential>, id: Seq<char>, k: int) -> int
    decreases creds.len() - k,
{
    if k >= creds.len() || creds[k].id@ == id {
        k
    } else {
        credential_at(creds, id, k + 1)
    }
}

/// The number of the login with an id.
pub fn find_credential(creds: &Vec<OACredential>, id: &str) -> (r: Result<usize, String>)
    ensures
        if credential_at(creds@, id@, 0) < creds@.len() {
            r matches Ok(i) && i == credential_at(creds@, id@, 0)
        } else {
            r matches Err(e) && e@ == "凭证不存在"@
        },
{
    let n: usize = creds.len();
    let mut k: usize = 0;
    while k < n
        invariant
            k <= n,
            n == creds@.len(),
            credential_at(creds@, id@, 0) == credential_at(creds@, id@, k as int),
        decreases n - k,
    {
        if same_text(creds[k].id.as_str(), id) {
            return Ok(k);
        }
        k = k + 1;
    }
    Err(String::from_str("凭证不存在"))
}

/// The data of a case with the choices of the user in it.
pub open spec fn filing_data(case_data: JsonModel, options: Option<JsonModel>) -> JsonModel {
    match (case_data, options) {
        (JsonModel::Object(m), Some(JsonModel::Object(o))) => JsonModel::Object(with_members(m, o)),
        _ => case_data,
    }
}

pub open spec fn json_option(v: Option<Json>) -> Option<JsonModel> {
    match v {
        Some(j) => Some(j@),
        None => None,
    }
}

/// The data of a case with the choices of the user in it, as JSON. Choices that
/// are no object change nothing.
pub fn filing_text(case_data: Json, options: Option<Json>) -> (r: Result<String, String>)
    ensures
        match compact(filing_data(case_data@, json_option(options))) {
            Ok(t) => r matches Ok(s) && s@ == t,
            Err(e) => r matches Err(m) && m@ == "案件数据序列化失败: "@ + e,
        },
{
    let ghost data0 = case_data@;
    let merged = match (case_data, options) {
        (Json::Object(m), Some(Json::Object(o))) => {
            let ghost base = members_model(m@, m@.len());
            let ghost all = members_model(o@, o@.len());
            proof {
                lemma_members_model(o@, o@.len());
            }
            let mut members = m;
            let mut rest = o;
            let mut turned: Vec<(String, Json)> = Vec::new();
            let ghost given = rest@;
            while rest.len() > 0
                invariant
                    turned@.len() + rest@.len() == given.len(),
                    forall|k: int| 0 <= k < rest@.len() ==> rest@[k] == given[k],
                    forall|k: int|
                        0 <= k < turned@.len() ==> turned@[k] == given[given.len() - 1 - k],
                decreases rest@.len(),
            {
                let x = rest.pop().unwrap();
                turned.push(x);
            }
            let ghost mut done: int = 0;
            assert(all.subrange(0, 0) =~= Seq::<(Seq<char>, JsonModel)>::empty());
            while turned.len() > 0
                invariant
                    0 <= done <= given.len(),
                    done + turned@.len() == given.len(),
                    all == members_model(given, given.len()),
                    all.len() == given.len(),
                    forall|k: int|
                        0 <= k < given.len() ==> #[trigger] all[k] == (
                            given[k].0@,
                            json_model(given[k].1),
                        ),
                    forall|k: int|
                        0 <= k < turned@.len() ==> turned@[k] == given[given.len() - 1 - k],
                    members_model(members@, members@.len()) == with_members(
                        base,
                        all.subrange(0, done),
                    ),
                decreases turned@.len(),
            {
                assert(turned@.last() == given[done]);
                let (key, value) = turned.pop().unwrap();
                assert(all[done] == (key@, value@));
                assert(all.subrange(0, done + 1).drop_last() =~= all.subrange(0, done));
                set_member(&mut members, key, value);
                proof {
                    done = done + 1;
                }
            }
            assert(all.subrange(0, done) =~= all);
            Json::Object(members)
        },
        (data, _) => data,
    };
    match compact_json(&merged) {
        Ok(t) => Ok(t),
        Err(e) => Err(cat2("案件数据序列化失败: ", e.as_str())),
    }
}

/// The arguments of a task: those for logging in, the case if there is one, and
/// its data if it is to be filed.
pub open spec fn task_args(
    login: Seq<Seq<char>>,
    case_id: Option<Seq<char>>,
    case_data: Option<Seq<char>>,
) -> Seq<Seq<char>> {
    match case_id {
        None => login,
        Some(id) => match case_data {
            None => login + seq!["--case-id"@, id],
            Some(d) => login + seq!["--case-id"@, id, "--case-data"@, d],
        },
    }
}

/// The arguments of a task.
pub fn make_task_args(login: Vec<String>, case_id: &Option<String>, case_data: Option<String>) -> (r:
    Vec<String>)
    ensures
        texts(r@) == task_args(texts(login@), optional(*case_id), optional(case_data)),
{
    let ghost before = texts(login@);
    let mut r = login;
    if let Some(id) = case_id {
        r.push(String::from_str("--case-id"));
        r.push(id.clone());
        if let Some(d) = case_data {
            r.push(String::from_str("--case-data"));
            r.push(d);
            assert(texts(r@) =~= before + seq!["--case-id"@, id@, "--case-data"@, d@]);
        } else {
            assert(texts(r@) =~= before + seq!["--case-id"@, id@]);
        }
    }
    r
}

/// Whether a task needs the data of its case.
pub fn needs_case_data(action: &str, case_id: &Option<String>) -> (r: bool)
    ensures
        r == (action@ == "filing"@ && *case_id is Some),
{
    same_text(action, "filing") && case_id.is_some()
}

/// What looking for a case gave.
pub enum CaseLookup {
    Found,
    Missing,
    Failed(String),
}

/// What is said of a case that cannot be filed.
pub fn check_case(lookup: &CaseLookup) -> (r: Result<(), String>)
    ensures
        match lookup {
            CaseLookup::Found => r is Ok,
            CaseLookup::Missing => r matches Err(e) && e@ == "本机案件不存在"@,
            CaseLookup::Failed(m) => r matches Err(e) && e@ == "读取案件失败: "@ + m@,
        },
{
    match lookup {
        CaseLookup::Found => Ok(()),
        CaseLookup::Missing => Err(String::from_str("本机案件不存在")),
        CaseLookup::Failed(m) => Err(cat2("读取案件失败: ", m.as_str())),
    }
}

/// What is said of an import.
pub fn import_message(report: &OAImportReport) -> (r: String)
    ensures
        r@ == "已导入 OA 案件: 新增 "@ + decimal(report.inserted as nat) + " 条, 更新 "@ + decimal(
            report.updated as nat,
        ) + " 条, 跳过 "@ + decimal(report.skipped as nat) + " 条"@,
{
    let a = decimal_text(report.inserted as u128);
    let b = decimal_text(report.updated as u128);
    let c = decimal_text(report.skipped as u128);
    let mut out = cat3("已导入 OA 案件: 新增 ", a.as_str(), " 条, 更新 ");
    out.append(b.as_str());
    out.append(" 条, 跳过 ");
    out.append(c.as_str());
    out.append(" 条");
    out
}

/// What is said of an import that could not be kept.
pub fn import_failure(error: &str) -> (r: String)
    ensures
        r@ == "OA 案件已拉取,但写入本地失败: "@ + error@,
{
    cat2("OA 案件已拉取,但写入本地失败: ", error)
}

/// A run of the script: what it handed over so far.
pub struct SidecarRun {
    pub result: Option<Json>,
}

/// What to do about a line of progress.
pub enum LineOutcome {
    /// Record the progress and go on.
    Progress { pct: i64, msg: String },
    /// Record the progress and end the session with an error, which is the
    /// message.
    Failed { pct: i64, msg: String },
}

/// What a line of progress leaves handed over.
pub open spec fn handed_over(
    before: Option<JsonModel>,
    line: SidecarProgress,
) -> Option<JsonModel> {
    if line.event@ == "completed"@ || line.event@ == "done"@ {
        json_option(line.data)
    } else {
        before
    }
}

/// The share of the work that a line names; none is nothing.
pub open spec fn share_of(line: SidecarProgress) -> i64 {
    match line.pct {
        Some(p) => p,
        None => 0,
    }
}

/// The message of a line; none is empty.
pub open spec fn message_of(line: SidecarProgress) -> Seq<char> {
    match line.message {
        Some(m) => m@,
        None => Seq::empty(),
    }
}

impl SidecarRun {
    /// A run that has handed over nothing.
    pub fn begin() -> (r: Self)
        ensures
            r.result is None,
    {
        SidecarRun { result: None }
    }

    /// Takes a line of progress.
    pub fn take_line(&mut self, line: SidecarProgress) -> (r: LineOutcome)
        ensures
            json_option(final(self).result) == handed_over(json_option(old(self).result), line),
            if line.event@ == "failed"@ {
                r matches LineOutcome::Failed { pct, msg } && pct == share_of(line) && msg@
                    == message_of(line)
            } else {
                r matches LineOutcome::Progress { pct, msg } && pct == share_of(line) && msg@
                    == message_of(line)
            },
    {
        let pct: i64 = match line.pct {
            Some(p) => p,
            None => 0,
        };
        let msg = match line.message {
            Some(m) => m,
            None => {
                let m = String::new();
                assert(m@ =~= Seq::empty());
                m
            },
        };
        if same_text(line.event.as_str(), "completed") || same_text(line.event.as_str(), "done") {
            self.result = line.data;
        }
        if same_text(line.event.as_str(), "failed") {
            LineOutcome::Failed { pct, msg }
        } else {
            LineOutcome::Progress { pct, msg }
        }
    }
}

/// What is said of a script that ended with an error: its exit status, and the
/// last twenty lines of its error output if they say anything.
pub open spec fn exit_error(code: Option<i32>, stderr: Seq<char>) -> Seq<char> {
    let tail = join(last_lines(stderr, 20), "\n"@);
    if is_blank(tail) {
        "OA 脚本退出码: "@ + shown_status(code)
    } else {
        "OA 脚本退出码: "@ + shown_status(code) + "\n"@ + tail
    }
}

/// What is said of a script that ended with an error.
pub fn exit_message(code: Option<i32>, stderr: &str) -> (r: String)
    ensures
        r@ == exit_error(code, stderr@),
{
    let lines = find_last_lines(stderr, 20);
    let tail = join_texts(&lines, "\n");
    let shown = match code {
        Some(n) => {
            let d = signed_text(n as i64);
            cat3("Some(", d.as_str(), ")")
        },
        None => String::from_str("None"),
    };
    let mut out = cat2("OA 脚本退出码: ", shown.as_str());
    if !blank(tail.as_str()) {
        out.append("\n");
        out.append(tail.as_str());
    }
    out
}

/// What a session came to.
pub struct SessionResult {
    /// What is kept of it, as JSON.
    pub kept: Option<String>,
    /// What was handed over, or `null`.
    pub value: Json,
}

/// What is kept of a session: what was handed over, as JSON, if anything was.
pub open spec fn kept_text(result: Option<JsonModel>) -> Option<Seq<char>> {
    match result {
        Some(v) => match compact(v) {
            Ok(t) => Some(t),
            Err(_) => None,
        },
        None => None,
    }
}

/// What a session comes to once the script has ended: an error if the script
/// ended with one, otherwise what it handed over, or `null`.
pub fn session_result(run: SidecarRun, success: bool, code: Option<i32>, stderr: &str) -> (r: Result<
    SessionResult,
    String,
>)
    ensures
        if success {
            r matches Ok(s) && optional(s.kept) == kept_text(json_option(run.result)) && s.value@
                == (match run.result {
                Some(v) => v@,
                None => JsonModel::Null,
            })
        } else {
            r matches Err(e) && e@ == exit_error(code, stderr@)
        },
{
    if success {
        match run.result {
            Some(value) => {
                let kept = compact_json(&value).ok();
                Ok(SessionResult { kept, value })
            },
            None => Ok(SessionResult { kept: None, value: Json::Null }),
        }
    } else {
        Err(exit_message(code, stderr))
    }
}

/// The cases that a session offers: those under `cases` if it imports cases, and
/// nothing if it does something else.
pub open spec fn cases_offered(action: Seq<char>, result: JsonModel) -> Option<Seq<JsonModel>> {
    if action != "case_import"@ {
        None
    } else {
        match result.member("cases"@) {
            Some(JsonModel::Array(a)) => Some(settled_items(a, a.len())),
            _ => Some(Seq::empty()),
        }
    }
}

pub open spec fn items_option(v: Option<Vec<Json>>) -> Option<Seq<JsonModel>> {
    match v {
        Some(a) => Some(items_model(a@, a@.len())),
        None => None,
    }
}

/// The cases that a session offers for import; nothing if it does not import.
pub fn offered_cases(action: &str, result: &Json) -> (r: Option<Vec<Json>>)
    ensures
        items_option(r) == cases_offered(action@, result@),
{
    if !same_text(action, "case_import") {
        return None;
    }
    match result.get("cases") {
        Some(list) => match settle(list) {
            Json::Array(a) => Some(a),
            _ => Some(Vec::new()),
        },
        None => Some(Vec::new()),
    }
}

/// What a session handed over, with the report of the import in it.
pub open spec fn reported(result: JsonModel, report: JsonModel) -> JsonModel {
    match result {
        JsonModel::Object(m) => JsonModel::Object(with_member(m, "import_report"@, report)),
        _ => result,
    }
}

/// Adds the report of an import to what a session handed over. What is no object
/// stays as it is.
pub fn with_report(result: Json, report: Json) -> (r: Json)
    ensures
        r@ == reported(result@, report@),
{
    match result {
        Json::Object(m) => {
            let mut members = m;
            set_member(&mut members, String::from_str("import_report"), report);
            Json::Object(members)
        },
        other => other,
    }
}

/// The kind of session, and the action of the script, for an approval or a
/// refusal.
pub fn approval_action(approved: bool) -> (r: &'static str)
    ensures
        r@ == if approved {
            "approval_approve"@
        } else {
            "approval_reject"@
        },
{
    if approved {
        "approval_approve"
    } else {
        "approval_reject"
    }
}

/// The further arguments for checking a case before it is approved.
pub fn check_args(lawcase_id: i64, options_json: &str) -> (r: Vec<String>)
    ensures
        texts(r@) == seq![
            "--lawcase-id"@,
            signed_decimal(lawcase_id as int),
            "--approval-options"@,
            options_json@,
        ],
{
    let mut r: Vec<String> = Vec::new();
    r.push(String::from_str("--lawcase-id"));
    r.push(signed_text(lawcase_id));
    r.push(String::from_str("--approval-options"));
    r.push(String::from_str(options_json));
    assert(texts(r@) =~= seq![
        "--lawcase-id"@,
        signed_decimal(lawcase_id as int),
        "--approval-options"@,
        options_json@,
    ]);
    r
}

/// The further arguments for watching what waits for approval.
pub fn monitor_args(options_json: &str, state_path: &str) -> (r: Vec<String>)
    ensures
        texts(r@) == seq![
            "--approval-options"@,
            options_json@,
            "--monitor-state-path"@,
            state_path@,
        ],
{
    let mut r: Vec<String> = Vec::new();
    r.push(String::from_str("--approval-options"));
    r.push(String::from_str(options_json));
    r.push(String::from_str("--monitor-state-path"));
    r.push(String::from_str(state_path));
    assert(texts(r@) =~= seq![
        "--approval-options"@,
        options_json@,
        "--monitor-state-path"@,
        state_path@,
    ]);
    r
}

/// The further arguments for an approval or a refusal.
pub fn approval_args(lawcase_id: i64, memo: &str, options_json: &str) -> (r: Vec<String>)
    ensures
        texts(r@) == seq![
            "--lawcase-id"@,
            signed_decimal(lawcase_id as int),
            "--memo"@,
            memo@,
            "--confirm"@,
            "--approval-options"@,
            options_json@,
        ],
{
    let mut r: Vec<String> = Vec::new();
    r.push(String::from_str("--lawcase-id"));
    r.push(signed_text(lawcase_id));
    r.push(String::from_str("--memo"));
    r.push(String::from_str(memo));
    r.push(String::from_str("--confirm"));
    r.push(String::from_str("--approval-options"));
    r.push(String::from_str(options_json));
    assert(texts(r@) =~= seq![
        "--lawcase-id"@,
        signed_decimal(lawcase_id as int),
        "--memo"@,
        memo@,
        "--confirm"@,
        "--approval-options"@,
        options_json@,
    ]);
    r
}

/// What came of asking the key chain of the system for a password.
pub enum KeychainReply {
    Failed { code: Option<i32>, stderr: String },
    Printed(String),
}

/// `s` without the line ends at its end.
pub open spec fn without_line_ends(s: Seq<char>) -> Seq<char>
    decreases s.len(),
{
    if s.len() > 0 && (s.last() == '\r' || s.last() == '\n') {
        without_line_ends(s.drop_last())
    } else {
        s
    }
}

/// The password that the key chain of the system printed.
pub fn keychain_password(reply: &KeychainReply) -> (r: Result<String, String>)
    ensures
        match reply {
            KeychainReply::Failed { code, stderr } => r matches Err(e) && e@ == if is_blank(
                stderr@,
            ) {
                "security 退出码 "@ + shown_status(*code)
            } else {
                crate::text::trim(stderr@)
            },
            KeychainReply::Printed(s) => if without_line_ends(s@).len() == 0 {
                r matches Err(e) && e@ == "钥匙串条目为空"@
            } else {
                r matches Ok(p) && p@ == without_line_ends(s@)
            },
        },
{
    match reply {
        KeychainReply::Failed { code, stderr } => {
            let t = crate::text::trim_text(stderr.as_str());
            if t.as_str().unicode_len() > 0 {
                return Err(t);
            }
            let shown = match code {
                Some(n) => {
                    let d = signed_text(*n as i64);
                    cat3("Some(", d.as_str(), ")")
                },
                None => String::from_str("None"),
            };
            Err(cat2("security 退出码 ", shown.as_str()))
        },
        KeychainReply::Printed(s) => {
            let cs = chars_of(s.as_str());
            let mut n: usize = cs.len();
            assert(cs@.subrange(0, n as int) =~= cs@);
            while n > 0 && (cs[n - 1] == '\r' || cs[n - 1] == '\n')
                invariant
                    n <= cs@.len(),
                    without_line_ends(cs@) == without_line_ends(cs@.subrange(0, n as int)),
                decreases n,
            {
                assert(cs@.subrange(0, n as int).drop_last() =~= cs@.subrange(0, n - 1));
                n = n - 1;
            }
            if n == 0 {
                assert(cs@.subrange(0, 0).len() == 0);
                return Err(String::from_str("钥匙串条目为空"));
            }
            let head = crate::text::copy_range(cs.as_slice(), 0, n);
            Ok(crate::text::string_of(head.as_slice()))
        },
    }
}

/// The script is told what to do and for which session, and then all else as it
/// stands.
pub proof fn scripts_are_told_action_and_session(
    script: Seq<char>,
    action: Seq<char>,
    session_id: Seq<char>,
    args: Seq<Seq<char>>,
)
    ensures
        ({
            let all = command_args(script, action, session_id, args);
            &&& all.len() == args.len() + 5
            &&& all[0] == script
            &&& all[1] == "--action"@ && all[2] == action
            &&& all[3] == "--session-id"@ && all[4] == session_id
            &&& args.is_suffix_of(all)
        }),
{
    let all = command_args(script, action, session_id, args);
    assert(all.subrange(all.len() - args.len(), all.len() as int) =~= args);
}

/// Behind each name of an argument for logging in stands its own value.
pub proof fn logins_are_not_mixed(
    login_url: Seq<char>,
    account: Seq<char>,
    password: Seq<char>,
    oa_type: Seq<char>,
)
    ensures
        ({
            let all = login_args(login_url, account, password, oa_type);
            &&& all.len() == 8
            &&& all[0] == "--site-url"@ && all[1] == login_url
            &&& all[2] == "--account"@ && all[3] == account
            &&& all[4] == "--password"@ && all[5] == password
            &&& all[6] == "--oa-type"@ && all[7] == oa_type
        }),
{
}

/// What is found by an identifier has it, and no login before it does. Without any
/// such login nothing is found.
pub proof fn logins_are_found_by_their_ids(creds: Seq<OACredential>, id: Seq<char>, k: int)
    requires
        0 <= k <= creds.len(),
    ensures
        k <= credential_at(creds, id, k) <= creds.len(),
        credential_at(creds, id, k) < creds.len() ==> creds[credential_at(creds, id, k)].id@ == id,
        forall|i: int| k <= i < credential_at(creds, id, k) ==> (#[trigger] creds[i]).id@ != id,
    decreases creds.len() - k,
{
    if k < creds.len() && creds[k].id@ != id {
        logins_are_found_by_their_ids(creds, id, k + 1);
    }
}

/// What the user chose for a filing stands in place of what the case says, and all
/// else that the case says stays.
pub proof fn choices_of_the_user_come_first(
    m: Seq<(Seq<char>, JsonModel)>,
    choices: Seq<(Seq<char>, JsonModel)>,
    key: Seq<char>,
    i: int,
)
    requires
        ascending(m),
    ensures
        ({
            let data = filing_data(JsonModel::Object(m), Some(JsonModel::Object(choices)));
            &&& 0 <= i < choices.len() && choices[i].0 == key && (forall|k: int|
                i < k < choices.len() ==> (#[trigger] choices[k]).0 != key) ==> data.member(key)
                == Some(choices[i].1)
            &&& (forall|k: int| 0 <= k < choices.len() ==> (#[trigger] choices[k]).0 != key)
                ==> data.member(key) == JsonModel::Object(m).member(key)
        }),
        filing_data(JsonModel::Object(m), None) == JsonModel::Object(m),
{
    the_last_member_set_counts(m, choices, key, i);
}

/// A task that is about a case names it, and only one that has data of a case hands
/// them over. The arguments for logging in come first.
pub proof fn tasks_name_their_case(
    login: Seq<Seq<char>>,
    case_id: Option<Seq<char>>,
    case_data: Option<Seq<char>>,
)
    ensures
        ({
            let all = task_args(login, case_id, case_data);
            let n = login.len() as int;
            &&& login.is_prefix_of(all)
            &&& case_id is None ==> all == login
            &&& case_id is Some ==> all[n] == "--case-id"@ && all[n + 1] == case_id->0
            &&& case_id is Some && case_data is None ==> all.len() == n + 2
            &&& case_id is Some && case_data is Some ==> all.len() == n + 4 && all[n + 2]
                == "--case-data"@ && all[n + 3] == case_data->0
        }),
{
    let all = task_args(login, case_id, case_data);
    assert(all.subrange(0, login.len() as int) =~= login);
}

/// Only a line that ends the work hands something over, and it replaces what was
/// handed over before.
pub proof fn only_the_end_hands_over(before: Option<JsonModel>, line: SidecarProgress)
    ensures
        line.event@ == "completed"@ ==> handed_over(before, line) == json_option(line.data),
        line.event@ == "done"@ ==> handed_over(before, line) == json_option(line.data),
        line.event@ != "completed"@ && line.event@ != "done"@ ==> handed_over(before, line)
            == before,
        line.pct is Some ==> share_of(line) == line.pct->0,
        line.pct is None ==> share_of(line) == 0,
        line.message is Some ==> message_of(line) == line.message->0@,
        line.message is None ==> message_of(line).len() == 0,
{
}

/// What is said of a script that failed ends in the last lines of what it said, and
/// names how it ended.
pub proof fn failures_say_the_last_lines(code: Option<i32>, stderr: Seq<char>)
    ensures
        ("OA 脚本退出码: "@ + shown_status(code)).is_prefix_of(exit_error(code, stderr)),
        !is_blank(join(last_lines(stderr, 20), "\n"@)) ==> ("\n"@ + join(
            last_lines(stderr, 20),
            "\n"@,
        )).is_suffix_of(exit_error(code, stderr)),
        is_blank(join(last_lines(stderr, 20), "\n"@)) ==> exit_error(code, stderr)
            == "OA 脚本退出码: "@ + shown_status(code),
{
    let a = "OA 脚本退出码: "@ + shown_status(code);
    let t = "\n"@ + join(last_lines(stderr, 20), "\n"@);
    let w = exit_error(code, stderr);
    assert(w.subrange(0, a.len() as int) =~= a);
    if !is_blank(join(last_lines(stderr, 20), "\n"@)) {
        assert(w.subrange(w.len() - t.len(), w.len() as int) =~= t);
    }
}

/// Cases are offered only by an import of cases: those that it lists, and none if it
/// lists none.
pub proof fn only_imports_offer_cases(
    action: Seq<char>,
    result: JsonModel,
    cases: Seq<JsonModel>,
)
    ensures
        cases_offered(action, result) is Some <==> action == "case_import"@,
        action == "case_import"@ && result.member("cases"@) == Some(JsonModel::Array(cases))
            ==> cases_offered(action, result)->0.len() == cases.len() && cases_offered(
            action,
            result,
        )->0 == settled_items(cases, cases.len()),
        action == "case_import"@ && result.member("cases"@) is None ==> cases_offered(
            action,
            result,
        )->0.len() == 0,
{
    lemma_settled_len(cases, cases.len());
}

proof fn lemma_settled_len(a: Seq<JsonModel>, n: nat)
    requires
        n <= a.len(),
    ensures
        settled_items(a, n).len() == n,
    decreases n,
{
    if n > 0 {
        lemma_settled_len(a, (n - 1) as nat);
    }
}

/// The report of an import is put into what was handed over, and nothing else of it
/// changes.
pub proof fn reports_are_added(
    m: Seq<(Seq<char>, JsonModel)>,
    report: JsonModel,
    other: Seq<char>,
)
    requires
        ascending(m),
    ensures
        reported(JsonModel::Object(m), report).member("import_report"@) == Some(report),
        other != "import_report"@ ==> reported(JsonModel::Object(m), report).member(other)
            == JsonModel::Object(m).member(other),
{
    setting_changes_one_member(m, "import_report"@, report, other);
}

/// A password is what was printed, without line ends behind it; nothing else of it is
/// lost.
pub proof fn only_line_ends_are_cut_off(s: Seq<char>)
    ensures
        without_line_ends(s.push('\n')) == without_line_ends(s),
        without_line_ends(s.push('\r')) == without_line_ends(s),
        s.len() > 0 && s.last() != '\n' && s.last() != '\r' ==> without_line_ends(s) == s,
        without_line_ends(Seq::empty()).len() == 0,
{
    assert(s.push('\n').drop_last() =~= s);
    assert(s.push('\r').drop_last() =~= s);
}

} // verus!
