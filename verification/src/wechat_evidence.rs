//! Turning the recording of a chat into evidence.
//!
//! A script does the work in steps: it exports pictures and a PDF, checks them,
//! reads their text, and checks that. `decide` says after each step what to
//! record of the job and what to do next.
use vstd::prelude::*;
use crate::court_sms::signed_decimal;
use crate::json::optional;
use crate::text::{
    begins_with, blank, cat2, cat3, chars_of, contains, finishes_with, first_chars, head_text,
    is_blank, occurs_at, same_text, split_on, split_text, texts, trim, trim_text,
    trimming_takes_only_white_space,
};

verus! {

#[derive(Clone, Copy, Debug, PartialEq, Eq, Structural)]
pub enum WechatEvidenceJobStatus {
    Queued,
    Running,
    Completed,
    Failed,
    Stopped,
}

#[derive(Clone, Copy, Debug, PartialEq, Eq, Structural)]
pub enum WechatEvidenceStage {
    Export,
    Validate,
    Ocr,
    Ingest,
    Done,
}

/// What is asked for. The interval between pictures and the seconds kept at the
/// beginning are given as they are written for the script.
pub struct WechatEvidenceStartInput {
    pub video_path: String,
    pub case_id: Option<String>,
    pub target_folder: Option<String>,
    pub interval_text: String,
    pub head_secs_text: String,
    pub run_ocr: Option<bool>,
    pub ocr_scope: Option<String>,
    pub cloud_text_summary: Option<bool>,
}

/// A job.
pub struct WechatEvidenceJob {
    pub id: String,
    pub status: WechatEvidenceJobStatus,
    pub stage: WechatEvidenceStage,
    pub pct: u8,
    pub message: String,
    pub case_id: Option<String>,
    pub video_path: String,
    pub output_dir: Option<String>,
    pub pdf_path: Option<String>,
    pub report_path: Option<String>,
    pub error: Option<String>,
    pub started_at: String,
    pub finished_at: Option<String>,
}

/// A character that may not stand in the name of a directory.
pub open spec fn is_path_char(c: char) -> bool {
    c == '/' || c == '\\' || c == ':' || c == '*' || c == '?' || c == '"' || c == '<' || c == '>'
        || c == '|'
}

pub open spec fn without_path_chars(s: Seq<char>) -> Seq<char> {
    Seq::new(
        s.len(),
        |i: int|
            if is_path_char(s[i]) {
                '_'
            } else {
                s[i]
            },
    )
}

/// The name of a directory made of a text.
pub open spec fn path_segment(name: Seq<char>) -> Seq<char> {
    let t = trim(without_path_chars(name));
    if t.len() == 0 {
        "录屏"@
    } else {
        first_chars(t, 80)
    }
}

/// The name of a directory made of a text: an underscore for each character
/// that may not stand in it, trimmed, at most eighty characters.
pub fn sanitize_path_segment(name: &str) -> (r: String)
    ensures
        r@ == path_segment(name@),
{
    let cs = chars_of(name);
    let mut out = String::new();
    let mut i: usize = 0;
    while i < cs.len()
        invariant
            i <= cs@.len(),
            cs@ == name@,
            out@ =~= without_path_chars(name@).subrange(0, i as int),
        decreases cs@.len() - i,
    {
        let c = cs[i];
        if c == '/' || c == '\\' || c == ':' || c == '*' || c == '?' || c == '"' || c == '<' || c
            == '>' || c == '|' {
            out.push('_');
        } else {
            out.push(c);
        }
        i = i + 1;
    }
    assert(out@ =~= without_path_chars(name@));
    let t = trim_text(out.as_str());
    if t.as_str().unicode_len() == 0 {
        String::from_str("录屏")
    } else {
        head_text(t.as_str(), 80)
    }
}

/// How an exit status is shown.
pub open spec fn shown_status(status: Option<i32>) -> Seq<char> {
    match status {
        Some(n) => "Some("@ + signed_decimal(n as int) + ")"@,
        None => "None"@,
    }
}

/// What is said of a step that failed.
pub open spec fn step_error(
    label: Seq<char>,
    status: Option<i32>,
    stdout: Seq<char>,
    stderr: Seq<char>,
) -> Seq<char> {
    label + "失败(exit="@ + shown_status(status) + "): "@ + if !is_blank(stderr) {
        trim(stderr)
    } else if !is_blank(stdout) {
        trim(stdout)
    } else {
        "无详细输出"@
    }
}

/// What is said of a step that failed: what it wrote to its error output, or
/// else to its output.
pub fn command_output_to_error(label: &str, status: Option<i32>, stdout: &str, stderr: &str) -> (r:
    String)
    ensures
        r@ == step_error(label@, status, stdout@, stderr@),
{
    let shown = match status {
        Some(n) => {
            let d = crate::court_sms::signed_text(n as i64);
            cat3("Some(", d.as_str(), ")")
        },
        None => String::from_str("None"),
    };
    let mut out = cat3(label, "失败(exit=", shown.as_str());
    out.append("): ");
    let e = trim_text(stderr);
    let o = trim_text(stdout);
    if e.as_str().unicode_len() > 0 {
        out.append(e.as_str());
    } else if o.as_str().unicode_len() > 0 {
        out.append(o.as_str());
    } else {
        out.append("无详细输出");
    }
    out
}

/// The lines, trimmed, that are absolute paths.
pub open spec fn path_lines(lines: Seq<Seq<char>>) -> Seq<Seq<char>>
    decreases lines.len(),
{
    if lines.len() == 0 {
        Seq::empty()
    } else {
        let t = trim(lines.last());
        if "/"@.is_prefix_of(t) {
            path_lines(lines.drop_last()).push(t)
        } else {
            path_lines(lines.drop_last())
        }
    }
}

fn find_paths(stdout: &str) -> (r: Vec<String>)
    ensures
        texts(r@) == path_lines(split_on(stdout@, '\n')),
{
    let lines = split_text(stdout, '\n');
    let ghost all = texts(lines@);
    let mut r: Vec<String> = Vec::new();
    let mut i: usize = 0;
    assert(texts(r@) =~= path_lines(all.subrange(0, 0)));
    while i < lines.len()
        invariant
            i <= lines@.len(),
            all == texts(lines@),
            texts(r@) == path_lines(all.subrange(0, i as int)),
        decreases lines@.len() - i,
    {
        assert(all.subrange(0, i + 1).drop_last() =~= all.subrange(0, i as int));
        let t = trim_text(lines[i].as_str());
        if begins_with(t.as_str(), "/") {
            let ghost before = texts(r@);
            r.push(t);
            assert(texts(r@) =~= before.push(t@));
        }
        i = i + 1;
    }
    assert(all.subrange(0, i as int) =~= all);
    r
}

/// The item of a number, if there is one.
pub open spec fn nth(v: Seq<Seq<char>>, i: int) -> Option<Seq<char>> {
    if i < v.len() {
        Some(v[i])
    } else {
        None
    }
}

/// The PDF and the index that the export names: of the paths that it prints,
/// the second and the third.
pub fn parse_export_stdout(stdout: &str) -> (r: (Option<String>, Option<String>))
    ensures
        optional(r.0) == nth(path_lines(split_on(stdout@, '\n')), 1),
        optional(r.1) == nth(path_lines(split_on(stdout@, '\n')), 2),
{
    let paths = find_paths(stdout);
    assert(texts(paths@).len() == paths@.len());
    let pdf = if paths.len() > 1 {
        Some(paths[1].clone())
    } else {
        None
    };
    let index = if paths.len() > 2 {
        Some(paths[2].clone())
    } else {
        None
    };
    (pdf, index)
}

/// The last of the texts that ends in a suffix.
pub open spec fn last_ending(v: Seq<Seq<char>>, suffix: Seq<char>) -> Option<Seq<char>>
    decreases v.len(),
{
    if v.len() == 0 {
        None
    } else if suffix.is_suffix_of(v.last()) {
        Some(v.last())
    } else {
        last_ending(v.drop_last(), suffix)
    }
}

fn find_last_ending(v: &Vec<String>, suffix: &str) -> (r: Option<String>)
    ensures
        optional(r) == last_ending(texts(v@), suffix@),
{
    let mut n: usize = v.len();
    assert(texts(v@).subrange(0, n as int) =~= texts(v@));
    while n > 0
        invariant
            n <= v@.len(),
            last_ending(texts(v@), suffix@) == last_ending(
                texts(v@).subrange(0, n as int),
                suffix@,
            ),
        decreases n,
    {
        let ghost part = texts(v@).subrange(0, n as int);
        assert(part.last() == v@[n - 1]@);
        assert(part.drop_last() =~= texts(v@).subrange(0, n - 1));
        if finishes_with(v[n - 1].as_str(), suffix) {
            return Some(v[n - 1].clone());
        }
        n = n - 1;
    }
    None
}

/// The report among some paths: the last with the usual name, or else the last
/// in Markdown.
pub open spec fn report_among(paths: Seq<Seq<char>>) -> Option<Seq<char>> {
    match last_ending(paths, "聊天记录分析报告.md"@) {
        Some(p) => Some(p),
        None => last_ending(paths, ".md"@),
    }
}

/// The report that the reading of the text names.
pub fn parse_ocr_stdout(stdout: &str) -> (r: Option<String>)
    ensures
        optional(r) == report_among(path_lines(split_on(stdout@, '\n'))),
{
    let paths = find_paths(stdout);
    match find_last_ending(&paths, "聊天记录分析报告.md") {
        Some(p) => Some(p),
        None => find_last_ending(&paths, ".md"),
    }
}

/// What is to be recorded of a job.
pub enum JobUpdate {
    Progress { stage: WechatEvidenceStage, pct: u8, message: String },
    Exported { output_dir: String, pdf_path: Option<String> },
    Report { path: String },
    Failed { stage: WechatEvidenceStage, error: String },
    Completed { message: String },
    Stopped,
}

/// What is to be recorded of a job, as data.
pub enum UpdateModel {
    Progress { stage: WechatEvidenceStage, pct: u8, message: Seq<char> },
    Exported { output_dir: Seq<char>, pdf_path: Option<Seq<char>> },
    Report { path: Seq<char> },
    Failed { stage: WechatEvidenceStage, error: Seq<char> },
    Completed { message: Seq<char> },
    Stopped,
}

impl View for JobUpdate {
    type V = UpdateModel;

    open spec fn view(&self) -> UpdateModel {
        match *self {
            JobUpdate::Progress { stage, pct, message } => UpdateModel::Progress {
                stage,
                pct,
                message: message@,
            },
            JobUpdate::Exported { output_dir, pdf_path } => UpdateModel::Exported {
                output_dir: output_dir@,
                pdf_path: optional(pdf_path),
            },
            JobUpdate::Report { path } => UpdateModel::Report { path: path@ },
            JobUpdate::Failed { stage, error } => UpdateModel::Failed { stage, error: error@ },
            JobUpdate::Completed { message } => UpdateModel::Completed { message: message@ },
            JobUpdate::Stopped => UpdateModel::Stopped,
        }
    }
}

/// A job as data.
pub struct JobModel {
    pub id: Seq<char>,
    pub status: WechatEvidenceJobStatus,
    pub stage: WechatEvidenceStage,
    pub pct: u8,
    pub message: Seq<char>,
    pub case_id: Option<Seq<char>>,
    pub video_path: Seq<char>,
    pub output_dir: Option<Seq<char>>,
    pub pdf_path: Option<Seq<char>>,
    pub report_path: Option<Seq<char>>,
    pub error: Option<Seq<char>>,
    pub started_at: Seq<char>,
    pub finished_at: Option<Seq<char>>,
}

impl View for WechatEvidenceJob {
    type V = JobModel;

    open spec fn view(&self) -> JobModel {
        JobModel {
            id: self.id@,
            status: self.status,
            stage: self.stage,
            pct: self.pct,
            message: self.message@,
            case_id: optional(self.case_id),
            video_path: self.video_path@,
            output_dir: optional(self.output_dir),
            pdf_path: optional(self.pdf_path),
            report_path: optional(self.report_path),
            error: optional(self.error),
            started_at: self.started_at@,
            finished_at: optional(self.finished_at),
        }
    }
}

/// A job after something was recorded of it.
pub open spec fn updated(job: JobModel, update: UpdateModel, now: Seq<char>) -> JobModel {
    match update {
        UpdateModel::Progress { stage, pct, message } => JobModel {
            status: WechatEvidenceJobStatus::Running,
            stage,
            pct,
            message,
            ..job
        },
        UpdateModel::Exported { output_dir, pdf_path } => JobModel {
            output_dir: Some(output_dir),
            pdf_path,
            ..job
        },
        UpdateModel::Report { path } => JobModel { report_path: Some(path), ..job },
        UpdateModel::Failed { stage, error } => JobModel {
            status: WechatEvidenceJobStatus::Failed,
            stage,
            message: "处理失败"@,
            error: Some(error),
            finished_at: Some(now),
            ..job
        },
        UpdateModel::Completed { message } => JobModel {
            status: WechatEvidenceJobStatus::Completed,
            stage: WechatEvidenceStage::Done,
            pct: 100,
            message,
            finished_at: Some(now),
            ..job
        },
        UpdateModel::Stopped => JobModel {
            status: WechatEvidenceJobStatus::Stopped,
            message: "任务已停止,已保留当前输出目录"@,
            finished_at: Some(now),
            ..job
        },
    }
}

impl WechatEvidenceJob {
    /// A job that waits to begin.
    pub fn queued(
        id: &str,
        case_id: Option<String>,
        video_path: &str,
        output_dir: &str,
        now: &str,
    ) -> (r: Self)
        ensures
            r@ == (JobModel {
                id: id@,
                status: WechatEvidenceJobStatus::Queued,
                stage: WechatEvidenceStage::Export,
                pct: 0,
                message: "等待开始"@,
                case_id: optional(case_id),
                video_path: video_path@,
                output_dir: Some(output_dir@),
                pdf_path: None,
                report_path: None,
                error: None,
                started_at: now@,
                finished_at: None,
            }),
    {
        WechatEvidenceJob {
            id: String::from_str(id),
            status: WechatEvidenceJobStatus::Queued,
            stage: WechatEvidenceStage::Export,
            pct: 0,
            message: String::from_str("等待开始"),
            case_id,
            video_path: String::from_str(video_path),
            output_dir: Some(String::from_str(output_dir)),
            pdf_path: None,
            report_path: None,
            error: None,
            started_at: String::from_str(now),
            finished_at: None,
        }
    }

    /// Records something of the job.
    pub fn record(&mut self, update: JobUpdate, now: &str)
        ensures
            final(self)@ == updated(old(self)@, update@, now@),
    {
        match update {
            JobUpdate::Progress { stage, pct, message } => {
                self.status = WechatEvidenceJobStatus::Running;
                self.stage = stage;
                self.pct = pct;
                self.message = message;
            },
            JobUpdate::Exported { output_dir, pdf_path } => {
                self.output_dir = Some(output_dir);
                self.pdf_path = pdf_path;
            },
            JobUpdate::Report { path } => {
                self.report_path = Some(path);
            },
            JobUpdate::Failed { stage, error } => {
                self.status = WechatEvidenceJobStatus::Failed;
                self.stage = stage;
                self.message = String::from_str("处理失败");
                self.error = Some(error);
                self.finished_at = Some(String::from_str(now));
            },
            JobUpdate::Completed { message } => {
                self.status = WechatEvidenceJobStatus::Completed;
                self.stage = WechatEvidenceStage::Done;
                self.pct = 100;
                self.message = message;
                self.finished_at = Some(String::from_str(now));
            },
            JobUpdate::Stopped => {
                self.status = WechatEvidenceJobStatus::Stopped;
                self.message = String::from_str("任务已停止,已保留当前输出目录");
                self.finished_at = Some(String::from_str(now));
            },
        }
    }
}

/// Where the work stands.
#[derive(Clone, Copy, Debug, PartialEq, Eq, Structural)]
pub enum Phase {
    New,
    Exporting,
    Validating,
    ReadingCloud,
    ReadingText,
    ValidatingText,
    ReadingCase,
    Syncing,
    Listing,
    Finished,
}

/// What is set for the model that sums up the text.
pub struct CloudConfig {
    /// The service does not speak the protocol of the script.
    pub unsupported: bool,
    pub endpoint: String,
    pub model: String,
    pub api_key: Option<String>,
    /// The key of the service that tells speakers apart.
    pub speaker_key: Option<String>,
}

/// What is set for the model that sums up the text, as data.
pub struct CloudModel {
    pub unsupported: bool,
    pub endpoint: Seq<char>,
    pub model: Seq<char>,
    pub api_key: Option<Seq<char>>,
    pub speaker_key: Option<Seq<char>>,
}

impl View for CloudConfig {
    type V = CloudModel;

    open spec fn view(&self) -> CloudModel {
        CloudModel {
            unsupported: self.unsupported,
            endpoint: self.endpoint@,
            model: self.model@,
            api_key: optional(self.api_key),
            speaker_key: optional(self.speaker_key),
        }
    }
}

/// What came of the last action.
pub enum JobEvent {
    /// It was done; a step of the script printed this.
    Done(String),
    Failed(String),
    /// The user stopped the job.
    Stopped,
    /// There is no such case.
    Missing,
    /// The settings of the model were read.
    Cloud(CloudConfig),
}

/// What came of the last action, as data.
pub enum EventModel {
    Done(Seq<char>),
    Failed(Seq<char>),
    Stopped,
    Missing,
    Cloud(CloudModel),
}

impl View for JobEvent {
    type V = EventModel;

    open spec fn view(&self) -> EventModel {
        match *self {
            JobEvent::Done(s) => EventModel::Done(s@),
            JobEvent::Failed(s) => EventModel::Failed(s@),
            JobEvent::Stopped => EventModel::Stopped,
            JobEvent::Missing => EventModel::Missing,
            JobEvent::Cloud(c) => EventModel::Cloud(c@),
        }
    }
}

/// What to do next.
pub enum JobAction {
    /// Run the script with the arguments, with a key for telling speakers
    /// apart in its environment if there is one.
    Run { label: String, args: Vec<String>, speaker_key: Option<String> },
    /// Read the settings of the model.
    ReadCloud,
    /// Read the case.
    ReadCase,
    /// Take the files of the case into its documents.
    Sync,
    /// List the documents of the case and start reading them.
    List,
    /// Nothing.
    Finish,
}

/// What to do next, as data.
pub enum ActionModel {
    Run { label: Seq<char>, args: Seq<Seq<char>>, speaker_key: Option<Seq<char>> },
    ReadCloud,
    ReadCase,
    Sync,
    List,
    Finish,
}

impl View for JobAction {
    type V = ActionModel;

    open spec fn view(&self) -> ActionModel {
        match *self {
            JobAction::Run { label, args, speaker_key } => ActionModel::Run {
                label: label@,
                args: texts(args@),
                speaker_key: optional(speaker_key),
            },
            JobAction::ReadCloud => ActionModel::ReadCloud,
            JobAction::ReadCase => ActionModel::ReadCase,
            JobAction::Sync => ActionModel::Sync,
            JobAction::List => ActionModel::List,
            JobAction::Finish => ActionModel::Finish,
        }
    }
}

/// What a job was asked for, and where its output goes.
pub struct JobPlan {
    pub input: WechatEvidenceStartInput,
    pub output_dir: String,
    /// Where the report is if the script does not say.
    pub default_report: String,
}

/// What to record and what to do next.
pub struct JobStep {
    pub phase: Phase,
    pub updates: Vec<JobUpdate>,
    pub action: JobAction,
}

/// What to record and what to do next, as data.
pub struct StepModel {
    pub phase: Phase,
    pub updates: Seq<UpdateModel>,
    pub action: ActionModel,
}

pub open spec fn updates_model(v: Seq<JobUpdate>) -> Seq<UpdateModel> {
    Seq::new(v.len(), |i: int| v[i]@)
}

impl View for JobStep {
    type V = StepModel;

    open spec fn view(&self) -> StepModel {
        StepModel {
            phase: self.phase,
            updates: updates_model(self.updates@),
            action: self.action@,
        }
    }
}

/// The text is to be read unless the user said no.
pub open spec fn wants_text(plan: JobPlan) -> bool {
    plan.input.run_ocr != Some(false)
}

/// A model is to sum up the text if the user said so.
pub open spec fn wants_cloud(plan: JobPlan) -> bool {
    plan.input.cloud_text_summary == Some(true)
}

/// Which pictures are read.
pub open spec fn scope_of(plan: JobPlan) -> Seq<char> {
    match plan.input.ocr_scope {
        Some(s) => if s@ == "raw"@ {
            "raw"@
        } else {
            "selected"@
        },
        None => "selected"@,
    }
}

/// The output is filed with a case.
pub open spec fn has_case(plan: JobPlan) -> bool {
    match plan.input.case_id {
        Some(c) => !is_blank(c@),
        None => false,
    }
}

/// A step at which the work ends with a failure.
pub open spec fn failing(stage: WechatEvidenceStage, error: Seq<char>) -> StepModel {
    StepModel {
        phase: Phase::Finished,
        updates: seq![UpdateModel::Failed { stage, error }],
        action: ActionModel::Finish,
    }
}

/// A step at which the work ends with nothing to record.
pub open spec fn ending() -> StepModel {
    StepModel { phase: Phase::Finished, updates: Seq::empty(), action: ActionModel::Finish }
}

/// The first step: pictures at a fixed interval, and a PDF of them.
pub open spec fn export_step(plan: JobPlan) -> StepModel {
    StepModel {
        phase: Phase::Exporting,
        updates: seq![
            UpdateModel::Progress {
                stage: WechatEvidenceStage::Export,
                pct: 8,
                message: "正在导出截图和证据 PDF"@,
            },
        ],
        action: ActionModel::Run {
            label: "导出录屏取证 PDF"@,
            args: seq![
                "interval-pdf"@,
                plan.input.video_path@,
                "--out-dir"@,
                plan.output_dir@,
                "--filter"@,
                "off"@,
                "--interval"@,
                plan.input.interval_text@,
                "--preserve-head-sec"@,
                plan.input.head_secs_text@,
                "--image-ext"@,
                "png"@,
            ],
            speaker_key: None,
        },
    }
}

/// The check of what was exported.
pub open spec fn validate_step(plan: JobPlan, stdout: Seq<char>) -> StepModel {
    StepModel {
        phase: Phase::Validating,
        updates: seq![
            UpdateModel::Exported {
                output_dir: plan.output_dir@,
                pdf_path: nth(path_lines(split_on(stdout, '\n')), 1),
            },
            UpdateModel::Progress {
                stage: WechatEvidenceStage::Validate,
                pct: 40,
                message: "正在校验证据输出"@,
            },
        ],
        action: ActionModel::Run {
            label: "校验证据输出"@,
            args: seq!["validate-export"@, plan.output_dir@],
            speaker_key: None,
        },
    }
}

/// The arguments for reading the text.
pub open spec fn text_args(plan: JobPlan) -> Seq<Seq<char>> {
    seq!["ocr-index"@, plan.output_dir@, "--scope"@, scope_of(plan), "--jobs"@, "2"@]
}

/// The address of a service without the path of its chat.
pub open spec fn base_url(endpoint: Seq<char>) -> Seq<char> {
    if "/v1/chat/completions"@.is_suffix_of(endpoint) {
        endpoint.subrange(0, endpoint.len() - "/v1/chat/completions"@.len())
    } else {
        endpoint
    }
}

/// The start of reading the text, with the settings of a model if one is to sum
/// it up.
pub open spec fn text_step(plan: JobPlan) -> StepModel {
    let updates = seq![
        UpdateModel::Progress {
            stage: WechatEvidenceStage::Ocr,
            pct: 55,
            message: "正在生成 OCR 索引和分析报告"@,
        },
    ];
    if wants_cloud(plan) {
        StepModel { phase: Phase::ReadingCloud, updates, action: ActionModel::ReadCloud }
    } else {
        StepModel {
            phase: Phase::ReadingText,
            updates,
            action: ActionModel::Run {
                label: "OCR 索引"@,
                args: text_args(plan),
                speaker_key: None,
            },
        }
    }
}

/// Reading the text with a model that sums it up.
pub open spec fn cloud_step(plan: JobPlan, config: CloudModel) -> StepModel {
    if config.unsupported {
        failing(
            WechatEvidenceStage::Ocr,
            "云端文字增强需要 OpenAI 兼容接口；当前 MiniMax 配置暂不支持该脚本协议"@,
        )
    } else {
        match config.api_key {
            None => failing(
                WechatEvidenceStage::Ocr,
                "已开启云端文字增强,但当前云端模型没有配置 API Key"@,
            ),
            Some(key) => StepModel {
                phase: Phase::ReadingText,
                updates: Seq::empty(),
                action: ActionModel::Run {
                    label: "OCR 索引"@,
                    args: text_args(plan) + seq![
                        "--cloud"@,
                        "text-summary"@,
                        "--base-url"@,
                        base_url(config.endpoint),
                        "--model"@,
                        config.model,
                        "--api-key"@,
                        key,
                    ],
                    speaker_key: match config.speaker_key {
                        Some(k) => if scope_of(plan) == "selected"@ && !is_blank(k) {
                            Some(trim(k))
                        } else {
                            None
                        },
                        None => None,
                    },
                },
            },
        }
    }
}

/// The check of what was read.
pub open spec fn validate_text_step(plan: JobPlan, stdout: Seq<char>) -> StepModel {
    StepModel {
        phase: Phase::ValidatingText,
        updates: seq![
            UpdateModel::Report {
                path: match report_among(path_lines(split_on(stdout, '\n'))) {
                    Some(p) => p,
                    None => plan.default_report@,
                },
            },
        ],
        action: ActionModel::Run {
            label: "校验 OCR 输出"@,
            args: seq!["validate-export"@, plan.output_dir@, "--require-ocr"@],
            speaker_key: None,
        },
    }
}

/// Filing the output with a case, or the end if there is none.
pub open spec fn ingest_step(plan: JobPlan) -> StepModel {
    if has_case(plan) {
        StepModel {
            phase: Phase::ReadingCase,
            updates: seq![
                UpdateModel::Progress {
                    stage: WechatEvidenceStage::Ingest,
                    pct: 88,
                    message: "正在归档到案件材料"@,
                },
            ],
            action: ActionModel::ReadCase,
        }
    } else {
        StepModel {
            phase: Phase::Finished,
            updates: seq![
                UpdateModel::Progress {
                    stage: WechatEvidenceStage::Ingest,
                    pct: 88,
                    message: "正在写入任务说明"@,
                },
                UpdateModel::Completed { message: "录屏取证已完成并保存到本地文件夹"@ },
            ],
            action: ActionModel::Finish,
        }
    }
}

/// A step with nothing to record.
pub open spec fn quiet(phase: Phase, action: ActionModel) -> StepModel {
    StepModel { phase, updates: Seq::empty(), action }
}

/// What to record and what to do next.
pub open spec fn decided(phase: Phase, plan: JobPlan, event: EventModel) -> StepModel {
    match (phase, event) {
        (Phase::New, EventModel::Done(_)) => export_step(plan),
        (Phase::Exporting, EventModel::Done(out)) => validate_step(plan, out),
        (Phase::Exporting, EventModel::Failed(e)) => failing(WechatEvidenceStage::Export, e),
        (Phase::Validating, EventModel::Done(_)) => if wants_text(plan) {
            text_step(plan)
        } else {
            ingest_step(plan)
        },
        (Phase::Validating, EventModel::Failed(e)) => failing(WechatEvidenceStage::Validate, e),
        (Phase::ReadingCloud, EventModel::Cloud(config)) => cloud_step(plan, config),
        (Phase::ReadingCloud, EventModel::Failed(e)) => failing(
            WechatEvidenceStage::Ocr,
            "读取云端模型配置失败: "@ + e,
        ),
        (Phase::ReadingText, EventModel::Done(out)) => validate_text_step(plan, out),
        (Phase::ReadingText, EventModel::Failed(e)) => failing(WechatEvidenceStage::Ocr, e),
        (Phase::ValidatingText, EventModel::Done(_)) => ingest_step(plan),
        (Phase::ValidatingText, EventModel::Failed(e)) => failing(WechatEvidenceStage::Ocr, e),
        (Phase::ReadingCase, EventModel::Done(_)) => quiet(Phase::Syncing, ActionModel::Sync),
        (Phase::ReadingCase, EventModel::Missing) => failing(
            WechatEvidenceStage::Ingest,
            "案件不存在"@,
        ),
        (Phase::ReadingCase, EventModel::Failed(e)) => failing(
            WechatEvidenceStage::Ingest,
            "读取案件失败: "@ + e,
        ),
        (Phase::Syncing, EventModel::Done(_)) => quiet(Phase::Listing, ActionModel::List),
        (Phase::Syncing, EventModel::Failed(e)) => failing(
            WechatEvidenceStage::Ingest,
            "同步案件材料失败: "@ + e,
        ),
        (Phase::Listing, EventModel::Done(_)) => StepModel {
            phase: Phase::Finished,
            updates: seq![
                UpdateModel::Completed { message: "录屏取证已完成并归档到案件材料"@ },
            ],
            action: ActionModel::Finish,
        },
        (Phase::Listing, EventModel::Failed(e)) => failing(
            WechatEvidenceStage::Ingest,
            "读取案件材料失败: "@ + e,
        ),
        _ => ending(),
    }
}

/// How far the work has come.
pub open spec fn rank(phase: Phase) -> int {
    match phase {
        Phase::New => 0,
        Phase::Exporting => 1,
        Phase::Validating => 2,
        Phase::ReadingCloud => 3,
        Phase::ReadingText => 4,
        Phase::ValidatingText => 5,
        Phase::ReadingCase => 6,
        Phase::Syncing => 7,
        Phase::Listing => 8,
        Phase::Finished => 9,
    }
}

/// The work only goes forward, so it comes to an end, and at its end there is
/// nothing more to do.
pub proof fn work_goes_forward(phase: Phase, plan: JobPlan, event: EventModel)
    requires
        phase != Phase::Finished,
    ensures
        rank(decided(phase, plan, event).phase) > rank(phase),
        decided(phase, plan, event).phase == Phase::Finished <==> decided(
            phase,
            plan,
            event,
        ).action is Finish,
{
}

/// A job that the user stopped is left as it is: it is neither completed nor
/// failed, and nothing more is done.
pub proof fn stopped_jobs_stay_stopped(phase: Phase, plan: JobPlan)
    ensures
        decided(phase, plan, EventModel::Stopped) == ending(),
{
}

/// Output is filed with a case only after the text was checked or was not asked
/// for, and only with a case.
pub proof fn only_checked_output_is_filed(phase: Phase, plan: JobPlan, event: EventModel)
    ensures
        decided(phase, plan, event).action is ReadCase ==> has_case(plan) && (phase
            == Phase::ValidatingText || (phase == Phase::Validating && !wants_text(plan)))
            && event is Done,
{
}

fn fail_step(stage: WechatEvidenceStage, error: String) -> (r: JobStep)
    ensures
        r@ == failing(stage, error@),
{
    let mut updates: Vec<JobUpdate> = Vec::new();
    updates.push(JobUpdate::Failed { stage, error });
    let r = JobStep { phase: Phase::Finished, updates, action: JobAction::Finish };
    assert(r@.updates =~= failing(stage, error@).updates);
    r
}

fn quiet_step(phase: Phase, action: JobAction) -> (r: JobStep)
    ensures
        r@ == quiet(phase, action@),
{
    let r = JobStep { phase, updates: Vec::new(), action };
    assert(r@.updates =~= Seq::empty());
    r
}

fn progress(stage: WechatEvidenceStage, pct: u8, message: &str) -> (r: JobUpdate)
    ensures
        r@ == (UpdateModel::Progress { stage, pct, message: message@ }),
{
    JobUpdate::Progress { stage, pct, message: String::from_str(message) }
}

fn run(label: &str, args: Vec<String>, speaker_key: Option<String>) -> (r: JobAction)
    ensures
        r@ == (ActionModel::Run {
            label: label@,
            args: texts(args@),
            speaker_key: optional(speaker_key),
        }),
{
    JobAction::Run { label: String::from_str(label), args, speaker_key }
}

fn start_export(plan: &JobPlan) -> (r: JobStep)
    ensures
        r@ == export_step(*plan),
{
    let mut args: Vec<String> = Vec::new();
    args.push(String::from_str("interval-pdf"));
    args.push(plan.input.video_path.clone());
    args.push(String::from_str("--out-dir"));
    args.push(plan.output_dir.clone());
    args.push(String::from_str("--filter"));
    args.push(String::from_str("off"));
    args.push(String::from_str("--interval"));
    args.push(plan.input.interval_text.clone());
    args.push(String::from_str("--preserve-head-sec"));
    args.push(plan.input.head_secs_text.clone());
    args.push(String::from_str("--image-ext"));
    args.push(String::from_str("png"));
    let mut updates: Vec<JobUpdate> = Vec::new();
    updates.push(progress(WechatEvidenceStage::Export, 8, "正在导出截图和证据 PDF"));
    let r = JobStep {
        phase: Phase::Exporting,
        updates,
        action: run("导出录屏取证 PDF", args, None),
    };
    assert(r@.updates =~= export_step(*plan).updates);
    assert(texts(args@) =~= export_step(*plan).action->args);
    r
}

fn start_validation(plan: &JobPlan, stdout: &str) -> (r: JobStep)
    ensures
        r@ == validate_step(*plan, stdout@),
{
    let (pdf_path, _) = parse_export_stdout(stdout);
    let mut updates: Vec<JobUpdate> = Vec::new();
    updates.push(JobUpdate::Exported { output_dir: plan.output_dir.clone(), pdf_path });
    updates.push(progress(WechatEvidenceStage::Validate, 40, "正在校验证据输出"));
    let mut args: Vec<String> = Vec::new();
    args.push(String::from_str("validate-export"));
    args.push(plan.output_dir.clone());
    let r = JobStep {
        phase: Phase::Validating,
        updates,
        action: run("校验证据输出", args, None),
    };
    assert(r@.updates =~= validate_step(*plan, stdout@).updates);
    assert(texts(args@) =~= validate_step(*plan, stdout@).action->args);
    r
}

fn scope(plan: &JobPlan) -> (r: &'static str)
    ensures
        r@ == scope_of(*plan),
{
    match &plan.input.ocr_scope {
        Some(s) => if same_text(s.as_str(), "raw") {
            "raw"
        } else {
            "selected"
        },
        None => "selected",
    }
}

fn make_text_args(plan: &JobPlan) -> (r: Vec<String>)
    ensures
        texts(r@) == text_args(*plan),
{
    let mut args: Vec<String> = Vec::new();
    args.push(String::from_str("ocr-index"));
    args.push(plan.output_dir.clone());
    args.push(String::from_str("--scope"));
    args.push(String::from_str(scope(plan)));
    args.push(String::from_str("--jobs"));
    args.push(String::from_str("2"));
    assert(texts(args@) =~= text_args(*plan));
    args
}

fn start_text(plan: &JobPlan) -> (r: JobStep)
    ensures
        r@ == text_step(*plan),
{
    let mut updates: Vec<JobUpdate> = Vec::new();
    updates.push(progress(WechatEvidenceStage::Ocr, 55, "正在生成 OCR 索引和分析报告"));
    let cloud = match plan.input.cloud_text_summary {
        Some(b) => b,
        None => false,
    };
    if cloud {
        let r = JobStep { phase: Phase::ReadingCloud, updates, action: JobAction::ReadCloud };
        assert(r@.updates =~= text_step(*plan).updates);
        r
    } else {
        let args = make_text_args(plan);
        let r = JobStep {
            phase: Phase::ReadingText,
            updates,
            action: run("OCR 索引", args, None),
        };
        assert(r@.updates =~= text_step(*plan).updates);
        r
    }
}

fn strip_chat_path(endpoint: &str) -> (r: String)
    ensures
        r@ == base_url(endpoint@),
{
    if finishes_with(endpoint, "/v1/chat/completions") {
        let n: usize = endpoint.unicode_len();
        let k: usize = "/v1/chat/completions".unicode_len();
        head_text(endpoint, n - k)
    } else {
        String::from_str(endpoint)
    }
}

fn take_cloud(plan: &JobPlan, config: CloudConfig) -> (r: JobStep)
    ensures
        r@ == cloud_step(*plan, config@),
{
    if config.unsupported {
        return fail_step(
            WechatEvidenceStage::Ocr,
            String::from_str(
                "云端文字增强需要 OpenAI 兼容接口；当前 MiniMax 配置暂不支持该脚本协议",
            ),
        );
    }
    let key = match config.api_key {
        Some(k) => k,
        None => {
            return fail_step(
                WechatEvidenceStage::Ocr,
                String::from_str("已开启云端文字增强,但当前云端模型没有配置 API Key"),
            );
        },
    };
    let mut args = make_text_args(plan);
    let ghost basic = texts(args@);
    args.push(String::from_str("--cloud"));
    args.push(String::from_str("text-summary"));
    args.push(String::from_str("--base-url"));
    args.push(strip_chat_path(config.endpoint.as_str()));
    args.push(String::from_str("--model"));
    args.push(config.model.clone());
    args.push(String::from_str("--api-key"));
    args.push(key);
    assert(texts(args@) =~= basic + seq![
        "--cloud"@,
        "text-summary"@,
        "--base-url"@,
        base_url(config.endpoint@),
        "--model"@,
        config.model@,
        "--api-key"@,
        key@,
    ]);
    let speaker_key = match &config.speaker_key {
        Some(k) => if same_text(scope(plan), "selected") && !blank(k.as_str()) {
            Some(trim_text(k.as_str()))
        } else {
            None
        },
        None => None,
    };
    quiet_step(Phase::ReadingText, run("OCR 索引", args, speaker_key))
}

fn start_text_validation(plan: &JobPlan, stdout: &str) -> (r: JobStep)
    ensures
        r@ == validate_text_step(*plan, stdout@),
{
    let path = match parse_ocr_stdout(stdout) {
        Some(p) => p,
        None => plan.default_report.clone(),
    };
    let mut updates: Vec<JobUpdate> = Vec::new();
    updates.push(JobUpdate::Report { path });
    let mut args: Vec<String> = Vec::new();
    args.push(String::from_str("validate-export"));
    args.push(plan.output_dir.clone());
    args.push(String::from_str("--require-ocr"));
    let r = JobStep {
        phase: Phase::ValidatingText,
        updates,
        action: run("校验 OCR 输出", args, None),
    };
    assert(r@.updates =~= validate_text_step(*plan, stdout@).updates);
    assert(texts(args@) =~= validate_text_step(*plan, stdout@).action->args);
    r
}

fn start_ingest(plan: &JobPlan) -> (r: JobStep)
    ensures
        r@ == ingest_step(*plan),
{
    let archive = match &plan.input.case_id {
        Some(c) => !blank(c.as_str()),
        None => false,
    };
    let mut updates: Vec<JobUpdate> = Vec::new();
    if archive {
        updates.push(progress(WechatEvidenceStage::Ingest, 88, "正在归档到案件材料"));
        let r = JobStep { phase: Phase::ReadingCase, updates, action: JobAction::ReadCase };
        assert(r@.updates =~= ingest_step(*plan).updates);
        r
    } else {
        updates.push(progress(WechatEvidenceStage::Ingest, 88, "正在写入任务说明"));
        updates.push(
            JobUpdate::Completed {
                message: String::from_str("录屏取证已完成并保存到本地文件夹"),
            },
        );
        let r = JobStep { phase: Phase::Finished, updates, action: JobAction::Finish };
        assert(r@.updates =~= ingest_step(*plan).updates);
        r
    }
}

/// What to record and what to do next. The work begins in the phase `New` with
/// a `Done`.
pub fn decide(phase: Phase, plan: &JobPlan, event: JobEvent) -> (r: JobStep)
    ensures
        r@ == decided(phase, *plan, event@),
{
    match (phase, event) {
        (Phase::New, JobEvent::Done(_)) => start_export(plan),
        (Phase::Exporting, JobEvent::Done(out)) => start_validation(plan, out.as_str()),
        (Phase::Exporting, JobEvent::Failed(e)) => fail_step(WechatEvidenceStage::Export, e),
        (Phase::Validating, JobEvent::Done(_)) => {
            let wanted = match plan.input.run_ocr {
                Some(b) => b,
                None => true,
            };
            if wanted {
                start_text(plan)
            } else {
                start_ingest(plan)
            }
        },
        (Phase::Validating, JobEvent::Failed(e)) => fail_step(WechatEvidenceStage::Validate, e),
        (Phase::ReadingCloud, JobEvent::Cloud(config)) => take_cloud(plan, config),
        (Phase::ReadingCloud, JobEvent::Failed(e)) => fail_step(
            WechatEvidenceStage::Ocr,
            cat2("读取云端模型配置失败: ", e.as_str()),
        ),
        (Phase::ReadingText, JobEvent::Done(out)) => start_text_validation(plan, out.as_str()),
        (Phase::ReadingText, JobEvent::Failed(e)) => fail_step(WechatEvidenceStage::Ocr, e),
        (Phase::ValidatingText, JobEvent::Done(_)) => start_ingest(plan),
        (Phase::ValidatingText, JobEvent::Failed(e)) => fail_step(WechatEvidenceStage::Ocr, e),
        (Phase::ReadingCase, JobEvent::Done(_)) => quiet_step(Phase::Syncing, JobAction::Sync),
        (Phase::ReadingCase, JobEvent::Missing) => fail_step(
            WechatEvidenceStage::Ingest,
            String::from_str("案件不存在"),
        ),
        (Phase::ReadingCase, JobEvent::Failed(e)) => fail_step(
            WechatEvidenceStage::Ingest,
            cat2("读取案件失败: ", e.as_str()),
        ),
        (Phase::Syncing, JobEvent::Done(_)) => quiet_step(Phase::Listing, JobAction::List),
        (Phase::Syncing, JobEvent::Failed(e)) => fail_step(
            WechatEvidenceStage::Ingest,
            cat2("同步案件材料失败: ", e.as_str()),
        ),
        (Phase::Listing, JobEvent::Done(_)) => {
            let mut updates: Vec<JobUpdate> = Vec::new();
            updates.push(
                JobUpdate::Completed {
                    message: String::from_str("录屏取证已完成并归档到案件材料"),
                },
            );
            let r = JobStep { phase: Phase::Finished, updates, action: JobAction::Finish };
            assert(r@.updates =~= seq![
                UpdateModel::Completed { message: "录屏取证已完成并归档到案件材料"@ },
            ]);
            r
        },
        (Phase::Listing, JobEvent::Failed(e)) => fail_step(
            WechatEvidenceStage::Ingest,
            cat2("读取案件材料失败: ", e.as_str()),
        ),
        _ => quiet_step(Phase::Finished, JobAction::Finish),
    }
}

/// A step that fails ends the job: it is recorded as failed at the stage that it was
/// in, with what was said, and nothing more is done.
pub proof fn failed_steps_end_the_job(phase: Phase, plan: JobPlan, error: Seq<char>)
    requires
        phase != Phase::New,
        phase != Phase::Finished,
    ensures
        ({
            let step = decided(phase, plan, EventModel::Failed(error));
            let stage = match phase {
                Phase::Exporting => WechatEvidenceStage::Export,
                Phase::Validating => WechatEvidenceStage::Validate,
                Phase::ReadingCloud => WechatEvidenceStage::Ocr,
                Phase::ReadingText => WechatEvidenceStage::Ocr,
                Phase::ValidatingText => WechatEvidenceStage::Ocr,
                _ => WechatEvidenceStage::Ingest,
            };
            &&& step.phase == Phase::Finished
            &&& step.action is Finish
            &&& step.updates.len() == 1
            &&& step.updates[0] matches UpdateModel::Failed { stage: s, error: e } && s == stage
                && error.is_suffix_of(e)
        }),
{
    let step = decided(phase, plan, EventModel::Failed(error));
    if let UpdateModel::Failed { stage, error: e } = step.updates[0] {
        assert(e.subrange(e.len() - error.len(), e.len() as int) =~= error);
    }
}

/// A job is completed only after what it was asked for was done: at the end of
/// filing, or, without a case, once the output and the text, if it was to be read,
/// were checked.
pub proof fn jobs_complete_only_when_done(phase: Phase, plan: JobPlan, event: EventModel, i: int)
    requires
        0 <= i < decided(phase, plan, event).updates.len(),
        decided(phase, plan, event).updates[i] is Completed,
    ensures
        event is Done,
        decided(phase, plan, event).phase == Phase::Finished,
        phase == Phase::Listing || (phase == Phase::ValidatingText && (plan.input.case_id is None
            || is_blank(plan.input.case_id->0@))) || (phase == Phase::Validating
            && plan.input.run_ocr == Some(false) && (plan.input.case_id is None || is_blank(
            plan.input.case_id->0@,
        ))),
{
}

/// The steps of a job that goes well: export, check, the text unless the user said
/// no, its check, and filing if there is a case.
pub proof fn jobs_go_step_by_step(plan: JobPlan, out: Seq<char>)
    ensures
        ({
            let done = EventModel::Done(out);
            let case = plan.input.case_id is Some && !is_blank(plan.input.case_id->0@);
            let last = if case {
                Phase::ReadingCase
            } else {
                Phase::Finished
            };
            &&& decided(Phase::New, plan, done).phase == Phase::Exporting
            &&& decided(Phase::Exporting, plan, done).phase == Phase::Validating
            &&& plan.input.run_ocr == Some(false) ==> decided(Phase::Validating, plan, done).phase
                == last
            &&& plan.input.run_ocr != Some(false) && plan.input.cloud_text_summary == Some(true)
                ==> decided(Phase::Validating, plan, done).phase == Phase::ReadingCloud && decided(
                Phase::Validating,
                plan,
                done,
            ).action is ReadCloud
            &&& plan.input.run_ocr != Some(false) && plan.input.cloud_text_summary != Some(true)
                ==> decided(Phase::Validating, plan, done).phase == Phase::ReadingText
            &&& decided(Phase::ReadingText, plan, done).phase == Phase::ValidatingText
            &&& decided(Phase::ValidatingText, plan, done).phase == last
            &&& decided(Phase::ReadingCase, plan, done).phase == Phase::Syncing && decided(
                Phase::ReadingCase,
                plan,
                done,
            ).action is Sync
            &&& decided(Phase::Syncing, plan, done).phase == Phase::Listing && decided(
                Phase::Syncing,
                plan,
                done,
            ).action is List
            &&& decided(Phase::Listing, plan, done).phase == Phase::Finished
            &&& decided(Phase::ReadingCase, plan, EventModel::Missing).phase == Phase::Finished
                && decided(Phase::ReadingCase, plan, EventModel::Missing).updates[0] is Failed
        }),
{
}

/// Nothing is sent to a model unless the user asked for it: its settings are read
/// only then, and only with them does the script get an address and a key.
pub proof fn nothing_is_sent_unless_asked(phase: Phase, plan: JobPlan, event: EventModel)
    ensures
        decided(phase, plan, event).action is ReadCloud ==> plan.input.cloud_text_summary == Some(
            true,
        ) && plan.input.run_ocr != Some(false),
        decided(phase, plan, event).action matches ActionModel::Run { args, speaker_key, .. } ==> (
        speaker_key is Some || args.len() > 12 ==> phase == Phase::ReadingCloud && event is Cloud),
{
}

/// The script is told the recording, the place of the output, the interval and the
/// seconds at the start, each behind its own name.
pub proof fn exports_are_told_what_was_asked(plan: JobPlan, out: Seq<char>)
    ensures
        decided(Phase::New, plan, EventModel::Done(out)).action matches ActionModel::Run {
            args,
            ..
        } && args.len() == 12 && args[0] == "interval-pdf"@ && args[1] == plan.input.video_path@
            && args[2] == "--out-dir"@ && args[3] == plan.output_dir@ && args[6] == "--interval"@
            && args[7] == plan.input.interval_text@ && args[8] == "--preserve-head-sec"@ && args[9]
            == plan.input.head_secs_text@,
        decided(Phase::Exporting, plan, EventModel::Done(out)).action matches ActionModel::Run {
            args,
            ..
        } && args == seq!["validate-export"@, plan.output_dir@],
        decided(Phase::ReadingText, plan, EventModel::Done(out)).action matches ActionModel::Run {
            args,
            ..
        } && args == seq!["validate-export"@, plan.output_dir@, "--require-ocr"@],
{
}

/// With a model that can be asked and its key, the text is read with the address,
/// the model and the key that are set. Without a key, or with a service that cannot
/// be asked, the job fails.
pub proof fn models_are_asked_as_they_are_set(plan: JobPlan, config: CloudModel)
    ensures
        ({
            let step = decided(Phase::ReadingCloud, plan, EventModel::Cloud(config));
            &&& config.unsupported || config.api_key is None ==> step.phase == Phase::Finished
                && step.updates.len() == 1 && step.updates[0] is Failed
            &&& !config.unsupported && config.api_key is Some ==> step.phase == Phase::ReadingText
                && (step.action matches ActionModel::Run { args, speaker_key, .. } && args.len()
                == 14 && args[0] == "ocr-index"@ && args[1] == plan.output_dir@ && args[2]
                == "--scope"@ && args[10] == "--model"@ && args[11] == config.model && args[12]
                == "--api-key"@ && args[13] == config.api_key->0 && args[8] == "--base-url"@ && (
            !"/v1/chat/completions"@.is_suffix_of(config.endpoint) ==> args[9] == config.endpoint)
                && ("/v1/chat/completions"@.is_suffix_of(config.endpoint) ==> args[9]
                + "/v1/chat/completions"@ == config.endpoint) && (plan.input.ocr_scope is Some
                && plan.input.ocr_scope->0@ == "raw"@ ==> args[3] == "raw"@ && speaker_key is None)
                && (plan.input.ocr_scope is None ==> args[3] == "selected"@ && (
            config.speaker_key is Some && !is_blank(config.speaker_key->0) ==> speaker_key == Some(
                trim(config.speaker_key->0),
            ))))
        }),
{
    reveal_strlit("raw");
    reveal_strlit("selected");
    assert("raw"@.len() != "selected"@.len());
    let e = config.endpoint;
    let tail = "/v1/chat/completions"@;
    if tail.is_suffix_of(e) {
        assert(base_url(e) + tail =~= e) by {
            assert(e.subrange(e.len() - tail.len(), e.len() as int) == tail);
        }
    }
}

/// What is recorded changes no job into another: its recording, its case and its
/// beginning stay. A job that ends has a time, and one that fails says why.
pub proof fn records_keep_the_job(job: JobModel, update: UpdateModel, now: Seq<char>)
    ensures
        ({
            let after = updated(job, update, now);
            &&& after.id == job.id && after.video_path == job.video_path && after.case_id
                == job.case_id && after.started_at == job.started_at
            &&& match update {
                UpdateModel::Progress { stage, pct, message } => after.status
                    == WechatEvidenceJobStatus::Running && after.stage == stage && after.pct == pct
                    && after.message == message && after.finished_at == job.finished_at
                    && after.output_dir == job.output_dir && after.pdf_path == job.pdf_path
                    && after.report_path == job.report_path && after.error == job.error,
                UpdateModel::Exported { output_dir, pdf_path } => after.output_dir == Some(
                    output_dir,
                ) && after.pdf_path == pdf_path && after.status == job.status && after.stage
                    == job.stage && after.pct == job.pct && after.report_path == job.report_path
                    && after.error == job.error && after.finished_at == job.finished_at,
                UpdateModel::Report { path } => after.report_path == Some(path) && after.pdf_path
                    == job.pdf_path && after.output_dir == job.output_dir && after.status
                    == job.status && after.stage == job.stage && after.pct == job.pct
                    && after.error == job.error && after.finished_at == job.finished_at,
                UpdateModel::Failed { stage, error } => after.status
                    == WechatEvidenceJobStatus::Failed && after.stage == stage && after.error
                    == Some(error) && after.finished_at == Some(now) && after.pct == job.pct
                    && after.output_dir == job.output_dir && after.pdf_path == job.pdf_path
                    && after.report_path == job.report_path,
                UpdateModel::Completed { message } => after.status
                    == WechatEvidenceJobStatus::Completed && after.stage
                    == WechatEvidenceStage::Done && after.pct == 100 && after.message == message
                    && after.finished_at == Some(now) && after.error == job.error
                    && after.output_dir == job.output_dir && after.pdf_path == job.pdf_path
                    && after.report_path == job.report_path,
                UpdateModel::Stopped => after.status == WechatEvidenceJobStatus::Stopped
                    && after.finished_at == Some(now) && after.stage == job.stage && after.pct
                    == job.pct && after.output_dir == job.output_dir && after.pdf_path
                    == job.pdf_path && after.report_path == job.report_path && after.error
                    == job.error,
            }
        }),
{
}

/// The lines of an output that are paths are taken, trimmed and in order, and no
/// others.
pub proof fn paths_are_taken_from_lines(lines: Seq<Seq<char>>, line: Seq<char>)
    ensures
        "/"@.is_prefix_of(trim(line)) ==> path_lines(lines.push(line)) == path_lines(lines).push(
            trim(line),
        ),
        !"/"@.is_prefix_of(trim(line)) ==> path_lines(lines.push(line)) == path_lines(lines),
        path_lines(Seq::empty()).len() == 0,
{
    assert(lines.push(line).drop_last() =~= lines);
}

/// The report is the last path with the usual name, and only without one the last in
/// Markdown.
pub proof fn reports_are_found_by_name(paths: Seq<Seq<char>>, i: int)
    ensures
        0 <= i < paths.len() && "聊天记录分析报告.md"@.is_suffix_of(paths[i]) && (forall|j: int|
            i < j < paths.len() ==> !"聊天记录分析报告.md"@.is_suffix_of(#[trigger] paths[j]))
            ==> report_among(paths) == Some(paths[i]),
        0 <= i < paths.len() && ".md"@.is_suffix_of(paths[i]) && (forall|j: int|
            i < j < paths.len() ==> !".md"@.is_suffix_of(#[trigger] paths[j])) && (forall|j: int|
            0 <= j < paths.len() ==> !"聊天记录分析报告.md"@.is_suffix_of(#[trigger] paths[j]))
            ==> report_among(paths) == Some(paths[i]),
        report_among(paths) matches Some(p) ==> paths.contains(p),
{
    lemma_last_ending(paths, "聊天记录分析报告.md"@, i);
    lemma_last_ending(paths, ".md"@, i);
}

proof fn lemma_last_ending(v: Seq<Seq<char>>, suffix: Seq<char>, i: int)
    ensures
        0 <= i < v.len() && suffix.is_suffix_of(v[i]) && (forall|j: int|
            i < j < v.len() ==> !suffix.is_suffix_of(#[trigger] v[j])) ==> last_ending(v, suffix)
            == Some(v[i]),
        (forall|j: int| 0 <= j < v.len() ==> !suffix.is_suffix_of(#[trigger] v[j])) ==> last_ending(
            v,
            suffix,
        ) is None,
        last_ending(v, suffix) matches Some(p) ==> v.contains(p) && suffix.is_suffix_of(p),
    decreases v.len(),
{
    if v.len() > 0 {
        let w = v.drop_last();
        lemma_last_ending(w, suffix, i);
        assert(forall|j: int| 0 <= j < w.len() ==> w[j] == #[trigger] v[j]);
        assert(v[v.len() - 1] == v.last());
        if !suffix.is_suffix_of(v.last()) {
            if let Some(p) = last_ending(w, suffix) {
                let k = choose|k: int| 0 <= k < w.len() && w[k] == p;
                assert(v[k] == p);
            }
        }
        if 0 <= i < v.len() && suffix.is_suffix_of(v[i]) && (forall|j: int|
            i < j < v.len() ==> !suffix.is_suffix_of(#[trigger] v[j])) {
            if i < w.len() {
                assert(!suffix.is_suffix_of(v[v.len() - 1]));
                assert forall|j: int| i < j < w.len() implies !suffix.is_suffix_of(
                    #[trigger] w[j],
                ) by {
                    assert(w[j] == v[j]);
                }
            }
        }
    }
}

/// The name of a directory is not empty, has no more than eighty characters and none
/// that may not stand in it, and a short name without such characters is only
/// trimmed.
pub proof fn directories_have_safe_names(name: Seq<char>)
    ensures
        0 < path_segment(name).len() <= 80,
        forall|i: int|
            0 <= i < path_segment(name).len() ==> !is_path_char(#[trigger] path_segment(name)[i]),
        (forall|i: int| 0 <= i < name.len() ==> !is_path_char(#[trigger] name[i])) && !is_blank(
            name,
        ) && name.len() <= 80 ==> path_segment(name) == trim(name),
{
    let m = without_path_chars(name);
    let (i, j) = trimming_takes_only_white_space(m);
    reveal_strlit("录屏");
    assert forall|k: int| 0 <= k < path_segment(name).len() implies !is_path_char(
        #[trigger] path_segment(name)[k],
    ) by {
        if trim(m).len() > 0 {
            assert(path_segment(name)[k] == m[i + k]);
        }
    }
    if forall|k: int| 0 <= k < name.len() ==> !is_path_char(#[trigger] name[k]) {
        assert(m =~= name);
    }
}

/// What is said of a step that failed begins with the step and ends in what it said:
/// its errors, or else its output.
pub proof fn failed_steps_say_why(
    label: Seq<char>,
    status: Option<i32>,
    stdout: Seq<char>,
    stderr: Seq<char>,
)
    ensures
        (label + "失败"@).is_prefix_of(step_error(label, status, stdout, stderr)),
        contains(step_error(label, status, stdout, stderr), shown_status(status)),
        !is_blank(stderr) ==> trim(stderr).is_suffix_of(step_error(label, status, stdout, stderr)),
        is_blank(stderr) && !is_blank(stdout) ==> trim(stdout).is_suffix_of(
            step_error(label, status, stdout, stderr),
        ),
        is_blank(stderr) && is_blank(stdout) ==> "无详细输出"@.is_suffix_of(
            step_error(label, status, stdout, stderr),
        ),
{
    reveal_strlit("失败");
    reveal_strlit("失败(exit=");
    let said = if !is_blank(stderr) {
        trim(stderr)
    } else if !is_blank(stdout) {
        trim(stdout)
    } else {
        "无详细输出"@
    };
    let w = step_error(label, status, stdout, stderr);
    let a = label + "失败(exit="@;
    let b = shown_status(status);
    assert(w.subrange(0, (label + "失败"@).len() as int) =~= label + "失败"@);
    assert(w.subrange(w.len() - said.len(), w.len() as int) =~= said);
    assert(w.subrange(a.len() as int, (a.len() + b.len()) as int) =~= b);
    assert(occurs_at(w, b, a.len() as int));
}

/// The item of a number is the one that stands there, and there is none behind the
/// last.
pub proof fn items_are_taken_by_number(v: Seq<Seq<char>>, i: int)
    ensures
        0 <= i < v.len() ==> nth(v, i) == Some(v[i]),
        i >= v.len() ==> nth(v, i) is None,
{
}

} // verus!
