//! Before and after the work on the recording of a chat: what has to be there,
//! where the output goes, and the note that is left with it.
use vstd::prelude::*;
use crate::json::optional;
use crate::text::{
    ascii_lower, blank, cat2, cat3, contains, is_blank, join, join_texts, joined_parts_are_there,
    lower_text, occurs_at, parts_hold_in_the_whole, same_text, texts,
};
use crate::text_order::{sort_texts, sorted_texts, sorting_sorts};
use crate::wechat_evidence::{
    sanitize_path_segment, path_segment, JobModel, WechatEvidenceJob, WechatEvidenceJobStatus,
    WechatEvidenceStartInput,
};

verus! {

/// What is said against a recording, if anything.
pub open spec fn recording_objection(
    has_ffmpeg: bool,
    exists: bool,
    path: Seq<char>,
    extension: Seq<char>,
) -> Option<Seq<char>> {
    let e = ascii_lower(extension);
    if !has_ffmpeg {
        Some("未找到 ffmpeg,无法从录屏抽帧"@)
    } else if !exists {
        Some("录屏文件不存在: "@ + path)
    } else if e != "mp4"@ && e != "mov"@ && e != "m4v"@ {
        Some("仅支持 .mp4/.mov/.m4v 录屏文件"@)
    } else {
        None
    }
}

/// Checks that a recording can be worked on.
pub fn check_recording(has_ffmpeg: bool, exists: bool, path: &str, extension: &str) -> (r: Result<
    (),
    String,
>)
    ensures
        match recording_objection(has_ffmpeg, exists, path@, extension@) {
            Some(m) => r matches Err(e) && e@ == m,
            None => r is Ok,
        },
{
    if !has_ffmpeg {
        return Err(String::from_str("未找到 ffmpeg,无法从录屏抽帧"));
    }
    if !exists {
        return Err(cat2("录屏文件不存在: ", path));
    }
    let e = lower_text(extension);
    if same_text(e.as_str(), "mp4") || same_text(e.as_str(), "mov") || same_text(
        e.as_str(),
        "m4v",
    ) {
        Ok(())
    } else {
        Err(String::from_str("仅支持 .mp4/.mov/.m4v 录屏文件"))
    }
}

/// Whether the tool that reads text from pictures is there.
pub enum OcrTool {
    Found,
    Missing(String),
    /// It is not known where to look.
    NoHome,
}

/// Checks that the text can be read, if it is to be read.
pub fn check_ocr_tool(run_ocr: Option<bool>, tool: &OcrTool) -> (r: Result<(), String>)
    ensures
        if run_ocr == Some(false) {
            r is Ok
        } else {
            match tool {
                OcrTool::Found => r is Ok,
                OcrTool::Missing(p) => r matches Err(e) && e@ == "未找到 OCR 工具: "@ + p@,
                OcrTool::NoHome => r matches Err(e) && e@
                    == "无法定位用户目录,不能检查 OCR 工具"@,
            }
        },
{
    if let Some(false) = run_ocr {
        return Ok(());
    }
    match tool {
        OcrTool::Found => Ok(()),
        OcrTool::Missing(p) => Err(cat2("未找到 OCR 工具: ", p.as_str())),
        OcrTool::NoHome => Err(String::from_str("无法定位用户目录,不能检查 OCR 工具")),
    }
}

/// Where the output goes.
pub enum OutputChoice {
    /// Into the folder of a case.
    Case(String),
    /// Into a folder.
    Folder(String),
}

/// Where the output goes, as data.
pub enum ChoiceModel {
    Case(Seq<char>),
    Folder(Seq<char>),
}

impl View for OutputChoice {
    type V = ChoiceModel;

    open spec fn view(&self) -> ChoiceModel {
        match *self {
            OutputChoice::Case(c) => ChoiceModel::Case(c@),
            OutputChoice::Folder(f) => ChoiceModel::Folder(f@),
        }
    }
}

/// A text that holds more than white space.
pub open spec fn present(s: Option<Seq<char>>) -> Option<Seq<char>> {
    match s {
        Some(t) => if is_blank(t) {
            None
        } else {
            Some(t)
        },
        None => None,
    }
}

/// Where the output goes: to the case if one is named, or else to the folder.
pub fn choose_output(case_id: &Option<String>, target_folder: &Option<String>) -> (r: Result<
    OutputChoice,
    String,
>)
    ensures
        match present(optional(*case_id)) {
            Some(c) => r matches Ok(o) && o@ == ChoiceModel::Case(c),
            None => match present(optional(*target_folder)) {
                Some(f) => r matches Ok(o) && o@ == ChoiceModel::Folder(f),
                None => r matches Err(e) && e@ == "请选择归档案件或本地输出文件夹"@,
            },
        },
{
    if let Some(c) = case_id {
        if !blank(c.as_str()) {
            return Ok(OutputChoice::Case(c.clone()));
        }
    }
    if let Some(f) = target_folder {
        if !blank(f.as_str()) {
            return Ok(OutputChoice::Folder(f.clone()));
        }
    }
    Err(String::from_str("请选择归档案件或本地输出文件夹"))
}

/// What is said of a place that cannot be used.
pub fn place_error(choice: &OutputChoice, case_found: bool, folder: &str) -> (r: String)
    ensures
        match choice {
            OutputChoice::Case(c) => r@ == if case_found {
                "案件源文件夹不可用: "@ + folder@
            } else {
                "案件不存在: "@ + c@
            },
            OutputChoice::Folder(f) => r@ == "本地输出文件夹不可用: "@ + f@,
        },
{
    match choice {
        OutputChoice::Case(c) => if case_found {
            cat2("案件源文件夹不可用: ", folder)
        } else {
            cat2("案件不存在: ", c.as_str())
        },
        OutputChoice::Folder(f) => cat2("本地输出文件夹不可用: ", f.as_str()),
    }
}

/// The name of the directory of a job: that of the recording, and the time.
pub fn output_name(stem: Option<String>, stamp: &str) -> (r: String)
    ensures
        match stem {
            Some(s) => r@ == path_segment(s@) + "_"@ + stamp@,
            None => r@ == "录屏"@ + "_"@ + stamp@,
        },
{
    let name = match stem {
        Some(s) => sanitize_path_segment(s.as_str()),
        None => String::from_str("录屏"),
    };
    cat3(name.as_str(), "_", stamp)
}

/// The name of a status.
pub open spec fn status_name(status: WechatEvidenceJobStatus) -> Seq<char> {
    match status {
        WechatEvidenceJobStatus::Queued => "Queued"@,
        WechatEvidenceJobStatus::Running => "Running"@,
        WechatEvidenceJobStatus::Completed => "Completed"@,
        WechatEvidenceJobStatus::Failed => "Failed"@,
        WechatEvidenceJobStatus::Stopped => "Stopped"@,
    }
}

fn status_text(status: WechatEvidenceJobStatus) -> (r: &'static str)
    ensures
        r@ == status_name(status),
{
    match status {
        WechatEvidenceJobStatus::Queued => "Queued",
        WechatEvidenceJobStatus::Running => "Running",
        WechatEvidenceJobStatus::Completed => "Completed",
        WechatEvidenceJobStatus::Failed => "Failed",
        WechatEvidenceJobStatus::Stopped => "Stopped",
    }
}

/// A text, or another if there is none.
pub open spec fn text_or(s: Option<Seq<char>>, other: Seq<char>) -> Seq<char> {
    match s {
        Some(t) => t,
        None => other,
    }
}

fn push_or(out: &mut String, s: &Option<String>, other: &str)
    ensures
        final(out)@ == old(out)@ + text_or(optional(*s), other@),
{
    match s {
        Some(t) => out.append(t.as_str()),
        None => out.append(other),
    }
}

/// The names of the files of a job, a line each.
pub open spec fn file_list(files: Seq<Seq<char>>) -> Seq<char> {
    if files.len() == 0 {
        "- (未列出文件)\n"@
    } else {
        let s = sorted_texts(files);
        join(Seq::new(s.len(), |i: int| "- `"@ + s[i] + "`"@), "\n"@) + "\n"@
    }
}

fn list_files(files: &Vec<String>) -> (r: String)
    ensures
        r@ == file_list(texts(files@)),
{
    assert(texts(files@).len() == files@.len());
    if files.len() == 0 {
        return String::from_str("- (未列出文件)\n");
    }
    let sorted = sort_texts(files);
    let ghost s = texts(sorted@);
    let ghost want = Seq::new(s.len(), |i: int| "- `"@ + s[i] + "`"@);
    let mut lines: Vec<String> = Vec::new();
    let mut i: usize = 0;
    while i < sorted.len()
        invariant
            i <= sorted@.len(),
            s == texts(sorted@),
            want == Seq::new(s.len(), |i: int| "- `"@ + s[i] + "`"@),
            texts(lines@) =~= want.subrange(0, i as int),
        decreases sorted@.len() - i,
    {
        let ghost before = texts(lines@);
        let line = cat3("- `", sorted[i].as_str(), "`");
        assert(line@ == want[i as int]);
        lines.push(line);
        assert(texts(lines@) =~= before.push(line@));
        i = i + 1;
    }
    assert(texts(lines@) =~= want);
    let mut out = join_texts(&lines, "\n");
    out.append("\n");
    out
}

/// The note that is left with the output of a job.
pub open spec fn note_of(
    job: JobModel,
    input: WechatEvidenceStartInput,
    output_dir: Seq<char>,
    files: Seq<Seq<char>>,
) -> Seq<char> {
    "# 录屏取证任务说明\n\n> 原视频、截图和 PDF 是证据本体；OCR 文字、说话人身份、日期、金额和法律判断均需人工核实。\n\n- 任务状态: "@
        + status_name(job.status) + "\n- 原视频: `"@ + job.video_path + "`\n- 目标案件 ID: `"@
        + text_or(job.case_id, "未归档到案件"@) + "`\n- 本地输出根目录: `"@ + text_or(
        optional(input.target_folder),
        "未单独指定"@,
    ) + "`\n- 输出目录: `"@ + output_dir + "`\n- 开始时间: "@ + job.started_at
        + "\n- 完成时间: "@ + text_or(job.finished_at, "未完成"@)
        + "\n- 抽帧间隔: 固定间隔(默认1秒/帧)+保串联去重\n- 开头详情页保留秒数: "@
        + input.head_secs_text@ + "\n- OCR: "@ + (if input.run_ocr == Some(false) {
        "否"@
    } else {
        "是"@
    }) + "\n- OCR 范围: "@ + text_or(optional(input.ocr_scope), "selected"@)
        + "\n- 云端文字增强: "@ + (if input.cloud_text_summary == Some(true) {
        "是，仅发送 OCR 文本和审计元数据"@
    } else {
        "否"@
    }) + "\n- PDF: "@ + text_or(job.pdf_path, "未生成"@) + "\n- 分析报告: "@ + text_or(
        job.report_path,
        "未生成"@,
    ) + "\n\n## 输出文件\n\n"@ + file_list(files) + "\n"@
}

/// The note that is left with the output of a job; none if there is no
/// directory to leave it in.
pub fn task_note(
    job: &WechatEvidenceJob,
    input: &WechatEvidenceStartInput,
    files: &Vec<String>,
) -> (r: Option<String>)
    ensures
        match job@.output_dir {
            Some(d) => r matches Some(n) && n@ == note_of(job@, *input, d, texts(files@)),
            None => r is None,
        },
{
    let output_dir = match &job.output_dir {
        Some(d) => d,
        None => {
            return None;
        },
    };
    let mut out = String::from_str(
        "# 录屏取证任务说明\n\n> 原视频、截图和 PDF 是证据本体；OCR 文字、说话人身份、日期、金额和法律判断均需人工核实。\n\n- 任务状态: ",
    );
    out.append(status_text(job.status));
    out.append("\n- 原视频: `");
    out.append(job.video_path.as_str());
    out.append("`\n- 目标案件 ID: `");
    push_or(&mut out, &job.case_id, "未归档到案件");
    out.append("`\n- 本地输出根目录: `");
    push_or(&mut out, &input.target_folder, "未单独指定");
    out.append("`\n- 输出目录: `");
    out.append(output_dir.as_str());
    out.append("`\n- 开始时间: ");
    out.append(job.started_at.as_str());
    out.append("\n- 完成时间: ");
    push_or(&mut out, &job.finished_at, "未完成");
    out.append("\n- 抽帧间隔: 固定间隔(默认1秒/帧)+保串联去重\n- 开头详情页保留秒数: ");
    out.append(input.head_secs_text.as_str());
    out.append("\n- OCR: ");
    let no_ocr = match input.run_ocr {
        Some(b) => !b,
        None => false,
    };
    out.append(
        if no_ocr {
            "否"
        } else {
            "是"
        },
    );
    out.append("\n- OCR 范围: ");
    push_or(&mut out, &input.ocr_scope, "selected");
    out.append("\n- 云端文字增强: ");
    let cloud = match input.cloud_text_summary {
        Some(b) => b,
        None => false,
    };
    out.append(
        if cloud {
            "是，仅发送 OCR 文本和审计元数据"
        } else {
            "否"
        },
    );
    out.append("\n- PDF: ");
    push_or(&mut out, &job.pdf_path, "未生成");
    out.append("\n- 分析报告: ");
    push_or(&mut out, &job.report_path, "未生成");
    out.append("\n\n## 输出文件\n\n");
    let list = list_files(files);
    out.append(list.as_str());
    out.append("\n");
    Some(out)
}

/// A recording can be worked on if and only if the tool that cuts it is there, the
/// file is there, and its name ends in one of the three endings, however they are
/// typed.
pub proof fn recordings_need_tool_file_and_ending(
    has_ffmpeg: bool,
    is_there: bool,
    path: Seq<char>,
    extension: Seq<char>,
)
    ensures
        recording_objection(has_ffmpeg, is_there, path, extension) is None <==> has_ffmpeg
            && is_there && (ascii_lower(extension) == "mp4"@ || ascii_lower(extension) == "mov"@
            || ascii_lower(extension) == "m4v"@),
{
}

/// Every file of a job is listed, in order.
pub proof fn every_file_is_listed(files: Seq<Seq<char>>, i: int)
    requires
        0 <= i < files.len(),
    ensures
        contains(file_list(files), "- `"@ + files[i] + "`"@),
{
    broadcast use vstd::seq_lib::group_to_multiset_ensures;

    sorting_sorts(files);
    let s = sorted_texts(files);
    assert(files.contains(files[i]));
    assert(s.to_multiset().count(files[i]) > 0);
    assert(s.contains(files[i]));
    let k = choose|k: int| 0 <= k < s.len() && s[k] == files[i];
    let lines = Seq::new(s.len(), |i: int| "- `"@ + s[i] + "`"@);
    joined_parts_are_there(lines, "\n"@, k);
    parts_hold_in_the_whole(Seq::empty(), join(lines, "\n"@), "\n"@, lines[k]);
    assert(Seq::empty() + join(lines, "\n"@) + "\n"@ =~= file_list(files));
}

/// The note says what became of the job: its status, the recording, the place of the
/// output, and the files.
pub proof fn notes_say_what_became_of_the_job(
    job: JobModel,
    input: WechatEvidenceStartInput,
    output_dir: Seq<char>,
    files: Seq<Seq<char>>,
)
    ensures
        contains(note_of(job, input, output_dir, files), "\n- 原视频: `"@ + job.video_path),
        contains(note_of(job, input, output_dir, files), "`\n- 输出目录: `"@ + output_dir),
        contains(note_of(job, input, output_dir, files), file_list(files)),
        job.status == WechatEvidenceJobStatus::Completed ==> contains(
            note_of(job, input, output_dir, files),
            "- 任务状态: "@ + "Completed"@,
        ),
        job.pdf_path is Some ==> contains(
            note_of(job, input, output_dir, files),
            "\n- PDF: "@ + job.pdf_path->0,
        ),
        job.report_path is Some ==> contains(
            note_of(job, input, output_dir, files),
            "\n- 分析报告: "@ + job.report_path->0,
        ),
        job.case_id is Some ==> contains(
            note_of(job, input, output_dir, files),
            "`\n- 目标案件 ID: `"@ + job.case_id->0,
        ),
{
    let whole = note_of(job, input, output_dir, files);
    let head =
        "# 录屏取证任务说明\n\n> 原视频、截图和 PDF 是证据本体；OCR 文字、说话人身份、日期、金额和法律判断均需人工核实。\n\n- 任务状态: "@;
    let a0 = head + status_name(job.status);
    let a1 = a0 + "\n- 原视频: `"@ + job.video_path;
    let a2 = a1 + "`\n- 目标案件 ID: `"@ + text_or(job.case_id, "未归档到案件"@);
    let a3 = a2 + "`\n- 本地输出根目录: `"@ + text_or(optional(input.target_folder), "未单独指定"@);
    let a4 = a3 + "`\n- 输出目录: `"@ + output_dir;
    let a5 = a4 + "`\n- 开始时间: "@ + job.started_at + "\n- 完成时间: "@ + text_or(
        job.finished_at,
        "未完成"@,
    ) + "\n- 抽帧间隔: 固定间隔(默认1秒/帧)+保串联去重\n- 开头详情页保留秒数: "@
        + input.head_secs_text@ + "\n- OCR: "@ + (if input.run_ocr == Some(false) {
        "否"@
    } else {
        "是"@
    }) + "\n- OCR 范围: "@ + text_or(optional(input.ocr_scope), "selected"@)
        + "\n- 云端文字增强: "@ + (if input.cloud_text_summary == Some(true) {
        "是，仅发送 OCR 文本和审计元数据"@
    } else {
        "否"@
    });
    let a6 = a5 + "\n- PDF: "@ + text_or(job.pdf_path, "未生成"@);
    let a7 = a6 + "\n- 分析报告: "@ + text_or(job.report_path, "未生成"@);
    let a8 = a7 + "\n\n## 输出文件\n\n"@ + file_list(files);
    assert(whole == a8 + "\n"@);
    lemma_goes_on(a8, "\n"@, Seq::empty());
    lemma_goes_on(a7, "\n\n## 输出文件\n\n"@, file_list(files));
    lemma_goes_on(a6, "\n- 分析报告: "@, text_or(job.report_path, "未生成"@));
    lemma_goes_on(a5, "\n- PDF: "@, text_or(job.pdf_path, "未生成"@));
    lemma_note_middle(job, input, a4);
    lemma_goes_on(a3, "`\n- 输出目录: `"@, output_dir);
    lemma_goes_on(
        a2,
        "`\n- 本地输出根目录: `"@,
        text_or(optional(input.target_folder), "未单独指定"@),
    );
    lemma_goes_on(a1, "`\n- 目标案件 ID: `"@, text_or(job.case_id, "未归档到案件"@));
    lemma_goes_on(a0, "\n- 原视频: `"@, job.video_path);
    let start = head.subrange(0, head.len() - "- 任务状态: "@.len());
    reveal_strlit(
        "# 录屏取证任务说明\n\n> 原视频、截图和 PDF 是证据本体；OCR 文字、说话人身份、日期、金额和法律判断均需人工核实。\n\n- 任务状态: ",
    );
    reveal_strlit("- 任务状态: ");
    assert(head =~= start + "- 任务状态: "@);
    lemma_goes_on(start, "- 任务状态: "@, status_name(job.status));
    assert(start + "- 任务状态: "@ + status_name(job.status) =~= a0);
    lemma_within(a0, a1, "- 任务状态: "@ + status_name(job.status));
    lemma_within(a1, a2, "- 任务状态: "@ + status_name(job.status));
    lemma_within(a2, a4, "- 任务状态: "@ + status_name(job.status));
    lemma_within(a4, a8, "- 任务状态: "@ + status_name(job.status));
    lemma_within(a8, whole, "- 任务状态: "@ + status_name(job.status));
    lemma_within(a1, a8, "\n- 原视频: `"@ + job.video_path);
    lemma_within(a8, whole, "\n- 原视频: `"@ + job.video_path);
    lemma_within(a2, a8, "`\n- 目标案件 ID: `"@ + text_or(job.case_id, "未归档到案件"@));
    lemma_within(a8, whole, "`\n- 目标案件 ID: `"@ + text_or(job.case_id, "未归档到案件"@));
    lemma_within(a4, a8, "`\n- 输出目录: `"@ + output_dir);
    lemma_within(a8, whole, "`\n- 输出目录: `"@ + output_dir);
    lemma_within(a6, a8, "\n- PDF: "@ + text_or(job.pdf_path, "未生成"@));
    lemma_within(a8, whole, "\n- PDF: "@ + text_or(job.pdf_path, "未生成"@));
    lemma_within(a7, a8, "\n- 分析报告: "@ + text_or(job.report_path, "未生成"@));
    lemma_within(a8, whole, "\n- 分析报告: "@ + text_or(job.report_path, "未生成"@));
    lemma_within(a8, whole, file_list(files));
}

proof fn lemma_note_middle(job: JobModel, input: WechatEvidenceStartInput, a: Seq<char>)
    ensures
        a.is_prefix_of(
            a + "`\n- 开始时间: "@ + job.started_at + "\n- 完成时间: "@ + text_or(
                job.finished_at,
                "未完成"@,
            ) + "\n- 抽帧间隔: 固定间隔(默认1秒/帧)+保串联去重\n- 开头详情页保留秒数: "@
                + input.head_secs_text@ + "\n- OCR: "@ + (if input.run_ocr == Some(false) {
                "否"@
            } else {
                "是"@
            }) + "\n- OCR 范围: "@ + text_or(optional(input.ocr_scope), "selected"@)
                + "\n- 云端文字增强: "@ + (if input.cloud_text_summary == Some(true) {
                "是，仅发送 OCR 文本和审计元数据"@
            } else {
                "否"@
            }),
        ),
{
    let w = a + "`\n- 开始时间: "@ + job.started_at + "\n- 完成时间: "@ + text_or(
        job.finished_at,
        "未完成"@,
    ) + "\n- 抽帧间隔: 固定间隔(默认1秒/帧)+保串联去重\n- 开头详情页保留秒数: "@
        + input.head_secs_text@ + "\n- OCR: "@ + (if input.run_ocr == Some(false) {
        "否"@
    } else {
        "是"@
    }) + "\n- OCR 范围: "@ + text_or(optional(input.ocr_scope), "selected"@)
        + "\n- 云端文字增强: "@ + (if input.cloud_text_summary == Some(true) {
        "是，仅发送 OCR 文本和审计元数据"@
    } else {
        "否"@
    });
    assert(w.subrange(0, a.len() as int) =~= a);
}

/// A text that goes on holds what was there and what was added.
proof fn lemma_goes_on(a: Seq<char>, b: Seq<char>, c: Seq<char>)
    ensures
        a.is_prefix_of(a + b + c),
        contains(a + b + c, b + c),
        contains(a + b + c, c),
        a.is_prefix_of(a + b),
{
    let w = a + b + c;
    assert(w.subrange(0, a.len() as int) =~= a);
    assert((a + b).subrange(0, a.len() as int) =~= a);
    assert(w.subrange(a.len() as int, w.len() as int) =~= b + c);
    assert(occurs_at(w, b + c, a.len() as int));
    assert(w.subrange((a.len() + b.len()) as int, w.len() as int) =~= c);
    assert(occurs_at(w, c, (a.len() + b.len()) as int));
}

/// What is in the beginning of a text is in the text.
proof fn lemma_within(a: Seq<char>, w: Seq<char>, pat: Seq<char>)
    requires
        a.is_prefix_of(w),
        contains(a, pat),
    ensures
        contains(w, pat),
{
    let k = choose|k: int| occurs_at(a, pat, k);
    assert(a == w.subrange(0, a.len() as int));
    assert(w.subrange(k, k + pat.len()) =~= a.subrange(k, k + pat.len()));
    assert(occurs_at(w, pat, k));
}

} // verus!
