//! The model server on this machine.
use vstd::prelude::*;
use crate::json::optional;
use crate::text::{cat2, cat3, decimal, decimal_text, texts};

verus! {

pub const MAIN_MODEL_FILENAME: &'static str = "MiniCPM-V-4_6-Q8_0.gguf";

pub const MMPROJ_FILENAME: &'static str = "mmproj-model-f16.gguf";

/// The server may take this many seconds to load its model.
pub const SERVER_READY_TIMEOUT_SEC: u64 = 90;

/// What there is on this machine.
pub struct LocalReadiness {
    pub model_dir: Option<String>,
    pub has_main_model: bool,
    pub has_mmproj: bool,
    pub llama_cpp_installed: bool,
    pub server_running: bool,
    pub server_endpoint: String,
}

/// A directory that was looked for, and whether it exists.
pub struct Probe {
    pub path: String,
    pub exists: bool,
}

/// The path of a directory that exists.
pub open spec fn found(p: Option<Probe>) -> Option<Seq<char>> {
    match p {
        Some(d) => if d.exists {
            Some(d.path@)
        } else {
            None
        },
        None => None,
    }
}

/// The first directory that exists: the one the user named, the one of LM
/// Studio, the one of this application.
pub open spec fn model_dir_of(
    named: Option<Probe>,
    lm_studio: Option<Probe>,
    own: Option<Probe>,
) -> Option<Seq<char>> {
    match found(named) {
        Some(p) => Some(p),
        None => match found(lm_studio) {
            Some(p) => Some(p),
            None => found(own),
        },
    }
}

fn existing(p: Option<Probe>) -> (r: Option<String>)
    ensures
        optional(r) == found(p),
{
    match p {
        Some(d) => if d.exists {
            Some(d.path)
        } else {
            None
        },
        None => None,
    }
}

/// The first directory that exists: the one the user named, the one of LM
/// Studio, the one of this application.
pub fn resolve_model_dir(
    named: Option<Probe>,
    lm_studio: Option<Probe>,
    own: Option<Probe>,
) -> (r: Option<String>)
    ensures
        optional(r) == model_dir_of(named, lm_studio, own),
{
    match existing(named) {
        Some(p) => Some(p),
        None => match existing(lm_studio) {
            Some(p) => Some(p),
            None => existing(own),
        },
    }
}

/// What there is on this machine, from what was looked for. Without a directory
/// there are no models in it.
pub fn detect_local_readiness(
    model_dir: Option<String>,
    main_exists: bool,
    mmproj_exists: bool,
    installed: bool,
    running: bool,
) -> (r: LocalReadiness)
    ensures
        r.model_dir == model_dir,
        r.has_main_model == (model_dir is Some && main_exists),
        r.has_mmproj == (model_dir is Some && mmproj_exists),
        r.llama_cpp_installed == installed,
        r.server_running == running,
        r.server_endpoint@ == "http://127.0.0.1:8899"@,
{
    let has_dir = model_dir.is_some();
    LocalReadiness {
        model_dir,
        has_main_model: has_dir && main_exists,
        has_mmproj: has_dir && mmproj_exists,
        llama_cpp_installed: installed,
        server_running: running,
        server_endpoint: String::from_str("http://127.0.0.1:8899"),
    }
}

/// The arguments with which the server is started.
pub open spec fn server_args(main: Seq<char>, mmproj: Seq<char>) -> Seq<Seq<char>> {
    seq![
        "-m"@,
        main,
        "--mmproj"@,
        mmproj,
        "--host"@,
        "127.0.0.1"@,
        "--port"@,
        "8899"@,
        "-c"@,
        "8192"@,
        "-ngl"@,
        "999"@,
    ]
}

/// How the server is to be started.
pub enum ServerPlan {
    /// It runs already.
    Running,
    /// Start the program with the arguments.
    Start { program: String, args: Vec<String> },
}

/// How to start the server: not at all if it runs, and otherwise only if the
/// program and both files of the model are there.
pub fn plan_server(
    running: bool,
    program: Option<String>,
    main: &Probe,
    mmproj: &Probe,
) -> (r: Result<ServerPlan, String>)
    ensures
        if running {
            r matches Ok(ServerPlan::Running)
        } else {
            match program {
                None => r matches Err(e) && e@
                    == "llama-server 没装 — 请先运行 `brew install llama.cpp`"@,
                Some(bin) => if !main.exists {
                    r matches Err(e) && e@ == "主模型缺失: "@ + main.path@
                } else if !mmproj.exists {
                    r matches Err(e) && e@ == "视觉投影器缺失: "@ + mmproj.path@
                } else {
                    r matches Ok(ServerPlan::Start { program: p, args }) && p@ == bin@ && texts(
                        args@,
                    ) == server_args(main.path@, mmproj.path@)
                },
            }
        },
{
    if running {
        return Ok(ServerPlan::Running);
    }
    let bin = match program {
        Some(b) => b,
        None => {
            return Err(
                String::from_str("llama-server 没装 — 请先运行 `brew install llama.cpp`"),
            );
        },
    };
    if !main.exists {
        return Err(cat2("主模型缺失: ", main.path.as_str()));
    }
    if !mmproj.exists {
        return Err(cat2("视觉投影器缺失: ", mmproj.path.as_str()));
    }
    let mut args: Vec<String> = Vec::new();
    args.push(String::from_str("-m"));
    args.push(main.path.clone());
    args.push(String::from_str("--mmproj"));
    args.push(mmproj.path.clone());
    args.push(String::from_str("--host"));
    args.push(String::from_str("127.0.0.1"));
    args.push(String::from_str("--port"));
    args.push(String::from_str("8899"));
    args.push(String::from_str("-c"));
    args.push(String::from_str("8192"));
    args.push(String::from_str("-ngl"));
    args.push(String::from_str("999"));
    assert(texts(args@) =~= server_args(main.path@, mmproj.path@));
    Ok(ServerPlan::Start { program: bin, args })
}

/// What to do while the server loads its model.
pub enum WaitStep {
    Ready,
    /// Ask again after two seconds; now and then say how long it has been.
    Again { report_secs: Option<u64> },
    TimedOut(String),
}

/// What to do after `tried` questions and `elapsed_secs` seconds: stop if the
/// time is up, otherwise if the server answers, otherwise ask again.
pub fn wait_step(elapsed_secs: u64, tried: u32, answers: bool) -> (r: WaitStep)
    ensures
        if elapsed_secs >= SERVER_READY_TIMEOUT_SEC {
            r matches WaitStep::TimedOut(m) && m@ == "等了 "@ + decimal(90)
                + "s,llama-server :8899 还没就绪。检查 ~/.local/share/CaseBoard/llama-server.log"@
        } else if answers {
            r is Ready
        } else {
            r matches WaitStep::Again { report_secs } && report_secs == (if (tried + 1) % 5 == 0 {
                Some(((tried + 1) * 2) as u64)
            } else {
                None::<u64>
            })
        },
{
    if elapsed_secs >= SERVER_READY_TIMEOUT_SEC {
        let n = decimal_text(SERVER_READY_TIMEOUT_SEC as u128);
        return WaitStep::TimedOut(
            cat3(
                "等了 ",
                n.as_str(),
                "s,llama-server :8899 还没就绪。检查 ~/.local/share/CaseBoard/llama-server.log",
            ),
        );
    }
    if answers {
        return WaitStep::Ready;
    }
    let now: u64 = tried as u64 + 1;
    let report_secs: Option<u64> = if now % 5 == 0 {
        Some(now * 2)
    } else {
        None
    };
    WaitStep::Again { report_secs }
}

/// Whether the server is needed: not if it runs; otherwise there has to be a
/// directory with models.
pub fn plan_ready(running: bool, model_dir: Option<String>) -> (r: Result<Option<String>, String>)
    ensures
        if running {
            r matches Ok(None)
        } else {
            match model_dir {
                Some(d) => r == Ok::<Option<String>, String>(Some(d)),
                None => r matches Err(e) && e@
                    == "找不到本机模型目录 — 请先去 Settings 配置或下载模型"@,
            }
        },
{
    if running {
        return Ok(None);
    }
    match model_dir {
        Some(d) => Ok(Some(d)),
        None => Err(
            String::from_str("找不到本机模型目录 — 请先去 Settings 配置或下载模型"),
        ),
    }
}

/// The directory that the user named comes first, then the one of LM Studio, then
/// the one of this application, and each counts only if it exists.
pub proof fn the_first_directory_that_exists_counts(
    named: Option<Probe>,
    lm_studio: Option<Probe>,
    own: Option<Probe>,
)
    ensures
        ({
            let dir = model_dir_of(named, lm_studio, own);
            let first = named is Some && named->0.exists;
            let second = lm_studio is Some && lm_studio->0.exists;
            let third = own is Some && own->0.exists;
            &&& first ==> dir == Some(named->0.path@)
            &&& !first && second ==> dir == Some(lm_studio->0.path@)
            &&& !first && !second && third ==> dir == Some(own->0.path@)
            &&& !first && !second && !third ==> dir is None
        }),
{
}

/// The server listens on this machine alone, at the port at which it is asked, and
/// reads both files of the model.
pub proof fn servers_listen_on_this_machine(main: Seq<char>, mmproj: Seq<char>)
    ensures
        ({
            let args = server_args(main, mmproj);
            &&& args.len() % 2 == 0
            &&& args[0] == "-m"@ && args[1] == main
            &&& args[2] == "--mmproj"@ && args[3] == mmproj
            &&& args[4] == "--host"@ && args[6] == "--port"@
            &&& "http://"@ + args[5] + ":"@ + args[7] == "http://127.0.0.1:8899"@
        }),
{
    reveal_strlit("http://");
    reveal_strlit("127.0.0.1");
    reveal_strlit(":");
    reveal_strlit("8899");
    reveal_strlit("http://127.0.0.1:8899");
    assert("http://"@ + "127.0.0.1"@ + ":"@ + "8899"@ =~= "http://127.0.0.1:8899"@);
}

} // verus!
