//! Setting up a knowledge base.
use vstd::prelude::*;
use crate::local_kb::experience::KbError;
use crate::text::texts;

verus! {

/// The first page of a new knowledge base, up to the tool that writes to it.
pub const WELCOME_START: &'static str = "# 法律知识库\n\n\
这是 CaseBoard 为你创建的空知识库。\n\n\
## 目录说明\n\
- `raw/notes/` — 你手动整理的原始笔记\n\
- `raw/companies/` — 企业档案\n\
- `raw/yuandian-cache/` — **CaseBoard / ";

/// From there to the tool that looks after the sources.
pub const WELCOME_SOURCES: &'static str = " 自动写入的元典缓存**(不建议手动改)\n\
- `raw/cases-experience/` — **CaseBoard 结案案件沉淀的办案经验卡片**(可被 search_local_kb 检索复用)\n\
- `wiki/sources/` — 你整理过的来源页(由 ";

/// From there to the tool that raises what matters.
pub const WELCOME_ADVICE: &'static str = " + legal-kb skill 治理)\n\
- `wiki/topics/` — 专题页\n\n\
## 长期使用建议\n\
- 用 CaseBoard 跑案件 chat,法规/案例自动写入 `raw/yuandian-cache/`\n\
- 用 ";

/// The end of the first page.
pub const WELCOME_END: &'static str = " + legal-kb skill 把重要内容升级到 `wiki/sources/`\n\
- 同事可以通过 CaseBoard 导出/导入资料包共享 `yuandian-cache/`\n";

/// The first page of a new knowledge base. It names the tool with which the
/// user works on it.
pub fn welcome_page(tool: &str) -> (r: String)
    ensures
        r@ == WELCOME_START@ + tool@ + WELCOME_SOURCES@ + tool@ + WELCOME_ADVICE@ + tool@
            + WELCOME_END@,
{
    let mut out = String::from_str(WELCOME_START);
    out.append(tool);
    out.append(WELCOME_SOURCES);
    out.append(tool);
    out.append(WELCOME_ADVICE);
    out.append(tool);
    out.append(WELCOME_END);
    out
}

/// The list of what is missing, when nothing is.
pub const GAP_LOG_MD: &'static str = "# 缺口清单\n\n(暂无)\n";

/// The directories of a knowledge base, each behind the one it is in.
pub open spec fn subdirs() -> Seq<Seq<char>> {
    seq![
        "raw"@,
        "raw/notes"@,
        "raw/companies"@,
        "raw/yuandian-cache"@,
        "raw/cases-experience"@,
        "wiki"@,
        "wiki/sources"@,
        "wiki/topics"@,
    ]
}

/// The directories of a knowledge base, each behind the one it is in.
pub fn kb_subdirs() -> (r: Vec<String>)
    ensures
        texts(r@) == subdirs(),
{
    let mut r: Vec<String> = Vec::new();
    r.push(String::from_str("raw"));
    r.push(String::from_str("raw/notes"));
    r.push(String::from_str("raw/companies"));
    r.push(String::from_str("raw/yuandian-cache"));
    r.push(String::from_str("raw/cases-experience"));
    r.push(String::from_str("wiki"));
    r.push(String::from_str("wiki/sources"));
    r.push(String::from_str("wiki/topics"));
    assert(texts(r@) =~= subdirs());
    r
}

/// What there is where a knowledge base is to be: whether there is anything,
/// whether it is a directory, and which parts are there.
pub struct KbState {
    pub path: String,
    pub exists: bool,
    pub is_dir: bool,
    /// For each directory of `kb_subdirs` whether it is there.
    pub have: Vec<bool>,
    pub have_index: bool,
    pub have_gap_log: bool,
}

/// What is to be made.
pub struct KbPlan {
    /// The directories, in order.
    pub dirs: Vec<String>,
    pub write_index: bool,
    pub write_gap_log: bool,
    pub files_created: u32,
    pub dirs_created: u32,
    /// Whether there was something before.
    pub reused_existing: bool,
}

/// The first `n` directories that are not there.
pub open spec fn missing_dirs(have: Seq<bool>, n: int) -> Seq<Seq<char>>
    decreases n,
{
    if n <= 0 {
        Seq::empty()
    } else if n <= have.len() && have[n - 1] {
        missing_dirs(have, n - 1)
    } else {
        missing_dirs(have, n - 1).push(subdirs()[n - 1])
    }
}

/// What is to be made for a knowledge base: the directories and files that are
/// not there. What is there is left alone.
pub fn plan_kb(state: &KbState) -> (r: Result<KbPlan, KbError>)
    ensures
        if state.exists && !state.is_dir {
            r matches Err(KbError::NotADir(p)) && p@ == state.path@
        } else {
            r matches Ok(p) && texts(p.dirs@) == missing_dirs(state.have@, 8) && p.write_index
                == !state.have_index && p.write_gap_log == !state.have_gap_log && p.files_created
                == (if state.have_index {
                0int
            } else {
                1int
            }) + (if state.have_gap_log {
                0int
            } else {
                1int
            }) && p.dirs_created == p.dirs@.len() + (if state.exists {
                0int
            } else {
                1int
            }) && p.reused_existing == state.exists
        },
{
    if state.exists && !state.is_dir {
        return Err(KbError::NotADir(state.path.clone()));
    }
    let all = kb_subdirs();
    assert(texts(all@).len() == 8);
    let mut dirs: Vec<String> = Vec::new();
    let mut i: usize = 0;
    let mut count: u32 = 0;
    assert(texts(dirs@) =~= missing_dirs(state.have@, 0));
    while i < 8
        invariant
            i <= 8,
            all@.len() == 8,
            texts(all@) == subdirs(),
            count == dirs@.len(),
            count <= i,
            texts(dirs@) == missing_dirs(state.have@, i as int),
        decreases 8 - i,
    {
        let there = i < state.have.len() && state.have[i];
        if !there {
            let ghost before = texts(dirs@);
            dirs.push(all[i].clone());
            assert(texts(all@)[i as int] == all@[i as int]@);
            assert(texts(dirs@) =~= before.push(subdirs()[i as int]));
            count = count + 1;
        }
        i = i + 1;
    }
    let mut files_created: u32 = 0;
    if !state.have_index {
        files_created = files_created + 1;
    }
    if !state.have_gap_log {
        files_created = files_created + 1;
    }
    let dirs_created: u32 = if state.exists {
        count
    } else {
        count + 1
    };
    Ok(
        KbPlan {
            dirs,
            write_index: !state.have_index,
            write_gap_log: !state.have_gap_log,
            files_created,
            dirs_created,
            reused_existing: state.exists,
        },
    )
}

proof fn lemma_nothing_missing(have: Seq<bool>, n: int)
    requires
        0 <= n <= have.len(),
        forall|i: int| 0 <= i < n ==> #[trigger] have[i],
    ensures
        missing_dirs(have, n).len() == 0,
    decreases n,
{
    if n > 0 {
        lemma_nothing_missing(have, n - 1);
    }
}

/// A knowledge base that is whole is left alone: no directory is missing.
pub proof fn whole_base_is_left_alone(have: Seq<bool>)
    requires
        have.len() == 8,
        forall|i: int| 0 <= i < 8 ==> #[trigger] have[i],
    ensures
        missing_dirs(have, 8).len() == 0,
{
    lemma_nothing_missing(have, 8);
}

/// A directory is made if and only if it is not there, and one that lies in another
/// is made behind it.
pub proof fn every_missing_directory_is_made(have: Seq<bool>, i: int)
    requires
        have.len() == 8,
        0 <= i < 8,
    ensures
        !have[i] ==> missing_dirs(have, 8).contains(subdirs()[i]),
        (forall|k: int| 0 <= k < 8 ==> !#[trigger] have[k]) ==> missing_dirs(have, 8) == subdirs(),
        missing_dirs(have, 8).len() <= 8,
        forall|d: Seq<char>| #[trigger]
            missing_dirs(have, 8).contains(d) ==> exists|k: int|
                0 <= k < 8 && !#[trigger] have[k] && subdirs()[k] == d,
{
    lemma_missing(have, 8, i);
    if forall|k: int| 0 <= k < 8 ==> !#[trigger] have[k] {
        lemma_all_missing(have, 8);
        assert(missing_dirs(have, 8) =~= subdirs());
    }
    assert forall|d: Seq<char>| #[trigger] missing_dirs(have, 8).contains(d) implies exists|k: int|
        0 <= k < 8 && !#[trigger] have[k] && subdirs()[k] == d by {
        lemma_made(have, 8, d);
    }
}

proof fn lemma_missing(have: Seq<bool>, n: int, i: int)
    requires
        0 <= n <= have.len(),
    ensures
        missing_dirs(have, n).len() <= n,
        0 <= i < n && !have[i] ==> missing_dirs(have, n).contains(subdirs()[i]),
    decreases n,
{
    if n > 0 {
        lemma_missing(have, n - 1, i);
        let before = missing_dirs(have, n - 1);
        let after = missing_dirs(have, n);
        if 0 <= i < n - 1 && !have[i] {
            let k = choose|k: int| 0 <= k < before.len() && before[k] == subdirs()[i];
            assert(after[k] == subdirs()[i]);
        }
        if i == n - 1 && !have[i] {
            assert(after[after.len() - 1] == subdirs()[i]);
        }
    }
}

proof fn lemma_all_missing(have: Seq<bool>, n: int)
    requires
        0 <= n <= have.len(),
        have.len() == 8,
        forall|k: int| 0 <= k < 8 ==> !#[trigger] have[k],
    ensures
        missing_dirs(have, n) == subdirs().subrange(0, n),
    decreases n,
{
    if n > 0 {
        lemma_all_missing(have, n - 1);
        assert(!have[n - 1]);
        assert(subdirs().subrange(0, n - 1).push(subdirs()[n - 1]) =~= subdirs().subrange(0, n));
    } else {
        assert(missing_dirs(have, n) =~= subdirs().subrange(0, n));
    }
}

proof fn lemma_made(have: Seq<bool>, n: int, d: Seq<char>)
    requires
        0 <= n <= have.len(),
        missing_dirs(have, n).contains(d),
    ensures
        exists|k: int| 0 <= k < n && !#[trigger] have[k] && subdirs()[k] == d,
    decreases n,
{
    if n > 0 {
        let before = missing_dirs(have, n - 1);
        let after = missing_dirs(have, n);
        let k = choose|k: int| 0 <= k < after.len() && after[k] == d;
        if have[n - 1] || k < before.len() {
            assert(before[k] == d);
            lemma_made(have, n - 1, d);
        } else {
            assert(!have[n - 1]);
        }
    }
}

} // verus!
