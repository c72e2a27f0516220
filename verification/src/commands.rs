//! Small decisions of single commands: what has to be there before they go on.
use vstd::prelude::*;
use crate::case_files::Case;
use crate::text::{begins_with, blank, cat2, chars_of, is_blank, same_text, string_of};

verus! {

/// Whether an address can be opened: only those of the web.
pub fn check_url(url: &str) -> (r: Result<(), String>)
    ensures
        if "http://"@.is_prefix_of(url@) || "https://"@.is_prefix_of(url@) {
            r is Ok
        } else {
            r matches Err(e) && e@ == "不是合法 http(s) URL: "@ + url@
        },
{
    if begins_with(url, "http://") || begins_with(url, "https://") {
        Ok(())
    } else {
        Err(cat2("不是合法 http(s) URL: ", url))
    }
}

/// The order of the cases on the first page; nothing stands for none.
pub fn home_order(case_ids: Vec<String>) -> (r: Option<Vec<String>>)
    ensures
        case_ids@.len() == 0 ==> r is None,
        case_ids@.len() > 0 ==> r == Some(case_ids),
{
    if case_ids.len() == 0 {
        None
    } else {
        Some(case_ids)
    }
}

/// What is said of an error of the database.
pub fn db_error(e: &str) -> (r: String)
    ensures
        r@ == "数据库错误: "@ + e@,
{
    cat2("数据库错误: ", e)
}

/// A key, or nothing; nothing stands for a key that is not set.
pub fn key_or_empty(key: Option<String>) -> (r: String)
    ensures
        r@ == match key {
            Some(k) => k@,
            None => Seq::empty(),
        },
{
    match key {
        Some(k) => k,
        None => {
            let e = String::new();
            assert(e@ =~= Seq::<char>::empty());
            e
        },
    }
}

/// Whether the knowledge base is to be set up where it is by default: none is
/// set, and the user has not switched it off.
pub fn wants_default_kb(enabled: Option<bool>, root: &Option<String>) -> (r: bool)
    ensures
        r == (enabled != Some(false) && match *root {
            Some(p) => is_blank(p@),
            None => true,
        }),
{
    if let Some(false) = enabled {
        return false;
    }
    match root {
        Some(p) => blank(p.as_str()),
        None => true,
    }
}

/// What to do with a file that is there when a package is imported.
#[derive(Clone, Copy, Debug, PartialEq, Eq, Structural)]
pub enum ConflictStrategy {
    Skip,
    OverwriteOlder,
    AlwaysOverwrite,
}

/// What to do with a file that is there, by its name.
pub fn conflict_strategy(name: &str) -> (r: Result<ConflictStrategy, String>)
    ensures
        if name@ == "skip"@ {
            r matches Ok(s) && s == ConflictStrategy::Skip
        } else if name@ == "overwrite_older"@ {
            r matches Ok(s) && s == ConflictStrategy::OverwriteOlder
        } else if name@ == "always_overwrite"@ {
            r matches Ok(s) && s == ConflictStrategy::AlwaysOverwrite
        } else {
            r matches Err(e) && e@ == "未知冲突策略: "@ + name@
        },
{
    if same_text(name, "skip") {
        Ok(ConflictStrategy::Skip)
    } else if same_text(name, "overwrite_older") {
        Ok(ConflictStrategy::OverwriteOlder)
    } else if same_text(name, "always_overwrite") {
        Ok(ConflictStrategy::AlwaysOverwrite)
    } else {
        Err(cat2("未知冲突策略: ", name))
    }
}

/// The case that is asked for.
pub fn require_case(case: Option<Case>, id: &str) -> (r: Result<Case, String>)
    ensures
        match case {
            Some(c) => r matches Ok(d) && d == c,
            None => r matches Err(e) && e@ == "案件不存在: "@ + id@,
        },
{
    match case {
        Some(c) => Ok(c),
        None => Err(cat2("案件不存在: ", id)),
    }
}

/// The key of the register of companies.
pub fn require_register_key(key: Option<String>) -> (r: Result<String, String>)
    ensures
        match key {
            Some(k) => r matches Ok(l) && l == k,
            None => r matches Err(e) && e@ == "元典 API key 未配置 — 请到 Settings 里填"@,
        },
{
    match key {
        Some(k) => Ok(k),
        None => Err(String::from_str("元典 API key 未配置 — 请到 Settings 里填")),
    }
}

/// The key of the model.
pub fn require_model_key(key: Option<String>) -> (r: Result<String, String>)
    ensures
        match key {
            Some(k) => r matches Ok(l) && l == k,
            None => r matches Err(e) && e@ == "尚未配置云端模型 API Key"@,
        },
{
    match key {
        Some(k) => Ok(k),
        None => Err(String::from_str("尚未配置云端模型 API Key")),
    }
}

/// What is done with the knowledge base.
#[derive(Clone, Copy, Debug, PartialEq, Eq, Structural)]
pub enum KbAction {
    Import,
    Export,
    Prune,
}

/// The word for what is done with the knowledge base.
pub open spec fn action_word(a: KbAction) -> Seq<char> {
    match a {
        KbAction::Import => "导入"@,
        KbAction::Export => "导出"@,
        KbAction::Prune => "清理"@,
    }
}

/// Whether there is a knowledge base to do something with.
pub fn require_kb(found: bool, action: KbAction) -> (r: Result<(), String>)
    ensures
        found ==> r is Ok,
        !found ==> (r matches Err(e) && e@ == "本地知识库未启用,无法"@ + action_word(action)),
{
    if found {
        return Ok(());
    }
    let word = match action {
        KbAction::Import => "导入",
        KbAction::Export => "导出",
        KbAction::Prune => "清理",
    };
    Err(cat2("本地知识库未启用,无法", word))
}

/// A text without an ending, however often it stands there.
pub open spec fn without_ending(s: Seq<char>, ending: Seq<char>) -> Seq<char>
    decreases s.len(),
{
    if ending.len() > 0 && ending.is_suffix_of(s) {
        without_ending(s.subrange(0, s.len() - ending.len()), ending)
    } else {
        s
    }
}

/// The title of a document that names none: the name of its file.
pub fn title_from_filename(filename: &str) -> (r: String)
    ensures
        r@ == without_ending(filename@, ".md"@),
{
    proof {
        reveal_strlit(".md");
    }
    let mut cs = chars_of(filename);
    while cs.len() >= 3 && cs[cs.len() - 3] == '.' && cs[cs.len() - 2] == 'm' && cs[cs.len() - 1]
        == 'd'
        invariant
            ".md"@ =~= seq!['.', 'm', 'd'],
            without_ending(filename@, ".md"@) == without_ending(cs@, ".md"@),
        decreases cs@.len(),
    {
        let n: usize = cs.len();
        assert(cs@.subrange(n - 3, n as int) =~= ".md"@);
        cs.truncate(n - 3);
    }
    proof {
        if ".md"@.is_suffix_of(cs@) {
            let n = cs@.len();
            let t = cs@.subrange(n - 3, n as int);
            assert(t[0] == '.' && t[1] == 'm' && t[2] == 'd');
        }
    }
    string_of(cs.as_slice())
}

/// Parcels are asked about only with both parts of the credentials.
pub fn can_ask_carrier(customer: &str, key: &str) -> (r: bool)
    ensures
        r == (customer@.len() > 0 && key@.len() > 0),
{
    customer.unicode_len() > 0 && key.unicode_len() > 0
}

/// A title is the name of the file without its ending: what is left does not end so,
/// and nothing but endings was taken.
pub proof fn titles_have_no_ending(s: Seq<char>, ending: Seq<char>)
    requires
        ending.len() > 0,
    ensures
        !ending.is_suffix_of(s) ==> without_ending(s, ending) == s,
        without_ending(s + ending, ending) == without_ending(s, ending),
        without_ending(s, ending).is_prefix_of(s),
        !ending.is_suffix_of(without_ending(s, ending)),
    decreases s.len(),
{
    let w = s + ending;
    assert(w.subrange(w.len() - ending.len(), w.len() as int) =~= ending);
    assert(w.subrange(0, w.len() - ending.len()) =~= s);
    if ending.is_suffix_of(s) {
        let t = s.subrange(0, s.len() - ending.len());
        titles_have_no_ending(t, ending);
        let o = without_ending(t, ending);
        assert(s.subrange(0, o.len() as int) =~= t.subrange(0, o.len() as int));
    } else {
        assert(s.subrange(0, s.len() as int) =~= s);
    }
}

} // verus!
