//! Keeping what was learned from a case.
use vstd::prelude::*;
use crate::text::{cat3, chars_of, copy_range, first_chars, head_text, string_of, trim, trim_text};
use crate::wechat_evidence::is_path_char;

verus! {

/// Where the cards are, below the knowledge base.
pub const EXPERIENCE_SUBDIR: &'static str = "raw/cases-experience";

/// A control character.
pub open spec fn is_control(c: char) -> bool {
    (c as u32) <= 0x1f || 0x7f <= (c as u32) <= 0x9f
}

/// A text with an underscore for each control character and each character that
/// may not stand in the name of a file.
pub open spec fn cleaned(s: Seq<char>) -> Seq<char> {
    Seq::new(
        s.len(),
        |i: int|
            if is_control(s[i]) || is_path_char(s[i]) {
                '_'
            } else {
                s[i]
            },
    )
}

/// `s` without the dots in front.
pub open spec fn without_front_dots(s: Seq<char>) -> Seq<char>
    decreases s.len(),
{
    if s.len() > 0 && s[0] == '.' {
        without_front_dots(s.drop_first())
    } else {
        s
    }
}

/// `s` without the dots at its end.
pub open spec fn without_end_dots(s: Seq<char>) -> Seq<char>
    decreases s.len(),
{
    if s.len() > 0 && s.last() == '.' {
        without_end_dots(s.drop_last())
    } else {
        s
    }
}

/// The name of a file made of a text.
pub open spec fn file_segment(s: Seq<char>) -> Seq<char> {
    first_chars(without_end_dots(without_front_dots(trim(cleaned(s)))), 60)
}

/// The name of a file made of a text: an underscore for each character that may
/// not stand in it, without white space and dots around it, at most sixty
/// characters.
pub fn sanitize(s: &str) -> (r: String)
    ensures
        r@ == file_segment(s@),
{
    let cs = chars_of(s);
    let mut out = String::new();
    let mut i: usize = 0;
    while i < cs.len()
        invariant
            i <= cs@.len(),
            cs@ == s@,
            out@ =~= cleaned(s@).subrange(0, i as int),
        decreases cs@.len() - i,
    {
        let c = cs[i];
        let u: u32 = c as u32;
        if u <= 0x1f || (0x7f <= u && u <= 0x9f) || c == '/' || c == '\\' || c == ':' || c == '*'
            || c == '?' || c == '"' || c == '<' || c == '>' || c == '|' {
            out.push('_');
        } else {
            out.push(c);
        }
        i = i + 1;
    }
    assert(out@ =~= cleaned(s@));
    let t = trim_text(out.as_str());
    let ts = chars_of(t.as_str());
    let n: usize = ts.len();
    let mut a: usize = 0;
    assert(ts@.subrange(0, n as int) =~= ts@);
    while a < n && ts[a] == '.'
        invariant
            n == ts@.len(),
            a <= n,
            without_front_dots(ts@) == without_front_dots(ts@.subrange(a as int, n as int)),
        decreases n - a,
    {
        assert(ts@.subrange(a as int, n as int).drop_first() =~= ts@.subrange(a + 1, n as int));
        a = a + 1;
    }
    let ghost front = ts@.subrange(a as int, n as int);
    let mut b: usize = n;
    while b > a && ts[b - 1] == '.'
        invariant
            n == ts@.len(),
            a <= b <= n,
            front == ts@.subrange(a as int, n as int),
            without_end_dots(front) == without_end_dots(ts@.subrange(a as int, b as int)),
        decreases b,
    {
        assert(ts@.subrange(a as int, b as int).drop_last() =~= ts@.subrange(a as int, b - 1));
        b = b - 1;
    }
    let mid = copy_range(ts.as_slice(), a, b);
    let mid_text = string_of(mid.as_slice());
    head_text(mid_text.as_str(), 60)
}

/// The name of the card of a case.
pub fn card_name(case_id: &str, case_name: &str) -> (r: String)
    ensures
        r@ == file_segment(case_id@) + "_"@ + file_segment(case_name@) + ".md"@,
{
    let a = sanitize(case_id);
    let b = sanitize(case_name);
    let mut out = cat3(a.as_str(), "_", b.as_str());
    out.append(".md");
    out
}

/// What is wrong with a knowledge base.
pub enum KbError {
    /// There is none at this path.
    NoPath(String),
    /// This path is no directory.
    NotADir(String),
}

/// The knowledge base that a card goes to: the one that is set, if it is
/// switched on and a directory.
pub fn card_root(enabled: Option<bool>, root: &Option<String>, is_dir: bool) -> (r: Result<
    String,
    KbError,
>)
    ensures
        if enabled != Some(true) || *root is None {
            r matches Err(KbError::NoPath(p)) && p@ == "(未配置或未启用本地知识库)"@
        } else if !is_dir {
            r matches Err(KbError::NoPath(p)) && *root == Some(p)
        } else {
            r matches Ok(p) && *root == Some(p)
        },
{
    let on = match enabled {
        Some(b) => b,
        None => false,
    };
    match root {
        Some(p) => if !on {
            Err(KbError::NoPath(String::from_str("(未配置或未启用本地知识库)")))
        } else if !is_dir {
            Err(KbError::NoPath(p.clone()))
        } else {
            Ok(p.clone())
        },
        None => Err(KbError::NoPath(String::from_str("(未配置或未启用本地知识库)"))),
    }
}

proof fn lemma_front_dots(s: Seq<char>, i: int)
    requires
        0 <= i < without_front_dots(s).len(),
    ensures
        exists|k: int| 0 <= k < s.len() && #[trigger] s[k] == without_front_dots(s)[i],
    decreases s.len(),
{
    if s.len() > 0 && s[0] == '.' {
        lemma_front_dots(s.drop_first(), i);
        let k = choose|k: int|
            0 <= k < s.drop_first().len() && #[trigger] s.drop_first()[k] == without_front_dots(
                s,
            )[i];
        assert(s[k + 1] == without_front_dots(s)[i]);
    } else {
        assert(s[i] == without_front_dots(s)[i]);
    }
}

proof fn lemma_end_dots(s: Seq<char>, i: int)
    requires
        0 <= i < without_end_dots(s).len(),
    ensures
        without_end_dots(s).len() <= s.len(),
        without_end_dots(s)[i] == s[i],
    decreases s.len(),
{
    if s.len() > 0 && s.last() == '.' {
        lemma_end_dots(s.drop_last(), i);
    }
}

proof fn lemma_trim_member(s: Seq<char>, i: int)
    requires
        0 <= i < trim(s).len(),
    ensures
        exists|k: int| 0 <= k < s.len() && #[trigger] s[k] == trim(s)[i],
{
    let t = crate::text::trim_start(s);
    lemma_trim_end_member(t, i);
    lemma_trim_start_member(s, i);
}

proof fn lemma_trim_end_member(s: Seq<char>, i: int)
    requires
        0 <= i < crate::text::trim_end(s).len(),
    ensures
        i < s.len(),
        crate::text::trim_end(s)[i] == s[i],
    decreases s.len(),
{
    if s.len() > 0 && crate::text::is_white(s.last()) {
        lemma_trim_end_member(s.drop_last(), i);
    }
}

proof fn lemma_trim_start_member(s: Seq<char>, i: int)
    requires
        0 <= i < crate::text::trim_start(s).len(),
    ensures
        exists|k: int| 0 <= k < s.len() && #[trigger] s[k] == crate::text::trim_start(s)[i],
    decreases s.len(),
{
    if s.len() > 0 && crate::text::is_white(s[0]) {
        lemma_trim_start_member(s.drop_first(), i);
        let k = choose|k: int|
            0 <= k < s.drop_first().len() && #[trigger] s.drop_first()[k]
                == crate::text::trim_start(s)[i];
        assert(s[k + 1] == crate::text::trim_start(s)[i]);
    } else {
        assert(s[i] == crate::text::trim_start(s)[i]);
    }
}

/// The name of a card holds no control character and none that may not stand in
/// the name of a file, and no part of it is longer than sixty characters.
pub proof fn segments_are_safe(s: Seq<char>, i: int)
    requires
        0 <= i < file_segment(s).len(),
    ensures
        !is_control(file_segment(s)[i]) && !is_path_char(file_segment(s)[i]),
        file_segment(s).len() <= 60,
{
    let c = cleaned(s);
    let t = trim(c);
    let f = without_front_dots(t);
    let e = without_end_dots(f);
    assert(file_segment(s)[i] == e[i]);
    lemma_end_dots(f, i);
    lemma_front_dots(t, i);
    let k = choose|k: int| 0 <= k < t.len() && #[trigger] t[k] == f[i];
    lemma_trim_member(c, k);
    let j = choose|j: int| 0 <= j < c.len() && #[trigger] c[j] == t[k];
    assert(c[j] == file_segment(s)[i]);
}

/// A short text without such characters, and without dots at its ends, is only
/// trimmed.
pub proof fn plain_texts_are_only_trimmed(s: Seq<char>)
    requires
        forall|i: int| 0 <= i < s.len() ==> !is_control(#[trigger] s[i]) && !is_path_char(s[i]),
        0 < trim(s).len() <= 60,
        trim(s)[0] != '.',
        trim(s).last() != '.',
    ensures
        file_segment(s) == trim(s),
{
    assert(cleaned(s) =~= s);
}

/// Dots in front and at the end do not matter.
pub proof fn dots_around_do_not_matter(s: Seq<char>)
    ensures
        without_front_dots(seq!['.'] + s) == without_front_dots(s),
        without_end_dots(s.push('.')) == without_end_dots(s),
        s.len() > 0 && s[0] != '.' ==> without_front_dots(s) == s,
        s.len() > 0 && s.last() != '.' ==> without_end_dots(s) == s,
{
    assert((seq!['.'] + s).drop_first() =~= s);
    assert(s.push('.').drop_last() =~= s);
}

} // verus!
