//! Mending the arguments of tool calls.
//!
//! Arguments come in pieces and may be damaged on the way: a comma too many, a
//! bracket missing, control characters inside strings. They are mended step by
//! step until they are JSON; what cannot be mended becomes an empty object, so
//! that the tool itself can complain and the conversation goes on.
use vstd::prelude::*;
use vstd::utf8::*;
use crate::json::{json_parse, parse_json, Json, JsonModel};
use crate::text::{
    chars_of, contains, decimal, decimal_text, occurs_at, replace_all, replaced, string_of,
    texts_without_the_pattern_stay,
};

verus! {

/// Arguments longer than this many bytes are not mended.
pub const MAX_ARG_LEN: usize = 4_194_304;

/// Why arguments were not mended.
pub enum ArgRepairError {
    /// They are not JSON and have too many bytes, this many.
    TooLarge(usize),
}

impl ArgRepairError {
    /// What is said of the error.
    pub fn message(&self) -> (r: String)
        ensures
            self matches ArgRepairError::TooLarge(n) && r@ == "参数超过 "@ + decimal(*n as nat)
                + " 字符且非合法 JSON,拒绝修复"@,
    {
        match self {
            ArgRepairError::TooLarge(n) => {
                let mut out = String::from_str("参数超过 ");
                let d = decimal_text(*n as u128);
                out.append(d.as_str());
                out.append(" 字符且非合法 JSON,拒绝修复");
                out
            },
        }
    }
}

/// Where a scan of JSON stands: inside a string, and behind a backslash.
pub struct Scan {
    pub out: Seq<char>,
    pub in_string: bool,
    pub escape: bool,
}

/// A control character that may not stand in a string.
pub open spec fn is_stray(c: char) -> bool {
    (c as u32) < 0x20 && c != '\t' && c != '\n' && c != '\r'
}

/// The scan after one more character.
pub open spec fn scan_step(st: Scan, c: char) -> Scan {
    if st.escape {
        Scan { out: st.out.push(c), escape: false, ..st }
    } else if c == '\\' {
        Scan { out: st.out.push(c), escape: true, ..st }
    } else if c == '"' {
        Scan { out: st.out.push(c), in_string: !st.in_string, ..st }
    } else if st.in_string && is_stray(c) {
        st
    } else {
        Scan { out: st.out.push(c), ..st }
    }
}

/// The scan of a text.
pub open spec fn scan(s: Seq<char>) -> Scan
    decreases s.len(),
{
    if s.len() == 0 {
        Scan { out: Seq::empty(), in_string: false, escape: false }
    } else {
        scan_step(scan(s.drop_last()), s.last())
    }
}

/// Takes stray control characters out of strings.
pub fn strip_control_chars_in_strings(s: &str) -> (r: String)
    ensures
        r@ == scan(s@).out,
{
    let cs = chars_of(s);
    let mut out = String::new();
    let mut in_string = false;
    let mut escape = false;
    let mut i: usize = 0;
    assert(s@.subrange(0, 0) =~= Seq::<char>::empty());
    while i < cs.len()
        invariant
            i <= cs@.len(),
            cs@ == s@,
            scan(s@.subrange(0, i as int)) == (Scan { out: out@, in_string, escape }),
        decreases cs@.len() - i,
    {
        assert(s@.subrange(0, i + 1).drop_last() =~= s@.subrange(0, i as int));
        let c = cs[i];
        if escape {
            out.push(c);
            escape = false;
        } else if c == '\\' {
            escape = true;
            out.push(c);
        } else if c == '"' {
            in_string = !in_string;
            out.push(c);
        } else if in_string && (c as u32) < 0x20 && c != '\t' && c != '\n' && c != '\r' {
        } else {
            out.push(c);
        }
        i = i + 1;
    }
    assert(s@.subrange(0, i as int) =~= s@);
    out
}

/// Stripping takes away stray control characters and nothing else.
pub proof fn stripping_takes_only_strays(s: Seq<char>)
    ensures
        scan(s).out.filter(|c: char| !is_stray(c)) == s.filter(|c: char| !is_stray(c)),
    decreases s.len(),
{
    let keep = |c: char| !is_stray(c);
    reveal(Seq::filter);
    if s.len() > 0 {
        stripping_takes_only_strays(s.drop_last());
        let before = scan(s.drop_last());
        let after = scan(s);
        if after.out != before.out {
            assert(after.out == before.out.push(s.last()));
            assert(after.out.drop_last() =~= before.out);
        }
    }
}

/// `s` without the commas at its end.
pub open spec fn trim_commas(s: Seq<char>) -> Seq<char>
    decreases s.len(),
{
    if s.len() > 0 && s.last() == ',' {
        trim_commas(s.drop_last())
    } else {
        s
    }
}

/// `s` with each comma before a closing bracket and at the end taken out once.
pub open spec fn fewer_commas(s: Seq<char>) -> Seq<char> {
    trim_commas(replace_all(replace_all(s, ",}"@, "}"@), ",]"@, "]"@))
}

/// `s` with commas taken out until none is left before a closing bracket or at
/// the end.
pub open spec fn no_trailing_commas(s: Seq<char>) -> Seq<char>
    decreases s.len(),
{
    if fewer_commas(s).len() < s.len() {
        no_trailing_commas(fewer_commas(s))
    } else {
        s
    }
}

/// Replacing two characters by one shortens a text if there is anything to
/// replace, and otherwise leaves it alone.
proof fn lemma_replace_shortens(s: Seq<char>, pat: Seq<char>, rep: Seq<char>)
    requires
        pat.len() == 2,
        rep.len() == 1,
    ensures
        replace_all(s, pat, rep).len() <= s.len(),
        replace_all(s, pat, rep).len() == s.len() ==> replace_all(s, pat, rep) == s && !contains(
            s,
            pat,
        ),
    decreases s.len(),
{
    if s.len() < pat.len() {
        assert forall|i: int| !occurs_at(s, pat, i) by {}
    } else if s.subrange(0, 2) == pat {
        lemma_replace_shortens(s.subrange(2, s.len() as int), pat, rep);
    } else {
        let t = s.drop_first();
        lemma_replace_shortens(t, pat, rep);
        if replace_all(s, pat, rep).len() == s.len() {
            assert(seq![s[0]] + t =~= s);
            assert forall|i: int| !occurs_at(s, pat, i) by {
                if occurs_at(s, pat, i) {
                    if i == 0 {
                        assert(s.subrange(0, 2) == pat);
                    } else {
                        assert(t.subrange(i - 1, i + 1) =~= s.subrange(i, i + 2));
                        assert(occurs_at(t, pat, i - 1));
                    }
                }
            }
        }
    }
}

proof fn lemma_trim_commas(s: Seq<char>)
    ensures
        trim_commas(s).len() <= s.len(),
        trim_commas(s).len() == s.len() ==> trim_commas(s) == s,
        trim_commas(s).len() == 0 || trim_commas(s).last() != ',',
    decreases s.len(),
{
    if s.len() > 0 && s.last() == ',' {
        lemma_trim_commas(s.drop_last());
    }
}

proof fn lemma_fewer_commas(s: Seq<char>)
    ensures
        fewer_commas(s).len() <= s.len(),
        fewer_commas(s).len() == s.len() ==> fewer_commas(s) == s && !contains(s, ",}"@)
            && !contains(s, ",]"@) && (s.len() == 0 || s.last() != ','),
{
    reveal_strlit(",}");
    reveal_strlit("}");
    reveal_strlit(",]");
    reveal_strlit("]");
    let t = replace_all(s, ",}"@, "}"@);
    lemma_replace_shortens(s, ",}"@, "}"@);
    lemma_replace_shortens(t, ",]"@, "]"@);
    lemma_trim_commas(replace_all(t, ",]"@, "]"@));
}

/// In the end no comma stands before a closing bracket or at the end.
pub proof fn no_trailing_comma_is_left(s: Seq<char>)
    ensures
        !contains(no_trailing_commas(s), ",}"@),
        !contains(no_trailing_commas(s), ",]"@),
        no_trailing_commas(s).len() == 0 || no_trailing_commas(s).last() != ',',
    decreases s.len(),
{
    lemma_fewer_commas(s);
    if fewer_commas(s).len() < s.len() {
        no_trailing_comma_is_left(fewer_commas(s));
    }
}

/// Takes out the commas before closing brackets and at the end.
pub fn strip_trailing_commas(s: &str) -> (r: String)
    ensures
        r@ == no_trailing_commas(s@),
{
    let brace_from = chars_of(",}");
    let brace_to = chars_of("}");
    let bracket_from = chars_of(",]");
    let bracket_to = chars_of("]");
    let mut out = chars_of(s);
    loop
        invariant
            brace_from@ == ",}"@,
            brace_to@ == "}"@,
            bracket_from@ == ",]"@,
            bracket_to@ == "]"@,
            no_trailing_commas(out@) == no_trailing_commas(s@),
        ensures
            out@ == no_trailing_commas(s@),
        decreases out@.len(),
    {
        let t = replaced(out.as_slice(), brace_from.as_slice(), brace_to.as_slice());
        let mut next = replaced(t.as_slice(), bracket_from.as_slice(), bracket_to.as_slice());
        let ghost whole = next@;
        while next.len() > 0 && next[next.len() - 1] == ','
            invariant
                trim_commas(next@) == trim_commas(whole),
            decreases next@.len(),
        {
            next.pop();
        }
        proof {
            lemma_fewer_commas(out@);
        }
        if next.len() >= out.len() {
            break;
        }
        out = next;
    }
    string_of(out.as_slice())
}

/// How many more `open` than `close` there are.
pub open spec fn surplus(s: Seq<char>, open: char, close: char) -> int
    decreases s.len(),
{
    if s.len() == 0 {
        0
    } else {
        surplus(s.drop_last(), open, close) + (if s.last() == open {
            1int
        } else if s.last() == close {
            -1int
        } else {
            0int
        })
    }
}

/// `n` times the same character.
pub open spec fn repeated(c: char, n: int) -> Seq<char> {
    Seq::new(
        if n > 0 {
            n as nat
        } else {
            0
        },
        |i: int| c,
    )
}

/// `s` with the closing brackets that it lacks: first `]`, then `}`.
pub open spec fn balanced(s: Seq<char>) -> Seq<char> {
    s + repeated(']', surplus(s, '[', ']')) + repeated('}', surplus(s, '{', '}'))
}

fn count_surplus(s: &[char], open: char, close: char) -> (r: i128)
    ensures
        r == surplus(s@, open, close),
{
    let mut n: i128 = 0;
    let mut i: usize = 0;
    let len: usize = s.len();
    assert(s@.subrange(0, 0) =~= Seq::<char>::empty());
    while i < len
        invariant
            len == s@.len(),
            i <= len,
            -(i as int) <= n <= i,
            n == surplus(s@.subrange(0, i as int), open, close),
        decreases len - i,
    {
        assert(s@.subrange(0, i + 1).drop_last() =~= s@.subrange(0, i as int));
        if s[i] == open {
            n = n + 1;
        } else if s[i] == close {
            n = n - 1;
        }
        i = i + 1;
    }
    assert(s@.subrange(0, i as int) =~= s@);
    n
}

fn push_repeated(out: &mut String, c: char, n: i128)
    ensures
        final(out)@ == old(out)@ + repeated(c, n as int),
{
    let mut i: i128 = 0;
    assert(out@ + repeated(c, 0) =~= out@);
    while i < n
        invariant
            0 <= i,
            i <= n || (n < 0 && i == 0),
            out@ == old(out)@ + repeated(c, i as int),
        decreases n - i,
    {
        out.push(c);
        assert(repeated(c, i + 1) =~= repeated(c, i as int).push(c));
        assert(old(out)@ + repeated(c, i + 1) =~= (old(out)@ + repeated(c, i as int)).push(c));
        i = i + 1;
    }
    assert(repeated(c, i as int) =~= repeated(c, n as int));
}

/// Adds the closing brackets that are missing. One round adds all of them;
/// with `max_iter` 0 there is none.
pub fn balance_braces(s: &str, max_iter: usize) -> (r: String)
    ensures
        r@ == if max_iter == 0 {
            s@
        } else {
            balanced(s@)
        },
{
    let mut out = String::from_str(s);
    if max_iter == 0 {
        return out;
    }
    let cs = chars_of(s);
    let brackets: i128 = count_surplus(cs.as_slice(), '[', ']');
    let braces: i128 = count_surplus(cs.as_slice(), '{', '}');
    push_repeated(&mut out, ']', brackets);
    push_repeated(&mut out, '}', braces);
    out
}

proof fn lemma_surplus_concat(a: Seq<char>, b: Seq<char>, open: char, close: char)
    ensures
        surplus(a + b, open, close) == surplus(a, open, close) + surplus(b, open, close),
    decreases b.len(),
{
    if b.len() == 0 {
        assert(a + b =~= a);
    } else {
        assert((a + b).drop_last() =~= a + b.drop_last());
        lemma_surplus_concat(a, b.drop_last(), open, close);
    }
}

proof fn lemma_surplus_repeated(c: char, n: int, open: char, close: char)
    requires
        open != close,
    ensures
        surplus(repeated(c, n), open, close) == if n <= 0 {
            0
        } else if c == open {
            n
        } else if c == close {
            -n
        } else {
            0
        },
    decreases n,
{
    if n > 0 {
        assert(repeated(c, n).drop_last() =~= repeated(c, n - 1));
        lemma_surplus_repeated(c, n - 1, open, close);
    }
}

/// In a balanced text no bracket is missing its partner on the right.
pub proof fn balancing_closes_every_bracket(s: Seq<char>)
    ensures
        surplus(balanced(s), '[', ']') <= 0,
        surplus(balanced(s), '{', '}') <= 0,
        surplus(s, '[', ']') >= 0 ==> surplus(balanced(s), '[', ']') == 0,
        surplus(s, '{', '}') >= 0 ==> surplus(balanced(s), '{', '}') == 0,
{
    let bk = surplus(s, '[', ']');
    let br = surplus(s, '{', '}');
    let a = repeated(']', bk);
    let b = repeated('}', br);
    lemma_surplus_concat(s + a, b, '[', ']');
    lemma_surplus_concat(s, a, '[', ']');
    lemma_surplus_concat(s + a, b, '{', '}');
    lemma_surplus_concat(s, a, '{', '}');
    lemma_surplus_repeated(']', bk, '[', ']');
    lemma_surplus_repeated(']', bk, '{', '}');
    lemma_surplus_repeated('}', br, '[', ']');
    lemma_surplus_repeated('}', br, '{', '}');
}

/// `s` without the closing brackets that close nothing.
pub open spec fn no_excess(s: Seq<char>) -> Seq<char>
    decreases s.len(),
{
    if s.len() == 0 {
        Seq::empty()
    } else {
        let kept = no_excess(s.drop_last());
        let c = s.last();
        if (c == '}' && surplus(kept, '{', '}') <= 0) || (c == ']' && surplus(kept, '[', ']')
            <= 0) {
            kept
        } else {
            kept.push(c)
        }
    }
}

/// Takes out the closing brackets that close nothing.
pub fn strip_excess_closers(s: &str) -> (r: String)
    ensures
        r@ == no_excess(s@),
{
    let cs = chars_of(s);
    let mut braces: i128 = 0;
    let mut brackets: i128 = 0;
    let mut out = String::new();
    let len: usize = cs.len();
    let mut i: usize = 0;
    assert(s@.subrange(0, 0) =~= Seq::<char>::empty());
    while i < len
        invariant
            len == cs@.len(),
            i <= len,
            cs@ == s@,
            out@ == no_excess(s@.subrange(0, i as int)),
            braces == surplus(out@, '{', '}'),
            brackets == surplus(out@, '[', ']'),
            -(i as int) <= braces <= i,
            -(i as int) <= brackets <= i,
        decreases len - i,
    {
        assert(s@.subrange(0, i + 1).drop_last() =~= s@.subrange(0, i as int));
        let ghost before = out@;
        let c = cs[i];
        if c == '}' {
            if braces > 0 {
                braces = braces - 1;
                out.push(c);
                assert(out@.drop_last() =~= before);
            }
        } else if c == ']' {
            if brackets > 0 {
                brackets = brackets - 1;
                out.push(c);
                assert(out@.drop_last() =~= before);
            }
        } else {
            if c == '{' {
                braces = braces + 1;
            } else if c == '[' {
                brackets = brackets + 1;
            }
            out.push(c);
            assert(out@.drop_last() =~= before);
        }
        i = i + 1;
    }
    assert(s@.subrange(0, i as int) =~= s@);
    out
}

/// What is left never closes more brackets than it opened, at no place.
pub proof fn no_closer_is_left_over(s: Seq<char>, k: int)
    requires
        0 <= k <= no_excess(s).len(),
    ensures
        surplus(no_excess(s).subrange(0, k), '{', '}') >= 0,
        surplus(no_excess(s).subrange(0, k), '[', ']') >= 0,
    decreases s.len(),
{
    if s.len() > 0 {
        let kept = no_excess(s.drop_last());
        let now = no_excess(s);
        no_closer_is_left_over(s.drop_last(), kept.len() as int);
        assert(kept.subrange(0, kept.len() as int) =~= kept);
        if k <= kept.len() {
            no_closer_is_left_over(s.drop_last(), k);
            assert(now.subrange(0, k) =~= kept.subrange(0, k));
        } else {
            assert(now.subrange(0, k) =~= kept.push(s.last()));
            assert(kept.push(s.last()).drop_last() =~= kept);
        }
    } else {
        assert(no_excess(s).subrange(0, k) =~= Seq::<char>::empty());
    }
}

/// What a step of mending makes of a text.
pub open spec fn mended(step: int, s: Seq<char>) -> Seq<char> {
    if step == 0 {
        scan(s).out
    } else if step == 1 {
        no_trailing_commas(s)
    } else if step == 2 {
        balanced(s)
    } else {
        no_excess(s)
    }
}

/// One step of mending: control characters, then commas, then missing
/// brackets, then brackets too many.
pub fn mend(step: usize, s: &str) -> (r: String)
    ensures
        r@ == mended(step as int, s@),
{
    if step == 0 {
        strip_control_chars_in_strings(s)
    } else if step == 1 {
        strip_trailing_commas(s)
    } else if step == 2 {
        balance_braces(s, 50)
    } else {
        strip_excess_closers(s)
    }
}

/// What the steps from `step` on lead to: the value of the first text that is
/// JSON, or an empty object.
pub open spec fn mended_value(step: int, s: Seq<char>) -> JsonModel
    decreases 4 - step,
{
    if step >= 4 {
        JsonModel::Object(Seq::empty())
    } else {
        let t = mended(step, s);
        match json_parse(t) {
            Some(v) => v,
            None => mended_value(step + 1, t),
        }
    }
}

/// The value of arguments.
///
/// JSON of any length is taken as it is. Anything else is mended, unless it is
/// too long, which is the only error.
pub fn repair(raw: &str) -> (r: Result<Json, ArgRepairError>)
    ensures
        match json_parse(raw@) {
            Some(v) => r matches Ok(j) && j@ == v,
            None => if encode_utf8(raw@).len() > MAX_ARG_LEN {
                r matches Err(ArgRepairError::TooLarge(n)) && n == encode_utf8(raw@).len()
            } else {
                r matches Ok(j) && j@ == mended_value(0, raw@)
            },
        },
{
    if let Some(j) = parse_json(raw) {
        return Ok(j);
    }
    let len: usize = raw.as_bytes().len();
    if len > MAX_ARG_LEN {
        return Err(ArgRepairError::TooLarge(len));
    }
    let mut s = String::from_str(raw);
    let mut step: usize = 0;
    while step < 4
        invariant
            step <= 4,
            mended_value(step as int, s@) == mended_value(0, raw@),
            json_parse(raw@) is None,
            encode_utf8(raw@).len() <= MAX_ARG_LEN,
        decreases 4 - step,
    {
        let t = mend(step, s.as_str());
        if let Some(j) = parse_json(t.as_str()) {
            return Ok(j);
        }
        s = t;
        step = step + 1;
    }
    let empty: Vec<(String, Json)> = Vec::new();
    assert(crate::json::members_model(empty@, 0) =~= Seq::empty());
    Ok(Json::Object(empty))
}

/// A text without quotes and backslashes: nothing is inside a string.
proof fn lemma_outside_strings(s: Seq<char>)
    requires
        forall|i: int| 0 <= i < s.len() ==> (#[trigger] s[i]) != '"' && s[i] != '\\',
    ensures
        scan(s) == (Scan { out: s, in_string: false, escape: false }),
    decreases s.len(),
{
    if s.len() > 0 {
        lemma_outside_strings(s.drop_last());
        assert(s.drop_last().push(s.last()) =~= s);
        assert(s[s.len() - 1] == s.last());
    } else {
        assert(s =~= Seq::empty());
    }
}

proof fn lemma_inside_a_string(a: Seq<char>, s: Seq<char>)
    requires
        forall|i: int| 0 <= i < a.len() ==> (#[trigger] a[i]) != '"' && a[i] != '\\',
        forall|i: int| 0 <= i < s.len() ==> (#[trigger] s[i]) != '"' && s[i] != '\\',
    ensures
        scan(a + seq!['"'] + s) == (Scan {
            out: a + seq!['"'] + s.filter(|c: char| !is_stray(c)),
            in_string: true,
            escape: false,
        }),
    decreases s.len(),
{
    let keep = |c: char| !is_stray(c);
    let w = a + seq!['"'] + s;
    reveal(Seq::filter);
    if s.len() == 0 {
        lemma_outside_strings(a);
        assert(w.drop_last() =~= a);
        assert(w =~= a.push('"'));
        assert(a.push('"') =~= a + seq!['"'] + s.filter(keep));
    } else {
        let t = s.drop_last();
        lemma_inside_a_string(a, t);
        assert(w.drop_last() =~= a + seq!['"'] + t);
        assert(w.last() == s.last());
        assert(s[s.len() - 1] == s.last());
        assert(a + seq!['"'] + t.filter(keep).push(s.last()) =~= (a + seq!['"'] + t.filter(
            keep,
        )).push(s.last()));
    }
}

/// Stray control characters leave the strings, and only those: what stands outside
/// of strings stays, and so does a text in which there are none.
pub proof fn strays_leave_only_the_strings(before: Seq<char>, inside: Seq<char>)
    requires
        forall|i: int| 0 <= i < before.len() ==> (#[trigger] before[i]) != '"' && before[i]
            != '\\',
        forall|i: int| 0 <= i < inside.len() ==> (#[trigger] inside[i]) != '"' && inside[i]
            != '\\',
    ensures
        scan(before).out == before,
        scan(before + seq!['"'] + inside + seq!['"']).out == before + seq!['"'] + inside.filter(
            |c: char| !((c as u32) < 0x20 && c != '\t' && c != '\n' && c != '\r'),
        ) + seq!['"'],
{
    lemma_outside_strings(before);
    lemma_inside_a_string(before, inside);
    let w = before + seq!['"'] + inside + seq!['"'];
    assert(w.drop_last() =~= before + seq!['"'] + inside);
    let keep = |c: char| !is_stray(c);
    let same = |c: char| !((c as u32) < 0x20 && c != '\t' && c != '\n' && c != '\r');
    assert(keep =~= same);
    assert(scan(w).out =~= before + seq!['"'] + inside.filter(keep) + seq!['"']);
}

proof fn lemma_filter_concat(a: Seq<char>, b: Seq<char>, keep: spec_fn(char) -> bool)
    ensures
        (a + b).filter(keep) == a.filter(keep) + b.filter(keep),
    decreases b.len(),
{
    reveal(Seq::filter);
    if b.len() == 0 {
        assert(a + b =~= a);
        assert(a.filter(keep) + b.filter(keep) =~= a.filter(keep));
    } else {
        lemma_filter_concat(a, b.drop_last(), keep);
        assert((a + b).drop_last() =~= a + b.drop_last());
        assert((a + b).last() == b.last());
        if keep(b.last()) {
            assert(a.filter(keep) + b.drop_last().filter(keep).push(b.last()) =~= (a.filter(keep)
                + b.drop_last().filter(keep)).push(b.last()));
        }
    }
}

proof fn lemma_replace_keeps(
    s: Seq<char>,
    pat: Seq<char>,
    rep: Seq<char>,
    keep: spec_fn(char) -> bool,
)
    requires
        pat.filter(keep) == rep.filter(keep),
    ensures
        replace_all(s, pat, rep).filter(keep) == s.filter(keep),
    decreases s.len(),
{
    if pat.len() == 0 || s.len() < pat.len() {
    } else if s.subrange(0, pat.len() as int) == pat {
        let t = s.subrange(pat.len() as int, s.len() as int);
        lemma_replace_keeps(t, pat, rep, keep);
        lemma_filter_concat(rep, replace_all(t, pat, rep), keep);
        lemma_filter_concat(pat, t, keep);
        assert(pat + t =~= s);
    } else {
        let t = s.drop_first();
        lemma_replace_keeps(t, pat, rep, keep);
        lemma_filter_concat(seq![s[0]], replace_all(t, pat, rep), keep);
        lemma_filter_concat(seq![s[0]], t, keep);
        assert(seq![s[0]] + t =~= s);
    }
}

proof fn lemma_trim_commas_keeps(s: Seq<char>)
    ensures
        trim_commas(s).filter(|c: char| c != ',') == s.filter(|c: char| c != ','),
    decreases s.len(),
{
    reveal(Seq::filter);
    if s.len() > 0 && s.last() == ',' {
        lemma_trim_commas_keeps(s.drop_last());
    }
}

/// Commas are taken out and nothing else, and a text in which none is too many stays
/// as it is.
pub proof fn only_commas_are_taken_out(s: Seq<char>)
    ensures
        no_trailing_commas(s).filter(|c: char| c != ',') == s.filter(|c: char| c != ','),
        !contains(s, ",}"@) && !contains(s, ",]"@) && (s.len() == 0 || s.last() != ',')
            ==> no_trailing_commas(s) == s,
    decreases s.len(),
{
    let keep = |c: char| c != ',';
    reveal_strlit(",}");
    reveal_strlit("}");
    reveal_strlit(",]");
    reveal_strlit("]");
    reveal(Seq::filter);
    lemma_filter_concat(seq![','], seq!['}'], keep);
    lemma_filter_concat(seq![','], seq![']'], keep);
    assert(seq![','].filter(keep) =~= Seq::empty()) by {
        reveal_with_fuel(Seq::filter, 2);
    }
    assert(",}"@ =~= seq![','] + seq!['}']);
    assert(",]"@ =~= seq![','] + seq![']']);
    assert("}"@ =~= seq!['}']);
    assert("]"@ =~= seq![']']);
    assert(",}"@.filter(keep) =~= "}"@.filter(keep));
    assert(",]"@.filter(keep) =~= "]"@.filter(keep));
    let t = replace_all(s, ",}"@, "}"@);
    let u = replace_all(t, ",]"@, "]"@);
    lemma_replace_keeps(s, ",}"@, "}"@, keep);
    lemma_replace_keeps(t, ",]"@, "]"@, keep);
    lemma_trim_commas_keeps(u);
    lemma_fewer_commas(s);
    if fewer_commas(s).len() < s.len() {
        only_commas_are_taken_out(fewer_commas(s));
    }
    if !contains(s, ",}"@) && !contains(s, ",]"@) && (s.len() == 0 || s.last() != ',') {
        texts_without_the_pattern_stay(s, ",}"@, "}"@);
        texts_without_the_pattern_stay(s, ",]"@, "]"@);
    }
}

/// Balancing adds closing brackets at the end and changes nothing else: as many of
/// each as there are openers too many, and none if there are none.
pub proof fn balancing_only_adds_what_is_missing(s: Seq<char>, i: int)
    ensures
        s.is_prefix_of(balanced(s)),
        s.len() <= i < balanced(s).len() ==> balanced(s)[i] == ']' || balanced(s)[i] == '}',
        surplus(s, '[', ']') <= 0 && surplus(s, '{', '}') <= 0 ==> balanced(s) == s,
        surplus(s, '[', ']') >= 0 && surplus(s, '{', '}') >= 0 ==> balanced(s).len() == s.len()
            + surplus(s, '[', ']') + surplus(s, '{', '}'),
{
    assert(balanced(s).subrange(0, s.len() as int) =~= s);
}

/// Only closing brackets are taken out, and a text in which each closes something
/// stays as it is.
pub proof fn only_closers_are_taken_out(s: Seq<char>)
    ensures
        no_excess(s).filter(|c: char| c != '}' && c != ']') == s.filter(
            |c: char| c != '}' && c != ']',
        ),
        (forall|k: int|
            0 <= k <= s.len() ==> #[trigger] surplus(s.subrange(0, k), '{', '}') >= 0 && surplus(
                s.subrange(0, k),
                '[',
                ']',
            ) >= 0) ==> no_excess(s) == s,
    decreases s.len(),
{
    let keep = |c: char| c != '}' && c != ']';
    reveal(Seq::filter);
    if s.len() > 0 {
        let t = s.drop_last();
        only_closers_are_taken_out(t);
        let kept = no_excess(t);
        assert(kept.push(s.last()).drop_last() =~= kept);
        if forall|k: int|
            0 <= k <= s.len() ==> #[trigger] surplus(s.subrange(0, k), '{', '}') >= 0 && surplus(
                s.subrange(0, k),
                '[',
                ']',
            ) >= 0 {
            assert forall|k: int| 0 <= k <= t.len() implies #[trigger] surplus(
                t.subrange(0, k),
                '{',
                '}',
            ) >= 0 && surplus(t.subrange(0, k), '[', ']') >= 0 by {
                assert(t.subrange(0, k) =~= s.subrange(0, k));
                assert(surplus(s.subrange(0, k), '{', '}') >= 0);
            }
            assert(s.subrange(0, s.len() as int) =~= s);
            assert(surplus(s.subrange(0, s.len() as int), '{', '}') >= 0);
            assert(t.push(s.last()) =~= s);
        }
    }
}

/// Damaged arguments are mended no more than needed: without control characters in
/// strings they may already be JSON, then without the commas too many, then with the
/// missing brackets, then without the brackets too many. Nothing else becomes an
/// empty object.
pub proof fn the_first_text_that_is_json_counts(s: Seq<char>)
    ensures
        ({
            let a = scan(s).out;
            let b = no_trailing_commas(a);
            let c = balanced(b);
            let d = no_excess(c);
            &&& json_parse(a) is Some ==> mended_value(0, s) == json_parse(a)->0
            &&& json_parse(a) is None && json_parse(b) is Some ==> mended_value(0, s)
                == json_parse(b)->0
            &&& json_parse(a) is None && json_parse(b) is None && json_parse(c) is Some
                ==> mended_value(0, s) == json_parse(c)->0
            &&& json_parse(a) is None && json_parse(b) is None && json_parse(c) is None
                && json_parse(d) is Some ==> mended_value(0, s) == json_parse(d)->0
            &&& mended_value(0, s) == JsonModel::Object(Seq::empty()) || json_parse(a) == Some(
                mended_value(0, s),
            ) || json_parse(b) == Some(mended_value(0, s)) || json_parse(c) == Some(
                mended_value(0, s),
            ) || json_parse(d) == Some(mended_value(0, s))
        }),
{
    let a = scan(s).out;
    let b = no_trailing_commas(a);
    let c = balanced(b);
    let d = no_excess(c);
    reveal_with_fuel(mended_value, 5);
    assert(mended(0, s) == a);
    assert(mended(1, a) == b);
    assert(mended(2, b) == c);
    assert(mended(3, c) == d);
    assert(mended_value(4, d) == JsonModel::Object(Seq::empty()));
}

} // verus!
