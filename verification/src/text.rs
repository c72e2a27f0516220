//! Text as sequences of characters: searching, trimming, replacing and
//! joining, each stated over `Seq<char>`.
use vstd::prelude::*;
use vstd::utf8::*;

verus! {

/// `String::push` appends one character to the end of the string.
pub assume_specification[ String::push ](s: &mut String, c: char)
    ensures
        final(s)@ == old(s)@.push(c),
;

/// `pat` stands in `s` at position `i`.
pub open spec fn occurs_at<T>(s: Seq<T>, pat: Seq<T>, i: int) -> bool {
    0 <= i && i + pat.len() <= s.len() && s.subrange(i, i + pat.len()) == pat
}

/// The first position at or after `i` at which `pat` stands in `s`.
pub open spec fn find_from<T>(s: Seq<T>, pat: Seq<T>, i: int) -> Option<int>
    decreases s.len() - i + 1,
{
    if i < 0 || i + pat.len() > s.len() {
        None
    } else if occurs_at(s, pat, i) {
        Some(i)
    } else {
        find_from(s, pat, i + 1)
    }
}

/// The first position at which `pat` stands in `s`.
pub open spec fn find<T>(s: Seq<T>, pat: Seq<T>) -> Option<int> {
    find_from(s, pat, 0)
}

/// `pat` stands somewhere in `s`.
pub open spec fn contains<T>(s: Seq<T>, pat: Seq<T>) -> bool {
    exists|i: int| occurs_at(s, pat, i)
}

/// What `find_from` finds is an occurrence with none before it, and it finds
/// nothing only where there is nothing to find.
pub proof fn lemma_find_from<T>(s: Seq<T>, pat: Seq<T>, from: int)
    requires
        0 <= from,
    ensures
        match find_from(s, pat, from) {
            Some(k) => from <= k && occurs_at(s, pat, k) && forall|j: int|
                from <= j < k ==> !#[trigger] occurs_at(s, pat, j),
            None => forall|j: int| from <= j ==> !#[trigger] occurs_at(s, pat, j),
        },
    decreases s.len() - from + 1,
{
    if from + pat.len() > s.len() {
    } else if occurs_at(s, pat, from) {
    } else {
        lemma_find_from(s, pat, from + 1);
    }
}

/// The characters of a string, in order.
pub fn chars_of(s: &str) -> (r: Vec<char>)
    ensures
        r@ == s@,
{
    let mut r: Vec<char> = Vec::new();
    for c in it: s.chars()
        invariant
            r@ == s@.subrange(0, it.index()),
            it.seq() == s@,
    {
        r.push(c);
        assert(s@.subrange(0, it.index() + 1) =~= s@.subrange(0, it.index()).push(c));
    }
    assert(s@.subrange(0, s@.len() as int) =~= s@);
    r
}

/// Appends characters to a string.
pub fn push_chars(out: &mut String, cs: &[char])
    ensures
        final(out)@ == old(out)@ + cs@,
{
    let mut i: usize = 0;
    while i < cs.len()
        invariant
            0 <= i <= cs@.len(),
            out@ == old(out)@ + cs@.subrange(0, i as int),
        decreases cs@.len() - i,
    {
        out.push(cs[i]);
        assert(cs@.subrange(0, i + 1) =~= cs@.subrange(0, i as int).push(cs@[i as int]));
        assert(old(out)@ + cs@.subrange(0, i + 1) =~= (old(out)@ + cs@.subrange(0, i as int)).push(cs@[i as int]));
        i = i + 1;
    }
    assert(cs@.subrange(0, i as int) =~= cs@);
}

/// The string made of the given characters.
pub fn string_of(cs: &[char]) -> (r: String)
    ensures
        r@ == cs@,
{
    let mut out = String::new();
    push_chars(&mut out, cs);
    assert(out@ =~= cs@);
    out
}

/// Whether two strings hold the same characters.
pub fn same_text(a: &str, b: &str) -> (r: bool)
    ensures
        r == (a@ == b@),
{
    let x = a.as_bytes();
    let y = b.as_bytes();
    proof {
        encode_utf8_decode_utf8(a@);
        encode_utf8_decode_utf8(b@);
    }
    if x.len() != y.len() {
        return false;
    }
    let mut i: usize = 0;
    while i < x.len()
        invariant
            0 <= i <= x@.len(),
            x@.len() == y@.len(),
            forall|j: int| 0 <= j < i ==> x@[j] == y@[j],
            x@ == encode_utf8(a@),
            y@ == encode_utf8(b@),
        decreases x@.len() - i,
    {
        if x[i] != y[i] {
            return false;
        }
        i = i + 1;
    }
    assert(x@ =~= y@);
    true
}


/// The first position at or after `from` at which `pat` stands in `s`.
pub fn find_chars(s: &[char], pat: &[char], from: usize) -> (r: Option<usize>)
    ensures
        match r {
            Some(k) => find_from(s@, pat@, from as int) == Some(k as int),
            None => find_from(s@, pat@, from as int) is None,
        },
{
    let n: usize = s.len();
    let m: usize = pat.len();
    if m > n {
        return None;
    }
    let mut i: usize = from;
    while i <= n - m
        invariant
            n == s@.len(),
            m == pat@.len(),
            m <= n,
            from <= i,
            find_from(s@, pat@, from as int) == find_from(s@, pat@, i as int),
        decreases n + 1 - i,
    {
        let mut j: usize = 0;
        while j < m && s[i + j] == pat[j]
            invariant
                n == s@.len(),
                m == pat@.len(),
                i + m <= n,
                j <= m,
                forall|k: int| 0 <= k < j ==> s@[i + k] == pat@[k],
            decreases m - j,
        {
            j = j + 1;
        }
        if j == m {
            assert(s@.subrange(i as int, i + m) =~= pat@);
            return Some(i);
        }
        assert(s@.subrange(i as int, i + m)[j as int] != pat@[j as int]);
        if i == usize::MAX {
            return None;
        }
        i = i + 1;
    }
    None
}

/// The first position at or after `from` at which `pat` stands in `s`.
pub fn find_bytes(s: &[u8], pat: &[u8], from: usize) -> (r: Option<usize>)
    ensures
        match r {
            Some(k) => find_from(s@, pat@, from as int) == Some(k as int),
            None => find_from(s@, pat@, from as int) is None,
        },
{
    let n: usize = s.len();
    let m: usize = pat.len();
    if m > n {
        return None;
    }
    let mut i: usize = from;
    while i <= n - m
        invariant
            n == s@.len(),
            m == pat@.len(),
            m <= n,
            from <= i,
            find_from(s@, pat@, from as int) == find_from(s@, pat@, i as int),
        decreases n + 1 - i,
    {
        let mut j: usize = 0;
        while j < m && s[i + j] == pat[j]
            invariant
                n == s@.len(),
                m == pat@.len(),
                i + m <= n,
                j <= m,
                forall|k: int| 0 <= k < j ==> s@[i + k] == pat@[k],
            decreases m - j,
        {
            j = j + 1;
        }
        if j == m {
            assert(s@.subrange(i as int, i + m) =~= pat@);
            return Some(i);
        }
        assert(s@.subrange(i as int, i + m)[j as int] != pat@[j as int]);
        if i == usize::MAX {
            return None;
        }
        i = i + 1;
    }
    None
}

/// Whether `pat` stands somewhere in `s`.
pub fn has_text(s: &str, pat: &str) -> (r: bool)
    ensures
        r == contains(s@, pat@),
{
    let cs = chars_of(s);
    let ps = chars_of(pat);
    let found = find_chars(cs.as_slice(), ps.as_slice(), 0);
    proof {
        lemma_find_from(s@, pat@, 0);
        if contains(s@, pat@) {
            let i = choose|i: int| occurs_at(s@, pat@, i);
            assert(occurs_at(s@, pat@, i));
        }
    }
    found.is_some()
}

/// Whether `s` begins with `pat`.
pub fn begins_with(s: &str, pat: &str) -> (r: bool)
    ensures
        r == pat@.is_prefix_of(s@),
{
    let cs = chars_of(s);
    let ps = chars_of(pat);
    if ps.len() > cs.len() {
        return false;
    }
    let mut i: usize = 0;
    while i < ps.len()
        invariant
            i <= ps@.len() <= cs@.len(),
            cs@ == s@,
            ps@ == pat@,
            forall|k: int| 0 <= k < i ==> cs@[k] == ps@[k],
        decreases ps@.len() - i,
    {
        if cs[i] != ps[i] {
            assert(s@.subrange(0, pat@.len() as int)[i as int] != pat@[i as int]);
            return false;
        }
        i = i + 1;
    }
    assert(s@.subrange(0, pat@.len() as int) =~= pat@);
    true
}

/// Whether `s` ends with `pat`.
pub fn finishes_with(s: &str, pat: &str) -> (r: bool)
    ensures
        r == pat@.is_suffix_of(s@),
{
    let cs = chars_of(s);
    let ps = chars_of(pat);
    if ps.len() > cs.len() {
        return false;
    }
    let n: usize = cs.len();
    let d: usize = n - ps.len();
    let mut i: usize = 0;
    while i < ps.len()
        invariant
            n == cs@.len(),
            i <= ps@.len() <= cs@.len(),
            d == cs@.len() - ps@.len(),
            cs@ == s@,
            ps@ == pat@,
            forall|k: int| 0 <= k < i ==> cs@[d + k] == ps@[k],
        decreases ps@.len() - i,
    {
        if cs[d + i] != ps[i] {
            assert(s@.subrange(d as int, s@.len() as int)[i as int] != pat@[i as int]);
            return false;
        }
        i = i + 1;
    }
    assert(s@.subrange(d as int, s@.len() as int) =~= pat@);
    true
}

/// The characters with the Unicode property White_Space.
pub open spec fn is_white(c: char) -> bool {
    let u = c as u32;
    ||| 0x9 <= u <= 0xd
    ||| u == 0x20
    ||| u == 0x85
    ||| u == 0xa0
    ||| u == 0x1680
    ||| 0x2000 <= u <= 0x200a
    ||| u == 0x2028
    ||| u == 0x2029
    ||| u == 0x202f
    ||| u == 0x205f
    ||| u == 0x3000
}

/// Whether a character is white space.
pub fn white(c: char) -> (r: bool)
    ensures
        r == is_white(c),
{
    let u: u32 = c as u32;
    (0x9 <= u && u <= 0xd) || u == 0x20 || u == 0x85 || u == 0xa0 || u == 0x1680 || (0x2000 <= u
        && u <= 0x200a) || u == 0x2028 || u == 0x2029 || u == 0x202f || u == 0x205f || u == 0x3000
}

/// `s` without its leading white space.
pub open spec fn trim_start(s: Seq<char>) -> Seq<char>
    decreases s.len(),
{
    if s.len() > 0 && is_white(s[0]) {
        trim_start(s.drop_first())
    } else {
        s
    }
}

/// `s` without its trailing white space.
pub open spec fn trim_end(s: Seq<char>) -> Seq<char>
    decreases s.len(),
{
    if s.len() > 0 && is_white(s.last()) {
        trim_end(s.drop_last())
    } else {
        s
    }
}

/// `s` without the white space around it.
pub open spec fn trim(s: Seq<char>) -> Seq<char> {
    trim_end(trim_start(s))
}

/// The part of `s` that is left when the white space around it is gone.
pub fn trimmed(s: &[char]) -> (r: Vec<char>)
    ensures
        r@ == trim(s@),
{
    let n: usize = s.len();
    let mut i: usize = 0;
    assert(s@.subrange(0, n as int) =~= s@);
    while i < n && white(s[i])
        invariant
            n == s@.len(),
            i <= n,
            trim_start(s@) == trim_start(s@.subrange(i as int, n as int)),
        decreases n - i,
    {
        assert(s@.subrange(i as int, n as int).drop_first() =~= s@.subrange(i + 1, n as int));
        i = i + 1;
    }
    assert(trim_start(s@) == s@.subrange(i as int, n as int));
    let mut j: usize = n;
    while j > i && white(s[j - 1])
        invariant
            n == s@.len(),
            i <= j <= n,
            trim(s@) == trim_end(s@.subrange(i as int, j as int)),
        decreases j,
    {
        assert(s@.subrange(i as int, j as int).drop_last() =~= s@.subrange(i as int, j - 1));
        j = j - 1;
    }
    assert(trim(s@) == s@.subrange(i as int, j as int));
    copy_range(s, i, j)
}

/// The characters from `from` up to `to`.
pub fn copy_range(s: &[char], from: usize, to: usize) -> (r: Vec<char>)
    requires
        from <= to <= s@.len(),
    ensures
        r@ == s@.subrange(from as int, to as int),
{
    let mut r: Vec<char> = Vec::new();
    let mut i: usize = from;
    while i < to
        invariant
            from <= i <= to <= s@.len(),
            r@ == s@.subrange(from as int, i as int),
        decreases to - i,
    {
        r.push(s[i]);
        assert(s@.subrange(from as int, i + 1) =~= s@.subrange(from as int, i as int).push(s@[i as int]));
        i = i + 1;
    }
    r
}

/// A string without the white space around it.
pub fn trim_text(s: &str) -> (r: String)
    ensures
        r@ == trim(s@),
{
    let cs = chars_of(s);
    let t = trimmed(cs.as_slice());
    string_of(t.as_slice())
}

/// `s` with every occurrence of `pat`, taken from the left, replaced by `rep`.
pub open spec fn replace_all(s: Seq<char>, pat: Seq<char>, rep: Seq<char>) -> Seq<char>
    decreases s.len(),
{
    if pat.len() == 0 || s.len() < pat.len() {
        s
    } else if s.subrange(0, pat.len() as int) == pat {
        rep + replace_all(s.subrange(pat.len() as int, s.len() as int), pat, rep)
    } else {
        seq![s[0]] + replace_all(s.drop_first(), pat, rep)
    }
}

/// Whether `pat` stands in `s` at position `i`.
pub fn stands_at(s: &[char], pat: &[char], i: usize) -> (r: bool)
    ensures
        r == occurs_at(s@, pat@, i as int),
{
    let n: usize = s.len();
    if pat.len() > n || i > n - pat.len() {
        return false;
    }
    let mut j: usize = 0;
    while j < pat.len()
        invariant
            n == s@.len(),
            i + pat@.len() <= s@.len(),
            j <= pat@.len(),
            forall|k: int| 0 <= k < j ==> s@[i + k] == pat@[k],
        decreases pat@.len() - j,
    {
        if s[i + j] != pat[j] {
            assert(s@.subrange(i as int, i + pat@.len())[j as int] != pat@[j as int]);
            return false;
        }
        j = j + 1;
    }
    assert(s@.subrange(i as int, i + pat@.len()) =~= pat@);
    true
}

/// `s` with every occurrence of `pat`, taken from the left, replaced by `rep`.
pub fn replaced(s: &[char], pat: &[char], rep: &[char]) -> (r: Vec<char>)
    ensures
        r@ == replace_all(s@, pat@, rep@),
{
    let mut out: Vec<char> = Vec::new();
    let n: usize = s.len();
    let mut i: usize = 0;
    assert(s@.subrange(0, n as int) =~= s@);
    assert(out@ + replace_all(s@, pat@, rep@) =~= replace_all(s@, pat@, rep@));
    while i < n
        invariant
            n == s@.len(),
            i <= n,
            out@ + replace_all(s@.subrange(i as int, n as int), pat@, rep@) == replace_all(
                s@,
                pat@,
                rep@,
            ),
        decreases n - i,
    {
        let ghost rest = s@.subrange(i as int, n as int);
        let ghost before = out@;
        if pat.len() > 0 && stands_at(s, pat, i) {
            assert(rest.subrange(0, pat@.len() as int) =~= pat@);
            assert(rest.subrange(pat@.len() as int, rest.len() as int) =~= s@.subrange(
                i + pat@.len(),
                n as int,
            ));
            push_all(&mut out, rep);
            i = i + pat.len();
            assert(before + replace_all(rest, pat@, rep@) =~= out@ + replace_all(
                s@.subrange(i as int, n as int),
                pat@,
                rep@,
            ));
        } else {
            proof {
                if pat@.len() > 0 && rest.len() >= pat@.len() {
                    assert(rest.subrange(0, pat@.len() as int) =~= s@.subrange(
                        i as int,
                        i + pat@.len(),
                    ));
                }
            }
            assert(rest.drop_first() =~= s@.subrange(i + 1, n as int));
            assert(rest =~= seq![rest[0]] + rest.drop_first());
            out.push(s[i]);
            i = i + 1;
            assert(before + replace_all(rest, pat@, rep@) =~= out@ + replace_all(
                s@.subrange(i as int, n as int),
                pat@,
                rep@,
            ));
        }
    }
    assert(s@.subrange(i as int, n as int) =~= Seq::<char>::empty());
    assert(out@ + Seq::<char>::empty() =~= out@);
    out
}

/// Appends characters to characters.
pub fn push_all(out: &mut Vec<char>, cs: &[char])
    ensures
        final(out)@ == old(out)@ + cs@,
{
    let mut i: usize = 0;
    while i < cs.len()
        invariant
            0 <= i <= cs@.len(),
            out@ == old(out)@ + cs@.subrange(0, i as int),
        decreases cs@.len() - i,
    {
        out.push(cs[i]);
        assert(cs@.subrange(0, i + 1) =~= cs@.subrange(0, i as int).push(cs@[i as int]));
        i = i + 1;
    }
    assert(cs@.subrange(0, i as int) =~= cs@);
}

/// A string with every occurrence of `pat` replaced by `rep`.
pub fn replace_text(s: &str, pat: &str, rep: &str) -> (r: String)
    ensures
        r@ == replace_all(s@, pat@, rep@),
{
    let cs = chars_of(s);
    let ps = chars_of(pat);
    let rs = chars_of(rep);
    let out = replaced(cs.as_slice(), ps.as_slice(), rs.as_slice());
    string_of(out.as_slice())
}

/// The views of a sequence of strings.
pub open spec fn texts(v: Seq<String>) -> Seq<Seq<char>> {
    Seq::new(v.len(), |i: int| v[i]@)
}

/// The pieces of `s` between the occurrences of `c`; there is always one.
pub open spec fn split_on(s: Seq<char>, c: char) -> Seq<Seq<char>>
    decreases s.len(),
{
    if s.len() == 0 {
        seq![Seq::<char>::empty()]
    } else {
        let p = split_on(s.drop_last(), c);
        if s.last() == c {
            p.push(Seq::<char>::empty())
        } else {
            p.drop_last().push(p.last().push(s.last()))
        }
    }
}

pub proof fn lemma_split_on_len(s: Seq<char>, c: char)
    ensures
        split_on(s, c).len() > 0,
    decreases s.len(),
{
    if s.len() > 0 {
        lemma_split_on_len(s.drop_last(), c);
    }
}

/// The pieces of a string between the occurrences of `c`.
pub fn split_text(s: &str, c: char) -> (r: Vec<String>)
    ensures
        texts(r@) == split_on(s@, c),
{
    let cs = chars_of(s);
    let mut r: Vec<String> = Vec::new();
    let mut cur = String::new();
    let mut i: usize = 0;
    assert(cs@.subrange(0, 0) =~= Seq::<char>::empty());
    assert(texts(r@).push(cur@) =~= seq![Seq::<char>::empty()]);
    while i < cs.len()
        invariant
            i <= cs@.len(),
            cs@ == s@,
            texts(r@).push(cur@) == split_on(cs@.subrange(0, i as int), c),
        decreases cs@.len() - i,
    {
        let ghost done = cs@.subrange(0, i as int);
        let ghost next = cs@.subrange(0, i + 1);
        assert(next.drop_last() =~= done);
        let ghost p = split_on(done, c);
        assert(p.last() == cur@);
        assert(p.drop_last() =~= texts(r@));
        let ch = cs[i];
        if ch == c {
            let ghost whole = texts(r@).push(cur@);
            r.push(cur);
            cur = String::new();
            assert(texts(r@) =~= whole);
            assert(texts(r@).push(cur@) =~= p.push(Seq::<char>::empty()));
        } else {
            cur.push(ch);
            assert(texts(r@).push(cur@) =~= p.drop_last().push(p.last().push(ch)));
        }
        i = i + 1;
    }
    assert(cs@.subrange(0, i as int) =~= cs@);
    let ghost whole = texts(r@).push(cur@);
    r.push(cur);
    assert(texts(r@) =~= whole);
    r
}

/// The parts one after the other with `sep` between them.
pub open spec fn join(parts: Seq<Seq<char>>, sep: Seq<char>) -> Seq<char>
    decreases parts.len(),
{
    if parts.len() == 0 {
        Seq::<char>::empty()
    } else if parts.len() == 1 {
        parts[0]
    } else {
        join(parts.drop_last(), sep) + sep + parts.last()
    }
}

/// Strings one after the other with `sep` between them.
pub fn join_texts(parts: &Vec<String>, sep: &str) -> (r: String)
    ensures
        r@ == join(texts(parts@), sep@),
{
    let mut out = String::new();
    let mut i: usize = 0;
    while i < parts.len()
        invariant
            i <= parts@.len(),
            out@ == join(texts(parts@).subrange(0, i as int), sep@),
        decreases parts@.len() - i,
    {
        let ghost next = texts(parts@).subrange(0, i + 1);
        assert(next.drop_last() =~= texts(parts@).subrange(0, i as int));
        if i > 0 {
            out.append(sep);
        }
        out.append(parts[i].as_str());
        assert(out@ =~= join(next, sep@));
        i = i + 1;
    }
    assert(texts(parts@).subrange(0, i as int) =~= texts(parts@));
    out
}

/// The parts one after the other.
pub open spec fn concat_all(parts: Seq<Seq<char>>) -> Seq<char>
    decreases parts.len(),
{
    if parts.len() == 0 {
        Seq::<char>::empty()
    } else {
        concat_all(parts.drop_last()) + parts.last()
    }
}

/// The decimal digit of `d`.
pub open spec fn digit(d: int) -> char {
    if d == 1 {
        '1'
    } else if d == 2 {
        '2'
    } else if d == 3 {
        '3'
    } else if d == 4 {
        '4'
    } else if d == 5 {
        '5'
    } else if d == 6 {
        '6'
    } else if d == 7 {
        '7'
    } else if d == 8 {
        '8'
    } else if d == 9 {
        '9'
    } else {
        '0'
    }
}

/// `n` written in decimal.
pub open spec fn decimal(n: nat) -> Seq<char>
    decreases n,
{
    if n < 10 {
        seq![digit(n as int)]
    } else {
        decimal(n / 10).push(digit((n % 10) as int))
    }
}

fn digit_char(d: u8) -> (c: char)
    ensures
        c == digit(d as int),
{
    match d {
        1 => '1',
        2 => '2',
        3 => '3',
        4 => '4',
        5 => '5',
        6 => '6',
        7 => '7',
        8 => '8',
        9 => '9',
        _ => '0',
    }
}

fn decimal_chars(n: u128) -> (r: Vec<char>)
    ensures
        r@ == decimal(n as nat),
    decreases n,
{
    if n < 10 {
        let mut r: Vec<char> = Vec::new();
        r.push(digit_char(n as u8));
        assert(r@ =~= seq![digit(n as int)]);
        r
    } else {
        let mut r = decimal_chars(n / 10);
        r.push(digit_char((n % 10) as u8));
        r
    }
}

/// A number in decimal.
pub fn decimal_text(n: u128) -> (r: String)
    ensures
        r@ == decimal(n as nat),
{
    let cs = decimal_chars(n);
    string_of(cs.as_slice())
}

/// An ASCII capital letter as a small one, anything else as it is.
pub open spec fn lower_char(c: char) -> char {
    if 'A' <= c && c <= 'Z' {
        ((c as u8 + 32) as u8) as char
    } else {
        c
    }
}

/// A text with its ASCII capital letters as small ones.
pub open spec fn ascii_lower(s: Seq<char>) -> Seq<char> {
    Seq::new(s.len(), |i: int| lower_char(s[i]))
}

/// A text with its ASCII capital letters as small ones.
pub fn lower_text(s: &str) -> (r: String)
    ensures
        r@ == ascii_lower(s@),
{
    let cs = chars_of(s);
    let mut out = String::new();
    let mut i: usize = 0;
    while i < cs.len()
        invariant
            i <= cs@.len(),
            cs@ == s@,
            out@ =~= ascii_lower(s@).subrange(0, i as int),
        decreases cs@.len() - i,
    {
        let c = cs[i];
        if 'A' <= c && c <= 'Z' {
            out.push((c as u8 + 32) as char);
        } else {
            out.push(c);
        }
        i = i + 1;
    }
    assert(out@ =~= ascii_lower(s@));
    out
}

/// The first `n` characters, or all if there are fewer.
pub open spec fn first_chars(s: Seq<char>, n: nat) -> Seq<char> {
    if s.len() > n {
        s.subrange(0, n as int)
    } else {
        s
    }
}

/// The first `n` characters, or all if there are fewer.
pub fn head_text(s: &str, n: usize) -> (r: String)
    ensures
        r@ == first_chars(s@, n as nat),
{
    let cs = chars_of(s);
    if cs.len() > n {
        let head = copy_range(cs.as_slice(), 0, n);
        string_of(head.as_slice())
    } else {
        string_of(cs.as_slice())
    }
}

/// Whether a text holds nothing but white space.
pub open spec fn is_blank(s: Seq<char>) -> bool {
    trim(s).len() == 0
}

/// Whether a text holds nothing but white space.
pub fn blank(s: &str) -> (r: bool)
    ensures
        r == is_blank(s@),
{
    let t = trim_text(s);
    t.as_str().unicode_len() == 0
}

/// Three texts one after the other.
pub fn cat3(a: &str, b: &str, c: &str) -> (r: String)
    ensures
        r@ == a@ + b@ + c@,
{
    let mut out = String::from_str(a);
    out.append(b);
    out.append(c);
    out
}

/// Two texts one after the other.
pub fn cat2(a: &str, b: &str) -> (r: String)
    ensures
        r@ == a@ + b@,
{
    let mut out = String::from_str(a);
    out.append(b);
    out
}

proof fn lemma_trim_start(s: Seq<char>) -> (i: int)
    ensures
        0 <= i <= s.len(),
        trim_start(s) == s.subrange(i, s.len() as int),
        forall|k: int| 0 <= k < i ==> is_white(#[trigger] s[k]),
        i < s.len() ==> !is_white(s[i]),
    decreases s.len(),
{
    if s.len() > 0 && is_white(s[0]) {
        let t = s.drop_first();
        let j = lemma_trim_start(t);
        assert forall|k: int| 0 <= k < j + 1 implies is_white(#[trigger] s[k]) by {
            if k > 0 {
                assert(t[k - 1] == s[k]);
            }
        }
        if j < t.len() {
            assert(t[j] == s[j + 1]);
        }
        assert(t.subrange(j, t.len() as int) =~= s.subrange(j + 1, s.len() as int));
        j + 1
    } else {
        assert(s.subrange(0, s.len() as int) =~= s);
        0
    }
}

proof fn lemma_trim_end(s: Seq<char>) -> (j: int)
    ensures
        0 <= j <= s.len(),
        trim_end(s) == s.subrange(0, j),
        forall|k: int| j <= k < s.len() ==> is_white(#[trigger] s[k]),
        j > 0 ==> !is_white(s[j - 1]),
    decreases s.len(),
{
    if s.len() > 0 && is_white(s.last()) {
        let t = s.drop_last();
        let j = lemma_trim_end(t);
        assert forall|k: int| j <= k < s.len() implies is_white(#[trigger] s[k]) by {
            if k < t.len() {
                assert(t[k] == s[k]);
            }
        }
        assert(t.subrange(0, j) =~= s.subrange(0, j));
        j
    } else {
        assert(s.subrange(0, s.len() as int) =~= s);
        s.len() as int
    }
}

/// Trimming takes away white space around a text and nothing else: what is left
/// stands in the text from `i` to `j`, all that stands outside is white space,
/// and neither end of what is left is.
pub proof fn trimming_takes_only_white_space(s: Seq<char>) -> (r: (int, int))
    ensures
        0 <= r.0 <= r.1 <= s.len(),
        trim(s) == s.subrange(r.0, r.1),
        forall|k: int| 0 <= k < s.len() && (k < r.0 || r.1 <= k) ==> is_white(#[trigger] s[k]),
        r.0 < r.1 ==> !is_white(s[r.0]) && !is_white(s[r.1 - 1]),
{
    let i = lemma_trim_start(s);
    let t = trim_start(s);
    let j = lemma_trim_end(t);
    assert forall|k: int| 0 <= k < s.len() && (k < i || i + j <= k) implies is_white(
        #[trigger] s[k],
    ) by {
        if k >= i {
            assert(t[k - i] == s[k]);
        }
    }
    if j > 0 {
        assert(t[0] == s[i]);
        assert(t[j - 1] == s[i + j - 1]);
    }
    assert(t.subrange(0, j) =~= s.subrange(i, i + j));
    (i, i + j)
}

/// A text with no white space at either end is left as it is, and a text is blank
/// if and only if it is white space throughout.
pub proof fn full_texts_stay(s: Seq<char>)
    ensures
        s.len() > 0 && !is_white(s[0]) && !is_white(s.last()) ==> trim(s) == s,
        is_blank(s) <==> forall|k: int| 0 <= k < s.len() ==> is_white(#[trigger] s[k]),
{
    let (i, j) = trimming_takes_only_white_space(s);
    if s.len() > 0 && !is_white(s[0]) && !is_white(s.last()) {
        assert(i == 0) by {
            if i > 0 {
                assert(is_white(s[0]));
            }
        }
        assert(j == s.len()) by {
            if j < s.len() {
                assert(is_white(s[s.len() - 1]));
            }
        }
        assert(s.subrange(0, s.len() as int) =~= s);
    }
    if i < j {
        assert(!is_white(s[i]));
    }
}

proof fn lemma_join_push(parts: Seq<Seq<char>>, sep: Seq<char>, x: Seq<char>)
    requires
        parts.len() > 0,
    ensures
        join(parts.push(x), sep) == join(parts, sep) + sep + x,
{
    assert(parts.push(x).drop_last() =~= parts);
}

/// Splitting loses nothing: the pieces joined again are the text, and the
/// character at which it is split is in none of them.
pub proof fn split_pieces_join_again(s: Seq<char>, c: char)
    ensures
        split_on(s, c).len() > 0,
        join(split_on(s, c), seq![c]) == s,
        forall|i: int| 0 <= i < split_on(s, c).len() ==> !(#[trigger] split_on(s, c)[i]).contains(c),
    decreases s.len(),
{
    let p = split_on(s, c);
    if s.len() == 0 {
        assert(p.len() == 1 && p[0].len() == 0);
        assert(join(p, seq![c]) =~= s);
    } else {
        let t = s.drop_last();
        let q = split_on(t, c);
        split_pieces_join_again(t, c);
        assert(s =~= t.push(s.last()));
        if s.last() == c {
            lemma_join_push(q, seq![c], Seq::empty());
            assert(t + seq![c] + Seq::<char>::empty() =~= s);
            assert forall|i: int| 0 <= i < p.len() implies !(#[trigger] p[i]).contains(c) by {
                if i < q.len() {
                    assert(p[i] == q[i]);
                }
            }
        } else {
            let x = q.last().push(s.last());
            assert forall|i: int| 0 <= i < p.len() implies !(#[trigger] p[i]).contains(c) by {
                if i < q.len() - 1 {
                    assert(p[i] == q[i]);
                } else {
                    assert(p[i] == x);
                    assert(!q[q.len() - 1].contains(c));
                    if x.contains(c) {
                        let k = choose|k: int| 0 <= k < x.len() && x[k] == c;
                        assert(k < q.last().len());
                        assert(q.last()[k] == c);
                    }
                }
            }
            if q.len() == 1 {
                assert(q.drop_last().push(x) =~= seq![x]);
                assert(join(p, seq![c]) =~= s);
            } else {
                let h = q.drop_last();
                assert(q =~= h.push(q.last()));
                lemma_join_push(h, seq![c], q.last());
                lemma_join_push(h, seq![c], x);
                assert(join(h, seq![c]) + seq![c] + x =~= (join(h, seq![c]) + seq![c]
                    + q.last()).push(s.last()));
            }
        }
    }
}

/// Every part that is joined stands in the whole.
pub proof fn joined_parts_are_there(parts: Seq<Seq<char>>, sep: Seq<char>, i: int)
    requires
        0 <= i < parts.len(),
    ensures
        contains(join(parts, sep), parts[i]),
    decreases parts.len(),
{
    let whole = join(parts, sep);
    if parts.len() == 1 {
        assert(whole.subrange(0, whole.len() as int) =~= whole);
        assert(occurs_at(whole, parts[i], 0));
    } else if i == parts.len() - 1 {
        let head = join(parts.drop_last(), sep) + sep;
        assert(whole.subrange(head.len() as int, whole.len() as int) =~= parts[i]);
        assert(occurs_at(whole, parts[i], head.len() as int));
    } else {
        joined_parts_are_there(parts.drop_last(), sep, i);
        let head = join(parts.drop_last(), sep);
        let k = choose|k: int| occurs_at(head, parts[i], k);
        assert(whole.subrange(k, k + parts[i].len()) =~= head.subrange(k, k + parts[i].len()));
        assert(occurs_at(whole, parts[i], k));
    }
}

/// What is in a part of a text is in the text.
pub proof fn parts_hold_in_the_whole(a: Seq<char>, b: Seq<char>, c: Seq<char>, pat: Seq<char>)
    ensures
        contains(a + b + c, b),
        contains(b, pat) ==> contains(a + b + c, pat),
{
    let w = a + b + c;
    assert(w.subrange(a.len() as int, (a.len() + b.len()) as int) =~= b);
    assert(occurs_at(w, b, a.len() as int));
    if contains(b, pat) {
        let k = choose|k: int| occurs_at(b, pat, k);
        assert(w.subrange(a.len() + k, a.len() + k + pat.len()) =~= b.subrange(k, k + pat.len()));
        assert(occurs_at(w, pat, a.len() + k));
    }
}

/// A text that is put together around a character is split there: its pieces are
/// those of both sides.
pub proof fn splitting_goes_side_by_side(a: Seq<char>, c: char, b: Seq<char>)
    ensures
        split_on(a.push(c) + b, c) == split_on(a, c) + split_on(b, c),
        !a.contains(c) ==> split_on(a, c) == seq![a],
    decreases b.len(),
{
    lemma_split_on_len(a, c);
    lemma_split_on_len(b, c);
    if b.len() == 0 {
        assert(a.push(c) + b =~= a.push(c));
        assert(a.push(c).drop_last() =~= a);
        assert(split_on(a.push(c), c) =~= split_on(a, c) + split_on(b, c));
    } else {
        let t = b.drop_last();
        splitting_goes_side_by_side(a, c, t);
        lemma_split_on_len(t, c);
        assert((a.push(c) + b).drop_last() =~= a.push(c) + t);
        let p = split_on(a, c) + split_on(t, c);
        assert(p.last() == split_on(t, c).last());
        assert(p.drop_last() =~= split_on(a, c) + split_on(t, c).drop_last());
        assert(split_on(a.push(c) + b, c) =~= split_on(a, c) + split_on(b, c));
    }
    if !a.contains(c) {
        lemma_unsplit(a, c);
    }
}

proof fn lemma_unsplit(a: Seq<char>, c: char)
    requires
        !a.contains(c),
    ensures
        split_on(a, c) == seq![a],
    decreases a.len(),
{
    if a.len() > 0 {
        let t = a.drop_last();
        if t.contains(c) {
            let k = choose|k: int| 0 <= k < t.len() && t[k] == c;
            assert(a[k] == c);
        }
        assert(a[a.len() - 1] != c);
        lemma_unsplit(t, c);
        assert(t.push(a.last()) =~= a);
        assert(seq![t].drop_last().push(a) =~= seq![a]);
    } else {
        assert(a =~= Seq::<char>::empty());
    }
}

/// A text in which the pattern does not occur stays as it is.
pub proof fn texts_without_the_pattern_stay(s: Seq<char>, pat: Seq<char>, rep: Seq<char>)
    requires
        !contains(s, pat),
    ensures
        replace_all(s, pat, rep) == s,
    decreases s.len(),
{
    if pat.len() > 0 && s.len() >= pat.len() {
        let t = s.drop_first();
        assert forall|i: int| !occurs_at(t, pat, i) by {
            if occurs_at(t, pat, i) {
                assert(s.subrange(i + 1, i + 1 + pat.len()) =~= t.subrange(i, i + pat.len()));
                assert(occurs_at(s, pat, i + 1));
            }
        }
        texts_without_the_pattern_stay(t, pat, rep);
        assert(!occurs_at(s, pat, 0));
        assert(seq![s[0]] + t =~= s);
    }
}

/// What stands before the first place of the pattern stays, the pattern is replaced,
/// and what follows is treated alike.
pub proof fn the_first_place_is_replaced(
    a: Seq<char>,
    pat: Seq<char>,
    rep: Seq<char>,
    b: Seq<char>,
)
    requires
        pat.len() > 0,
        forall|i: int| 0 <= i < a.len() ==> !occurs_at(a + pat + b, pat, i),
    ensures
        replace_all(a + pat + b, pat, rep) == a + rep + replace_all(b, pat, rep),
    decreases a.len(),
{
    let whole = a + pat + b;
    let done = replace_all(b, pat, rep);
    if a.len() == 0 {
        assert(whole.subrange(0, pat.len() as int) =~= pat);
        assert(whole.subrange(pat.len() as int, whole.len() as int) =~= b);
        assert(a + rep =~= rep);
    } else {
        let t = a.drop_first();
        let rest = t + pat + b;
        assert(whole.drop_first() =~= rest);
        assert(!occurs_at(whole, pat, 0));
        assert forall|i: int| 0 <= i < t.len() implies !occurs_at(rest, pat, i) by {
            if occurs_at(rest, pat, i) {
                assert(whole.subrange(i + 1, i + 1 + pat.len()) =~= rest.subrange(i, i + pat.len()));
                assert(occurs_at(whole, pat, i + 1));
            }
        }
        the_first_place_is_replaced(t, pat, rep, b);
        assert(whole[0] == a[0]);
        assert(replace_all(whole, pat, rep) == seq![a[0]] + (t + rep + done));
        assert(seq![a[0]] + (t + rep + done) =~= a + rep + done);
    }
}

/// The first characters of a text are its beginning: as many as were asked for, or
/// all.
pub proof fn first_characters_are_the_beginning(s: Seq<char>, n: nat)
    ensures
        first_chars(s, n).is_prefix_of(s),
        first_chars(s, n).len() <= n,
        first_chars(s, n).len() == n || first_chars(s, n) == s,
{
    assert(s.subrange(0, s.len() as int) =~= s);
}

/// Capital letters of the Latin alphabet become small ones, and every other character
/// stays in its place.
pub proof fn only_capitals_become_small(s: Seq<char>, i: int)
    requires
        0 <= i < s.len(),
    ensures
        ascii_lower(s).len() == s.len(),
        'A' <= s[i] && s[i] <= 'Z' ==> ascii_lower(s)[i] as int == s[i] as int + 32,
        !('A' <= s[i] && s[i] <= 'Z') ==> ascii_lower(s)[i] == s[i],
{
}

/// Spaces, tabs and line ends are white space, and so are the wide spaces of other
/// scripts. No letter, digit or sign of ASCII is, and no Chinese character.
pub proof fn words_hold_no_white_space(c: char)
    ensures
        is_white(' ') && is_white('\t') && is_white('\n') && is_white('\r'),
        is_white('\u{a0}') && is_white('\u{3000}') && is_white('\u{2028}'),
        '!' <= c && c <= '~' ==> !is_white(c),
        '\u{3001}' <= c && c <= '\u{9fff}' ==> !is_white(c),
        is_white(c) ==> c <= '\u{3000}',
{
}

} // verus!
