//! Whether there is a newer version.
use vstd::prelude::*;
use crate::numbers::{
    count_digits, decimals_differ, digits_at, is_digit, lemma_decimal_number, number_of, read_number,
};
use crate::text::{
    chars_of, copy_range, decimal, full_texts_stay, split_on, split_text,
    splitting_goes_side_by_side, string_of, texts, trim, trim_text,
};

verus! {

/// What is known of a newer version.
pub struct UpdateInfo {
    pub current: String,
    pub latest: Option<String>,
    pub has_update: bool,
    pub released_at: Option<String>,
    pub notes: Option<String>,
    pub download_url: Option<String>,
    pub error: Option<String>,
}

/// What was published of the latest version.
pub struct RemoteVersion {
    pub version: String,
    pub released_at: Option<String>,
    pub notes: Option<String>,
    pub download_url: Option<String>,
}

/// `s` without the letters `v` in front.
pub open spec fn without_v(s: Seq<char>) -> Seq<char>
    decreases s.len(),
{
    if s.len() > 0 && s[0] == 'v' {
        without_v(s.drop_first())
    } else {
        s
    }
}

/// The number that a part of a version begins with; zero if there is none or it
/// does not fit.
pub open spec fn part_number(part: Seq<char>) -> nat {
    let d = part.subrange(0, digits_at(part, 0) as int);
    if number_of(d) <= u32::MAX {
        number_of(d)
    } else {
        0
    }
}

/// The number of the `k`th part; zero if there are fewer.
pub open spec fn kth_number(parts: Seq<Seq<char>>, k: int) -> nat {
    if k < parts.len() {
        part_number(parts[k])
    } else {
        0
    }
}

/// The three numbers of a version.
pub open spec fn version_of(s: Seq<char>) -> (nat, nat, nat) {
    let parts = split_on(without_v(trim(s)), '.');
    (kth_number(parts, 0), kth_number(parts, 1), kth_number(parts, 2))
}

/// A version is later than another.
pub open spec fn later(a: (nat, nat, nat), b: (nat, nat, nat)) -> bool {
    a.0 > b.0 || (a.0 == b.0 && (a.1 > b.1 || (a.1 == b.1 && a.2 > b.2)))
}

fn leading_number(part: &str) -> (r: u32)
    ensures
        r == part_number(part@),
{
    let cs = chars_of(part);
    let count: usize = count_digits(cs.as_slice(), 0);
    match read_number(cs.as_slice(), 0, count) {
        Some(n) => if n as u64 <= u32::MAX as u64 {
            n as u32
        } else {
            0
        },
        None => {
            proof {
                if count == 0 {
                    assert(cs@.subrange(0, 0) =~= Seq::<char>::empty());
                    assert(number_of(Seq::<char>::empty()) == 0);
                }
            }
            0
        },
    }
}

/// The three numbers of a version. Letters `v` in front and anything behind the
/// digits of a part do not count; a part that is missing or no number is zero.
pub fn parse_version(s: &str) -> (r: (u32, u32, u32))
    ensures
        (r.0 as nat, r.1 as nat, r.2 as nat) == version_of(s@),
{
    let t = trim_text(s);
    let cs = chars_of(t.as_str());
    let n: usize = cs.len();
    let mut i: usize = 0;
    assert(cs@.subrange(0, n as int) =~= cs@);
    while i < n && cs[i] == 'v'
        invariant
            n == cs@.len(),
            i <= n,
            without_v(cs@) == without_v(cs@.subrange(i as int, n as int)),
        decreases n - i,
    {
        assert(cs@.subrange(i as int, n as int).drop_first() =~= cs@.subrange(i + 1, n as int));
        i = i + 1;
    }
    let rest = copy_range(cs.as_slice(), i, n);
    let rest_text = string_of(rest.as_slice());
    let parts = split_text(rest_text.as_str(), '.');
    assert(texts(parts@).len() == parts@.len());
    let major: u32 = kth(&parts, 0);
    let minor: u32 = kth(&parts, 1);
    let patch: u32 = kth(&parts, 2);
    (major, minor, patch)
}

fn kth(parts: &Vec<String>, k: usize) -> (r: u32)
    ensures
        r == kth_number(texts(parts@), k as int),
{
    if k < parts.len() {
        leading_number(parts[k].as_str())
    } else {
        0
    }
}

/// Whether one version is later than another.
pub fn is_strictly_newer(remote: &str, current: &str) -> (r: bool)
    ensures
        r == later(version_of(remote@), version_of(current@)),
{
    let a = parse_version(remote);
    let b = parse_version(current);
    a.0 > b.0 || (a.0 == b.0 && (a.1 > b.1 || (a.1 == b.1 && a.2 > b.2)))
}

/// No version is later than itself, of two never each than the other, and the
/// order carries over.
pub proof fn later_is_a_strict_order(a: (nat, nat, nat), b: (nat, nat, nat), c: (nat, nat, nat))
    ensures
        !later(a, a),
        !(later(a, b) && later(b, a)),
        later(a, b) && later(b, c) ==> later(a, c),
        a != b ==> later(a, b) || later(b, a),
{
}

impl UpdateInfo {
    /// Nothing is known, for a reason.
    pub fn fail(current: &str, msg: &str) -> (r: Self)
        ensures
            r.current@ == current@,
            r.latest is None,
            !r.has_update,
            r.released_at is None,
            r.notes is None,
            r.download_url is None,
            r.error matches Some(e) && e@ == msg@,
    {
        UpdateInfo {
            current: String::from_str(current),
            latest: None,
            has_update: false,
            released_at: None,
            notes: None,
            download_url: None,
            error: Some(String::from_str(msg)),
        }
    }

    /// What was published, held against the version at hand.
    pub fn from_remote(current: &str, remote: RemoteVersion) -> (r: Self)
        ensures
            r.current@ == current@,
            r.latest == Some(remote.version),
            r.has_update == later(version_of(remote.version@), version_of(current@)),
            r.released_at == remote.released_at,
            r.notes == remote.notes,
            match remote.download_url {
                Some(u) => r.download_url == Some(u),
                None => r.download_url matches Some(u) && u@ == "https://lawtools.top/"@,
            },
            r.error is None,
    {
        let has_update = is_strictly_newer(remote.version.as_str(), current);
        let download_url = match remote.download_url {
            Some(u) => Some(u),
            None => Some(String::from_str("https://lawtools.top/")),
        };
        UpdateInfo {
            current: String::from_str(current),
            latest: Some(remote.version),
            has_update,
            released_at: remote.released_at,
            notes: remote.notes,
            download_url,
            error: None,
        }
    }
}

proof fn lemma_all_digits(s: Seq<char>, from: int)
    requires
        0 <= from <= s.len(),
        forall|i: int| from <= i < s.len() ==> is_digit(#[trigger] s[i]),
    ensures
        digits_at(s, from) == s.len() - from,
    decreases s.len() - from,
{
    if from < s.len() {
        lemma_all_digits(s, from + 1);
    }
}

proof fn lemma_part(n: nat)
    requires
        n <= u32::MAX,
    ensures
        part_number(decimal(n)) == n,
        !decimal(n).contains('.'),
        decimal(n).len() > 0,
        is_digit(decimal(n)[0]),
        is_digit(decimal(n).last()),
{
    decimals_differ(n, n);
    lemma_decimal_number(n);
    let d = decimal(n);
    lemma_all_digits(d, 0);
    assert(d.subrange(0, d.len() as int) =~= d);
    if d.contains('.') {
        let k = choose|k: int| 0 <= k < d.len() && d[k] == '.';
        assert(is_digit(d[k]));
    }
    assert(is_digit(d[d.len() - 1]));
}

/// A version that is written as three numbers reads as these numbers, with or
/// without a `v` in front.
pub proof fn versions_read_as_written(a: nat, b: nat, c: nat)
    requires
        a <= u32::MAX,
        b <= u32::MAX,
        c <= u32::MAX,
    ensures
        version_of(decimal(a).push('.') + decimal(b).push('.') + decimal(c)) == (a, b, c),
        version_of(seq!['v'] + decimal(a).push('.') + decimal(b).push('.') + decimal(c)) == (
            a,
            b,
            c,
        ),
        version_of(decimal(a).push('.') + decimal(b)) == (a, b, 0nat),
        version_of(decimal(a)) == (a, 0nat, 0nat),
{
    lemma_part(a);
    lemma_part(b);
    lemma_part(c);
    let (x, y, z) = (decimal(a), decimal(b), decimal(c));
    let s = x.push('.') + y.push('.') + z;
    let v = seq!['v'] + x.push('.') + y.push('.') + z;
    let two = x.push('.') + y;
    assert(s =~= x.push('.') + (y.push('.') + z));
    splitting_goes_side_by_side(x, '.', y.push('.') + z);
    splitting_goes_side_by_side(y, '.', z);
    splitting_goes_side_by_side(z, '.', Seq::empty());
    splitting_goes_side_by_side(x, '.', y);
    full_texts_stay(s);
    full_texts_stay(v);
    full_texts_stay(two);
    full_texts_stay(x);
    assert(s[0] == x[0] && s.last() == z.last());
    assert(v[0] == 'v' && v.last() == z.last());
    assert(two[0] == x[0] && two.last() == y.last());
    reveal_with_fuel(without_v, 2);
    assert(v.drop_first() =~= s);
    assert(split_on(s, '.') =~= seq![x, y, z]);
    assert(split_on(two, '.') =~= seq![x, y]);
    assert(split_on(x, '.') =~= seq![x]);
}

/// The first number that differs decides which version is later: the one with the
/// higher number.
pub proof fn higher_numbers_are_later(a: (nat, nat, nat), b: (nat, nat, nat))
    ensures
        a.0 > b.0 ==> later(a, b) && !later(b, a),
        a.0 == b.0 && a.1 > b.1 ==> later(a, b) && !later(b, a),
        a.0 == b.0 && a.1 == b.1 && a.2 > b.2 ==> later(a, b) && !later(b, a),
        a == b ==> !later(a, b),
{
}

} // verus!
