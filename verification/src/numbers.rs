//! Numbers in texts.
use vstd::prelude::*;
use crate::text::{chars_of, decimal};

verus! {

/// A decimal digit.
pub open spec fn is_digit(c: char) -> bool {
    '0' <= c && c <= '9'
}

/// The number that a digit stands for.
pub open spec fn digit_of(c: char) -> nat {
    (c as u32 - '0' as u32) as nat
}

/// The number that some digits stand for.
pub open spec fn number_of(s: Seq<char>) -> nat
    decreases s.len(),
{
    if s.len() == 0 {
        0
    } else {
        number_of(s.drop_last()) * 10 + digit_of(s.last())
    }
}

/// How many digits stand in `s` from `from` on.
pub open spec fn digits_at(s: Seq<char>, from: int) -> nat
    decreases s.len() - from,
{
    if from < 0 || from >= s.len() || !is_digit(s[from]) {
        0
    } else {
        1 + digits_at(s, from + 1)
    }
}

/// A number written in decimal reads as itself.
pub proof fn lemma_decimal_number(n: nat)
    ensures
        number_of(decimal(n)) == n,
        decimal(n).len() > 0,
    decreases n,
{
    reveal_with_fuel(number_of, 2);
    if n < 10 {
        assert(decimal(n).drop_last() =~= Seq::<char>::empty());
    } else {
        lemma_decimal_number(n / 10);
        assert(decimal(n).drop_last() =~= decimal(n / 10));
    }
}

/// Reads a number from digits; nothing if there are none or the number does
/// not fit.
pub fn read_number(s: &[char], from: usize, to: usize) -> (r: Option<usize>)
    requires
        from <= to <= s@.len(),
        forall|k: int| from <= k < to ==> is_digit(#[trigger] s@[k]),
    ensures
        ({
            let d = s@.subrange(from as int, to as int);
            match r {
                Some(n) => d.len() > 0 && number_of(d) == n,
                None => d.len() == 0 || number_of(d) > usize::MAX,
            }
        }),
{
    if from == to {
        return None;
    }
    let mut n: usize = 0;
    let mut i: usize = from;
    assert(s@.subrange(from as int, from as int) =~= Seq::<char>::empty());
    while i < to
        invariant
            from <= i <= to <= s@.len(),
            forall|k: int| from <= k < to ==> is_digit(#[trigger] s@[k]),
            n == number_of(s@.subrange(from as int, i as int)),
        decreases to - i,
    {
        let ghost next = s@.subrange(from as int, i + 1);
        assert(next.drop_last() =~= s@.subrange(from as int, i as int));
        let c = s[i];
        assert(is_digit(s@[i as int]));
        let d: usize = (c as u32 - '0' as u32) as usize;
        if n > (usize::MAX - d) / 10 {
            proof {
                assert(number_of(next) > usize::MAX);
                lemma_number_grows(s@.subrange(from as int, to as int), i + 1 - from);
                assert(s@.subrange(from as int, to as int).subrange(0, i + 1 - from) =~= next);
            }
            return None;
        }
        n = n * 10 + d;
        i = i + 1;
    }
    Some(n)
}

proof fn lemma_number_grows(s: Seq<char>, k: int)
    requires
        0 <= k <= s.len(),
    ensures
        number_of(s.subrange(0, k)) <= number_of(s),
    decreases s.len(),
{
    if k < s.len() {
        lemma_number_grows(s.drop_last(), k);
        assert(s.drop_last().subrange(0, k) =~= s.subrange(0, k));
    } else {
        assert(s.subrange(0, k) =~= s);
    }
}

/// How many digits stand in a row from a place on.
pub fn count_digits(s: &[char], from: usize) -> (r: usize)
    requires
        from <= s@.len(),
    ensures
        r == digits_at(s@, from as int),
        from + r <= s@.len(),
        forall|k: int| from <= k < from + r ==> is_digit(#[trigger] s@[k]),
{
    let n: usize = s.len();
    let mut i: usize = from;
    while i < n && '0' <= s[i] && s[i] <= '9'
        invariant
            n == s@.len(),
            from <= i <= n,
            digits_at(s@, from as int) == (i - from) + digits_at(s@, i as int),
            forall|k: int| from <= k < i ==> is_digit(#[trigger] s@[k]),
        decreases n - i,
    {
        i = i + 1;
    }
    i - from
}

/// The number that a text is; nothing if it is none or is greater than `max`. A
/// plus sign may stand in front.
pub open spec fn unsigned_of(s: Seq<char>, max: nat) -> Option<nat> {
    let d = if s.len() > 0 && s[0] == '+' {
        s.drop_first()
    } else {
        s
    };
    if d.len() > 0 && digits_at(d, 0) == d.len() && number_of(d) <= max {
        Some(number_of(d))
    } else {
        None
    }
}

proof fn lemma_digits_shift(s: Seq<char>, from: int, k: int)
    requires
        0 <= from <= k <= s.len(),
    ensures
        digits_at(s, k) == digits_at(s.subrange(from, s.len() as int), k - from),
    decreases s.len() - k,
{
    let t = s.subrange(from, s.len() as int);
    if k < s.len() {
        assert(t[k - from] == s[k]);
        lemma_digits_shift(s, from, k + 1);
    }
}

/// Reads a number up to `max`.
pub fn parse_unsigned(s: &str, max: usize) -> (r: Option<usize>)
    ensures
        match r {
            Some(n) => unsigned_of(s@, max as nat) == Some(n as nat),
            None => unsigned_of(s@, max as nat) is None,
        },
{
    let cs = chars_of(s);
    let n: usize = cs.len();
    let from: usize = if n > 0 && cs[0] == '+' {
        1
    } else {
        0
    };
    let ghost d = cs@.subrange(from as int, n as int);
    proof {
        if from == 0 {
            assert(d =~= s@);
        } else {
            assert(d =~= s@.drop_first());
        }
        lemma_digits_shift(cs@, from as int, from as int);
    }
    let count: usize = count_digits(cs.as_slice(), from);
    if count != n - from {
        return None;
    }
    match read_number(cs.as_slice(), from, n) {
        Some(v) => if v <= max {
            Some(v)
        } else {
            None
        },
        None => None,
    }
}

/// Different numbers are written differently, with digits only.
pub proof fn decimals_differ(m: nat, n: nat)
    ensures
        decimal(m) == decimal(n) ==> m == n,
        forall|i: int| 0 <= i < decimal(n).len() ==> is_digit(#[trigger] decimal(n)[i]),
    decreases n,
{
    lemma_decimal_number(m);
    lemma_decimal_number(n);
    if n >= 10 {
        decimals_differ(m, n / 10);
        assert forall|i: int| 0 <= i < decimal(n).len() implies is_digit(
            #[trigger] decimal(n)[i],
        ) by {
            if i < decimal(n / 10).len() {
                assert(decimal(n)[i] == decimal(n / 10)[i]);
            }
        }
    }
}

/// A number that was written in decimal is read as itself, unless it is too large.
pub proof fn numbers_are_read_as_written(n: nat, max: nat)
    ensures
        n <= max ==> unsigned_of(decimal(n), max) == Some(n),
        n <= max ==> unsigned_of(seq!['+'] + decimal(n), max) == Some(n),
        n > max ==> unsigned_of(decimal(n), max) is None,
{
    lemma_decimal_number(n);
    lemma_decimal_digits(n);
    lemma_all_digits(decimal(n), 0);
    assert(is_digit(decimal(n)[0]));
    let p = seq!['+'] + decimal(n);
    assert(p.drop_first() =~= decimal(n));
}

proof fn lemma_decimal_digits(n: nat)
    ensures
        decimal(n).len() > 0,
        forall|i: int| 0 <= i < decimal(n).len() ==> is_digit(#[trigger] decimal(n)[i]),
    decreases n,
{
    if n >= 10 {
        lemma_decimal_digits(n / 10);
    }
}

proof fn lemma_all_digits(s: Seq<char>, k: int)
    requires
        0 <= k <= s.len(),
        forall|i: int| k <= i < s.len() ==> is_digit(#[trigger] s[i]),
    ensures
        digits_at(s, k) == s.len() - k,
    decreases s.len() - k,
{
    if k < s.len() {
        lemma_all_digits(s, k + 1);
    }
}

/// Only digits are read, behind a plus sign or none, and the number is within its
/// bound.
pub proof fn only_digits_are_read(s: Seq<char>, max: nat, i: int)
    requires
        unsigned_of(s, max) is Some,
    ensures
        unsigned_of(s, max)->0 <= max,
        0 < i < s.len() ==> is_digit(s[i]),
        s.len() > 0 && (is_digit(s[0]) || (s[0] == '+' && s.len() > 1)),
{
    let d = if s.len() > 0 && s[0] == '+' {
        s.drop_first()
    } else {
        s
    };
    assert forall|k: int| 0 <= k < d.len() implies is_digit(#[trigger] d[k]) by {
        lemma_digits_reach(d, 0, k);
    }
    assert(is_digit(d[0]));
    if 0 < i < s.len() {
        if s[0] == '+' {
            assert(d[i - 1] == s[i]);
        } else {
            assert(d[i] == s[i]);
        }
    }
}

proof fn lemma_digits_reach(s: Seq<char>, from: int, k: int)
    requires
        0 <= from <= k < s.len(),
        digits_at(s, from) == s.len() - from,
    ensures
        is_digit(s[k]),
    decreases k - from,
{
    if from < k {
        lemma_digits_reach(s, from + 1, k);
    }
}

} // verus!
