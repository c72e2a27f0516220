//! Counting how long the application is in use.
use vstd::prelude::*;
use crate::text::{cat2, chars_of, copy_range, string_of};

verus! {

/// Seconds between two signs of life.
pub const HEARTBEAT_SECS: u64 = 300;

/// Nothing is sent unless an address and a key were built in, and never from
/// tests.
pub fn enabled(testing: bool, url: &Option<String>, key: &Option<String>) -> (r: bool)
    ensures
        r == (!testing && *url is Some && *key is Some),
{
    !testing && url.is_some() && key.is_some()
}

/// `s` without the slashes at its end.
pub open spec fn without_slashes(s: Seq<char>) -> Seq<char>
    decreases s.len(),
{
    if s.len() > 0 && s.last() == '/' {
        without_slashes(s.drop_last())
    } else {
        s
    }
}

/// Where events are sent.
pub fn events_url(base: &str) -> (r: String)
    ensures
        r@ == without_slashes(base@) + "/rest/v1/usage_events"@,
{
    let cs = chars_of(base);
    let mut n: usize = cs.len();
    assert(cs@.subrange(0, n as int) =~= cs@);
    while n > 0 && cs[n - 1] == '/'
        invariant
            n <= cs@.len(),
            without_slashes(cs@) == without_slashes(cs@.subrange(0, n as int)),
        decreases n,
    {
        assert(cs@.subrange(0, n as int).drop_last() =~= cs@.subrange(0, n - 1));
        n = n - 1;
    }
    let head = copy_range(cs.as_slice(), 0, n);
    let text = string_of(head.as_slice());
    cat2(text.as_str(), "/rest/v1/usage_events")
}

/// What kind of event the one of this number is: the first begins a session,
/// all others are signs of life.
pub fn event_type(number: u64) -> (r: &'static str)
    ensures
        r@ == if number == 0 {
            "session_start"@
        } else {
            "heartbeat"@
        },
{
    if number == 0 {
        "session_start"
    } else {
        "heartbeat"
    }
}

/// Slashes at the end of the address do not matter, and nothing else of it is lost.
pub proof fn slashes_at_the_end_do_not_matter(base: Seq<char>)
    ensures
        without_slashes(base.push('/')) == without_slashes(base),
        base.len() > 0 && base.last() != '/' ==> without_slashes(base) == base,
        without_slashes(base).is_prefix_of(base),
        without_slashes(base).len() == 0 || without_slashes(base).last() != '/',
    decreases base.len(),
{
    assert(base.push('/').drop_last() =~= base);
    if base.len() > 0 && base.last() == '/' {
        slashes_at_the_end_do_not_matter(base.drop_last());
        let o = without_slashes(base);
        assert(base.subrange(0, o.len() as int) =~= base.drop_last().subrange(0, o.len() as int));
    } else {
        assert(base.subrange(0, base.len() as int) =~= base);
    }
}

} // verus!
