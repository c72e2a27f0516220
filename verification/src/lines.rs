//! The lines and the words of a text.
use vstd::prelude::*;
use crate::text::{
    chars_of, copy_range, is_white, lemma_split_on_len, split_on, split_text,
    splitting_goes_side_by_side, string_of, texts, white,
};

verus! {

/// A line without the carriage return at its end.
pub open spec fn without_return(line: Seq<char>) -> Seq<char> {
    if line.len() > 0 && line.last() == '\r' {
        line.drop_last()
    } else {
        line
    }
}

/// The lines of a text. What follows the last line feed is a line only if there
/// is anything.
pub open spec fn lines_of(s: Seq<char>) -> Seq<Seq<char>> {
    let parts = split_on(s, '\n');
    let n = if parts.last().len() == 0 {
        (parts.len() - 1) as nat
    } else {
        parts.len()
    };
    Seq::new(n, |i: int| if i < parts.len() - 1 { without_return(parts[i]) } else { parts[i] })
}

/// The last lines of a text, at most `n`.
pub open spec fn last_lines(s: Seq<char>, n: nat) -> Seq<Seq<char>> {
    let lines = lines_of(s);
    if lines.len() > n {
        lines.subrange(lines.len() - n, lines.len() as int)
    } else {
        lines
    }
}

/// The last lines of a text, at most `n`.
pub fn find_last_lines(s: &str, n: usize) -> (r: Vec<String>)
    ensures
        texts(r@) == last_lines(s@, n as nat),
        lines_of(s@).len() <= usize::MAX,
{
    proof {
        lemma_split_on_len(s@, '\n');
    }
    let parts = split_text(s, '\n');
    let ghost all = texts(parts@);
    assert(all.len() == parts@.len());
    let total: usize = parts.len();
    assert(all.last() == parts@[total - 1]@);
    let count: usize = if parts[total - 1].as_str().unicode_len() == 0 {
        total - 1
    } else {
        total
    };
    let from: usize = if count > n {
        count - n
    } else {
        0
    };
    let ghost lines = lines_of(s@);
    assert(lines.len() == count);
    let mut r: Vec<String> = Vec::new();
    let mut i: usize = from;
    while i < count
        invariant
            from <= i <= count <= total,
            total == parts@.len(),
            total > 0,
            all == texts(parts@),
            all == split_on(s@, '\n'),
            lines == lines_of(s@),
            lines.len() == count,
            texts(r@) =~= lines.subrange(from as int, i as int),
        decreases count - i,
    {
        let ghost before = texts(r@);
        let line = if i + 1 < total {
            drop_return(parts[i].as_str())
        } else {
            parts[i].clone()
        };
        assert(all[i as int] == parts@[i as int]@);
        assert(line@ == lines[i as int]);
        r.push(line);
        assert(texts(r@) =~= before.push(line@));
        i = i + 1;
    }
    assert(texts(r@) =~= last_lines(s@, n as nat));
    r
}

fn drop_return(line: &str) -> (r: String)
    ensures
        r@ == without_return(line@),
{
    let cs = chars_of(line);
    let n: usize = cs.len();
    if n > 0 && cs[n - 1] == '\r' {
        let head = copy_range(cs.as_slice(), 0, n - 1);
        assert(head@ =~= line@.drop_last());
        string_of(head.as_slice())
    } else {
        String::from_str(line)
    }
}

/// All lines of a text.
pub fn all_lines(s: &str) -> (r: Vec<String>)
    ensures
        texts(r@) == lines_of(s@),
{
    find_last_lines(s, usize::MAX)
}

/// The words of a text: what stands between white space. The last of them is
/// still open if the text does not end in white space.
pub open spec fn words_of(s: Seq<char>) -> Seq<Seq<char>>
    decreases s.len(),
{
    if s.len() == 0 {
        Seq::empty()
    } else {
        let w = words_of(s.drop_last());
        if is_white(s.last()) {
            w
        } else if s.len() > 1 && !is_white(s[s.len() - 2]) && w.len() > 0 {
            w.drop_last().push(w.last().push(s.last()))
        } else {
            w.push(seq![s.last()])
        }
    }
}

/// The words of a text.
pub fn split_words(s: &str) -> (r: Vec<String>)
    ensures
        texts(r@) == words_of(s@),
{
    let cs = chars_of(s);
    let mut r: Vec<String> = Vec::new();
    let mut cur = String::new();
    let mut i: usize = 0;
    let ghost mut open = false;
    assert(texts(r@) =~= words_of(cs@.subrange(0, 0)));
    while i < cs.len()
        invariant
            i <= cs@.len(),
            cs@ == s@,
            open == (i > 0 && !is_white(cs@[i - 1])),
            open == (cur@.len() > 0),
            open ==> texts(r@).push(cur@) == words_of(cs@.subrange(0, i as int)),
            !open ==> texts(r@) == words_of(cs@.subrange(0, i as int)),
        decreases cs@.len() - i,
    {
        let ghost done = cs@.subrange(0, i as int);
        let ghost next = cs@.subrange(0, i + 1);
        assert(next.drop_last() =~= done);
        let ghost w = words_of(done);
        let c = cs[i];
        if white(c) {
            if cur.as_str().unicode_len() > 0 {
                let ghost whole = texts(r@).push(cur@);
                r.push(cur);
                cur = String::new();
                assert(texts(r@) =~= whole);
            }
            proof {
                open = false;
            }
        } else {
            let ghost before = cur@;
            let ghost was = open;
            cur.push(c);
            proof {
                open = true;
                if was {
                    assert(next[next.len() - 2] == cs@[i - 1]);
                    assert(w.last() == before);
                    assert(w.drop_last() =~= texts(r@));
                    assert(texts(r@).push(cur@) =~= words_of(next));
                } else {
                    assert(before =~= Seq::<char>::empty());
                    assert(cur@ =~= seq![c]);
                    if next.len() > 1 {
                        assert(next[next.len() - 2] == cs@[i - 1]);
                    }
                    assert(texts(r@).push(cur@) =~= words_of(next));
                }
            }
        }
        i = i + 1;
    }
    assert(cs@.subrange(0, i as int) =~= cs@);
    if cur.as_str().unicode_len() > 0 {
        let ghost whole = texts(r@).push(cur@);
        r.push(cur);
        assert(texts(r@) =~= whole);
    }
    r
}

/// Lines end at line feeds, with or without a carriage return before them. A text
/// that does not end in one ends in a line of its own, and nothing follows the last
/// line feed of one that does.
pub proof fn lines_end_at_line_feeds(a: Seq<char>, b: Seq<char>)
    requires
        !a.contains('\n'),
    ensures
        lines_of(a.push('\n') + b) == seq![without_return(a)] + lines_of(b),
        a.len() > 0 ==> lines_of(a) == seq![a],
        lines_of(Seq::empty()).len() == 0,
        without_return(a.push('\r')) == a,
        a.len() > 0 && a.last() != '\r' ==> without_return(a) == a,
{
    splitting_goes_side_by_side(a, '\n', b);
    let parts = split_on(a.push('\n') + b, '\n');
    let rest = split_on(b, '\n');
    lemma_split_on_len(b, '\n');
    assert(parts =~= seq![a] + rest);
    assert(parts.last() == rest.last());
    assert(forall|i: int| 0 <= i < rest.len() ==> #[trigger] parts[i + 1] == rest[i]);
    let w = lines_of(a.push('\n') + b);
    let x = seq![without_return(a)] + lines_of(b);
    assert(w.len() == x.len());
    assert forall|i: int| 0 <= i < w.len() implies w[i] == x[i] by {
        if i == 0 {
            assert(parts[0] == a);
            assert(parts.len() > 1);
        } else {
            assert(parts[i] == rest[i - 1]);
        }
    }
    assert(w =~= x);
    if a.len() > 0 {
        assert(lines_of(a) =~= seq![a]);
    }
    assert(a.push('\r').drop_last() =~= a);
}

/// The last lines are the end of the lines: as many as were asked for, or all.
pub proof fn the_last_lines_are_the_end(s: Seq<char>, n: nat)
    ensures
        last_lines(s, n).len() <= n,
        last_lines(s, n).len() == n || last_lines(s, n) == lines_of(s),
        last_lines(s, n).is_suffix_of(lines_of(s)),
{
    let l = lines_of(s);
    assert(l.subrange(0, l.len() as int) =~= l);
}

proof fn lemma_open_word(s: Seq<char>)
    requires
        s.len() > 0,
        !is_white(s.last()),
    ensures
        words_of(s).len() > 0,
    decreases s.len(),
{
}

/// White space parts the words: those on its left and those on its right are the
/// words of the whole. A text without any is one word.
pub proof fn white_space_parts_the_words(a: Seq<char>, c: char, b: Seq<char>)
    requires
        is_white(c),
    ensures
        words_of(a.push(c) + b) == words_of(a) + words_of(b),
        a.len() > 0 && (forall|i: int| 0 <= i < a.len() ==> !is_white(#[trigger] a[i]))
            ==> words_of(a) == seq![a],
        words_of(Seq::empty()).len() == 0,
    decreases b.len(),
{
    let w = a.push(c) + b;
    if b.len() == 0 {
        assert(w =~= a.push(c));
        assert(w.drop_last() =~= a);
        assert(words_of(a) + words_of(b) =~= words_of(a));
    } else {
        let t = b.drop_last();
        white_space_parts_the_words(a, c, t);
        assert(w.drop_last() =~= a.push(c) + t);
        assert(w.last() == b.last());
        let x = words_of(a);
        let y = words_of(t);
        if !is_white(b.last()) {
            if b.len() > 1 {
                assert(w[w.len() - 2] == b[b.len() - 2]);
                if !is_white(b[b.len() - 2]) {
                    assert(t.last() == b[b.len() - 2]);
                    lemma_open_word(t);
                    assert((x + y).last() == y.last());
                    assert((x + y).drop_last().push(y.last().push(b.last())) =~= x
                        + y.drop_last().push(y.last().push(b.last())));
                } else {
                    assert((x + y).push(seq![b.last()]) =~= x + y.push(seq![b.last()]));
                }
            } else {
                assert(w[w.len() - 2] == c);
                assert((x + y).push(seq![b.last()]) =~= x + y.push(seq![b.last()]));
            }
        }
    }
    if a.len() > 0 && (forall|i: int| 0 <= i < a.len() ==> !is_white(#[trigger] a[i])) {
        lemma_one_word(a);
    }
}

proof fn lemma_one_word(a: Seq<char>)
    requires
        a.len() > 0,
        forall|i: int| 0 <= i < a.len() ==> !is_white(#[trigger] a[i]),
    ensures
        words_of(a) == seq![a],
    decreases a.len(),
{
    assert(a[a.len() - 1] == a.last());
    let t = a.drop_last();
    if t.len() > 0 {
        lemma_one_word(t);
        assert(!is_white(a[a.len() - 2]));
        assert(t.push(a.last()) =~= a);
        assert(seq![t].drop_last().push(t.push(a.last())) =~= seq![a]);
    } else {
        assert(words_of(t).len() == 0);
        assert(seq![a.last()] =~= a);
        assert(words_of(a) =~= seq![a]);
    }
}

} // verus!
