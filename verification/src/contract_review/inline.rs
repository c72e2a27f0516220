//! Tracked changes inside a paragraph.
use vstd::prelude::*;
use vstd::utf8::*;
use crate::contract_review::marks::{
    change_xml, comment_range_end, comment_range_start, comment_reference_run, deletion, escaped,
    insertion, plain_run, range_end, range_start, reference_run, text_run, ReviewRisk,
};
use crate::contract_review::parse::{find_run_pieces, pieces_model, run_pieces, PieceModel, RunPiece};
use crate::text::{
    chars_of, contains, copy_range, decimal, find, find_chars, lemma_find_from, occurs_at, push_all,
    string_of, trim, trim_text,
};

verus! {

/// The texts of the first `k` runs one after the other.
pub open spec fn text_of(pieces: Seq<PieceModel>, k: int) -> Seq<char>
    decreases k,
{
    if k <= 0 {
        Seq::empty()
    } else {
        text_of(pieces, k - 1) + pieces[k - 1].text
    }
}

/// The first run at or behind number `k` with which the text grows to `pos`
/// characters.
pub open spec fn reaching(pieces: Seq<PieceModel>, pos: int, k: int) -> int
    decreases pieces.len() - k,
{
    if k >= pieces.len() || pos <= text_of(pieces, k + 1).len() {
        k
    } else {
        reaching(pieces, pos, k + 1)
    }
}

/// A line feed or a tab is in the text.
pub open spec fn has_break(s: Seq<char>) -> bool {
    s.contains('\n') || s.contains('\t')
}

/// Where the words of an anchor stand: the runs `first` to `last`, the text in
/// these runs before the anchor and the text behind it.
pub struct Cut {
    pub first: int,
    pub last: int,
    pub prefix: Seq<char>,
    pub suffix: Seq<char>,
}

/// The cut around the first occurrence of the anchor. There is none if the
/// anchor is empty or not found, if a run that it touches is more than plain
/// text, or if there is a break or a tab in these runs, which a run of plain
/// text could not carry.
pub open spec fn cut_at(pieces: Seq<PieceModel>, anchor: Seq<char>) -> Option<Cut> {
    let full = text_of(pieces, pieces.len() as int);
    if anchor.len() == 0 || pieces.len() == 0 {
        None
    } else {
        match find(full, anchor) {
            None => None,
            Some(c0) => {
                let c1 = c0 + anchor.len();
                let first = reaching(pieces, c0 + 1, 0);
                let last = reaching(pieces, c1, 0);
                let from = text_of(pieces, first).len() as int;
                let to = text_of(pieces, last + 1).len() as int;
                if (exists|k: int| first <= k <= last && !(#[trigger] pieces[k]).simple)
                    || has_break(full.subrange(from, to)) {
                    None
                } else {
                    Some(
                        Cut {
                            first,
                            last,
                            prefix: full.subrange(from, c0),
                            suffix: full.subrange(c1, to),
                        },
                    )
                }
            },
        }
    }
}

/// The XML that takes the place of the runs of a cut: what was before the
/// anchor, the anchor deleted and the new words inserted with a comment on
/// both, and what was behind.
pub open spec fn inline_xml(
    pieces: Seq<PieceModel>,
    cut: Cut,
    anchor: Seq<char>,
    words: Seq<char>,
    author: Seq<char>,
    date: Seq<char>,
    rev_id: nat,
    cid: nat,
) -> Seq<char> {
    let rpr_i = pieces[cut.first].rpr;
    let rpr_j = pieces[cut.last].rpr;
    plain_run(rpr_i, cut.prefix) + range_start(cid) + deletion(rev_id, author, date, rpr_i, anchor)
        + insertion(rev_id + 1, author, date, rpr_i, words) + range_end(cid) + reference_run(cid)
        + plain_run(rpr_j, cut.suffix)
}

pub proof fn lemma_text_of_grows(pieces: Seq<PieceModel>, i: int, j: int)
    requires
        0 <= i <= j <= pieces.len(),
    ensures
        text_of(pieces, i).len() <= text_of(pieces, j).len(),
        text_of(pieces, i).is_prefix_of(text_of(pieces, j)),
    decreases j,
{
    if i < j {
        lemma_text_of_grows(pieces, i, j - 1);
        assert(text_of(pieces, i) =~= text_of(pieces, j).subrange(
            0,
            text_of(pieces, i).len() as int,
        ));
    } else {
        assert(text_of(pieces, i) =~= text_of(pieces, i).subrange(
            0,
            text_of(pieces, i).len() as int,
        ));
    }
}

/// `reaching` finds the run in which character number `pos` of the text is.
pub proof fn lemma_reaching(pieces: Seq<PieceModel>, pos: int, k: int)
    requires
        0 <= k <= pieces.len(),
        text_of(pieces, k).len() < pos <= text_of(pieces, pieces.len() as int).len(),
    ensures
        k <= reaching(pieces, pos, k) < pieces.len(),
        text_of(pieces, reaching(pieces, pos, k)).len() < pos <= text_of(
            pieces,
            reaching(pieces, pos, k) + 1,
        ).len(),
    decreases pieces.len() - k,
{
    if k < pieces.len() && !(pos <= text_of(pieces, k + 1).len()) {
        lemma_reaching(pieces, pos, k + 1);
    }
}

/// A later character is not in an earlier run.
pub proof fn lemma_reaching_ordered(pieces: Seq<PieceModel>, p: int, q: int)
    requires
        0 < p <= q <= text_of(pieces, pieces.len() as int).len(),
    ensures
        reaching(pieces, p, 0) <= reaching(pieces, q, 0),
{
    lemma_reaching(pieces, p, 0);
    lemma_reaching(pieces, q, 0);
    let i = reaching(pieces, p, 0);
    let j = reaching(pieces, q, 0);
    if j < i {
        lemma_text_of_grows(pieces, j + 1, i);
    }
}

/// A cut loses nothing: the text before the anchor, the anchor and the text
/// behind it are together the text of the runs that are replaced.
pub proof fn cut_keeps_the_text(pieces: Seq<PieceModel>, anchor: Seq<char>)
    ensures
        cut_at(pieces, anchor) matches Some(cut) ==> 0 <= cut.first <= cut.last < pieces.len()
            && text_of(pieces, cut.first) + cut.prefix + anchor + cut.suffix == text_of(
            pieces,
            cut.last + 1,
        ),
{
    let full = text_of(pieces, pieces.len() as int);
    if let Some(cut) = cut_at(pieces, anchor) {
        lemma_find_from(full, anchor, 0);
        let c0 = find(full, anchor)->0;
        let c1 = c0 + anchor.len();
        lemma_reaching(pieces, c0 + 1, 0);
        lemma_reaching(pieces, c1, 0);
        lemma_reaching_ordered(pieces, c0 + 1, c1);
        lemma_text_of_grows(pieces, cut.first, pieces.len() as int);
        lemma_text_of_grows(pieces, cut.last + 1, pieces.len() as int);
        let from = text_of(pieces, cut.first).len() as int;
        let to = text_of(pieces, cut.last + 1).len() as int;
        assert(text_of(pieces, cut.first) =~= full.subrange(0, from));
        assert(text_of(pieces, cut.last + 1) =~= full.subrange(0, to));
        assert(full.subrange(0, from) + full.subrange(from, c0) + full.subrange(c0, c1)
            + full.subrange(c1, to) =~= full.subrange(0, to));
    }
}

fn breaks_in(s: &[char]) -> (r: bool)
    ensures
        r == has_break(s@),
{
    let mut i: usize = 0;
    while i < s.len()
        invariant
            i <= s@.len(),
            forall|k: int| 0 <= k < i ==> s@[k] != '\n' && s@[k] != '\t',
        decreases s@.len() - i,
    {
        if s[i] == '\n' || s[i] == '\t' {
            assert(s@[i as int] == '\n' || s@[i as int] == '\t');
            assert(s@.contains(s@[i as int]));
            return true;
        }
        i = i + 1;
    }
    false
}

/// Tries to make the change that a risk asks for as a tracked change. Gives the
/// bytes `[start, end)` of the paragraph that are replaced and the XML that
/// replaces them, or nothing where the change cannot be made without touching
/// more than the anchor. Only a change that is made uses up two numbers of
/// `rev_id`.
pub fn try_build_inline(
    para_xml: &str,
    risk: &ReviewRisk,
    author_esc: &str,
    date: &str,
    rev_id: &mut u128,
    cid: usize,
) -> (r: Option<(usize, usize, String)>)
    requires
        *old(rev_id) <= u128::MAX - 2,
    ensures
        ({
            let pieces = run_pieces(encode_utf8(para_xml@));
            let anchor = trim(risk.anchor_text@);
            match cut_at(pieces, anchor) {
                None => r is None && *final(rev_id) == *old(rev_id),
                Some(cut) => {
                    &&& r matches Some((start, end, xml)) && start == pieces[cut.first].start && end
                        == pieces[cut.last].end && xml@ == inline_xml(
                        pieces,
                        cut,
                        anchor,
                        trim(risk.recommended_text@),
                        author_esc@,
                        date@,
                        *old(rev_id) as nat,
                        cid as nat,
                    )
                    &&& *final(rev_id) == *old(rev_id) + 2
                },
            }
        }),
{
    let anchor = trim_text(risk.anchor_text.as_str());
    let words = chars_of(anchor.as_str());
    if words.len() == 0 {
        return None;
    }
    let pieces = find_run_pieces(para_xml);
    if pieces.len() == 0 {
        return None;
    }
    let ghost m = pieces_model(pieces@);
    let n: usize = pieces.len();
    // The whole text, and for each run how much of the text ends with it.
    let mut full: Vec<char> = Vec::new();
    let mut ends: Vec<usize> = Vec::new();
    let mut k: usize = 0;
    while k < n
        invariant
            k <= n,
            n == pieces@.len(),
            m == pieces_model(pieces@),
            full@ == text_of(m, k as int),
            ends@.len() == k,
            forall|q: int| 0 <= q < k ==> #[trigger] ends@[q] == text_of(m, q + 1).len(),
        decreases n - k,
    {
        let t = chars_of(pieces[k].text.as_str());
        push_all(&mut full, t.as_slice());
        assert(m[k as int].text == t@);
        ends.push(full.len());
        k = k + 1;
    }
    let c0: usize = match find_chars(full.as_slice(), words.as_slice(), 0) {
        None => {
            return None;
        },
        Some(c) => c,
    };
    proof {
        lemma_find_from(full@, words@, 0);
    }
    let whole: usize = full.len();
    let c1: usize = c0 + words.len();
    let first: usize = run_reaching(&ends, Ghost(m), c0 + 1);
    let last: usize = run_reaching(&ends, Ghost(m), c1);
    proof {
        lemma_reaching(m, c0 + 1, 0);
        lemma_reaching(m, c1 as int, 0);
        lemma_reaching_ordered(m, c0 + 1, c1 as int);
        lemma_text_of_grows(m, first as int, n as int);
        lemma_text_of_grows(m, last + 1, n as int);
    }
    if !all_simple(&pieces, first, last) {
        return None;
    }
    let from: usize = if first == 0 {
        0
    } else {
        ends[first - 1]
    };
    let to: usize = ends[last];
    assert(from == text_of(m, first as int).len());
    let affected = copy_range(full.as_slice(), from, to);
    if breaks_in(affected.as_slice()) {
        return None;
    }
    let prefix = copy_range(full.as_slice(), from, c0);
    let suffix = copy_range(full.as_slice(), c1, to);
    let prefix_text = string_of(prefix.as_slice());
    let suffix_text = string_of(suffix.as_slice());
    let rpr_i = pieces[first].rpr_xml.as_str();
    let rpr_j = pieces[last].rpr_xml.as_str();
    let del_id: u128 = *rev_id;
    let ins_id: u128 = del_id + 1;
    *rev_id = del_id + 2;
    let mut out = text_run(rpr_i, prefix_text.as_str());
    let mark = comment_range_start(cid);
    out.append(mark.as_str());
    let del = change_xml(
        "<w:del w:id=\"",
        del_id,
        author_esc,
        date,
        rpr_i,
        "<w:delText xml:space=\"preserve\">",
        anchor.as_str(),
        "</w:delText></w:r></w:del>",
    );
    out.append(del.as_str());
    let recommended = trim_text(risk.recommended_text.as_str());
    let ghost before = out@;
    if recommended.as_str().unicode_len() > 0 {
        let ins = change_xml(
            "<w:ins w:id=\"",
            ins_id,
            author_esc,
            date,
            rpr_i,
            "<w:t xml:space=\"preserve\">",
            recommended.as_str(),
            "</w:t></w:r></w:ins>",
        );
        out.append(ins.as_str());
    }
    assert(out@ =~= before + insertion(
        ins_id as nat,
        author_esc@,
        date@,
        rpr_i@,
        trim(risk.recommended_text@),
    ));
    let mark = comment_range_end(cid);
    out.append(mark.as_str());
    let mark = comment_reference_run(cid);
    out.append(mark.as_str());
    let tail = text_run(rpr_j, suffix_text.as_str());
    out.append(tail.as_str());
    assert(m[first as int] == pieces@[first as int]@);
    assert(m[last as int] == pieces@[last as int]@);
    Some((pieces[first].span.0, pieces[last].span.1, out))
}

fn all_simple(pieces: &Vec<RunPiece>, first: usize, last: usize) -> (r: bool)
    requires
        first <= last < pieces@.len(),
    ensures
        r == !exists|k: int| first <= k <= last && !(#[trigger] pieces_model(pieces@)[k]).simple,
{
    let n: usize = pieces.len();
    let mut q: usize = first;
    while q <= last
        invariant
            n == pieces@.len(),
            first <= q <= last + 1,
            last < pieces@.len(),
            forall|x: int| first <= x < q ==> (#[trigger] pieces_model(pieces@)[x]).simple,
        decreases last + 1 - q,
    {
        if !pieces[q].simple {
            assert(!pieces_model(pieces@)[q as int].simple);
            return false;
        }
        q = q + 1;
    }
    true
}

fn run_reaching(ends: &Vec<usize>, Ghost(m): Ghost<Seq<PieceModel>>, pos: usize) -> (r: usize)
    requires
        ends@.len() == m.len(),
        forall|q: int| 0 <= q < m.len() ==> #[trigger] ends@[q] == text_of(m, q + 1).len(),
        0 < pos <= text_of(m, m.len() as int).len(),
    ensures
        r == reaching(m, pos as int, 0),
{
    let n: usize = ends.len();
    let mut k: usize = 0;
    proof {
        lemma_reaching(m, pos as int, 0);
    }
    while ends[k] < pos
        invariant
            n == m.len(),
            k < m.len(),
            ends@.len() == m.len(),
            forall|q: int| 0 <= q < m.len() ==> #[trigger] ends@[q] == text_of(m, q + 1).len(),
            reaching(m, pos as int, k as int) == reaching(m, pos as int, 0),
            reaching(m, pos as int, 0) < m.len(),
        decreases m.len() - k,
    {
        assert(ends@[k as int] == text_of(m, k + 1).len());
        assert(reaching(m, pos as int, k as int) == reaching(m, pos as int, k + 1));
        k = k + 1;
    }
    assert(ends@[k as int] == text_of(m, k + 1).len());
    k
}

/// The text of the first runs holds the text of each of them at its place.
proof fn lemma_run_text_inside(pieces: Seq<PieceModel>, k: int, q: int)
    requires
        0 <= k < pieces.len(),
        0 <= q < pieces[k].text.len(),
    ensures
        text_of(pieces, k).len() + pieces[k].text.len() == text_of(pieces, k + 1).len(),
        text_of(pieces, pieces.len() as int)[text_of(pieces, k).len() + q] == pieces[k].text[q],
        text_of(pieces, k + 1).len() <= text_of(pieces, pieces.len() as int).len(),
{
    lemma_text_of_grows(pieces, k + 1, pieces.len() as int);
    let full = text_of(pieces, pieces.len() as int);
    let head = text_of(pieces, k + 1);
    assert(head == full.subrange(0, head.len() as int));
    assert(head[text_of(pieces, k).len() + q] == pieces[k].text[q]);
}

/// Words are replaced only where they stand, and no more than the runs they stand
/// in is touched: the runs of a cut are plain and without breaks, the words begin
/// in the first of them and end in the last, and they stand nowhere before.
pub proof fn cuts_touch_only_the_words(pieces: Seq<PieceModel>, anchor: Seq<char>)
    ensures
        cut_at(pieces, anchor) matches Some(cut) ==> {
            let full = text_of(pieces, pieces.len() as int);
            let at = (text_of(pieces, cut.first).len() + cut.prefix.len()) as int;
            &&& anchor.len() > 0
            &&& 0 <= cut.first <= cut.last < pieces.len()
            &&& occurs_at(full, anchor, at)
            &&& forall|j: int| 0 <= j < at ==> !#[trigger] occurs_at(full, anchor, j)
            &&& cut.prefix.len() < pieces[cut.first].text.len()
            &&& cut.suffix.len() < pieces[cut.last].text.len()
            &&& forall|k: int| cut.first <= k <= cut.last ==> (#[trigger] pieces[k]).simple
            &&& forall|k: int, q: int|
                #![trigger pieces[k].text[q]]
                cut.first <= k <= cut.last && 0 <= q < pieces[k].text.len() ==> pieces[k].text[q]
                    != '\n' && pieces[k].text[q] != '\t'
        },
{
    let full = text_of(pieces, pieces.len() as int);
    if let Some(cut) = cut_at(pieces, anchor) {
        cut_keeps_the_text(pieces, anchor);
        lemma_find_from(full, anchor, 0);
        let c0 = find(full, anchor)->0;
        let c1 = c0 + anchor.len();
        lemma_reaching(pieces, c0 + 1, 0);
        lemma_reaching(pieces, c1, 0);
        lemma_text_of_grows(pieces, cut.first, pieces.len() as int);
        lemma_text_of_grows(pieces, cut.last + 1, pieces.len() as int);
        let from = text_of(pieces, cut.first).len() as int;
        let to = text_of(pieces, cut.last + 1).len() as int;
        assert forall|k: int, q: int|
            #![trigger pieces[k].text[q]]
            cut.first <= k <= cut.last && 0 <= q < pieces[k].text.len() implies pieces[k].text[q]
            != '\n' && pieces[k].text[q] != '\t' by {
            lemma_run_text_inside(pieces, k, q);
            lemma_text_of_grows(pieces, cut.first, k);
            lemma_text_of_grows(pieces, k + 1, cut.last + 1);
            let part = full.subrange(from, to);
            let x = text_of(pieces, k).len() + q - from;
            assert(part[x] == pieces[k].text[q]);
            assert(part.contains(part[x]));
        }
    }
}

/// Words that stand in a paragraph of plain runs without breaks can be replaced.
pub proof fn plain_words_can_be_replaced(pieces: Seq<PieceModel>, anchor: Seq<char>)
    requires
        anchor.len() > 0,
        contains(text_of(pieces, pieces.len() as int), anchor),
        forall|k: int| 0 <= k < pieces.len() ==> (#[trigger] pieces[k]).simple,
        forall|q: int|
            0 <= q < text_of(pieces, pieces.len() as int).len() ==> (#[trigger] text_of(
                pieces,
                pieces.len() as int,
            )[q]) != '\n' && text_of(pieces, pieces.len() as int)[q] != '\t',
    ensures
        cut_at(pieces, anchor) is Some,
{
    let full = text_of(pieces, pieces.len() as int);
    lemma_find_from(full, anchor, 0);
    let w = choose|i: int| occurs_at(full, anchor, i);
    assert(find(full, anchor) is Some);
    let c0 = find(full, anchor)->0;
    let c1 = c0 + anchor.len();
    lemma_reaching(pieces, c0 + 1, 0);
    lemma_reaching(pieces, c1, 0);
    lemma_reaching_ordered(pieces, c0 + 1, c1);
    let first = reaching(pieces, c0 + 1, 0);
    let last = reaching(pieces, c1, 0);
    lemma_text_of_grows(pieces, first, last + 1);
    lemma_text_of_grows(pieces, last + 1, pieces.len() as int);
    let from = text_of(pieces, first).len() as int;
    let to = text_of(pieces, last + 1).len() as int;
    let part = full.subrange(from, to);
    assert(!has_break(part)) by {
        if part.contains('\n') {
            let k = choose|k: int| 0 <= k < part.len() && part[k] == '\n';
            assert(full[from + k] == '\n');
        }
        if part.contains('\t') {
            let k = choose|k: int| 0 <= k < part.len() && part[k] == '\t';
            assert(full[from + k] == '\t');
        }
    }
}

/// What takes the place of words that are replaced: the text before them in its
/// own format, the comment around the words marked as deleted and the new words
/// marked as inserted, each with a number, the author and the date, and the text
/// behind them in its own format. Without new words nothing is inserted.
pub proof fn replaced_words_are_shown(
    pieces: Seq<PieceModel>,
    cut: Cut,
    anchor: Seq<char>,
    words: Seq<char>,
    author: Seq<char>,
    date: Seq<char>,
    rev_id: nat,
    cid: nat,
) -> (r: (Seq<char>, Seq<char>, Seq<char>, Seq<char>))
    ensures
        inline_xml(pieces, cut, anchor, words, author, date, rev_id, cid) == r.0
            + "<w:commentRangeStart w:id=\""@ + decimal(cid) + "\"/>"@ + r.1 + r.2
            + "<w:commentRangeEnd w:id=\""@ + decimal(cid) + "\"/>"@
            + "<w:r><w:rPr><w:rStyle w:val=\"CommentReference\"/></w:rPr><w:commentReference w:id=\""@
            + decimal(cid) + "\"/></w:r>"@ + r.3,
        cut.prefix.len() == 0 ==> r.0.len() == 0,
        cut.prefix.len() > 0 ==> r.0 == "<w:r>"@ + pieces[cut.first].rpr
            + "<w:t xml:space=\"preserve\">"@ + escaped(cut.prefix) + "</w:t></w:r>"@,
        r.1 == "<w:del w:id=\""@ + decimal(rev_id) + "\" w:author=\""@ + author
            + "\" w:date=\""@ + date + "\"><w:r>"@ + pieces[cut.first].rpr
            + "<w:delText xml:space=\"preserve\">"@ + escaped(anchor)
            + "</w:delText></w:r></w:del>"@,
        words.len() == 0 ==> r.2.len() == 0,
        words.len() > 0 ==> r.2 == "<w:ins w:id=\""@ + decimal(rev_id + 1) + "\" w:author=\""@
            + author + "\" w:date=\""@ + date + "\"><w:r>"@ + pieces[cut.first].rpr
            + "<w:t xml:space=\"preserve\">"@ + escaped(words) + "</w:t></w:r></w:ins>"@,
        cut.suffix.len() == 0 ==> r.3.len() == 0,
        cut.suffix.len() > 0 ==> r.3 == "<w:r>"@ + pieces[cut.last].rpr
            + "<w:t xml:space=\"preserve\">"@ + escaped(cut.suffix) + "</w:t></w:r>"@,
{
    let p = plain_run(pieces[cut.first].rpr, cut.prefix);
    let d = deletion(rev_id, author, date, pieces[cut.first].rpr, anchor);
    let i = insertion(rev_id + 1, author, date, pieces[cut.first].rpr, words);
    let z = plain_run(pieces[cut.last].rpr, cut.suffix);
    assert(inline_xml(pieces, cut, anchor, words, author, date, rev_id, cid) =~= p
        + "<w:commentRangeStart w:id=\""@ + decimal(cid) + "\"/>"@ + d + i
        + "<w:commentRangeEnd w:id=\""@ + decimal(cid) + "\"/>"@
        + "<w:r><w:rPr><w:rStyle w:val=\"CommentReference\"/></w:rPr><w:commentReference w:id=\""@
        + decimal(cid) + "\"/></w:r>"@ + z);
    (p, d, i, z)
}

} // verus!
