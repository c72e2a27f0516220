//! Where the marks of a review land: none in another, and all where they were
//! meant to be.
use vstd::prelude::*;
use vstd::utf8::*;
use crate::bytes::lemma_ascii_boundary;
use crate::contract_review::inline::{cut_at, cut_keeps_the_text, inline_xml};
use crate::contract_review::marks::{
    comment_of, range_end, range_start, reference_run, RiskModel,
};
use crate::contract_review::parse::{
    close_mark, element_from, lemma_element, open_mark, paragraph_tag, run_pieces, run_tag,
    spans_are_boundaries, spans_are_ordered, spans_from, lemma_start_tag, GT, LT, SLASH,
};
use crate::contract_review::redline::{
    all_marks, apart, comment_point, edit_keys, edited, edits_land_in_place, fits, front, mark_risk,
    marks_for, overlaps, paragraph_end, risk_keys, woven, EditModel, Marks,
};
use crate::order::{order_is_stable, order_of, precedes};
use crate::text::{decimal, find, find_from, lemma_find_from, trim};

verus! {

/// The bytes of a paragraph.
pub open spec fn paragraph_at(b: Seq<u8>, p: int) -> Seq<u8> {
    let span = spans_from(b, paragraph_tag(), 0)[p];
    b.subrange(span.0, span.1)
}

/// A paragraph that has an end tag.
pub open spec fn has_end(b: Seq<u8>, p: int) -> bool {
    0 <= p < spans_from(b, paragraph_tag(), 0).len() && paragraph_end().is_suffix_of(
        paragraph_at(b, p),
    )
}

/// The properties of each paragraph stand before its runs, as the format
/// demands.
pub open spec fn regular(b: Seq<u8>) -> bool {
    forall|p: int, k: int|
        #![trigger run_pieces(paragraph_at(b, p))[k]]
        has_end(b, p) && 0 <= k < run_pieces(paragraph_at(b, p)).len() ==> comment_point(
            paragraph_at(b, p),
        ) <= run_pieces(paragraph_at(b, p))[k].start
}

/// Paragraphs are counted from zero.
pub open spec fn counts(risk: RiskModel) -> bool {
    risk.paragraph_index matches Some(p) ==> p >= 0
}

proof fn lemma_paragraph_end()
    ensures
        paragraph_end() =~= seq![60u8, 47u8, 119u8, 58u8, 112u8, 62u8],
{
    reveal_strlit("</w:p>");
    assert(is_ascii_chars("</w:p>"@));
    is_ascii_chars_encode_utf8("</w:p>"@);
}

proof fn lemma_run_close()
    ensures
        close_mark(run_tag()).len() == 6,
        close_mark(run_tag())[4] == 114u8,
{
    reveal_strlit("w:r");
    assert(is_ascii_chars("w:r"@));
    is_ascii_chars_encode_utf8("w:r"@);
}

/// The byte before the last of a run is a slash or the end of its name.
proof fn lemma_run_ends(b: Seq<u8>, from: int)
    requires
        0 <= from,
    ensures
        forall|i: int|
            #![trigger spans_from(b, run_tag(), from)[i]]
            0 <= i < spans_from(b, run_tag(), from).len() ==> b[spans_from(b, run_tag(), from)[i].1
                - 2] != 112u8,
    decreases b.len() - from,
{
    lemma_element(b, run_tag(), from);
    if let Some((s, e)) = element_from(b, run_tag(), from) {
        lemma_run_close();
        lemma_start_tag(b, run_tag(), from);
        lemma_find_from(b, seq![GT], s + open_mark(run_tag()).len());
        let g = find_from(b, seq![GT], s + open_mark(run_tag()).len())->0;
        if b[g - 1] == SLASH {
            assert(b[e - 2] == SLASH);
        } else {
            let m = close_mark(run_tag());
            lemma_find_from(b, m, g + 1);
            let c = find_from(b, m, g + 1)->0;
            assert(b.subrange(c, c + m.len())[4] == b[c + 4]);
            assert(e == c + 6);
            assert(b[e - 2] == 114u8);
        }
        lemma_run_ends(b, e);
        let rest = spans_from(b, run_tag(), e);
        let all = spans_from(b, run_tag(), from);
        assert(all == seq![(s, e)] + rest);
        assert forall|i: int| 0 <= i < all.len() implies b[(#[trigger] all[i]).1 - 2] != 112u8 by {
            if i > 0 {
                assert(all[i] == rest[i - 1]);
            }
        }
    }
}

/// The runs of a paragraph lie before its end tag.
proof fn lemma_runs_before_end(para: Seq<u8>)
    requires
        paragraph_end().is_suffix_of(para),
    ensures
        forall|k: int|
            0 <= k < run_pieces(para).len() ==> 0 <= (#[trigger] run_pieces(para)[k]).start
                < run_pieces(para)[k].end <= para.len() - 6 && para[run_pieces(para)[k].start] == LT
                && para[run_pieces(para)[k].end - 1] == GT,
        forall|i: int, j: int|
            0 <= i <= j < run_pieces(para).len() ==> (#[trigger] run_pieces(para)[i]).start
                < (#[trigger] run_pieces(para)[j]).end,
{
    lemma_paragraph_end();
    lemma_run_ends(para, 0);
    spans_are_ordered(para, run_tag(), 0);
    let n = para.len() as int;
    let tail = para.subrange(n - 6, n);
    assert(tail =~= paragraph_end());
    let spans = spans_from(para, run_tag(), 0);
    assert forall|k: int| 0 <= k < run_pieces(para).len() implies 0 <= (#[trigger] run_pieces(
        para,
    )[k]).start < run_pieces(para)[k].end <= para.len() - 6 && para[run_pieces(para)[k].start] == LT
        && para[run_pieces(para)[k].end - 1] == GT by {
        let (s, e) = spans[k];
        assert(run_pieces(para)[k].start == s && run_pieces(para)[k].end == e);
        if e > n - 6 {
            assert(para[e - 1] == tail[e - 1 - (n - 6)]);
            if e == n {
                assert(para[e - 2] == tail[4]);
            }
        }
    }
    assert forall|i: int, j: int| 0 <= i <= j < run_pieces(para).len() implies (
    #[trigger] run_pieces(para)[i]).start < (#[trigger] run_pieces(para)[j]).end by {
        assert(run_pieces(para)[i].start == spans[i].0);
        assert(run_pieces(para)[j].end == spans[j].1);
        if i < j {
            assert(spans[i].1 <= spans[j].0);
        }
    }
}

/// The place of a comment lies inside the paragraph and behind a `>`, or at its
/// start.
proof fn lemma_comment_point(para: Seq<u8>)
    ensures
        0 <= comment_point(para) <= para.len(),
        comment_point(para) > 0 ==> para[comment_point(para) - 1] == GT,
{
    lemma_element(para, encode_utf8("w:pPr"@), 0);
    lemma_find_from(para, seq![GT], 0);
    if element_from(para, encode_utf8("w:pPr"@), 0) is None {
        if let Some(i) = find(para, seq![GT]) {
            assert(para.subrange(i, i + 1)[0] == para[i]);
        }
    }
}

/// A change is one of those that marks make in a paragraph.
spec fn placed(b: Seq<u8>, taken: Seq<(int, int, int)>, p: int, e: EditModel) -> bool {
    let from = spans_from(b, paragraph_tag(), 0)[p].0;
    let para = paragraph_at(b, p);
    &&& has_end(b, p)
    &&& {
        ||| e.start == e.end && e.start == from + comment_point(para)
        ||| e.start == e.end && e.start == from + para.len() - 6
        ||| exists|i: int|
            0 <= i < taken.len() && (#[trigger] taken[i]).0 == p && e.start == from + taken[i].1
                && e.end == from + taken[i].2
    }
}

/// The runs that were changed lie between the places of comments.
spec fn between(b: Seq<u8>, t: (int, int, int)) -> bool {
    let para = paragraph_at(b, t.0);
    &&& has_end(b, t.0)
    &&& 0 <= t.1 <= t.2 <= para.len() - 6
    &&& comment_point(para) <= t.1
    &&& para[t.1] == LT
    &&& t.2 > 0
    &&& para[t.2 - 1] == GT
}

/// A change is one of those that marks make.
spec fn placed_somewhere(b: Seq<u8>, taken: Seq<(int, int, int)>, e: EditModel) -> bool {
    exists|p: int| placed(b, taken, p, e)
}

spec fn well_placed(b: Seq<u8>, st: Marks) -> bool {
    &&& apart(st.edits)
    &&& forall|i: int|
        0 <= i < st.edits.len() ==> placed_somewhere(b, st.taken, #[trigger] st.edits[i])
    &&& forall|i: int| 0 <= i < st.taken.len() ==> between(b, #[trigger] st.taken[i])
}

/// A change that marks make lies inside its paragraph.
proof fn lemma_inside(b: Seq<u8>, taken: Seq<(int, int, int)>, p: int, e: EditModel)
    requires
        placed(b, taken, p, e),
        forall|i: int| 0 <= i < taken.len() ==> between(b, #[trigger] taken[i]),
    ensures
        spans_from(b, paragraph_tag(), 0)[p].0 <= e.start <= e.end <= spans_from(
            b,
            paragraph_tag(),
            0,
        )[p].1,
        paragraph_at(b, p).len() == spans_from(b, paragraph_tag(), 0)[p].1 - spans_from(
            b,
            paragraph_tag(),
            0,
        )[p].0,
{
    spans_are_ordered(b, paragraph_tag(), 0);
    lemma_comment_point(paragraph_at(b, p));
    lemma_paragraph_end();
}

/// Two changes in different paragraphs do not touch.
proof fn lemma_other_paragraph(
    b: Seq<u8>,
    taken: Seq<(int, int, int)>,
    p: int,
    e: EditModel,
    q: int,
    f: EditModel,
)
    requires
        placed(b, taken, p, e),
        placed(b, taken, q, f),
        p != q,
        forall|i: int| 0 <= i < taken.len() ==> between(b, #[trigger] taken[i]),
    ensures
        e.end <= f.start || f.end <= e.start,
{
    spans_are_ordered(b, paragraph_tag(), 0);
    lemma_inside(b, taken, p, e);
    lemma_inside(b, taken, q, f);
    let spans = spans_from(b, paragraph_tag(), 0);
    if p < q {
        assert(spans[p].1 <= spans[q].0);
    } else {
        assert(spans[q].1 <= spans[p].0);
    }
}

/// What is placed stays placed when more runs are changed.
proof fn lemma_placed_grows(
    b: Seq<u8>,
    taken: Seq<(int, int, int)>,
    t: (int, int, int),
    p: int,
    e: EditModel,
)
    requires
        placed(b, taken, p, e),
    ensures
        placed(b, taken.push(t), p, e),
{
    let from = spans_from(b, paragraph_tag(), 0)[p].0;
    let para = paragraph_at(b, p);
    if !(e.start == e.end && e.start == from + comment_point(para)) && !(e.start == e.end && e.start
        == from + para.len() - 6) {
        let i = choose|i: int|
            0 <= i < taken.len() && (#[trigger] taken[i]).0 == p && e.start == from + taken[i].1
                && e.end == from + taken[i].2;
        assert(taken.push(t)[i] == taken[i]);
    }
}

/// An insertion at one of the two places for comments touches no other change.
proof fn lemma_insert(b: Seq<u8>, st: Marks, p: int, e: EditModel)
    requires
        well_placed(b, st),
        placed(b, st.taken, p, e),
        e.start == e.end,
        ({
            let from = spans_from(b, paragraph_tag(), 0)[p].0;
            let para = paragraph_at(b, p);
            e.start == from + comment_point(para) || e.start == from + para.len() - 6
        }),
    ensures
        well_placed(b, (Marks { edits: st.edits.push(e), ..st })),
{
    let after = st.edits.push(e);
    assert forall|i: int| 0 <= i < st.edits.len() implies (#[trigger] st.edits[i]).end <= e.start
        || e.end <= st.edits[i].start by {
        let f = st.edits[i];
        let q = choose|q: int| placed(b, st.taken, q, st.edits[i]);
        assert(placed(b, st.taken, q, f));
        if q != p {
            lemma_other_paragraph(b, st.taken, p, e, q, f);
        }
    }
    assert forall|i: int, j: int|
        0 <= i < after.len() && 0 <= j < after.len() && i != j implies (#[trigger] after[i]).end
        <= (#[trigger] after[j]).start || after[j].end <= after[i].start by {
        let n = st.edits.len() as int;
        if i < n {
            assert(after[i] == st.edits[i]);
        }
        if j < n {
            assert(after[j] == st.edits[j]);
        }
    }
    assert forall|i: int| 0 <= i < after.len() implies placed_somewhere(
        b,
        st.taken,
        #[trigger] after[i],
    ) by {
        if i < st.edits.len() {
            let q = choose|q: int| placed(b, st.taken, q, st.edits[i]);
            assert(placed(b, st.taken, q, after[i]));
        } else {
            assert(placed(b, st.taken, p, after[i]));
        }
    }
}

/// A tracked change on runs that are free touches no other change.
proof fn lemma_change(b: Seq<u8>, st: Marks, t: (int, int, int), e: EditModel)
    requires
        well_placed(b, st),
        between(b, t),
        !overlaps(st.taken, t.0, t.1, t.2),
        e.start == spans_from(b, paragraph_tag(), 0)[t.0].0 + t.1,
        e.end == spans_from(b, paragraph_tag(), 0)[t.0].0 + t.2,
    ensures
        well_placed(b, (Marks { edits: st.edits.push(e), taken: st.taken.push(t), ..st })),
{
    let after = st.edits.push(e);
    let taken = st.taken.push(t);
    let p = t.0;
    assert(taken[st.taken.len() as int] == t);
    assert(placed(b, taken, p, e));
    assert forall|i: int| 0 <= i < taken.len() implies between(b, #[trigger] taken[i]) by {
        if i < st.taken.len() {
            assert(taken[i] == st.taken[i]);
        }
    }
    assert forall|i: int| 0 <= i < st.edits.len() implies (#[trigger] st.edits[i]).end <= e.start
        || e.end <= st.edits[i].start by {
        let f = st.edits[i];
        let q = choose|q: int| placed(b, st.taken, q, st.edits[i]);
        assert(placed(b, st.taken, q, f));
        if q != p {
            lemma_placed_grows(b, st.taken, t, q, f);
            lemma_other_paragraph(b, taken, p, e, q, f);
        }
    }
    assert forall|i: int, j: int|
        0 <= i < after.len() && 0 <= j < after.len() && i != j implies (#[trigger] after[i]).end
        <= (#[trigger] after[j]).start || after[j].end <= after[i].start by {
        let n = st.edits.len() as int;
        if i < n {
            assert(after[i] == st.edits[i]);
        }
        if j < n {
            assert(after[j] == st.edits[j]);
        }
    }
    assert forall|i: int| 0 <= i < after.len() implies placed_somewhere(
        b,
        taken,
        #[trigger] after[i],
    ) by {
        if i < st.edits.len() {
            let q = choose|q: int| placed(b, st.taken, q, st.edits[i]);
            lemma_placed_grows(b, st.taken, t, q, st.edits[i]);
            assert(placed(b, taken, q, after[i]));
        } else {
            assert(placed(b, taken, p, after[i]));
        }
    }
}

proof fn lemma_mark_risk(
    b: Seq<u8>,
    st: Marks,
    risk: RiskModel,
    author: Seq<char>,
    date: Seq<char>,
)
    requires
        regular(b),
        well_placed(b, st),
        counts(risk),
    ensures
        well_placed(b, mark_risk(st, b, risk, author, date)),
{
    let spans = spans_from(b, paragraph_tag(), 0);
    let done = mark_risk(st, b, risk, author, date);
    if risk.paragraph_index is Some {
        let p = risk.paragraph_index->0;
        if 0 <= p < spans.len() && has_end(b, p as int) {
            let para = paragraph_at(b, p as int);
            let from = spans[p as int].0;
            lemma_paragraph_end();
            lemma_runs_before_end(para);
            let pieces = run_pieces(para);
            let anchor = trim(risk.anchor_text);
            cut_keeps_the_text(pieces, anchor);
            let cut = if risk.revise {
                cut_at(pieces, anchor)
            } else {
                None
            };
            let free = match cut {
                Some(c) => !overlaps(st.taken, p as int, pieces[c.first].start, pieces[c.last].end),
                None => false,
            };
            if free {
                let c = cut->0;
                let t = (p as int, pieces[c.first].start, pieces[c.last].end);
                assert(comment_point(para) <= pieces[c.first].start);
                assert(pieces[c.last].end <= para.len() - 6);
                assert(between(b, t));
                let e = done.edits.last();
                lemma_change(b, st, t, e);
                assert(done.edits =~= st.edits.push(e));
            } else {
                let a = done.edits[st.edits.len() as int];
                let z = done.edits[st.edits.len() as int + 1];
                assert(placed(b, st.taken, p as int, a));
                lemma_insert(b, st, p as int, a);
                let mid = Marks { edits: st.edits.push(a), ..st };
                assert(placed(b, st.taken, p as int, z));
                lemma_insert(b, mid, p as int, z);
                assert(done.edits =~= mid.edits.push(z));
            }
        }
    }
}

proof fn lemma_marks_for(
    b: Seq<u8>,
    risks: Seq<RiskModel>,
    author: Seq<char>,
    date: Seq<char>,
    k: int,
)
    requires
        regular(b),
        0 <= k <= risks.len(),
        forall|i: int| 0 <= i < risks.len() ==> counts(#[trigger] risks[i]),
    ensures
        well_placed(b, marks_for(b, risks, author, date, k)),
    decreases k,
{
    if k > 0 {
        order_is_stable(risk_keys(risks), risks.len() as int);
        lemma_marks_for(b, risks, author, date, k - 1);
        lemma_mark_risk(
            b,
            marks_for(b, risks, author, date, k - 1),
            risks[order_of(risk_keys(risks), risks.len() as int)[k - 1]],
            author,
            date,
        );
    }
}

/// A change that marks make begins and ends where characters do.
proof fn lemma_fits(b: Seq<u8>, taken: Seq<(int, int, int)>, p: int, e: EditModel)
    requires
        valid_utf8(b),
        placed(b, taken, p, e),
        forall|i: int| 0 <= i < taken.len() ==> between(b, #[trigger] taken[i]),
    ensures
        fits(b, e),
{
    spans_are_ordered(b, paragraph_tag(), 0);
    spans_are_boundaries(b, paragraph_tag(), 0);
    lemma_inside(b, taken, p, e);
    lemma_paragraph_end();
    let (from, to) = spans_from(b, paragraph_tag(), 0)[p];
    let para = paragraph_at(b, p);
    lemma_comment_point(para);
    if e.start == e.end && e.start == from + comment_point(para) {
        if comment_point(para) > 0 {
            assert(para[comment_point(para) - 1] == b[e.start - 1]);
            lemma_ascii_boundary(b, e.start - 1);
        }
    } else if e.start == e.end && e.start == from + para.len() - 6 {
        let n = para.len() as int;
        assert(para.subrange(n - 6, n) =~= paragraph_end());
        assert(para.subrange(n - 6, n)[0] == b[e.start]);
        lemma_ascii_boundary(b, e.start);
    } else {
        let i = choose|i: int|
            0 <= i < taken.len() && (#[trigger] taken[i]).0 == p && e.start == from + taken[i].1
                && e.end == from + taken[i].2;
        assert(between(b, taken[i]));
        assert(para[taken[i].1] == b[e.start]);
        assert(para[taken[i].2 - 1] == b[e.end - 1]);
        lemma_ascii_boundary(b, e.start);
        lemma_ascii_boundary(b, e.end - 1);
    }
}

/// In a document whose paragraphs have their properties before their runs, no
/// mark touches another, each lands in the place that it was made for, and what
/// lies between the marks stays as it was.
pub proof fn marks_land_in_place(
    b: Seq<u8>,
    risks: Seq<RiskModel>,
    author: Seq<char>,
    date: Seq<char>,
)
    requires
        valid_utf8(b),
        regular(b),
        forall|i: int| 0 <= i < risks.len() ==> counts(#[trigger] risks[i]),
    ensures
        ({
            let edits = all_marks(b, risks, author, date).edits;
            let n = edits.len() as int;
            let order = order_of(edit_keys(edits), n);
            &&& apart(edits)
            &&& forall|i: int| 0 <= i < n ==> fits(b, #[trigger] edits[i])
            &&& edited(b, edits) == b.subrange(0, front(b, edits, order, n)) + woven(
                b,
                edits,
                order,
                n,
            )
        }),
{
    let st = all_marks(b, risks, author, date);
    lemma_marks_for(b, risks, author, date, risks.len() as int);
    assert forall|i: int| 0 <= i < st.edits.len() implies fits(b, #[trigger] st.edits[i]) by {
        let p = choose|p: int| placed(b, st.taken, p, st.edits[i]);
        lemma_fits(b, st.taken, p, st.edits[i]);
    }
    edits_land_in_place(b, st.edits);
}

/// A risk can be marked: it names a paragraph of the document, and that has an end
/// tag.
pub open spec fn can_be_marked(b: Seq<u8>, risk: RiskModel) -> bool {
    match risk.paragraph_index {
        Some(p) => 0 <= p < spans_from(b, paragraph_tag(), 0).len() && encode_utf8(
            "</w:p>"@,
        ).is_suffix_of(paragraph_at(b, p)),
        None => false,
    }
}

/// Two changes are the two ends of a comment on a whole paragraph: both only add,
/// the first the mark where the range begins and the second the mark where it ends
/// with the reference, both with the number of the comment.
pub open spec fn comment_ends(first: EditModel, second: EditModel, id: nat) -> bool {
    &&& first.start == first.end
    &&& second.start == second.end
    &&& first.text == "<w:commentRangeStart w:id=\""@ + decimal(id) + "\"/>"@
    &&& second.text == "<w:commentRangeEnd w:id=\""@ + decimal(id) + "\"/>"@
        + "<w:r><w:rPr><w:rStyle w:val=\"CommentReference\"/></w:rPr><w:commentReference w:id=\""@
        + decimal(id) + "\"/></w:r>"@
}

proof fn lemma_comment_ends(id: nat)
    ensures
        range_start(id) == "<w:commentRangeStart w:id=\""@ + decimal(id) + "\"/>"@,
        range_end(id) + reference_run(id) == "<w:commentRangeEnd w:id=\""@ + decimal(id)
            + "\"/>"@
            + "<w:r><w:rPr><w:rStyle w:val=\"CommentReference\"/></w:rPr><w:commentReference w:id=\""@
            + decimal(id) + "\"/></w:r>"@,
{
    assert(range_end(id) + reference_run(id) =~= "<w:commentRangeEnd w:id=\""@ + decimal(id)
        + "\"/>"@
        + "<w:r><w:rPr><w:rStyle w:val=\"CommentReference\"/></w:rPr><w:commentReference w:id=\""@
        + decimal(id) + "\"/></w:r>"@);
}

/// A risk that cannot be marked is set aside with its grade and title, and nothing
/// else happens.
pub proof fn unmarked_risks_are_set_aside(
    st: Marks,
    b: Seq<u8>,
    risk: RiskModel,
    author: Seq<char>,
    date: Seq<char>,
)
    requires
        counts(risk),
        !can_be_marked(b, risk),
    ensures
        ({
            let after = mark_risk(st, b, risk, author, date);
            &&& after.skipped.len() == st.skipped.len() + 1
            &&& after.skipped.drop_last() == st.skipped
            &&& ("["@ + risk.level + "] "@ + trim(risk.title)).is_prefix_of(after.skipped.last())
            &&& after.edits == st.edits && after.comments == st.comments && after.inline
                == st.inline && after.whole == st.whole && after.taken == st.taken && after.rev
                == st.rev
        }),
{
    let after = mark_risk(st, b, risk, author, date);
    let line = "["@ + risk.level + "] "@ + trim(risk.title);
    assert(after.skipped.drop_last() =~= st.skipped);
    assert(after.skipped.last().subrange(0, line.len() as int) =~= line);
}

/// A risk that can be marked gets its own comment, and all that is changed for it
/// lies in its own paragraph. One that asks for no revision changes no words: the
/// whole paragraph gets the comment.
pub proof fn comments_leave_the_words_alone(
    st: Marks,
    b: Seq<u8>,
    risk: RiskModel,
    author: Seq<char>,
    date: Seq<char>,
)
    requires
        counts(risk),
        can_be_marked(b, risk),
    ensures
        ({
            let after = mark_risk(st, b, risk, author, date);
            let n = st.edits.len() as int;
            let (from, to) = spans_from(b, paragraph_tag(), 0)[risk.paragraph_index->0];
            &&& after.skipped == st.skipped
            &&& after.comments == st.comments.push(comment_of(risk))
            &&& n < after.edits.len() && after.edits.subrange(0, n) == st.edits
            &&& forall|i: int|
                n <= i < after.edits.len() ==> from <= (#[trigger] after.edits[i]).start
                    <= after.edits[i].end <= to
            &&& !risk.revise ==> {
                &&& after.inline == st.inline
                &&& after.taken == st.taken
                &&& after.rev == st.rev
                &&& after.whole == st.whole + 1
                &&& after.edits.len() == n + 2
                &&& comment_ends(after.edits[n], after.edits[n + 1], st.comments.len())
            }
        }),
{
    let after = mark_risk(st, b, risk, author, date);
    let p = risk.paragraph_index->0;
    let para = paragraph_at(b, p);
    let pieces = run_pieces(para);
    let n = st.edits.len() as int;
    spans_are_ordered(b, paragraph_tag(), 0);
    lemma_comment_point(para);
    lemma_paragraph_end();
    lemma_runs_before_end(para);
    cut_keeps_the_text(pieces, trim(risk.anchor_text));
    lemma_comment_ends(st.comments.len());
    assert(paragraph_end().is_suffix_of(para));
    assert(after.edits.subrange(0, n) =~= st.edits);
}

/// A risk that asks for a revision of words that can be replaced, and whose runs no
/// earlier change has touched, becomes a tracked change of just these runs. Where
/// the words cannot be replaced or were touched, the paragraph gets the comment.
pub proof fn revisions_become_tracked_changes(
    st: Marks,
    b: Seq<u8>,
    risk: RiskModel,
    author: Seq<char>,
    date: Seq<char>,
)
    requires
        counts(risk),
        can_be_marked(b, risk),
        risk.revise,
    ensures
        ({
            let after = mark_risk(st, b, risk, author, date);
            let n = st.edits.len() as int;
            let p = risk.paragraph_index->0;
            let (from, to) = spans_from(b, paragraph_tag(), 0)[p];
            let pieces = run_pieces(b.subrange(from, to));
            match cut_at(pieces, trim(risk.anchor_text)) {
                None => after.inline == st.inline && after.whole == st.whole + 1 && after.taken
                    == st.taken && after.rev == st.rev && after.edits.len() == n + 2
                    && comment_ends(after.edits[n], after.edits[n + 1], st.comments.len()),
                Some(c) => {
                    let s = pieces[c.first].start;
                    let e = pieces[c.last].end;
                    let touched = exists|i: int|
                        0 <= i < st.taken.len() && (#[trigger] st.taken[i]).0 == p && s
                            < st.taken[i].2 && st.taken[i].1 < e;
                    &&& after.rev == st.rev + 2
                    &&& touched ==> after.inline == st.inline && after.whole == st.whole + 1
                        && after.taken == st.taken && after.edits.len() == n + 2 && comment_ends(
                        after.edits[n],
                        after.edits[n + 1],
                        st.comments.len(),
                    )
                    &&& !touched ==> after.inline == st.inline + 1 && after.whole == st.whole
                        && after.taken == st.taken.push((p, s, e)) && after.edits.len() == n + 1
                        && after.edits[n].start == from + s && after.edits[n].end == from + e
                        && after.edits[n].text == inline_xml(
                        pieces,
                        c,
                        trim(risk.anchor_text),
                        trim(risk.recommended_text),
                        author,
                        date,
                        st.rev,
                        st.comments.len(),
                    )
                },
            }
        }),
{
    lemma_comment_ends(st.comments.len());
    assert(paragraph_end().is_suffix_of(paragraph_at(b, risk.paragraph_index->0)));
}

/// How many of some risks ask for a revision.
pub open spec fn revisions_asked(risks: Seq<RiskModel>) -> nat
    decreases risks.len(),
{
    if risks.len() == 0 {
        0
    } else {
        revisions_asked(risks.drop_last()) + if risks.last().revise {
            1nat
        } else {
            0nat
        }
    }
}

/// A change is one end of a comment on a whole paragraph.
pub open spec fn is_comment_end(e: EditModel, id: nat) -> bool {
    &&& e.start == e.end
    &&& (e.text == "<w:commentRangeStart w:id=\""@ + decimal(id) + "\"/>"@ || e.text
        == "<w:commentRangeEnd w:id=\""@ + decimal(id) + "\"/>"@
        + "<w:r><w:rPr><w:rStyle w:val=\"CommentReference\"/></w:rPr><w:commentReference w:id=\""@
        + decimal(id) + "\"/></w:r>"@)
}

/// A change is one end of one of `n` comments on whole paragraphs.
pub open spec fn marks_a_comment(e: EditModel, n: nat) -> bool {
    exists|id: nat| id < n && #[trigger] is_comment_end(e, id)
}

spec fn only_comments(m: Marks) -> bool {
    &&& m.inline == 0
    &&& m.taken.len() == 0
    &&& m.rev == 1000
    &&& forall|i: int|
        0 <= i < m.edits.len() ==> marks_a_comment(#[trigger] m.edits[i], m.comments.len())
}

proof fn lemma_only_comments(
    b: Seq<u8>,
    risks: Seq<RiskModel>,
    author: Seq<char>,
    date: Seq<char>,
    k: int,
)
    requires
        0 <= k <= risks.len(),
        forall|i: int| 0 <= i < risks.len() ==> counts(#[trigger] risks[i]) && !risks[i].revise,
    ensures
        only_comments(marks_for(b, risks, author, date, k)),
    decreases k,
{
    if k > 0 {
        lemma_only_comments(b, risks, author, date, k - 1);
        order_is_stable(risk_keys(risks), risks.len() as int);
        let st = marks_for(b, risks, author, date, k - 1);
        let risk = risks[order_of(risk_keys(risks), risks.len() as int)[k - 1]];
        let after = mark_risk(st, b, risk, author, date);
        let n = st.edits.len() as int;
        if can_be_marked(b, risk) {
            comments_leave_the_words_alone(st, b, risk, author, date);
            assert forall|i: int| 0 <= i < after.edits.len() implies marks_a_comment(
                #[trigger] after.edits[i],
                after.comments.len(),
            ) by {
                if i < n {
                    assert(after.edits.subrange(0, n)[i] == after.edits[i]);
                    assert(st.edits[i] == after.edits[i]);
                    let id = choose|id: nat|
                        id < st.comments.len() && #[trigger] is_comment_end(st.edits[i], id);
                    assert(is_comment_end(after.edits[i], id));
                } else {
                    let id = st.comments.len();
                    assert(is_comment_end(after.edits[i], id));
                }
            }
        } else {
            unmarked_risks_are_set_aside(st, b, risk, author, date);
        }
    }
}

/// A review that asks for no revision changes no word of the contract: every
/// change only adds a mark of one of the comments, and there is no tracked change.
pub proof fn reviews_without_revisions_change_no_words(
    b: Seq<u8>,
    risks: Seq<RiskModel>,
    author: Seq<char>,
    date: Seq<char>,
)
    requires
        forall|i: int| 0 <= i < risks.len() ==> counts(#[trigger] risks[i]) && !risks[i].revise,
    ensures
        ({
            let m = all_marks(b, risks, author, date);
            &&& m.inline == 0
            &&& m.taken.len() == 0
            &&& forall|i: int|
                0 <= i < m.edits.len() ==> (#[trigger] m.edits[i]).start == m.edits[i].end
            &&& forall|i: int|
                0 <= i < m.edits.len() ==> marks_a_comment(#[trigger] m.edits[i], m.comments.len())
        }),
{
    lemma_only_comments(b, risks, author, date, risks.len() as int);
    let m = all_marks(b, risks, author, date);
    assert forall|i: int| 0 <= i < m.edits.len() implies (#[trigger] m.edits[i]).start
        == m.edits[i].end by {
        let id = choose|id: nat|
            id < m.comments.len() && #[trigger] is_comment_end(m.edits[i], id);
        assert(is_comment_end(m.edits[i], id));
    }
}

/// The risks in the order in which they are marked.
pub open spec fn in_marking_order(risks: Seq<RiskModel>) -> Seq<RiskModel> {
    let order = order_of(risk_keys(risks), risks.len() as int);
    Seq::new(risks.len(), |i: int| risks[order[i]])
}

/// Risks are marked one after the other in the order of their paragraphs, those of
/// one paragraph as they came and those without one last. Every risk has its turn.
pub proof fn risks_are_marked_by_paragraph(
    b: Seq<u8>,
    risks: Seq<RiskModel>,
    author: Seq<char>,
    date: Seq<char>,
) -> (order: Seq<int>)
    ensures
        order.len() == risks.len(),
        forall|i: int| 0 <= i < order.len() ==> 0 <= #[trigger] order[i] < risks.len(),
        forall|x: int| 0 <= x < risks.len() ==> order.contains(x),
        forall|i: int, j: int|
            #![trigger order[i], order[j]]
            0 <= i < j < order.len() ==> match (
                risks[order[i]].paragraph_index,
                risks[order[j]].paragraph_index,
            ) {
                (Some(p), Some(q)) => p < q || (p == q && order[i] < order[j]),
                (None, Some(q)) => q >= usize::MAX,
                (None, None) => order[i] < order[j],
                (Some(p), None) => p <= usize::MAX,
            },
        marks_for(b, risks, author, date, 0).edits.len() == 0,
        forall|k: int|
            #![trigger order[k]]
            0 <= k < risks.len() ==> marks_for(b, risks, author, date, k + 1) == mark_risk(
                marks_for(b, risks, author, date, k),
                b,
                risks[order[k]],
                author,
                date,
            ),
        all_marks(b, risks, author, date) == marks_for(b, risks, author, date, risks.len() as int),
{
    let n = risks.len() as int;
    let keys = risk_keys(risks);
    let order = order_of(keys, n);
    order_is_stable(keys, n);
    assert forall|i: int, j: int|
        #![trigger order[i], order[j]]
        0 <= i < j < order.len() implies match (
        risks[order[i]].paragraph_index,
        risks[order[j]].paragraph_index,
    ) {
        (Some(p), Some(q)) => p < q || (p == q && order[i] < order[j]),
        (None, Some(q)) => q >= usize::MAX,
        (None, None) => order[i] < order[j],
        (Some(p), None) => p <= usize::MAX,
    } by {
        assert(precedes(keys, order[i], order[j]));
        assert(0 <= order[i] < n && 0 <= order[j] < n);
    }
    order
}

proof fn lemma_revisions_asked(
    b: Seq<u8>,
    risks: Seq<RiskModel>,
    author: Seq<char>,
    date: Seq<char>,
    k: int,
)
    requires
        0 <= k <= risks.len(),
        forall|i: int| 0 <= i < risks.len() ==> counts(#[trigger] risks[i]),
    ensures
        marks_for(b, risks, author, date, k).inline <= revisions_asked(
            in_marking_order(risks).subrange(0, k),
        ),
    decreases k,
{
    if k > 0 {
        lemma_revisions_asked(b, risks, author, date, k - 1);
        order_is_stable(risk_keys(risks), risks.len() as int);
        let v = in_marking_order(risks);
        assert(v.subrange(0, k).drop_last() =~= v.subrange(0, k - 1));
        let st = marks_for(b, risks, author, date, k - 1);
        let risk = v[k - 1];
        if !can_be_marked(b, risk) {
            unmarked_risks_are_set_aside(st, b, risk, author, date);
        } else if risk.revise {
            revisions_become_tracked_changes(st, b, risk, author, date);
        } else {
            comments_leave_the_words_alone(st, b, risk, author, date);
        }
    }
}

/// There are no more tracked changes than revisions were asked for.
pub proof fn only_what_is_asked_is_revised(
    b: Seq<u8>,
    risks: Seq<RiskModel>,
    author: Seq<char>,
    date: Seq<char>,
)
    requires
        forall|i: int| 0 <= i < risks.len() ==> counts(#[trigger] risks[i]),
    ensures
        all_marks(b, risks, author, date).inline <= revisions_asked(in_marking_order(risks)),
{
    lemma_revisions_asked(b, risks, author, date, risks.len() as int);
    let v = in_marking_order(risks);
    assert(v.subrange(0, risks.len() as int) =~= v);
}

} // verus!
