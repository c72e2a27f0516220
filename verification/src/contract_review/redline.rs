//! Marking the risks of a review in the contract itself.
//!
//! A risk that asks for other words becomes a tracked change where its anchor
//! can be found in plain runs; otherwise the whole paragraph gets a comment. A
//! risk without a paragraph is set aside and reported. None is lost.
use vstd::prelude::*;
use vstd::utf8::*;
use crate::bytes::{bytes_end_with, lemma_boundary_shift, lemma_encode_concat, slice_text};
use crate::contract_review::docx::{
    all_files, archive_complaint, as_entries, complaint, docx_contents, is_dir_name, lists,
    parts_model, read_docx_parts, whole_archives_read_again, write_docx_parts,
};
use crate::contract_review::inline::{cut_at, cut_keeps_the_text, inline_xml, try_build_inline};
use crate::contract_review::marks::{
    build_comments_xml, comment_of, comment_range_end, comment_range_start, comment_reference_run,
    comment_text, comments_part, escaped, range_end, range_start, reference_run, xml_escape,
    ReviewRisk, RiskModel,
};
use crate::contract_review::package::{
    bytes_of, first_named, lemma_first_named, only_comments_rels, parts_set,
    register_comments_part, rels_with_comments, setting_a_part_keeps_the_others,
    types_with_comments, with_comments_entered, with_part,
};
use crate::contract_review::parse::{
    element_from, find_paragraph_spans, lemma_element, next_element_span, paragraph_tag, run_pieces,
    run_tag, spans_are_boundaries, spans_are_ordered, spans_from, spans_model, GT,
};
use crate::text::{find, find_bytes, lemma_find_from, occurs_at, texts, trim, trim_text};
use crate::order::{before, ints, key_ints, order_is_stable, order_of, precedes, stable_order};

verus! {

/// A change to a document: the bytes `[start, end)` give way to a text. Where
/// `start` is `end` the text is put in between.
pub struct Edit {
    pub start: usize,
    pub end: usize,
    pub replacement: String,
}

/// A change as data.
pub struct EditModel {
    pub start: int,
    pub end: int,
    pub text: Seq<char>,
}

impl View for Edit {
    type V = EditModel;

    open spec fn view(&self) -> EditModel {
        EditModel { start: self.start as int, end: self.end as int, text: self.replacement@ }
    }
}

pub open spec fn edit_models(v: Seq<Edit>) -> Seq<EditModel> {
    Seq::new(v.len(), |i: int| v[i]@)
}

/// A change fits a document: it lies inside, and both ends are places of
/// characters.
pub open spec fn fits(b: Seq<u8>, e: EditModel) -> bool {
    0 <= e.start <= e.end <= b.len() && is_char_boundary(b, e.start) && is_char_boundary(b, e.end)
}

/// The document after one change. A change that does not fit is passed over.
pub open spec fn spliced(b: Seq<u8>, e: EditModel) -> Seq<u8> {
    if fits(b, e) {
        b.subrange(0, e.start) + encode_utf8(e.text) + b.subrange(e.end, b.len() as int)
    } else {
        b
    }
}

/// The keys by which changes are made: from the back, and where several begin
/// at one place those that take text away before those that only add.
pub open spec fn edit_keys(edits: Seq<EditModel>) -> Seq<(int, int)> {
    Seq::new(edits.len(), |i: int| (-edits[i].start, -edits[i].end))
}

/// The document after the first `k` changes in order.
pub open spec fn after_edits(b: Seq<u8>, edits: Seq<EditModel>, order: Seq<int>, k: int) -> Seq<u8>
    decreases k,
{
    if k <= 0 {
        b
    } else {
        spliced(after_edits(b, edits, order, k - 1), edits[order[k - 1]])
    }
}

/// The document after all changes.
pub open spec fn edited(b: Seq<u8>, edits: Seq<EditModel>) -> Seq<u8> {
    after_edits(b, edits, order_of(edit_keys(edits), edits.len() as int), edits.len() as int)
}

/// Makes all changes to a document, from the back to the front so that no
/// change moves the place of another.
pub fn apply_edits(doc_xml: &str, edits: &Vec<Edit>) -> (r: String)
    ensures
        encode_utf8(r@) == edited(encode_utf8(doc_xml@), edit_models(edits@)),
{
    let ghost m = edit_models(edits@);
    let mut keys: Vec<(i128, i128)> = Vec::new();
    let mut i: usize = 0;
    while i < edits.len()
        invariant
            i <= edits@.len(),
            m == edit_models(edits@),
            keys@.len() == i,
            forall|k: int|
                0 <= k < i ==> (#[trigger] keys@[k]).0 == -m[k].start && keys@[k].1 == -m[k].end,
        decreases edits@.len() - i,
    {
        keys.push((-(edits[i].start as i128), -(edits[i].end as i128)));
        i = i + 1;
    }
    assert(key_ints(keys@) =~= edit_keys(m));
    let order = stable_order(&keys);
    let ghost o = ints(order@);
    let mut s = String::from_str(doc_xml);
    let mut k: usize = 0;
    while k < order.len()
        invariant
            k <= order@.len(),
            m == edit_models(edits@),
            o == ints(order@),
            order@.len() == edits@.len(),
            forall|q: int| 0 <= q < order@.len() ==> (#[trigger] order@[q]) < edits@.len(),
            encode_utf8(s@) == after_edits(encode_utf8(doc_xml@), m, o, k as int),
        decreases order@.len() - k,
    {
        let e = &edits[order[k]];
        assert(m[o[k as int]] == e@);
        let n: usize = s.as_str().as_bytes().len();
        if e.start <= e.end && e.end <= n && s.as_str().is_char_boundary(e.start)
            && s.as_str().is_char_boundary(e.end) {
            let ghost b = encode_utf8(s@);
            proof {
                encode_utf8_valid_utf8(s@);
                is_char_boundary_start_end_of_seq(b);
            }
            let head = slice_text(s.as_str(), 0, e.start);
            let tail = slice_text(s.as_str(), e.end, n);
            let mut next = String::from_str(head);
            next.append(e.replacement.as_str());
            next.append(tail);
            proof {
                lemma_encode_concat(head@ + e.replacement@, tail@);
                lemma_encode_concat(head@, e.replacement@);
            }
            s = next;
        }
        k = k + 1;
    }
    s
}

/// Where the first of the first `k` changes begins; the end of the document
/// before any.
pub open spec fn front(b: Seq<u8>, edits: Seq<EditModel>, order: Seq<int>, k: int) -> int {
    if k <= 0 {
        b.len() as int
    } else {
        edits[order[k - 1]].start
    }
}

/// The changed document from the first of the first `k` changes on: the text
/// of each change, and between two changes what stood there before.
pub open spec fn woven(b: Seq<u8>, edits: Seq<EditModel>, order: Seq<int>, k: int) -> Seq<u8>
    decreases k,
{
    if k <= 0 {
        Seq::empty()
    } else {
        let e = edits[order[k - 1]];
        encode_utf8(e.text) + b.subrange(e.end, front(b, edits, order, k - 1)) + woven(
            b,
            edits,
            order,
            k - 1,
        )
    }
}

/// No two changes touch the same bytes.
pub open spec fn apart(edits: Seq<EditModel>) -> bool {
    forall|i: int, j: int|
        0 <= i < edits.len() && 0 <= j < edits.len() && i != j ==> (#[trigger] edits[i]).end
            <= (#[trigger] edits[j]).start || edits[j].end <= edits[i].start
}

proof fn lemma_boundary_prefix(b: Seq<u8>, x: Seq<u8>, p: int, q: int)
    requires
        valid_utf8(b),
        valid_utf8(x),
        is_char_boundary(b, p),
        0 <= q <= p <= b.len(),
        is_char_boundary(b, q),
    ensures
        valid_utf8(b.subrange(0, p) + x),
        is_char_boundary(b.subrange(0, p) + x, q),
{
    let head = b.subrange(0, p);
    let whole = head + x;
    valid_utf8_split(b, p);
    valid_utf8_concat(head, x);
    if q < p {
        is_char_boundary_iff_not_is_continuation_byte(b, q);
        is_char_boundary_iff_not_is_continuation_byte(whole, q);
        assert(whole[q] == b[q]);
    } else if x.len() > 0 {
        is_char_boundary_start_end_of_seq(x);
        is_char_boundary_iff_not_is_continuation_byte(x, 0);
        is_char_boundary_iff_not_is_continuation_byte(whole, q);
        assert(whole[q] == x[0]);
    } else {
        is_char_boundary_start_end_of_seq(whole);
    }
}

proof fn lemma_middle_valid(b: Seq<u8>, p: int, q: int)
    requires
        valid_utf8(b),
        is_char_boundary(b, p),
        is_char_boundary(b, q),
        0 <= p <= q <= b.len(),
    ensures
        valid_utf8(b.subrange(p, q)),
{
    valid_utf8_split(b, p);
    lemma_boundary_shift(b, p, q);
    let rest = b.subrange(p, b.len() as int);
    valid_utf8_split(rest, q - p);
    assert(rest.subrange(0, q - p) =~= b.subrange(p, q));
}

proof fn lemma_after_edits(b: Seq<u8>, edits: Seq<EditModel>, k: int)
    requires
        valid_utf8(b),
        apart(edits),
        forall|i: int| 0 <= i < edits.len() ==> fits(b, #[trigger] edits[i]),
        0 <= k <= edits.len(),
    ensures
        ({
            let order = order_of(edit_keys(edits), edits.len() as int);
            let p = front(b, edits, order, k);
            &&& 0 <= p <= b.len() && is_char_boundary(b, p)
            &&& valid_utf8(woven(b, edits, order, k))
            &&& after_edits(b, edits, order, k) == b.subrange(0, p) + woven(b, edits, order, k)
        }),
    decreases k,
{
    let n = edits.len() as int;
    let order = order_of(edit_keys(edits), n);
    order_is_stable(edit_keys(edits), n);
    if k == 0 {
        is_char_boundary_start_end_of_seq(b);
        assert(b.subrange(0, b.len() as int) + Seq::<u8>::empty() =~= b);
    } else {
        lemma_after_edits(b, edits, k - 1);
        let p = front(b, edits, order, k - 1);
        let w = woven(b, edits, order, k - 1);
        let x = order[k - 1];
        assert(0 <= x < n);
        let e = edits[x];
        assert(fits(b, e));
        if k > 1 {
            let y = order[k - 2];
            assert(0 <= y < n);
            assert(precedes(edit_keys(edits), order[k - 2], order[k - 1]));
            assert(y != x);
            let f = edits[y];
            assert(fits(b, f));
            assert(e.end <= f.start || f.end <= e.start);
            assert(e.end <= p);
        }
        lemma_boundary_prefix(b, w, p, e.start);
        lemma_boundary_prefix(b, w, p, e.end);
        let whole = b.subrange(0, p) + w;
        assert(fits(whole, e));
        assert(spliced(whole, e) =~= b.subrange(0, e.start) + woven(b, edits, order, k)) by {
            assert(whole.subrange(0, e.start) =~= b.subrange(0, e.start));
            assert(whole.subrange(e.end, whole.len() as int) =~= b.subrange(e.end, p) + w);
        }
        lemma_middle_valid(b, e.end, p);
        encode_utf8_valid_utf8(e.text);
        valid_utf8_concat(encode_utf8(e.text), b.subrange(e.end, p));
        valid_utf8_concat(encode_utf8(e.text) + b.subrange(e.end, p), w);
    }
}

/// Every change lands in the place that it was made for and what lies between
/// the changes stays as it was, whatever the order in which they came.
pub proof fn edits_land_in_place(b: Seq<u8>, edits: Seq<EditModel>)
    requires
        valid_utf8(b),
        apart(edits),
        forall|i: int| 0 <= i < edits.len() ==> fits(b, #[trigger] edits[i]),
    ensures
        ({
            let n = edits.len() as int;
            let order = order_of(edit_keys(edits), n);
            edited(b, edits) == b.subrange(0, front(b, edits, order, n)) + woven(
                b,
                edits,
                order,
                n,
            )
        }),
{
    lemma_after_edits(b, edits, edits.len() as int);
}

/// No two changes begin and end at the same places.
pub open spec fn places_differ(edits: Seq<EditModel>) -> bool {
    forall|i: int, j: int|
        0 <= i < j < edits.len() ==> (#[trigger] edits[i]).start != (#[trigger] edits[j]).start
            || edits[i].end != edits[j].end
}

/// The changes in the order in which they are made.
pub open spec fn in_turn(edits: Seq<EditModel>) -> Seq<EditModel> {
    let order = order_of(edit_keys(edits), edits.len() as int);
    Seq::new(edits.len(), |i: int| edits[order[i]])
}

pub open spec fn edit_key(e: EditModel) -> (int, int) {
    (-e.start, -e.end)
}

/// Each change is made before those further to the front.
pub open spec fn strictly_in_turn(v: Seq<EditModel>) -> bool {
    forall|i: int, j: int|
        0 <= i < j < v.len() ==> before(edit_key(#[trigger] v[i]), edit_key(#[trigger] v[j]))
}

proof fn lemma_in_turn(edits: Seq<EditModel>)
    requires
        places_differ(edits),
    ensures
        in_turn(edits).len() == edits.len(),
        strictly_in_turn(in_turn(edits)),
        forall|e: EditModel| #[trigger] in_turn(edits).contains(e) <==> edits.contains(e),
{
    let n = edits.len() as int;
    let keys = edit_keys(edits);
    let order = order_of(keys, n);
    order_is_stable(keys, n);
    let v = in_turn(edits);
    assert forall|i: int, j: int| 0 <= i < j < v.len() implies before(
        edit_key(#[trigger] v[i]),
        edit_key(#[trigger] v[j]),
    ) by {
        let x = order[i];
        let y = order[j];
        assert(precedes(keys, order[i], order[j]));
        assert(0 <= x < n && 0 <= y < n);
        assert(keys[x] == edit_key(edits[x]) && keys[y] == edit_key(edits[y]));
        if keys[x] == keys[y] {
            assert(x < y);
            assert(edits[x].start != edits[y].start || edits[x].end != edits[y].end);
        }
    }
    assert forall|e: EditModel| #[trigger] v.contains(e) <==> edits.contains(e) by {
        if v.contains(e) {
            let i = choose|i: int| 0 <= i < v.len() && v[i] == e;
            assert(0 <= order[i] < n);
            assert(edits[order[i]] == e);
        }
        if edits.contains(e) {
            let x = choose|x: int| 0 <= x < edits.len() && edits[x] == e;
            assert(order.contains(x));
            let i = choose|i: int| 0 <= i < order.len() && order[i] == x;
            assert(v[i] == e);
        }
    }
}

/// There is one way only to put changes in turn.
proof fn lemma_turn_is_unique(v: Seq<EditModel>, w: Seq<EditModel>)
    requires
        strictly_in_turn(v),
        strictly_in_turn(w),
        forall|e: EditModel| #[trigger] v.contains(e) <==> w.contains(e),
    ensures
        v == w,
    decreases v.len(),
{
    if v.len() == 0 {
        if w.len() > 0 {
            assert(w.contains(w[0]));
            assert(v.contains(w[0]));
        }
        assert(v =~= w);
    } else {
        assert(v.contains(v[0]));
        assert(w.contains(v[0]));
        let j = choose|j: int| 0 <= j < w.len() && w[j] == v[0];
        assert(w.contains(w[0]));
        assert(v.contains(w[0]));
        let i = choose|i: int| 0 <= i < v.len() && v[i] == w[0];
        if i > 0 {
            assert(before(edit_key(v[0]), edit_key(v[i])));
            if j > 0 {
                assert(before(edit_key(w[0]), edit_key(w[j])));
            }
        }
        assert(v[0] == w[0]);
        let v1 = v.drop_first();
        let w1 = w.drop_first();
        assert forall|a: int, b: int| 0 <= a < b < v1.len() implies before(
            edit_key(#[trigger] v1[a]),
            edit_key(#[trigger] v1[b]),
        ) by {
            assert(before(edit_key(v[a + 1]), edit_key(v[b + 1])));
        }
        assert forall|a: int, b: int| 0 <= a < b < w1.len() implies before(
            edit_key(#[trigger] w1[a]),
            edit_key(#[trigger] w1[b]),
        ) by {
            assert(before(edit_key(w[a + 1]), edit_key(w[b + 1])));
        }
        assert forall|e: EditModel| #[trigger] v1.contains(e) implies w1.contains(e) by {
            let k = choose|k: int| 0 <= k < v1.len() && v1[k] == e;
            assert(v[k + 1] == e);
            assert(v.contains(e));
            let q = choose|q: int| 0 <= q < w.len() && w[q] == e;
            assert(before(edit_key(v[0]), edit_key(v[k + 1])));
            assert(q > 0);
            assert(w1[q - 1] == e);
        }
        assert forall|e: EditModel| #[trigger] w1.contains(e) implies v1.contains(e) by {
            let k = choose|k: int| 0 <= k < w1.len() && w1[k] == e;
            assert(w[k + 1] == e);
            assert(w.contains(e));
            assert(v.contains(e));
            let q = choose|q: int| 0 <= q < v.len() && v[q] == e;
            assert(before(edit_key(w[0]), edit_key(w[k + 1])));
            assert(q > 0);
            assert(v1[q - 1] == e);
        }
        lemma_turn_is_unique(v1, w1);
        assert(v =~= seq![v[0]] + v1);
        assert(w =~= seq![w[0]] + w1);
    }
}

proof fn lemma_same_turn(b: Seq<u8>, one: Seq<EditModel>, other: Seq<EditModel>, k: int)
    requires
        in_turn(one) == in_turn(other),
        0 <= k <= one.len(),
        one.len() == other.len(),
    ensures
        after_edits(b, one, order_of(edit_keys(one), one.len() as int), k) == after_edits(
            b,
            other,
            order_of(edit_keys(other), other.len() as int),
            k,
        ),
    decreases k,
{
    if k > 0 {
        lemma_same_turn(b, one, other, k - 1);
        let x = order_of(edit_keys(one), one.len() as int)[k - 1];
        let y = order_of(edit_keys(other), other.len() as int)[k - 1];
        assert(in_turn(one)[k - 1] == one[x]);
        assert(in_turn(other)[k - 1] == other[y]);
    }
}

/// The order in which changes come does not matter: two lists of the same
/// changes, of which no two begin and end at the same places, give the same
/// document.
pub proof fn edits_forget_their_order(b: Seq<u8>, one: Seq<EditModel>, other: Seq<EditModel>)
    requires
        one.to_multiset() == other.to_multiset(),
        places_differ(one),
    ensures
        edited(b, one) == edited(b, other),
{
    broadcast use vstd::seq_lib::group_to_multiset_ensures;

    assert(one.len() == one.to_multiset().len());
    assert(other.len() == other.to_multiset().len());
    assert forall|e: EditModel| #[trigger] one.contains(e) <==> other.contains(e) by {
        assert(one.contains(e) <==> one.to_multiset().count(e) > 0);
        assert(other.contains(e) <==> other.to_multiset().count(e) > 0);
    }
    assert(places_differ(other)) by {
        assert(one.no_duplicates());
        one.lemma_multiset_has_no_duplicates();
        other.lemma_multiset_has_no_duplicates_conv();
        assert forall|i: int, j: int| 0 <= i < j < other.len() implies (#[trigger] other[i]).start
            != (#[trigger] other[j]).start || other[i].end != other[j].end by {
            assert(other.contains(other[i]) && other.contains(other[j]));
            assert(one.contains(other[i]) && one.contains(other[j]));
            let x = choose|x: int| 0 <= x < one.len() && one[x] == other[i];
            let y = choose|y: int| 0 <= y < one.len() && one[y] == other[j];
            assert(other[i] != other[j]);
            if x < y {
                assert(one[x].start != one[y].start || one[x].end != one[y].end);
            } else {
                assert(one[y].start != one[x].start || one[y].end != one[x].end);
            }
        }
    }
    lemma_in_turn(one);
    lemma_in_turn(other);
    assert forall|e: EditModel| #[trigger] in_turn(one).contains(e) <==> in_turn(other).contains(
        e,
    ) by {
        assert(one.contains(e) <==> other.contains(e));
    }
    lemma_turn_is_unique(in_turn(one), in_turn(other));
    lemma_same_turn(b, one, other, one.len() as int);
}

/// What a review found.
pub struct ContractReviewResult {
    pub risks: Vec<ReviewRisk>,
}

pub open spec fn risk_models(v: Seq<ReviewRisk>) -> Seq<RiskModel> {
    Seq::new(v.len(), |i: int| v[i]@)
}

/// The marks that were made so far.
pub struct Marks {
    pub edits: Seq<EditModel>,
    /// The texts of the comments; comment number `i` has the id `i`.
    pub comments: Seq<Seq<char>>,
    pub skipped: Seq<Seq<char>>,
    pub inline: nat,
    pub whole: nat,
    /// The next number for a tracked change.
    pub rev: nat,
    /// The runs that were changed: the paragraph, and the bytes in it.
    pub taken: Seq<(int, int, int)>,
}

/// No marks. Tracked changes have numbers of their own, away from those of the
/// comments.
pub open spec fn no_marks() -> Marks {
    Marks {
        edits: Seq::empty(),
        comments: Seq::empty(),
        skipped: Seq::empty(),
        inline: 0,
        whole: 0,
        rev: 1000,
        taken: Seq::empty(),
    }
}

/// The bytes of the tag that ends a paragraph.
pub open spec fn paragraph_end() -> Seq<u8> {
    encode_utf8("</w:p>"@)
}

/// Where the range of a comment on a whole paragraph begins: behind its
/// properties, or behind its start tag.
pub open spec fn comment_point(para: Seq<u8>) -> int {
    match element_from(para, encode_utf8("w:pPr"@), 0) {
        Some((s, e)) => e,
        None => match find(para, seq![GT]) {
            Some(i) => i + 1,
            None => 0,
        },
    }
}

/// Part of the bytes was changed before.
pub open spec fn overlaps(taken: Seq<(int, int, int)>, p: int, s: int, e: int) -> bool {
    exists|i: int|
        0 <= i < taken.len() && (#[trigger] taken[i]).0 == p && s < taken[i].2 && taken[i].1 < e
}

/// The marks with a comment on a whole paragraph.
pub open spec fn with_comment(st: Marks, span: (int, int), para: Seq<u8>, risk: RiskModel) -> Marks {
    let id = st.comments.len();
    let a = span.0 + comment_point(para);
    let b = span.0 + para.len() - paragraph_end().len();
    Marks {
        edits: st.edits.push(EditModel { start: a, end: a, text: range_start(id) }).push(
            EditModel { start: b, end: b, text: range_end(id) + reference_run(id) },
        ),
        comments: st.comments.push(comment_of(risk)),
        whole: st.whole + 1,
        ..st
    }
}

/// The marks with one for a further risk.
pub open spec fn mark_risk(
    st: Marks,
    b: Seq<u8>,
    risk: RiskModel,
    author: Seq<char>,
    date: Seq<char>,
) -> Marks {
    let spans = spans_from(b, paragraph_tag(), 0);
    let line = "["@ + risk.level + "] "@ + trim(risk.title);
    match risk.paragraph_index {
        None => Marks { skipped: st.skipped.push(line), ..st },
        Some(p) => if p >= spans.len() {
            Marks { skipped: st.skipped.push(line), ..st }
        } else {
            let span = spans[p];
            let para = b.subrange(span.0, span.1);
            if !paragraph_end().is_suffix_of(para) {
                Marks { skipped: st.skipped.push(line + "(段落为空,无法落痕)"@), ..st }
            } else {
                let pieces = run_pieces(para);
                let anchor = trim(risk.anchor_text);
                let cut = if risk.revise {
                    cut_at(pieces, anchor)
                } else {
                    None
                };
                match cut {
                    None => with_comment(st, span, para, risk),
                    Some(c) => {
                        let s = pieces[c.first].start;
                        let e = pieces[c.last].end;
                        let spent = Marks { rev: st.rev + 2, ..st };
                        if overlaps(st.taken, p, s, e) {
                            with_comment(spent, span, para, risk)
                        } else {
                            Marks {
                                edits: st.edits.push(
                                    EditModel {
                                        start: span.0 + s,
                                        end: span.0 + e,
                                        text: inline_xml(
                                            pieces,
                                            c,
                                            anchor,
                                            trim(risk.recommended_text),
                                            author,
                                            date,
                                            st.rev,
                                            st.comments.len(),
                                        ),
                                    },
                                ),
                                comments: st.comments.push(comment_of(risk)),
                                inline: st.inline + 1,
                                taken: st.taken.push((p, s, e)),
                                ..spent
                            }
                        }
                    },
                }
            }
        },
    }
}

/// The keys by which risks are taken: by paragraph, those without one last.
pub open spec fn risk_keys(risks: Seq<RiskModel>) -> Seq<(int, int)> {
    Seq::new(
        risks.len(),
        |i: int|
            (
                match risks[i].paragraph_index {
                    Some(p) => p,
                    None => usize::MAX as int,
                },
                0int,
            ),
    )
}

/// The marks for the first `k` risks in order.
pub open spec fn marks_for(
    b: Seq<u8>,
    risks: Seq<RiskModel>,
    author: Seq<char>,
    date: Seq<char>,
    k: int,
) -> Marks
    decreases k,
{
    if k <= 0 {
        no_marks()
    } else {
        mark_risk(
            marks_for(b, risks, author, date, k - 1),
            b,
            risks[order_of(risk_keys(risks), risks.len() as int)[k - 1]],
            author,
            date,
        )
    }
}

/// The marks for all risks.
pub open spec fn all_marks(
    b: Seq<u8>,
    risks: Seq<RiskModel>,
    author: Seq<char>,
    date: Seq<char>,
) -> Marks {
    marks_for(b, risks, author, date, risks.len() as int)
}

/// No risk is lost: each is a tracked change, a comment, or set aside with its
/// title, and each that is marked has its comment.
pub proof fn no_risk_is_lost(
    b: Seq<u8>,
    risks: Seq<RiskModel>,
    author: Seq<char>,
    date: Seq<char>,
    k: int,
)
    requires
        0 <= k <= risks.len(),
    ensures
        ({
            let m = marks_for(b, risks, author, date, k);
            &&& m.inline + m.whole + m.skipped.len() == k
            &&& m.comments.len() == m.inline + m.whole
            &&& m.edits.len() == m.inline + 2 * m.whole
            &&& m.rev <= 1000 + 2 * k
        }),
    decreases k,
{
    if k > 0 {
        no_risk_is_lost(b, risks, author, date, k - 1);
    }
}

/// The two places of a comment on a whole paragraph, in bytes from its start:
/// behind its properties (or its start tag), and before its end tag.
pub fn whole_paragraph_comment_points(para_xml: &str) -> (r: (usize, usize))
    requires
        paragraph_end().is_suffix_of(encode_utf8(para_xml@)),
    ensures
        r.0 == comment_point(encode_utf8(para_xml@)),
        r.0 <= encode_utf8(para_xml@).len(),
        r.1 == encode_utf8(para_xml@).len() - paragraph_end().len(),
{
    let ghost b = encode_utf8(para_xml@);
    let bytes = para_xml.as_bytes();
    let gt: Vec<u8> = vec![GT];
    assert(gt@ =~= seq![GT]);
    proof {
        encode_utf8_valid_utf8(para_xml@);
        is_char_boundary_start_end_of_seq(b);
        lemma_element(b, encode_utf8("w:pPr"@), 0);
        lemma_find_from(b, seq![GT], 0);
    }
    let n: usize = bytes.len();
    let a: usize = match next_element_span(para_xml, "w:pPr", 0) {
        Some((_, e)) => e,
        None => match find_bytes(bytes, gt.as_slice(), 0) {
            Some(i) => i + 1,
            None => 0,
        },
    };
    (a, n - "</w:p>".as_bytes().len())
}

/// The marks while they are made.
struct Marking {
    edits: Vec<Edit>,
    comments: Vec<String>,
    skipped: Vec<String>,
    applied_inline: usize,
    applied_comment: usize,
    rev_id: u128,
    taken: Vec<(usize, usize, usize)>,
}

spec fn taken_model(v: Seq<(usize, usize, usize)>) -> Seq<(int, int, int)> {
    Seq::new(v.len(), |i: int| (v[i].0 as int, v[i].1 as int, v[i].2 as int))
}

impl Marking {
    spec fn model(&self) -> Marks {
        Marks {
            edits: edit_models(self.edits@),
            comments: texts(self.comments@),
            skipped: texts(self.skipped@),
            inline: self.applied_inline as nat,
            whole: self.applied_comment as nat,
            rev: self.rev_id as nat,
            taken: taken_model(self.taken@),
        }
    }

    fn skip(&mut self, risk: &ReviewRisk, note: &str)
        ensures
            final(self).model() == (Marks {
                skipped: old(self).model().skipped.push(
                    "["@ + risk@.level + "] "@ + trim(risk@.title) + note@,
                ),
                ..old(self).model()
            }),
    {
        let ghost before = self.model();
        let mut line = String::from_str("[");
        line.append(risk.level.as_str());
        line.append("] ");
        let title = trim_text(risk.title.as_str());
        line.append(title.as_str());
        line.append(note);
        self.skipped.push(line);
        assert(self.model().skipped =~= before.skipped.push(line@));
    }

    fn push_edit(&mut self, start: usize, end: usize, replacement: String)
        ensures
            final(self).model() == (Marks {
                edits: old(self).model().edits.push(
                    EditModel { start: start as int, end: end as int, text: replacement@ },
                ),
                ..old(self).model()
            }),
    {
        let ghost before = self.model();
        self.edits.push(Edit { start, end, replacement });
        assert(self.model().edits =~= before.edits.push(
            EditModel { start: start as int, end: end as int, text: replacement@ },
        ));
    }

    fn push_comment(&mut self, text: String)
        ensures
            final(self).model() == (Marks {
                comments: old(self).model().comments.push(text@),
                ..old(self).model()
            }),
    {
        let ghost before = self.model();
        self.comments.push(text);
        assert(self.model().comments =~= before.comments.push(text@));
    }

    fn comment_whole(&mut self, ps: usize, para_xml: &str, risk: &ReviewRisk)
        requires
            old(self).applied_comment < usize::MAX,
            paragraph_end().is_suffix_of(encode_utf8(para_xml@)),
            ps + encode_utf8(para_xml@).len() <= usize::MAX,
        ensures
            final(self).model() == with_comment(
                old(self).model(),
                (ps as int, ps + encode_utf8(para_xml@).len()),
                encode_utf8(para_xml@),
                risk@,
            ),
    {
        let id: usize = self.comments.len();
        let (a, b) = whole_paragraph_comment_points(para_xml);
        let start = comment_range_start(id);
        self.push_edit(ps + a, ps + a, start);
        let mut end = comment_range_end(id);
        let reference = comment_reference_run(id);
        end.append(reference.as_str());
        self.push_edit(ps + b, ps + b, end);
        let text = comment_text(risk);
        self.push_comment(text);
        self.applied_comment = self.applied_comment + 1;
    }

    fn overlapping(&self, p: usize, s: usize, e: usize) -> (r: bool)
        ensures
            r == overlaps(self.model().taken, p as int, s as int, e as int),
    {
        let mut i: usize = 0;
        while i < self.taken.len()
            invariant
                i <= self.taken@.len(),
                forall|k: int|
                    0 <= k < i ==> !((#[trigger] self.taken@[k]).0 == p && s < self.taken@[k].2
                        && self.taken@[k].1 < e),
            decreases self.taken@.len() - i,
        {
            let t = self.taken[i];
            if t.0 == p && s < t.2 && t.1 < e {
                assert(self.model().taken[i as int] == (t.0 as int, t.1 as int, t.2 as int));
                return true;
            }
            i = i + 1;
        }
        assert forall|k: int| 0 <= k < self.model().taken.len() implies !((
        #[trigger] self.model().taken[k]).0 == p && s < self.model().taken[k].2
            && self.model().taken[k].1 < e) by {
            assert(self.taken@[k].0 == self.model().taken[k].0);
        }
        false
    }

    /// Marks one risk.
    fn mark(
        &mut self,
        doc_xml: &str,
        spans: &Vec<(usize, usize)>,
        risk: &ReviewRisk,
        author_esc: &str,
        date: &str,
    )
        requires
            spans_model(spans@) == spans_from(encode_utf8(doc_xml@), paragraph_tag(), 0),
            old(self).applied_inline < usize::MAX,
            old(self).applied_comment < usize::MAX,
            old(self).rev_id <= u128::MAX - 2,
        ensures
            final(self).model() == mark_risk(
                old(self).model(),
                encode_utf8(doc_xml@),
                risk@,
                author_esc@,
                date@,
            ),
    {
        let ghost b = encode_utf8(doc_xml@);
        let ghost all = spans_from(b, paragraph_tag(), 0);
        proof {
            encode_utf8_valid_utf8(doc_xml@);
            spans_are_ordered(b, paragraph_tag(), 0);
            spans_are_boundaries(b, paragraph_tag(), 0);
        }
        let ghost line = "["@ + risk@.level + "] "@ + trim(risk@.title);
        let p: usize = match risk.paragraph_index {
            Some(p) => p,
            None => {
                proof {
                    lemma_empty_note(line);
                }
                self.skip(risk, "");
                return;
            },
        };
        if p >= spans.len() {
            proof {
                lemma_empty_note(line);
            }
            self.skip(risk, "");
            return;
        }
        let (ps, pe) = spans[p];
        assert(all[p as int] == spans_model(spans@)[p as int]);
        let whole: usize = doc_xml.as_bytes().len();
        let para_xml = slice_text(doc_xml, ps, pe);
        let ghost para = encode_utf8(para_xml@);
        if !bytes_end_with(para_xml.as_bytes(), "</w:p>") {
            self.skip(risk, "(段落为空,无法落痕)");
            return;
        }
        if risk.revise {
            let id: usize = self.comments.len();
            let ghost pieces = run_pieces(para);
            let ghost anchor = trim(risk@.anchor_text);
            proof {
                lemma_pieces_inside(para);
                cut_keeps_the_text(pieces, anchor);
            }
            let mut rev: u128 = self.rev_id;
            let made = try_build_inline(para_xml, risk, author_esc, date, &mut rev, id);
            self.rev_id = rev;
            if let Some((s, e, xml)) = made {
                if !self.overlapping(p, s, e) {
                    let ghost before = self.model();
                    self.taken.push((p, s, e));
                    assert(self.model().taken =~= before.taken.push(
                        (p as int, s as int, e as int),
                    ));
                    self.push_edit(ps + s, ps + e, xml);
                    let text = comment_text(risk);
                    self.push_comment(text);
                    self.applied_inline = self.applied_inline + 1;
                    return;
                }
            }
        }
        self.comment_whole(ps, para_xml, risk);
    }
}

proof fn lemma_empty_note(line: Seq<char>)
    ensures
        line + ""@ == line,
{
    reveal_strlit("");
    assert(line + ""@ =~= line);
}

proof fn lemma_pieces_inside(para: Seq<u8>)
    ensures
        forall|i: int|
            0 <= i < run_pieces(para).len() ==> 0 <= (#[trigger] run_pieces(para)[i]).start
                < run_pieces(para)[i].end <= para.len(),
{
    spans_are_ordered(para, run_tag(), 0);
    assert forall|i: int| 0 <= i < run_pieces(para).len() implies 0 <= (#[trigger] run_pieces(
        para,
    )[i]).start < run_pieces(para)[i].end <= para.len() by {
        assert(run_pieces(para)[i].start == spans_from(para, run_tag(), 0)[i].0);
    }
}

/// A contract with marks.
pub struct RedlineOutcome {
    pub docx: Vec<u8>,
    /// How many risks became tracked changes.
    pub applied_inline: usize,
    /// How many risks became comments on a whole paragraph.
    pub applied_comment: usize,
    /// The risks that could not be marked in the document.
    pub skipped: Vec<String>,
}

/// A document with marks, and what the marks are.
pub struct MarkedDocument {
    pub document_xml: String,
    /// The texts of the comments; comment number `i` has the id `i`.
    pub comments: Vec<String>,
    pub applied_inline: usize,
    pub applied_comment: usize,
    pub skipped: Vec<String>,
}

/// Marks the risks of a review in a document.
pub fn mark_document(
    doc_xml: &str,
    result: &ContractReviewResult,
    author: &str,
    date: &str,
) -> (r: MarkedDocument)
    ensures
        ({
            let b = encode_utf8(doc_xml@);
            let m = all_marks(b, risk_models(result.risks@), escaped(author@), date@);
            &&& encode_utf8(r.document_xml@) == edited(b, m.edits)
            &&& texts(r.comments@) == m.comments
            &&& r.applied_inline == m.inline
            &&& r.applied_comment == m.whole
            &&& texts(r.skipped@) == m.skipped
        }),
        r.applied_inline + r.applied_comment + r.skipped@.len() == result.risks@.len(),
        r.comments@.len() == r.applied_inline + r.applied_comment,
{
    let ghost b = encode_utf8(doc_xml@);
    let ghost risks = risk_models(result.risks@);
    let author_esc = xml_escape(author);
    let spans = find_paragraph_spans(doc_xml);
    let mut keys: Vec<(i128, i128)> = Vec::new();
    let mut i: usize = 0;
    while i < result.risks.len()
        invariant
            i <= result.risks@.len(),
            risks == risk_models(result.risks@),
            keys@.len() == i,
            forall|k: int|
                0 <= k < i ==> (#[trigger] keys@[k]).0 == risk_keys(risks)[k].0 && keys@[k].1 == 0,
        decreases result.risks@.len() - i,
    {
        let key: usize = match result.risks[i].paragraph_index {
            Some(p) => p,
            None => usize::MAX,
        };
        keys.push((key as i128, 0));
        i = i + 1;
    }
    assert(key_ints(keys@) =~= risk_keys(risks));
    let order = stable_order(&keys);
    let ghost o = ints(order@);
    let mut marking = Marking {
        edits: Vec::new(),
        comments: Vec::new(),
        skipped: Vec::new(),
        applied_inline: 0,
        applied_comment: 0,
        rev_id: 1000,
        taken: Vec::new(),
    };
    assert(marking.model().edits =~= no_marks().edits);
    assert(marking.model().comments =~= no_marks().comments);
    assert(marking.model().skipped =~= no_marks().skipped);
    assert(marking.model().taken =~= no_marks().taken);
    let n: usize = order.len();
    let mut k: usize = 0;
    while k < n
        invariant
            k <= n,
            n == order@.len(),
            n == result.risks@.len(),
            b == encode_utf8(doc_xml@),
            risks == risk_models(result.risks@),
            o == ints(order@),
            o == order_of(risk_keys(risks), risks.len() as int),
            forall|q: int| 0 <= q < order@.len() ==> (#[trigger] order@[q]) < n,
            author_esc@ == escaped(author@),
            spans_model(spans@) == spans_from(b, paragraph_tag(), 0),
            marking.model() == marks_for(b, risks, author_esc@, date@, k as int),
        decreases n - k,
    {
        proof {
            no_risk_is_lost(b, risks, author_esc@, date@, k as int);
            assert(marking.model().inline == marking.applied_inline);
            assert(marking.model().whole == marking.applied_comment);
            assert(marking.model().rev == marking.rev_id);
        }
        let risk = &result.risks[order[k]];
        assert(risks[o[k as int]] == risk@);
        marking.mark(doc_xml, &spans, risk, author_esc.as_str(), date);
        k = k + 1;
    }
    proof {
        no_risk_is_lost(b, risks, author_esc@, date@, n as int);
        assert(marking.model().skipped.len() == marking.skipped@.len());
        assert(marking.model().comments.len() == marking.comments@.len());
    }
    let document_xml = apply_edits(doc_xml, &marking.edits);
    MarkedDocument {
        document_xml,
        comments: marking.comments,
        applied_inline: marking.applied_inline,
        applied_comment: marking.applied_comment,
        skipped: marking.skipped,
    }
}

/// The parts of the marked contract: the document replaced and, if there are
/// comments, their part set and entered.
pub open spec fn marked_parts(
    parts: Seq<(Seq<char>, Seq<u8>)>,
    doc: Seq<char>,
    risks: Seq<RiskModel>,
    author: Seq<char>,
    date: Seq<char>,
) -> Result<Seq<(Seq<char>, Seq<u8>)>, Seq<char>> {
    let b = encode_utf8(doc);
    let m = all_marks(b, risks, author, date);
    let with_document = with_part(parts, "word/document.xml"@, edited(b, m.edits));
    if m.comments.len() == 0 {
        Ok(with_document)
    } else {
        with_comments_entered(
            with_part(
                with_document,
                "word/comments.xml"@,
                encode_utf8(comments_part(m.comments, author, date)),
            ),
        )
    }
}

/// The bytes are a .docx with these parts and this document.
pub open spec fn reads_as(
    docx: Seq<u8>,
    parts: Seq<(Seq<char>, Seq<u8>)>,
    document: Seq<u8>,
) -> bool {
    match docx_contents(docx) {
        Ok((p, d)) => p == parts && encode_utf8(d) == document,
        Err(_) => false,
    }
}

/// A part is there with its contents.
pub open spec fn holds_part(
    parts: Seq<(Seq<char>, Seq<u8>)>,
    name: Seq<char>,
    data: Seq<u8>,
) -> bool {
    exists|k: int| 0 <= k < parts.len() && #[trigger] parts[k] == (name, data)
}

proof fn lemma_other_part_stays(
    parts: Seq<(Seq<char>, Seq<u8>)>,
    name: Seq<char>,
    data: Seq<u8>,
    other: Seq<char>,
    contents: Seq<u8>,
)
    requires
        holds_part(parts, other, contents),
        name != other,
    ensures
        holds_part(with_part(parts, name, data), other, contents),
{
    setting_a_part_keeps_the_others(parts, name, data);
    let k = choose|k: int| 0 <= k < parts.len() && #[trigger] parts[k] == (other, contents);
    let after = with_part(parts, name, data);
    assert(after[first_named(parts, name, 0)].0 == name);
    if k == first_named(parts, name, 0) {
        lemma_first_named(parts, name, 0);
    }
    assert(after[k] == (other, contents));
}

proof fn lemma_files_stay(parts: Seq<(Seq<char>, Seq<u8>)>, name: Seq<char>, data: Seq<u8>)
    requires
        all_files(parts),
        !is_dir_name(name),
    ensures
        all_files(with_part(parts, name, data)),
{
    setting_a_part_keeps_the_others(parts, name, data);
    let after = with_part(parts, name, data);
    let i = first_named(parts, name, 0);
    assert forall|k: int| 0 <= k < after.len() implies !is_dir_name((#[trigger] after[k]).0) by {
        if k != i {
            lemma_first_named(parts, name, 0);
            assert(after[k] == parts[k]);
        }
    }
}

/// The marked document is among the marked parts, and no part is named like a
/// directory if none was before.
proof fn lemma_marked_parts(
    parts: Seq<(Seq<char>, Seq<u8>)>,
    doc: Seq<char>,
    risks: Seq<RiskModel>,
    author: Seq<char>,
    date: Seq<char>,
)
    requires
        all_files(parts),
        marked_parts(parts, doc, risks, author, date) is Ok,
    ensures
        ({
            let after = marked_parts(parts, doc, risks, author, date)->Ok_0;
            let b = encode_utf8(doc);
            all_files(after) && holds_part(
                after,
                "word/document.xml"@,
                edited(b, all_marks(b, risks, author, date).edits),
            )
        }),
{
    let b = encode_utf8(doc);
    let m = all_marks(b, risks, author, date);
    let name = "word/document.xml"@;
    let data = edited(b, m.edits);
    let comments = "word/comments.xml"@;
    let types = "[Content_Types].xml"@;
    let rels = "word/_rels/document.xml.rels"@;
    reveal_strlit("word/document.xml");
    reveal_strlit("word/comments.xml");
    reveal_strlit("[Content_Types].xml");
    reveal_strlit("word/_rels/document.xml.rels");
    assert(name[5] == 'd' && comments[5] == 'c');
    let with_document = with_part(parts, name, data);
    setting_a_part_keeps_the_others(parts, name, data);
    lemma_first_named(parts, name, 0);
    assert(with_document[first_named(parts, name, 0)] == (name, data));
    assert(holds_part(with_document, name, data));
    lemma_files_stay(parts, name, data);
    if m.comments.len() > 0 {
        let text = encode_utf8(comments_part(m.comments, author, date));
        let with_text = with_part(with_document, comments, text);
        lemma_other_part_stays(with_document, comments, text, name, data);
        lemma_files_stay(with_document, comments, text);
        let i = first_named(with_text, types, 0);
        lemma_first_named(with_text, types, 0);
        let entered = encode_utf8(types_with_comments(decode_utf8(with_text[i].1)));
        let with_types = with_part(with_text, types, entered);
        lemma_other_part_stays(with_text, types, entered, name, data);
        lemma_files_stay(with_text, types, entered);
        let j = first_named(with_types, rels, 0);
        lemma_first_named(with_types, rels, 0);
        let related = if j < with_types.len() {
            encode_utf8(rels_with_comments(decode_utf8(with_types[j].1)))
        } else {
            encode_utf8(only_comments_rels())
        };
        lemma_other_part_stays(with_types, rels, related, name, data);
        lemma_files_stay(with_types, rels, related);
        assert(marked_parts(parts, doc, risks, author, date)->Ok_0 == with_part(
            with_types,
            rels,
            related,
        ));
    }
}

/// Marks the risks of a review in a contract, given as the bytes of its .docx,
/// in the name of an author and at a date.
///
/// The result, read again, holds the parts of the contract with the marks in
/// them and the marked document; every risk is counted once. It fails where the
/// contract cannot be read or lacks what the marks need, and where writing the
/// archive gives rise to a complaint, with that complaint.
pub fn build_redlined_docx(
    docx: Vec<u8>,
    result: &ContractReviewResult,
    author: &str,
    date: &str,
) -> (r: Result<RedlineOutcome, String>)
    ensures
        match docx_contents(docx@) {
            Err(e) => r matches Err(m) && m@ == e,
            Ok((parts, doc)) => {
                let risks = risk_models(result.risks@);
                let m = all_marks(encode_utf8(doc), risks, escaped(author@), date@);
                match marked_parts(parts, doc, risks, escaped(author@), date@) {
                    Err(e) => r matches Err(msg) && msg@ == e,
                    Ok(after) => complaint(r) == archive_complaint(after, 0) && (r matches Ok(o)
                        ==> lists(o.docx@, as_entries(after)) && reads_as(
                        o.docx@,
                        after,
                        edited(encode_utf8(doc), m.edits),
                    ) && o.applied_inline == m.inline && o.applied_comment == m.whole && texts(
                        o.skipped@,
                    ) == m.skipped),
                }
            },
        },
        r matches Ok(o) ==> o.applied_inline + o.applied_comment + o.skipped@.len()
            == result.risks@.len(),
{
    let (mut parts, doc_xml) = match read_docx_parts(docx) {
        Ok(p) => p,
        Err(e) => {
            return Err(e);
        },
    };
    let ghost before = parts_model(parts@);
    let marked = mark_document(doc_xml.as_str(), result, author, date);
    parts_set(&mut parts, "word/document.xml", bytes_of(marked.document_xml.as_str()));
    if marked.comments.len() > 0 {
        let author_esc = xml_escape(author);
        let comments_xml = build_comments_xml(&marked.comments, author_esc.as_str(), date);
        parts_set(&mut parts, "word/comments.xml", bytes_of(comments_xml.as_str()));
        match register_comments_part(&mut parts) {
            Ok(_) => {},
            Err(e) => {
                return Err(e);
            },
        }
    }
    assert(texts(marked.comments@).len() == marked.comments@.len());
    proof {
        lemma_marked_parts(before, doc_xml@, risk_models(result.risks@), escaped(author@), date@);
    }
    match write_docx_parts(&parts) {
        Ok(docx) => {
            proof {
                let after = parts_model(parts@);
                let data = encode_utf8(marked.document_xml@);
                let k = choose|k: int|
                    0 <= k < after.len() && #[trigger] after[k] == ("word/document.xml"@, data);
                encode_utf8_valid_utf8(marked.document_xml@);
                encode_utf8_decode_utf8(marked.document_xml@);
                whole_archives_read_again(after, k);
            }
            Ok(
                RedlineOutcome {
                    docx,
                    applied_inline: marked.applied_inline,
                    applied_comment: marked.applied_comment,
                    skipped: marked.skipped,
                },
            )
        },
        Err(e) => Err(e),
    }
}

/// Without changes a document stays as it is, and one change that fits replaces
/// just what it names.
pub proof fn one_change_replaces_what_it_names(b: Seq<u8>, e: EditModel)
    ensures
        edited(b, Seq::empty()) == b,
        fits(b, e) ==> edited(b, seq![e]) == b.subrange(0, e.start) + encode_utf8(e.text)
            + b.subrange(e.end, b.len() as int),
        !fits(b, e) ==> edited(b, seq![e]) == b,
{
    let one = seq![e];
    order_is_stable(edit_keys(one), 1);
    let o = order_of(edit_keys(one), 1);
    assert(o[0] == 0);
    reveal_with_fuel(after_edits, 2);
}

/// Only the document, its comments and the two lists that name the comments are
/// changed when a contract is marked: every other part stays as it was. The
/// comments are there, as they were made, if there are any.
pub proof fn marking_leaves_other_parts_alone(
    parts: Seq<(Seq<char>, Seq<u8>)>,
    doc: Seq<char>,
    risks: Seq<RiskModel>,
    author: Seq<char>,
    date: Seq<char>,
    name: Seq<char>,
    data: Seq<u8>,
)
    requires
        marked_parts(parts, doc, risks, author, date) is Ok,
    ensures
        ({
            let after = marked_parts(parts, doc, risks, author, date)->Ok_0;
            let m = all_marks(encode_utf8(doc), risks, author, date);
            &&& holds_part(parts, name, data) && name != "word/document.xml"@ && name
                != "word/comments.xml"@ && name != "[Content_Types].xml"@ && name
                != "word/_rels/document.xml.rels"@ ==> holds_part(after, name, data)
            &&& m.comments.len() == 0 && holds_part(parts, name, data) && name
                != "word/document.xml"@ ==> holds_part(after, name, data)
            &&& m.comments.len() > 0 ==> holds_part(
                after,
                "word/comments.xml"@,
                encode_utf8(comments_part(m.comments, author, date)),
            )
            &&& holds_part(after, "word/document.xml"@, edited(encode_utf8(doc), m.edits))
        }),
{
    let b = encode_utf8(doc);
    let m = all_marks(b, risks, author, date);
    let document = "word/document.xml"@;
    let made = edited(b, m.edits);
    let comments = "word/comments.xml"@;
    let types = "[Content_Types].xml"@;
    let rels = "word/_rels/document.xml.rels"@;
    reveal_strlit("word/document.xml");
    reveal_strlit("word/comments.xml");
    reveal_strlit("[Content_Types].xml");
    reveal_strlit("word/_rels/document.xml.rels");
    assert(document[5] == 'd' && comments[5] == 'c' && types[0] == '[' && rels[5] == '_');
    let p1 = with_part(parts, document, made);
    setting_a_part_keeps_the_others(parts, document, made);
    lemma_first_named(parts, document, 0);
    assert(p1[first_named(parts, document, 0)] == (document, made));
    assert(holds_part(p1, document, made));
    if holds_part(parts, name, data) && name != document {
        lemma_other_part_stays(parts, document, made, name, data);
    }
    if m.comments.len() > 0 {
        let text = encode_utf8(comments_part(m.comments, author, date));
        let p2 = with_part(p1, comments, text);
        setting_a_part_keeps_the_others(p1, comments, text);
        lemma_first_named(p1, comments, 0);
        assert(p2[first_named(p1, comments, 0)] == (comments, text));
        assert(holds_part(p2, comments, text));
        lemma_other_part_stays(p1, comments, text, document, made);
        let i = first_named(p2, types, 0);
        lemma_first_named(p2, types, 0);
        let entered = encode_utf8(types_with_comments(decode_utf8(p2[i].1)));
        let p3 = with_part(p2, types, entered);
        lemma_other_part_stays(p2, types, entered, document, made);
        lemma_other_part_stays(p2, types, entered, comments, text);
        let j = first_named(p3, rels, 0);
        lemma_first_named(p3, rels, 0);
        let related = if j < p3.len() {
            encode_utf8(rels_with_comments(decode_utf8(p3[j].1)))
        } else {
            encode_utf8(only_comments_rels())
        };
        lemma_other_part_stays(p3, rels, related, document, made);
        lemma_other_part_stays(p3, rels, related, comments, text);
        assert(marked_parts(parts, doc, risks, author, date)->Ok_0 == with_part(p3, rels, related));
        if holds_part(parts, name, data) && name != document && name != comments && name != types
            && name != rels {
            lemma_other_part_stays(p1, comments, text, name, data);
            lemma_other_part_stays(p2, types, entered, name, data);
            lemma_other_part_stays(p3, rels, related, name, data);
        }
    }
}

/// A comment on a whole paragraph begins inside it, behind a tag that is closed, and
/// behind its properties where it has any.
pub proof fn comments_begin_behind_the_start_tag(para: Seq<u8>)
    ensures
        0 <= comment_point(para) <= para.len(),
        comment_point(para) > 0 ==> para[comment_point(para) - 1] == GT,
        element_from(para, encode_utf8("w:pPr"@), 0) matches Some((s, e)) ==> comment_point(para)
            == e,
        element_from(para, encode_utf8("w:pPr"@), 0) is None ==> forall|i: int|
            0 <= i < comment_point(para) - 1 ==> (#[trigger] para[i]) != GT,
{
    lemma_element(para, encode_utf8("w:pPr"@), 0);
    lemma_find_from(para, seq![GT], 0);
    if let Some(k) = find(para, seq![GT]) {
        assert(para.subrange(k, k + 1)[0] == para[k]);
        assert forall|i: int| 0 <= i < k implies (#[trigger] para[i]) != GT by {
            if para[i] == GT {
                assert(para.subrange(i, i + 1) =~= seq![GT]);
                assert(occurs_at(para, seq![GT], i));
            }
        }
    }
}

} // verus!
