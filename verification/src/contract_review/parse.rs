//! Cutting the body of a contract into paragraphs and runs.
//!
//! There is one cut, [`find_paragraph_spans`], and both the text that is shown
//! to a model and the marks that are later set in the document go by it, so a
//! paragraph number means the same thing on both sides. Empty paragraphs are
//! kept and nothing inside a paragraph is trimmed.
use vstd::prelude::*;
use vstd::utf8::*;
use crate::bytes::{lemma_ascii_boundary, slice_text};
use crate::contract_review::events::{fold_run_events, read_events, run_state, xml_events};
use crate::text::{
    concat_all, contains, decimal, decimal_text, find_bytes, find_from, is_blank, join,
    lemma_find_from, occurs_at, parts_hold_in_the_whole, trim, trim_text,
};

verus! {

/// The byte of `<`.
pub const LT: u8 = 60;

/// The byte of `>`.
pub const GT: u8 = 62;

/// The byte of `/`.
pub const SLASH: u8 = 47;

/// A byte that may follow the name of a tag.
pub open spec fn ends_tag_name(b: u8) -> bool {
    b == GT || b == SLASH || b == 32 || b == 9 || b == 10 || b == 13
}

/// `<` and the name.
pub open spec fn open_mark(tag: Seq<u8>) -> Seq<u8> {
    seq![LT] + tag
}

/// `</`, the name and `>`.
pub open spec fn close_mark(tag: Seq<u8>) -> Seq<u8> {
    (seq![LT, SLASH] + tag).push(GT)
}

/// The first start tag at or after `from`, looking on behind each longer name
/// that only begins with `tag`.
pub open spec fn start_tag_from(b: Seq<u8>, tag: Seq<u8>, from: int) -> Option<int>
    decreases b.len() - from + 1,
{
    match find_from(b, open_mark(tag), from) {
        None => None,
        Some(s) => {
            let after = s + open_mark(tag).len();
            if after < b.len() && ends_tag_name(b[after]) {
                Some(s)
            } else if from <= s && after <= b.len() {
                start_tag_from(b, tag, after)
            } else {
                None
            }
        },
    }
}

/// The bytes `[start, end)` of the first element named `tag` at or after `from`.
/// A start tag that ends in `/>` is the whole element; otherwise the element
/// ends with the next end tag.
pub open spec fn element_from(b: Seq<u8>, tag: Seq<u8>, from: int) -> Option<(int, int)> {
    match start_tag_from(b, tag, from) {
        None => None,
        Some(s) => match find_from(b, seq![GT], s + open_mark(tag).len()) {
            None => None,
            Some(g) => if b[g - 1] == SLASH {
                Some((s, g + 1))
            } else {
                match find_from(b, close_mark(tag), g + 1) {
                    None => None,
                    Some(c) => Some((s, c + close_mark(tag).len())),
                }
            },
        },
    }
}

/// A start tag is found where `<` and the name stand, followed by a byte that
/// ends the name.
pub proof fn lemma_start_tag(b: Seq<u8>, tag: Seq<u8>, from: int)
    requires
        0 <= from,
    ensures
        start_tag_from(b, tag, from) matches Some(s) ==> from <= s && occurs_at(
            b,
            open_mark(tag),
            s,
        ) && s + open_mark(tag).len() < b.len() && ends_tag_name(b[s + open_mark(tag).len()]),
    decreases b.len() - from + 1,
{
    lemma_find_from(b, open_mark(tag), from);
    if let Some(s) = find_from(b, open_mark(tag), from) {
        let after = s + open_mark(tag).len();
        if !(after < b.len() && ends_tag_name(b[after])) && from <= s && after <= b.len() {
            lemma_start_tag(b, tag, after);
        }
    }
}

/// Every element lies inside the text at or after the place where the search
/// began, starts with `<` and its name, and ends with `>`.
pub proof fn lemma_element(b: Seq<u8>, tag: Seq<u8>, from: int)
    requires
        0 <= from,
    ensures
        element_from(b, tag, from) matches Some((s, e)) ==> from <= s < e <= b.len() && s + 2
            <= e && occurs_at(b, open_mark(tag), s) && b[s] == LT && b[e - 1] == GT,
{
    lemma_start_tag(b, tag, from);
    if let Some(s) = start_tag_from(b, tag, from) {
        let after = s + open_mark(tag).len();
        lemma_find_from(b, seq![GT], after);
        assert(open_mark(tag)[0] == LT);
        assert(b.subrange(s, s + open_mark(tag).len())[0] == b[s]);
        if let Some(g) = find_from(b, seq![GT], after) {
            assert(b.subrange(g, g + 1)[0] == b[g]);
            lemma_find_from(b, close_mark(tag), g + 1);
            if let Some(c) = find_from(b, close_mark(tag), g + 1) {
                let m = close_mark(tag);
                assert(b.subrange(c, c + m.len())[m.len() - 1] == b[c + m.len() - 1]);
            }
        }
    }
}

fn open_bytes(tag: &[u8]) -> (r: Vec<u8>)
    ensures
        r@ == open_mark(tag@),
{
    let mut r: Vec<u8> = Vec::new();
    r.push(LT);
    r.extend_from_slice(tag);
    assert(r@ =~= open_mark(tag@));
    r
}

fn close_bytes(tag: &[u8]) -> (r: Vec<u8>)
    ensures
        r@ == close_mark(tag@),
{
    let mut r: Vec<u8> = Vec::new();
    r.push(LT);
    r.push(SLASH);
    r.extend_from_slice(tag);
    r.push(GT);
    assert(r@ =~= close_mark(tag@));
    r
}

/// The bytes `[start, end)` of the next element named `tag` in `xml` at or
/// after `from`, paired or closed in itself.
///
/// Only `<tag` followed by `>`, white space or `/` counts, so a longer name
/// that begins with `tag` is passed over. Elements of one name are taken not
/// to nest. There is none if `from` is not the place of a character.
pub fn next_element_span(xml: &str, tag: &str, from: usize) -> (r: Option<(usize, usize)>)
    ensures
        r matches Some((s, e)) ==> is_char_boundary(encode_utf8(xml@), from as int) && element_from(
            encode_utf8(xml@),
            encode_utf8(tag@),
            from as int,
        ) == Some((s as int, e as int)),
        r is None ==> !is_char_boundary(encode_utf8(xml@), from as int) || element_from(
            encode_utf8(xml@),
            encode_utf8(tag@),
            from as int,
        ) is None,
{
    if !xml.is_char_boundary(from) {
        return None;
    }
    let bytes = xml.as_bytes();
    let name = tag.as_bytes();
    let open = open_bytes(name);
    let close = close_bytes(name);
    let gt: Vec<u8> = vec![GT];
    assert(gt@ =~= seq![GT]);
    let ghost b = bytes@;
    let ghost t = name@;
    let mut search: usize = from;
    loop
        invariant
            b == bytes@,
            t == name@,
            b == encode_utf8(xml@),
            t == encode_utf8(tag@),
            is_char_boundary(b, from as int),
            open@ == open_mark(t),
            close@ == close_mark(t),
            gt@ == seq![GT],
            start_tag_from(b, t, from as int) == start_tag_from(b, t, search as int),
        decreases b.len() - search + 1,
    {
        proof {
            lemma_find_from(b, open_mark(t), search as int);
        }
        let start: usize = match find_bytes(bytes, open.as_slice(), search) {
            None => {
                return None;
            },
            Some(k) => k,
        };
        let n: usize = bytes.len();
        let after: usize = start + open.len();
        let next_ok = after < n && (bytes[after] == GT || bytes[after] == SLASH || bytes[after]
            == 32 || bytes[after] == 9 || bytes[after] == 10 || bytes[after] == 13);
        if !next_ok {
            search = after;
            continue;
        }
        proof {
            lemma_find_from(b, seq![GT], after as int);
            lemma_start_tag(b, t, search as int);
        }
        let g: usize = match find_bytes(bytes, gt.as_slice(), after) {
            None => {
                return None;
            },
            Some(k) => k,
        };
        let open_end: usize = g + 1;
        if bytes[g - 1] == SLASH {
            return Some((start, open_end));
        }
        proof {
            lemma_find_from(b, close_mark(t), open_end as int);
        }
        let c: usize = match find_bytes(bytes, close.as_slice(), open_end) {
            None => {
                return None;
            },
            Some(k) => k,
        };
        return Some((start, c + close.len()));
    }
}

/// The elements named `tag` at or after `from`, each searched for behind the
/// one before.
pub open spec fn spans_from(b: Seq<u8>, tag: Seq<u8>, from: int) -> Seq<(int, int)>
    decreases b.len() - from,
{
    match element_from(b, tag, from) {
        Some((s, e)) => if from < e && e <= b.len() {
            seq![(s, e)] + spans_from(b, tag, e)
        } else {
            Seq::empty()
        },
        None => Seq::empty(),
    }
}

/// The name of a paragraph element.
pub open spec fn paragraph_tag() -> Seq<u8> {
    encode_utf8("w:p"@)
}

/// The name of a run element.
pub open spec fn run_tag() -> Seq<u8> {
    encode_utf8("w:r"@)
}

/// The name of the formatting element of a run.
pub open spec fn format_tag() -> Seq<u8> {
    encode_utf8("w:rPr"@)
}

pub open spec fn spans_model(v: Seq<(usize, usize)>) -> Seq<(int, int)> {
    Seq::new(v.len(), |i: int| (v[i].0 as int, v[i].1 as int))
}

/// The spans of one name lie inside the text, one behind the other, and each
/// begins with `<` and ends with `>`.
pub proof fn spans_are_ordered(b: Seq<u8>, tag: Seq<u8>, from: int)
    requires
        0 <= from,
    ensures
        forall|i: int|
            #![trigger spans_from(b, tag, from)[i]]
            0 <= i < spans_from(b, tag, from).len() ==> {
                let (s, e) = spans_from(b, tag, from)[i];
                from <= s && s + 2 <= e && e <= b.len() && b[s] == LT && b[e - 1] == GT
                    && occurs_at(b, open_mark(tag), s)
            },
        forall|i: int, j: int|
            #![trigger spans_from(b, tag, from)[i], spans_from(b, tag, from)[j]]
            0 <= i < j < spans_from(b, tag, from).len() ==> spans_from(b, tag, from)[i].1
                <= spans_from(b, tag, from)[j].0,
    decreases b.len() - from,
{
    lemma_element(b, tag, from);
    if let Some((s, e)) = element_from(b, tag, from) {
        spans_are_ordered(b, tag, e);
        let rest = spans_from(b, tag, e);
        let all = spans_from(b, tag, from);
        assert(all == seq![(s, e)] + rest);
        assert forall|i: int| 0 <= i < all.len() implies {
            let (s1, e1) = #[trigger] all[i];
            from <= s1 && s1 + 2 <= e1 && e1 <= b.len() && b[s1] == LT && b[e1 - 1] == GT
                && occurs_at(b, open_mark(tag), s1)
        } by {
            if i > 0 {
                assert(all[i] == rest[i - 1]);
            }
        }
        assert forall|i: int, j: int| 0 <= i < j < all.len() implies (#[trigger] all[i]).1 <= (
        #[trigger] all[j]).0 by {
            assert(all[j] == rest[j - 1]);
            if i > 0 {
                assert(all[i] == rest[i - 1]);
            }
        }
    }
}

/// Both ends of every span are places of characters.
pub proof fn spans_are_boundaries(b: Seq<u8>, tag: Seq<u8>, from: int)
    requires
        valid_utf8(b),
        0 <= from,
    ensures
        forall|i: int|
            #![trigger spans_from(b, tag, from)[i]]
            0 <= i < spans_from(b, tag, from).len() ==> is_char_boundary(
                b,
                spans_from(b, tag, from)[i].0,
            ) && is_char_boundary(b, spans_from(b, tag, from)[i].1),
{
    spans_are_ordered(b, tag, from);
    assert forall|i: int|
        #![trigger spans_from(b, tag, from)[i]]
        0 <= i < spans_from(b, tag, from).len() implies is_char_boundary(
        b,
        spans_from(b, tag, from)[i].0,
    ) && is_char_boundary(b, spans_from(b, tag, from)[i].1) by {
        let (s, e) = spans_from(b, tag, from)[i];
        lemma_ascii_boundary(b, s);
        lemma_ascii_boundary(b, e - 1);
    }
}

/// The bytes `[start, end)` of every paragraph of a document, in order, empty
/// ones too. This is the only cut into paragraphs.
pub fn find_paragraph_spans(doc_xml: &str) -> (r: Vec<(usize, usize)>)
    ensures
        spans_model(r@) == spans_from(encode_utf8(doc_xml@), paragraph_tag(), 0),
{
    find_spans(doc_xml, "w:p")
}

/// The bytes `[start, end)` of every element of one name, in order.
fn find_spans(xml: &str, tag: &str) -> (r: Vec<(usize, usize)>)
    ensures
        spans_model(r@) == spans_from(encode_utf8(xml@), encode_utf8(tag@), 0),
{
    let ghost b = encode_utf8(xml@);
    let ghost t = encode_utf8(tag@);
    let mut spans: Vec<(usize, usize)> = Vec::new();
    let mut from: usize = 0;
    proof {
        encode_utf8_valid_utf8(xml@);
        is_char_boundary_start_end_of_seq(b);
        assert(spans_model(spans@) + spans_from(b, t, 0) =~= spans_from(b, t, 0));
    }
    loop
        invariant
            b == encode_utf8(xml@),
            t == encode_utf8(tag@),
            valid_utf8(b),
            is_char_boundary(b, from as int),
            from <= b.len(),
            spans_model(spans@) + spans_from(b, t, from as int) == spans_from(b, t, 0),
        ensures
            spans_model(spans@) == spans_from(b, t, 0),
        decreases b.len() - from,
    {
        proof {
            lemma_element(b, t, from as int);
        }
        match next_element_span(xml, tag, from) {
            None => {
                assert(spans_model(spans@) + Seq::<(int, int)>::empty() =~= spans_model(spans@));
                break;
            },
            Some((start, end)) => {
                let ghost done = spans_model(spans@);
                spans.push((start, end));
                proof {
                    lemma_ascii_boundary(b, end - 1);
                    assert(spans_model(spans@) =~= done.push((start as int, end as int)));
                    assert(spans_model(spans@) + spans_from(b, t, end as int) =~= done
                        + spans_from(b, t, from as int));
                }
                from = end;
            },
        }
    }
    spans
}

/// What is known of one run of a paragraph.
pub struct PieceModel {
    pub text: Seq<char>,
    pub rpr: Seq<char>,
    pub simple: bool,
    pub start: int,
    pub end: int,
}

/// A run of a paragraph, as the marking of a document needs it.
pub struct RunPiece {
    /// The text of the run, with a line feed for each break and a tab for each
    /// tab.
    pub text: String,
    /// The formatting element of the run with its tags, or nothing.
    pub rpr_xml: String,
    /// Whether the run holds nothing but formatting, text, breaks and tabs.
    pub simple: bool,
    /// The bytes `[start, end)` of the run in the XML of its paragraph.
    pub span: (usize, usize),
}

impl View for RunPiece {
    type V = PieceModel;

    open spec fn view(&self) -> PieceModel {
        PieceModel {
            text: self.text@,
            rpr: self.rpr_xml@,
            simple: self.simple,
            start: self.span.0 as int,
            end: self.span.1 as int,
        }
    }
}

/// The run that stands in a paragraph at a span.
pub open spec fn piece_at(b: Seq<u8>, span: (int, int)) -> PieceModel {
    let run = b.subrange(span.0, span.1);
    let state = run_state(xml_events(decode_utf8(run)));
    PieceModel {
        text: state.text,
        rpr: match element_from(run, format_tag(), 0) {
            Some((s, e)) => decode_utf8(run.subrange(s, e)),
            None => Seq::empty(),
        },
        simple: state.simple,
        start: span.0,
        end: span.1,
    }
}

/// The runs of a paragraph.
pub open spec fn run_pieces(b: Seq<u8>) -> Seq<PieceModel> {
    let spans = spans_from(b, run_tag(), 0);
    Seq::new(spans.len(), |i: int| piece_at(b, spans[i]))
}

pub open spec fn pieces_model(v: Seq<RunPiece>) -> Seq<PieceModel> {
    Seq::new(v.len(), |i: int| v[i]@)
}

/// The text of a run and whether it is plain.
fn run_text_and_simple(run_xml: &str) -> (r: (String, bool))
    ensures
        r.0@ == run_state(xml_events(run_xml@)).text,
        r.1 == run_state(xml_events(run_xml@)).simple,
{
    let events = read_events(run_xml);
    fold_run_events(&events)
}

/// The runs of a paragraph, in order.
pub fn find_run_pieces(para_xml: &str) -> (r: Vec<RunPiece>)
    ensures
        pieces_model(r@) == run_pieces(encode_utf8(para_xml@)),
{
    let ghost b = encode_utf8(para_xml@);
    let spans = find_spans(para_xml, "w:r");
    let ghost model = spans_from(b, run_tag(), 0);
    proof {
        encode_utf8_valid_utf8(para_xml@);
        spans_are_ordered(b, run_tag(), 0);
        spans_are_boundaries(b, run_tag(), 0);
    }
    let mut pieces: Vec<RunPiece> = Vec::new();
    let mut i: usize = 0;
    while i < spans.len()
        invariant
            i <= spans@.len(),
            b == encode_utf8(para_xml@),
            model == spans_from(b, run_tag(), 0),
            spans_model(spans@) == model,
            pieces@.len() == i,
            forall|k: int|
                0 <= k < model.len() ==> is_char_boundary(b, (#[trigger] model[k]).0)
                    && is_char_boundary(b, model[k].1) && 0 <= model[k].0 <= model[k].1 <= b.len(),
            forall|k: int| 0 <= k < i ==> (#[trigger] pieces@[k])@ == piece_at(b, model[k]),
        decreases spans@.len() - i,
    {
        let (start, end) = spans[i];
        assert(spans_model(spans@)[i as int] == (start as int, end as int));
        assert(model[i as int] == (start as int, end as int));
        let run_xml = slice_text(para_xml, start, end);
        let (text, simple) = run_text_and_simple(run_xml);
        let rpr_xml = element_text(run_xml, "w:rPr");
        let piece = RunPiece { text, rpr_xml, simple, span: (start, end) };
        assert(piece@ == piece_at(b, model[i as int]));
        pieces.push(piece);
        i = i + 1;
    }
    assert(pieces_model(pieces@) =~= run_pieces(b));
    pieces
}

/// The first element of a name with its tags, or nothing.
fn element_text(xml: &str, tag: &str) -> (r: String)
    ensures
        r@ == match element_from(encode_utf8(xml@), encode_utf8(tag@), 0) {
            Some((s, e)) => decode_utf8(encode_utf8(xml@).subrange(s, e)),
            None => Seq::empty(),
        },
{
    let ghost b = encode_utf8(xml@);
    proof {
        encode_utf8_valid_utf8(xml@);
        is_char_boundary_start_end_of_seq(b);
        lemma_element(b, encode_utf8(tag@), 0);
    }
    match next_element_span(xml, tag, 0) {
        Some((s, e)) => {
            proof {
                lemma_ascii_boundary(b, s as int);
                lemma_ascii_boundary(b, e - 1);
            }
            String::from_str(slice_text(xml, s, e))
        },
        None => String::new(),
    }
}

/// The text of one run.
pub struct RunText {
    pub text: String,
}

/// A paragraph. `index` is its place in the document, from 0, empty paragraphs
/// counted.
pub struct Paragraph {
    pub index: usize,
    pub runs: Vec<RunText>,
    /// The bytes `[start, end)` of the paragraph in the document.
    pub span: (usize, usize),
}

/// What is known of one paragraph.
pub struct ParagraphModel {
    pub index: int,
    pub runs: Seq<Seq<char>>,
    pub start: int,
    pub end: int,
}

impl ParagraphModel {
    /// The texts of the runs one after the other, not trimmed.
    pub open spec fn text(self) -> Seq<char> {
        concat_all(self.runs)
    }
}

pub open spec fn run_texts(v: Seq<RunText>) -> Seq<Seq<char>> {
    Seq::new(v.len(), |i: int| v[i].text@)
}

impl View for Paragraph {
    type V = ParagraphModel;

    open spec fn view(&self) -> ParagraphModel {
        ParagraphModel {
            index: self.index as int,
            runs: run_texts(self.runs@),
            start: self.span.0 as int,
            end: self.span.1 as int,
        }
    }
}

pub open spec fn paragraph_models(v: Seq<Paragraph>) -> Seq<ParagraphModel> {
    Seq::new(v.len(), |i: int| v[i]@)
}

/// The texts of the runs of a paragraph given by its XML.
pub open spec fn piece_texts(b: Seq<u8>) -> Seq<Seq<char>> {
    let pieces = run_pieces(b);
    Seq::new(pieces.len(), |i: int| pieces[i].text)
}

/// The paragraph number `i` of a document.
pub open spec fn paragraph_at(b: Seq<u8>, i: int) -> ParagraphModel {
    let (s, e) = spans_from(b, paragraph_tag(), 0)[i];
    ParagraphModel { index: i, runs: piece_texts(b.subrange(s, e)), start: s, end: e }
}

/// The paragraphs of a document.
pub open spec fn paragraphs_of(b: Seq<u8>) -> Seq<ParagraphModel> {
    Seq::new(spans_from(b, paragraph_tag(), 0).len(), |i: int| paragraph_at(b, i))
}

impl Paragraph {
    /// The texts of the runs one after the other, not trimmed.
    pub fn text(&self) -> (r: String)
        ensures
            r@ == self@.text(),
    {
        let mut out = String::new();
        let mut i: usize = 0;
        while i < self.runs.len()
            invariant
                i <= self.runs@.len(),
                out@ == concat_all(run_texts(self.runs@).subrange(0, i as int)),
            decreases self.runs@.len() - i,
        {
            let ghost next = run_texts(self.runs@).subrange(0, i + 1);
            assert(next.drop_last() =~= run_texts(self.runs@).subrange(0, i as int));
            out.append(self.runs[i].text.as_str());
            i = i + 1;
        }
        assert(run_texts(self.runs@).subrange(0, i as int) =~= run_texts(self.runs@));
        out
    }
}

/// The paragraphs of a document, in order.
pub fn parse_paragraphs(doc_xml: &str) -> (r: Vec<Paragraph>)
    ensures
        paragraph_models(r@) == paragraphs_of(encode_utf8(doc_xml@)),
{
    let ghost b = encode_utf8(doc_xml@);
    let spans = find_paragraph_spans(doc_xml);
    let ghost model = spans_from(b, paragraph_tag(), 0);
    proof {
        encode_utf8_valid_utf8(doc_xml@);
        spans_are_ordered(b, paragraph_tag(), 0);
        spans_are_boundaries(b, paragraph_tag(), 0);
    }
    let mut paragraphs: Vec<Paragraph> = Vec::new();
    let mut i: usize = 0;
    while i < spans.len()
        invariant
            i <= spans@.len(),
            b == encode_utf8(doc_xml@),
            model == spans_from(b, paragraph_tag(), 0),
            spans_model(spans@) == model,
            paragraphs@.len() == i,
            forall|k: int|
                0 <= k < model.len() ==> is_char_boundary(b, (#[trigger] model[k]).0)
                    && is_char_boundary(b, model[k].1) && 0 <= model[k].0 <= model[k].1 <= b.len(),
            forall|k: int| 0 <= k < i ==> (#[trigger] paragraphs@[k])@ == paragraph_at(b, k),
        decreases spans@.len() - i,
    {
        let (start, end) = spans[i];
        assert(spans_model(spans@)[i as int] == (start as int, end as int));
        assert(model[i as int] == (start as int, end as int));
        let para_xml = slice_text(doc_xml, start, end);
        let pieces = find_run_pieces(para_xml);
        let runs = take_texts(pieces);
        let p = Paragraph { index: i, runs, span: (start, end) };
        assert(p@.runs =~= piece_texts(b.subrange(start as int, end as int)));
        paragraphs.push(p);
        i = i + 1;
    }
    assert(paragraph_models(paragraphs@) =~= paragraphs_of(b));
    paragraphs
}

fn take_texts(pieces: Vec<RunPiece>) -> (r: Vec<RunText>)
    ensures
        r@.len() == pieces@.len(),
        forall|i: int| 0 <= i < r@.len() ==> (#[trigger] r@[i]).text@ == pieces@[i].text@,
{
    let mut r: Vec<RunText> = Vec::new();
    let mut i: usize = 0;
    while i < pieces.len()
        invariant
            i <= pieces@.len(),
            r@.len() == i,
            forall|k: int| 0 <= k < i ==> (#[trigger] r@[k]).text@ == pieces@[k].text@,
        decreases pieces@.len() - i,
    {
        r.push(RunText { text: pieces[i].text.clone() });
        i = i + 1;
    }
    r
}

/// A contract that was read.
pub struct ParsedContract {
    pub paragraphs: Vec<Paragraph>,
    /// The document itself, which the marks are set in later.
    pub raw_document_xml: String,
}

/// The trimmed texts of the paragraphs that hold more than white space.
pub open spec fn kept_texts(ps: Seq<ParagraphModel>) -> Seq<Seq<char>>
    decreases ps.len(),
{
    if ps.len() == 0 {
        Seq::empty()
    } else {
        let t = trim(ps.last().text());
        if t.len() == 0 {
            kept_texts(ps.drop_last())
        } else {
            kept_texts(ps.drop_last()).push(t)
        }
    }
}

/// Each kept text on a line of its own behind the number of its paragraph.
pub open spec fn numbered_lines(ps: Seq<ParagraphModel>) -> Seq<char>
    decreases ps.len(),
{
    if ps.len() == 0 {
        Seq::empty()
    } else {
        let t = trim(ps.last().text());
        if t.len() == 0 {
            numbered_lines(ps.drop_last())
        } else {
            numbered_lines(ps.drop_last()) + "[P"@ + decimal(ps.last().index as nat) + "] "@ + t
                + "\n"@
        }
    }
}

proof fn lemma_join_empty(parts: Seq<Seq<char>>, sep: Seq<char>)
    requires
        forall|i: int| 0 <= i < parts.len() ==> (#[trigger] parts[i]).len() > 0,
    ensures
        join(parts, sep).len() == 0 <==> parts.len() == 0,
    decreases parts.len(),
{
    if parts.len() > 1 {
        lemma_join_empty(parts.drop_last(), sep);
    }
}

proof fn lemma_kept_nonempty(ps: Seq<ParagraphModel>)
    ensures
        forall|i: int| 0 <= i < kept_texts(ps).len() ==> (#[trigger] kept_texts(ps)[i]).len() > 0,
    decreases ps.len(),
{
    if ps.len() > 0 {
        lemma_kept_nonempty(ps.drop_last());
        let before = kept_texts(ps.drop_last());
        assert forall|i: int| 0 <= i < kept_texts(ps).len() implies (#[trigger] kept_texts(
            ps,
        )[i]).len() > 0 by {
            if i < before.len() {
                assert(kept_texts(ps)[i] == before[i]);
            }
        }
    }
}

impl ParsedContract {
    /// The paragraphs as data.
    pub open spec fn model(&self) -> Seq<ParagraphModel> {
        paragraph_models(self.paragraphs@)
    }

    /// The whole text, an empty line between paragraphs, each trimmed and the
    /// empty ones left out.
    pub fn plain_text(&self) -> (r: String)
        ensures
            r@ == join(kept_texts(self.model()), "\n\n"@),
    {
        let mut out = String::new();
        let ghost m = self.model();
        let mut i: usize = 0;
        while i < self.paragraphs.len()
            invariant
                i <= self.paragraphs@.len(),
                m == self.model(),
                out@ == join(kept_texts(m.subrange(0, i as int)), "\n\n"@),
            decreases self.paragraphs@.len() - i,
        {
            let ghost done = m.subrange(0, i as int);
            let ghost next = m.subrange(0, i + 1);
            assert(next.drop_last() =~= done);
            let whole = self.paragraphs[i].text();
            let t = trim_text(whole.as_str());
            if t.as_str().unicode_len() > 0 {
                proof {
                    lemma_kept_nonempty(done);
                    lemma_join_empty(kept_texts(done), "\n\n"@);
                    assert(kept_texts(next).drop_last() =~= kept_texts(done));
                }
                if out.as_str().unicode_len() > 0 {
                    out.append("\n\n");
                }
                out.append(t.as_str());
                assert(out@ =~= join(kept_texts(next), "\n\n"@));
            }
            i = i + 1;
        }
        assert(m.subrange(0, i as int) =~= m);
        out
    }

    /// The text for a model: each paragraph that is not empty on a line of its
    /// own behind `[P` and its index and `]`. The index is that of the
    /// document, so it can be used on `paragraphs` as it is.
    pub fn numbered_text(&self) -> (r: String)
        ensures
            r@ == numbered_lines(self.model()),
    {
        let mut out = String::new();
        let ghost m = self.model();
        let mut i: usize = 0;
        while i < self.paragraphs.len()
            invariant
                i <= self.paragraphs@.len(),
                m == self.model(),
                out@ == numbered_lines(m.subrange(0, i as int)),
            decreases self.paragraphs@.len() - i,
        {
            assert(m.subrange(0, i + 1).drop_last() =~= m.subrange(0, i as int));
            let whole = self.paragraphs[i].text();
            let t = trim_text(whole.as_str());
            if t.as_str().unicode_len() > 0 {
                out.append("[P");
                let number = decimal_text(self.paragraphs[i].index as u128);
                out.append(number.as_str());
                out.append("] ");
                out.append(t.as_str());
                out.append("\n");
            }
            i = i + 1;
        }
        assert(m.subrange(0, i as int) =~= m);
        out
    }

    /// How many paragraphs hold more than white space.
    pub fn non_empty_count(&self) -> (r: usize)
        ensures
            r == kept_texts(self.model()).len(),
    {
        let mut count: usize = 0;
        let ghost m = self.model();
        let mut i: usize = 0;
        while i < self.paragraphs.len()
            invariant
                i <= self.paragraphs@.len(),
                m == self.model(),
                count <= i,
                count == kept_texts(m.subrange(0, i as int)).len(),
            decreases self.paragraphs@.len() - i,
        {
            assert(m.subrange(0, i + 1).drop_last() =~= m.subrange(0, i as int));
            let whole = self.paragraphs[i].text();
            let t = trim_text(whole.as_str());
            if t.as_str().unicode_len() > 0 {
                count = count + 1;
            }
            i = i + 1;
        }
        assert(m.subrange(0, i as int) =~= m);
        count
    }
}

/// Every paragraph that says something is shown to a model on a line of its own,
/// behind its own number.
pub proof fn every_paragraph_is_shown_under_its_number(ps: Seq<ParagraphModel>, i: int)
    requires
        0 <= i < ps.len(),
        !is_blank(concat_all(ps[i].runs)),
    ensures
        contains(
            numbered_lines(ps),
            "[P"@ + decimal(ps[i].index as nat) + "] "@ + trim(concat_all(ps[i].runs)) + "\n"@,
        ),
    decreases ps.len(),
{
    let w = ps.drop_last();
    let p = ps.last();
    let t = trim(concat_all(p.runs));
    let want = line_for(ps[i].index as nat, trim(concat_all(ps[i].runs)));
    lemma_one_more_line(ps);
    if i < w.len() {
        assert(w[i] == ps[i]);
        every_paragraph_is_shown_under_its_number(w, i);
        if t.len() > 0 {
            lemma_holds_in_front(numbered_lines(w), line_for(p.index as nat, t), want);
        }
    } else {
        lemma_holds_in_front(numbered_lines(w), want, want);
    }
}

#[verifier::opaque]
spec fn line_for(index: nat, text: Seq<char>) -> Seq<char> {
    "[P"@ + decimal(index) + "] "@ + text + "\n"@
}

proof fn lemma_one_more_line(ps: Seq<ParagraphModel>)
    requires
        ps.len() > 0,
    ensures
        ({
            let t = trim(concat_all(ps.last().runs));
            &&& t.len() == 0 ==> numbered_lines(ps) == numbered_lines(ps.drop_last())
            &&& t.len() > 0 ==> numbered_lines(ps) == numbered_lines(ps.drop_last()) + line_for(
                ps.last().index as nat,
                t,
            )
        }),
        forall|index: nat, text: Seq<char>| #[trigger]
            line_for(index, text) == "[P"@ + decimal(index) + "] "@ + text + "\n"@,
{
    reveal(line_for);
    let t = trim(concat_all(ps.last().runs));
    assert(t == trim(ps.last().text()));
    if t.len() > 0 {
        lemma_line_up(
            numbered_lines(ps.drop_last()),
            "[P"@,
            decimal(ps.last().index as nat),
            "] "@,
            t,
            "\n"@,
        );
    }
}

proof fn lemma_line_up(
    a: Seq<char>,
    b: Seq<char>,
    c: Seq<char>,
    d: Seq<char>,
    e: Seq<char>,
    f: Seq<char>,
)
    ensures
        a + b + c + d + e + f == a + (b + c + d + e + f),
{
    assert(a + b + c + d + e + f =~= a + (b + c + d + e + f));
}

proof fn lemma_holds_in_front(a: Seq<char>, b: Seq<char>, pat: Seq<char>)
    ensures
        contains(a, pat) || contains(b, pat) ==> contains(a + b, pat),
        contains(a + b, b),
{
    parts_hold_in_the_whole(Seq::empty(), a, b, pat);
    parts_hold_in_the_whole(a, b, Seq::empty(), pat);
    assert(Seq::empty() + a + b =~= a + b);
    assert(a + b + Seq::empty() =~= a + b);
}

/// The text of every paragraph that says something is among the texts of the
/// contract.
pub proof fn every_text_is_kept(ps: Seq<ParagraphModel>, i: int)
    requires
        0 <= i < ps.len(),
        !is_blank(concat_all(ps[i].runs)),
    ensures
        kept_texts(ps).contains(trim(concat_all(ps[i].runs))),
    decreases ps.len(),
{
    let w = ps.drop_last();
    let t = trim(concat_all(ps[i].runs));
    let k = kept_texts(ps);
    if i < w.len() {
        assert(w[i] == ps[i]);
        every_text_is_kept(w, i);
        let o = kept_texts(w);
        let q = choose|q: int| 0 <= q < o.len() && o[q] == t;
        assert(k[q] == t);
    } else {
        assert(k[k.len() - 1] == t);
    }
}

/// One more paragraph that says something is one more text.
pub proof fn full_paragraphs_are_counted(ps: Seq<ParagraphModel>, p: ParagraphModel)
    requires
        !is_blank(concat_all(p.runs)),
    ensures
        kept_texts(ps.push(p)) == kept_texts(ps).push(trim(concat_all(p.runs))),
{
    assert(ps.push(p).drop_last() =~= ps);
}

/// Paragraphs that say nothing are neither shown nor counted.
pub proof fn empty_paragraphs_are_left_out(ps: Seq<ParagraphModel>, p: ParagraphModel)
    requires
        is_blank(concat_all(p.runs)),
    ensures
        numbered_lines(ps.push(p)) == numbered_lines(ps),
        kept_texts(ps.push(p)) == kept_texts(ps),
{
    assert(ps.push(p).drop_last() =~= ps);
}

/// The paragraphs that are reviewed are numbered from zero without a gap, each
/// lies where its span says, and its runs are those of these bytes.
pub proof fn paragraphs_are_numbered_by_place(b: Seq<u8>, i: int)
    requires
        0 <= i < paragraphs_of(b).len(),
    ensures
        paragraphs_of(b).len() == spans_from(b, paragraph_tag(), 0).len(),
        paragraphs_of(b)[i].index == i,
        (paragraphs_of(b)[i].start, paragraphs_of(b)[i].end) == spans_from(
            b,
            paragraph_tag(),
            0,
        )[i],
        ({
            let pieces = run_pieces(
                b.subrange(paragraphs_of(b)[i].start, paragraphs_of(b)[i].end),
            );
            paragraphs_of(b)[i].runs.len() == pieces.len() && forall|k: int|
                0 <= k < pieces.len() ==> #[trigger] paragraphs_of(b)[i].runs[k] == pieces[k].text
        }),
{
}

/// An element is found whole: from its start tag to the end tag behind it, wherever
/// it stands.
pub proof fn elements_are_found_whole(
    before: Seq<u8>,
    tag: Seq<u8>,
    inside: Seq<u8>,
    after: Seq<u8>,
)
    requires
        tag.len() > 0,
        tag.last() != SLASH,
        !tag.contains(GT),
        forall|i: int|
            0 <= i < before.len() ==> !occurs_at(
                before + open_mark(tag) + seq![GT] + inside + close_mark(tag) + after,
                open_mark(tag),
                i,
            ),
        forall|i: int|
            0 <= i < before.len() + open_mark(tag).len() + 1 + inside.len() ==> !occurs_at(
                before + open_mark(tag) + seq![GT] + inside + close_mark(tag) + after,
                close_mark(tag),
                i,
            ),
    ensures
        ({
            let b = before + open_mark(tag) + seq![GT] + inside + close_mark(tag) + after;
            let start: int = before.len() as int;
            let end: int = b.len() - after.len();
            element_from(b, tag, 0) == Some((start, end)) && spans_from(b, tag, 0)[0] == (
                start,
                end,
            )
        }),
{
    let o = open_mark(tag);
    let c = close_mark(tag);
    let b = before + o + seq![GT] + inside + c + after;
    let s = before.len() as int;
    let g = s + o.len();
    let k = g + 1 + inside.len();
    assert(b.subrange(s, s + o.len()) =~= o);
    assert(occurs_at(b, o, s));
    lemma_find_from(b, o, 0);
    assert(find_from(b, o, 0) == Some(s));
    assert(b[g] == GT);
    assert(start_tag_from(b, tag, 0) == Some(s));
    assert(b.subrange(g, g + 1) =~= seq![GT]);
    assert(occurs_at(b, seq![GT], g));
    lemma_find_from(b, seq![GT], g);
    assert(find_from(b, seq![GT], g) == Some(g));
    assert(b[g - 1] == o.last());
    assert(o.last() == tag.last());
    assert(b.subrange(k, k + c.len()) =~= c);
    assert(occurs_at(b, c, k));
    lemma_find_from(b, c, g + 1);
    assert(find_from(b, c, g + 1) == Some(k));
}

} // verus!
