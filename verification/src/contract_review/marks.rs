//! The XML of the marks: comments, deletions and insertions.
use vstd::prelude::*;
use crate::numbers::decimals_differ;
use crate::text::{
    chars_of, contains, decimal, decimal_text, is_blank, join, join_texts, joined_parts_are_there,
    occurs_at, parts_hold_in_the_whole, split_on, split_text, splitting_goes_side_by_side, texts,
    trim, trim_text,
};

verus! {

/// One risk that a review found.
pub struct ReviewRisk {
    pub title: String,
    /// The grade of the risk as it is shown.
    pub level: String,
    pub clause_ref: String,
    pub consequence: String,
    pub suggestion: String,
    pub recommended_text: String,
    pub basis: String,
    /// The words of the contract that the risk is about.
    pub anchor_text: String,
    /// The paragraph that the risk is about, if it is known.
    pub paragraph_index: Option<usize>,
    /// Whether the words are to be changed.
    pub revise: bool,
}

/// One risk as data.
pub struct RiskModel {
    pub title: Seq<char>,
    pub level: Seq<char>,
    pub clause_ref: Seq<char>,
    pub consequence: Seq<char>,
    pub suggestion: Seq<char>,
    pub recommended_text: Seq<char>,
    pub basis: Seq<char>,
    pub anchor_text: Seq<char>,
    pub paragraph_index: Option<int>,
    pub revise: bool,
}

impl View for ReviewRisk {
    type V = RiskModel;

    open spec fn view(&self) -> RiskModel {
        RiskModel {
            title: self.title@,
            level: self.level@,
            clause_ref: self.clause_ref@,
            consequence: self.consequence@,
            suggestion: self.suggestion@,
            recommended_text: self.recommended_text@,
            basis: self.basis@,
            anchor_text: self.anchor_text@,
            paragraph_index: match self.paragraph_index {
                Some(i) => Some(i as int),
                None => None,
            },
            revise: self.revise,
        }
    }
}

/// A character as it is written in XML.
pub open spec fn escaped_char(c: char) -> Seq<char> {
    if c == '&' {
        "&amp;"@
    } else if c == '<' {
        "&lt;"@
    } else if c == '>' {
        "&gt;"@
    } else if c == '"' {
        "&quot;"@
    } else if c == '\'' {
        "&apos;"@
    } else {
        seq![c]
    }
}

/// A text as it is written in XML.
pub open spec fn escaped(s: Seq<char>) -> Seq<char>
    decreases s.len(),
{
    if s.len() == 0 {
        Seq::empty()
    } else {
        escaped(s.drop_last()) + escaped_char(s.last())
    }
}

/// A text as it is written in XML.
pub fn xml_escape(s: &str) -> (r: String)
    ensures
        r@ == escaped(s@),
{
    let cs = chars_of(s);
    let mut out = String::new();
    let mut i: usize = 0;
    while i < cs.len()
        invariant
            i <= cs@.len(),
            cs@ == s@,
            out@ == escaped(s@.subrange(0, i as int)),
        decreases cs@.len() - i,
    {
        assert(s@.subrange(0, i + 1).drop_last() =~= s@.subrange(0, i as int));
        let c = cs[i];
        if c == '&' {
            out.append("&amp;");
        } else if c == '<' {
            out.append("&lt;");
        } else if c == '>' {
            out.append("&gt;");
        } else if c == '"' {
            out.append("&quot;");
        } else if c == '\'' {
            out.append("&apos;");
        } else {
            let ghost before = out@;
            out.push(c);
            assert(out@ =~= before + seq![c]);
        }
        i = i + 1;
    }
    assert(s@.subrange(0, i as int) =~= s@);
    out
}

/// Nothing that was escaped can open or close a tag or an attribute.
pub proof fn escaped_text_is_inert(s: Seq<char>)
    ensures
        forall|i: int|
            0 <= i < escaped(s).len() ==> {
                let c = #[trigger] escaped(s)[i];
                c != '<' && c != '>' && c != '"' && c != '\''
            },
    decreases s.len(),
{
    reveal_strlit("&amp;");
    reveal_strlit("&lt;");
    reveal_strlit("&gt;");
    reveal_strlit("&quot;");
    reveal_strlit("&apos;");
    if s.len() > 0 {
        escaped_text_is_inert(s.drop_last());
        let before = escaped(s.drop_last());
        let last = escaped_char(s.last());
        assert forall|i: int| 0 <= i < escaped(s).len() implies {
            let c = #[trigger] escaped(s)[i];
            c != '<' && c != '>' && c != '"' && c != '\''
        } by {
            if i < before.len() {
                assert(escaped(s)[i] == before[i]);
            } else {
                assert(escaped(s)[i] == last[i - before.len()]);
            }
        }
    }
}

/// The lines with one more, if there is anything to say in it.
pub open spec fn with_line(lines: Seq<Seq<char>>, label: Seq<char>, value: Seq<char>) -> Seq<
    Seq<char>,
> {
    if trim(value).len() == 0 {
        lines
    } else {
        lines.push(label + trim(value))
    }
}

/// The lines of the comment on a risk.
pub open spec fn comment_lines(risk: RiskModel) -> Seq<Seq<char>> {
    let l0 = seq!["【"@ + risk.level + "】"@ + trim(risk.title)];
    let l1 = with_line(l0, "条款位置:"@, risk.clause_ref);
    let l2 = with_line(l1, "风险后果:"@, risk.consequence);
    let l3 = with_line(l2, "整改建议:"@, risk.suggestion);
    let l4 = with_line(l3, "推荐措辞:"@, risk.recommended_text);
    with_line(l4, "法律依据:"@, risk.basis)
}

/// The text of the comment on a risk.
pub open spec fn comment_of(risk: RiskModel) -> Seq<char> {
    join(comment_lines(risk), "\n"@)
}

fn add_line(lines: &mut Vec<String>, label: &str, value: &String)
    ensures
        texts(final(lines)@) == with_line(texts(old(lines)@), label@, value@),
{
    let t = trim_text(value.as_str());
    if t.as_str().unicode_len() > 0 {
        let ghost before = texts(lines@);
        let mut line = String::from_str(label);
        line.append(t.as_str());
        lines.push(line);
        assert(texts(lines@) =~= before.push(label@ + trim(value@)));
    }
}

/// The text of the comment on a risk: its grade and title, then a line for each
/// of the rest that is not empty.
pub fn comment_text(risk: &ReviewRisk) -> (r: String)
    ensures
        r@ == comment_of(risk@),
{
    let mut first = String::from_str("【");
    first.append(risk.level.as_str());
    first.append("】");
    let title = trim_text(risk.title.as_str());
    first.append(title.as_str());
    let mut lines: Vec<String> = Vec::new();
    lines.push(first);
    assert(texts(lines@) =~= seq!["【"@ + risk.level@ + "】"@ + trim(risk.title@)]);
    add_line(&mut lines, "条款位置:", &risk.clause_ref);
    add_line(&mut lines, "风险后果:", &risk.consequence);
    add_line(&mut lines, "整改建议:", &risk.suggestion);
    add_line(&mut lines, "推荐措辞:", &risk.recommended_text);
    add_line(&mut lines, "法律依据:", &risk.basis);
    join_texts(&lines, "\n")
}

/// A number between two texts.
pub open spec fn numbered(head: Seq<char>, id: nat, tail: Seq<char>) -> Seq<char> {
    head + decimal(id) + tail
}

fn with_number(head: &str, id: u128, tail: &str) -> (r: String)
    ensures
        r@ == numbered(head@, id as nat, tail@),
{
    let mut out = String::from_str(head);
    let n = decimal_text(id);
    out.append(n.as_str());
    out.append(tail);
    out
}

/// The mark at which the range of a comment begins.
pub open spec fn range_start(id: nat) -> Seq<char> {
    numbered("<w:commentRangeStart w:id=\""@, id, "\"/>"@)
}

/// The mark at which the range of a comment ends.
pub open spec fn range_end(id: nat) -> Seq<char> {
    numbered("<w:commentRangeEnd w:id=\""@, id, "\"/>"@)
}

/// The run that refers to a comment.
pub open spec fn reference_run(id: nat) -> Seq<char> {
    numbered(
        "<w:r><w:rPr><w:rStyle w:val=\"CommentReference\"/></w:rPr><w:commentReference w:id=\""@,
        id,
        "\"/></w:r>"@,
    )
}

/// The mark where the range of a comment begins.
pub fn comment_range_start(id: usize) -> (r: String)
    ensures
        r@ == range_start(id as nat),
{
    with_number("<w:commentRangeStart w:id=\"", id as u128, "\"/>")
}

/// The mark where the range of a comment ends.
pub fn comment_range_end(id: usize) -> (r: String)
    ensures
        r@ == range_end(id as nat),
{
    with_number("<w:commentRangeEnd w:id=\"", id as u128, "\"/>")
}

/// The run that refers to a comment.
pub fn comment_reference_run(id: usize) -> (r: String)
    ensures
        r@ == reference_run(id as nat),
{
    with_number(
        "<w:r><w:rPr><w:rStyle w:val=\"CommentReference\"/></w:rPr><w:commentReference w:id=\"",
        id as u128,
        "\"/></w:r>",
    )
}

/// A run of plain text, or nothing for no text.
pub open spec fn plain_run(rpr: Seq<char>, text: Seq<char>) -> Seq<char> {
    if text.len() == 0 {
        Seq::empty()
    } else {
        "<w:r>"@ + rpr + "<w:t xml:space=\"preserve\">"@ + escaped(text) + "</w:t></w:r>"@
    }
}

/// A run of plain text in the given format.
pub fn text_run(rpr_xml: &str, text: &str) -> (r: String)
    ensures
        r@ == plain_run(rpr_xml@, text@),
{
    if text.unicode_len() == 0 {
        return String::new();
    }
    let mut out = String::from_str("<w:r>");
    out.append(rpr_xml);
    out.append("<w:t xml:space=\"preserve\">");
    let e = xml_escape(text);
    out.append(e.as_str());
    out.append("</w:t></w:r>");
    out
}

/// Words marked as deleted or inserted: the element, its number, who and when,
/// the format, the element of the text, and the words.
pub open spec fn change_mark(
    head: Seq<char>,
    id: nat,
    author: Seq<char>,
    date: Seq<char>,
    rpr: Seq<char>,
    open: Seq<char>,
    words: Seq<char>,
    close: Seq<char>,
) -> Seq<char> {
    head + decimal(id) + "\" w:author=\""@ + author + "\" w:date=\""@ + date + "\"><w:r>"@ + rpr
        + open + escaped(words) + close
}

pub(crate) fn change_xml(
    head: &str,
    id: u128,
    author: &str,
    date: &str,
    rpr: &str,
    open: &str,
    words: &str,
    close: &str,
) -> (r: String)
    ensures
        r@ == change_mark(head@, id as nat, author@, date@, rpr@, open@, words@, close@),
{
    let mut out = String::from_str(head);
    let n = decimal_text(id);
    out.append(n.as_str());
    out.append("\" w:author=\"");
    out.append(author);
    out.append("\" w:date=\"");
    out.append(date);
    out.append("\"><w:r>");
    out.append(rpr);
    out.append(open);
    let e = xml_escape(words);
    out.append(e.as_str());
    out.append(close);
    out
}

/// Words marked as deleted.
pub open spec fn deletion(
    id: nat,
    author: Seq<char>,
    date: Seq<char>,
    rpr: Seq<char>,
    words: Seq<char>,
) -> Seq<char> {
    change_mark(
        "<w:del w:id=\""@,
        id,
        author,
        date,
        rpr,
        "<w:delText xml:space=\"preserve\">"@,
        words,
        "</w:delText></w:r></w:del>"@,
    )
}

/// Words marked as inserted, or nothing for no words.
pub open spec fn insertion(
    id: nat,
    author: Seq<char>,
    date: Seq<char>,
    rpr: Seq<char>,
    words: Seq<char>,
) -> Seq<char> {
    if words.len() == 0 {
        Seq::empty()
    } else {
        change_mark(
            "<w:ins w:id=\""@,
            id,
            author,
            date,
            rpr,
            "<w:t xml:space=\"preserve\">"@,
            words,
            "</w:t></w:r></w:ins>"@,
        )
    }
}

/// The lines of one comment, each a paragraph.
pub open spec fn line_paragraphs(lines: Seq<Seq<char>>) -> Seq<char>
    decreases lines.len(),
{
    if lines.len() == 0 {
        Seq::empty()
    } else {
        line_paragraphs(lines.drop_last()) + "<w:p><w:r><w:t xml:space=\"preserve\">"@ + escaped(
            lines.last(),
        ) + "</w:t></w:r></w:p>"@
    }
}

/// The elements of some comments; comment number `i` has the id `i`.
pub open spec fn comment_elements(
    comments: Seq<Seq<char>>,
    author: Seq<char>,
    date: Seq<char>,
) -> Seq<char>
    decreases comments.len(),
{
    if comments.len() == 0 {
        Seq::empty()
    } else {
        comment_elements(comments.drop_last(), author, date) + "<w:comment w:id=\""@ + decimal(
            (comments.len() - 1) as nat,
        ) + "\" w:author=\""@ + author + "\" w:date=\""@ + date + "\" w:initials=\"\">"@
            + line_paragraphs(split_on(comments.last(), '\n')) + "</w:comment>"@
    }
}

/// The part that holds the comments.
pub open spec fn comments_part(
    comments: Seq<Seq<char>>,
    author: Seq<char>,
    date: Seq<char>,
) -> Seq<char> {
    "<?xml version=\"1.0\" encoding=\"UTF-8\" standalone=\"yes\"?>\n<w:comments xmlns:w=\"http://schemas.openxmlformats.org/wordprocessingml/2006/main\">"@
        + comment_elements(comments, author, date) + "</w:comments>"@
}

fn paragraphs_xml(lines: &Vec<String>) -> (r: String)
    ensures
        r@ == line_paragraphs(texts(lines@)),
{
    let mut out = String::new();
    let mut i: usize = 0;
    while i < lines.len()
        invariant
            i <= lines@.len(),
            out@ == line_paragraphs(texts(lines@).subrange(0, i as int)),
        decreases lines@.len() - i,
    {
        assert(texts(lines@).subrange(0, i + 1).drop_last() =~= texts(lines@).subrange(0, i as int));
        out.append("<w:p><w:r><w:t xml:space=\"preserve\">");
        let e = xml_escape(lines[i].as_str());
        out.append(e.as_str());
        out.append("</w:t></w:r></w:p>");
        i = i + 1;
    }
    assert(texts(lines@).subrange(0, i as int) =~= texts(lines@));
    out
}

/// The part that holds the comments. Each line of a comment becomes a
/// paragraph.
pub fn build_comments_xml(comments: &Vec<String>, author_esc: &str, date: &str) -> (r: String)
    ensures
        r@ == comments_part(texts(comments@), author_esc@, date@),
{
    let mut body = String::new();
    let mut i: usize = 0;
    while i < comments.len()
        invariant
            i <= comments@.len(),
            body@ == comment_elements(
                texts(comments@).subrange(0, i as int),
                author_esc@,
                date@,
            ),
        decreases comments@.len() - i,
    {
        assert(texts(comments@).subrange(0, i + 1).drop_last() =~= texts(comments@).subrange(
            0,
            i as int,
        ));
        body.append("<w:comment w:id=\"");
        let n = decimal_text(i as u128);
        body.append(n.as_str());
        body.append("\" w:author=\"");
        body.append(author_esc);
        body.append("\" w:date=\"");
        body.append(date);
        body.append("\" w:initials=\"\">");
        let lines = split_text(comments[i].as_str(), '\n');
        let paras = paragraphs_xml(&lines);
        body.append(paras.as_str());
        body.append("</w:comment>");
        i = i + 1;
    }
    assert(texts(comments@).subrange(0, i as int) =~= texts(comments@));
    let mut out = String::from_str(
        "<?xml version=\"1.0\" encoding=\"UTF-8\" standalone=\"yes\"?>\n<w:comments xmlns:w=\"http://schemas.openxmlformats.org/wordprocessingml/2006/main\">",
    );
    out.append(body.as_str());
    out.append("</w:comments>");
    out
}

/// Escaping goes character by character: the five characters that mean something
/// in XML are written by their names, every other one as it is, and nothing is
/// lost or added between them.
pub proof fn escaping_goes_by_characters(a: Seq<char>, c: char, b: Seq<char>)
    ensures
        escaped(a + b) == escaped(a) + escaped(b),
        escaped(seq!['&']) == "&amp;"@,
        escaped(seq!['<']) == "&lt;"@,
        escaped(seq!['>']) == "&gt;"@,
        escaped(seq!['"']) == "&quot;"@,
        escaped(seq!['\'']) == "&apos;"@,
        c != '&' && c != '<' && c != '>' && c != '"' && c != '\'' ==> escaped(seq![c]) == seq![c],
    decreases b.len(),
{
    if b.len() == 0 {
        assert(a + b =~= a);
        assert(escaped(a) + escaped(b) =~= escaped(a));
    } else {
        escaping_goes_by_characters(a, c, b.drop_last());
        assert((a + b).drop_last() =~= a + b.drop_last());
        assert(escaped(a + b) =~= escaped(a) + escaped(b));
    }
    lemma_escaped_one('&');
    lemma_escaped_one('<');
    lemma_escaped_one('>');
    lemma_escaped_one('"');
    lemma_escaped_one('\'');
    lemma_escaped_one(c);
}

proof fn lemma_escaped_one(c: char)
    ensures
        escaped(seq![c]) == escaped_char(c),
{
    reveal_with_fuel(escaped, 2);
    assert(seq![c].drop_last() =~= Seq::<char>::empty());
    assert(escaped(seq![c]) =~= escaped_char(c));
}

/// The comment on a risk begins with its grade and its title, and holds each of
/// the rest that says something behind its name.
pub proof fn comments_say_what_the_risk_says(risk: RiskModel)
    ensures
        ("【"@ + risk.level + "】"@ + trim(risk.title)).is_prefix_of(comment_of(risk)),
        !is_blank(risk.clause_ref) ==> contains(
            comment_of(risk),
            "条款位置:"@ + trim(risk.clause_ref),
        ),
        !is_blank(risk.consequence) ==> contains(
            comment_of(risk),
            "风险后果:"@ + trim(risk.consequence),
        ),
        !is_blank(risk.suggestion) ==> contains(
            comment_of(risk),
            "整改建议:"@ + trim(risk.suggestion),
        ),
        !is_blank(risk.recommended_text) ==> contains(
            comment_of(risk),
            "推荐措辞:"@ + trim(risk.recommended_text),
        ),
        !is_blank(risk.basis) ==> contains(comment_of(risk), "法律依据:"@ + trim(risk.basis)),
        is_blank(risk.clause_ref) && is_blank(risk.consequence) && is_blank(risk.suggestion)
            && is_blank(risk.recommended_text) && is_blank(risk.basis) ==> comment_of(risk)
            == "【"@ + risk.level + "】"@ + trim(risk.title),
{
    let lines = comment_lines(risk);
    let head = "【"@ + risk.level + "】"@ + trim(risk.title);
    let l0 = seq![head];
    let l1 = with_line(l0, "条款位置:"@, risk.clause_ref);
    let l2 = with_line(l1, "风险后果:"@, risk.consequence);
    let l3 = with_line(l2, "整改建议:"@, risk.suggestion);
    let l4 = with_line(l3, "推荐措辞:"@, risk.recommended_text);
    assert(lines[0] == head);
    lemma_first_joined(lines, "\n"@);
    if !is_blank(risk.clause_ref) {
        assert(lines[1] == l1[1]);
        joined_parts_are_there(lines, "\n"@, 1);
    }
    if !is_blank(risk.consequence) {
        assert(lines[l1.len() as int] == l2[l1.len() as int]);
        joined_parts_are_there(lines, "\n"@, l1.len() as int);
    }
    if !is_blank(risk.suggestion) {
        assert(lines[l2.len() as int] == l3[l2.len() as int]);
        joined_parts_are_there(lines, "\n"@, l2.len() as int);
    }
    if !is_blank(risk.recommended_text) {
        assert(lines[l3.len() as int] == l4[l3.len() as int]);
        joined_parts_are_there(lines, "\n"@, l3.len() as int);
    }
    if !is_blank(risk.basis) {
        joined_parts_are_there(lines, "\n"@, l4.len() as int);
    }
}

proof fn lemma_first_joined(parts: Seq<Seq<char>>, sep: Seq<char>)
    requires
        parts.len() > 0,
    ensures
        parts[0].is_prefix_of(join(parts, sep)),
    decreases parts.len(),
{
    let whole = join(parts, sep);
    if parts.len() > 1 {
        let rest = parts.drop_last();
        lemma_first_joined(rest, sep);
        let h = join(rest, sep);
        assert(h.subrange(0, parts[0].len() as int) == parts[0]);
        assert(whole.subrange(0, parts[0].len() as int) =~= parts[0]);
    } else {
        assert(whole.subrange(0, whole.len() as int) =~= whole);
    }
}

/// The part that holds the comments has one for each, under its own number, with
/// the author and the date, and each of its lines in a paragraph.
pub proof fn every_comment_has_its_number(
    comments: Seq<Seq<char>>,
    author: Seq<char>,
    date: Seq<char>,
    i: int,
)
    requires
        0 <= i < comments.len(),
    ensures
        contains(
            comments_part(comments, author, date),
            "<w:comment w:id=\""@ + decimal(i as nat) + "\" w:author=\""@ + author
                + "\" w:date=\""@ + date + "\" w:initials=\"\">"@ + line_paragraphs(
                split_on(comments[i], '\n'),
            ) + "</w:comment>"@,
        ),
        !comments[i].contains('\n') ==> line_paragraphs(split_on(comments[i], '\n'))
            == "<w:p><w:r><w:t xml:space=\"preserve\">"@ + escaped(comments[i])
            + "</w:t></w:r></w:p>"@,
{
    lemma_comment_element(comments, author, date, i);
    let head =
        "<?xml version=\"1.0\" encoding=\"UTF-8\" standalone=\"yes\"?>\n<w:comments xmlns:w=\"http://schemas.openxmlformats.org/wordprocessingml/2006/main\">"@;
    parts_hold_in_the_whole(
        head,
        comment_elements(comments, author, date),
        "</w:comments>"@,
        comment_element(comments[i], author, date, i as nat),
    );
    if !comments[i].contains('\n') {
        splitting_goes_side_by_side(comments[i], '\n', Seq::empty());
        let one = seq![comments[i]];
        assert(split_on(comments[i], '\n') == one);
        reveal_with_fuel(line_paragraphs, 2);
        assert(one.drop_last() =~= Seq::<Seq<char>>::empty());
        assert(line_paragraphs(one) =~= "<w:p><w:r><w:t xml:space=\"preserve\">"@ + escaped(
            comments[i],
        ) + "</w:t></w:r></w:p>"@);
    }
}

spec fn comment_element(text: Seq<char>, author: Seq<char>, date: Seq<char>, id: nat) -> Seq<char> {
    "<w:comment w:id=\""@ + decimal(id) + "\" w:author=\""@ + author + "\" w:date=\""@ + date
        + "\" w:initials=\"\">"@ + line_paragraphs(split_on(text, '\n')) + "</w:comment>"@
}

proof fn lemma_comment_element(
    comments: Seq<Seq<char>>,
    author: Seq<char>,
    date: Seq<char>,
    i: int,
)
    requires
        0 <= i < comments.len(),
    ensures
        contains(
            comment_elements(comments, author, date),
            comment_element(comments[i], author, date, i as nat),
        ),
    decreases comments.len(),
{
    let rest = comments.drop_last();
    let before = comment_elements(rest, author, date);
    let last = comment_element(comments.last(), author, date, (comments.len() - 1) as nat);
    assert(comment_elements(comments, author, date) =~= before + last + Seq::empty());
    let pat = comment_element(comments[i], author, date, i as nat);
    if i < rest.len() {
        lemma_comment_element(rest, author, date, i);
        parts_hold_in_the_whole(Seq::empty(), before, last, pat);
        assert(Seq::empty() + before + last =~= comment_elements(comments, author, date));
    } else {
        parts_hold_in_the_whole(before, last, Seq::empty(), pat);
    }
}

/// The marks of a comment carry its number, so that no two comments share a mark.
pub proof fn marks_tell_comments_apart(a: nat, b: nat)
    ensures
        contains(range_start(a), "w:id=\""@ + decimal(a) + "\""@),
        contains(range_end(a), "w:id=\""@ + decimal(a) + "\""@),
        contains(reference_run(a), "w:id=\""@ + decimal(a) + "\""@),
        a != b ==> range_start(a) != range_start(b) && range_end(a) != range_end(b)
            && reference_run(a) != reference_run(b),
        "<w:commentRangeStart "@.is_prefix_of(range_start(a)),
        "<w:commentRangeEnd "@.is_prefix_of(range_end(a)),
        contains(reference_run(a), "<w:commentReference "@),
{
    reveal_strlit("w:id=\"");
    reveal_strlit("\"");
    reveal_strlit("\"/>");
    reveal_strlit("\"/></w:r>");
    reveal_strlit("<w:commentRangeStart w:id=\"");
    reveal_strlit("<w:commentRangeEnd w:id=\"");
    reveal_strlit("<w:commentRangeStart ");
    reveal_strlit("<w:commentRangeEnd ");
    reveal_strlit("<w:commentReference ");
    reveal_strlit(
        "<w:r><w:rPr><w:rStyle w:val=\"CommentReference\"/></w:rPr><w:commentReference w:id=\"",
    );
    let s = "<w:commentRangeStart w:id=\""@;
    let e = "<w:commentRangeEnd w:id=\""@;
    let r =
        "<w:r><w:rPr><w:rStyle w:val=\"CommentReference\"/></w:rPr><w:commentReference w:id=\""@;
    lemma_numbered(s, a, b, "\"/>"@);
    lemma_numbered(e, a, b, "\"/>"@);
    lemma_numbered(r, a, b, "\"/></w:r>"@);
    assert(range_start(a).subrange(0, 21) =~= "<w:commentRangeStart "@);
    assert(range_end(a).subrange(0, 19) =~= "<w:commentRangeEnd "@);
    let x = reference_run(a);
    let k = r.len() - 26;
    assert(x.subrange(k, k + 20) =~= "<w:commentReference "@);
    assert(occurs_at(x, "<w:commentReference "@, k));
}

proof fn lemma_numbered(head: Seq<char>, a: nat, b: nat, tail: Seq<char>)
    requires
        "w:id=\""@.is_suffix_of(head),
        "\""@.is_prefix_of(tail),
    ensures
        contains(numbered(head, a, tail), "w:id=\""@ + decimal(a) + "\""@),
        a != b ==> numbered(head, a, tail) != numbered(head, b, tail),
{
    reveal_strlit("w:id=\"");
    reveal_strlit("\"");
    let w = numbered(head, a, tail);
    let v = numbered(head, b, tail);
    let d = decimal(a);
    let pat = "w:id=\""@ + d + "\""@;
    let k = head.len() - 6;
    assert(w =~= head + d + tail);
    assert(head.subrange(k, head.len() as int) =~= "w:id=\""@);
    assert(tail.subrange(0, 1) =~= "\""@);
    assert forall|i: int| 0 <= i < pat.len() implies w[k + i] == pat[i] by {
        if i < 6 {
            assert(head.subrange(k, head.len() as int)[i] == head[k + i]);
        } else if i >= 6 + d.len() {
            assert(tail.subrange(0, 1)[0] == tail[0]);
        }
    }
    assert(w.subrange(k, k + pat.len()) =~= pat);
    assert(occurs_at(w, pat, k));
    if a != b && w == v {
        assert(v =~= head + decimal(b) + tail);
        assert(d.len() == decimal(b).len());
        assert(w.subrange(head.len() as int, (head.len() + d.len()) as int) =~= d);
        assert(v.subrange(head.len() as int, (head.len() + d.len()) as int) =~= decimal(b));
        decimals_differ(a, b);
    }
}

/// A run of plain text holds the text, escaped, behind the formatting that it is
/// given. Without text there is no run.
pub proof fn plain_runs_hold_their_text(rpr: Seq<char>, text: Seq<char>)
    ensures
        text.len() == 0 ==> plain_run(rpr, text).len() == 0,
        text.len() > 0 ==> ("<w:r>"@ + rpr).is_prefix_of(plain_run(rpr, text)) && contains(
            plain_run(rpr, text),
            escaped(text),
        ),
{
    if text.len() > 0 {
        let a = "<w:r>"@ + rpr;
        let b = a + "<w:t xml:space=\"preserve\">"@;
        let w = plain_run(rpr, text);
        let e = escaped(text);
        assert(w.subrange(0, a.len() as int) =~= a);
        assert(w.subrange(b.len() as int, (b.len() + e.len()) as int) =~= e);
        assert(occurs_at(w, e, b.len() as int));
    }
}

} // verus!
