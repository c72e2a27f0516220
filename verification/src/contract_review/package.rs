//! Entering a new part into the package of a .docx.
use vstd::prelude::*;
use vstd::utf8::*;
use crate::contract_review::docx::{parts_model, utf8_complaint, utf8_text, DocxParts};
use crate::numbers::{count_digits, digits_at, lemma_decimal_number, number_of, read_number};
use crate::text::{
    chars_of, contains, copy_range, decimal, decimal_text, find, find_chars, find_from, has_text,
    lemma_find_from, occurs_at, parts_hold_in_the_whole, push_all, same_text, string_of,
};

verus! {

/// The number of the first part of that name; the number of parts if there is
/// none.
pub open spec fn first_named(parts: Seq<(Seq<char>, Seq<u8>)>, name: Seq<char>, k: int) -> int
    decreases parts.len() - k,
{
    if k >= parts.len() || parts[k].0 == name {
        k
    } else {
        first_named(parts, name, k + 1)
    }
}

/// The parts with the contents of one replaced, or with a new one at the end.
pub open spec fn with_part(
    parts: Seq<(Seq<char>, Seq<u8>)>,
    name: Seq<char>,
    data: Seq<u8>,
) -> Seq<(Seq<char>, Seq<u8>)> {
    let i = first_named(parts, name, 0);
    if i < parts.len() {
        parts.update(i, (name, data))
    } else {
        parts.push((name, data))
    }
}

/// What `first_named` finds has the name and nothing before it has.
pub proof fn lemma_first_named(parts: Seq<(Seq<char>, Seq<u8>)>, name: Seq<char>, k: int)
    requires
        0 <= k <= parts.len(),
    ensures
        k <= first_named(parts, name, k) <= parts.len(),
        first_named(parts, name, k) < parts.len() ==> parts[first_named(parts, name, k)].0 == name,
        forall|i: int|
            k <= i < first_named(parts, name, k) ==> (#[trigger] parts[i]).0 != name,
    decreases parts.len() - k,
{
    if k < parts.len() && parts[k].0 != name {
        lemma_first_named(parts, name, k + 1);
    }
}

/// Setting one part leaves the path of every part and the contents of every
/// other part alone, and the part then has the new contents.
pub proof fn setting_a_part_keeps_the_others(
    parts: Seq<(Seq<char>, Seq<u8>)>,
    name: Seq<char>,
    data: Seq<u8>,
)
    ensures
        ({
            let after = with_part(parts, name, data);
            let i = first_named(parts, name, 0);
            &&& parts.len() <= after.len() <= parts.len() + 1
            &&& i < after.len() && after[i] == (name, data)
            &&& first_named(after, name, 0) == i
            &&& forall|k: int| 0 <= k < parts.len() && k != i ==> #[trigger] after[k] == parts[k]
        }),
{
    lemma_first_named(parts, name, 0);
    let after = with_part(parts, name, data);
    lemma_first_named(after, name, 0);
    let i = first_named(parts, name, 0);
    let j = first_named(after, name, 0);
    assert(after[i].0 == name);
    if j < i {
        assert(after[j] == parts[j]);
    }
}

fn find_part(parts: &DocxParts, name: &str) -> (r: usize)
    ensures
        r == first_named(parts_model(parts@), name@, 0),
        r <= parts@.len(),
{
    let n: usize = parts.len();
    let mut k: usize = 0;
    while k < n && !same_text(parts[k].0.as_str(), name)
        invariant
            n == parts@.len(),
            k <= n,
            first_named(parts_model(parts@), name@, 0) == first_named(
                parts_model(parts@),
                name@,
                k as int,
            ),
        decreases n - k,
    {
        assert(parts_model(parts@)[k as int].0 == parts@[k as int].0@);
        k = k + 1;
    }
    proof {
        if k < n {
            assert(parts_model(parts@)[k as int].0 == parts@[k as int].0@);
        }
    }
    k
}

/// Replaces the contents of a part, or adds it.
pub fn parts_set(parts: &mut DocxParts, name: &str, bytes: Vec<u8>)
    ensures
        parts_model(final(parts)@) == with_part(parts_model(old(parts)@), name@, bytes@),
{
    let ghost m = parts_model(parts@);
    let i: usize = find_part(parts, name);
    proof {
        lemma_first_named(m, name@, 0);
    }
    if i < parts.len() {
        let same = String::from_str(name);
        parts.set(i, (same, bytes));
        assert(parts_model(parts@) =~= m.update(i as int, (name@, bytes@)));
    } else {
        parts.push((String::from_str(name), bytes));
        assert(parts_model(parts@) =~= m.push((name@, bytes@)));
    }
}

/// The bytes of a string.
pub fn bytes_of(s: &str) -> (r: Vec<u8>)
    ensures
        r@ == encode_utf8(s@),
{
    let mut r: Vec<u8> = Vec::new();
    r.extend_from_slice(s.as_bytes());
    assert(r@ =~= encode_utf8(s@));
    r
}

/// `s` with the first occurrence of `pat` replaced.
pub open spec fn replace_first(s: Seq<char>, pat: Seq<char>, rep: Seq<char>) -> Seq<char> {
    match find(s, pat) {
        None => s,
        Some(i) => s.subrange(0, i) + rep + s.subrange(i + pat.len(), s.len() as int),
    }
}

fn replaced_first(s: &str, pat: &str, rep: &str) -> (r: String)
    ensures
        r@ == replace_first(s@, pat@, rep@),
{
    let cs = chars_of(s);
    let ps = chars_of(pat);
    proof {
        lemma_find_from(s@, pat@, 0);
    }
    match find_chars(cs.as_slice(), ps.as_slice(), 0) {
        None => string_of(cs.as_slice()),
        Some(i) => {
            let n: usize = cs.len();
            let mut out = copy_range(cs.as_slice(), 0, i);
            let rs = chars_of(rep);
            push_all(&mut out, rs.as_slice());
            let tail = copy_range(cs.as_slice(), i + ps.len(), n);
            push_all(&mut out, tail.as_slice());
            string_of(out.as_slice())
        },
    }
}

/// What stands before the number of a relationship id.
pub open spec fn rid_mark() -> Seq<char> {
    "Id=\"rId"@
}

/// The digits of the relationship ids in `s` from `from` on.
pub open spec fn rid_digits(s: Seq<char>, from: int) -> Seq<Seq<char>>
    decreases s.len() - from,
{
    match find_from(s, rid_mark(), from) {
        None => Seq::empty(),
        Some(p) => {
            let start = p + rid_mark().len();
            if from < start && start <= s.len() {
                seq![s.subrange(start, start + digits_at(s, start))] + rid_digits(s, start)
            } else {
                Seq::empty()
            }
        },
    }
}

/// The greatest of the numbers that fit a machine word.
pub open spec fn greatest(ids: Seq<Seq<char>>) -> nat
    decreases ids.len(),
{
    if ids.len() == 0 {
        0
    } else {
        let g = greatest(ids.drop_last());
        let n = number_of(ids.last());
        if ids.last().len() > 0 && n <= usize::MAX && n > g {
            n
        } else {
            g
        }
    }
}

/// The id for a new relationship.
pub open spec fn fresh_rid_of(rels: Seq<char>) -> Seq<char> {
    "rId"@ + decimal(greatest(rid_digits(rels, 0)) + 1)
}

proof fn lemma_greatest_bounds(ids: Seq<Seq<char>>, i: int)
    requires
        0 <= i < ids.len(),
        ids[i].len() > 0,
        number_of(ids[i]) <= usize::MAX,
    ensures
        number_of(ids[i]) <= greatest(ids),
    decreases ids.len(),
{
    if i < ids.len() - 1 {
        lemma_greatest_bounds(ids.drop_last(), i);
    }
}

/// The new id is none of those that are there, as far as their numbers fit a
/// machine word.
pub proof fn fresh_rid_is_new(rels: Seq<char>, i: int)
    requires
        0 <= i < rid_digits(rels, 0).len(),
        number_of(rid_digits(rels, 0)[i]) <= usize::MAX,
    ensures
        fresh_rid_of(rels) != "rId"@ + rid_digits(rels, 0)[i],
{
    let ids = rid_digits(rels, 0);
    let n = greatest(ids) + 1;
    lemma_decimal_number(n);
    if fresh_rid_of(rels) == "rId"@ + ids[i] {
        let k = "rId"@.len() as int;
        assert(fresh_rid_of(rels).subrange(k, fresh_rid_of(rels).len() as int) =~= decimal(n));
        assert(("rId"@ + ids[i]).subrange(k, ("rId"@ + ids[i]).len() as int) =~= ids[i]);
        lemma_greatest_bounds(ids, i);
    }
}

/// An id for a new relationship: one more than the greatest number among the
/// `rId` that are there.
pub fn fresh_rid(rels_xml: &str) -> (r: String)
    ensures
        r@ == fresh_rid_of(rels_xml@),
{
    let cs = chars_of(rels_xml);
    let mark = chars_of("Id=\"rId");
    let ghost s = cs@;
    let ghost mut ids: Seq<Seq<char>> = Seq::empty();
    let mut max: usize = 0;
    let mut from: usize = 0;
    proof {
        assert(ids + rid_digits(s, 0) =~= rid_digits(s, 0));
        reveal_strlit("Id=\"rId");
    }
    loop
        invariant_except_break
            ids + rid_digits(s, from as int) == rid_digits(s, 0),
        invariant
            s == cs@,
            mark@ == rid_mark(),
            mark@.len() > 0,
            max == greatest(ids),
            from <= s.len(),
        ensures
            ids == rid_digits(s, 0),
        decreases s.len() - from,
    {
        proof {
            lemma_find_from(s, rid_mark(), from as int);
        }
        let p: usize = match find_chars(cs.as_slice(), mark.as_slice(), from) {
            None => {
                assert(ids + Seq::<Seq<char>>::empty() =~= ids);
                break;
            },
            Some(p) => p,
        };
        let whole: usize = cs.len();
        let start: usize = p + mark.len();
        let count: usize = count_digits(cs.as_slice(), start);
        let ghost d = s.subrange(start as int, start + count);
        if let Some(n) = read_number(cs.as_slice(), start, start + count) {
            if n > max {
                max = n;
            }
        }
        proof {
            assert(ids.push(d).drop_last() =~= ids);
            assert(ids.push(d) + rid_digits(s, start as int) =~= ids + rid_digits(s, from as int));
            ids = ids.push(d);
        }
        from = start;
    }
    let mut out = String::from_str("rId");
    let digits = decimal_text(max as u128 + 1);
    out.append(digits.as_str());
    out
}

/// The entry of the comments part among the content types.
pub open spec fn type_entry() -> Seq<char> {
    "<Override PartName=\"/word/comments.xml\" ContentType=\"application/vnd.openxmlformats-officedocument.wordprocessingml.comments+xml\"/>"@
}

/// What the type of the relationship to the comments part stands behind.
pub open spec fn relationship_tail() -> Seq<char> {
    "\" Type=\"http://schemas.openxmlformats.org/officeDocument/2006/relationships/comments\" Target=\"comments.xml\"/>"@
}

/// The content types with the comments part among them.
pub open spec fn types_with_comments(s: Seq<char>) -> Seq<char> {
    if contains(s, "/word/comments.xml"@) {
        s
    } else {
        replace_first(s, "</Types>"@, type_entry() + "</Types>"@)
    }
}

/// The relationships with that to the comments part among them.
pub open spec fn rels_with_comments(s: Seq<char>) -> Seq<char> {
    if contains(s, "comments.xml"@) {
        s
    } else {
        replace_first(
            s,
            "</Relationships>"@,
            "<Relationship Id=\""@ + fresh_rid_of(s) + relationship_tail() + "</Relationships>"@,
        )
    }
}

/// Relationships that hold nothing but that to the comments part.
pub open spec fn only_comments_rels() -> Seq<char> {
    "<?xml version=\"1.0\" encoding=\"UTF-8\" standalone=\"yes\"?>\n<Relationships xmlns=\"http://schemas.openxmlformats.org/package/2006/relationships\"><Relationship Id=\"rIdCb1"@
        + relationship_tail() + "</Relationships>"@
}

/// The parts with the relationships of the document completed.
pub open spec fn with_relationship(parts: Seq<(Seq<char>, Seq<u8>)>) -> Result<
    Seq<(Seq<char>, Seq<u8>)>,
    Seq<char>,
> {
    let name = "word/_rels/document.xml.rels"@;
    let i = first_named(parts, name, 0);
    if i >= parts.len() {
        Ok(parts.push((name, encode_utf8(only_comments_rels()))))
    } else if !valid_utf8(parts[i].1) {
        Err("document.xml.rels 非 UTF-8: "@ + utf8_complaint(parts[i].1))
    } else {
        Ok(
            parts.update(
                i,
                (name, encode_utf8(rels_with_comments(decode_utf8(parts[i].1)))),
            ),
        )
    }
}

/// The parts with the comments part entered among the content types and the
/// relationships of the document.
pub open spec fn with_comments_entered(parts: Seq<(Seq<char>, Seq<u8>)>) -> Result<
    Seq<(Seq<char>, Seq<u8>)>,
    Seq<char>,
> {
    let name = "[Content_Types].xml"@;
    let i = first_named(parts, name, 0);
    if i >= parts.len() {
        Err(".docx 缺 [Content_Types].xml"@)
    } else if !valid_utf8(parts[i].1) {
        Err("[Content_Types] 非 UTF-8: "@ + utf8_complaint(parts[i].1))
    } else {
        with_relationship(
            parts.update(i, (name, encode_utf8(types_with_comments(decode_utf8(parts[i].1))))),
        )
    }
}

/// Enters the comments part among the content types and the relationships of
/// the document, where it is not entered yet.
pub fn register_comments_part(parts: &mut DocxParts) -> (r: Result<(), String>)
    ensures
        match with_comments_entered(parts_model(old(parts)@)) {
            Ok(after) => r is Ok && parts_model(final(parts)@) == after,
            Err(e) => r matches Err(m) && m@ == e,
        },
{
    let ghost m = parts_model(parts@);
    let i: usize = find_part(parts, "[Content_Types].xml");
    proof {
        lemma_first_named(m, "[Content_Types].xml"@, 0);
    }
    if i >= parts.len() {
        return Err(String::from_str(".docx 缺 [Content_Types].xml"));
    }
    let data = parts[i].1.clone();
    assert(data@ == m[i as int].1);
    match utf8_text(data) {
        Err(e) => {
            let mut msg = String::from_str("[Content_Types] 非 UTF-8: ");
            msg.append(e.as_str());
            return Err(msg);
        },
        Ok(s) => {
            if !has_text(s.as_str(), "/word/comments.xml") {
                let mut entry = String::from_str(
                    "<Override PartName=\"/word/comments.xml\" ContentType=\"application/vnd.openxmlformats-officedocument.wordprocessingml.comments+xml\"/>",
                );
                entry.append("</Types>");
                let t = replaced_first(s.as_str(), "</Types>", entry.as_str());
                parts.set(i, (String::from_str("[Content_Types].xml"), bytes_of(t.as_str())));
            } else {
                proof {
                    decode_utf8_encode_utf8(m[i as int].1);
                }
            }
        },
    }
    let ghost m1 = m.update(
        i as int,
        ("[Content_Types].xml"@, encode_utf8(types_with_comments(decode_utf8(m[i as int].1)))),
    );
    assert(parts_model(parts@) =~= m1);
    let j: usize = find_part(parts, "word/_rels/document.xml.rels");
    proof {
        lemma_first_named(m1, "word/_rels/document.xml.rels"@, 0);
    }
    if j >= parts.len() {
        let mut body = String::from_str(
            "<?xml version=\"1.0\" encoding=\"UTF-8\" standalone=\"yes\"?>\n<Relationships xmlns=\"http://schemas.openxmlformats.org/package/2006/relationships\"><Relationship Id=\"rIdCb1",
        );
        body.append(
            "\" Type=\"http://schemas.openxmlformats.org/officeDocument/2006/relationships/comments\" Target=\"comments.xml\"/>",
        );
        body.append("</Relationships>");
        parts.push((String::from_str("word/_rels/document.xml.rels"), bytes_of(body.as_str())));
        assert(parts_model(parts@) =~= m1.push(
            ("word/_rels/document.xml.rels"@, encode_utf8(only_comments_rels())),
        ));
        return Ok(());
    }
    let data = parts[j].1.clone();
    assert(data@ == m1[j as int].1);
    match utf8_text(data) {
        Err(e) => {
            let mut msg = String::from_str("document.xml.rels 非 UTF-8: ");
            msg.append(e.as_str());
            return Err(msg);
        },
        Ok(s) => {
            if !has_text(s.as_str(), "comments.xml") {
                let rid = fresh_rid(s.as_str());
                let mut entry = String::from_str("<Relationship Id=\"");
                entry.append(rid.as_str());
                entry.append(
                    "\" Type=\"http://schemas.openxmlformats.org/officeDocument/2006/relationships/comments\" Target=\"comments.xml\"/>",
                );
                entry.append("</Relationships>");
                let t = replaced_first(s.as_str(), "</Relationships>", entry.as_str());
                parts.set(
                    j,
                    (String::from_str("word/_rels/document.xml.rels"), bytes_of(t.as_str())),
                );
            } else {
                proof {
                    decode_utf8_encode_utf8(m1[j as int].1);
                }
            }
        },
    }
    assert(parts_model(parts@) =~= m1.update(
        j as int,
        (
            "word/_rels/document.xml.rels"@,
            encode_utf8(rels_with_comments(decode_utf8(m1[j as int].1))),
        ),
    ));
    Ok(())
}

proof fn lemma_type_entry()
    ensures
        occurs_at(type_entry(), "/word/comments.xml"@, 20),
{
    reveal_strlit(
        "<Override PartName=\"/word/comments.xml\" ContentType=\"application/vnd.openxmlformats-officedocument.wordprocessingml.comments+xml\"/>",
    );
    reveal_strlit("/word/comments.xml");
    assert(type_entry().subrange(20, 38) =~= "/word/comments.xml"@);
}

proof fn lemma_relationship_tail()
    ensures
        occurs_at(relationship_tail(), "comments.xml"@, 94),
{
    reveal_strlit(
        "\" Type=\"http://schemas.openxmlformats.org/officeDocument/2006/relationships/comments\" Target=\"comments.xml\"/>",
    );
    reveal_strlit("comments.xml");
    assert(relationship_tail().subrange(94, 106) =~= "comments.xml"@);
}

/// The comments part is among the content types once it was entered, if the list
/// has an end at all. Entering it again changes nothing, and what was there stays
/// around the new entry.
pub proof fn types_name_the_comments(s: Seq<char>) -> (r: (Seq<char>, Seq<char>))
    ensures
        contains(s, "/word/comments.xml"@) ==> types_with_comments(s) == s,
        !contains(s, "/word/comments.xml"@) && contains(s, "</Types>"@) ==> s == r.0
            + "</Types>"@ + r.1 && types_with_comments(s) == r.0 + type_entry() + "</Types>"@ + r.1,
        contains(s, "</Types>"@) ==> contains(types_with_comments(s), "/word/comments.xml"@),
        contains(s, "</Types>"@) ==> types_with_comments(types_with_comments(s))
            == types_with_comments(s),
{
    lemma_find_from(s, "</Types>"@, 0);
    if !contains(s, "/word/comments.xml"@) && contains(s, "</Types>"@) {
        let w = choose|i: int| occurs_at(s, "</Types>"@, i);
        let i = find(s, "</Types>"@)->0;
        let a = s.subrange(0, i);
        let b = s.subrange(i + "</Types>"@.len(), s.len() as int);
        assert(s =~= a + "</Types>"@ + b);
        let t = a + type_entry() + "</Types>"@ + b;
        assert(types_with_comments(s) =~= t);
        lemma_type_entry();
        assert(contains(type_entry(), "/word/comments.xml"@));
        parts_hold_in_the_whole(a, type_entry(), "</Types>"@ + b, "/word/comments.xml"@);
        assert(a + type_entry() + ("</Types>"@ + b) =~= t);
        (a, b)
    } else {
        (Seq::empty(), Seq::empty())
    }
}

/// The comments part is among the relationships of the document once it was
/// entered, under an id of its own, if the list has an end at all. Entering it
/// again changes nothing, and what was there stays around the new entry.
pub proof fn relationships_name_the_comments(s: Seq<char>) -> (r: (Seq<char>, Seq<char>))
    ensures
        contains(s, "comments.xml"@) ==> rels_with_comments(s) == s,
        !contains(s, "comments.xml"@) && contains(s, "</Relationships>"@) ==> s == r.0
            + "</Relationships>"@ + r.1 && rels_with_comments(s) == r.0 + "<Relationship Id=\""@
            + fresh_rid_of(s) + relationship_tail() + "</Relationships>"@ + r.1,
        contains(s, "</Relationships>"@) ==> contains(rels_with_comments(s), "comments.xml"@),
        contains(s, "</Relationships>"@) ==> rels_with_comments(rels_with_comments(s))
            == rels_with_comments(s),
        contains(only_comments_rels(), "comments.xml"@),
{
    lemma_find_from(s, "</Relationships>"@, 0);
    lemma_relationship_tail();
    assert(contains(relationship_tail(), "comments.xml"@));
    parts_hold_in_the_whole(
        "<?xml version=\"1.0\" encoding=\"UTF-8\" standalone=\"yes\"?>\n<Relationships xmlns=\"http://schemas.openxmlformats.org/package/2006/relationships\"><Relationship Id=\"rIdCb1"@,
        relationship_tail(),
        "</Relationships>"@,
        "comments.xml"@,
    );
    if !contains(s, "comments.xml"@) && contains(s, "</Relationships>"@) {
        let w = choose|i: int| occurs_at(s, "</Relationships>"@, i);
        let i = find(s, "</Relationships>"@)->0;
        let a = s.subrange(0, i);
        let b = s.subrange(i + "</Relationships>"@.len(), s.len() as int);
        assert(s =~= a + "</Relationships>"@ + b);
        let head = a + "<Relationship Id=\""@ + fresh_rid_of(s);
        let t = head + relationship_tail() + "</Relationships>"@ + b;
        assert(rels_with_comments(s) =~= t);
        parts_hold_in_the_whole(
            head,
            relationship_tail(),
            "</Relationships>"@ + b,
            "comments.xml"@,
        );
        assert(head + relationship_tail() + ("</Relationships>"@ + b) =~= t);
        (a, b)
    } else {
        (Seq::empty(), Seq::empty())
    }
}

/// Entering the comments touches the content types and the relationships alone: every
/// other part stays as it is and where it is. It fails only where the content types
/// are missing, or one of the two is no text.
pub proof fn entering_comments_touches_two_parts(parts: Seq<(Seq<char>, Seq<u8>)>, i: int)
    ensures
        with_comments_entered(parts) matches Ok(after) ==> parts.len() <= after.len()
            <= parts.len() + 1 && (0 <= i < parts.len() ==> after[i].0 == parts[i].0) && (0 <= i
            < parts.len() && parts[i].0 != "[Content_Types].xml"@ && parts[i].0
            != "word/_rels/document.xml.rels"@ ==> after[i] == parts[i]),
        with_comments_entered(parts) matches Ok(after) ==> exists|k: int|
            0 <= k < after.len() && (#[trigger] after[k]).0 == "word/_rels/document.xml.rels"@,
        (forall|k: int| 0 <= k < parts.len() ==> (#[trigger] parts[k]).0 != "[Content_Types].xml"@)
            ==> with_comments_entered(parts) is Err,
        (forall|k: int| 0 <= k < parts.len() ==> valid_utf8((#[trigger] parts[k]).1)) && 0 <= i
            < parts.len() && parts[i].0 == "[Content_Types].xml"@ ==> with_comments_entered(
            parts,
        ) is Ok,
{
    let types = "[Content_Types].xml"@;
    let rels = "word/_rels/document.xml.rels"@;
    reveal_strlit("[Content_Types].xml");
    reveal_strlit("word/_rels/document.xml.rels");
    assert(types.len() != rels.len());
    lemma_first_named(parts, types, 0);
    let a = first_named(parts, types, 0);
    if a < parts.len() && valid_utf8(parts[a].1) {
        let mid = parts.update(
            a,
            (types, encode_utf8(types_with_comments(decode_utf8(parts[a].1)))),
        );
        lemma_first_named(mid, rels, 0);
        let b = first_named(mid, rels, 0);
        if let Ok(after) = with_comments_entered(parts) {
            assert(after[b].0 == rels);
        }
        if b < mid.len() {
            assert(b != a);
            assert(mid[b] == parts[b]);
        }
    }
}

} // verus!
