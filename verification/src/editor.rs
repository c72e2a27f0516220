//! Saving a document from the editor.
//!
//! Only documents that the assistant wrote can be saved. They begin with a
//! comment that says what they are.
use vstd::prelude::*;
use vstd::utf8::*;
use crate::text::{
    cat3, chars_of, contains, decimal, decimal_text, occurs_at, replace_all, replace_text, same_text,
    trim, trim_text,
};

verus! {

/// A text may have this many bytes.
pub const TEXT_FILE_MAX_BYTES: u64 = 5_242_880;

/// What is known of a document that is to be saved.
pub struct EditedDoc {
    pub category: Option<String>,
    pub is_ai_artifact: bool,
    pub source: String,
}

/// What is said against saving, if anything.
pub open spec fn save_objection(len: nat, doc: Option<EditedDoc>) -> Option<Seq<char>> {
    if len > TEXT_FILE_MAX_BYTES {
        Some("文书内容太大("@ + decimal(len) + " 字节),超过 5 MB 上限"@)
    } else {
        match doc {
            None => Some("文书不存在或已删除(doc_id 无效)"@),
            Some(d) => if !d.is_ai_artifact {
                Some("只能编辑 AI 生成的文书,不能覆盖导入的原始文件"@)
            } else if d.source@ != "chat"@ && d.source@ != "chat_artifact"@ {
                Some("只能编辑 AI 助手生成的文书,不能覆盖导入/扫描的原始文件"@)
            } else {
                None
            },
        }
    }
}

/// Line ends as spaces.
pub open spec fn one_line(s: Seq<char>) -> Seq<char> {
    Seq::new(
        s.len(),
        |i: int|
            if s[i] == '\n' || s[i] == '\r' {
                ' '
            } else {
                s[i]
            },
    )
}

/// A title that can stand in a comment.
pub open spec fn comment_title(title: Seq<char>) -> Seq<char> {
    trim(replace_all(one_line(title), "-->"@, "—>"@))
}

/// What is written: the comment, and the text behind it.
pub open spec fn saved_text(
    category: Option<String>,
    title: Seq<char>,
    now: Seq<char>,
    content: Seq<char>,
) -> Seq<char> {
    "<!-- filing · doc_type="@ + (match category {
        Some(c) => c@,
        None => Seq::empty(),
    }) + " · title="@ + comment_title(title) + " · ts="@ + now + " -->\n\n"@ + content
}

/// A title that can stand in a comment: on one line, and without the sign that
/// ends a comment.
pub fn safe_title(title: &str) -> (r: String)
    ensures
        r@ == comment_title(title@),
{
    let cs = chars_of(title);
    let mut flat = String::new();
    let mut i: usize = 0;
    while i < cs.len()
        invariant
            i <= cs@.len(),
            cs@ == title@,
            flat@ =~= one_line(title@).subrange(0, i as int),
        decreases cs@.len() - i,
    {
        if cs[i] == '\n' || cs[i] == '\r' {
            flat.push(' ');
        } else {
            flat.push(cs[i]);
        }
        i = i + 1;
    }
    assert(flat@ =~= one_line(title@));
    let t = replace_text(flat.as_str(), "-->", "—>");
    trim_text(t.as_str())
}

/// What is to be written for a document, unless it cannot be saved: it is too
/// long, is not there, or is not one that the assistant wrote.
pub fn write_editor_doc(doc: Option<EditedDoc>, title: &str, content_md: &str, now: &str) -> (r:
    Result<String, String>)
    ensures
        match save_objection(encode_utf8(content_md@).len(), doc) {
            Some(m) => r matches Err(e) && e@ == m,
            None => doc matches Some(d) && r matches Ok(b) && b@ == saved_text(
                d.category,
                title@,
                now@,
                content_md@,
            ),
        },
{
    let len: usize = content_md.as_bytes().len();
    if len as u64 > TEXT_FILE_MAX_BYTES {
        let n = decimal_text(len as u128);
        return Err(cat3("文书内容太大(", n.as_str(), " 字节),超过 5 MB 上限"));
    }
    let d = match doc {
        Some(d) => d,
        None => {
            return Err(String::from_str("文书不存在或已删除(doc_id 无效)"));
        },
    };
    if !d.is_ai_artifact {
        return Err(
            String::from_str("只能编辑 AI 生成的文书,不能覆盖导入的原始文件"),
        );
    }
    if !same_text(d.source.as_str(), "chat") && !same_text(d.source.as_str(), "chat_artifact") {
        return Err(
            String::from_str("只能编辑 AI 助手生成的文书,不能覆盖导入/扫描的原始文件"),
        );
    }
    let t = safe_title(title);
    let mut out = String::from_str("<!-- filing · doc_type=");
    let ghost before = out@;
    match &d.category {
        Some(c) => out.append(c.as_str()),
        None => {
            assert(before + Seq::<char>::empty() =~= before);
        },
    }
    out.append(" · title=");
    out.append(t.as_str());
    out.append(" · ts=");
    out.append(now);
    out.append(" -->\n\n");
    out.append(content_md);
    Ok(out)
}

/// No file that was not written by the assistant is ever overwritten.
pub proof fn originals_are_never_overwritten(len: nat, doc: Option<EditedDoc>)
    requires
        save_objection(len, doc) is None,
    ensures
        doc matches Some(d) && d.is_ai_artifact && (d.source@ == "chat"@ || d.source@
            == "chat_artifact"@),
{
}

/// The sign that ends a comment does not survive its replacement.
proof fn lemma_no_end_sign(s: Seq<char>)
    ensures
        !contains(replace_all(s, "-->"@, "—>"@), "-->"@),
    decreases s.len(),
{
    reveal_strlit("-->");
    reveal_strlit("—>");
    let pat = "-->"@;
    let rep = "—>"@;
    let out = replace_all(s, pat, rep);
    if s.len() < 3 {
        assert forall|i: int| !occurs_at(out, pat, i) by {}
    } else if s.subrange(0, 3) == pat {
        let rest = s.subrange(3, s.len() as int);
        lemma_no_end_sign(rest);
        let r = replace_all(rest, pat, rep);
        assert forall|i: int| !occurs_at(out, pat, i) by {
            if occurs_at(out, pat, i) {
                assert(out.subrange(i, i + 3)[0] == '-');
                assert(out[i] == '-');
                assert(out[0] == '—' && out[1] == '>');
                assert(i >= 2);
                assert(r.subrange(i - 2, i + 1) =~= out.subrange(i, i + 3));
                assert(occurs_at(r, pat, i - 2));
            }
        }
    } else {
        let t = s.drop_first();
        lemma_no_end_sign(t);
        let r = replace_all(t, pat, rep);
        assert forall|i: int| !occurs_at(out, pat, i) by {
            if occurs_at(out, pat, i) {
                if i > 0 {
                    assert(r.subrange(i - 1, i + 2) =~= out.subrange(i, i + 3));
                    assert(occurs_at(r, pat, i - 1));
                } else {
                    assert(out.subrange(0, 3)[0] == '-' && out.subrange(0, 3)[1] == '-'
                        && out.subrange(0, 3)[2] == '>');
                    assert(s[0] == '-');
                    assert(r[0] == '-' && r[1] == '>');
                    lemma_first_kept(t);
                    let u = t.drop_first();
                    let ru = replace_all(u, pat, rep);
                    assert(t[0] == '-');
                    if t.len() >= 3 {
                        assert(t.subrange(0, 3) != pat);
                        assert(r == seq![t[0]] + ru);
                    }
                    assert(ru[0] == '>' || t.len() < 3);
                    if t.len() >= 3 {
                        lemma_first_kept(u);
                        assert(u[0] == '>');
                        assert(s[1] == t[0] && s[2] == u[0]);
                    } else {
                        assert(r == t);
                        assert(s[1] == t[0] && s[2] == t[1]);
                    }
                    assert(s.subrange(0, 3) =~= pat);
                }
            }
        }
    }
}

/// The first character of a text with replacements is that of the text, or that
/// of a replacement.
proof fn lemma_first_kept(s: Seq<char>)
    ensures
        ({
            let out = replace_all(s, "-->"@, "—>"@);
            out.len() > 0 && out[0] != '—' ==> s.len() > 0 && out[0] == s[0] && (s.len() < 3
                || s.subrange(0, 3) != "-->"@)
        }),
{
    reveal_strlit("-->");
    reveal_strlit("—>");
}

proof fn lemma_trim_contains(s: Seq<char>, pat: Seq<char>)
    requires
        !contains(s, pat),
    ensures
        !contains(trim(s), pat),
{
    let t = crate::text::trim_start(s);
    lemma_trim_start_contains(s, pat);
    lemma_trim_end_contains(t, pat);
}

proof fn lemma_trim_start_contains(s: Seq<char>, pat: Seq<char>)
    requires
        !contains(s, pat),
    ensures
        !contains(crate::text::trim_start(s), pat),
    decreases s.len(),
{
    if s.len() > 0 && crate::text::is_white(s[0]) {
        let t = s.drop_first();
        assert forall|i: int| !occurs_at(t, pat, i) by {
            if occurs_at(t, pat, i) {
                assert(s.subrange(i + 1, i + 1 + pat.len()) =~= t.subrange(i, i + pat.len()));
                assert(occurs_at(s, pat, i + 1));
            }
        }
        lemma_trim_start_contains(t, pat);
    }
}

proof fn lemma_trim_end_contains(s: Seq<char>, pat: Seq<char>)
    requires
        !contains(s, pat),
    ensures
        !contains(crate::text::trim_end(s), pat),
    decreases s.len(),
{
    if s.len() > 0 && crate::text::is_white(s.last()) {
        let t = s.drop_last();
        assert forall|i: int| !occurs_at(t, pat, i) by {
            if occurs_at(t, pat, i) {
                assert(s.subrange(i, i + pat.len()) =~= t.subrange(i, i + pat.len()));
                assert(occurs_at(s, pat, i));
            }
        }
        lemma_trim_end_contains(t, pat);
    }
}

/// Each character of a text with replacements is from the text or from a
/// replacement.
proof fn lemma_replaced_chars(s: Seq<char>, c: char)
    requires
        !s.contains(c),
        c != '—',
        c != '>',
    ensures
        !replace_all(s, "-->"@, "—>"@).contains(c),
    decreases s.len(),
{
    reveal_strlit("-->");
    reveal_strlit("—>");
    let out = replace_all(s, "-->"@, "—>"@);
    if s.len() >= 3 {
        let rest = if s.subrange(0, 3) == "-->"@ {
            s.subrange(3, s.len() as int)
        } else {
            s.drop_first()
        };
        assert(!rest.contains(c)) by {
            if rest.contains(c) {
                let k = choose|k: int| 0 <= k < rest.len() && rest[k] == c;
                assert(s[k + (s.len() - rest.len())] == c);
            }
        }
        lemma_replaced_chars(rest, c);
        let r = replace_all(rest, "-->"@, "—>"@);
        if out.contains(c) {
            let k = choose|k: int| 0 <= k < out.len() && out[k] == c;
            let d = out.len() - r.len();
            if k >= d {
                assert(r[k - d] == c);
            } else {
                assert(s.contains(s[0]));
            }
        }
    }
}

proof fn lemma_trimmed_chars(s: Seq<char>, c: char)
    requires
        !s.contains(c),
    ensures
        !trim(s).contains(c),
{
    let one = seq![c];
    assert forall|i: int| !occurs_at(s, one, i) by {
        if occurs_at(s, one, i) {
            assert(s.subrange(i, i + 1)[0] == c);
            assert(s[i] == c);
        }
    }
    lemma_trim_contains(s, one);
    if trim(s).contains(c) {
        let k = choose|k: int| 0 <= k < trim(s).len() && trim(s)[k] == c;
        assert(trim(s).subrange(k, k + 1) =~= one);
        assert(occurs_at(trim(s), one, k));
    }
}

/// No title can end the comment that it stands in, or its line.
pub proof fn titles_cannot_end_the_comment(title: Seq<char>)
    ensures
        !contains(comment_title(title), "-->"@),
        !comment_title(title).contains('\n'),
        !comment_title(title).contains('\r'),
{
    let flat = one_line(title);
    let out = replace_all(flat, "-->"@, "—>"@);
    lemma_no_end_sign(flat);
    lemma_trim_contains(out, "-->"@);
    lemma_replaced_chars(flat, '\n');
    lemma_replaced_chars(flat, '\r');
    lemma_trimmed_chars(out, '\n');
    lemma_trimmed_chars(out, '\r');
}

/// A document is saved if and only if it is not too long and is one that the
/// assistant wrote.
pub proof fn own_documents_can_be_saved(len: nat, doc: Option<EditedDoc>)
    ensures
        save_objection(len, doc) is None <==> len <= 5_242_880 && doc is Some
            && doc->0.is_ai_artifact && (doc->0.source@ == "chat"@ || doc->0.source@
            == "chat_artifact"@),
{
}

/// What is saved is the text as it is behind one comment, and the comment names the
/// kind of document, the title and the time.
pub proof fn saved_texts_are_kept(
    category: Option<String>,
    title: Seq<char>,
    now: Seq<char>,
    content: Seq<char>,
) -> (head: Seq<char>)
    ensures
        saved_text(category, title, now, content) == head + " -->\n\n"@ + content,
        category is Some ==> head == "<!-- filing · doc_type="@ + category->0@ + " · title="@
            + comment_title(title) + " · ts="@ + now,
        category is None ==> head == "<!-- filing · doc_type="@ + " · title="@ + comment_title(
            title,
        ) + " · ts="@ + now,
{
    let kind = match category {
        Some(c) => c@,
        None => Seq::empty(),
    };
    let head = "<!-- filing · doc_type="@ + kind + " · title="@ + comment_title(title) + " · ts="@
        + now;
    assert("<!-- filing · doc_type="@ + Seq::<char>::empty() =~= "<!-- filing · doc_type="@);
    assert(saved_text(category, title, now, content) =~= head + " -->\n\n"@ + content);
    head
}

proof fn lemma_nothing_replaced(s: Seq<char>, pat: Seq<char>, rep: Seq<char>)
    requires
        !contains(s, pat),
        pat.len() > 0,
    ensures
        replace_all(s, pat, rep) == s,
    decreases s.len(),
{
    if s.len() >= pat.len() {
        assert(!occurs_at(s, pat, 0));
        let t = s.drop_first();
        assert forall|i: int| !occurs_at(t, pat, i) by {
            if occurs_at(t, pat, i) {
                assert(s.subrange(i + 1, i + 1 + pat.len()) =~= t.subrange(i, i + pat.len()));
                assert(occurs_at(s, pat, i + 1));
            }
        }
        lemma_nothing_replaced(t, pat, rep);
        assert(seq![s[0]] + t =~= s);
    }
}

/// A title on one line without the sign that ends a comment is only trimmed.
pub proof fn plain_titles_are_only_trimmed(title: Seq<char>)
    requires
        !title.contains('\n'),
        !title.contains('\r'),
        !contains(title, "-->"@),
    ensures
        comment_title(title) == trim(title),
{
    assert(one_line(title) =~= title) by {
        assert forall|i: int| 0 <= i < title.len() implies one_line(title)[i] == title[i] by {
            assert(title.contains(title[i]));
        }
    }
    reveal_strlit("-->");
    lemma_nothing_replaced(title, "-->"@, "—>"@);
}

} // verus!
