//! The keys of cached queries.
//!
//! A key is made of the type of a query and the first twelve digits of the MD5
//! digest of its type and its parameters in canonical form.
use vstd::prelude::*;
use vstd::utf8::*;
use crate::json::{canonical, emit, Json, JsonModel};
use crate::text::{chars_of, copy_range, push_chars};

verus! {

/// The MD5 digest of some bytes in hexadecimal.
pub uninterp spec fn md5_digest(bytes: Seq<u8>) -> Seq<char>;

/// A lower-case hexadecimal digit.
pub open spec fn is_hex(c: char) -> bool {
    ('0' <= c && c <= '9') || ('a' <= c && c <= 'f')
}

/// `md5::compute` digests bytes; the digest's `LowerHex` writes it as two
/// lower-case hexadecimal digits for each of its sixteen bytes.
#[verifier::external_body]
pub(crate) fn md5_hex(bytes: &[u8]) -> (r: String)
    ensures
        r@ == md5_digest(bytes@),
        r@.len() == 32,
        forall|i: int| 0 <= i < r@.len() ==> is_hex(#[trigger] r@[i]),
{
    format!("{:x}", md5::compute(bytes))
}

/// The text that a query is known by.
pub open spec fn query_text(query_type: Seq<char>, params: JsonModel) -> Seq<char> {
    query_type + ":"@ + canonical(params)
}

/// The key for a type of query and a digest.
pub open spec fn key_of(query_type: Seq<char>, digest: Seq<char>) -> Seq<char> {
    query_type + "-"@ + digest.subrange(0, 12)
}

/// The key of a query.
pub open spec fn query_key(query_type: Seq<char>, params: JsonModel) -> Seq<char> {
    key_of(query_type, md5_digest(encode_utf8(query_text(query_type, params))))
}

/// The parameters of a query in canonical form.
pub fn canonical_json_str(v: &Json) -> (r: String)
    ensures
        r@ == canonical(v@),
{
    let mut out = String::new();
    emit(v, &mut out);
    assert(out@ =~= canonical(v@));
    out
}

/// The key for a type of query and a digest of at least twelve digits.
pub fn key_from_digest(query_type: &str, digest: &str) -> (r: String)
    requires
        digest@.len() >= 12,
    ensures
        r@ == key_of(query_type@, digest@),
{
    let mut out = String::from_str(query_type);
    out.append("-");
    let ds = chars_of(digest);
    let head = copy_range(ds.as_slice(), 0, 12);
    push_chars(&mut out, head.as_slice());
    out
}

/// The key of a query.
pub fn query_hash(query_type: &str, params: &Json) -> (r: String)
    ensures
        r@ == query_key(query_type@, params@),
{
    let mut raw = String::from_str(query_type);
    raw.append(":");
    let params_text = canonical_json_str(params);
    raw.append(params_text.as_str());
    let digest = md5_hex(raw.as_str().as_bytes());
    key_from_digest(query_type, digest.as_str())
}

/// The key of a query does not depend on the order in which its parameters are
/// given.
pub proof fn key_forgets_parameter_order(
    query_type: Seq<char>,
    a: Seq<(Seq<char>, JsonModel)>,
    b: Seq<(Seq<char>, JsonModel)>,
)
    requires
        crate::json::distinct_keys(a),
        crate::json::distinct_keys(b),
        forall|x: (Seq<char>, JsonModel)| #[trigger] a.contains(x) <==> b.contains(x),
    ensures
        query_key(query_type, JsonModel::Object(a)) == query_key(query_type, JsonModel::Object(b)),
{
    crate::json::canonical_forgets_member_order(a, b);
}

/// A key begins with the type of the query, so that two types never share one, and
/// ends in the first twelve digits of a digest. For a query that is the digest of its
/// type and its parameters.
pub proof fn keys_tell_types_apart(
    a: Seq<char>,
    b: Seq<char>,
    x: Seq<char>,
    y: Seq<char>,
    params: JsonModel,
)
    requires
        x.len() >= 12,
        y.len() >= 12,
    ensures
        (a + "-"@).is_prefix_of(key_of(a, x)),
        key_of(a, x).len() == a.len() + 13,
        x.subrange(0, 12).is_suffix_of(key_of(a, x)),
        a != b ==> key_of(a, x) != key_of(b, y),
        query_key(a, params) == key_of(a, md5_digest(encode_utf8(a + ":"@ + canonical(params)))),
{
    reveal_strlit("-");
    let k = key_of(a, x);
    let l = key_of(b, y);
    assert(k.subrange(0, (a + "-"@).len() as int) =~= a + "-"@);
    assert(k.subrange(k.len() - 12, k.len() as int) =~= x.subrange(0, 12));
    if k == l {
        assert(a.len() == b.len());
        assert(k.subrange(0, a.len() as int) =~= a);
        assert(l.subrange(0, b.len() as int) =~= b);
    }
}

} // verus!
