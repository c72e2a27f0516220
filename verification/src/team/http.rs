//! The requests by which the machines of a team talk to each other: POST, with
//! a length and a small body.
use vstd::prelude::*;
use vstd::utf8::*;
use crate::json::optional;
use crate::lines::{all_lines, lines_of, split_words, words_of};
use crate::numbers::{parse_unsigned, unsigned_of};
use crate::text::{
    ascii_lower, cat3, chars_of, contains, copy_range, decimal, decimal_text, find, find_bytes,
    find_chars, lemma_find_from, lower_text, occurs_at, parts_hold_in_the_whole, same_text,
    string_of, texts, trim, trim_text,
};

verus! {

/// A body may have this many bytes.
pub const MAX_BODY: usize = 4_194_304;

/// A head may have this many bytes before its end is seen.
pub const MAX_HEAD: usize = 65_536;

/// A request.
pub struct HttpReq {
    pub path: String,
    /// Names in small letters.
    pub headers: Vec<(String, String)>,
    pub body: Vec<u8>,
}

/// The text that `String::from_utf8_lossy` makes of some bytes.
pub uninterp spec fn lossy_text(bytes: Seq<u8>) -> Seq<char>;

/// `String::from_utf8_lossy` makes a text of any bytes. It depends on the bytes
/// alone, and bytes that are UTF-8 are taken as they are.
#[verifier::external_body]
fn read_lossy(bytes: &[u8]) -> (r: String)
    ensures
        r@ == lossy_text(bytes@),
        valid_utf8(bytes@) ==> r@ == decode_utf8(bytes@),
{
    String::from_utf8_lossy(bytes).into_owned()
}

/// What a head says.
pub struct Head {
    pub path: String,
    pub headers: Vec<(String, String)>,
    pub length: usize,
}

/// What a head says, as data.
pub struct HeadModel {
    pub path: Seq<char>,
    pub headers: Seq<(Seq<char>, Seq<char>)>,
    pub length: nat,
}

pub open spec fn headers_model(v: Seq<(String, String)>) -> Seq<(Seq<char>, Seq<char>)> {
    Seq::new(v.len(), |i: int| (v[i].0@, v[i].1@))
}

impl View for Head {
    type V = HeadModel;

    open spec fn view(&self) -> HeadModel {
        HeadModel {
            path: self.path@,
            headers: headers_model(self.headers@),
            length: self.length as nat,
        }
    }
}

/// The header that a line holds: what stands before and behind the first colon.
pub open spec fn header_in(line: Seq<char>) -> Option<(Seq<char>, Seq<char>)> {
    match find(line, seq![':']) {
        None => None,
        Some(i) => Some(
            (
                ascii_lower(trim(line.subrange(0, i))),
                trim(line.subrange(i + 1, line.len() as int)),
            ),
        ),
    }
}

/// The headers that some lines hold.
pub open spec fn headers_in(lines: Seq<Seq<char>>) -> Seq<(Seq<char>, Seq<char>)>
    decreases lines.len(),
{
    if lines.len() == 0 {
        Seq::empty()
    } else {
        match header_in(lines.last()) {
            Some(h) => headers_in(lines.drop_last()).push(h),
            None => headers_in(lines.drop_last()),
        }
    }
}

/// The value of the last header of a name.
pub open spec fn header_value(headers: Seq<(Seq<char>, Seq<char>)>, name: Seq<char>) -> Option<
    Seq<char>,
>
    decreases headers.len(),
{
    if headers.len() == 0 {
        None
    } else if headers.last().0 == name {
        Some(headers.last().1)
    } else {
        header_value(headers.drop_last(), name)
    }
}

/// The word of a number, or nothing.
pub open spec fn word_at(words: Seq<Seq<char>>, i: int) -> Seq<char> {
    if i < words.len() {
        words[i]
    } else {
        Seq::empty()
    }
}

/// What a head says, or what is said against it.
pub open spec fn head_of(text: Seq<char>) -> Result<HeadModel, Seq<char>> {
    let lines = lines_of(text);
    let first = if lines.len() > 0 {
        lines[0]
    } else {
        Seq::empty()
    };
    let words = words_of(first);
    let rest = if lines.len() > 0 {
        lines.subrange(1, lines.len() as int)
    } else {
        Seq::empty()
    };
    let headers = headers_in(rest);
    if word_at(words, 0) != "POST"@ {
        Err("只支持 POST"@)
    } else {
        match header_value(headers, "content-length"@) {
            None => Err("缺 Content-Length"@),
            Some(v) => match unsigned_of(v, usize::MAX as nat) {
                None => Err("缺 Content-Length"@),
                Some(n) => if n > MAX_BODY {
                    Err("body 过大"@)
                } else {
                    Ok(HeadModel { path: word_at(words, 1), headers, length: n })
                },
            },
        }
    }
}

fn find_header(headers: &Vec<(String, String)>, name: &str) -> (r: Option<String>)
    ensures
        optional(r) == header_value(headers_model(headers@), name@),
{
    let ghost all = headers_model(headers@);
    let mut n: usize = headers.len();
    assert(all.subrange(0, n as int) =~= all);
    while n > 0
        invariant
            n <= headers@.len(),
            all == headers_model(headers@),
            header_value(all, name@) == header_value(all.subrange(0, n as int), name@),
        decreases n,
    {
        let ghost part = all.subrange(0, n as int);
        assert(part.last() == (headers@[n - 1].0@, headers@[n - 1].1@));
        assert(part.drop_last() =~= all.subrange(0, n - 1));
        if same_text(headers[n - 1].0.as_str(), name) {
            return Some(headers[n - 1].1.clone());
        }
        n = n - 1;
    }
    None
}

fn read_header(line: &str) -> (r: Option<(String, String)>)
    ensures
        match r {
            Some(h) => header_in(line@) == Some((h.0@, h.1@)),
            None => header_in(line@) is None,
        },
{
    let cs = chars_of(line);
    let colon: Vec<char> = vec![':'];
    assert(colon@ =~= seq![':']);
    proof {
        lemma_find_from(line@, seq![':'], 0);
    }
    match find_chars(cs.as_slice(), colon.as_slice(), 0) {
        None => None,
        Some(i) => {
            let n: usize = cs.len();
            let k = copy_range(cs.as_slice(), 0, i);
            let v = copy_range(cs.as_slice(), i + 1, n);
            let kt = string_of(k.as_slice());
            let vt = string_of(v.as_slice());
            let key = trim_text(kt.as_str());
            Some((lower_text(key.as_str()), trim_text(vt.as_str())))
        },
    }
}

/// Reads a head.
pub fn parse_head(text: &str) -> (r: Result<Head, String>)
    ensures
        match head_of(text@) {
            Ok(h) => r matches Ok(x) && x@ == h,
            Err(e) => r matches Err(m) && m@ == e,
        },
{
    let lines = all_lines(text);
    let ghost all = texts(lines@);
    assert(all.len() == lines@.len());
    let words = if lines.len() > 0 {
        assert(all[0] == lines@[0]@);
        split_words(lines[0].as_str())
    } else {
        let w = split_words("");
        assert(""@ =~= Seq::<char>::empty()) by {
            reveal_strlit("");
        }
        w
    };
    assert(texts(words@).len() == words@.len());
    let method_ok = words.len() > 0 && same_text(words[0].as_str(), "POST");
    if !method_ok {
        proof {
            reveal_strlit("POST");
        }
        return Err(String::from_str("只支持 POST"));
    }
    let path = if words.len() > 1 {
        words[1].clone()
    } else {
        let e = String::new();
        assert(e@ =~= Seq::<char>::empty());
        e
    };
    let ghost rest = if all.len() > 0 {
        all.subrange(1, all.len() as int)
    } else {
        Seq::empty()
    };
    let mut headers: Vec<(String, String)> = Vec::new();
    let n: usize = lines.len();
    let mut i: usize = 1;
    assert(headers_model(headers@) =~= headers_in(rest.subrange(0, 0)));
    while i < n
        invariant
            1 <= i,
            i <= n || n == 0,
            n == lines@.len(),
            all == texts(lines@),
            rest == (if all.len() > 0 {
                all.subrange(1, all.len() as int)
            } else {
                Seq::empty()
            }),
            headers_model(headers@) == headers_in(rest.subrange(0, i - 1)),
        decreases n - i,
    {
        assert(rest.subrange(0, i as int).drop_last() =~= rest.subrange(0, i - 1));
        assert(rest.subrange(0, i as int).last() == lines@[i as int]@);
        if let Some(h) = read_header(lines[i].as_str()) {
            let ghost before = headers_model(headers@);
            headers.push(h);
            assert(headers_model(headers@) =~= before.push((h.0@, h.1@)));
        }
        i = i + 1;
    }
    assert(rest.subrange(0, i - 1) =~= rest);
    match find_header(&headers, "content-length") {
        None => Err(String::from_str("缺 Content-Length")),
        Some(v) => match parse_unsigned(v.as_str(), usize::MAX) {
            None => Err(String::from_str("缺 Content-Length")),
            Some(length) => if length > MAX_BODY {
                Err(String::from_str("body 过大"))
            } else {
                Ok(Head { path, headers, length })
            },
        },
    }
}

/// The bytes behind a head.
pub open spec fn head_end() -> Seq<u8> {
    seq![13u8, 10u8, 13u8, 10u8]
}

/// A request as data.
pub struct ReqModel {
    pub path: Seq<char>,
    pub headers: Seq<(Seq<char>, Seq<char>)>,
    pub body: Seq<u8>,
}

impl View for HttpReq {
    type V = ReqModel;

    open spec fn view(&self) -> ReqModel {
        ReqModel {
            path: self.path@,
            headers: headers_model(self.headers@),
            body: self.body@,
        }
    }
}

/// What the bytes received so far come to.
pub enum Verdict {
    /// More is needed.
    More,
    Done(HttpReq),
    Refuse(String),
}

/// What the bytes received so far come to, as data.
pub enum VerdictModel {
    More,
    Done(ReqModel),
    Refuse(Seq<char>),
}

impl View for Verdict {
    type V = VerdictModel;

    open spec fn view(&self) -> VerdictModel {
        match *self {
            Verdict::More => VerdictModel::More,
            Verdict::Done(r) => VerdictModel::Done(r@),
            Verdict::Refuse(e) => VerdictModel::Refuse(e@),
        }
    }
}

/// What a request comes to whose head ends at `pos`, given what the head says.
pub open spec fn with_head(
    buf: Seq<u8>,
    pos: int,
    head: Result<HeadModel, Seq<char>>,
) -> VerdictModel {
    match head {
        Err(e) => VerdictModel::Refuse(e),
        Ok(h) => if buf.len() - (pos + 4) < h.length {
            VerdictModel::More
        } else {
            VerdictModel::Done(
                ReqModel {
                    path: h.path,
                    headers: h.headers,
                    body: buf.subrange(pos + 4, pos + 4 + h.length),
                },
            )
        },
    }
}

/// What the bytes received so far come to.
pub open spec fn judged(buf: Seq<u8>) -> VerdictModel {
    match find(buf, head_end()) {
        None => if buf.len() > MAX_HEAD {
            VerdictModel::Refuse("头部过大"@)
        } else {
            VerdictModel::More
        },
        Some(pos) => with_head(buf, pos, head_of(lossy_text(buf.subrange(0, pos)))),
    }
}

/// Where some bytes stand first among others.
pub fn find_subslice(hay: &[u8], needle: &[u8]) -> (r: Option<usize>)
    ensures
        match r {
            Some(i) => find(hay@, needle@) == Some(i as int),
            None => find(hay@, needle@) is None,
        },
{
    find_bytes(hay, needle, 0)
}

fn copy_bytes(b: &Vec<u8>, from: usize, to: usize) -> (r: Vec<u8>)
    requires
        from <= to <= b@.len(),
    ensures
        r@ == b@.subrange(from as int, to as int),
{
    let mut r: Vec<u8> = Vec::new();
    let mut i: usize = from;
    while i < to
        invariant
            from <= i <= to <= b@.len(),
            r@ == b@.subrange(from as int, i as int),
        decreases to - i,
    {
        r.push(b[i]);
        assert(b@.subrange(from as int, i + 1) =~= b@.subrange(from as int, i as int).push(
            b@[i as int],
        ));
        i = i + 1;
    }
    r
}

/// What a request comes to whose head ends at `pos`, given what the head says.
pub fn judge_with_head(buf: &Vec<u8>, pos: usize, head: Result<Head, String>) -> (r: Verdict)
    requires
        pos + 4 <= buf@.len(),
    ensures
        r@ == with_head(
            buf@,
            pos as int,
            match head {
                Ok(h) => Ok(h@),
                Err(e) => Err(e@),
            },
        ),
{
    match head {
        Err(e) => Verdict::Refuse(e),
        Ok(h) => {
            let n: usize = buf.len();
            if n - (pos + 4) < h.length {
                return Verdict::More;
            }
            let body = copy_bytes(buf, pos + 4, pos + 4 + h.length);
            Verdict::Done(HttpReq { path: h.path, headers: h.headers, body })
        },
    }
}

/// What the bytes received so far come to: a request, a refusal, or that more
/// is needed.
pub fn judge_request(buf: &Vec<u8>) -> (r: Verdict)
    ensures
        r@ == judged(buf@),
{
    let mark: Vec<u8> = vec![13, 10, 13, 10];
    assert(mark@ =~= head_end());
    proof {
        lemma_find_from(buf@, head_end(), 0);
    }
    match find_subslice(buf.as_slice(), mark.as_slice()) {
        None => if buf.len() > MAX_HEAD {
            Verdict::Refuse(String::from_str("头部过大"))
        } else {
            Verdict::More
        },
        Some(pos) => {
            let head_bytes = copy_bytes(buf, 0, pos);
            let text = read_lossy(head_bytes.as_slice());
            let head = parse_head(text.as_str());
            judge_with_head(buf, pos, head)
        },
    }
}

/// What is said when a connection is closed before a request is whole.
pub fn closed_early(buf: &Vec<u8>) -> (r: String)
    ensures
        r@ == if find(buf@, head_end()) is None {
            "连接提前关闭"@
        } else {
            "body 不完整"@
        },
{
    let mark: Vec<u8> = vec![13, 10, 13, 10];
    assert(mark@ =~= head_end());
    match find_subslice(buf.as_slice(), mark.as_slice()) {
        None => String::from_str("连接提前关闭"),
        Some(_) => String::from_str("body 不完整"),
    }
}

/// Bytes that follow a request, or a head that was refused, change nothing: it
/// does not matter in what pieces a request arrives.
pub proof fn later_bytes_change_nothing(buf: Seq<u8>, more: Seq<u8>)
    requires
        find(buf, head_end()) is Some,
        !(judged(buf) is More),
    ensures
        judged(buf + more) == judged(buf),
{
    let all = buf + more;
    lemma_find_from(buf, head_end(), 0);
    lemma_find_from(all, head_end(), 0);
    let pos = find(buf, head_end())->0;
    assert(all.subrange(pos, pos + 4) =~= buf.subrange(pos, pos + 4));
    assert(occurs_at(all, head_end(), pos));
    let first = find(all, head_end())->0;
    if first < pos {
        assert(buf.subrange(first, first + 4) =~= all.subrange(first, first + 4));
        assert(occurs_at(buf, head_end(), first));
    }
    assert(all.subrange(0, pos) =~= buf.subrange(0, pos));
    if let Ok(h) = head_of(lossy_text(buf.subrange(0, pos))) {
        assert(all.subrange(pos + 4, pos + 4 + h.length) =~= buf.subrange(
            pos + 4,
            pos + 4 + h.length,
        ));
    }
}

/// A body is never longer than it may be.
pub proof fn bodies_are_bounded(buf: Seq<u8>)
    ensures
        judged(buf) matches VerdictModel::Done(r) ==> r.body.len() <= MAX_BODY,
{
    lemma_find_from(buf, head_end(), 0);
}

/// The words for a status.
pub open spec fn status_words(status: u16) -> Seq<char> {
    if status == 200 {
        "OK"@
    } else if status == 400 {
        "Bad Request"@
    } else if status == 403 {
        "Forbidden"@
    } else if status == 404 {
        "Not Found"@
    } else {
        "Error"@
    }
}

/// A reply.
pub open spec fn reply_of(status: u16, body: Seq<char>, auth: Option<Seq<char>>) -> Seq<char> {
    "HTTP/1.1 "@ + decimal(status as nat) + " "@ + status_words(status)
        + "\r\nContent-Type: application/json\r\nContent-Length: "@ + decimal(
        encode_utf8(body).len(),
    ) + "\r\n"@ + (match auth {
        Some(a) => "x-team-auth: "@ + a + "\r\n"@,
        None => Seq::empty(),
    }) + "Connection: close\r\n\r\n"@ + body
}

/// A reply with its head. The length is that of the body in bytes.
pub fn http_reply(status: u16, body: &str, auth: &Option<String>) -> (r: String)
    ensures
        r@ == reply_of(status, body@, optional(*auth)),
{
    let mut out = String::from_str("HTTP/1.1 ");
    let code = decimal_text(status as u128);
    out.append(code.as_str());
    out.append(" ");
    out.append(
        if status == 200 {
            "OK"
        } else if status == 400 {
            "Bad Request"
        } else if status == 403 {
            "Forbidden"
        } else if status == 404 {
            "Not Found"
        } else {
            "Error"
        },
    );
    out.append("\r\nContent-Type: application/json\r\nContent-Length: ");
    let len = decimal_text(body.as_bytes().len() as u128);
    out.append(len.as_str());
    out.append("\r\n");
    let ghost before = out@;
    match auth {
        Some(a) => {
            let line = cat3("x-team-auth: ", a.as_str(), "\r\n");
            out.append(line.as_str());
        },
        None => {
            assert(before + Seq::<char>::empty() =~= before);
        },
    }
    out.append("Connection: close\r\n\r\n");
    out.append(body);
    out
}

/// What is asked for.
#[derive(Clone, Copy, Debug, PartialEq, Eq, Structural)]
pub enum Endpoint {
    Exchange,
    Join,
    Unknown,
}

/// What a path asks for.
pub fn endpoint(path: &str) -> (r: Endpoint)
    ensures
        r == if path@ == "/exchange"@ {
            Endpoint::Exchange
        } else if path@ == "/join"@ {
            Endpoint::Join
        } else {
            Endpoint::Unknown
        },
{
    if same_text(path, "/exchange") {
        Endpoint::Exchange
    } else if same_text(path, "/join") {
        Endpoint::Join
    } else {
        Endpoint::Unknown
    }
}

/// What proves that a request is from the team; empty if there is nothing.
pub fn claimed_auth(req: &HttpReq) -> (r: String)
    ensures
        r@ == match header_value(req@.headers, "x-team-auth"@) {
            Some(v) => v,
            None => Seq::empty(),
        },
{
    match find_header(&req.headers, "x-team-auth") {
        Some(v) => v,
        None => {
            let e = String::new();
            assert(e@ =~= Seq::<char>::empty());
            e
        },
    }
}

/// A line with a colon is a header: its name is what stands before the first colon,
/// in small letters, and its value all that stands behind, both trimmed.
pub proof fn headers_are_cut_at_the_first_colon(name: Seq<char>, value: Seq<char>)
    requires
        !name.contains(':'),
    ensures
        header_in(name + seq![':'] + value) == Some((ascii_lower(trim(name)), trim(value))),
        header_in(name) is None,
{
    let line = name + seq![':'] + value;
    lemma_find_from(line, seq![':'], 0);
    lemma_find_from(name, seq![':'], 0);
    let n = name.len() as int;
    assert(line.subrange(n, n + 1) =~= seq![':']);
    assert(occurs_at(line, seq![':'], n));
    let i = find(line, seq![':'])->0;
    if i < n {
        assert(line.subrange(i, i + 1)[0] == ':');
        assert(name[i] == ':');
    }
    assert(line.subrange(0, n) =~= name);
    assert(line.subrange(n + 1, line.len() as int) =~= value);
    if find(name, seq![':']) is Some {
        let j = find(name, seq![':'])->0;
        assert(name.subrange(j, j + 1)[0] == ':');
        assert(name[j] == ':');
    }
}

/// Of several headers of one name the last counts, and no header of another name
/// does.
pub proof fn the_last_header_counts(headers: Seq<(Seq<char>, Seq<char>)>, name: Seq<char>, k: int)
    ensures
        0 <= k < headers.len() && headers[k].0 == name && (forall|i: int|
            k < i < headers.len() ==> (#[trigger] headers[i]).0 != name) ==> header_value(
            headers,
            name,
        ) == Some(headers[k].1),
        header_value(headers, name) is None <==> forall|i: int|
            0 <= i < headers.len() ==> (#[trigger] headers[i]).0 != name,
    decreases headers.len(),
{
    if headers.len() > 0 {
        let w = headers.drop_last();
        let last = headers[headers.len() - 1];
        the_last_header_counts(w, name, k);
        assert(forall|i: int| 0 <= i < w.len() ==> w[i] == #[trigger] headers[i]);
        if last.0 != name {
            if forall|i: int| 0 <= i < w.len() ==> (#[trigger] w[i]).0 != name {
                assert forall|i: int| 0 <= i < headers.len() implies (#[trigger] headers[i]).0
                    != name by {
                    if i < w.len() {
                        assert(w[i].0 != name);
                    }
                }
            } else {
                let i = choose|i: int| 0 <= i < w.len() && (#[trigger] w[i]).0 == name;
                assert(headers[i].0 == name);
            }
        }
    }
}

/// A head is taken if and only if it is that of a POST whose last length is a number
/// that is not too great. What is taken is the second word of its first line, its
/// headers and that number.
pub proof fn posts_with_a_length_are_taken(text: Seq<char>)
    requires
        lines_of(text).len() > 0,
    ensures
        ({
            let words = words_of(lines_of(text)[0]);
            let headers = headers_in(lines_of(text).subrange(1, lines_of(text).len() as int));
            let value = header_value(headers, "content-length"@);
            &&& head_of(text) is Ok <==> words.len() > 0 && words[0] == "POST"@ && value is Some
                && unsigned_of(value->0, usize::MAX as nat) is Some && unsigned_of(
                value->0,
                usize::MAX as nat,
            )->0 <= 4_194_304
            &&& head_of(text) matches Ok(h) ==> h.headers == headers && Some(h.length)
                == unsigned_of(value->0, usize::MAX as nat) && (words.len() > 1 ==> h.path
                == words[1])
        }),
{
    reveal_strlit("POST");
}

/// A request is whole only if the empty line that ends its head is there and the
/// whole body behind it, and its body is just these bytes.
pub proof fn whole_requests_hold_their_body(buf: Seq<u8>)
    ensures
        judged(buf) matches VerdictModel::Done(r) ==> exists|pos: int|
            #![trigger buf.subrange(0, pos)]
            0 <= pos && pos + 4 + r.body.len() <= buf.len() && buf.subrange(pos, pos + 4) == seq![
                13u8,
                10u8,
                13u8,
                10u8,
            ] && r.body == buf.subrange(pos + 4, pos + 4 + r.body.len()) && (head_of(
                lossy_text(buf.subrange(0, pos)),
            ) matches Ok(h) && h.path == r.path && h.headers == r.headers && h.length
                == r.body.len()),
{
    lemma_find_from(buf, head_end(), 0);
    if let VerdictModel::Done(r) = judged(buf) {
        let pos = find(buf, head_end())->0;
        assert(occurs_at(buf, head_end(), pos));
        assert(buf.subrange(pos, pos + 4) == head_end());
        assert(r.body.len() == head_of(lossy_text(buf.subrange(0, pos)))->Ok_0.length);
    }
}

/// A reply ends with its body, behind an empty line, and its head says the status
/// and the number of bytes of the body.
pub proof fn replies_say_their_length(status: u16, body: Seq<char>, auth: Option<Seq<char>>) -> (r: (
    Seq<char>,
    Seq<char>,
))
    ensures
        reply_of(status, body, auth) == "HTTP/1.1 "@ + decimal(status as nat) + " "@ + r.0
            + "Content-Length: "@ + decimal(encode_utf8(body).len()) + "\r\n"@ + r.1
            + "\r\n\r\n"@ + body,
        auth matches Some(a) ==> contains(r.1, "x-team-auth: "@ + a + "\r\n"@),
{
    reveal_strlit("\r\nContent-Type: application/json\r\nContent-Length: ");
    reveal_strlit("Content-Length: ");
    reveal_strlit("\r\nContent-Type: application/json\r\n");
    reveal_strlit("Connection: close\r\n\r\n");
    reveal_strlit("Connection: close");
    reveal_strlit("\r\n\r\n");
    assert("\r\nContent-Type: application/json\r\nContent-Length: "@
        =~= "\r\nContent-Type: application/json\r\n"@ + "Content-Length: "@);
    assert("Connection: close\r\n\r\n"@ =~= "Connection: close"@ + "\r\n\r\n"@);
    let line = match auth {
        Some(a) => "x-team-auth: "@ + a + "\r\n"@,
        None => Seq::empty(),
    };
    let a = status_words(status) + "\r\nContent-Type: application/json\r\n"@;
    let b = line + "Connection: close"@;
    parts_hold_in_the_whole(Seq::empty(), line, "Connection: close"@, line);
    assert(Seq::empty() + line + "Connection: close"@ =~= b);
    assert(reply_of(status, body, auth) =~= "HTTP/1.1 "@ + decimal(status as nat) + " "@ + a
        + "Content-Length: "@ + decimal(encode_utf8(body).len()) + "\r\n"@ + b + "\r\n\r\n"@
        + body);
    (a, b)
}

} // verus!
