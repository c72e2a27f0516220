//! Messages by which courts serve documents.
//!
//! A message names the court and the number of the case and carries a link
//! whose parameters are enough to fetch the documents.
use vstd::prelude::*;
use crate::json::{json_reading, optional, read_json, settle, settled, Json, JsonModel};
use crate::patterns::{find_group, find_match, first_group, first_match};
use crate::numbers::{decimals_differ, numbers_are_read_as_written, only_digits_are_read};
use crate::text::{
    blank, cat2, cat3, chars_of, contains, decimal, decimal_text, first_chars, has_text, head_text,
    is_blank, is_white, trim, trim_text, trimming_takes_only_white_space, white,
};

verus! {

/// The parameters of a link. All three are needed to fetch the documents.
pub struct ZxfwLink {
    pub sdbh: String,
    pub qdbh: String,
    pub sdsin: String,
}

/// What a message says.
pub struct ParsedCourtSms {
    pub court: Option<String>,
    /// The number of the case as the message writes it.
    pub case_no: Option<String>,
    pub link: Option<ZxfwLink>,
}

/// A served document.
pub struct ZxfwDoc {
    pub name: String,
    pub ext: String,
    /// Where it can be fetched for a time.
    pub wjlj: String,
    pub court: Option<String>,
}

/// A link as data.
pub struct LinkModel {
    pub sdbh: Seq<char>,
    pub qdbh: Seq<char>,
    pub sdsin: Seq<char>,
}

/// What a message says, as data.
pub struct SmsModel {
    pub court: Option<Seq<char>>,
    pub case_no: Option<Seq<char>>,
    pub link: Option<LinkModel>,
}

impl View for ParsedCourtSms {
    type V = SmsModel;

    open spec fn view(&self) -> SmsModel {
        SmsModel {
            court: optional(self.court),
            case_no: optional(self.case_no),
            link: match self.link {
                Some(l) => Some(LinkModel { sdbh: l.sdbh@, qdbh: l.qdbh@, sdsin: l.sdsin@ }),
                None => None,
            },
        }
    }
}

/// The format of a document of which none is named.
pub fn default_pdf() -> (r: String)
    ensures
        r@ == "pdf"@,
{
    String::from_str("pdf")
}

/// A full-width bracket as the ordinary one, anything else as it is.
pub open spec fn plain_bracket(c: char) -> char {
    if c == '（' {
        '('
    } else if c == '）' {
        ')'
    } else {
        c
    }
}

/// The number of a case without white space and with ordinary brackets.
pub open spec fn normal_case_no(s: Seq<char>) -> Seq<char>
    decreases s.len(),
{
    if s.len() == 0 {
        Seq::empty()
    } else if is_white(s.last()) {
        normal_case_no(s.drop_last())
    } else {
        normal_case_no(s.drop_last()).push(plain_bracket(s.last()))
    }
}

/// The number of a case without white space and with ordinary brackets. Numbers
/// are compared in this form.
pub fn normalize_case_no(s: &str) -> (r: String)
    ensures
        r@ == normal_case_no(s@),
{
    let cs = chars_of(s);
    let mut out = String::new();
    let mut i: usize = 0;
    while i < cs.len()
        invariant
            i <= cs@.len(),
            cs@ == s@,
            out@ == normal_case_no(s@.subrange(0, i as int)),
        decreases cs@.len() - i,
    {
        assert(s@.subrange(0, i + 1).drop_last() =~= s@.subrange(0, i as int));
        let c = cs[i];
        if !white(c) {
            if c == '（' {
                out.push('(');
            } else if c == '）' {
                out.push(')');
            } else {
                out.push(c);
            }
        }
        i = i + 1;
    }
    assert(s@.subrange(0, i as int) =~= s@);
    out
}

proof fn lemma_normal_concat(a: Seq<char>, b: Seq<char>)
    ensures
        normal_case_no(a + b) == normal_case_no(a) + normal_case_no(b),
    decreases b.len(),
{
    if b.len() == 0 {
        assert(a + b =~= a);
        assert(normal_case_no(a) + normal_case_no(b) =~= normal_case_no(a));
    } else {
        assert((a + b).drop_last() =~= a + b.drop_last());
        lemma_normal_concat(a, b.drop_last());
        assert(normal_case_no(a + b) =~= normal_case_no(a) + normal_case_no(b));
    }
}

/// A number in normal form stays as it is.
pub proof fn normal_form_is_final(s: Seq<char>)
    ensures
        normal_case_no(normal_case_no(s)) == normal_case_no(s),
    decreases s.len(),
{
    if s.len() > 0 {
        normal_form_is_final(s.drop_last());
        if !is_white(s.last()) {
            let head = normal_case_no(s.drop_last());
            let c = plain_bracket(s.last());
            assert(head.push(c).drop_last() =~= head);
        }
    }
}

/// Neither white space nor the width of brackets makes two numbers different.
pub proof fn normal_form_ignores_typing(a: Seq<char>, b: Seq<char>, space: char)
    requires
        is_white(space),
    ensures
        normal_case_no(a + seq![space] + b) == normal_case_no(a + b),
        normal_case_no(a + seq!['（'] + b) == normal_case_no(a + seq!['('] + b),
        normal_case_no(a + seq!['）'] + b) == normal_case_no(a + seq![')'] + b),
{
    reveal_with_fuel(normal_case_no, 2);
    lemma_normal_concat(a, b);
    lemma_normal_concat(a + seq![space], b);
    lemma_normal_concat(a, seq![space]);
    assert(seq![space].drop_last() =~= Seq::<char>::empty());
    assert(normal_case_no(a) + normal_case_no(seq![space]) =~= normal_case_no(a));
    lemma_normal_concat(a + seq!['（'], b);
    lemma_normal_concat(a, seq!['（']);
    lemma_normal_concat(a + seq!['('], b);
    lemma_normal_concat(a, seq!['(']);
    assert(seq!['（'].drop_last() =~= Seq::<char>::empty());
    assert(seq!['('].drop_last() =~= Seq::<char>::empty());
    lemma_normal_concat(a + seq!['）'], b);
    lemma_normal_concat(a, seq!['）']);
    lemma_normal_concat(a + seq![')'], b);
    lemma_normal_concat(a, seq![')']);
    assert(seq!['）'].drop_last() =~= Seq::<char>::empty());
    assert(seq![')'].drop_last() =~= Seq::<char>::empty());
}

/// The court: what stands first between `【` and `】` and ends in `法院`.
pub const COURT_PATTERN: &'static str = "【([^【】]*?法院)】";

/// The number of a case, with either kind of brackets and white space anywhere.
pub const CASE_NO_PATTERN: &'static str = "[（(]\\s*\\d{4}\\s*[）)]\\s*[一-龥]{1,3}\\s*\\d{2,6}\\s*[一-龥]{1,4}\\s*\\d+\\s*号";

/// The value of a parameter of a link: letters and digits.
pub const VALUE_PATTERN: &'static str = "=([0-9a-zA-Z]+)";

/// What a message says, from what the patterns found in it: the court, the
/// number of the case, whether the address of the service is there, and the
/// three parameters.
pub open spec fn sms_of(
    court: Option<Seq<char>>,
    case_no: Option<Seq<char>>,
    has_address: bool,
    sdbh: Option<Seq<char>>,
    qdbh: Option<Seq<char>>,
    sdsin: Option<Seq<char>>,
) -> SmsModel {
    SmsModel {
        court,
        case_no: match case_no {
            Some(n) => Some(trim(n)),
            None => None,
        },
        link: match (sdbh, qdbh, sdsin) {
            (Some(a), Some(b), Some(c)) => if has_address {
                Some(LinkModel { sdbh: a, qdbh: b, sdsin: c })
            } else {
                None
            },
            _ => None,
        },
    }
}

/// What a message says, from what the patterns found in it. A link counts only
/// with the address of the service and all three parameters.
pub fn assemble_sms(
    court: Option<String>,
    case_no: Option<String>,
    has_address: bool,
    sdbh: Option<String>,
    qdbh: Option<String>,
    sdsin: Option<String>,
) -> (r: ParsedCourtSms)
    ensures
        r@ == sms_of(
            optional(court),
            optional(case_no),
            has_address,
            optional(sdbh),
            optional(qdbh),
            optional(sdsin),
        ),
{
    let case_no = match case_no {
        Some(n) => Some(trim_text(n.as_str())),
        None => None,
    };
    let link = match (sdbh, qdbh, sdsin) {
        (Some(sdbh), Some(qdbh), Some(sdsin)) => if has_address {
            Some(ZxfwLink { sdbh, qdbh, sdsin })
        } else {
            None
        },
        _ => None,
    };
    ParsedCourtSms { court, case_no, link }
}

fn grab(key: &str, text: &str) -> (r: Option<String>)
    ensures
        optional(r) == first_group(key@ + VALUE_PATTERN@, text@),
{
    let pattern = cat2(key, VALUE_PATTERN);
    find_group(pattern.as_str(), text)
}

/// Reads a message.
pub fn parse_sms(text: &str) -> (r: ParsedCourtSms)
    ensures
        r@ == sms_of(
            first_group(COURT_PATTERN@, text@),
            first_match(CASE_NO_PATTERN@, text@),
            contains(text@, "zxfw.court.gov.cn"@),
            first_group("sdbh"@ + VALUE_PATTERN@, text@),
            first_group("qdbh"@ + VALUE_PATTERN@, text@),
            first_group("sdsin"@ + VALUE_PATTERN@, text@),
        ),
{
    let court = find_group(COURT_PATTERN, text);
    let case_no = find_match(CASE_NO_PATTERN, text);
    let has_address = has_text(text, "zxfw.court.gov.cn");
    let sdbh = grab("sdbh", text);
    let qdbh = grab("qdbh", text);
    let sdsin = grab("sdsin", text);
    assemble_sms(court, case_no, has_address, sdbh, qdbh, sdsin)
}

/// A message without the address of the service gives no link, whatever
/// parameters it carries.
pub proof fn no_address_no_link(
    court: Option<Seq<char>>,
    case_no: Option<Seq<char>>,
    sdbh: Option<Seq<char>>,
    qdbh: Option<Seq<char>>,
    sdsin: Option<Seq<char>>,
)
    ensures
        sms_of(court, case_no, false, sdbh, qdbh, sdsin).link is None,
{
}

/// The first `n` characters.
pub fn truncate(s: &str, n: usize) -> (r: String)
    ensures
        r@ == first_chars(s@, n as nat),
{
    head_text(s, n)
}

/// A whole number with its sign.
pub open spec fn signed_decimal(n: int) -> Seq<char> {
    if n < 0 {
        "-"@ + decimal((-n) as nat)
    } else {
        decimal(n as nat)
    }
}

/// A whole number with its sign.
pub fn signed_text(n: i64) -> (r: String)
    ensures
        r@ == signed_decimal(n as int),
{
    if n < 0 {
        let d = decimal_text((-(n as i128)) as u128);
        cat2("-", d.as_str())
    } else {
        decimal_text(n as u128)
    }
}

/// The code of a reply, if it is a whole number.
pub open spec fn reply_code(reply: JsonModel) -> Option<i64> {
    match reply.member("code"@) {
        Some(JsonModel::Number(_, i, _)) => i,
        _ => None,
    }
}

/// How a code is shown.
pub open spec fn shown_code(code: Option<i64>) -> Seq<char> {
    match code {
        Some(n) => "Some("@ + signed_decimal(n as int) + ")"@,
        None => "None"@,
    }
}

/// What is said against a reply of the service, if anything.
pub open spec fn reply_objection(reply: JsonModel) -> Option<Seq<char>> {
    if reply_code(reply) == Some(200i64) {
        None
    } else {
        Some(
            "一张网业务错误(code="@ + shown_code(reply_code(reply)) + "): "@ + match reply.text_member(
                "msg"@,
            ) {
                Some(m) => m,
                None => "未知"@,
            },
        )
    }
}

/// Checks the reply of the service to the request for the documents.
pub fn check_reply(reply: &Json) -> (r: Result<(), String>)
    ensures
        match reply_objection(reply@) {
            Some(m) => r matches Err(e) && e@ == m,
            None => r is Ok,
        },
{
    let code: Option<i64> = match reply.get("code") {
        Some(Json::Number(n)) => n.integer(),
        _ => None,
    };
    if let Some(200) = code {
        return Ok(());
    }
    let shown = match code {
        Some(n) => {
            let d = signed_text(n);
            cat3("Some(", d.as_str(), ")")
        },
        None => String::from_str("None"),
    };
    let mut out = cat3("一张网业务错误(code=", shown.as_str(), "): ");
    match reply.get_text("msg") {
        Some(m) => out.append(m.as_str()),
        None => out.append("未知"),
    }
    Err(out)
}

/// What the reply of the service holds for the documents, once it was read: an
/// objection to the reply, or what stands under `data`.
pub open spec fn data_of(
    read: Result<JsonModel, Seq<char>>,
    text: Seq<char>,
) -> Result<JsonModel, Seq<char>> {
    match read {
        Err(e) => Err("一张网响应非 JSON: "@ + e + " · "@ + first_chars(text, 300)),
        Ok(reply) => match reply_objection(reply) {
            Some(m) => Err(m),
            None => match reply.member("data"@) {
                Some(d) => Ok(settled(d)),
                None => Ok(JsonModel::Null),
            },
        },
    }
}

pub open spec fn json_result(r: Result<Json, String>) -> Result<JsonModel, Seq<char>> {
    match r {
        Ok(j) => Ok(j@),
        Err(e) => Err(e@),
    }
}

/// What a reply holds for the documents, as it was read from `text`.
pub fn take_data(read: Result<Json, String>, text: &str) -> (r: Result<Json, String>)
    ensures
        json_result(r) == data_of(json_result(read), text@),
{
    let reply = match read {
        Ok(j) => j,
        Err(e) => {
            let mut out = cat3("一张网响应非 JSON: ", e.as_str(), " · ");
            let head = truncate(text, 300);
            out.append(head.as_str());
            return Err(out);
        },
    };
    match check_reply(&reply) {
        Ok(_) => {},
        Err(e) => {
            return Err(e);
        },
    }
    match reply.get("data") {
        Some(d) => Ok(settle(d)),
        None => Ok(Json::Null),
    }
}

/// What the reply of the service to the request for the documents holds for them.
pub fn reply_data(text: &str) -> (r: Result<Json, String>)
    ensures
        json_result(r) == data_of(json_reading(text@), text@),
{
    take_data(read_json(text), text)
}

/// What is said of a reply with a status that is no success.
pub fn status_error(status: &str, body: &str) -> (r: String)
    ensures
        r@ == "一张网返回 HTTP "@ + status@ + ": "@ + first_chars(body@, 300),
{
    let mut out = cat3("一张网返回 HTTP ", status, ": ");
    let head = truncate(body, 300);
    out.append(head.as_str());
    out
}

/// Checks that there is an address to fetch a document from.
pub fn check_address(wjlj: &str) -> (r: Result<(), String>)
    ensures
        is_blank(wjlj@) ==> (r matches Err(e) && e@ == "文书缺少下载地址(wjlj)"@),
        !is_blank(wjlj@) ==> r is Ok,
{
    if blank(wjlj) {
        Err(String::from_str("文书缺少下载地址(wjlj)"))
    } else {
        Ok(())
    }
}

/// Numbers that are typed without white space and without full-width brackets are
/// in normal form, so two of them that differ stay different.
pub proof fn different_numbers_stay_different(a: Seq<char>, b: Seq<char>)
    requires
        forall|i: int|
            0 <= i < a.len() ==> !is_white(#[trigger] a[i]) && a[i] != '（' && a[i] != '）',
        forall|i: int|
            0 <= i < b.len() ==> !is_white(#[trigger] b[i]) && b[i] != '（' && b[i] != '）',
    ensures
        normal_case_no(a) == a,
        normal_case_no(a) == normal_case_no(b) ==> a == b,
{
    lemma_plain_number(a);
    lemma_plain_number(b);
}

proof fn lemma_plain_number(a: Seq<char>)
    requires
        forall|i: int|
            0 <= i < a.len() ==> !is_white(#[trigger] a[i]) && a[i] != '（' && a[i] != '）',
    ensures
        normal_case_no(a) == a,
    decreases a.len(),
{
    if a.len() > 0 {
        let t = a.drop_last();
        assert forall|i: int| 0 <= i < t.len() implies !is_white(#[trigger] t[i]) && t[i] != '（'
            && t[i] != '）' by {
            assert(t[i] == a[i]);
        }
        lemma_plain_number(t);
        assert(a[a.len() - 1] == a.last());
        assert(t.push(a.last()) =~= a);
    } else {
        assert(normal_case_no(a) =~= a);
    }
}

/// A link is made of the three parameters of the message, each in its own place,
/// and only if the address of the service and all three are there. The court and
/// the number are those that were found.
pub proof fn links_need_address_and_parameters(
    court: Option<Seq<char>>,
    case_no: Option<Seq<char>>,
    has_address: bool,
    sdbh: Option<Seq<char>>,
    qdbh: Option<Seq<char>>,
    sdsin: Option<Seq<char>>,
)
    ensures
        ({
            let m = sms_of(court, case_no, has_address, sdbh, qdbh, sdsin);
            &&& m.link is Some <==> has_address && sdbh is Some && qdbh is Some && sdsin is Some
            &&& m.link matches Some(l) ==> Some(l.sdbh) == sdbh && Some(l.qdbh) == qdbh && Some(
                l.sdsin,
            ) == sdsin
            &&& m.court == court
            &&& m.case_no is Some <==> case_no is Some
            &&& m.case_no matches Some(n) ==> normal_case_no(n) == normal_case_no(case_no->0)
        }),
{
    if let Some(n) = case_no {
        lemma_trimmed_number(n);
    }
}

proof fn lemma_white_number(s: Seq<char>)
    requires
        forall|i: int| 0 <= i < s.len() ==> is_white(#[trigger] s[i]),
    ensures
        normal_case_no(s).len() == 0,
    decreases s.len(),
{
    if s.len() > 0 {
        let t = s.drop_last();
        assert forall|i: int| 0 <= i < t.len() implies is_white(#[trigger] t[i]) by {
            assert(t[i] == s[i]);
        }
        lemma_white_number(t);
        assert(is_white(s[s.len() - 1]));
    }
}

proof fn lemma_trimmed_number(n: Seq<char>)
    ensures
        normal_case_no(trim(n)) == normal_case_no(n),
{
    let (i, j) = trimming_takes_only_white_space(n);
    let a = n.subrange(0, i);
    let m = n.subrange(i, j);
    let z = n.subrange(j, n.len() as int);
    assert forall|k: int| 0 <= k < a.len() implies is_white(#[trigger] a[k]) by {
        assert(a[k] == n[k]);
    }
    assert forall|k: int| 0 <= k < z.len() implies is_white(#[trigger] z[k]) by {
        assert(z[k] == n[j + k]);
    }
    lemma_white_number(a);
    lemma_white_number(z);
    lemma_normal_concat(a, m);
    lemma_normal_concat(a + m, z);
    assert(a + m + z =~= n);
    assert(normal_case_no(a) + normal_case_no(m) + normal_case_no(z) =~= normal_case_no(m));
}

/// A reply is taken if and only if its code is the number two hundred, and what
/// is handed on is what stands under `data`.
pub proof fn only_good_replies_are_taken(reply: JsonModel, text: Seq<char>)
    ensures
        ({
            let good = match reply.member("code"@) {
                Some(JsonModel::Number(_, i, _)) => i == Some(200i64),
                _ => false,
            };
            &&& data_of(Ok(reply), text) is Ok <==> good
            &&& good && reply.member("data"@) is None ==> data_of(Ok(reply), text)
                == Ok::<JsonModel, Seq<char>>(JsonModel::Null)
            &&& good && reply.member("data"@) is Some ==> data_of(Ok(reply), text)
                == Ok::<JsonModel, Seq<char>>(settled(reply.member("data"@)->0))
        }),
        forall|e: Seq<char>| (#[trigger] data_of(Err(e), text)) is Err,
{
}

/// What the service says of a refusal is passed on, with the code that it gave.
pub proof fn refusals_of_the_service_are_passed_on(reply: JsonModel, said: Seq<char>)
    ensures
        reply_objection(reply) is None <==> reply_code(reply) == Some(200i64),
        reply_objection(reply) is Some && reply.text_member("msg"@) == Some(said)
            ==> said.is_suffix_of(reply_objection(reply)->0),
        reply_objection(reply) is Some && reply_code(reply) is Some ==> ("一张网业务错误(code=Some("@
            + signed_decimal(reply_code(reply)->0 as int)).is_prefix_of(reply_objection(reply)->0),
{
    reveal_strlit("一张网业务错误(code=Some(");
    reveal_strlit("一张网业务错误(code=");
    reveal_strlit("Some(");
    if let Some(w) = reply_objection(reply) {
        if reply.text_member("msg"@) == Some(said) {
            assert(w.subrange(w.len() - said.len(), w.len() as int) =~= said);
        }
        if let Some(n) = reply_code(reply) {
            let a = "一张网业务错误(code=Some("@ + signed_decimal(n as int);
            assert(w.subrange(0, a.len() as int) =~= a);
        }
    }
}

/// Whole numbers are written with a sign where they are negative, and no two are
/// written alike.
pub proof fn signed_numbers_differ(m: int, n: int)
    ensures
        n >= 0 ==> signed_decimal(n) == decimal(n as nat),
        n < 0 ==> signed_decimal(n) == "-"@ + decimal((-n) as nat),
        m != n ==> signed_decimal(m) != signed_decimal(n),
{
    reveal_strlit("-");
    let a = signed_decimal(m);
    let b = signed_decimal(n);
    if m != n && a == b {
        if m >= 0 && n >= 0 {
            decimals_differ(m as nat, n as nat);
        } else if m < 0 && n < 0 {
            let x = decimal((-m) as nat);
            let y = decimal((-n) as nat);
            assert(a.subrange(1, a.len() as int) =~= x);
            assert(b.subrange(1, b.len() as int) =~= y);
            decimals_differ((-m) as nat, (-n) as nat);
        } else if m >= 0 {
            numbers_are_read_as_written(m as nat, m as nat);
            only_digits_are_read(a, m as nat, 0);
            assert(b[0] == '-');
        } else {
            numbers_are_read_as_written(n as nat, n as nat);
            only_digits_are_read(b, n as nat, 0);
            assert(a[0] == '-');
        }
    }
}

} // verus!
