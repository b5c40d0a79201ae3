//! HTTP responses: building them from a status, headers, a content type and a
//! body, and rendering them as the text sent to a client.

use vstd::prelude::*;
use vstd::utf8::encode_utf8;

use crate::headers::{
    distinct_names, header_get, header_insert, law_insert_keeps_other_names, law_insert_then_get,
    HeaderMap, HeaderSeq,
};
use crate::text::str_equal;

verus! {

/// What a response holds, as plain character sequences.
pub struct ResponseModel {
    pub version: Seq<char>,
    pub status_code: Seq<char>,
    pub status_text: Seq<char>,
    pub headers: Option<HeaderSeq>,
    pub body: Option<Seq<char>>,
}

pub open spec fn crlf() -> Seq<char> {
    seq!['\r', '\n']
}

pub open spec fn http_1_1() -> Seq<char> {
    seq!['H', 'T', 'T', 'P', '/', '1', '.', '1']
}

pub open spec fn code_200() -> Seq<char> {
    seq!['2', '0', '0']
}

pub open spec fn code_400() -> Seq<char> {
    seq!['4', '0', '0']
}

pub open spec fn code_404() -> Seq<char> {
    seq!['4', '0', '4']
}

pub open spec fn code_500() -> Seq<char> {
    seq!['5', '0', '0']
}

pub open spec fn text_ok() -> Seq<char> {
    seq!['O', 'K']
}

pub open spec fn text_bad_request() -> Seq<char> {
    seq!['B', 'a', 'd', ' ', 'R', 'e', 'q', 'u', 'e', 's', 't']
}

pub open spec fn text_not_found() -> Seq<char> {
    seq!['N', 'o', 't', ' ', 'F', 'o', 'u', 'n', 'd']
}

pub open spec fn text_internal_error() -> Seq<char> {
    seq![
        'I', 'n', 't', 'e', 'r', 'n', 'a', 'l', ' ', 'S', 'e', 'r', 'v', 'e', 'r', ' ', 'E', 'r',
        'r', 'o', 'r',
    ]
}

pub open spec fn content_type_name() -> Seq<char> {
    seq!['C', 'o', 'n', 't', 'e', 'n', 't', '-', 'T', 'y', 'p', 'e']
}

pub open spec fn text_html() -> Seq<char> {
    seq!['t', 'e', 'x', 't', '/', 'h', 't', 'm', 'l']
}

pub open spec fn content_length_prefix() -> Seq<char> {
    seq!['C', 'o', 'n', 't', 'e', 'n', 't', '-', 'L', 'e', 'n', 'g', 't', 'h', ':', ' ']
}

/// The reason phrase of a status code: `200` OK, `400` Bad Request,
/// `500` Internal Server Error, and Not Found for `404` and every other code.
pub open spec fn status_text_for(code: Seq<char>) -> Seq<char> {
    if code == code_200() {
        text_ok()
    } else if code == code_400() {
        text_bad_request()
    } else if code == code_404() {
        text_not_found()
    } else if code == code_500() {
        text_internal_error()
    } else {
        text_not_found()
    }
}

/// The headers of a new response: the given ones, or a `Content-Type: text/html`
/// header when none are given; a non-empty content type is stored as `Content-Type`.
pub open spec fn response_headers(headers: Option<HeaderSeq>, content_type: Seq<char>) -> HeaderSeq {
    let base = match headers {
        Some(h) => h,
        None => seq![(content_type_name(), text_html())],
    };
    if content_type.len() != 0 {
        header_insert(base, content_type_name(), content_type)
    } else {
        base
    }
}

/// A response built without headers carries exactly one header,
/// `Content-Type`, holding the given content type or `text/html` when it is empty.
pub proof fn law_default_headers_have_one_content_type(content_type: Seq<char>)
    ensures
        response_headers(None, content_type) == seq![
            (content_type_name(), if content_type.len() != 0 {
                content_type
            } else {
                text_html()
            }),
        ],
{
    let base = seq![(content_type_name(), text_html())];
    if content_type.len() != 0 {
        assert(base[0].0 == content_type_name());
        assert(crate::headers::has_name(base, content_type_name()));
        assert(header_insert(base, content_type_name(), content_type) =~= seq![
            (content_type_name(), content_type),
        ]);
    }
}

/// Storing a non-empty content type in given headers sets `Content-Type` and
/// leaves the value of every other name unchanged.
pub proof fn law_content_type_keeps_other_headers(
    h: HeaderSeq,
    content_type: Seq<char>,
    other: Seq<char>,
)
    requires
        distinct_names(h),
        content_type.len() != 0,
        other != content_type_name(),
    ensures
        header_get(response_headers(Some(h), content_type), content_type_name()) == Some(
            content_type,
        ),
        header_get(response_headers(Some(h), content_type), other) == header_get(h, other),
{
    law_insert_then_get(h, content_type_name(), content_type);
    law_insert_keeps_other_names(h, content_type_name(), content_type, other);
}

/// With headers given and an empty content type, a new response carries
/// exactly the given headers, every name with its given value.
pub proof fn law_given_headers_kept_without_content_type(h: HeaderSeq)
    ensures
        response_headers(Some(h), Seq::<char>::empty()) == h,
{
}

/// The response that `HttpResponse::new` builds.
pub open spec fn spec_new_response(
    status_code: Seq<char>,
    headers: Option<HeaderSeq>,
    content_type: Seq<char>,
    body: Option<Seq<char>>,
) -> ResponseModel {
    ResponseModel {
        version: http_1_1(),
        status_code: status_code,
        status_text: status_text_for(status_code),
        headers: Some(response_headers(headers, content_type)),
        body: body,
    }
}

/// The digit character of `d < 10`.
pub open spec fn digit_char(d: nat) -> char {
    if d == 0 {
        '0'
    } else if d == 1 {
        '1'
    } else if d == 2 {
        '2'
    } else if d == 3 {
        '3'
    } else if d == 4 {
        '4'
    } else if d == 5 {
        '5'
    } else if d == 6 {
        '6'
    } else if d == 7 {
        '7'
    } else if d == 8 {
        '8'
    } else {
        '9'
    }
}

/// The decimal notation of `n`, without leading zeros.
pub open spec fn decimal(n: nat) -> Seq<char>
    decreases n,
{
    if n < 10 {
        seq![digit_char(n)]
    } else {
        decimal(n / 10).push(digit_char(n % 10))
    }
}

/// Header lines: `name:value` and a line break for each entry, in order.
pub open spec fn render_headers(h: HeaderSeq) -> Seq<char>
    decreases h.len(),
{
    if h.len() == 0 {
        seq![]
    } else {
        render_headers(h.drop_last()) + h.last().0 + seq![':'] + h.last().1 + crlf()
    }
}


/// The digit characters of `d`, last element first.
pub open spec fn reversed_digits(d: Seq<usize>) -> Seq<char> {
    Seq::new(d.len(), |i: int| digit_char(d[d.len() - 1 - i] as nat))
}

/// The line of one header: `name:value` and a line break.
pub open spec fn header_line(p: (Seq<char>, Seq<char>)) -> Seq<char> {
    p.0 + seq![':'] + p.1 + crlf()
}

/// The status line of a response.
pub open spec fn status_line(m: ResponseModel) -> Seq<char> {
    m.version + seq![' '] + m.status_code + seq![' '] + m.status_text + crlf()
}

/// The header text of two lists of headers is that of the first, then that of the second.
pub proof fn law_render_headers_append(a: HeaderSeq, b: HeaderSeq)
    ensures
        render_headers(a + b) == render_headers(a) + render_headers(b),
    decreases b.len(),
{
    if b.len() == 0 {
        assert(a + b =~= a);
        assert(render_headers(b) =~= Seq::<char>::empty());
        assert(render_headers(a) + render_headers(b) =~= render_headers(a));
    } else {
        law_render_headers_append(a, b.drop_last());
        assert((a + b).drop_last() =~= a + b.drop_last());
        assert((a + b).last() == b.last());
        assert(render_headers(a + b) =~= render_headers(a) + render_headers(b));
    }
}

/// One header renders as its line.
pub proof fn law_render_one_header(p: (Seq<char>, Seq<char>))
    ensures
        render_headers(seq![p]) == header_line(p),
{
    assert(seq![p].drop_last() =~= Seq::<(Seq<char>, Seq<char>)>::empty());
    assert(render_headers(Seq::<(Seq<char>, Seq<char>)>::empty()) =~= Seq::<char>::empty());
    assert(seq![p].last() == p);
    assert(render_headers(seq![p]) =~= Seq::<char>::empty() + p.0 + seq![':'] + p.1 + crlf());
    assert(render_headers(seq![p]) =~= header_line(p));
}

/// Every header of a response is rendered as its own `name:value` line, in
/// order: the `i`-th header's line follows the status line and the lines of
/// the headers before it.
pub proof fn law_every_header_line_rendered(m: ResponseModel, i: int)
    requires
        m.headers is Some,
        m.body is Some,
        0 <= i < m.headers.unwrap().len(),
    ensures
        ({
            let h = m.headers.unwrap();
            let off = (status_line(m).len() + render_headers(h.take(i)).len()) as int;
            render_response(m).subrange(off, off + header_line(h[i]).len()) == header_line(h[i])
        }),
{
    let h = m.headers.unwrap();
    let a = h.take(i);
    let c = h.skip(i + 1);
    assert(h =~= a + seq![h[i]] + c);
    law_render_headers_append(a + seq![h[i]], c);
    law_render_headers_append(a, seq![h[i]]);
    law_render_one_header(h[i]);
    let rest = content_length_prefix() + decimal(byte_len(m.body.unwrap())) + crlf() + crlf()
        + m.body.unwrap();
    assert(render_response(m) =~= status_line(m) + render_headers(a) + header_line(h[i])
        + render_headers(c) + rest);
    let off = (status_line(m).len() + render_headers(a).len()) as int;
    assert(render_response(m).subrange(off, off + header_line(h[i]).len()) =~= header_line(h[i]));
}

/// The text of a response is its status line, all its header lines, then the
/// `Content-Length` line holding the byte length of its body, an empty line and the body.
pub proof fn law_response_text_layout(m: ResponseModel)
    requires
        m.headers is Some,
        m.body is Some,
    ensures
        ({
            let hs = render_headers(m.headers.unwrap());
            let s = status_line(m).len() as int;
            let t = render_response(m);
            &&& t.subrange(0, s) == status_line(m)
            &&& t.subrange(s, s + hs.len()) == hs
            &&& t.subrange(s + hs.len(), s + hs.len() + content_length_prefix().len())
                == content_length_prefix()
            &&& t.subrange(t.len() - m.body.unwrap().len(), t.len() as int) == m.body.unwrap()
        }),
{
    let hs = render_headers(m.headers.unwrap());
    let s = status_line(m).len() as int;
    let t = render_response(m);
    let d = decimal(byte_len(m.body.unwrap()));
    assert(t =~= status_line(m) + hs + content_length_prefix() + d + crlf() + crlf() + m.body.unwrap());
    assert(t.subrange(0, s) =~= status_line(m));
    assert(t.subrange(s, s + hs.len()) =~= hs);
    assert(t.subrange(s + hs.len(), s + hs.len() + content_length_prefix().len())
        =~= content_length_prefix());
    assert(t.subrange(t.len() - m.body.unwrap().len(), t.len() as int) =~= m.body.unwrap());
}

/// Appends the decimal notation of `n` to `out`.
pub fn push_decimal(out: &mut String, n: usize)
    ensures
        final(out)@ == old(out)@ + decimal(n as nat),
{
    let mut digits: Vec<usize> = Vec::new();
    let mut m = n;
    proof {
        assert(decimal(n as nat) =~= decimal(m as nat) + reversed_digits(digits@));
    }
    while m >= 10
        invariant
            decimal(n as nat) == decimal(m as nat) + reversed_digits(digits@),
            forall|i: int| 0 <= i < digits@.len() ==> digits@[i] < 10,
        decreases m,
    {
        let ghost old_digits = digits@;
        digits.push(m % 10);
        proof {
            assert(decimal(m as nat) == decimal((m / 10) as nat).push(digit_char((m % 10) as nat)));
            assert(reversed_digits(digits@) =~= seq![digit_char((m % 10) as nat)] + reversed_digits(
                old_digits,
            ));
            assert(decimal((m / 10) as nat) + reversed_digits(digits@) =~= decimal(m as nat)
                + reversed_digits(old_digits));
        }
        m = m / 10;
    }
    let ghost old_digits = digits@;
    digits.push(m);
    proof {
        assert(reversed_digits(digits@) =~= seq![digit_char(m as nat)] + reversed_digits(old_digits));
        assert(decimal(n as nat) =~= reversed_digits(digits@));
    }
    let ghost start = out@;
    let k = digits.len();
    let mut j = k;
    proof {
        assert(out@ =~= start + reversed_digits(digits@).take(0));
    }
    while j > 0
        invariant
            j <= k,
            k == digits@.len(),
            forall|i: int| 0 <= i < digits@.len() ==> digits@[i] < 10,
            out@ == start + reversed_digits(digits@).take(k - j),
        decreases j,
    {
        let d = digits[j - 1];
        push_digit(out, d);
        proof {
            assert(reversed_digits(digits@).take(k - (j - 1)) =~= reversed_digits(digits@).take(k
                - j).push(digit_char(d as nat)));
        }
        j = j - 1;
    }
    proof {
        assert(reversed_digits(digits@).take(k as int) =~= reversed_digits(digits@));
    }
}

/// Appends the digit `d < 10` to `out`.
fn push_digit(out: &mut String, d: usize)
    requires
        d < 10,
    ensures
        final(out)@ == old(out)@.push(digit_char(d as nat)),
{
    let s = if d == 0 {
        "0"
    } else if d == 1 {
        "1"
    } else if d == 2 {
        "2"
    } else if d == 3 {
        "3"
    } else if d == 4 {
        "4"
    } else if d == 5 {
        "5"
    } else if d == 6 {
        "6"
    } else if d == 7 {
        "7"
    } else if d == 8 {
        "8"
    } else {
        "9"
    };
    proof {
        reveal_strlit("0");
        reveal_strlit("1");
        reveal_strlit("2");
        reveal_strlit("3");
        reveal_strlit("4");
        reveal_strlit("5");
        reveal_strlit("6");
        reveal_strlit("7");
        reveal_strlit("8");
        reveal_strlit("9");
        assert(s@ =~= seq![digit_char(d as nat)]);
    }
    out.append(s);
}


/// The byte length of the UTF-8 encoding of `s` (which for any string in
/// memory fits in a `usize`).
pub open spec fn byte_len(s: Seq<char>) -> nat {
    (encode_utf8(s).len() as usize) as nat
}

/// The text of a response: the status line, the header lines, a
/// `Content-Length` line holding the byte length of the body, an empty line
/// and the body.
pub open spec fn render_response(m: ResponseModel) -> Seq<char> {
    m.version + seq![' '] + m.status_code + seq![' '] + m.status_text + crlf() + render_headers(
        m.headers.unwrap(),
    ) + content_length_prefix() + decimal(byte_len(m.body.unwrap())) + crlf() + crlf()
        + m.body.unwrap()
}

/// An owned copy of `s`.
fn owned(s: &str) -> (r: String)
    ensures
        r@ == s@,
{
    s.to_owned()
}

fn http_1_1_string() -> (r: String)
    ensures
        r@ == http_1_1(),
{
    proof {
        reveal_strlit("HTTP/1.1");
    }
    let r = owned("HTTP/1.1");
    assert(r@ =~= http_1_1());
    r
}

fn code_200_string() -> (r: String)
    ensures
        r@ == code_200(),
{
    proof {
        reveal_strlit("200");
    }
    let r = owned("200");
    assert(r@ =~= code_200());
    r
}

fn text_ok_string() -> (r: String)
    ensures
        r@ == text_ok(),
{
    proof {
        reveal_strlit("OK");
    }
    let r = owned("OK");
    assert(r@ =~= text_ok());
    r
}

fn content_type_string() -> (r: String)
    ensures
        r@ == content_type_name(),
{
    proof {
        reveal_strlit("Content-Type");
    }
    let r = owned("Content-Type");
    assert(r@ =~= content_type_name());
    r
}

fn text_html_string() -> (r: String)
    ensures
        r@ == text_html(),
{
    proof {
        reveal_strlit("text/html");
    }
    let r = owned("text/html");
    assert(r@ =~= text_html());
    r
}

/// The reason phrase of a status code (see `status_text_for`).
pub fn status_text_of(code: &str) -> (r: String)
    ensures
        r@ == status_text_for(code@),
{
    proof {
        reveal_strlit("200");
        reveal_strlit("400");
        reveal_strlit("404");
        reveal_strlit("500");
        reveal_strlit("OK");
        reveal_strlit("Bad Request");
        reveal_strlit("Not Found");
        reveal_strlit("Internal Server Error");
        assert("200"@ =~= code_200());
        assert("400"@ =~= code_400());
        assert("404"@ =~= code_404());
        assert("500"@ =~= code_500());
        assert("OK"@ =~= text_ok());
        assert("Bad Request"@ =~= text_bad_request());
        assert("Not Found"@ =~= text_not_found());
        assert("Internal Server Error"@ =~= text_internal_error());
    }
    if str_equal(code, "200") {
        owned("OK")
    } else if str_equal(code, "400") {
        owned("Bad Request")
    } else if str_equal(code, "404") {
        owned("Not Found")
    } else if str_equal(code, "500") {
        owned("Internal Server Error")
    } else {
        owned("Not Found")
    }
}

/// The view of optional headers.
pub open spec fn opt_headers(o: Option<HeaderMap>) -> Option<HeaderSeq> {
    match o {
        Some(h) => Some(h@),
        None => None,
    }
}

/// The view of an optional text.
pub open spec fn opt_text(o: Option<String>) -> Option<Seq<char>> {
    match o {
        Some(b) => Some(b@),
        None => None,
    }
}

/// An HTTP/1.1 response.
#[derive(Debug, Clone, PartialEq)]
pub struct HttpResponse {
    version: String,
    status_code: String,
    status_text: String,
    headers: Option<HeaderMap>,
    body: Option<String>,
}

impl View for HttpResponse {
    type V = ResponseModel;

    closed spec fn view(&self) -> ResponseModel {
        ResponseModel {
            version: self.version@,
            status_code: self.status_code@,
            status_text: self.status_text@,
            headers: opt_headers(self.headers),
            body: opt_text(self.body),
        }
    }
}

impl Default for HttpResponse {
    /// `HTTP/1.1 200 OK`, with neither headers nor a body.
    fn default() -> (r: HttpResponse)
        ensures
            r@ == (ResponseModel {
                version: http_1_1(),
                status_code: code_200(),
                status_text: text_ok(),
                headers: None,
                body: None,
            }),
    {
        HttpResponse {
            version: http_1_1_string(),
            status_code: code_200_string(),
            status_text: text_ok_string(),
            headers: None,
            body: None,
        }
    }
}

impl HttpResponse {
    /// A response with the given status code, headers, content type and body
    /// (see `spec_new_response`).
    pub fn new(
        status_code: &str,
        headers: Option<HeaderMap>,
        content_type: &str,
        body: Option<String>,
    ) -> (r: HttpResponse)
        ensures
            r@ == spec_new_response(
                status_code@,
                opt_headers(headers),
                content_type@,
                opt_text(body),
            ),
            content_type@.len() != 0 ==> (opt_headers(headers) matches Some(h) ==> distinct_names(
                h,
            )),
    {
        let mut response = HttpResponse::default();
        proof {
            reveal_strlit("200");
            assert("200"@ =~= code_200());
        }
        if !str_equal(status_code, "200") {
            response.status_code = owned(status_code);
        }
        let mut h = match headers {
            Some(m) => m,
            None => {
                let mut m = HeaderMap::new();
                m.insert(content_type_string(), text_html_string());
                proof {
                    assert(!crate::headers::has_name(Seq::<(Seq<char>, Seq<char>)>::empty(), content_type_name()));
                    assert(m@ =~= seq![(content_type_name(), text_html())]);
                }
                m
            },
        };
        if content_type.unicode_len() != 0 {
            h.insert(content_type_string(), owned(content_type));
        }
        response.headers = Some(h);
        response.status_text = status_text_of(response.status_code.as_str());
        response.body = body;
        response
    }

    /// The protocol version.
    pub fn version(&self) -> (r: &str)
        ensures
            r@ == self@.version,
    {
        self.version.as_str()
    }

    /// The status code.
    pub fn status_code(&self) -> (r: &str)
        ensures
            r@ == self@.status_code,
    {
        self.status_code.as_str()
    }

    /// The reason phrase.
    pub fn status_text(&self) -> (r: &str)
        ensures
            r@ == self@.status_text,
    {
        self.status_text.as_str()
    }

    /// The header lines (see `render_headers`).
    pub fn headers(&self) -> (r: String)
        requires
            self@.headers is Some,
        ensures
            r@ == render_headers(self@.headers.unwrap()),
    {
        let mut out = String::new();
        match &self.headers {
            Some(map) => {
                let n = map.len();
                let mut i: usize = 0;
                proof {
                    assert(map@.take(0) =~= Seq::<(Seq<char>, Seq<char>)>::empty());
                }
                while i < n
                    invariant
                        i <= n,
                        n == map@.len(),
                        self@.headers == Some(map@),
                        out@ == render_headers(map@.take(i as int)),
                    decreases n - i,
                {
                    let (k, v) = map.entry(i);
                    out.append(k.as_str());
                    out.append(":");
                    out.append(v.as_str());
                    out.append("\r\n");
                    proof {
                        reveal_strlit(":");
                        reveal_strlit("\r\n");
                        let t = map@.take(i + 1int);
                        assert(t.drop_last() =~= map@.take(i as int));
                        assert(t.last() == map@[i as int]);
                        assert(":"@ =~= seq![':']);
                        assert("\r\n"@ =~= crlf());
                        assert(out@ =~= render_headers(t));
                    }
                    i = i + 1;
                }
                proof {
                    assert(map@.take(n as int) =~= map@);
                }
            },
            None => {},
        }
        out
    }

    /// The body, or the empty text when there is none.
    pub fn body(&self) -> (r: &str)
        ensures
            r@ == match self@.body {
                Some(b) => b,
                None => Seq::<char>::empty(),
            },
    {
        match &self.body {
            Some(b) => b.as_str(),
            None => {
                proof {
                    reveal_strlit("");
                }
                ""
            },
        }
    }

    /// The response has both headers and a body, as `into_string` needs.
    pub fn is_complete(&self) -> (r: bool)
        ensures
            r == (self@.headers is Some && self@.body is Some),
    {
        self.headers.is_some() && self.body.is_some()
    }

    /// The response as the text sent to a client (see `render_response`).
    pub fn into_string(self) -> (r: String)
        requires
            self@.headers is Some,
            self@.body is Some,
        ensures
            r@ == render_response(self@),
    {
        let mut out = String::new();
        out.append(self.version());
        out.append(" ");
        out.append(self.status_code());
        out.append(" ");
        out.append(self.status_text());
        out.append("\r\n");
        let h = self.headers();
        out.append(h.as_str());
        out.append("Content-Length: ");
        let b = self.body();
        push_decimal(&mut out, b.len());
        out.append("\r\n");
        out.append("\r\n");
        out.append(b);
        proof {
            reveal_strlit(" ");
            reveal_strlit("\r\n");
            reveal_strlit("Content-Length: ");
            assert(" "@ =~= seq![' ']);
            assert("\r\n"@ =~= crlf());
            assert("Content-Length: "@ =~= content_length_prefix());
            assert(out@ =~= render_response(self@));
        }
        out
    }
}

} // verus!
