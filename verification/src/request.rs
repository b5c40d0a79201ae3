//! Parsing of HTTP request text into its method, path, version, headers and body.

use vstd::prelude::*;

use crate::headers::{
    distinct_names, header_get, header_insert, law_insert_then_get, HeaderMap, HeaderSeq,
};
use crate::text::{
    count_until, find_char, lemma_count_until, next_word, spec_lines, spec_words, split_lines,
    substring, views,
};

verus! {

/// What a parsed request holds, as plain character sequences.
pub struct RequestModel {
    pub method: Seq<char>,
    pub version: Seq<char>,
    pub path: Seq<char>,
    pub headers: HeaderSeq,
    pub msg_body: Seq<char>,
}

/// The request before any line is read: empty method and path, version `1,0`,
/// no headers and an empty body.
pub open spec fn initial_model() -> RequestModel {
    RequestModel {
        method: seq![],
        version: seq!['1', ',', '0'],
        path: seq![],
        headers: seq![],
        msg_body: seq![],
    }
}

/// `HTTP` occurs in `l` at position `i`.
pub open spec fn http_at(l: Seq<char>, i: int) -> bool {
    &&& 0 <= i
    &&& i + 4 <= l.len()
    &&& l[i] == 'H'
    &&& l[i + 1] == 'T'
    &&& l[i + 2] == 'T'
    &&& l[i + 3] == 'P'
}

/// `HTTP` occurs somewhere in `l`.
pub open spec fn contains_http(l: Seq<char>) -> bool {
    exists|i: int| #[trigger] http_at(l, i)
}

/// `l` holds a `:`.
pub open spec fn has_colon(l: Seq<char>) -> bool {
    count_until(l, ':') < l.len()
}

/// A header line's name: the text before its first `:`.
pub open spec fn header_key(l: Seq<char>) -> Seq<char> {
    l.take(count_until(l, ':') as int)
}

/// A header line's value: the text between its first and its second `:`
/// (or the end of the line); empty when the line has no `:`.
pub open spec fn header_value(l: Seq<char>) -> Seq<char> {
    if has_colon(l) {
        let r = l.skip(count_until(l, ':') + 1int);
        r.take(count_until(r, ':') as int)
    } else {
        seq![]
    }
}

/// Reading one line: a line holding `HTTP` is the request line, whose first three
/// words are the method, the path and the version; otherwise a line holding a
/// `:` is a header; an empty line is skipped; any other line becomes the body.
pub open spec fn apply_line(m: RequestModel, l: Seq<char>) -> RequestModel {
    if contains_http(l) {
        let w = spec_words(l);
        RequestModel { method: w[0], path: w[1], version: w[2], headers: m.headers, msg_body: m.msg_body }
    } else if has_colon(l) {
        RequestModel {
            headers: header_insert(m.headers, header_key(l), header_value(l)),
            method: m.method,
            path: m.path,
            version: m.version,
            msg_body: m.msg_body,
        }
    } else if l.len() == 0 {
        m
    } else {
        RequestModel { msg_body: l, method: m.method, path: m.path, version: m.version, headers: m.headers }
    }
}

/// Reading the lines in order, starting from `initial_model`.
pub open spec fn apply_lines(lines: Seq<Seq<char>>) -> RequestModel
    decreases lines.len(),
{
    if lines.len() == 0 {
        initial_model()
    } else {
        apply_line(apply_lines(lines.drop_last()), lines.last())
    }
}

/// The request that the text `s` describes.
pub open spec fn spec_parse_request(s: Seq<char>) -> RequestModel {
    apply_lines(spec_lines(s))
}

/// Reading `lines` in order, starting from `m`.
pub open spec fn apply_from(m: RequestModel, lines: Seq<Seq<char>>) -> RequestModel
    decreases lines.len(),
{
    if lines.len() == 0 {
        m
    } else {
        apply_line(apply_from(m, lines.drop_last()), lines.last())
    }
}

/// Reading lines from the start is reading them from `initial_model`.
pub proof fn lemma_apply_lines_from(lines: Seq<Seq<char>>)
    ensures
        apply_lines(lines) == apply_from(initial_model(), lines),
    decreases lines.len(),
{
    if lines.len() > 0 {
        lemma_apply_lines_from(lines.drop_last());
    }
}

/// Reading `a + b` is reading `a`, then `b` from where `a` left off.
pub proof fn lemma_apply_from_append(m: RequestModel, a: Seq<Seq<char>>, b: Seq<Seq<char>>)
    ensures
        apply_from(m, a + b) == apply_from(apply_from(m, a), b),
    decreases b.len(),
{
    if b.len() == 0 {
        assert(a + b =~= a);
    } else {
        lemma_apply_from_append(m, a, b.drop_last());
        assert((a + b).drop_last() =~= a + b.drop_last());
        assert((a + b).last() == b.last());
    }
}

/// Lines that hold no `HTTP` leave the method, path and version as they were.
pub proof fn law_only_request_line_sets_target(m: RequestModel, lines: Seq<Seq<char>>)
    requires
        forall|i: int| 0 <= i < lines.len() ==> !contains_http(#[trigger] lines[i]),
    ensures
        apply_from(m, lines).method == m.method,
        apply_from(m, lines).path == m.path,
        apply_from(m, lines).version == m.version,
    decreases lines.len(),
{
    if lines.len() > 0 {
        assert(!contains_http(lines[lines.len() - 1]));
        law_only_request_line_sets_target(m, lines.drop_last());
    }
}

/// A text that starts with a line ended by `\r\n` has that line first, then
/// the lines of the rest.
pub proof fn lemma_lines_after_crlf(l: Seq<char>, rest: Seq<char>)
    requires
        count_until(l, '\n') == l.len(),
    ensures
        spec_lines(l + seq!['\r', '\n'] + rest) == seq![l] + spec_lines(rest),
{
    let s = l + seq!['\r', '\n'] + rest;
    lemma_count_until(l, '\n');
    assert(crate::text::is_first_index(s, '\n', l.len() + 1int)) by {
        assert forall|i: int| 0 <= i < l.len() + 1 implies s[i] != '\n' by {
            if i < l.len() {
                assert(s[i] == l[i]);
            }
        }
    }
    crate::text::lemma_first_index_unique(s, '\n', l.len() + 1int);
    assert(s.take(l.len() + 1int) =~= l.push('\r'));
    assert(crate::text::strip_cr(l.push('\r')) =~= l);
    assert(s.skip(l.len() + 2int) =~= rest);
}

/// A request whose first line is a request line ended by `\r\n`, and whose
/// other lines hold no `HTTP`, has the method, path and version of that line.
pub proof fn law_request_line_gives_target(l: Seq<char>, rest: Seq<char>)
    requires
        count_until(l, '\n') == l.len(),
        contains_http(l),
        spec_words(l).len() >= 3,
        forall|i: int| 0 <= i < spec_lines(rest).len() ==> !contains_http(#[trigger] spec_lines(rest)[i]),
    ensures
        spec_parse_request(l + seq!['\r', '\n'] + rest).method == spec_words(l)[0],
        spec_parse_request(l + seq!['\r', '\n'] + rest).path == spec_words(l)[1],
        spec_parse_request(l + seq!['\r', '\n'] + rest).version == spec_words(l)[2],
{
    let text = l + seq!['\r', '\n'] + rest;
    lemma_lines_after_crlf(l, rest);
    lemma_apply_lines_from(spec_lines(text));
    lemma_apply_from_append(initial_model(), seq![l], spec_lines(rest));
    assert(seq![l].drop_last() =~= Seq::<Seq<char>>::empty());
    law_only_request_line_sets_target(apply_from(initial_model(), seq![l]), spec_lines(rest));
}

/// A header line stores its value under its name, replacing an earlier value.
pub proof fn law_header_line_sets_header(m: RequestModel, l: Seq<char>)
    requires
        !contains_http(l),
        has_colon(l),
        distinct_names(m.headers),
    ensures
        header_get(apply_line(m, l).headers, header_key(l)) == Some(header_value(l)),
{
    law_insert_then_get(m.headers, header_key(l), header_value(l));
}

/// Reading lines never gives a header name twice.
pub proof fn law_read_headers_distinct(m: RequestModel, lines: Seq<Seq<char>>)
    requires
        distinct_names(m.headers),
    ensures
        distinct_names(apply_from(m, lines).headers),
    decreases lines.len(),
{
    if lines.len() > 0 {
        law_read_headers_distinct(m, lines.drop_last());
        let p = apply_from(m, lines.drop_last());
        let l = lines.last();
        if !contains_http(l) && has_colon(l) {
            law_insert_then_get(p.headers, header_key(l), header_value(l));
        }
    }
}

/// No character of `s` is `c`.
pub open spec fn lacks_char(s: Seq<char>, c: char) -> bool {
    forall|i: int| 0 <= i < s.len() ==> s[i] != c
}

/// A line ended by `\n` or nothing, followed by an unterminated line `b`:
/// the lines are those of the first part, then `b` whole.
pub proof fn lemma_lines_then_last_line(t: Seq<char>, b: Seq<char>)
    requires
        t.len() == 0 || t.last() == '\n',
        b.len() > 0,
        lacks_char(b, '\n'),
    ensures
        spec_lines(t + b) == spec_lines(t).push(b),
    decreases t.len(),
{
    let s = t + b;
    if t.len() == 0 {
        assert(s =~= b);
        assert(crate::text::is_first_index(b, '\n', b.len() as int));
        crate::text::lemma_first_index_unique(b, '\n', b.len() as int);
        assert(spec_lines(t) =~= Seq::<Seq<char>>::empty());
        assert(spec_lines(s) =~= seq![b]);
        assert(spec_lines(t).push(b) =~= seq![b]);
    } else {
        lemma_count_until(t, '\n');
        let n = count_until(t, '\n') as int;
        assert(n < t.len()) by {
            if n >= t.len() {
                assert(t[t.len() - 1] != '\n');
            }
        }
        assert(crate::text::is_first_index(s, '\n', n)) by {
            assert forall|i: int| 0 <= i < n implies s[i] != '\n' by {
                assert(s[i] == t[i]);
            }
            assert(s[n] == t[n]);
        }
        crate::text::lemma_first_index_unique(s, '\n', n);
        let t2 = t.skip(n + 1);
        assert(t2.len() == 0 || t2.last() == '\n') by {
            if t2.len() > 0 {
                assert(t2.last() == t.last());
            }
        }
        lemma_lines_then_last_line(t2, b);
        assert(s.take(n) =~= t.take(n));
        assert(s.skip(n + 1) =~= t2 + b);
        assert(spec_lines(s) == seq![crate::text::strip_cr(t.take(n))] + spec_lines(t2 + b));
        assert(spec_lines(t) == seq![crate::text::strip_cr(t.take(n))] + spec_lines(t2));
        assert(spec_lines(s) =~= spec_lines(t).push(b));
    }
}

/// The body of a request is its last line that is neither a request line, a
/// header line nor empty, kept whole: a text that ends (after a line break, or
/// alone) with such a line `b` has `b` as its body.
pub proof fn law_body_is_last_plain_line(t: Seq<char>, b: Seq<char>)
    requires
        t.len() == 0 || t.last() == '\n',
        b.len() > 0,
        lacks_char(b, '\n'),
        lacks_char(b, ':'),
        !contains_http(b),
    ensures
        spec_parse_request(t + b).msg_body == b,
{
    lemma_lines_then_last_line(t, b);
    let ls = spec_lines(t);
    assert(ls.push(b).drop_last() =~= ls);
    assert(ls.push(b).last() == b);
    lemma_count_until(b, ':');
    assert(!has_colon(b)) by {
        if count_until(b, ':') < b.len() {
            assert(b[count_until(b, ':') as int] == ':');
        }
    }
}

/// A header line `k:v`, ended there or by a further `:`, has name `k` and
/// value `v`, whatever else (spaces, commas) they hold.
pub proof fn law_header_line_parts(k: Seq<char>, v: Seq<char>, rest: Seq<char>)
    requires
        lacks_char(k, ':'),
        lacks_char(v, ':'),
        rest.len() == 0 || rest[0] == ':',
    ensures
        has_colon(k + seq![':'] + v + rest),
        header_key(k + seq![':'] + v + rest) == k,
        header_value(k + seq![':'] + v + rest) == v,
{
    let l = k + seq![':'] + v + rest;
    assert(crate::text::is_first_index(l, ':', k.len() as int)) by {
        assert forall|i: int| 0 <= i < k.len() implies l[i] != ':' by {
            assert(l[i] == k[i]);
        }
        assert(l[k.len() as int] == ':');
    }
    crate::text::lemma_first_index_unique(l, ':', k.len() as int);
    assert(l.take(k.len() as int) =~= k);
    let r = l.skip(k.len() + 1int);
    assert(r =~= v + rest);
    assert(crate::text::is_first_index(r, ':', v.len() as int)) by {
        assert forall|i: int| 0 <= i < v.len() implies r[i] != ':' by {
            assert(r[i] == v[i]);
        }
        if v.len() < r.len() {
            assert(r[v.len() as int] == rest[0]);
        }
    }
    crate::text::lemma_first_index_unique(r, ':', v.len() as int);
    assert(r.take(v.len() as int) =~= v);
}

/// A line that holds `HTTP` has at least three words.
pub open spec fn line_ok(l: Seq<char>) -> bool {
    contains_http(l) ==> spec_words(l).len() >= 3
}

/// Every line of `s` that holds `HTTP` has at least three words: the texts
/// that can be read as a request.
pub open spec fn parsable(s: Seq<char>) -> bool {
    forall|i: int| 0 <= i < spec_lines(s).len() ==> #[trigger] line_ok(spec_lines(s)[i])
}

/// A parsed HTTP request.
#[derive(Debug)]
pub struct HttpRequest {
    pub method: String,
    pub version: String,
    pub path: String,
    pub headers: HeaderMap,
    pub msg_body: String,
}

impl View for HttpRequest {
    type V = RequestModel;

    open spec fn view(&self) -> RequestModel {
        RequestModel {
            method: self.method@,
            version: self.version@,
            path: self.path@,
            headers: self.headers@,
            msg_body: self.msg_body@,
        }
    }
}

/// Tests whether `HTTP` occurs in `s`.
pub fn has_http(s: &str) -> (r: bool)
    ensures
        r == contains_http(s@),
{
    let n = s.unicode_len();
    if n < 4 {
        proof {
            assert forall|i: int| !http_at(s@, i) by {}
        }
        return false;
    }
    let mut i: usize = 0;
    while i <= n - 4
        invariant
            n == s@.len(),
            4 <= n,
            i <= n - 3,
            forall|j: int| 0 <= j < i ==> !http_at(s@, j),
        decreases n - i,
    {
        if s.get_char(i) == 'H' && s.get_char(i + 1) == 'T' && s.get_char(i + 2) == 'T'
            && s.get_char(i + 3) == 'P' {
            proof {
                assert(http_at(s@, i as int));
            }
            return true;
        }
        i = i + 1;
    }
    proof {
        assert forall|j: int| !http_at(s@, j) by {
            if 0 <= j < i {
            }
        }
    }
    false
}

/// Splits a request line into its first three words: method, path and version.
pub fn process_req_line(s: &str) -> (r: (String, String, String))
    requires
        spec_words(s@).len() >= 3,
    ensures
        r.0@ == spec_words(s@)[0],
        r.1@ == spec_words(s@)[1],
        r.2@ == spec_words(s@)[2],
{
    proof {
        assert(s@.skip(0) =~= s@);
    }
    let ghost w = spec_words(s@);
    let (a0, b0) = match next_word(s, 0) {
        Some(p) => p,
        None => { return (String::new(), String::new(), String::new()); },
    };
    let (a1, b1) = match next_word(s, b0) {
        Some(p) => p,
        None => {
            proof { assert(w.len() == 1); }
            return (String::new(), String::new(), String::new());
        },
    };
    let (a2, b2) = match next_word(s, b1) {
        Some(p) => p,
        None => {
            proof { assert(w.len() == 2); }
            return (String::new(), String::new(), String::new());
        },
    };
    let method = substring(s, a0, b0);
    let path = substring(s, a1, b1);
    let version = substring(s, a2, b2);
    (method, path, version)
}

/// Splits a header line into its name and value (see `header_key` and `header_value`).
pub fn process_header_line(s: &str) -> (r: (String, String))
    ensures
        r.0@ == header_key(s@),
        r.1@ == header_value(s@),
{
    proof {
        assert(s@.skip(0) =~= s@);
    }
    let len = s.unicode_len();
    let k = find_char(s, 0, ':');
    let key = substring(s, 0, k);
    if k == len {
        proof {
            assert(s@.subrange(0, k as int) =~= s@.take(k as int));
        }
        return (key, String::new());
    }
    let e = find_char(s, k + 1, ':');
    let value = substring(s, k + 1, e);
    proof {
        assert(s@.subrange(0, k as int) =~= s@.take(k as int));
        let r = s@.skip(k + 1int);
        assert(r.take(e - k - 1) =~= s@.subrange(k + 1, e as int));
    }
    (key, value)
}

/// Tests whether `s` can be read as a request (see `parsable`).
pub fn is_parsable(s: &str) -> (r: bool)
    ensures
        r == parsable(s@),
{
    let lines = split_lines(s);
    let n = lines.len();
    let mut i: usize = 0;
    while i < n
        invariant
            n == lines@.len(),
            i <= n,
            views(lines@) == spec_lines(s@),
            forall|j: int| 0 <= j < i ==> #[trigger] line_ok(spec_lines(s@)[j]),
        decreases n - i,
    {
        let line = lines[i].as_str();
        proof {
            assert(views(lines@)[i as int] == lines@[i as int]@);
        }
        if has_http(line) {
            proof {
                assert(line@.skip(0) =~= line@);
            }
            let w0 = next_word(line, 0);
            let ok = match w0 {
                None => false,
                Some((_, b0)) => match next_word(line, b0) {
                    None => false,
                    Some((_, b1)) => match next_word(line, b1) {
                        None => false,
                        Some(_) => true,
                    },
                },
            };
            if !ok {
                proof {
                    assert(!line_ok(spec_lines(s@)[i as int]));
                }
                return false;
            }
        }
        i = i + 1;
    }
    true
}

impl HttpRequest {
    /// Reads a request from its text.
    pub fn from(req: String) -> (r: HttpRequest)
        requires
            parsable(req@),
        ensures
            r@ == spec_parse_request(req@),
    {
        let lines = split_lines(req.as_str());
        let n = lines.len();
        let mut method = String::new();
        let mut version = String::from_str("1,0");
        let mut path = String::new();
        let mut headers = HeaderMap::new();
        let mut msg_body = String::new();
        proof {
            reveal_strlit("1,0");
            assert(version@ =~= seq!['1', ',', '0']);
            assert(views(lines@).take(0) =~= Seq::<Seq<char>>::empty());
        }
        let mut i: usize = 0;
        while i < n
            invariant
                n == lines@.len(),
                i <= n,
                views(lines@) == spec_lines(req@),
                parsable(req@),
                (RequestModel {
                    method: method@,
                    version: version@,
                    path: path@,
                    headers: headers@,
                    msg_body: msg_body@,
                }) == apply_lines(views(lines@).take(i as int)),
            decreases n - i,
        {
            let line = lines[i].as_str();
            let ghost prev = views(lines@).take(i as int);
            proof {
                assert(views(lines@)[i as int] == lines@[i as int]@);
                assert(views(lines@).take(i + 1int).drop_last() =~= prev);
                assert(views(lines@).take(i + 1int).last() == line@);
                assert(line_ok(spec_lines(req@)[i as int]));
            }
            if has_http(line) {
                let (m, p, v) = process_req_line(line);
                method = m;
                path = p;
                version = v;
            } else if find_char(line, 0, ':') < line.unicode_len() {
                proof {
                    assert(line@.skip(0) =~= line@);
                }
                let (k, v) = process_header_line(line);
                headers.insert(k, v);
            } else if line.unicode_len() == 0 {
            } else {
                msg_body = line.to_owned();
            }
            proof {
                assert(line@.skip(0) =~= line@);
            }
            i = i + 1;
        }
        proof {
            assert(views(lines@).take(n as int) =~= views(lines@));
        }
        HttpRequest { method, version, path, headers, msg_body }
    }
}

} // verus!
