//! Request parsing: one raw text buffer in, a populated [`Request`] out.
//!
//! The buffer splits at the first blank line into a head and a body
//! section. The head's first line must carry exactly three
//! whitespace-separated tokens — method, URI, version — and the remaining
//! lines are headers, each cut at its first `": "` into a lower-cased key
//! and a value; a header whose key or value comes out empty is dropped.
//! The body is bounded by the `content-length` header, which defaults to
//! zero and must parse as a non-negative integer.

use vstd::prelude::*;
use vstd::string::StrSliceExecFns;
use vstd::string::StringExecFns;

use crate::http_types::HttpError;
use crate::http_types::Method;
use crate::http_types::method_of;
use crate::http_types::URI;
use crate::http_types::Version;
use crate::http_types::version_of;
use crate::http_types::version_str;
use crate::strmap::StringMap;
use crate::strutil::all_digits;
use crate::strutil::ascii_lowercase;
use crate::strutil::dec_str;
use crate::strutil::dec_val;
use crate::strutil::lower_seq;
use crate::strutil::parse_usize;
use crate::strutil::split_on;
use crate::strutil::split_str;
use crate::strutil::str_eq;
use crate::strutil::strip_cr;
use crate::strutil::strip_cr_exec;
use crate::strutil::tokens_of;
use crate::strutil::usize_to_string;
use crate::strutil::lemma_split_on_len;
use crate::strutil::lemma_tokens_skip_space;
use crate::strutil::lemma_tokens_peel;
use crate::strutil::is_space_char;
use crate::strutil::find_char;
use crate::strutil::find_from;
use crate::strutil::lemma_find_from;
use crate::uri::check_uri_pattern;
use crate::uri::chunks_params;
use crate::uri::head_of;
use crate::uri::params_of;
use crate::uri::parse_query_params;
use crate::uri::path_of;
use crate::uri::query_of;
use crate::uri::valid_uri;
use crate::strutil::trim_slashes_exec;

verus! {

/// Position of the first blank line — the four characters `\r\n\r\n` —
/// at or after `i`; the buffer length when there is none.
pub open spec fn find_blank(u: Seq<char>, i: int) -> int
    decreases u.len() - i when 0 <= i
{
    if i + 4 > u.len() {
        u.len() as int
    } else if u[i] == '\r' && u[i + 1] == '\n' && u[i + 2] == '\r' && u[i + 3] == '\n' {
        i
    } else {
        find_blank(u, i + 1)
    }
}

proof fn lemma_find_blank(u: Seq<char>, i: int)
    requires
        0 <= i <= u.len(),
    ensures
        i <= find_blank(u, i) <= u.len(),
        find_blank(u, i) < u.len() ==> find_blank(u, i) + 4 <= u.len(),
    decreases u.len() - i,
{
    if i + 4 > u.len() {
    } else if u[i] == '\r' && u[i + 1] == '\n' && u[i + 2] == '\r' && u[i + 3] == '\n' {
    } else {
        lemma_find_blank(u, i + 1);
    }
}

/// Executable counterpart of [`find_blank`].
fn find_blank_exec(u: &str) -> (r: usize)
    ensures
        r == find_blank(u@, 0),
        r <= u@.len(),
        r < u@.len() ==> r + 4 <= u@.len(),
{
    let len = u.unicode_len();
    proof {
        lemma_find_blank(u@, 0);
    }
    let mut i: usize = 0;
    while len - i >= 4
        invariant
            len == u@.len(),
            0 <= i,
            i <= len,
            find_blank(u@, 0) == find_blank(u@, i as int),
        decreases len - i,
    {
        if u.get_char(i) == '\r' && u.get_char(i + 1) == '\n' && u.get_char(i + 2) == '\r'
            && u.get_char(i + 3) == '\n' {
            return i;
        }
        i += 1;
    }
    len
}

/// Position of the first `": "` at or after `i`; the line length when
/// there is none.
pub open spec fn find_colon_space(l: Seq<char>, i: int) -> int
    decreases l.len() - i when 0 <= i
{
    if i + 2 > l.len() {
        l.len() as int
    } else if l[i] == ':' && l[i + 1] == ' ' {
        i
    } else {
        find_colon_space(l, i + 1)
    }
}

proof fn lemma_find_colon_space(l: Seq<char>, i: int)
    requires
        0 <= i <= l.len(),
    ensures
        i <= find_colon_space(l, i) <= l.len(),
        find_colon_space(l, i) < l.len() ==> find_colon_space(l, i) + 2 <= l.len(),
    decreases l.len() - i,
{
    if i + 2 > l.len() {
    } else if l[i] == ':' && l[i + 1] == ' ' {
    } else {
        lemma_find_colon_space(l, i + 1);
    }
}

fn find_colon_space_exec(l: &str) -> (r: usize)
    ensures
        r == find_colon_space(l@, 0),
        r <= l@.len(),
        r < l@.len() ==> r + 2 <= l@.len(),
{
    let len = l.unicode_len();
    proof {
        lemma_find_colon_space(l@, 0);
    }
    let mut i: usize = 0;
    while len - i >= 2
        invariant
            len == l@.len(),
            0 <= i,
            i <= len,
            find_colon_space(l@, 0) == find_colon_space(l@, i as int),
        decreases len - i,
    {
        if l.get_char(i) == ':' && l.get_char(i + 1) == ' ' {
            return i;
        }
        i += 1;
    }
    len
}

/// The lower-cased key of a header line: what stands before its first
/// `": "`, or the whole line without one.
pub open spec fn header_key_of(l: Seq<char>) -> Seq<char> {
    lower_seq(l.take(find_colon_space(l, 0)))
}

/// The value of a header line: what stands after its first `": "`, or
/// nothing without one.
pub open spec fn header_val_of(l: Seq<char>) -> Seq<char> {
    if find_colon_space(l, 0) == l.len() {
        Seq::empty()
    } else {
        l.skip(find_colon_space(l, 0) + 2)
    }
}

/// Header lines folded into a map from `m0` on, in order, dropping every
/// line whose key or value comes out empty, later occurrences winning.
pub open spec fn headers_fold(
    m0: Map<Seq<char>, Seq<char>>,
    lines: Seq<Seq<char>>,
) -> Map<Seq<char>, Seq<char>>
    decreases lines.len(),
{
    if lines.len() == 0 {
        m0
    } else {
        let m = headers_fold(m0, lines.drop_last());
        let l = lines.last();
        if header_key_of(l).len() == 0 || header_val_of(l).len() == 0 {
            m
        } else {
            m.insert(header_key_of(l), header_val_of(l))
        }
    }
}

/// The header map a sequence of lines denotes.
pub open spec fn headers_of(lines: Seq<Seq<char>>) -> Map<Seq<char>, Seq<char>> {
    headers_fold(Map::empty(), lines)
}

/// Each line with one trailing carriage return removed.
pub open spec fn stripped(lines: Seq<Seq<char>>) -> Seq<Seq<char>> {
    lines.map(|i: int, l: Seq<char>| strip_cr(l))
}

/// The head section of a buffer: everything before the first blank line.
pub open spec fn head_of_buf(u: Seq<char>) -> Seq<char> {
    u.take(find_blank(u, 0))
}

/// The body section of a buffer: everything after the first blank line.
pub open spec fn body_of_buf(u: Seq<char>) -> Seq<char> {
    if find_blank(u, 0) == u.len() {
        Seq::empty()
    } else {
        u.skip(find_blank(u, 0) + 4)
    }
}

/// The lines of the head section, cut on line feeds, each with one
/// trailing carriage return removed.
pub open spec fn lines_of(u: Seq<char>) -> Seq<Seq<char>> {
    split_on(head_of_buf(u), '\n').map(|i: int, l: Seq<char>| strip_cr(l))
}

/// The request line: the first line of the head.
pub open spec fn request_line_of(u: Seq<char>) -> Seq<char> {
    lines_of(u)[0]
}

/// The header lines: every line of the head after the first.
pub open spec fn header_lines_of(u: Seq<char>) -> Seq<Seq<char>> {
    lines_of(u).drop_first()
}

/// The `content-length` value a header map holds, defaulting to `0`.
pub open spec fn content_length_str(h: Map<Seq<char>, Seq<char>>) -> Seq<char> {
    if h.contains_key("content-length"@) {
        h["content-length"@]
    } else {
        "0"@
    }
}

/// Whether the `content-length` value parses as an integer that fits.
pub open spec fn content_length_ok(h: Map<Seq<char>, Seq<char>>) -> bool {
    &&& content_length_str(h).len() > 0
    &&& all_digits(content_length_str(h))
    &&& dec_val(content_length_str(h)) <= usize::MAX
}

/// The extracted body: at most `content-length` characters of the body
/// section.
pub open spec fn extracted_body(body: Seq<char>, h: Map<Seq<char>, Seq<char>>) -> Seq<char> {
    if dec_val(content_length_str(h)) < body.len() {
        body.take(dec_val(content_length_str(h)) as int)
    } else {
        body
    }
}

proof fn lemma_fold_keys_lowercase(
    m0: Map<Seq<char>, Seq<char>>,
    lines: Seq<Seq<char>>,
    k: Seq<char>,
)
    requires
        forall|k0: Seq<char>| m0.contains_key(k0) ==> k0 == lower_seq(k0),
        headers_fold(m0, lines).contains_key(k),
    ensures
        k == lower_seq(k),
    decreases lines.len(),
{
    if lines.len() == 0 {
    } else {
        let l = lines.last();
        if headers_fold(m0, lines.drop_last()).contains_key(k) && (header_key_of(l).len() == 0
            || header_val_of(l).len() == 0 || k != header_key_of(l)) {
            lemma_fold_keys_lowercase(m0, lines.drop_last(), k);
        } else {
            crate::strutil::lemma_lower_idempotent(l.take(find_colon_space(l, 0)));
        }
    }
}

/// The header-map invariant: every key a parsed header map holds is
/// normalized to lower case.
pub proof fn lemma_header_keys_lowercase(lines: Seq<Seq<char>>, k: Seq<char>)
    requires
        headers_of(lines).contains_key(k),
    ensures
        k == lower_seq(k),
{
    lemma_fold_keys_lowercase(Map::empty(), lines, k);
}

/// Body extraction is idempotent under content-length bounding:
/// extracting from an already extracted body yields it unchanged.
pub proof fn lemma_extraction_idempotent(body: Seq<char>, h: Map<Seq<char>, Seq<char>>)
    ensures
        extracted_body(extracted_body(body, h), h) == extracted_body(body, h),
{
    let cl = dec_val(content_length_str(h));
    if cl < body.len() {
        assert(body.take(cl as int).len() == cl);
    }
}

/// The request-line tokens of a buffer.
pub open spec fn request_tokens_of(u: Seq<char>) -> Seq<Seq<char>> {
    tokens_of(request_line_of(u))
}

/// A buffer the parser accepts whole: three request-line tokens, a URI
/// that meets the grammar, and a usable `content-length`.
pub open spec fn request_wf(u: Seq<char>) -> bool {
    &&& request_tokens_of(u).len() == 3
    &&& valid_uri(request_tokens_of(u)[1])
    &&& content_length_ok(headers_of(header_lines_of(u)))
}

/// The non-whitespace tokens of a line, as fresh strings.
pub fn tokenize(s: &str) -> (r: Vec<String>)
    ensures
        r.deep_view() =~~= tokens_of(s@),
{
    let len = s.unicode_len();
    let mut out: Vec<String> = Vec::new();
    let mut i: usize = 0;
    proof {
        assert(s@.skip(0) =~= s@);
        assert(out.deep_view() + tokens_of(s@) =~~= tokens_of(s@));
    }
    while i < len
        invariant
            len == s@.len(),
            i <= len,
            tokens_of(s@) =~~= out.deep_view() + tokens_of(s@.skip(i as int)),
        decreases len - i,
    {
        let c = s.get_char(i);
        if c == ' ' || c == '\t' || c == '\r' || c == '\n' {
            proof {
                lemma_tokens_skip_space(s@, i as int);
            }
            i += 1;
        } else {
            let mut j: usize = i + 1;
            while j < len
                invariant
                    len == s@.len(),
                    i < j <= len,
                    forall|k: int| i <= k < j ==> !is_space_char(s@[k]),
                ensures
                    i < j <= len,
                    forall|k: int| i <= k < j ==> !is_space_char(s@[k]),
                    j == len || is_space_char(s@[j as int]),
                decreases len - j,
                {
                let d = s.get_char(j);
                if d == ' ' || d == '\t' || d == '\r' || d == '\n' {
                    break ;
                }
                j += 1;
            }
            proof {
                lemma_tokens_peel(s@, i as int, j as int);
            }
            let ghost old_dv = out.deep_view();
            out.push(s.substring_char(i, j).to_owned());
            proof {
                assert(out.deep_view() =~~= old_dv + seq![s@.subrange(i as int, j as int)]);
            }
            i = j;
        }
    }
    proof {
        assert(s@.skip(len as int) =~= Seq::<char>::empty());
        assert(tokens_of(Seq::<char>::empty()) =~~= Seq::<Seq<char>>::empty());
    }
    out
}

/// One parsed request: method, URI, version, headers and bounded body.
#[derive(Debug)]
pub struct Request {
    pub method: Method,
    pub uri: URI,
    pub version: Version,
    pub headers: StringMap,
    pub body: String,
}

/// The token-level parsers of the request line and the header lines.
pub struct RequestParser {}

impl RequestParser {
    /// The method a token denotes; anything unrecognized is `GET`.
    pub fn parse_method(method: &str) -> (r: Result<Method, HttpError>)
        ensures
            r is Ok,
            r->Ok_0 == method_of(method@),
    {
        let m = if str_eq(method, "POST") {
            Method::POST
        } else if str_eq(method, "PUT") {
            Method::PUT
        } else if str_eq(method, "DELETE") {
            Method::DELETE
        } else if str_eq(method, "OPTIONS") {
            Method::OPTIONS
        } else {
            Method::GET
        };
        Ok(m)
    }

    /// The version a token denotes; anything unrecognized is `HTTP/1.1`.
    pub fn parse_version(version: &str) -> (r: Result<Version, HttpError>)
        ensures
            r is Ok,
            r->Ok_0 == version_of(version@),
    {
        let v = if str_eq(version, "HTTP/1.0") {
            Version::HTTP1_0
        } else if str_eq(version, "HTTP/2.0") {
            Version::HTTP2_0
        } else {
            Version::HTTP1_1
        };
        Ok(v)
    }

    /// Validates a URI token against the grammar and decomposes it into
    /// a trimmed path and a parameter map.
    pub fn parse_uri(uri: &str) -> (r: Result<URI, HttpError>)
        ensures
            r is Ok <==> valid_uri(uri@),
            r is Ok ==> r->Ok_0.path@ == path_of(uri@),
            r is Ok ==> r->Ok_0.params.wf() && r->Ok_0.params.as_map() =~= params_of(
                query_of(uri@),
            ),
            r is Err ==> r == Err::<URI, HttpError>(HttpError::InvalidUri),
    {
        let is_root = str_eq(uri, "/");
        proof {
            reveal_strlit("/");
        }
        let ok = if is_root {
            true
        } else {
            let pattern_ok = check_uri_pattern(uri);
            proof {
                if uri@.len() == 1 && uri@[0] == '/' {
                    assert(uri@ =~= "/"@);
                }
            }
            pattern_ok
        };
        if !ok {
            return Err(HttpError::InvalidUri);
        }
        let len = uri.unicode_len();
        let j = find_char(uri, '?');
        proof {
            lemma_find_from(uri@, '?', 0);
        }
        let head = uri.substring_char(0, j);
        proof {
            assert(uri@.subrange(0, j as int) =~= head_of(uri@));
        }
        let path = trim_slashes_exec(head);
        let params = if j == len {
            proof {
                assert(query_of(uri@) =~= Seq::<char>::empty());
                let cs = split_on(Seq::<char>::empty(), '&');
                assert(cs == seq![Seq::<char>::empty()]);
                assert(cs.len() == 1);
                assert(cs.last() =~= Seq::<char>::empty());
                assert(cs.drop_last() =~= Seq::<Seq<char>>::empty());
                assert(chunks_params(cs.drop_last()) =~= Map::<Seq<char>, Seq<char>>::empty());
                assert(find_from(cs.last(), '=', 0) == 0);
                assert(chunks_params(cs) =~= Map::<Seq<char>, Seq<char>>::empty());
            }
            StringMap::new()
        } else {
            let q = uri.substring_char(j + 1, len);
            proof {
                assert(uri@.subrange(j + 1, len as int) =~= query_of(uri@));
            }
            parse_query_params(q)
        };
        Ok(URI { path, params })
    }

    /// Cuts a header line at its first `": "` into the lower-cased key
    /// and the value; without one the value comes out empty.
    pub fn parse_header(header: &str) -> (r: Result<(String, String), HttpError>)
        ensures
            r is Ok,
            r->Ok_0.0@ == header_key_of(header@),
            r->Ok_0.1@ == header_val_of(header@),
    {
        let len = header.unicode_len();
        let j = find_colon_space_exec(header);
        let key = ascii_lowercase(header.substring_char(0, j));
        proof {
            assert(header@.subrange(0, j as int) =~= header@.take(find_colon_space(header@, 0)));
        }
        let value = if j == len {
            String::new()
        } else {
            header.substring_char(j + 2, len).to_owned()
        };
        proof {
            if j < len {
                assert(header@.subrange(j + 2, len as int) =~= header@.skip(
                    find_colon_space(header@, 0) + 2,
                ));
            }
        }
        Ok((key, value))
    }
}

impl Request {
    /// Headers and parameters keep their keys unique.
    pub open spec fn wf(&self) -> bool {
        self.headers.wf() && self.uri.params.wf()
    }

    /// An empty request: `GET /` over HTTP/1.1, no headers, no body.
    pub fn new() -> (r: Request)
        ensures
            r.method == Method::GET,
            r.version == Version::HTTP1_1,
            r.uri.path@ == Seq::<char>::empty(),
            r.uri.params@ == Seq::<(Seq<char>, Seq<char>)>::empty(),
            r.headers@ == Seq::<(Seq<char>, Seq<char>)>::empty(),
            r.body@ == Seq::<char>::empty(),
            r.wf(),
    {
        Request {
            method: Method::GET,
            uri: URI::new(),
            version: Version::HTTP1_1,
            headers: StringMap::new(),
            body: String::new(),
        }
    }

    /// Parses the request line: exactly three tokens, or a malformed
    /// request; a URI failing the grammar is the distinct validation
    /// error. On any error nothing of the request is populated.
    fn parse_request_line(&mut self, line: &str) -> (r: Result<(), HttpError>)
        requires
            old(self).wf(),
        ensures
            final(self).wf(),
            final(self).headers == old(self).headers,
            final(self).body == old(self).body,
            r is Err ==> *final(self) == *old(self),
            r is Ok <==> tokens_of(line@).len() == 3 && valid_uri(tokens_of(line@)[1]),
            r is Ok ==> final(self).method == method_of(tokens_of(line@)[0]),
            r is Ok ==> final(self).uri.path@ == path_of(tokens_of(line@)[1]),
            r is Ok ==> final(self).uri.params.as_map() =~= params_of(
                query_of(tokens_of(line@)[1]),
            ),
            r is Ok ==> final(self).version == version_of(tokens_of(line@)[2]),
            tokens_of(line@).len() != 3 ==> r == Err::<(), HttpError>(HttpError::MalformedRequest),
            tokens_of(line@).len() == 3 && !valid_uri(tokens_of(line@)[1]) ==> r == Err::<
                (),
                HttpError,
            >(HttpError::InvalidUri),
    {
        let toks = tokenize(line);
        if toks.len() != 3 {
            return Err(HttpError::MalformedRequest);
        }
        proof {
            assert(toks.deep_view()[0] == toks@[0]@);
            assert(toks.deep_view()[1] == toks@[1]@);
            assert(toks.deep_view()[2] == toks@[2]@);
        }
        let method = match RequestParser::parse_method(toks[0].as_str()) {
            Ok(m) => m,
            Err(e) => {
                return Err(e);
            },
        };
        let uri = match RequestParser::parse_uri(toks[1].as_str()) {
            Ok(u) => u,
            Err(e) => {
                return Err(e);
            },
        };
        let version = match RequestParser::parse_version(toks[2].as_str()) {
            Ok(v) => v,
            Err(e) => {
                return Err(e);
            },
        };
        self.method = method;
        self.uri = uri;
        self.version = version;
        Ok(())
    }

    /// Folds the raw header lines into the header map; never fails.
    pub fn parse_headers(&mut self, lines: Vec<String>) -> (r: Result<(), HttpError>)
        requires
            old(self).wf(),
        ensures
            r is Ok,
            final(self).wf(),
            final(self).headers.as_map() =~= headers_fold(
                old(self).headers.as_map(),
                stripped(lines.deep_view()),
            ),
            final(self).method == old(self).method,
            final(self).uri == old(self).uri,
            final(self).version == old(self).version,
            final(self).body == old(self).body,
    {
        let n = lines.len();
        let ghost ls = stripped(lines.deep_view());
        let mut k: usize = 0;
        proof {
            assert(ls.take(0) =~~= Seq::<Seq<char>>::empty());
        }
        while k < n
            invariant
                old(self).wf(),
                self.wf(),
                n == lines@.len(),
                ls == stripped(lines.deep_view()),
                ls.len() == n,
                k <= n,
                self.headers.as_map() =~= headers_fold(old(self).headers.as_map(), ls.take(
                    k as int,
                )),
                self.method == old(self).method,
                self.uri == old(self).uri,
                self.version == old(self).version,
                self.body == old(self).body,
            decreases n - k,
        {
            proof {
                assert(lines.deep_view()[k as int] == lines@[k as int]@);
                assert(ls[k as int] == strip_cr(lines@[k as int]@));
            }
            let line = strip_cr_exec(lines[k].as_str());
            let (key, value) = match RequestParser::parse_header(line.as_str()) {
                Ok(p) => p,
                Err(e) => {
                    return Err(e);
                },
            };
            let key_empty = key.as_str().unicode_len() == 0;
            let value_empty = value.as_str().unicode_len() == 0;
            if !key_empty && !value_empty {
                self.headers.insert(key, value);
            }
            proof {
                assert(ls.take(k + 1).drop_last() =~~= ls.take(k as int));
                assert(ls.take(k + 1).last() == ls[k as int]);
            }
            k += 1;
        }
        proof {
            assert(ls.take(n as int) =~~= ls);
        }
        Ok(())
    }

    /// Bounds the body section by the `content-length` header; a header
    /// present but not a parsable integer is a malformed request.
    pub fn parse_body(&mut self, body: &str) -> (r: Result<(), HttpError>)
        requires
            old(self).wf(),
        ensures
            final(self).wf(),
            final(self).method == old(self).method,
            final(self).uri == old(self).uri,
            final(self).version == old(self).version,
            final(self).headers == old(self).headers,
            r is Ok <==> content_length_ok(old(self).headers.as_map()),
            r is Ok ==> final(self).body@ == extracted_body(body@, old(self).headers.as_map()),
            r is Err ==> r == Err::<(), HttpError>(HttpError::MalformedRequest),
            r is Err ==> final(self).body == old(self).body,
    {
        let cl_res: Result<usize, ()> = match self.headers.get("content-length") {
            Some(v) => parse_usize(v.as_str()),
            None => {
                proof {
                    reveal_strlit("0");
                    assert("0"@ =~= seq!['0']);
                    let z = seq!['0'];
                    assert(z.len() == 1);
                    assert(z.last() == '0');
                    assert(z.drop_last() =~= Seq::<char>::empty());
                    assert(dec_val(z.drop_last()) == 0);
                    assert('0' as int == 48);
                    assert(dec_val(z) == (0 * 10 + ('0' as int - 48)) as nat);
                    assert(dec_val(z) == 0);
                }
                Ok(0)
            },
        };
        let cl = match cl_res {
            Ok(cl) => cl,
            Err(_) => {
                return Err(HttpError::MalformedRequest);
            },
        };
        let blen = body.unicode_len();
        let n = if cl < blen {
            cl
        } else {
            blen
        };
        self.body = body.substring_char(0, n).to_owned();
        proof {
            if cl < blen {
                assert(body@.subrange(0, n as int) =~= body@.take(
                    dec_val(content_length_str(old(self).headers.as_map())) as int,
                ));
            } else {
                assert(body@.subrange(0, n as int) =~= body@);
            }
        }
        Ok(())
    }

    /// Parses one whole buffer into this request: request line, headers,
    /// then the bounded body. `Ok` exactly on well-formed buffers; the
    /// error tells a structural failure from a URI validation failure.
    pub fn parse(&mut self, buffer: &str) -> (r: Result<(), HttpError>)
        requires
            old(self).wf(),
            old(self).headers@ == Seq::<(Seq<char>, Seq<char>)>::empty(),
        ensures
            final(self).wf(),
            r is Ok <==> request_wf(buffer@),
            request_tokens_of(buffer@).len() == 3 && valid_uri(request_tokens_of(buffer@)[1])
                ==> final(self).method == method_of(request_tokens_of(buffer@)[0])
                && final(self).uri.path@ == path_of(request_tokens_of(buffer@)[1])
                && final(self).uri.params.as_map() =~= params_of(
                query_of(request_tokens_of(buffer@)[1]),
            ) && final(self).version == version_of(request_tokens_of(buffer@)[2])
                && final(self).headers.as_map() =~= headers_of(header_lines_of(buffer@)),
            r is Ok ==> final(self).body@ == extracted_body(
                body_of_buf(buffer@),
                headers_of(header_lines_of(buffer@)),
            ),
            request_tokens_of(buffer@).len() != 3 ==> r == Err::<(), HttpError>(
                HttpError::MalformedRequest,
            ) && *final(self) == *old(self),
            request_tokens_of(buffer@).len() == 3 && !valid_uri(request_tokens_of(buffer@)[1])
                ==> r == Err::<(), HttpError>(HttpError::InvalidUri) && *final(self) == *old(self),
            request_tokens_of(buffer@).len() == 3 && valid_uri(request_tokens_of(buffer@)[1])
                && !content_length_ok(headers_of(header_lines_of(buffer@))) ==> r == Err::<
                (),
                HttpError,
            >(HttpError::MalformedRequest) && final(self).body == old(self).body,
    {
        let len = buffer.unicode_len();
        let b = find_blank_exec(buffer);
        let head = buffer.substring_char(0, b);
        proof {
            assert(buffer@.subrange(0, b as int) =~= head_of_buf(buffer@));
        }
        let mut rest = split_str(head, '\n');
        proof {
            lemma_split_on_len(head@, '\n');
        }
        let first = rest.remove(0);
        let line0 = strip_cr_exec(first.as_str());
        let ghost raw = split_on(head_of_buf(buffer@), '\n');
        proof {
            assert(first@ == raw[0]);
            assert(line0@ == lines_of(buffer@)[0]);
            assert(rest.deep_view() =~~= raw.drop_first());
            assert(stripped(raw.drop_first()) =~~= header_lines_of(buffer@));
        }
        match self.parse_request_line(line0.as_str()) {
            Ok(_) => {},
            Err(e) => {
                return Err(e);
            },
        }
        match self.parse_headers(rest) {
            Ok(_) => {},
            Err(e) => {
                return Err(e);
            },
        }
        proof {
            assert(self.headers.as_map() =~= headers_of(header_lines_of(buffer@)));
        }
        let body_sec: &str = if b == len {
            proof {
                reveal_strlit("");
            }
            ""
        } else {
            buffer.substring_char(b + 4, len)
        };
        proof {
            if b == len {
                assert(body_sec@ =~= body_of_buf(buffer@));
            } else {
                assert(buffer@.subrange(b + 4, len as int) =~= body_of_buf(buffer@));
            }
        }
        match self.parse_body(body_sec) {
            Ok(_) => Ok(()),
            Err(e) => Err(e),
        }
    }

    /// A fresh copy of the parsed URI.
    pub fn uri(&self) -> (r: URI)
        ensures
            r.path@ == self.uri.path@,
            r.params@ =~= self.uri.params@,
    {
        URI { path: self.uri.path.clone(), params: self.uri.params.duplicate() }
    }

    /// The parsed protocol version.
    pub fn version(&self) -> (r: &Version)
        ensures
            *r == self.version,
    {
        &self.version
    }

    /// The parsed method.
    pub fn method(&self) -> (r: Method)
        ensures
            r == self.method,
    {
        self.method
    }

    /// The bare status line written back when parsing failed and no
    /// response is built: version, status code and status text.
    pub fn close_line(&self, status: u16, status_text: &str) -> (r: String)
        ensures
            r@ == version_str(self.version) + " "@ + dec_str(status as nat) + " "@
                + status_text@,
    {
        let mut out = self.version.as_str().to_owned();
        out.append(" ");
        out.append(usize_to_string(status as usize).as_str());
        out.append(" ");
        out.append(status_text);
        out
    }
}

} // verus!
