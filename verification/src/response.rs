//! Response building and serialization.
//!
//! The builder receives the contents the caller read for the resolved
//! file and, when that read failed, for the configured not-found
//! document; it never touches the disk itself. Success serves the file
//! with status 200, failure the not-found document with status 404, and
//! when even that document is unreadable the request is unrecoverable and
//! reports the fatal fallback error. Serialization always (re)sets the
//! three response headers and renders
//! `<version> <status> <status-text>\r\n<headers>\r\n\r\n<body>`.

use vstd::prelude::*;
use vstd::string::StrSliceExecFns;
use vstd::string::StringExecFns;
use vstd::utf8::encode_utf8;

use crate::http_types::HttpError;
use crate::http_types::Version;
use crate::http_types::version_str;
use crate::request::Request;
use crate::strmap::StringMap;
use crate::strmap::has_key;
use crate::strutil::dec_str;
use crate::strutil::usize_to_string;

verus! {

/// The status text of a code; anything unrecognized reads `OK`, a known
/// looseness kept for compatibility.
pub open spec fn status_text_of(code: u16) -> Seq<char> {
    if code == 404 {
        "Not Found"@
    } else if code == 500 {
        "Internal Server Error"@
    } else {
        "OK"@
    }
}

/// Header entries rendered as `key: value\r\n` lines, in order.
pub open spec fn header_block(entries: Seq<(Seq<char>, Seq<char>)>) -> Seq<char>
    decreases entries.len(),
{
    if entries.len() == 0 {
        Seq::empty()
    } else {
        header_block(entries.drop_last()) + entries.last().0 + ": "@ + entries.last().1
            + "\r\n"@
    }
}

/// The three headers every serialized response carries, in the order
/// they are set: content type, server name, content length in bytes.
pub open spec fn response_header_entries(body: Seq<char>) -> Seq<(Seq<char>, Seq<char>)> {
    seq![
        ("Content-Type"@, "text/html"@),
        ("Server"@, "Rust Server"@),
        ("Content-Length"@, dec_str((encode_utf8(body).len() as usize) as nat)),
    ]
}

/// A whole serialized response.
pub open spec fn raw_response(v: Version, code: u16, body: Seq<char>) -> Seq<char> {
    version_str(v) + " "@ + dec_str(code as nat) + " "@ + status_text_of(code) + "\r\n"@
        + header_block(response_header_entries(body)) + "\r\n\r\n"@ + body
}

/// The candidate file for a request path: the root joined with the path
/// when that is a usable file, else the index file under the root (for an
/// empty path) or under the path's directory.
pub open spec fn file_path_of(
    root: Seq<char>,
    path: Seq<char>,
    index: Seq<char>,
    usable: bool,
) -> Seq<char> {
    if usable {
        root + "/"@ + path
    } else if path.len() == 0 {
        root + "/"@ + index
    } else {
        root + "/"@ + path + "/"@ + index
    }
}

/// One response being built for a parsed request.
pub struct Response {
    pub version: Version,
    pub status_code: u16,
    pub headers: StringMap,
    pub body: String,
}

impl Response {
    /// The header map keeps its keys unique.
    pub open spec fn wf(&self) -> bool {
        self.headers.wf()
    }

    /// A fresh response for a request: status 200, no headers, no body.
    pub fn new(request: &Request) -> (r: Response)
        ensures
            r.version == request.version,
            r.status_code == 200,
            r.headers@ == Seq::<(Seq<char>, Seq<char>)>::empty(),
            r.body@ == Seq::<char>::empty(),
            r.wf(),
    {
        Response {
            version: *request.version(),
            status_code: 200,
            headers: StringMap::new(),
            body: String::new(),
        }
    }

    /// The status code.
    pub fn status(&self) -> (r: u16)
        ensures
            r == self.status_code,
    {
        self.status_code
    }

    /// The body text.
    pub fn body(&self) -> (r: &str)
        ensures
            r@ == self.body@,
    {
        self.body.as_str()
    }

    /// The status text of the current code.
    pub fn status_text(&self) -> (r: String)
        ensures
            r@ == status_text_of(self.status_code),
    {
        match self.status_code {
            404 => "Not Found".to_owned(),
            500 => "Internal Server Error".to_owned(),
            _ => "OK".to_owned(),
        }
    }

    /// The header map rendered as `key: value\r\n` lines.
    pub fn headers(&self) -> (r: String)
        ensures
            r@ == header_block(self.headers@),
    {
        let n = self.headers.len();
        let mut out = String::new();
        let mut k: usize = 0;
        proof {
            assert(self.headers@.take(0) =~= Seq::<(Seq<char>, Seq<char>)>::empty());
        }
        while k < n
            invariant
                n == self.headers@.len(),
                k <= n,
                out@ == header_block(self.headers@.take(k as int)),
            decreases n - k,
        {
            out.append(self.headers.key_at(k).as_str());
            out.append(": ");
            out.append(self.headers.value_at(k).as_str());
            out.append("\r\n");
            proof {
                let e = self.headers@;
                assert(e.take(k + 1).drop_last() =~= e.take(k as int));
                assert(e.take(k + 1).last() == e[k as int]);
                assert(out@ =~= header_block(e.take(k + 1)));
            }
            k += 1;
        }
        proof {
            assert(self.headers@.take(n as int) =~= self.headers@);
        }
        out
    }

    /// Serializes the response, first (re)setting the three headers from
    /// the current body.
    pub fn get_raw(&mut self) -> (r: String)
        ensures
            final(self).wf(),
            final(self).version == old(self).version,
            final(self).status_code == old(self).status_code,
            final(self).body == old(self).body,
            final(self).headers@ =~= response_header_entries(old(self).body@),
            r@ == raw_response(old(self).version, old(self).status_code, old(self).body@),
    {
        self.headers = StringMap::new();
        self.headers.insert(String::from_str("Content-Type"), String::from_str("text/html"));
        proof {
            reveal_strlit("Content-Type");
            reveal_strlit("Server");
            reveal_strlit("Content-Length");
            assert("Content-Type"@.len() == 12);
            assert("Server"@.len() == 6);
            assert("Content-Length"@.len() == 14);
            assert(!has_key(self.headers@, "Server"@));
        }
        self.headers.insert(String::from_str("Server"), String::from_str("Rust Server"));
        let clen = usize_to_string(self.body.as_str().len());
        proof {
            assert(!has_key(self.headers@, "Content-Length"@));
        }
        self.headers.insert(String::from_str("Content-Length"), clen);
        proof {
            assert(self.headers@ =~= response_header_entries(old(self).body@));
        }
        let mut out = self.version.as_str().to_owned();
        out.append(" ");
        out.append(usize_to_string(self.status_code as usize).as_str());
        out.append(" ");
        let st = self.status_text();
        out.append(st.as_str());
        out.append("\r\n");
        let hb = self.headers();
        out.append(hb.as_str());
        out.append("\r\n\r\n");
        out.append(self.body.as_str());
        proof {
            assert(out@ =~= raw_response(
                old(self).version,
                old(self).status_code,
                old(self).body@,
            ));
        }
        out
    }

    /// Completes the response from the contents the caller read: the
    /// resolved file when it was readable, else the not-found document
    /// with status 404, else the fatal fallback error.
    pub fn prepare(&mut self, primary: Option<String>, not_found: Option<String>) -> (r: Result<
        String,
        HttpError,
    >)
        requires
            old(self).wf(),
        ensures
            final(self).wf(),
            final(self).version == old(self).version,
            primary is Some ==> final(self).status_code == 200 && final(self).body@ == primary->0@
                && final(self).headers@ =~= response_header_entries(primary->0@) && r is Ok
                && r->Ok_0@ == raw_response(old(self).version, 200, primary->0@),
            primary is None && not_found is Some ==> final(self).status_code == 404
                && final(self).body@ == not_found->0@ && final(self).headers@
                =~= response_header_entries(not_found->0@) && r is Ok && r->Ok_0@ == raw_response(
                old(self).version,
                404,
                not_found->0@,
            ),
            primary is None && not_found is None ==> r == Err::<String, HttpError>(
                HttpError::FatalFallback,
            ) && final(self).status_code == old(self).status_code
                && final(self).headers == old(self).headers
                && final(self).body == old(self).body,
    {
        match primary {
            Some(content) => {
                self.status_code = 200;
                self.body = content;
                Ok(self.get_raw())
            },
            None => {
                match not_found {
                    Some(content) => {
                        self.status_code = 404;
                        self.body = content;
                        Ok(self.get_raw())
                    },
                    None => Err(HttpError::FatalFallback),
                }
            },
        }
    }

    /// The decision of file-path resolution: where the caller found the
    /// candidate usable — it exists and is not a directory — it stands;
    /// otherwise the configured index file, directly under the root for
    /// an empty path, else under the path's directory.
    pub fn build_file_path(root_dir: &str, path: &str, index_file: &str, usable: bool) -> (r:
        String)
        ensures
            r@ == file_path_of(root_dir@, path@, index_file@, usable),
    {
        let mut out = root_dir.to_owned();
        out.append("/");
        if usable {
            out.append(path);
        } else if path.unicode_len() == 0 {
            out.append(index_file);
            proof {
                assert(out@ =~= file_path_of(root_dir@, path@, index_file@, usable));
            }
        } else {
            out.append(path);
            out.append("/");
            out.append(index_file);
            proof {
                assert(out@ =~= file_path_of(root_dir@, path@, index_file@, usable));
            }
        }
        out
    }
}

} // verus!
