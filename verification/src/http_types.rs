//! The request-side data types: method, protocol version, URI and the
//! error taxonomy of the pipeline.

use vstd::prelude::*;

use crate::strmap::StringMap;

verus! {

/// Request methods the parser recognizes. Unrecognized tokens fall back
/// to `GET`.
#[derive(Debug, Clone, Copy, PartialEq, Eq, Structural)]
#[allow(non_camel_case_types)]
pub enum Method {
    GET,
    POST,
    PUT,
    DELETE,
    OPTIONS,
}

/// Protocol versions the parser recognizes. Unrecognized tokens fall back
/// to `HTTP/1.1`.
#[derive(Debug, Clone, Copy, PartialEq, Eq, Structural)]
#[allow(non_camel_case_types)]
pub enum Version {
    HTTP1_0,
    HTTP1_1,
    HTTP2_0,
}

/// The method a request-line token denotes.
pub open spec fn method_of(t: Seq<char>) -> Method {
    if t == "POST"@ {
        Method::POST
    } else if t == "PUT"@ {
        Method::PUT
    } else if t == "DELETE"@ {
        Method::DELETE
    } else if t == "OPTIONS"@ {
        Method::OPTIONS
    } else {
        Method::GET
    }
}

/// The version a request-line token denotes.
pub open spec fn version_of(t: Seq<char>) -> Version {
    if t == "HTTP/1.0"@ {
        Version::HTTP1_0
    } else if t == "HTTP/2.0"@ {
        Version::HTTP2_0
    } else {
        Version::HTTP1_1
    }
}

/// Any request-line method token outside the recognized spellings
/// denotes `GET`.
pub proof fn lemma_method_default(t: Seq<char>)
    ensures
        t != "POST"@ && t != "PUT"@ && t != "DELETE"@ && t != "OPTIONS"@ ==> method_of(t)
            == Method::GET,
{
}

/// Any request-line version token outside the recognized spellings
/// denotes `HTTP/1.1`.
pub proof fn lemma_version_default(t: Seq<char>)
    ensures
        t != "HTTP/1.0"@ && t != "HTTP/2.0"@ ==> version_of(t) == Version::HTTP1_1,
{
}

/// The wire spelling of a version.
pub open spec fn version_str(v: Version) -> Seq<char> {
    match v {
        Version::HTTP1_0 => "HTTP/1.0"@,
        Version::HTTP1_1 => "HTTP/1.1"@,
        Version::HTTP2_0 => "HTTP/2.0"@,
    }
}

/// The spelling of a method, as the access log prints it.
pub open spec fn method_str(m: Method) -> Seq<char> {
    match m {
        Method::GET => "GET"@,
        Method::POST => "POST"@,
        Method::PUT => "PUT"@,
        Method::DELETE => "DELETE"@,
        Method::OPTIONS => "OPTIONS"@,
    }
}

impl Version {
    /// The wire spelling of this version.
    pub fn as_str(&self) -> (r: &str)
        ensures
            r@ == version_str(*self),
    {
        match self {
            Version::HTTP1_0 => "HTTP/1.0",
            Version::HTTP1_1 => "HTTP/1.1",
            Version::HTTP2_0 => "HTTP/2.0",
        }
    }
}

impl Method {
    /// The spelling of this method.
    pub fn as_str(&self) -> (r: &str)
        ensures
            r@ == method_str(*self),
    {
        match self {
            Method::GET => "GET",
            Method::POST => "POST",
            Method::PUT => "PUT",
            Method::DELETE => "DELETE",
            Method::OPTIONS => "OPTIONS",
        }
    }
}

/// A validated URI: the path with outer slashes trimmed, and the query
/// parameters as a map.
#[derive(Debug)]
pub struct URI {
    pub path: String,
    pub params: StringMap,
}

impl URI {
    /// The empty URI: empty path, no parameters.
    pub fn new() -> (r: URI)
        ensures
            r.path@ == Seq::<char>::empty(),
            r.params@ == Seq::<(Seq<char>, Seq<char>)>::empty(),
            r.params.wf(),
    {
        URI { path: String::new(), params: StringMap::new() }
    }
}

/// What can go wrong in the pipeline, one variant per failure condition:
/// a structurally bad request line or content length, a URI that fails the
/// grammar, and the unreadable not-found document.
#[derive(Debug, Clone, Copy, PartialEq, Eq, Structural)]
pub enum HttpError {
    MalformedRequest,
    InvalidUri,
    FatalFallback,
}

} // verus!
