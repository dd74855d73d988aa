//! The basic wire-level values: header fields, status codes, protocol
//! versions, and the closed set of supported transfer encodings.

use vstd::prelude::*;

use crate::sbytes;

verus! {

/// One HTTP header: a field name compared case-insensitively, and a value.
/// Both are byte strings treated as ASCII.
pub struct Header {
    pub field: Vec<u8>,
    pub value: Vec<u8>,
}

/// The mathematical content of a [`Header`].
pub struct HeaderView {
    pub field: Seq<u8>,
    pub value: Seq<u8>,
}

impl View for Header {
    type V = HeaderView;

    open spec fn view(&self) -> HeaderView {
        HeaderView { field: self.field@, value: self.value@ }
    }
}

impl Header {
    /// Builds a header from a field name and a value.
    pub fn new(field: Vec<u8>, value: Vec<u8>) -> (r: Header)
        ensures
            r@.field == field@,
            r@.value == value@,
    {
        Header { field, value }
    }

    /// Builds a header from two ASCII string slices.
    pub fn from_strs(field: &str, value: &str) -> (r: Header)
        requires
            vstd::string::is_ascii(field),
            vstd::string::is_ascii(value),
        ensures
            r@.field == sbytes(field@),
            r@.value == sbytes(value@),
    {
        Header { field: crate::ascii_bytes(field), value: crate::ascii_bytes(value) }
    }
}

/// Copies a byte vector.
pub fn clone_bytes(v: &Vec<u8>) -> (r: Vec<u8>)
    ensures
        r@ == v@,
{
    let mut r: Vec<u8> = Vec::new();
    let mut i: usize = 0;
    while i < v.len()
        invariant
            i <= v.len(),
            r@ == v@.take(i as int),
        decreases v.len() - i,
    {
        r.push(v[i]);
        proof {
            assert(r@ =~= v@.take(i + 1));
        }
        i += 1;
    }
    proof {
        assert(v@.take(v@.len() as int) =~= v@);
    }
    r
}

impl Clone for Header {
    fn clone(&self) -> (r: Self)
        ensures
            r@ == self@,
    {
        Header { field: clone_bytes(&self.field), value: clone_bytes(&self.value) }
    }
}

/// The views of a sequence of headers.
pub open spec fn headers_view(hs: Seq<Header>) -> Seq<HeaderView> {
    hs.map_values(|h: Header| h@)
}

/// An HTTP status code.
#[derive(Clone, Copy, PartialEq, Eq, Structural)]
pub struct StatusCode(pub u16);

/// An HTTP protocol version: major and minor number.
#[derive(Clone, Copy, PartialEq, Eq, Structural)]
pub struct HTTPVersion(pub u8, pub u8);

impl HTTPVersion {
    /// Whether this version orders at or below HTTP/1.0, the versions that
    /// know no transfer coding but identity.
    pub open spec fn spec_at_most_1_0(self) -> bool {
        self.0 < 1 || (self.0 == 1 && self.1 == 0)
    }

    /// Lexicographic comparison against HTTP/1.0.
    pub fn at_most_1_0(&self) -> (r: bool)
        ensures
            r == self.spec_at_most_1_0(),
    {
        self.0 < 1 || (self.0 == 1 && self.1 == 0)
    }
}

/// Transfer encoding to use when sending a message body.  Only the
/// supported encodings are representable; anything a client asks for
/// beyond these is treated as absent.
#[derive(Clone, Copy, Debug, PartialEq, Eq, Structural)]
pub enum TransferEncoding {
    Identity,
    Chunked,
}

impl TransferEncoding {
    /// The encoding a token names, compared ASCII case-insensitively:
    /// `identity`, `chunked`, or none.
    pub open spec fn spec_from_token(token: Seq<u8>) -> Option<TransferEncoding> {
        if crate::named(token, "identity"@) {
            Some(TransferEncoding::Identity)
        } else if crate::named(token, "chunked"@) {
            Some(TransferEncoding::Chunked)
        } else {
            None
        }
    }

    /// Parses an encoding token.
    pub fn from_token(token: &[u8]) -> (r: Option<TransferEncoding>)
        ensures
            r == Self::spec_from_token(token@),
    {
        proof {
            reveal_strlit("identity");
            reveal_strlit("chunked");
            assert(vstd::string::is_ascii("identity"));
            assert(vstd::string::is_ascii("chunked"));
        }
        if crate::is_named(token, "identity") {
            Some(TransferEncoding::Identity)
        } else if crate::is_named(token, "chunked") {
            Some(TransferEncoding::Chunked)
        } else {
            None
        }
    }
}

/// Whether a status code forbids a response body: all of 1xx, plus 204
/// and 304.
pub open spec fn spec_suppresses_body(code: u16) -> bool {
    (100 <= code && code <= 199) || code == 204 || code == 304
}

/// Executable form of [`spec_suppresses_body`].
pub fn suppresses_body(code: u16) -> (r: bool)
    ensures
        r == spec_suppresses_body(code),
{
    (100 <= code && code <= 199) || code == 204 || code == 304
}

/// The default reason phrase of a status code, from the fixed table.
pub open spec fn spec_reason_phrase(code: u16) -> Seq<u8> {
    sbytes(spec_reason_str(code)@)
}

/// The default reason phrase of a status code, as a string.
pub open spec fn spec_reason_str(code: u16) -> &'static str {
    match code {
        100u16 => "Continue",
        101u16 => "Switching Protocols",
        200u16 => "OK",
        201u16 => "Created",
        202u16 => "Accepted",
        204u16 => "No Content",
        206u16 => "Partial Content",
        301u16 => "Moved Permanently",
        302u16 => "Found",
        303u16 => "See Other",
        304u16 => "Not Modified",
        307u16 => "Temporary Redirect",
        400u16 => "Bad Request",
        401u16 => "Unauthorized",
        403u16 => "Forbidden",
        404u16 => "Not Found",
        405u16 => "Method Not Allowed",
        408u16 => "Request Timeout",
        411u16 => "Length Required",
        413u16 => "Payload Too Large",
        500u16 => "Internal Server Error",
        501u16 => "Not Implemented",
        503u16 => "Service Unavailable",
        505u16 => "HTTP Version Not Supported",
        _ => "Unknown",
    }
}

impl StatusCode {
    /// The numeric value of the status code.
    pub fn as_u16(&self) -> (r: u16)
        ensures
            r == self.0,
    {
        self.0
    }

    /// The default reason phrase from the status-code table.
    pub fn default_reason_phrase(&self) -> (r: Vec<u8>)
        ensures
            r@ == spec_reason_phrase(self.0),
    {
        let s: &str = match self.0 {
            100u16 => "Continue",
            101u16 => "Switching Protocols",
            200u16 => "OK",
            201u16 => "Created",
            202u16 => "Accepted",
            204u16 => "No Content",
            206u16 => "Partial Content",
            301u16 => "Moved Permanently",
            302u16 => "Found",
            303u16 => "See Other",
            304u16 => "Not Modified",
            307u16 => "Temporary Redirect",
            400u16 => "Bad Request",
            401u16 => "Unauthorized",
            403u16 => "Forbidden",
            404u16 => "Not Found",
            405u16 => "Method Not Allowed",
            408u16 => "Request Timeout",
            411u16 => "Length Required",
            413u16 => "Payload Too Large",
            500u16 => "Internal Server Error",
            501u16 => "Not Implemented",
            503u16 => "Service Unavailable",
            505u16 => "HTTP Version Not Supported",
            _ => "Unknown",
        };
        proof {
            reveal_strlit("Continue");
            reveal_strlit("Switching Protocols");
            reveal_strlit("OK");
            reveal_strlit("Created");
            reveal_strlit("Accepted");
            reveal_strlit("No Content");
            reveal_strlit("Partial Content");
            reveal_strlit("Moved Permanently");
            reveal_strlit("Found");
            reveal_strlit("See Other");
            reveal_strlit("Not Modified");
            reveal_strlit("Temporary Redirect");
            reveal_strlit("Bad Request");
            reveal_strlit("Unauthorized");
            reveal_strlit("Forbidden");
            reveal_strlit("Not Found");
            reveal_strlit("Method Not Allowed");
            reveal_strlit("Request Timeout");
            reveal_strlit("Length Required");
            reveal_strlit("Payload Too Large");
            reveal_strlit("Internal Server Error");
            reveal_strlit("Not Implemented");
            reveal_strlit("Service Unavailable");
            reveal_strlit("HTTP Version Not Supported");
            reveal_strlit("Unknown");
            assert(vstd::string::is_ascii(s));
        }
        crate::ascii_bytes(s)
    }
}

} // verus!
