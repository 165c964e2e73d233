//! The response side of the wire codec: a response built up by handlers,
//! and its serialization to exact wire bytes.  A response with no headers
//! and no body serializes to a bare status line; otherwise the header block
//! is emitted with a computed `Content-Length` line.
use vstd::prelude::*;

verus! {

use vstd::string::StringSliceAdditionalSpecFns;
use crate::request::HTTPRequest;
use crate::request::HTTPVersion;
use crate::wire::CR;
use crate::wire::LF;
use crate::wire::SP;
use crate::wire::COLON;
use crate::wire::crlf;
use crate::wire::colon_sp;
use crate::wire::http11_token;
use crate::wire::content_length_token;
use crate::wire::content_length_name;
use crate::wire::dec_digits;
use crate::wire::append_bytes;
use crate::wire::append_decimal;

/// The statuses this server can put on the wire, plus the unset state a
/// response starts in.
#[derive(Eq, PartialEq, Debug, Copy, Clone, Structural)]
pub enum StatusCode {
    OK,
    Created,
    NotFound,
    BadRequest,
    InternalServerError,
    Unidentified,
}

/// Why a response could not be serialized: both cases are contract
/// violations by the caller, never produced by this crate's own paths.
#[derive(Eq, PartialEq, Debug, Copy, Clone, Structural)]
pub enum SerializeError {
    UnknownVersion,
    UnknownStatus,
}

/// The fixed code and reason phrase of each recognized status.
pub open spec fn spec_status_bytes(s: StatusCode) -> Seq<u8> {
    match s {
        StatusCode::OK => "200 OK".spec_bytes(),
        StatusCode::Created => "201 Created".spec_bytes(),
        StatusCode::NotFound => "404 Not Found".spec_bytes(),
        StatusCode::BadRequest => "400 Bad Request".spec_bytes(),
        StatusCode::InternalServerError => "500 Internal Server Error".spec_bytes(),
        StatusCode::Unidentified => Seq::empty(),
    }
}

pub open spec fn spec_version_bytes(v: HTTPVersion) -> Seq<u8> {
    match v {
        HTTPVersion::V1_1 => http11_token(),
        HTTPVersion::Unidentified => Seq::empty(),
    }
}

/// One response header line's pieces; duplicates are allowed and order is
/// kept.
#[derive(Debug)]
pub struct ResponseHeader {
    pub name: Vec<u8>,
    pub value: Vec<u8>,
}

impl ResponseHeader {
    pub fn new(name: Vec<u8>, value: Vec<u8>) -> (r: ResponseHeader)
        ensures
            r.name@ == name@,
            r.value@ == value@,
    {
        ResponseHeader { name, value }
    }
}

/// The mathematical shape of a response.
pub ghost struct RespModel {
    pub version: HTTPVersion,
    pub status: StatusCode,
    pub headers: Seq<(Seq<u8>, Seq<u8>)>,
    pub body: Option<Seq<u8>>,
}

/// A response under construction: version copied from the request it
/// answers, a status, ordered header lines, and an optional body.
#[derive(Debug)]
pub struct HTTPResponse {
    pub version: HTTPVersion,
    pub status: StatusCode,
    pub headers: Vec<ResponseHeader>,
    pub body: Option<Vec<u8>>,
}

pub open spec fn resp_headers_view(h: Seq<ResponseHeader>) -> Seq<(Seq<u8>, Seq<u8>)> {
    Seq::new(h.len(), |i: int| (h[i].name@, h[i].value@))
}

impl View for HTTPResponse {
    type V = RespModel;

    open spec fn view(&self) -> RespModel {
        RespModel {
            version: self.version,
            status: self.status,
            headers: resp_headers_view(self.headers@),
            body: match self.body {
                Some(b) => Some(b@),
                None => None,
            },
        }
    }
}

/// The header block: one `name: value` line per header, in order.
pub open spec fn spec_headers_bytes(hs: Seq<(Seq<u8>, Seq<u8>)>) -> Seq<u8>
    decreases hs.len(),
{
    if hs.len() == 0 {
        Seq::empty()
    } else {
        spec_headers_bytes(hs.drop_last()) + hs.last().0 + colon_sp() + hs.last().1 + crlf()
    }
}

pub open spec fn spec_body_len(b: Option<Seq<u8>>) -> nat {
    match b {
        Some(s) => s.len(),
        None => 0,
    }
}

/// Whether a header block (including the computed `Content-Length` line)
/// is emitted at all: only when there is a header or a body.
pub open spec fn spec_has_header_block(m: RespModel) -> bool {
    m.headers.len() > 0 || spec_body_len(m.body) > 0
}

/// The exact bytes a well-formed response puts on the wire.
pub open spec fn spec_serialize(m: RespModel) -> Seq<u8> {
    spec_version_bytes(m.version) + seq![SP] + spec_status_bytes(m.status) + crlf() + (if spec_has_header_block(m) {
        spec_headers_bytes(m.headers) + content_length_token() + colon_sp() + dec_digits(
            spec_body_len(m.body),
        ) + crlf()
    } else {
        Seq::empty()
    }) + crlf() + (match m.body {
        Some(b) => b,
        None => Seq::empty(),
    })
}

/// Serialization is a pure function of the response value: two equal
/// responses always serialize to the same bytes, so serializing twice
/// yields identical output.
pub proof fn lemma_serialize_deterministic(a: RespModel, b: RespModel)
    requires
        a == b,
    ensures
        spec_serialize(a) == spec_serialize(b),
{
}

impl HTTPResponse {
    /// A fresh response answering `request`: its version, no status yet,
    /// no headers, no body.
    pub fn on_request(request: &HTTPRequest) -> (r: HTTPResponse)
        ensures
            r@ == (RespModel {
                version: request@.version,
                status: StatusCode::Unidentified,
                headers: Seq::empty(),
                body: None,
            }),
    {
        let r = HTTPResponse {
            version: request.version(),
            status: StatusCode::Unidentified,
            headers: Vec::new(),
            body: None,
        };
        proof {
            assert(r@.headers =~= Seq::<(Seq<u8>, Seq<u8>)>::empty());
        }
        r
    }

    pub fn set_status(self, status: StatusCode) -> (r: HTTPResponse)
        ensures
            r@ == (RespModel { status, ..self@ }),
    {
        HTTPResponse { status, ..self }
    }

    pub fn set_body(self, content: Vec<u8>) -> (r: HTTPResponse)
        ensures
            r@ == (RespModel { body: Some(content@), ..self@ }),
    {
        HTTPResponse { body: Some(content), ..self }
    }

    pub fn add_header(self, name: &[u8], value: &[u8]) -> (r: HTTPResponse)
        ensures
            r@ == (RespModel { headers: self@.headers.push((name@, value@)), ..self@ }),
    {
        let ghost before = self@.headers;
        let mut headers = self.headers;
        headers.push(
            ResponseHeader { name: crate::wire::sub_to_vec(name, 0, name.len()), value: crate::wire::sub_to_vec(value, 0, value.len()) },
        );
        let r = HTTPResponse { headers, ..self };
        proof {
            assert(name@.subrange(0, name@.len() as int) =~= name@);
            assert(value@.subrange(0, value@.len() as int) =~= value@);
            assert(r@.headers =~= before.push((name@, value@)));
        }
        r
    }

    /// The header block of this response, one line per header.
    pub fn create_headers_section(&self) -> (r: Vec<u8>)
        ensures
            r@ == spec_headers_bytes(self@.headers),
    {
        let mut out: Vec<u8> = Vec::new();
        let mut i: usize = 0;
        proof {
            assert(self@.headers.subrange(0, 0) =~= Seq::<(Seq<u8>, Seq<u8>)>::empty());
        }
        while i < self.headers.len()
            invariant
                i <= self.headers@.len(),
                self@.headers.len() == self.headers@.len(),
                out@ == spec_headers_bytes(self@.headers.subrange(0, i as int)),
            decreases self.headers@.len() - i,
        {
            append_bytes(&mut out, self.headers[i].name.as_slice());
            out.push(COLON);
            out.push(SP);
            append_bytes(&mut out, self.headers[i].value.as_slice());
            out.push(CR);
            out.push(LF);
            proof {
                let pre = self@.headers.subrange(0, i as int);
                let cur = self@.headers.subrange(0, i + 1);
                assert(cur.drop_last() =~= pre);
                assert(cur.last() == self@.headers[i as int]);
                assert(out@ =~= spec_headers_bytes(cur));
            }
            i += 1;
        }
        proof {
            assert(self@.headers.subrange(0, self@.headers.len() as int) =~= self@.headers);
        }
        out
    }

    /// The exact wire bytes of this response.  Fails, and only fails, on a
    /// response whose version or status was never set: the version is
    /// checked first.
    #[verifier::rlimit(50)]
    pub fn serialize(&self) -> (r: Result<Vec<u8>, SerializeError>)
        ensures
            match r {
                Ok(bytes) => self@.version != HTTPVersion::Unidentified && self@.status
                    != StatusCode::Unidentified && bytes@ == spec_serialize(self@),
                Err(e) => (self@.version == HTTPVersion::Unidentified || self@.status
                    == StatusCode::Unidentified) && e == (if self@.version
                    == HTTPVersion::Unidentified {
                    SerializeError::UnknownVersion
                } else {
                    SerializeError::UnknownStatus
                }),
            },
    {
        if matches!(self.version, HTTPVersion::Unidentified) {
            return Err(SerializeError::UnknownVersion);
        }
        if matches!(self.status, StatusCode::Unidentified) {
            return Err(SerializeError::UnknownStatus);
        }
        let mut out: Vec<u8> = Vec::new();
        append_bytes(&mut out, "HTTP/1.1".as_bytes());
        out.push(SP);
        match self.status {
            StatusCode::OK => append_bytes(&mut out, "200 OK".as_bytes()),
            StatusCode::Created => append_bytes(&mut out, "201 Created".as_bytes()),
            StatusCode::NotFound => append_bytes(&mut out, "404 Not Found".as_bytes()),
            StatusCode::BadRequest => append_bytes(&mut out, "400 Bad Request".as_bytes()),
            StatusCode::InternalServerError => append_bytes(
                &mut out,
                "500 Internal Server Error".as_bytes(),
            ),
            StatusCode::Unidentified => {},
        }
        out.push(CR);
        out.push(LF);
        let ghost status_line = spec_version_bytes(self@.version) + seq![SP] + spec_status_bytes(
            self@.status,
        ) + crlf();
        proof {
            assert(out@ =~= status_line);
        }
        let body_len = match &self.body {
            Some(b) => b.len(),
            None => 0,
        };
        if self.headers.len() > 0 || body_len > 0 {
            let block = self.create_headers_section();
            append_bytes(&mut out, block.as_slice());
            let cl = content_length_name();
            append_bytes(&mut out, cl.as_slice());
            out.push(COLON);
            out.push(SP);
            append_decimal(&mut out, body_len);
            out.push(CR);
            out.push(LF);
            proof {
                assert(out@ =~= status_line + (spec_headers_bytes(self@.headers)
                    + content_length_token() + colon_sp() + dec_digits(spec_body_len(self@.body))
                    + crlf()));
            }
        }
        out.push(CR);
        out.push(LF);
        match &self.body {
            Some(b) => append_bytes(&mut out, b.as_slice()),
            None => {},
        }
        proof {
            assert(out@ =~= spec_serialize(self@));
        }
        Ok(out)
    }
}

} // verus!
