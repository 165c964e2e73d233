//! The bundled endpoint handlers: the echo and user-agent endpoints, which
//! are pure and fully verified, and the file reader/writer, whose route
//! decisions are verified here while the file system calls themselves are
//! made by the hosting program.
use vstd::prelude::*;

verus! {

use vstd::string::StringSliceAdditionalSpecFns;
use vstd::slice::slice_subrange;
use crate::request::HTTPRequest;
use crate::request::ReqModel;
use crate::request::spec_header_value;
use crate::response::HTTPResponse;
use crate::response::RespModel;
use crate::response::StatusCode;
use crate::server::router::HandlerError;
use crate::server::router::spec_not_found;
use crate::server::router::not_found_response;
use crate::wire::spec_starts_with;
use crate::wire::bytes_eq;
use crate::wire::sub_to_vec;
use crate::wire::content_type_token;
use crate::wire::text_plain_token;
use crate::wire::octet_stream_token;

pub open spec fn echo_prefix() -> Seq<u8> {
    "/echo/".spec_bytes()
}

pub open spec fn files_prefix() -> Seq<u8> {
    "/files/".spec_bytes()
}

pub open spec fn user_agent_token() -> Seq<u8> {
    "User-Agent".spec_bytes()
}

/// `s` with every leading repetition of `prefix` removed.
pub open spec fn spec_strip_prefix(s: Seq<u8>, prefix: Seq<u8>) -> Seq<u8>
    decreases s.len(),
{
    if prefix.len() > 0 && spec_starts_with(s, prefix) {
        spec_strip_prefix(s.skip(prefix.len() as int), prefix)
    } else {
        s
    }
}

fn tail_starts_with(s: &[u8], pos: usize, prefix: &[u8]) -> (r: bool)
    requires
        pos <= s@.len(),
    ensures
        r == spec_starts_with(s@.skip(pos as int), prefix@),
{
    if s.len() - pos < prefix.len() {
        return false;
    }
    let window = slice_subrange(s, pos, pos + prefix.len());
    proof {
        assert(window@ =~= s@.skip(pos as int).subrange(0, prefix@.len() as int));
    }
    bytes_eq(window, prefix)
}

/// The bytes of `s` after removing every leading repetition of `prefix`.
pub fn strip_prefix_repeated(s: &[u8], prefix: &[u8]) -> (r: Vec<u8>)
    ensures
        r@ == spec_strip_prefix(s@, prefix@),
{
    let n = s.len();
    let mut pos: usize = 0;
    proof {
        assert(s@.skip(0) =~= s@);
    }
    while prefix.len() > 0 && tail_starts_with(s, pos, prefix)
        invariant
            n == s@.len(),
            pos <= s@.len(),
            spec_strip_prefix(s@, prefix@) == spec_strip_prefix(s@.skip(pos as int), prefix@),
        decreases s@.len() - pos,
    {
        proof {
            assert(s@.skip(pos as int).len() == s@.len() - pos);
            assert(pos + prefix@.len() <= s@.len());
            assert(s@.skip(pos as int).skip(prefix@.len() as int) =~= s@.skip(
                pos + prefix@.len(),
            ));
        }
        pos = pos + prefix.len();
    }
    let r = sub_to_vec(s, pos, s.len());
    proof {
        assert(r@ =~= s@.skip(pos as int));
    }
    r
}

/// The echo answer: 200, plain text, body the request path with every
/// leading `/echo/` removed.
pub open spec fn spec_echo_response(req: ReqModel) -> RespModel {
    RespModel {
        version: req.version,
        status: StatusCode::OK,
        headers: seq![(content_type_token(), text_plain_token())],
        body: Some(spec_strip_prefix(req.path, echo_prefix())),
    }
}

pub fn handle_echo(request: &HTTPRequest) -> (r: Result<HTTPResponse, HandlerError>)
    ensures
        r matches Ok(resp) && resp@ == spec_echo_response(request@),
{
    let payload = strip_prefix_repeated(request.path().as_slice(), "/echo/".as_bytes());
    let r = HTTPResponse::on_request(request).set_status(StatusCode::OK).add_header(
        "Content-Type".as_bytes(),
        "text/plain".as_bytes(),
    ).set_body(payload);
    proof {
        assert(Seq::<(Seq<u8>, Seq<u8>)>::empty().push((content_type_token(), text_plain_token()))
            =~= seq![(content_type_token(), text_plain_token())]);
    }
    Ok(r)
}

/// The user-agent answer: 200, plain text, body the `User-Agent` header's
/// value, or empty when the header is absent.
pub open spec fn spec_user_agent_response(req: ReqModel) -> RespModel {
    RespModel {
        version: req.version,
        status: StatusCode::OK,
        headers: seq![(content_type_token(), text_plain_token())],
        body: Some(
            match spec_header_value(req.headers, user_agent_token()) {
                Some(v) => v,
                None => Seq::empty(),
            },
        ),
    }
}

pub fn handle_user_agent(request: &HTTPRequest) -> (r: Result<HTTPResponse, HandlerError>)
    ensures
        r matches Ok(resp) && resp@ == spec_user_agent_response(request@),
{
    let ua: Vec<u8> = match request.header("User-Agent".as_bytes()) {
        Some(v) => sub_to_vec(v.as_slice(), 0, v.len()),
        None => Vec::new(),
    };
    proof {
        assert(ua@ =~= (match spec_header_value(request@.headers, user_agent_token()) {
            Some(v) => v,
            None => Seq::<u8>::empty(),
        }));
    }
    let r = HTTPResponse::on_request(request).set_status(StatusCode::OK).add_header(
        "Content-Type".as_bytes(),
        "text/plain".as_bytes(),
    ).set_body(ua);
    proof {
        assert(Seq::<(Seq<u8>, Seq<u8>)>::empty().push((content_type_token(), text_plain_token()))
            =~= seq![(content_type_token(), text_plain_token())]);
    }
    Ok(r)
}

/// The file name a `/files/` request names: the path with every leading
/// `/files/` removed.
pub fn file_name_of(request: &HTTPRequest) -> (r: Vec<u8>)
    ensures
        r@ == spec_strip_prefix(request@.path, files_prefix()),
{
    strip_prefix_repeated(request.path().as_slice(), "/files/".as_bytes())
}

/// Serves `GET /files/*`: the hosting program reads the named file and
/// hands the bytes (or their absence) to [`FileReader::response_for`].
pub struct FileReader {
    pub base_dir: String,
}

/// The read answer: the file's bytes as an octet-stream 200, or a bare 404
/// when the file could not be read.
pub open spec fn spec_read_response(req: ReqModel, content: Option<Seq<u8>>) -> RespModel {
    match content {
        Some(b) => RespModel {
            version: req.version,
            status: StatusCode::OK,
            headers: seq![(content_type_token(), octet_stream_token())],
            body: Some(b),
        },
        None => spec_not_found(req),
    }
}

impl FileReader {
    pub fn new(base_dir: String) -> (r: FileReader)
        ensures
            r.base_dir@ == base_dir@,
    {
        FileReader { base_dir }
    }

    /// The response for a read outcome.
    pub fn response_for(request: &HTTPRequest, content: Option<Vec<u8>>) -> (r: HTTPResponse)
        ensures
            r@ == spec_read_response(
                request@,
                match content {
                    Some(b) => Some(b@),
                    None => None,
                },
            ),
    {
        match content {
            Some(b) => {
                let r = HTTPResponse::on_request(request).set_status(StatusCode::OK).add_header(
                    "Content-Type".as_bytes(),
                    "application/octet-stream".as_bytes(),
                ).set_body(b);
                proof {
                    assert(Seq::<(Seq<u8>, Seq<u8>)>::empty().push(
                        (content_type_token(), octet_stream_token()),
                    ) =~= seq![(content_type_token(), octet_stream_token())]);
                }
                r
            },
            None => not_found_response(request),
        }
    }
}

/// Serves `POST /files/*`: the hosting program writes the request body to
/// the named file and reports whether a body was present and written
/// through [`FileWriter::response_for`].
pub struct FileWriter {
    pub base_dir: String,
}

/// The write answer: a bare 201 when the body was written, a bare 400 when
/// the request carried no body.
pub open spec fn spec_write_response(req: ReqModel, wrote: bool) -> RespModel {
    RespModel {
        version: req.version,
        status: if wrote {
            StatusCode::Created
        } else {
            StatusCode::BadRequest
        },
        headers: Seq::empty(),
        body: None,
    }
}

impl FileWriter {
    pub fn new(base_dir: String) -> (r: FileWriter)
        ensures
            r.base_dir@ == base_dir@,
    {
        FileWriter { base_dir }
    }

    /// The response for a write outcome.
    pub fn response_for(request: &HTTPRequest, wrote: bool) -> (r: HTTPResponse)
        ensures
            r@ == spec_write_response(request@, wrote),
    {
        if wrote {
            HTTPResponse::on_request(request).set_status(StatusCode::Created)
        } else {
            HTTPResponse::on_request(request).set_status(StatusCode::BadRequest)
        }
    }
}

} // verus!
