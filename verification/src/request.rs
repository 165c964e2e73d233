//! The request side of the wire codec: a structured request, and a parser
//! that turns the raw bytes of one framed message into it.  The parser's
//! behaviour is pinned down by `spec_parse`, a mathematical description of
//! the algorithm: line splitting, whitespace-separated preamble tokens,
//! lenient header lines, and `Content-Length` body framing.
use vstd::prelude::*;

verus! {

use crate::RequestMethod;
use crate::spec_method_of;
use crate::method_of_token;
use crate::wire::CR;
use crate::wire::LF;
use crate::wire::SP;
use crate::wire::HTAB;
use crate::wire::COLON;
use crate::wire::http11_token;
use crate::wire::content_length_token;
use crate::wire::crlf;
use crate::wire::colon_sp;
use crate::wire::content_length_name;
use crate::wire::spec_numeric;
use crate::wire::is_digit;
use crate::wire::dec_val;
use crate::wire::DecResult;
use crate::wire::decimal_value_capped;
use crate::wire::bytes_eq;
use crate::wire::sub_to_vec;
use vstd::pervasive::VecAdditionalExecFns;
use vstd::slice::slice_subrange;

#[derive(Eq, PartialEq, Debug, Copy, Clone, Structural)]
pub enum HTTPVersion {
    V1_1,
    Unidentified,
}

/// The version named by a preamble token: only `HTTP/1.1` is recognized.
pub open spec fn spec_version_of(t: Seq<u8>) -> HTTPVersion {
    if t == http11_token() {
        HTTPVersion::V1_1
    } else {
        HTTPVersion::Unidentified
    }
}

pub fn version_of_token(t: &[u8]) -> (v: HTTPVersion)
    ensures
        v == spec_version_of(t@),
{
    if bytes_eq(t, "HTTP/1.1".as_bytes()) {
        HTTPVersion::V1_1
    } else {
        HTTPVersion::Unidentified
    }
}

/// Why a byte sequence failed to parse as a request.
#[derive(Eq, PartialEq, Debug, Copy, Clone, Structural)]
pub enum ParseError {
    /// The first line does not split into at least three tokens.
    MalformedPreamble,
    /// A `Content-Length` header whose value is not a run of digits.
    InvalidContentLength,
    /// The input ends before the declared body length is reached.
    TruncatedBody,
}

/// The mathematical shape of a parsed request.
pub ghost struct ReqModel {
    pub method: RequestMethod,
    pub path: Seq<u8>,
    pub version: HTTPVersion,
    pub headers: Seq<(Seq<u8>, Seq<u8>)>,
    pub body: Option<Seq<u8>>,
}

/// A parsed request.  `headers` maps case-sensitive names to values with
/// unique keys; `body` is present exactly when a positive `Content-Length`
/// was supplied, and then holds exactly that many bytes.
#[derive(Debug)]
pub struct HTTPRequest {
    pub method: RequestMethod,
    pub path: Vec<u8>,
    pub version: HTTPVersion,
    pub headers: Vec<(Vec<u8>, Vec<u8>)>,
    pub body: Option<Vec<u8>>,
}

/// The header pairs of an executable header list, as sequences.
pub open spec fn headers_view(h: Seq<(Vec<u8>, Vec<u8>)>) -> Seq<(Seq<u8>, Seq<u8>)> {
    Seq::new(h.len(), |i: int| (h[i].0@, h[i].1@))
}

impl View for HTTPRequest {
    type V = ReqModel;

    open spec fn view(&self) -> ReqModel {
        ReqModel {
            method: self.method,
            path: self.path@,
            version: self.version,
            headers: headers_view(self.headers@),
            body: match self.body {
                Some(b) => Some(b@),
                None => None,
            },
        }
    }
}

// ---------------------------------------------------------------------------
// Line structure
// ---------------------------------------------------------------------------
/// The index of the first line feed at or after `i`, or `s.len()` if there
/// is none.
pub open spec fn find_lf(s: Seq<u8>, i: int) -> int
    decreases s.len() - i,
{
    if i >= s.len() {
        s.len() as int
    } else if s[i] == LF {
        i
    } else {
        find_lf(s, i + 1)
    }
}

pub proof fn lemma_find_lf_ge(s: Seq<u8>, i: int)
    requires
        i <= s.len(),
    ensures
        i <= find_lf(s, i) <= s.len(),
    decreases s.len() - i,
{
    if i < s.len() && s[i] != LF {
        lemma_find_lf_ge(s, i + 1);
    }
}

/// Pins `find_lf` down: if nothing in `[i, j)` is a line feed and `j` is
/// either a line feed or the end, then `j` is the answer.
pub proof fn lemma_find_lf_at(s: Seq<u8>, i: int, j: int)
    requires
        0 <= i <= j <= s.len(),
        forall|k: int| i <= k < j ==> s[k] != LF,
        j < s.len() ==> s[j] == LF,
    ensures
        find_lf(s, i) == j,
    decreases j - i,
{
    if i < j {
        lemma_find_lf_at(s, i + 1, j);
    }
}

/// The end of the content of the line starting at `i`: the line terminator
/// (a line feed, with an immediately preceding carriage return belonging to
/// it) is excluded.
pub open spec fn line_content_end(s: Seq<u8>, i: int) -> int {
    let j = find_lf(s, i);
    if j > i && s[j - 1] == CR {
        j - 1
    } else {
        j
    }
}

/// Where the next line starts: just after the line feed, or the end of the
/// input if the last line is unterminated.
pub open spec fn next_line_start(s: Seq<u8>, i: int) -> int {
    let j = find_lf(s, i);
    if j < s.len() {
        j + 1
    } else {
        j
    }
}

// ---------------------------------------------------------------------------
// Preamble tokens
// ---------------------------------------------------------------------------
/// Bytes that separate preamble tokens.
pub open spec fn is_ws(b: u8) -> bool {
    b == SP || b == HTAB || b == CR || b == LF
}

pub open spec fn skip_ws(c: Seq<u8>, i: int) -> int
    decreases c.len() - i,
{
    if i >= c.len() {
        i
    } else if is_ws(c[i]) {
        skip_ws(c, i + 1)
    } else {
        i
    }
}

pub proof fn lemma_skip_ws_at(c: Seq<u8>, i: int, j: int)
    requires
        0 <= i <= j <= c.len(),
        forall|k: int| i <= k < j ==> is_ws(c[k]),
        j < c.len() ==> !is_ws(c[j]),
    ensures
        skip_ws(c, i) == j,
    decreases j - i,
{
    if i < j {
        lemma_skip_ws_at(c, i + 1, j);
    }
}

pub open spec fn scan_token(c: Seq<u8>, i: int) -> int
    decreases c.len() - i,
{
    if i >= c.len() {
        i
    } else if is_ws(c[i]) {
        i
    } else {
        scan_token(c, i + 1)
    }
}

pub proof fn lemma_scan_token_at(c: Seq<u8>, i: int, j: int)
    requires
        0 <= i <= j <= c.len(),
        forall|k: int| i <= k < j ==> !is_ws(c[k]),
        j < c.len() ==> is_ws(c[j]),
    ensures
        scan_token(c, i) == j,
    decreases j - i,
{
    if i < j {
        lemma_scan_token_at(c, i + 1, j);
    }
}

/// The first three whitespace-separated tokens of a first line, or `None`
/// if there are fewer than three.
pub open spec fn spec_preamble_tokens(c: Seq<u8>) -> Option<(Seq<u8>, Seq<u8>, Seq<u8>)> {
    let a0 = skip_ws(c, 0);
    let a1 = scan_token(c, a0);
    let b0 = skip_ws(c, a1);
    let b1 = scan_token(c, b0);
    let d0 = skip_ws(c, b1);
    let d1 = scan_token(c, d0);
    if a1 > a0 && b1 > b0 && d1 > d0 {
        Some((c.subrange(a0, a1), c.subrange(b0, b1), c.subrange(d0, d1)))
    } else {
        None
    }
}

// ---------------------------------------------------------------------------
// Header lines
// ---------------------------------------------------------------------------
/// The first position at or after `i` where `": "` occurs, or `c.len()` if
/// it does not occur.
pub open spec fn find_colon_sp(c: Seq<u8>, i: int) -> int
    decreases c.len() - i,
{
    if i + 2 > c.len() {
        c.len() as int
    } else if c[i] == COLON && c[i + 1] == SP {
        i
    } else {
        find_colon_sp(c, i + 1)
    }
}

pub proof fn lemma_find_colon_sp_at(c: Seq<u8>, i: int, j: int)
    requires
        0 <= i <= j <= c.len(),
        forall|k: int| i <= k < j ==> !(#[trigger] c[k] == COLON && k + 1 < c.len() && c[k + 1] == SP),
        j < c.len() ==> j + 2 <= c.len() && c[j] == COLON && c[j + 1] == SP,
    ensures
        find_colon_sp(c, i) == j,
    decreases j - i,
{
    if i < j {
        if i + 2 > c.len() {
            assert(j >= c.len());
        } else {
            lemma_find_colon_sp_at(c, i + 1, j);
        }
    } else {
        if j == c.len() {
        }
    }
}

/// Splits a header line on the first `": "`, name before it, value after
/// it.  A line without the separator yields `None` and is skipped.
pub open spec fn spec_split_header(c: Seq<u8>) -> Option<(Seq<u8>, Seq<u8>)> {
    let j = find_colon_sp(c, 0);
    if j < c.len() {
        Some((c.subrange(0, j), c.subrange(j + 2, c.len() as int)))
    } else {
        None
    }
}

/// The header lines from position `i` on, in order of appearance, and the
/// position just after the blank separator line (or the end of the input).
pub open spec fn spec_header_lines(s: Seq<u8>, i: int) -> (Seq<(Seq<u8>, Seq<u8>)>, int)
    decreases s.len() - i,
    via spec_header_lines_dec
{
    if i < 0 || i >= s.len() {
        (Seq::empty(), if i < 0 { 0 } else { i })
    } else {
        let ce = line_content_end(s, i);
        let ns = next_line_start(s, i);
        if ce == i {
            (Seq::empty(), ns)
        } else {
            let rest = spec_header_lines(s, ns);
            match spec_split_header(s.subrange(i, ce)) {
                Some(nv) => (seq![nv] + rest.0, rest.1),
                None => rest,
            }
        }
    }
}

#[via_fn]
proof fn spec_header_lines_dec(s: Seq<u8>, i: int) {
    if 0 <= i && i < s.len() {
        lemma_find_lf_ge(s, i);
    }
}

// ---------------------------------------------------------------------------
// The header mapping: unique keys, last occurrence wins
// ---------------------------------------------------------------------------
/// The index of the first pair whose name is `name`, or `hs.len()`.
pub open spec fn find_key(hs: Seq<(Seq<u8>, Seq<u8>)>, name: Seq<u8>) -> int
    decreases hs.len(),
{
    if hs.len() == 0 {
        0
    } else if hs[0].0 == name {
        0
    } else {
        1 + find_key(hs.drop_first(), name)
    }
}

pub proof fn lemma_find_key_at(hs: Seq<(Seq<u8>, Seq<u8>)>, name: Seq<u8>, j: int)
    requires
        0 <= j <= hs.len(),
        forall|k: int| 0 <= k < j ==> hs[k].0 != name,
        j < hs.len() ==> hs[j].0 == name,
    ensures
        find_key(hs, name) == j,
    decreases j,
{
    if j > 0 {
        lemma_find_key_at(hs.drop_first(), name, j - 1);
    }
}

/// The value mapped to `name`, if any.
pub open spec fn spec_header_value(hs: Seq<(Seq<u8>, Seq<u8>)>, name: Seq<u8>) -> Option<Seq<u8>> {
    let k = find_key(hs, name);
    if k < hs.len() {
        Some(hs[k].1)
    } else {
        None
    }
}

/// Mapping-style insertion: an existing key has its value replaced, a new
/// key is appended.
pub open spec fn spec_upsert(hs: Seq<(Seq<u8>, Seq<u8>)>, name: Seq<u8>, value: Seq<u8>) -> Seq<
    (Seq<u8>, Seq<u8>),
> {
    let k = find_key(hs, name);
    if k < hs.len() {
        hs.update(k, (name, value))
    } else {
        hs.push((name, value))
    }
}

/// Folds raw header lines into a mapping, later occurrences of a name
/// overriding earlier ones.
pub open spec fn spec_collapse_into(
    acc: Seq<(Seq<u8>, Seq<u8>)>,
    raw: Seq<(Seq<u8>, Seq<u8>)>,
) -> Seq<(Seq<u8>, Seq<u8>)>
    decreases raw.len(),
{
    if raw.len() == 0 {
        acc
    } else {
        spec_collapse_into(spec_upsert(acc, raw[0].0, raw[0].1), raw.drop_first())
    }
}

pub open spec fn spec_collapse(raw: Seq<(Seq<u8>, Seq<u8>)>) -> Seq<(Seq<u8>, Seq<u8>)> {
    spec_collapse_into(Seq::empty(), raw)
}

// ---------------------------------------------------------------------------
// The full parse
// ---------------------------------------------------------------------------
/// What parsing yields on any byte sequence: either a request model and the
/// number of bytes the message occupies, or the first error the algorithm
/// meets.  Bytes past the framed message are never part of the result.
pub open spec fn spec_parse(s: Seq<u8>) -> Result<(ReqModel, int), ParseError> {
    let ce = line_content_end(s, 0);
    match spec_preamble_tokens(s.subrange(0, ce)) {
        None => Err(ParseError::MalformedPreamble),
        Some(toks) => {
            let hstart = next_line_start(s, 0);
            let hl = spec_header_lines(s, hstart);
            let headers = spec_collapse(hl.0);
            let bs = hl.1;
            let base = ReqModel {
                method: spec_method_of(toks.0),
                path: toks.1,
                version: spec_version_of(toks.2),
                headers,
                body: None,
            };
            match spec_header_value(headers, content_length_token()) {
                None => Ok((base, bs)),
                Some(v) => if !spec_numeric(v) {
                    Err(ParseError::InvalidContentLength)
                } else if dec_val(v) > s.len() - bs {
                    Err(ParseError::TruncatedBody)
                } else if dec_val(v) == 0 {
                    Ok((base, bs))
                } else {
                    Ok(
                        (
                            ReqModel {
                                body: Some(s.subrange(bs, bs + dec_val(v))),
                                ..base
                            },
                            bs + dec_val(v),
                        ),
                    )
                },
            }
        },
    }
}

// ---------------------------------------------------------------------------
// Executable scanning helpers
// ---------------------------------------------------------------------------
fn find_line_feed(s: &[u8], from: usize) -> (r: usize)
    requires
        from <= s@.len(),
    ensures
        r == find_lf(s@, from as int),
        from <= r <= s@.len(),
{
    let mut i = from;
    while i < s.len()
        invariant
            from <= i <= s@.len(),
            forall|k: int| from <= k < i ==> s@[k] != LF,
        decreases s@.len() - i,
    {
        if s[i] == LF {
            proof {
                lemma_find_lf_at(s@, from as int, i as int);
            }
            return i;
        }
        i += 1;
    }
    proof {
        lemma_find_lf_at(s@, from as int, s@.len() as int);
    }
    i
}

fn skip_whitespace(c: &[u8], from: usize) -> (r: usize)
    requires
        from <= c@.len(),
    ensures
        r == skip_ws(c@, from as int),
        from <= r <= c@.len(),
{
    let mut i = from;
    while i < c.len()
        invariant
            from <= i <= c@.len(),
            forall|k: int| from <= k < i ==> is_ws(c@[k]),
        decreases c@.len() - i,
    {
        let b = c[i];
        if !(b == SP || b == HTAB || b == CR || b == LF) {
            proof {
                lemma_skip_ws_at(c@, from as int, i as int);
            }
            return i;
        }
        i += 1;
    }
    proof {
        lemma_skip_ws_at(c@, from as int, c@.len() as int);
    }
    i
}

fn token_end(c: &[u8], from: usize) -> (r: usize)
    requires
        from <= c@.len(),
    ensures
        r == scan_token(c@, from as int),
        from <= r <= c@.len(),
{
    let mut i = from;
    while i < c.len()
        invariant
            from <= i <= c@.len(),
            forall|k: int| from <= k < i ==> !is_ws(c@[k]),
        decreases c@.len() - i,
    {
        let b = c[i];
        if b == SP || b == HTAB || b == CR || b == LF {
            proof {
                lemma_scan_token_at(c@, from as int, i as int);
            }
            return i;
        }
        i += 1;
    }
    proof {
        lemma_scan_token_at(c@, from as int, c@.len() as int);
    }
    i
}

fn find_separator(c: &[u8]) -> (r: usize)
    ensures
        r == find_colon_sp(c@, 0),
        r <= c@.len(),
        r < c@.len() ==> r + 2 <= c@.len(),
{
    let mut i: usize = 0;
    while i < c.len() && i + 1 < c.len()
        invariant
            i <= c@.len(),
            forall|k: int|
                0 <= k < i ==> !(#[trigger] c@[k] == COLON && k + 1 < c@.len() && c@[k + 1] == SP),
        decreases c@.len() - i,
    {
        if c[i] == COLON && c[i + 1] == SP {
            proof {
                lemma_find_colon_sp_at(c@, 0, i as int);
            }
            return i;
        }
        i += 1;
    }
    proof {
        lemma_find_colon_sp_at(c@, 0, c@.len() as int);
    }
    c.len()
}

/// Replaces the value of an existing name or appends a new pair, so that
/// names stay unique.
fn upsert_header(headers: &mut Vec<(Vec<u8>, Vec<u8>)>, name: Vec<u8>, value: Vec<u8>)
    ensures
        headers_view(final(headers)@) == spec_upsert(headers_view(old(headers)@), name@, value@),
{
    let ghost hv = headers_view(old(headers)@);
    let ghost gn = name@;
    let ghost gv = value@;
    let mut k: usize = 0;
    while k < headers.len()
        invariant
            k <= headers@.len(),
            hv == headers_view(headers@),
            hv == headers_view(old(headers)@),
            gn == name@,
            gv == value@,
            forall|j: int| 0 <= j < k ==> headers_view(headers@)[j].0 != name@,
        decreases headers@.len() - k,
    {
        if bytes_eq(headers[k].0.as_slice(), name.as_slice()) {
            proof {
                lemma_find_key_at(hv, name@, k as int);
            }
            headers.set(k, (name, value));
            proof {
                assert(headers_view(headers@) =~= hv.update(k as int, (gn, gv)));
                assert(headers_view(headers@) =~= spec_upsert(hv, gn, gv));
            }
            return ;
        }
        k += 1;
    }
    proof {
        lemma_find_key_at(hv, name@, hv.len() as int);
    }
    headers.push((name, value));
    proof {
        assert(headers_view(headers@) =~= hv.push((gn, gv)));
        assert(headers_view(headers@) =~= spec_upsert(hv, gn, gv));
    }
}

/// First-match lookup; on a list with unique names this is the mapping's
/// value for `name`.
pub fn header_value_of<'a>(headers: &'a Vec<(Vec<u8>, Vec<u8>)>, name: &[u8]) -> (r: Option<
    &'a Vec<u8>,
>)
    ensures
        match r {
            Some(v) => spec_header_value(headers_view(headers@), name@) == Some(v@),
            None => spec_header_value(headers_view(headers@), name@) is None,
        },
{
    let ghost hv = headers_view(headers@);
    let mut k: usize = 0;
    while k < headers.len()
        invariant
            k <= headers@.len(),
            hv == headers_view(headers@),
            forall|j: int| 0 <= j < k ==> headers_view(headers@)[j].0 != name@,
        decreases headers@.len() - k,
    {
        if bytes_eq(headers[k].0.as_slice(), name) {
            proof {
                lemma_find_key_at(hv, name@, k as int);
            }
            return Some(&headers[k].1);
        }
        k += 1;
    }
    proof {
        lemma_find_key_at(hv, name@, hv.len() as int);
    }
    None
}

impl HTTPRequest {
    /// Parses one framed request from `input`, returning the request and
    /// how many bytes of `input` the message occupies.  Trailing bytes are
    /// not consumed and not inspected.
    pub fn parse(input: &[u8]) -> (r: Result<(HTTPRequest, usize), ParseError>)
        ensures
            match spec_parse(input@) {
                Ok(m) => r matches Ok(p) && p.0@ == m.0 && p.1 == m.1,
                Err(e) => r matches Err(e2) && e2 == e,
            },
    {
        let n = input.len();
        // First line: split the content into whitespace-separated tokens.
        let le = find_line_feed(input, 0);
        let ce = if le > 0 && input[le - 1] == CR {
            le - 1
        } else {
            le
        };
        proof {
            assert(ce == line_content_end(input@, 0));
        }
        let content = slice_subrange(input, 0, ce);
        let a0 = skip_whitespace(content, 0);
        let a1 = token_end(content, a0);
        let b0 = skip_whitespace(content, a1);
        let b1 = token_end(content, b0);
        let d0 = skip_whitespace(content, b1);
        let d1 = token_end(content, d0);
        if !(a1 > a0 && b1 > b0 && d1 > d0) {
            return Err(ParseError::MalformedPreamble);
        }
        let method = method_of_token(slice_subrange(content, a0, a1));
        let path = sub_to_vec(content, b0, b1);
        let version = version_of_token(slice_subrange(content, d0, d1));

        // Header lines, folded into a mapping with unique names.
        let hstart = if le < n {
            le + 1
        } else {
            le
        };
        proof {
            assert(hstart == next_line_start(input@, 0));
        }
        let ghost full = spec_header_lines(input@, hstart as int);
        let mut headers: Vec<(Vec<u8>, Vec<u8>)> = Vec::new();
        proof {
            assert(headers_view(headers@) =~= Seq::<(Seq<u8>, Seq<u8>)>::empty());
        }
        let mut pos = hstart;
        let mut body_start = pos;
        let mut scanning = true;
        while scanning
            invariant
                hstart <= pos <= n,
                n == input@.len(),
                scanning ==> pos == body_start,
                scanning ==> spec_collapse_into(
                    headers_view(headers@),
                    spec_header_lines(input@, pos as int).0,
                ) == spec_collapse(full.0),
                scanning ==> spec_header_lines(input@, pos as int).1 == full.1,
                !scanning ==> headers_view(headers@) == spec_collapse(full.0),
                !scanning ==> body_start == full.1,
                !scanning ==> body_start <= n,
            decreases n - pos + (if scanning {
                1int
            } else {
                0int
            }),
        {
            if pos >= n {
                proof {
                    assert(spec_header_lines(input@, pos as int).0 =~= Seq::<
                        (Seq<u8>, Seq<u8>),
                    >::empty());
                }
                body_start = pos;
                scanning = false;
            } else {
                let le2 = find_line_feed(input, pos);
                let ce2 = if le2 > pos && input[le2 - 1] == CR {
                    le2 - 1
                } else {
                    le2
                };
                proof {
                    assert(ce2 == line_content_end(input@, pos as int));
                }
                let ns = if le2 < n {
                    le2 + 1
                } else {
                    le2
                };
                proof {
                    assert(ns == next_line_start(input@, pos as int));
                }
                if ce2 == pos {
                    // Blank line: the header section ends here.
                    body_start = ns;
                    scanning = false;
                } else {
                    let line = slice_subrange(input, pos, ce2);
                    let j = find_separator(line);
                    if j < line.len() {
                        let name = sub_to_vec(line, 0, j);
                        let value = sub_to_vec(line, j + 2, line.len());
                        let ghost rem = spec_header_lines(input@, pos as int);
                        let ghost rest = spec_header_lines(input@, ns as int);
                        proof {
                            assert(rem.0 == seq![(name@, value@)] + rest.0);
                            assert((seq![(name@, value@)] + rest.0)[0] == (name@, value@));
                            assert((seq![(name@, value@)] + rest.0).drop_first() =~= rest.0);
                        }
                        upsert_header(&mut headers, name, value);
                    }
                    pos = ns;
                    body_start = pos;
                }
            }
        }

        // Body framing from `Content-Length`.
        let base = HTTPRequest { method, path, version, headers, body: None };
        let cl_name = content_length_name();
        let cl = header_value_of(&base.headers, cl_name.as_slice());
        match cl {
            None => Ok((base, body_start)),
            Some(v) => {
                match decimal_value_capped(v.as_slice(), n - body_start) {
                    DecResult::NotNumeric => Err(ParseError::InvalidContentLength),
                    DecResult::Exceeds => Err(ParseError::TruncatedBody),
                    DecResult::Value(len) => {
                        if len == 0 {
                            Ok((base, body_start))
                        } else {
                            let body = sub_to_vec(input, body_start, body_start + len);
                            let req = HTTPRequest { body: Some(body), ..base };
                            Ok((req, body_start + len))
                        }
                    },
                }
            },
        }
    }

    pub fn path(&self) -> (r: &Vec<u8>)
        ensures
            r@ == self@.path,
    {
        &self.path
    }

    pub fn version(&self) -> (r: HTTPVersion)
        ensures
            r == self@.version,
    {
        self.version
    }

    pub fn method(&self) -> (r: RequestMethod)
        ensures
            r == self@.method,
    {
        self.method
    }

    pub fn body(&self) -> (r: &Option<Vec<u8>>)
        ensures
            match r {
                Some(b) => self@.body == Some(b@),
                None => self@.body is None,
            },
    {
        &self.body
    }

    /// The value of the header named `name`, if one is present.
    pub fn header<'a>(&'a self, name: &[u8]) -> (r: Option<&'a Vec<u8>>)
        ensures
            match r {
                Some(v) => spec_header_value(self@.headers, name@) == Some(v@),
                None => spec_header_value(self@.headers, name@) is None,
            },
    {
        header_value_of(&self.headers, name)
    }
}


// ---------------------------------------------------------------------------
// Parser laws
// ---------------------------------------------------------------------------
/// A well-formed preamble token: non-empty, and free of the whitespace
/// bytes (space, tab, carriage return, line feed) that delimit tokens and
/// lines.
pub open spec fn token_ok(t: Seq<u8>) -> bool {
    t.len() > 0 && forall|i: int| 0 <= i < t.len() ==> !is_ws(#[trigger] t[i])
}

/// The individual bytes of `Content-Length`: none is a line break, a
/// carriage return, or a colon.
pub proof fn lemma_cl_token_facts()
    ensures
        content_length_token().len() == 14,
        forall|k: int|
            0 <= k < 14 ==> #[trigger] content_length_token()[k] != LF
                && content_length_token()[k] != CR && content_length_token()[k] != COLON,
{
    assert forall|k: int|
        0 <= k < 14 implies #[trigger] content_length_token()[k] != LF
        && content_length_token()[k] != CR && content_length_token()[k] != COLON by {
        if k == 0 {
            assert(content_length_token()[0] == 67);
        } else if k == 1 {
            assert(content_length_token()[1] == 111);
        } else if k == 2 {
            assert(content_length_token()[2] == 110);
        } else if k == 3 {
            assert(content_length_token()[3] == 116);
        } else if k == 4 {
            assert(content_length_token()[4] == 101);
        } else if k == 5 {
            assert(content_length_token()[5] == 110);
        } else if k == 6 {
            assert(content_length_token()[6] == 116);
        } else if k == 7 {
            assert(content_length_token()[7] == 45);
        } else if k == 8 {
            assert(content_length_token()[8] == 76);
        } else if k == 9 {
            assert(content_length_token()[9] == 101);
        } else if k == 10 {
            assert(content_length_token()[10] == 110);
        } else if k == 11 {
            assert(content_length_token()[11] == 103);
        } else if k == 12 {
            assert(content_length_token()[12] == 116);
        } else if k == 13 {
            assert(content_length_token()[13] == 104);
        }
    }
}

/// How the first line of a well-formed preamble is carved up, whatever
/// follows the line: its content runs to just before its `\r\n`, the next
/// line starts just after, and the three tokens are recovered exactly.
pub proof fn lemma_preamble_line(m: Seq<u8>, p: Seq<u8>, v: Seq<u8>, rest: Seq<u8>)
    requires
        token_ok(m),
        token_ok(p),
        token_ok(v),
    ensures
        ({
            let pre = m + seq![SP] + p + seq![SP] + v;
            let input = pre + crlf() + rest;
            &&& find_lf(input, 0) == pre.len() + 1
            &&& line_content_end(input, 0) == pre.len()
            &&& next_line_start(input, 0) == pre.len() + 2
            &&& input.subrange(0, pre.len() as int) == pre
            &&& spec_preamble_tokens(pre) == Some((m, p, v))
        }),
{
    let pre = m + seq![SP] + p + seq![SP] + v;
    let input = pre + crlf() + rest;
    let ml = m.len() as int;
    let pl = p.len() as int;
    let vl = v.len() as int;
    let ll = pre.len() as int;
    assert(ll == ml + 1 + pl + 1 + vl);
    assert(input[ll] == CR);
    assert(input[ll + 1] == LF);
    assert forall|k: int| 0 <= k < ll implies input[k] == pre[k] by {}
    assert forall|k: int| 0 <= k < ll + 1 implies input[k] != LF by {
        if k < ml {
            assert(pre[k] == m[k]);
            assert(!is_ws(m[k]));
        } else if k == ml {
            assert(pre[k] == SP);
        } else if k < ml + 1 + pl {
            assert(pre[k] == p[k - ml - 1]);
            assert(!is_ws(p[k - ml - 1]));
        } else if k == ml + 1 + pl {
            assert(pre[k] == SP);
        } else if k < ll {
            assert(pre[k] == v[k - ml - 1 - pl - 1]);
            assert(!is_ws(v[k - ml - 1 - pl - 1]));
        } else {
            assert(input[k] == CR);
        }
    }
    lemma_find_lf_at(input, 0, ll + 1);
    assert(line_content_end(input, 0) == ll);
    assert(input.len() >= ll + 2);
    assert(next_line_start(input, 0) == ll + 2);
    assert(input.subrange(0, ll) =~= pre);

    // Token extraction on the content.
    assert(pre[0] == m[0] && !is_ws(m[0]));
    lemma_skip_ws_at(pre, 0, 0);
    assert forall|k: int| 0 <= k < ml implies !is_ws(pre[k]) by {
        assert(pre[k] == m[k]);
    }
    assert(pre[ml] == SP);
    lemma_scan_token_at(pre, 0, ml);
    lemma_skip_ws_at(pre, ml, ml + 1);
    assert forall|k: int| ml + 1 <= k < ml + 1 + pl implies !is_ws(pre[k]) by {
        assert(pre[k] == p[k - ml - 1]);
    }
    assert(pre[ml + 1 + pl] == SP);
    lemma_scan_token_at(pre, ml + 1, ml + 1 + pl);
    lemma_skip_ws_at(pre, ml + 1 + pl, ml + 2 + pl);
    assert forall|k: int| ml + 2 + pl <= k < ll implies !is_ws(pre[k]) by {
        assert(pre[k] == v[k - ml - 2 - pl]);
    }
    lemma_scan_token_at(pre, ml + 2 + pl, ll);
    assert(pre.subrange(0, ml) =~= m);
    assert(pre.subrange(ml + 1, ml + 1 + pl) =~= p);
    assert(pre.subrange(ml + 2 + pl, ll) =~= v);
}


/// For every well-formed request with no header lines and no body, parsing
/// recovers the method, path, and version exactly as written, yields an
/// empty header mapping and no body, and consumes the whole message.
pub proof fn lemma_parse_recovers_preamble(m: Seq<u8>, p: Seq<u8>, v: Seq<u8>)
    requires
        token_ok(m),
        token_ok(p),
        token_ok(v),
    ensures
        ({
            let input = m + seq![SP] + p + seq![SP] + v + crlf() + crlf();
            spec_parse(input) == Ok::<(ReqModel, int), ParseError>(
                (
                    ReqModel {
                        method: spec_method_of(m),
                        path: p,
                        version: spec_version_of(v),
                        headers: Seq::empty(),
                        body: None,
                    },
                    input.len() as int,
                ),
            )
        }),
{
    let pre = m + seq![SP] + p + seq![SP] + v;
    let input = m + seq![SP] + p + seq![SP] + v + crlf() + crlf();
    let ll = pre.len() as int;
    assert(input =~= pre + crlf() + crlf());
    lemma_preamble_line(m, p, v, crlf());
    assert(input.len() == ll + 4);
    assert(line_content_end(input, 0) == ll);
    assert(input.subrange(0, ll) == pre);
    assert(spec_preamble_tokens(input.subrange(0, line_content_end(input, 0))) == Some((m, p, v)));

    // The header section is a single blank line.
    let hstart = ll + 2;
    assert(next_line_start(input, 0) == hstart);
    assert(input[hstart] == CR);
    assert(input[hstart + 1] == LF);
    lemma_find_lf_at(input, hstart, hstart + 1);
    assert(find_lf(input, hstart) == hstart + 1);
    assert(line_content_end(input, hstart) == hstart);
    assert(next_line_start(input, hstart) == hstart + 2);
    assert(spec_header_lines(input, hstart) == (Seq::<(Seq<u8>, Seq<u8>)>::empty(), ll + 4));
    assert(spec_collapse(Seq::<(Seq<u8>, Seq<u8>)>::empty()) =~= Seq::<(Seq<u8>, Seq<u8>)>::empty());
    assert(find_key(Seq::<(Seq<u8>, Seq<u8>)>::empty(), content_length_token()) == 0);
    assert(spec_header_value(Seq::<(Seq<u8>, Seq<u8>)>::empty(), content_length_token()) is None);
}


/// A header section that consists of one `Content-Length` line and the
/// blank separator line parses to exactly that one header, and the body
/// starts right after the separator.
#[verifier::rlimit(60)]
proof fn lemma_single_header_section(input: Seq<u8>, hstart: int, num: Seq<u8>)
    requires
        0 <= hstart,
        hstart + 16 + num.len() + 4 <= input.len(),
        input.subrange(hstart, hstart + 14) == content_length_token(),
        input[hstart + 14] == COLON,
        input[hstart + 15] == SP,
        input.subrange(hstart + 16, hstart + 16 + num.len()) == num,
        input[hstart + 16 + num.len()] == CR,
        input[hstart + 16 + num.len() + 1] == LF,
        input[hstart + 16 + num.len() + 2] == CR,
        input[hstart + 16 + num.len() + 3] == LF,
        spec_numeric(num),
    ensures
        spec_header_lines(input, hstart) == (
            seq![(content_length_token(), num)],
            hstart + 16 + num.len() + 4,
        ),
{
    lemma_cl_token_facts();
    let nl = num.len() as int;
    let cl_len = 16 + nl;
    let bb = hstart + cl_len + 2;
    let bs = bb + 2;
    assert forall|t: int| 0 <= t < 14 implies input[hstart + t] == content_length_token()[t] by {
        assert(input.subrange(hstart, hstart + 14)[t] == input[hstart + t]);
    }
    assert forall|t: int| 0 <= t < nl implies input[hstart + 16 + t] == num[t] by {
        assert(input.subrange(hstart + 16, hstart + 16 + nl)[t] == input[hstart + 16 + t]);
    }
    assert forall|t: int| 0 <= t < nl implies is_digit(num[t]) by {}

    // The header line runs to its own terminator.
    assert forall|k: int| hstart <= k < hstart + cl_len + 1 implies input[k] != LF by {
        let t = k - hstart;
        if t < 14 {
            assert(input[k] == content_length_token()[t]);
        } else if t == 14 {
            assert(input[k] == COLON);
        } else if t == 15 {
            assert(input[k] == SP);
        } else if t < 16 + nl {
            assert(input[k] == num[t - 16]);
            assert(is_digit(num[t - 16]));
        } else {
            assert(input[k] == CR);
        }
    }
    lemma_find_lf_at(input, hstart, hstart + cl_len + 1);
    assert(input[hstart + cl_len] == CR);
    assert(line_content_end(input, hstart) == hstart + cl_len);
    assert(next_line_start(input, hstart) == bb);

    // The line's content splits at the separator after `Content-Length`.
    let content = input.subrange(hstart, hstart + cl_len);
    assert(content.len() == cl_len);
    assert forall|t: int| 0 <= t < cl_len implies content[t] == input[hstart + t] by {}
    assert forall|k: int|
        0 <= k < 14 implies !(#[trigger] content[k] == COLON && k + 1 < content.len() && content[k
        + 1] == SP) by {
        assert(content[k] == content_length_token()[k]);
    }
    assert(content[14] == COLON && content[15] == SP);
    lemma_find_colon_sp_at(content, 0, 14);
    assert(content.subrange(0, 14) =~= content_length_token());
    assert(content.subrange(16, cl_len) =~= num);
    assert(spec_split_header(content) == Some((content_length_token(), num)));

    // The next line is blank and ends the header section.
    assert(input[bb] == CR && input[bb + 1] == LF);
    lemma_find_lf_at(input, bb, bb + 1);
    assert(line_content_end(input, bb) == bb);
    assert(next_line_start(input, bb) == bs);
    assert(spec_header_lines(input, bb) == (Seq::<(Seq<u8>, Seq<u8>)>::empty(), bs));
    assert(spec_header_lines(input, hstart).0 =~= seq![(content_length_token(), num)]);
    assert(spec_header_lines(input, hstart).1 == bs);
}

/// A single raw header line collapses to the one-entry mapping, in which
/// its name is found.
proof fn lemma_collapse_single(name: Seq<u8>, value: Seq<u8>)
    ensures
        spec_collapse(seq![(name, value)]) == seq![(name, value)],
        spec_header_value(seq![(name, value)], name) == Some(value),
{
    let nv = (name, value);
    let hdrs = seq![nv];
    assert(find_key(Seq::<(Seq<u8>, Seq<u8>)>::empty(), name) == 0);
    assert(spec_upsert(Seq::<(Seq<u8>, Seq<u8>)>::empty(), nv.0, nv.1) =~= hdrs);
    assert(hdrs.drop_first() =~= Seq::<(Seq<u8>, Seq<u8>)>::empty());
    assert(hdrs[0] == nv);
    assert(hdrs.drop_first().len() == 0);
    assert(spec_collapse_into(spec_upsert(Seq::<(Seq<u8>, Seq<u8>)>::empty(), nv.0, nv.1), hdrs.drop_first())
        == spec_upsert(Seq::<(Seq<u8>, Seq<u8>)>::empty(), nv.0, nv.1));
    assert(spec_collapse(hdrs) =~= hdrs);
    assert(hdrs[0].0 == name);
    assert(find_key(hdrs, name) == 0);
}

/// Where the header section and the body bytes of the canonical
/// `Content-Length` message sit, behind the preamble line.
#[verifier::rlimit(60)]
proof fn lemma_cl_message_layout(
    m: Seq<u8>,
    p: Seq<u8>,
    v: Seq<u8>,
    num: Seq<u8>,
    tail: Seq<u8>,
)
    requires
        token_ok(m),
        token_ok(p),
        token_ok(v),
        spec_numeric(num),
    ensures
        ({
            let pre = m + seq![SP] + p + seq![SP] + v;
            let input = m + seq![SP] + p + seq![SP] + v + crlf() + content_length_token()
                + colon_sp() + num + crlf() + crlf() + tail;
            let bs = input.len() - tail.len();
            &&& input.len() == pre.len() + 22 + num.len() + tail.len()
            &&& spec_header_lines(input, pre.len() as int + 2) == (
                seq![(content_length_token(), num)],
                bs,
            )
            &&& forall|t: int| 0 <= t < tail.len() ==> #[trigger] input[bs + t] == tail[t]
        }),
{
    let pre = m + seq![SP] + p + seq![SP] + v;
    let rest = content_length_token() + colon_sp() + num + crlf() + crlf() + tail;
    let input = m + seq![SP] + p + seq![SP] + v + crlf() + content_length_token() + colon_sp()
        + num + crlf() + crlf() + tail;
    let ll = pre.len() as int;
    let nl = num.len() as int;
    let cl_len = 16 + nl;
    let hstart = ll + 2;
    let bs = hstart + cl_len + 4;
    assert(input =~= pre + crlf() + rest);
    assert(input.len() == bs + tail.len());

    // Where each byte of the header section sits.
    assert forall|t: int| 0 <= t < rest.len() implies input[hstart + t] == rest[t] by {}
    assert forall|t: int| 0 <= t < 14 implies rest[t] == content_length_token()[t] by {}
    assert(rest[14] == COLON);
    assert(rest[15] == SP);
    assert forall|t: int| 16 <= t < 16 + nl implies rest[t] == num[t - 16] by {}
    assert(rest[cl_len] == CR);
    assert(rest[cl_len + 1] == LF);
    assert(rest[cl_len + 2] == CR);
    assert(rest[cl_len + 3] == LF);
    assert(input.subrange(hstart, hstart + 14) =~= content_length_token());
    assert(input.subrange(hstart + 16, hstart + 16 + nl) =~= num);
    lemma_single_header_section(input, hstart, num);
    assert forall|t: int| 0 <= t < tail.len() implies #[trigger] input[bs + t] == tail[t] by {
        assert(input[bs + t] == rest[cl_len + 4 + t]);
        assert(rest[cl_len + 4 + t] == tail[t]);
    }
}

/// For every request whose single header announces `Content-Length` with
/// value `num`, followed by at least that many body bytes, parsing returns
/// a body of exactly that many bytes and consumes the message up to and
/// including them: bytes beyond the declared length are left unread.
#[verifier::rlimit(60)]
pub proof fn lemma_parse_body_framing(
    m: Seq<u8>,
    p: Seq<u8>,
    v: Seq<u8>,
    num: Seq<u8>,
    tail: Seq<u8>,
)
    requires
        token_ok(m),
        token_ok(p),
        token_ok(v),
        spec_numeric(num),
        dec_val(num) <= tail.len(),
    ensures
        ({
            let input = m + seq![SP] + p + seq![SP] + v + crlf() + content_length_token()
                + colon_sp() + num + crlf() + crlf() + tail;
            let n = dec_val(num) as int;
            spec_parse(input) == Ok::<(ReqModel, int), ParseError>(
                (
                    ReqModel {
                        method: spec_method_of(m),
                        path: p,
                        version: spec_version_of(v),
                        headers: seq![(content_length_token(), num)],
                        body: if n == 0 {
                            None
                        } else {
                            Some(tail.take(n))
                        },
                    },
                    input.len() - tail.len() + n,
                ),
            )
        }),
{
    let pre = m + seq![SP] + p + seq![SP] + v;
    let rest = content_length_token() + colon_sp() + num + crlf() + crlf() + tail;
    let input = m + seq![SP] + p + seq![SP] + v + crlf() + content_length_token() + colon_sp()
        + num + crlf() + crlf() + tail;
    let ll = pre.len() as int;
    let hstart = ll + 2;
    let bs = input.len() - tail.len();
    assert(input =~= pre + crlf() + rest);
    lemma_preamble_line(m, p, v, rest);
    lemma_cl_message_layout(m, p, v, num, tail);
    lemma_collapse_single(content_length_token(), num);

    // Framing: exactly the declared number of body bytes is consumed.
    let n = dec_val(num) as int;
    if n > 0 {
        assert(input.subrange(bs, bs + n) =~= tail.take(n));
    }
}

// ---------------------------------------------------------------------------
// Read-loop support
// ---------------------------------------------------------------------------
/// The position just after the first blank line at or after `i`, if one is
/// in the buffer: until then a reader cannot know where the body would
/// start, and must wait for more bytes (or the end of the stream).
pub open spec fn spec_head_end(s: Seq<u8>, i: int) -> Option<int>
    decreases s.len() - i,
    via spec_head_end_dec
{
    if i < 0 || i >= s.len() {
        None
    } else {
        let ce = line_content_end(s, i);
        let ns = next_line_start(s, i);
        if ce == i {
            Some(ns)
        } else {
            spec_head_end(s, ns)
        }
    }
}

#[via_fn]
proof fn spec_head_end_dec(s: Seq<u8>, i: int) {
    if 0 <= i && i < s.len() {
        lemma_find_lf_ge(s, i);
    }
}

/// Scans a partially received buffer for the blank line that ends the
/// header section, returning the position just after it.  `None` means the
/// buffer cannot yet be framed and the reader needs more bytes.
pub fn head_end(input: &[u8]) -> (r: Option<usize>)
    ensures
        match r {
            Some(e) => spec_head_end(input@, 0) == Some(e as int) && e <= input@.len(),
            None => spec_head_end(input@, 0) is None,
        },
{
    let n = input.len();
    let mut pos: usize = 0;
    while pos < n
        invariant
            pos <= n,
            n == input@.len(),
            spec_head_end(input@, 0) == spec_head_end(input@, pos as int),
        decreases n - pos,
    {
        let le = find_line_feed(input, pos);
        let ce = if le > pos && input[le - 1] == CR {
            le - 1
        } else {
            le
        };
        proof {
            assert(ce == line_content_end(input@, pos as int));
        }
        let ns = if le < n {
            le + 1
        } else {
            le
        };
        proof {
            assert(ns == next_line_start(input@, pos as int));
        }
        if ce == pos {
            return Some(ns);
        }
        pos = ns;
    }
    None
}


// ---------------------------------------------------------------------------
// Data-model invariants of parsed requests
// ---------------------------------------------------------------------------
/// The header mapping's defining property: names are pairwise distinct.
pub open spec fn unique_header_names(hs: Seq<(Seq<u8>, Seq<u8>)>) -> bool {
    forall|i: int, j: int| 0 <= i < j < hs.len() ==> hs[i].0 != hs[j].0
}

proof fn lemma_find_key_bounds(hs: Seq<(Seq<u8>, Seq<u8>)>, name: Seq<u8>)
    ensures
        0 <= find_key(hs, name) <= hs.len(),
        find_key(hs, name) < hs.len() ==> hs[find_key(hs, name)].0 == name,
        forall|k: int| 0 <= k < find_key(hs, name) ==> hs[k].0 != name,
    decreases hs.len(),
{
    if hs.len() > 0 && hs[0].0 != name {
        lemma_find_key_bounds(hs.drop_first(), name);
        assert forall|k: int| 0 <= k < find_key(hs, name) implies hs[k].0 != name by {
            if k > 0 {
                assert(hs.drop_first()[k - 1] == hs[k]);
            }
        }
    }
}

proof fn lemma_upsert_unique(hs: Seq<(Seq<u8>, Seq<u8>)>, name: Seq<u8>, value: Seq<u8>)
    requires
        unique_header_names(hs),
    ensures
        unique_header_names(spec_upsert(hs, name, value)),
{
    lemma_find_key_bounds(hs, name);
    let k = find_key(hs, name);
    let r = spec_upsert(hs, name, value);
    if k < hs.len() {
        assert forall|t: int| 0 <= t < r.len() implies r[t].0 == hs[t].0 by {
            if t == k {
                assert(hs[k].0 == name);
            }
        }
        assert forall|i: int, j: int| 0 <= i < j < r.len() implies r[i].0 != r[j].0 by {
            assert(hs[i].0 != hs[j].0);
        }
    } else {
        assert forall|i: int, j: int| 0 <= i < j < r.len() implies r[i].0 != r[j].0 by {
            if j == hs.len() {
                assert(hs[i].0 != name);
            } else {
                assert(hs[i].0 != hs[j].0);
            }
        }
    }
}

proof fn lemma_collapse_into_unique(acc: Seq<(Seq<u8>, Seq<u8>)>, raw: Seq<(Seq<u8>, Seq<u8>)>)
    requires
        unique_header_names(acc),
    ensures
        unique_header_names(spec_collapse_into(acc, raw)),
    decreases raw.len(),
{
    if raw.len() > 0 {
        lemma_upsert_unique(acc, raw[0].0, raw[0].1);
        lemma_collapse_into_unique(spec_upsert(acc, raw[0].0, raw[0].1), raw.drop_first());
    }
}

/// In every successfully parsed request the header names are pairwise
/// distinct: the headers form a mapping, later occurrences of a name
/// having overridden earlier ones.
pub proof fn lemma_parse_headers_unique(s: Seq<u8>)
    ensures
        match spec_parse(s) {
            Ok(m) => unique_header_names(m.0.headers),
            Err(_) => true,
        },
{
    let hstart = next_line_start(s, 0);
    let raw = spec_header_lines(s, hstart).0;
    lemma_collapse_into_unique(Seq::empty(), raw);
}

proof fn lemma_header_lines_bounds(s: Seq<u8>, i: int)
    requires
        0 <= i <= s.len(),
    ensures
        i <= spec_header_lines(s, i).1 <= s.len(),
    decreases s.len() - i,
{
    if i < s.len() {
        lemma_find_lf_ge(s, i);
        let ns = next_line_start(s, i);
        if line_content_end(s, i) != i {
            lemma_header_lines_bounds(s, ns);
        }
    }
}

/// In every successfully parsed request the body agrees with the declared
/// `Content-Length`: absent without one (or with zero), and of exactly the
/// declared length otherwise.
pub proof fn lemma_parse_body_matches_content_length(s: Seq<u8>)
    ensures
        match spec_parse(s) {
            Ok(m) => match spec_header_value(m.0.headers, content_length_token()) {
                Some(val) => spec_numeric(val) && (if dec_val(val) == 0 {
                    m.0.body is None
                } else {
                    m.0.body matches Some(b) && b.len() == dec_val(val)
                }),
                None => m.0.body is None,
            },
            Err(_) => true,
        },
{
    let ce = line_content_end(s, 0);
    if spec_preamble_tokens(s.subrange(0, ce)) is Some {
        let hstart = next_line_start(s, 0);
        lemma_find_lf_ge(s, 0);
        lemma_header_lines_bounds(s, hstart);
        let hl = spec_header_lines(s, hstart);
        let headers = spec_collapse(hl.0);
        let bs = hl.1;
        match spec_header_value(headers, content_length_token()) {
            None => {},
            Some(val) => {
                if spec_numeric(val) && dec_val(val) <= s.len() - bs && dec_val(val) > 0 {
                    assert(s.subrange(bs, bs + dec_val(val)).len() == dec_val(val));
                }
            },
        }
    }
}

} // verus!
