//! Planning of HTTP responses that serve a resolved file, honoring an
//! optional `Range: bytes=<start>-[<end>]` request header.
//!
//! The planner turns the outcome of opening the file (reported by the
//! caller as a [`FileProbe`]) and the raw header value into a
//! [`ResponsePlan`]: status, exact header values, and how to produce the
//! body. A malformed or unsatisfiable range is not an error: it falls back
//! to the full-content response, so a client sending a nonsensical range
//! still receives usable content. Only single contiguous ranges are
//! supported; multi-range requests (`bytes=a-b,c-d`) fail to parse and
//! fall back to full content — a deliberate, known limitation, since media
//! players do not issue them. The whole-file body is always streamed
//! lazily; only a range is buffered, and its length is capped by
//! [`MAX_RANGE_LENGTH`] so that a crafted header cannot force an unbounded
//! allocation.

use crate::media::{get_mime_type, spec_mime_type};
use crate::text::{
    all_dec_digits, dec_val, ffind, find_first, parse_u64, spec_dec, str_eq, u64_to_dec,
};
use vstd::prelude::*;
use vstd::string::StringExecFns;

verus! {

/// The largest number of bytes a single range response will buffer.
/// A valid range that asks for more is clamped to its first
/// `MAX_RANGE_LENGTH` bytes; players simply request the rest next.
pub const MAX_RANGE_LENGTH: u64 = 64 * 1024 * 1024;

/// What the caller observed when opening the file and querying its size.
#[derive(Debug, Clone, Copy, PartialEq, Eq, Structural)]
pub enum FileProbe {
    /// The file could not be opened.
    OpenFailed,
    /// The file opened but its metadata could not be read.
    SizeUnknown,
    /// The file opened and reports this size in bytes.
    Opened { size: u64 },
}

/// How the body of a planned response is produced.
#[derive(Debug, Clone, PartialEq)]
pub enum BodyPlan {
    /// No body.
    Empty,
    /// A fixed text body.
    Note { text: String },
    /// The whole file, as a lazily produced, forward-only sequence of
    /// byte chunks read from the open file — never fully buffered.
    WholeFile,
    /// Exactly `length` bytes of the file starting at offset `start`,
    /// read after seeking; fewer available bytes are a failure.
    Slice { start: u64, length: u64 },
}

/// A planned HTTP response: status code, header pairs in order, and body.
#[derive(Debug, Clone, PartialEq)]
pub struct ResponsePlan {
    pub status: u16,
    pub headers: Vec<(String, String)>,
    pub body: BodyPlan,
}

/// The header pairs of a plan, as character sequences.
pub open spec fn header_views(h: Seq<(String, String)>) -> Seq<(Seq<char>, Seq<char>)> {
    h.map_values(|p: (String, String)| (p.0@, p.1@))
}

/// The two parts of a range value `<start>-<end?>`: the text before and
/// after the dash, provided there is exactly one dash.
pub open spec fn spec_range_parts(s: Seq<char>) -> Option<(Seq<char>, Seq<char>)> {
    let d = find_first(s, '-');
    if d >= 0 && find_first(s.skip(d + 1), '-') == -1 {
        Some((s.take(d), s.skip(d + 1)))
    } else {
        None
    }
}

/// What parsing a range value yields: the start, and the end defaulting
/// to `file_size - 1` when omitted. Parsing fails on a missing or
/// repeated dash, a malformed or oversized number, or an omitted end on
/// an empty file (which has no last byte).
pub open spec fn spec_parse_range(s: Seq<char>, file_size: u64) -> Option<(u64, u64)> {
    match spec_range_parts(s) {
        None => None,
        Some((a, b)) => {
            if !(a.len() > 0 && all_dec_digits(a) && dec_val(a) <= u64::MAX) {
                None
            } else if b.len() == 0 {
                if file_size == 0 {
                    None
                } else {
                    Some((dec_val(a) as u64, (file_size - 1) as u64))
                }
            } else if all_dec_digits(b) && dec_val(b) <= u64::MAX {
                Some((dec_val(a) as u64, dec_val(b) as u64))
            } else {
                None
            }
        },
    }
}

/// Parses a range value of the form `<start>-<end?>` against a file of
/// `file_size` bytes. Returns the requested bounds without validating
/// them; an omitted end means the last byte of the file.
pub fn parse_range(range: &str, file_size: u64) -> (r: Option<(u64, u64)>)
    ensures
        r == spec_parse_range(range@, file_size),
{
    let n = range.unicode_len();
    let d = match ffind(range, '-') {
        Some(d) => d,
        None => {
            return None;
        },
    };
    let a = range.substring_char(0, d);
    let b = range.substring_char(d + 1, n);
    proof {
        assert(a@ =~= range@.take(d as int));
        assert(b@ =~= range@.skip(d as int + 1));
    }
    if let Some(_) = ffind(b, '-') {
        return None;
    }
    let start = match parse_u64(a) {
        Some(v) => v,
        None => {
            return None;
        },
    };
    if b.unicode_len() == 0 {
        if file_size == 0 {
            None
        } else {
            Some((start, file_size - 1))
        }
    } else {
        match parse_u64(b) {
            Some(end) => Some((start, end)),
            None => None,
        }
    }
}

/// The range a response actually serves: the parsed range if it is valid
/// (`start <= end < file_size`), clamped to [`MAX_RANGE_LENGTH`] bytes;
/// `None` (meaning: serve full content) if parsing or validation fails.
pub open spec fn spec_effective_range(s: Seq<char>, file_size: u64) -> Option<(u64, u64)> {
    match spec_parse_range(s, file_size) {
        None => None,
        Some((start, end)) => {
            if start <= end && end < file_size {
                if end - start + 1 <= MAX_RANGE_LENGTH {
                    Some((start, end))
                } else {
                    Some((start, (start + MAX_RANGE_LENGTH - 1) as u64))
                }
            } else {
                None
            }
        },
    }
}

/// The range served for a raw `Range` header value, which must carry the
/// `bytes=` prefix; anything else falls back to full content.
pub open spec fn spec_range_from_header(h: Seq<char>, file_size: u64) -> Option<(u64, u64)> {
    if h.len() >= 6 && h.take(6) == "bytes="@ {
        spec_effective_range(h.skip(6), file_size)
    } else {
        None
    }
}

/// The value of a `Content-Range` header: `bytes <start>-<end>/<size>`.
pub open spec fn spec_content_range(start: u64, end: u64, size: u64) -> Seq<char> {
    "bytes "@ + spec_dec(start as int) + "-"@ + spec_dec(end as int) + "/"@ + spec_dec(size as int)
}

/// The headers of a full-content response.
pub open spec fn spec_full_headers(path: Seq<char>, size: u64) -> Seq<(Seq<char>, Seq<char>)> {
    seq![
        ("Content-Type"@, spec_mime_type(path)),
        ("Accept-Ranges"@, "bytes"@),
        ("Content-Length"@, spec_dec(size as int)),
    ]
}

/// The headers of a partial-content response for bytes `start..=end`.
pub open spec fn spec_partial_headers(path: Seq<char>, start: u64, end: u64, size: u64) -> Seq<
    (Seq<char>, Seq<char>),
> {
    seq![
        ("Content-Type"@, spec_mime_type(path)),
        ("Content-Length"@, spec_dec(end - start + 1)),
        ("Content-Range"@, spec_content_range(start, end, size)),
        ("Accept-Ranges"@, "bytes"@),
    ]
}

/// A `200 OK` plan that streams the whole file lazily.
pub open spec fn full_plan_matches(r: ResponsePlan, path: Seq<char>, size: u64) -> bool {
    &&& r.status == 200
    &&& header_views(r.headers@) == spec_full_headers(path, size)
    &&& r.body is WholeFile
}

/// A `206 Partial Content` plan serving exactly bytes `start..=end`.
pub open spec fn partial_plan_matches(
    r: ResponsePlan,
    path: Seq<char>,
    start: u64,
    end: u64,
    size: u64,
) -> bool {
    &&& r.status == 206
    &&& header_views(r.headers@) == spec_partial_headers(path, start, end, size)
    &&& (r.body matches BodyPlan::Slice { start: s, length: l } && s == start && l == end - start
        + 1)
}

/// Everything [`stream_file`] promises: a failed open is `404 Not Found`
/// with the fixed note and no headers; a failed size query is an empty
/// `500`; an open file is served in full, or partially when the header
/// carries a usable range.
pub open spec fn plan_matches(
    r: ResponsePlan,
    path: Seq<char>,
    probe: FileProbe,
    hdr: Option<Seq<char>>,
) -> bool {
    match probe {
        FileProbe::OpenFailed => {
            &&& r.status == 404
            &&& r.headers@.len() == 0
            &&& (r.body matches BodyPlan::Note { text } && text@ == "File not found"@)
        },
        FileProbe::SizeUnknown => {
            &&& r.status == 500
            &&& r.headers@.len() == 0
            &&& r.body is Empty
        },
        FileProbe::Opened { size } => {
            match hdr {
                None => full_plan_matches(r, path, size),
                Some(h) => match spec_range_from_header(h, size) {
                    None => full_plan_matches(r, path, size),
                    Some((start, end)) => partial_plan_matches(r, path, start, end, size),
                },
            }
        },
    }
}

/// The view of an optional header value.
pub open spec fn opt_str_view(o: Option<&str>) -> Option<Seq<char>> {
    match o {
        Some(s) => Some(s@),
        None => None,
    }
}

/// Builds the value of a `Content-Range` header.
fn content_range_value(start: u64, end: u64, size: u64) -> (r: String)
    ensures
        r@ == spec_content_range(start, end, size),
{
    let mut s = "bytes ".to_owned();
    s.append(u64_to_dec(start).as_str());
    s.append("-");
    s.append(u64_to_dec(end).as_str());
    s.append("/");
    s.append(u64_to_dec(size).as_str());
    proof {
        assert(s@ =~= spec_content_range(start, end, size));
    }
    s
}

/// Plans the full-content response: `200 OK`, the file's MIME type,
/// `Accept-Ranges: bytes`, the exact size, and a lazily streamed body.
fn full_plan(path: &str, size: u64) -> (r: ResponsePlan)
    ensures
        full_plan_matches(r, path@, size),
{
    let mime = get_mime_type(path);
    let mut headers: Vec<(String, String)> = Vec::new();
    headers.push(("Content-Type".to_owned(), mime.to_owned()));
    headers.push(("Accept-Ranges".to_owned(), "bytes".to_owned()));
    headers.push(("Content-Length".to_owned(), u64_to_dec(size)));
    proof {
        assert(header_views(headers@) =~= spec_full_headers(path@, size));
    }
    ResponsePlan { status: 200, headers, body: BodyPlan::WholeFile }
}

/// Plans the partial response for a raw `Range` header value, or reports
/// with `None` that the header is unusable and full content should be
/// served instead.
fn stream_file_range(path: &str, header: &str, file_size: u64) -> (r: Option<ResponsePlan>)
    ensures
        match spec_range_from_header(header@, file_size) {
            Some((start, end)) => r matches Some(p) && partial_plan_matches(
                p,
                path@,
                start,
                end,
                file_size,
            ),
            None => r is None,
        },
{
    let n = header.unicode_len();
    if n < 6 {
        return None;
    }
    let prefix = header.substring_char(0, 6);
    proof {
        assert(prefix@ =~= header@.take(6));
    }
    if !str_eq(prefix, "bytes=") {
        return None;
    }
    let value = header.substring_char(6, n);
    proof {
        assert(value@ =~= header@.skip(6));
    }
    let (start, end) = match parse_range(value, file_size) {
        Some(p) => p,
        None => {
            return None;
        },
    };
    if !(start <= end && end < file_size) {
        return None;
    }
    let length = end - start + 1;
    let (end, length) = if length > MAX_RANGE_LENGTH {
        (start + MAX_RANGE_LENGTH - 1, MAX_RANGE_LENGTH)
    } else {
        (end, length)
    };
    let mime = get_mime_type(path);
    let mut headers: Vec<(String, String)> = Vec::new();
    headers.push(("Content-Type".to_owned(), mime.to_owned()));
    headers.push(("Content-Length".to_owned(), u64_to_dec(length)));
    headers.push(("Content-Range".to_owned(), content_range_value(start, end, file_size)));
    headers.push(("Accept-Ranges".to_owned(), "bytes".to_owned()));
    proof {
        assert(header_views(headers@) =~= spec_partial_headers(path@, start, end, file_size));
    }
    Some(ResponsePlan { status: 206, headers, body: BodyPlan::Slice { start, length } })
}

/// Plans the response that serves the file at `path`, given what opening
/// it revealed and the raw `Range` header, if one was sent. A header that
/// fails to parse, or asks for an invalid range, is treated exactly as if
/// no header were given.
pub fn stream_file(path: &str, probe: FileProbe, range_header: Option<&str>) -> (r: ResponsePlan)
    ensures
        plan_matches(r, path@, probe, opt_str_view(range_header)),
{
    match probe {
        FileProbe::OpenFailed => ResponsePlan {
            status: 404,
            headers: Vec::new(),
            body: BodyPlan::Note { text: "File not found".to_owned() },
        },
        FileProbe::SizeUnknown => ResponsePlan {
            status: 500,
            headers: Vec::new(),
            body: BodyPlan::Empty,
        },
        FileProbe::Opened { size } => {
            match range_header {
                Some(h) => match stream_file_range(path, h, size) {
                    Some(plan) => plan,
                    None => full_plan(path, size),
                },
                None => full_plan(path, size),
            }
        },
    }
}

/// Law: a `Range` header that fails to parse, or asks for an out-of-bounds
/// range, leaves the planned response identical — status, headers, and
/// body — to that of a request with no `Range` header at all.
pub proof fn lemma_malformed_range_ignored(
    r: ResponsePlan,
    path: Seq<char>,
    size: u64,
    h: Seq<char>,
)
    requires
        spec_range_from_header(h, size) is None,
    ensures
        plan_matches(r, path, FileProbe::Opened { size }, Some(h)) == plan_matches(
            r,
            path,
            FileProbe::Opened { size },
            None,
        ),
{
}

} // verus!
