//! Reading the parts of a request that decide what happens next: the
//! request line, which picks a route, and the header block, which declares
//! the body length.

use vstd::prelude::*;

use crate::text::{
    has_prefix, has_prefix_ci, parse_usize_spec, range_has_prefix, range_has_prefix_ci,
    range_parse_usize, trim, trim_bounds,
};

verus! {

/// Where a request line sends the connection.
#[derive(Clone, Copy, PartialEq, Eq, Structural, Debug)]
pub enum Route {
    /// `GET / HTTP/1.1`: the static informational page.
    StaticPage,
    /// `POST /api/interpreter HTTP/1.1`: the interpreter pipeline.
    Interpreter,
    /// Anything else: not found.
    Unknown,
}

/// The route that a (trimmed) request line selects, by its prefix.
pub open spec fn route_of(line: Seq<char>) -> Route {
    if has_prefix(trim(line), "GET / HTTP/1.1"@) {
        Route::StaticPage
    } else if has_prefix(trim(line), "POST /api/interpreter HTTP/1.1"@) {
        Route::Interpreter
    } else {
        Route::Unknown
    }
}

/// Routes a raw request line, exactly as [`route_of`] reads it.
pub fn route_request(line: &str) -> (r: Route)
    ensures
        r == route_of(line@),
{
    let n = line.unicode_len();
    let (lo, hi) = trim_bounds(line, 0, n);
    proof {
        assert(line@.subrange(0, n as int) =~= line@);
    }
    if range_has_prefix(line, lo, hi, "GET / HTTP/1.1") {
        Route::StaticPage
    } else if range_has_prefix(line, lo, hi, "POST /api/interpreter HTTP/1.1") {
        Route::Interpreter
    } else {
        Route::Unknown
    }
}

/// The header name that declares the body length, matched without regard
/// to ASCII case.
pub open spec fn content_length_key() -> Seq<char> {
    "content-length:"@
}

/// Whether a header line declares the body length.
pub open spec fn is_content_length_line(line: Seq<char>) -> bool {
    has_prefix_ci(line, content_length_key())
}

/// The length such a line declares: the remainder after the colon, trimmed
/// and read as an unsigned integer, with `0` standing in for anything that
/// does not parse.
pub open spec fn declared_length(line: Seq<char>) -> nat
    recommends
        is_content_length_line(line),
{
    match parse_usize_spec(trim(line.subrange(15, line.len() as int))) {
        Some(n) => n,
        None => 0,
    }
}

/// Reads one header line: `Some` of the declared body length when the line
/// is a `Content-Length` header (`0` when its value does not parse), `None`
/// for every other line. Where headers repeat, the caller keeps the last
/// `Some` it saw.
pub fn header_content_length(line: &str) -> (r: Option<usize>)
    ensures
        match r {
            Some(n) => is_content_length_line(line@) && n as nat == declared_length(line@),
            None => !is_content_length_line(line@),
        },
{
    let n = line.unicode_len();
    proof {
        assert(line@.subrange(0, n as int) =~= line@);
    }
    if !range_has_prefix_ci(line, 0, n, "content-length:") {
        return None;
    }
    proof {
        reveal_strlit("content-length:");
    }
    let (vlo, vhi) = trim_bounds(line, 15, n);
    proof {
        assert(line@.subrange(15, n as int) =~= line@.subrange(15, line@.len() as int));
    }
    match range_parse_usize(line, vlo, vhi) {
        Some(v) => Some(v),
        None => Some(0),
    }
}

} // verus!
