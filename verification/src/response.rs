//! Serialisation of a status code and a body into a well-formed response
//! message: fixed reason phrases, a `Content-Length` taken from the body's
//! byte length, and a content type that is HTML only for a successful page
//! that carries the doctype marker.

use vstd::prelude::*;
use vstd::string::StringSliceAdditionalSpecFns;
use vstd::utf8::encode_utf8;

verus! {

broadcast use vstd::slice::group_slice_axioms;

/// The decimal digit `d` as a character.
pub open spec fn digit_char(d: nat) -> char
    recommends
        d < 10,
{
    ((48 + d) as u8) as char
}

/// The shortest decimal numeral for `n`, most significant digit first.
pub open spec fn decimal_chars(n: nat) -> Seq<char>
    decreases n,
{
    if n < 10 {
        seq![digit_char(n)]
    } else {
        decimal_chars(n / 10).push(digit_char(n % 10))
    }
}

/// The number that a numeral denotes when its digits are read back.
pub open spec fn decimal_value(s: Seq<char>) -> nat
    decreases s.len(),
{
    if s.len() == 0 {
        0
    } else {
        decimal_value(s.drop_last()) * 10 + (s.last() as u32 - 48) as nat
    }
}

/// Reading the numeral of `n` back yields `n`, and every character of it is
/// a decimal digit.
pub proof fn lemma_decimal_round_trip(n: nat)
    ensures
        decimal_value(decimal_chars(n)) == n,
        forall|k: int|
            0 <= k < decimal_chars(n).len() ==> 48 <= #[trigger] decimal_chars(n)[k] as u32 <= 57,
    decreases n,
{
    if n < 10 {
        assert(decimal_chars(n) == seq![digit_char(n)]);
        assert(decimal_chars(n).drop_last() =~= Seq::<char>::empty());
        assert(decimal_value(Seq::<char>::empty()) == 0);
        assert(decimal_chars(n)[0] == digit_char(n));
        assert(digit_char(n) as u32 == 48 + n);
    } else {
        lemma_decimal_round_trip(n / 10);
        vstd::arithmetic::div_mod::lemma_fundamental_div_mod(n as int, 10);
        assert(decimal_chars(n) == decimal_chars(n / 10).push(digit_char(n % 10)));
        assert(decimal_chars(n).drop_last() =~= decimal_chars(n / 10));
        assert(decimal_chars(n).last() == digit_char(n % 10));
        assert(digit_char(n % 10) as u32 == 48 + n % 10);
        assert forall|k: int| 0 <= k < decimal_chars(n).len() implies 48 <= #[trigger] (
        decimal_chars(n)[k] as u32) <= 57 by {
            if k < decimal_chars(n).len() - 1 {
                assert(decimal_chars(n)[k] == decimal_chars(n / 10)[k]);
                assert(48 <= decimal_chars(n / 10)[k] as u32 <= 57);
            } else {
                assert(decimal_chars(n)[k] == digit_char(n % 10));
            }
        }
    }
}

/// The fixed reason phrase for a status code; anything unrecognised shares
/// the Bad Request phrase.
pub open spec fn reason_phrase(status: u32) -> Seq<char> {
    if status == 200 {
        "OK"@
    } else if status == 500 {
        "Internal Server Error"@
    } else if status == 404 {
        "Not Found"@
    } else {
        "Bad Request"@
    }
}

/// The marker whose presence makes a successful body count as HTML.
pub open spec fn doctype_marker() -> Seq<char> {
    "<!DOCTYPE html"@
}

/// `body` contains the doctype marker as a contiguous run.
pub open spec fn contains_doctype(body: Seq<char>) -> bool {
    exists|i: int|
        0 <= i && i + doctype_marker().len() <= body.len() && #[trigger] body.subrange(
            i,
            i + doctype_marker().len() as int,
        ) == doctype_marker()
}

/// The content type named in the response: HTML only for a successful body
/// that carries the doctype marker, plain text otherwise.
pub open spec fn content_type(status: u32, body: Seq<char>) -> Seq<char> {
    if status == 200 && contains_doctype(body) {
        "text/html"@
    } else {
        "text/plain"@
    }
}

/// Everything of the response before the body: status line, the
/// `Content-Length` header carrying the body's byte count, the content-type
/// header, and the blank line.
pub open spec fn response_head(status: u32, body: &str) -> Seq<char> {
    "HTTP/1.1 "@ + decimal_chars(status as nat) + " "@ + reason_phrase(status) + "\r\n"@
        + "Content-Length: "@ + decimal_chars(body.spec_bytes().len() as nat) + "\r\n"@
        + "Content-Type: "@ + content_type(status, body@) + "\r\n"@ + "\r\n"@
}

/// The whole response message: the head, then the body verbatim.
pub open spec fn response_text(status: u32, body: &str) -> Seq<char> {
    response_head(status, body) + body@
}

/// Encoding characters to UTF-8 distributes over concatenation.
pub proof fn lemma_encode_utf8_concat(a: Seq<char>, b: Seq<char>)
    ensures
        encode_utf8(a + b) == encode_utf8(a) + encode_utf8(b),
    decreases a.len(),
{
    if a.len() == 0 {
        assert(a + b =~= b);
        assert(encode_utf8(a) =~= Seq::<u8>::empty());
        assert(encode_utf8(a) + encode_utf8(b) =~= encode_utf8(b));
    } else {
        assert((a + b).len() > 0);
        assert((a + b)[0] == a[0]);
        assert((a + b).drop_first() =~= a.drop_first() + b);
        lemma_encode_utf8_concat(a.drop_first(), b);
        assert(encode_utf8(a + b) =~= encode_utf8(a) + encode_utf8(b));
    }
}

/// The emitted `Content-Length` equals the exact byte length of the body
/// that follows it: the bytes of the whole response are the bytes of the
/// head followed by the bytes of the body, and the digits placed in the
/// head's `Content-Length` header read back as precisely the number of
/// those body bytes.
pub proof fn lemma_content_length_exact(status: u32, body: &str)
    ensures
        encode_utf8(response_text(status, body)) == encode_utf8(response_head(status, body))
            + body.spec_bytes(),
        decimal_value(decimal_chars(body.spec_bytes().len() as nat)) == body.spec_bytes().len(),
{
    lemma_encode_utf8_concat(response_head(status, body), body@);
    lemma_decimal_round_trip(body.spec_bytes().len() as nat);
}

/// Relies on `String::push`: it appends the given character to the end of
/// the string.
#[verifier::external_body]
fn push_char(out: &mut String, c: char)
    ensures
        final(out)@ == old(out)@ + seq![c],
{
    out.push(c);
}

/// Appends the decimal numeral of `n` to `out`.
fn append_decimal(out: &mut String, n: usize)
    ensures
        final(out)@ == old(out)@ + decimal_chars(n as nat),
    decreases n,
{
    if n < 10 {
        push_char(out, (48 + n as u8) as char);
    } else {
        append_decimal(out, n / 10);
        push_char(out, (48 + (n % 10) as u8) as char);
    }
}

/// Whether `body@` contains the doctype marker.
fn body_has_doctype(body: &str) -> (r: bool)
    ensures
        r == contains_doctype(body@),
{
    let n = body.unicode_len();
    let m = "<!DOCTYPE html";
    let mn = m.unicode_len();
    proof {
        reveal_strlit("<!DOCTYPE html");
    }
    if n < mn {
        return false;
    }
    let mut i: usize = 0;
    while i <= n - mn
        invariant
            1 <= mn == doctype_marker().len() <= n == body@.len(),
            m@ == doctype_marker(),
            i <= n - mn + 1,
            forall|j: int|
                0 <= j < i ==> #[trigger] body@.subrange(j, j + doctype_marker().len() as int)
                    != doctype_marker(),
        decreases n - i,
    {
        if crate::text::range_has_prefix(body, i, n, m) {
            proof {
                assert(body@.subrange(i as int, n as int).subrange(0, mn as int) =~= body@
                    .subrange(i as int, i + mn));
            }
            return true;
        }
        proof {
            assert(body@.subrange(i as int, n as int).subrange(0, mn as int) =~= body@.subrange(
                i as int,
                i + mn,
            ));
        }
        i = i + 1;
    }
    false
}

/// Serialises one response message, exactly as [`response_text`] lays it
/// out; the caller writes the returned text to the connection, bytes of
/// characters in order.
pub fn build_response(status: u32, body: &str) -> (r: String)
    ensures
        r@ == response_text(status, body),
{
    let mut out = String::new();
    out.append("HTTP/1.1 ");
    append_decimal(&mut out, status as usize);
    out.append(" ");
    if status == 200 {
        out.append("OK");
    } else if status == 500 {
        out.append("Internal Server Error");
    } else if status == 404 {
        out.append("Not Found");
    } else {
        out.append("Bad Request");
    }
    out.append("\r\n");
    out.append("Content-Length: ");
    let bytes = body.as_bytes();
    append_decimal(&mut out, bytes.len());
    out.append("\r\n");
    out.append("Content-Type: ");
    if status == 200 && body_has_doctype(body) {
        out.append("text/html");
    } else {
        out.append("text/plain");
    }
    out.append("\r\n");
    out.append("\r\n");
    out.append(body);
    proof {
        assert(out@ =~= response_text(status, body));
    }
    out
}

} // verus!
