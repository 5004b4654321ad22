//! Extraction of the single `command` field from a JSON-shaped request body.
//!
//! The grammar is deliberately restricted: after trimming, the body must be a
//! single brace-wrapped object whose interior begins with the literal key
//! `"command":`. The value is everything after the first colon of the
//! interior, trimmed; a value wrapped in double quotes is returned without
//! them, verbatim, with no escape handling. Nested objects, arrays and
//! escaped quotes are not supported and yield no command or a take-it-as-is
//! token, never a failure of the process.

use vstd::prelude::*;

use crate::text::{
    find_char, has_prefix, is_space, lemma_find_char_at, lemma_trim_id, lemma_trim_start_skip,
    range_find_char, range_has_prefix, trim, trim_bounds, trim_end, trim_start,
};

verus! {

/// The key that the interior of the object must begin with.
pub open spec fn command_key() -> Seq<char> {
    "\"command\":"@
}

/// What [`extract_command`] returns on a body: `Some` of the command text
/// exactly when the trimmed body is `{` ... `}` around an interior that, once
/// trimmed, begins with `"command":`; the command is the trimmed text after
/// the interior's first colon, stripped of one pair of wrapping double
/// quotes if it has one.
pub open spec fn extract_command_spec(body: Seq<char>) -> Option<Seq<char>> {
    let t = trim(body);
    if t.len() == 0 || t[0] != '{' || t.last() != '}' {
        None
    } else {
        let inner = t.subrange(1, t.len() - 1);
        if !has_prefix(trim(inner), command_key()) {
            None
        } else {
            let f = find_char(inner, ':');
            if f < 0 {
                None
            } else {
                let value = trim(inner.subrange(f + 1, inner.len() as int));
                if value.len() >= 2 && value[0] == '"' && value.last() == '"' {
                    Some(value.subrange(1, value.len() - 1))
                } else {
                    Some(value)
                }
            }
        }
    }
}

/// Extracts the `command` field from a JSON-shaped body, as
/// [`extract_command_spec`] reads it.
pub fn extract_command(body: &str) -> (r: Option<String>)
    ensures
        match r {
            Some(cmd) => extract_command_spec(body@) == Some(cmd@),
            None => extract_command_spec(body@) is None,
        },
{
    let n = body.unicode_len();
    let (lo, hi) = trim_bounds(body, 0, n);
    let ghost t = trim(body@);
    proof {
        assert(body@.subrange(0, n as int) =~= body@);
        assert(t == body@.subrange(lo as int, hi as int));
    }
    if lo == hi || body.get_char(lo) != '{' || body.get_char(hi - 1) != '}' {
        return None;
    }
    let ghost inner = t.subrange(1, t.len() - 1);
    proof {
        assert(inner =~= body@.subrange(lo + 1, hi - 1));
    }
    if !range_has_prefix_trimmed(body, lo + 1, hi - 1, "\"command\":") {
        return None;
    }
    let colon = match range_find_char(body, lo + 1, hi - 1, ':') {
        Some(i) => i,
        None => {
            return None;
        },
    };
    let (vlo, vhi) = trim_bounds(body, colon + 1, hi - 1);
    let ghost value = trim(inner.subrange(find_char(inner, ':') + 1, inner.len() as int));
    proof {
        assert(inner.subrange(colon - lo, inner.len() as int) =~= body@.subrange(
            colon + 1,
            hi - 1,
        ));
        assert(value == body@.subrange(vlo as int, vhi as int));
    }
    if vhi - vlo >= 2 && body.get_char(vlo) == '"' && body.get_char(vhi - 1) == '"' {
        let stripped = body.substring_char(vlo + 1, vhi - 1);
        proof {
            assert(stripped@ =~= value.subrange(1, value.len() - 1));
        }
        Some(stripped.to_owned())
    } else {
        let token = body.substring_char(vlo, vhi);
        Some(token.to_owned())
    }
}

/// The canonical body shape for a command text: `{"command": "` x `"}`.
pub open spec fn wrap_command(x: Seq<char>) -> Seq<char> {
    "{\"command\": \""@ + x + "\"}"@
}

/// Round trip: wrapping a command text in the canonical body shape
/// `{"command": "X"}` and extracting gives back exactly X, for any X free
/// of quote and brace characters.
pub proof fn lemma_extract_round_trip(x: Seq<char>)
    requires
        forall|i: int| 0 <= i < x.len() ==> x[i] != '"' && x[i] != '{' && x[i] != '}',
    ensures
        extract_command_spec(wrap_command(x)) == Some(x),
{
    reveal_strlit("{\"command\": \"");
    reveal_strlit("\"}");
    reveal_strlit("\"command\":");
    let w = wrap_command(x);
    let lit1 = "{\"command\": \""@;
    let lit2 = "\"}"@;
    assert(w.len() == 15 + x.len());
    assert(w[0] == '{');
    assert(w.last() == '}');
    lemma_trim_id(w);
    let inner = w.subrange(1, w.len() - 1);
    assert(inner.len() == 13 + x.len());
    assert(forall|j: int| 0 <= j < 12 ==> inner[j] == lit1[j + 1]);
    assert(inner.last() == '"');
    lemma_trim_id(inner);
    assert(inner.subrange(0, 10) =~= command_key());
    assert(has_prefix(inner, command_key()));
    lemma_find_char_at(inner, ':', 9);
    let vp = inner.subrange(10, inner.len() as int);
    assert(vp.len() == 3 + x.len());
    assert(vp[0] == ' ' && is_space(' '));
    let quoted = vp.subrange(1, vp.len() as int);
    lemma_trim_start_skip(vp, 1);
    assert(quoted[0] == '"');
    assert(trim_start(vp) == quoted);
    assert(quoted.last() == '"');
    assert(trim_end(quoted) == quoted);
    assert(quoted.len() >= 2);
    assert(quoted.subrange(1, quoted.len() - 1) =~= x);
}

/// Whether the trimmed character span `s@.subrange(lo, hi)` begins with `p@`.
fn range_has_prefix_trimmed(s: &str, lo: usize, hi: usize, p: &str) -> (r: bool)
    requires
        lo <= hi <= s@.len(),
    ensures
        r == has_prefix(trim(s@.subrange(lo as int, hi as int)), p@),
{
    let (a, b) = trim_bounds(s, lo, hi);
    range_has_prefix(s, a, b, p)
}

} // verus!
