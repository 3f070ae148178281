//! The RESP2 grammar as spec functions over the input's characters.
//!
//! Each function reads the input `s` from position `p` and gives either the
//! decoded part together with the position just past it, or the error that the
//! first violated rule calls for.
use vstd::prelude::*;
use crate::value::{DecodeError, RespValue};

verus! {

/// How many levels of arrays [`crate::decoder::Resp2Codec::parse`] lets nest.
pub const MAX_NESTING_DEPTH: usize = 256;

/// The classes of characters that the grammar reads in runs.
#[derive(Clone, Copy)]
pub enum CharClass {
    /// Any character but CR and LF.
    LineChar,
    /// An ASCII decimal digit.
    Digit,
    /// An ASCII uppercase letter.
    Upper,
    /// A space or a line feed: what may stand between an error's kind and message.
    Separator,
}

pub open spec fn is_line_break(c: char) -> bool {
    c == '\r' || c == '\n'
}

pub open spec fn in_class(c: char, class: CharClass) -> bool {
    match class {
        CharClass::LineChar => !is_line_break(c),
        CharClass::Digit => '0' <= c && c <= '9',
        CharClass::Upper => 'A' <= c && c <= 'Z',
        CharClass::Separator => c == ' ' || c == '\n',
    }
}

/// The end of the run of characters of `class` that starts at `p`: the first
/// position at or after `p` that holds another character, or the end of `s`.
pub open spec fn run_end(s: Seq<char>, p: int, class: CharClass) -> int
    decreases s.len() - p,
{
    if p < 0 || p >= s.len() || !in_class(s[p], class) {
        p
    } else {
        run_end(s, p + 1, class)
    }
}

/// `s` holds CR then LF at `p`.
pub open spec fn crlf_at(s: Seq<char>, p: int) -> bool {
    0 <= p && p + 1 < s.len() && s[p] == '\r' && s[p + 1] == '\n'
}

/// The base-10 value of the digits in `s[a..b]`.
pub open spec fn digits_value(s: Seq<char>, a: int, b: int) -> nat
    decreases b - a,
{
    if b <= a {
        0
    } else {
        10 * digits_value(s, a, b - 1) + ((s[b - 1] as nat) - ('0' as nat)) as nat
    }
}

pub open spec fn in_i64(v: int) -> bool {
    i64::MIN <= v && v <= i64::MAX
}

/// A line of text: one or more characters other than CR and LF, then CR-LF.
/// Gives the text and the position after the terminator.
pub open spec fn text_line(s: Seq<char>, p: int) -> Result<(Seq<char>, int), DecodeError> {
    let e = run_end(s, p, CharClass::LineChar);
    if e == p {
        Err(DecodeError::EmptyContent)
    } else if !crlf_at(s, e) {
        Err(DecodeError::MalformedTerminator)
    } else {
        Ok((s.subrange(p, e), e + 2))
    }
}

/// A signed decimal field: an optional `+` or `-`, one or more ASCII digits,
/// then CR-LF, with a value in the 64-bit signed range.
pub open spec fn signed_field(s: Seq<char>, p: int) -> Result<(int, int), DecodeError> {
    let signed = 0 <= p < s.len() && (s[p] == '+' || s[p] == '-');
    let d = if signed { p + 1 } else { p };
    let e = run_end(s, d, CharClass::Digit);
    if e == d {
        Err(DecodeError::MalformedDigits)
    } else if e < s.len() && !is_line_break(s[e]) {
        Err(DecodeError::MalformedDigits)
    } else if !crlf_at(s, e) {
        Err(DecodeError::MalformedTerminator)
    } else {
        let m = digits_value(s, d, e) as int;
        let v = if signed && s[p] == '-' { -m } else { m };
        if in_i64(v) {
            Ok((v, e + 2))
        } else {
            Err(DecodeError::Overflow)
        }
    }
}

/// The body of a simple error (after its `-` tag): the kind, a separator of
/// spaces and line feeds, then the message as a text line. A kind that runs
/// into any other character than the separator, CR or LF (a lowercase letter,
/// say) is no kind; one that runs into CR, LF or the end has no message.
pub open spec fn simple_error_at(s: Seq<char>, p: int) -> Result<(RespValue, int), DecodeError> {
    let k = run_end(s, p, CharClass::Upper);
    let m = run_end(s, k, CharClass::Separator);
    if k == p {
        Err(DecodeError::EmptyKind)
    } else if m == k && k < s.len() && !is_line_break(s[k]) {
        Err(DecodeError::EmptyKind)
    } else if m == k {
        Err(DecodeError::EmptyContent)
    } else {
        match text_line(s, m) {
            Ok((message, q)) => Ok((RespValue::SimpleError { kind: s.subrange(p, k), message }, q)),
            Err(e) => Err(e),
        }
    }
}

/// The body of a bulk string (after its `$` tag): a length, then that many
/// characters taken verbatim, then CR-LF; the length `-1` is the null bulk string.
pub open spec fn bulk_string_at(s: Seq<char>, p: int) -> Result<(RespValue, int), DecodeError> {
    match signed_field(s, p) {
        Err(e) => Err(e),
        Ok((n, q)) => {
            if n == -1 {
                Ok((RespValue::NullBulkString, q))
            } else if n < 0 {
                Err(DecodeError::InvalidLength)
            } else if q + n > s.len() {
                Err(DecodeError::TruncatedPayload)
            } else if !crlf_at(s, q + n) {
                Err(DecodeError::MalformedTerminator)
            } else {
                Ok((RespValue::BulkString(s.subrange(q, q + n)), q + n + 2))
            }
        },
    }
}

/// One value, starting at its tag character, with at most `depth` levels of
/// arrays.
pub open spec fn value_at(s: Seq<char>, p: int, depth: nat) -> Result<(RespValue, int), DecodeError>
    decreases depth, 1nat, 0nat,
{
    if p < 0 || p >= s.len() {
        Err(DecodeError::UnrecognizedType)
    } else if s[p] == '+' {
        match text_line(s, p + 1) {
            Ok((t, q)) => Ok((RespValue::SimpleString(t), q)),
            Err(e) => Err(e),
        }
    } else if s[p] == '-' {
        simple_error_at(s, p + 1)
    } else if s[p] == ':' {
        match signed_field(s, p + 1) {
            Ok((v, q)) => Ok((RespValue::Integer(v), q)),
            Err(e) => Err(e),
        }
    } else if s[p] == '$' {
        bulk_string_at(s, p + 1)
    } else if s[p] == '*' {
        array_at(s, p + 1, depth)
    } else {
        Err(DecodeError::UnrecognizedType)
    }
}

/// The body of an array (after its `*` tag): a count, then that many values;
/// the count `-1` is the null array. The array itself takes one level of `depth`.
pub open spec fn array_at(s: Seq<char>, p: int, depth: nat) -> Result<(RespValue, int), DecodeError>
    decreases depth, 0nat, 0nat,
{
    if depth == 0 {
        Err(DecodeError::RecursionLimitExceeded)
    } else {
        match signed_field(s, p) {
            Err(e) => Err(e),
            Ok((n, q)) => {
                if n == -1 {
                    Ok((RespValue::NullArray, q))
                } else if n < 0 {
                    Err(DecodeError::InvalidLength)
                } else {
                    match elements_at(s, q, n as nat, (depth - 1) as nat) {
                        Ok((items, r)) => Ok((RespValue::Array(items), r)),
                        Err(e) => Err(e),
                    }
                }
            },
        }
    }
}

/// `n` values in a row, each with at most `depth` levels of arrays.
pub open spec fn elements_at(s: Seq<char>, p: int, n: nat, depth: nat) -> Result<
    (Seq<RespValue>, int),
    DecodeError,
>
    decreases depth, 2nat, n,
{
    if n == 0 {
        Ok((Seq::empty(), p))
    } else if p >= s.len() {
        Err(DecodeError::TruncatedElements)
    } else {
        match value_at(s, p, depth) {
            Err(e) => Err(e),
            Ok((v, q)) => prepend(seq![v], elements_at(s, q, (n - 1) as nat, depth)),
        }
    }
}

/// `r` with `front` put before the values it holds.
pub open spec fn prepend(front: Seq<RespValue>, r: Result<(Seq<RespValue>, int), DecodeError>) -> Result<
    (Seq<RespValue>, int),
    DecodeError,
> {
    match r {
        Ok((items, q)) => Ok((front + items, q)),
        Err(e) => Err(e),
    }
}

/// A whole decode: the value at the start of `s`, with arrays nested at most
/// `depth` deep. What follows the value is ignored.
pub open spec fn decode_with_depth(s: Seq<char>, depth: nat) -> Result<RespValue, DecodeError> {
    match value_at(s, 0, depth) {
        Ok((v, _)) => Ok(v),
        Err(e) => Err(e),
    }
}

/// What [`crate::decoder::Resp2Codec::parse`] gives for the text `s`.
pub open spec fn decode(s: Seq<char>) -> Result<RespValue, DecodeError> {
    decode_with_depth(s, MAX_NESTING_DEPTH as nat)
}

} // verus!
