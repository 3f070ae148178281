//! The executable decoder, proved to follow the spec functions of
//! [`crate::grammar`].
use vstd::prelude::*;
use crate::grammar::{
    array_at, bulk_string_at, crlf_at, decode, decode_with_depth, digits_value, elements_at,
    in_class, prepend, run_end, signed_field, simple_error_at, text_line, value_at, CharClass,
    MAX_NESTING_DEPTH,
};
use crate::value::{DecodeError, Resp2SimpleError, Resp2Type, RespValue};

verus! {

/// Relies on `String::push`: the character is appended at the end.
pub assume_specification[ String::push ](s: &mut String, ch: char)
    ensures
        final(s)@ == old(s)@.push(ch),
;

/// The models of a sequence of values.
pub open spec fn views(items: Seq<Resp2Type>) -> Seq<RespValue> {
    items.map_values(|x: Resp2Type| x@)
}

/// The model of a decode result that carries the position after the value.
pub open spec fn value_result_view(r: Result<(Resp2Type, usize), DecodeError>) -> Result<(RespValue, int), DecodeError> {
    match r {
        Ok((v, q)) => Ok((v@, q as int)),
        Err(e) => Err(e),
    }
}

/// The model of a decode result.
pub open spec fn result_view(r: Result<Resp2Type, DecodeError>) -> Result<RespValue, DecodeError> {
    match r {
        Ok(v) => Ok(v@),
        Err(e) => Err(e),
    }
}

/// Whether `c` belongs to `class`.
fn char_in_class(c: char, class: CharClass) -> (r: bool)
    ensures
        r == in_class(c, class),
{
    match class {
        CharClass::LineChar => c != '\r' && c != '\n',
        CharClass::Digit => '0' <= c && c <= '9',
        CharClass::Upper => 'A' <= c && c <= 'Z',
        CharClass::Separator => c == ' ' || c == '\n',
    }
}

/// Where the run of `class` characters that starts at `p` ends: see [`run_end`].
fn scan_run(s: &Vec<char>, p: usize, class: CharClass) -> (e: usize)
    ensures
        e == run_end(s@, p as int, class),
        p <= s.len() ==> p <= e <= s.len(),
        p > s.len() ==> e == p,
{
    let mut i = p;
    while i < s.len() && char_in_class(s[i], class)
        invariant
            p <= i,
            p <= s.len() ==> i <= s.len(),
            p > s.len() ==> i == p,
            run_end(s@, p as int, class) == run_end(s@, i as int, class),
        decreases s.len() - i,
    {
        i = i + 1;
    }
    i
}

/// Whether `s` holds CR-LF at `p`.
fn has_crlf(s: &Vec<char>, p: usize) -> (r: bool)
    ensures
        r == crlf_at(s@, p as int),
{
    p < s.len() && s.len() - p > 1 && s[p] == '\r' && s[p + 1] == '\n'
}

/// The characters `s[a..b]` as a `String`.
fn text_of(s: &Vec<char>, a: usize, b: usize) -> (r: String)
    requires
        a <= b <= s.len(),
    ensures
        r@ == s@.subrange(a as int, b as int),
{
    let mut r = String::new();
    let mut i = a;
    while i < b
        invariant
            a <= i <= b <= s.len(),
            r@ == s@.subrange(a as int, i as int),
        decreases b - i,
    {
        r.push(s[i]);
        assert(s@.subrange(a as int, i + 1) == s@.subrange(a as int, i as int).push(s@[i as int]));
        i = i + 1;
    }
    r
}

/// Reads a text line at `p`: see [`text_line`].
fn read_text_line(s: &Vec<char>, p: usize) -> (r: Result<(String, usize), DecodeError>)
    ensures
        match r {
            Ok((t, q)) => text_line(s@, p as int) == Ok::<(Seq<char>, int), DecodeError>((t@, q as int)),
            Err(e) => text_line(s@, p as int) == Err::<(Seq<char>, int), DecodeError>(e),
        },
{
    let e = scan_run(s, p, CharClass::LineChar);
    if e == p {
        Err(DecodeError::EmptyContent)
    } else if !has_crlf(s, e) {
        Err(DecodeError::MalformedTerminator)
    } else {
        Ok((text_of(s, p, e), e + 2))
    }
}

/// One more than `i64::MAX`: the largest magnitude that a negative field may have.
const MAGNITUDE_LIMIT: u128 = 9223372036854775808;

/// Reads a signed decimal field at `p`: see [`signed_field`].
fn read_signed_field(s: &Vec<char>, p: usize) -> (r: Result<(i64, usize), DecodeError>)
    ensures
        match r {
            Ok((v, q)) => signed_field(s@, p as int) == Ok::<(int, int), DecodeError>((v as int, q as int)),
            Err(e) => signed_field(s@, p as int) == Err::<(int, int), DecodeError>(e),
        },
{
    let signed = p < s.len() && (s[p] == '+' || s[p] == '-');
    let negative = signed && s[p] == '-';
    let d = if signed { p + 1 } else { p };
    let mut i = d;
    let mut acc: u128 = 0;
    let mut too_big = false;
    while i < s.len() && char_in_class(s[i], CharClass::Digit)
        invariant
            d <= i,
            d <= s.len() ==> i <= s.len(),
            d > s.len() ==> i == d,
            run_end(s@, d as int, CharClass::Digit) == run_end(s@, i as int, CharClass::Digit),
            too_big ==> digits_value(s@, d as int, i as int) > MAGNITUDE_LIMIT,
            !too_big ==> acc == digits_value(s@, d as int, i as int) && acc <= MAGNITUDE_LIMIT,
        decreases s.len() - i,
    {
        let digit = ((s[i] as u32) - ('0' as u32)) as u128;
        if !too_big {
            let next = acc * 10 + digit;
            if next > MAGNITUDE_LIMIT {
                too_big = true;
            } else {
                acc = next;
            }
        }
        i = i + 1;
    }
    let e = i;
    if e == d {
        Err(DecodeError::MalformedDigits)
    } else if e < s.len() && s[e] != '\r' && s[e] != '\n' {
        Err(DecodeError::MalformedDigits)
    } else if !has_crlf(s, e) {
        Err(DecodeError::MalformedTerminator)
    } else if too_big {
        Err(DecodeError::Overflow)
    } else if negative {
        if acc == MAGNITUDE_LIMIT {
            Ok((i64::MIN, e + 2))
        } else {
            Ok((-(acc as i64), e + 2))
        }
    } else if acc == MAGNITUDE_LIMIT {
        Err(DecodeError::Overflow)
    } else {
        Ok((acc as i64, e + 2))
    }
}

/// Reads the body of a simple error at `p`: see [`crate::grammar::simple_error_at`].
fn read_simple_error(s: &Vec<char>, p: usize) -> (r: Result<(Resp2Type, usize), DecodeError>)
    ensures
        value_result_view(r) == simple_error_at(s@, p as int),
{
    let k = scan_run(s, p, CharClass::Upper);
    let m = scan_run(s, k, CharClass::Separator);
    if k == p {
        Err(DecodeError::EmptyKind)
    } else if m == k && k < s.len() && s[k] != '\r' && s[k] != '\n' {
        Err(DecodeError::EmptyKind)
    } else if m == k {
        Err(DecodeError::EmptyContent)
    } else {
        match read_text_line(s, m) {
            Ok((message, q)) => {
                let kind = text_of(s, p, k);
                Ok((Resp2Type::SimpleError(Resp2SimpleError { kind, message }), q))
            },
            Err(e) => Err(e),
        }
    }
}

/// Reads the body of a bulk string at `p`: see [`crate::grammar::bulk_string_at`].
fn read_bulk_string(s: &Vec<char>, p: usize) -> (r: Result<(Resp2Type, usize), DecodeError>)
    ensures
        value_result_view(r) == bulk_string_at(s@, p as int),
{
    match read_signed_field(s, p) {
        Err(e) => Err(e),
        Ok((n, q)) => {
            if n == -1 {
                Ok((Resp2Type::NullBulkString, q))
            } else if n < 0 {
                Err(DecodeError::InvalidLength)
            } else if n as u128 > (s.len() - q) as u128 {
                Err(DecodeError::TruncatedPayload)
            } else {
                let end = q + n as usize;
                if !has_crlf(s, end) {
                    Err(DecodeError::MalformedTerminator)
                } else {
                    Ok((Resp2Type::BulkString(text_of(s, q, end)), end + 2))
                }
            }
        },
    }
}

/// Reads one value at `p`: see [`value_at`].
fn read_value(s: &Vec<char>, p: usize, depth: usize) -> (r: Result<(Resp2Type, usize), DecodeError>)
    ensures
        value_result_view(r) == value_at(s@, p as int, depth as nat),
    decreases depth, 1nat,
{
    if p >= s.len() {
        return Err(DecodeError::UnrecognizedType);
    }
    let tag = s[p];
    if tag == '+' {
        match read_text_line(s, p + 1) {
            Ok((t, q)) => Ok((Resp2Type::SimpleString(t), q)),
            Err(e) => Err(e),
        }
    } else if tag == '-' {
        read_simple_error(s, p + 1)
    } else if tag == ':' {
        match read_signed_field(s, p + 1) {
            Ok((v, q)) => Ok((Resp2Type::Integer(v), q)),
            Err(e) => Err(e),
        }
    } else if tag == '$' {
        read_bulk_string(s, p + 1)
    } else if tag == '*' {
        read_array(s, p + 1, depth)
    } else {
        Err(DecodeError::UnrecognizedType)
    }
}

proof fn lemma_prepend_twice(
    a: Seq<RespValue>,
    b: Seq<RespValue>,
    r: Result<(Seq<RespValue>, int), DecodeError>,
)
    ensures
        prepend(a, prepend(b, r)) == prepend(a + b, r),
{
    if let Ok((items, q)) = r {
        assert(a + (b + items) == (a + b) + items);
    }
}

/// Reads the body of an array at `p`: see [`array_at`].
fn read_array(s: &Vec<char>, p: usize, depth: usize) -> (r: Result<(Resp2Type, usize), DecodeError>)
    ensures
        value_result_view(r) == array_at(s@, p as int, depth as nat),
    decreases depth, 0nat,
{
    if depth == 0 {
        return Err(DecodeError::RecursionLimitExceeded);
    }
    let (n, q) = match read_signed_field(s, p) {
        Err(e) => return Err(e),
        Ok(field) => field,
    };
    if n == -1 {
        return Ok((Resp2Type::NullArray, q));
    }
    if n < 0 {
        return Err(DecodeError::InvalidLength);
    }
    let ghost inner = (depth - 1) as nat;
    let mut items: Vec<Resp2Type> = Vec::new();
    let mut pos = q;
    let mut i: i64 = 0;
    while i < n
        invariant
            0 <= i <= n,
            depth > 0,
            signed_field(s@, p as int) == Ok::<(int, int), DecodeError>((n as int, q as int)),
            inner == depth - 1,
            elements_at(s@, q as int, n as nat, inner) == prepend(
                views(items@),
                elements_at(s@, pos as int, (n - i) as nat, inner),
            ),
        decreases n - i,
    {
        if pos >= s.len() {
            assert(elements_at(s@, pos as int, (n - i) as nat, inner) == Err::<
                (Seq<RespValue>, int),
                DecodeError,
            >(DecodeError::TruncatedElements));
            return Err(DecodeError::TruncatedElements);
        }
        match read_value(s, pos, depth - 1) {
            Err(e) => {
                assert(elements_at(s@, pos as int, (n - i) as nat, inner) == Err::<
                    (Seq<RespValue>, int),
                    DecodeError,
                >(e));
                return Err(e);
            },
            Ok((v, next)) => {
                proof {
                    lemma_prepend_twice(
                        views(items@),
                        seq![v@],
                        elements_at(s@, next as int, (n - i - 1) as nat, inner),
                    );
                }
                let ghost before = items@;
                items.push(v);
                assert(views(items@) == views(before) + seq![v@]);
                pos = next;
                i = i + 1;
            },
        }
    }
    let r = Resp2Type::Array(items);
    assert(r@ == RespValue::Array(views(items@))) by {
        assert(r@->Array_0 =~= views(items@));
    }
    Ok((r, pos))
}

/// The characters of `input`, in order.
fn chars_of(input: &str) -> (r: Vec<char>)
    ensures
        r@ == input@,
{
    let mut r: Vec<char> = Vec::new();
    for c in it: input.chars()
        invariant
            r@ == it.seq().subrange(0, it.index() as int),
    {
        r.push(c);
    }
    r
}

/// The RESP2 decoder.
pub struct Resp2Codec;

impl Resp2Codec {
    /// Decodes the value at the start of `input`. Characters after the value's
    /// final terminator are ignored. Arrays may nest [`MAX_NESTING_DEPTH`] deep.
    pub fn parse(input: &str) -> (r: Result<Resp2Type, DecodeError>)
        ensures
            result_view(r) == decode(input@),
    {
        Self::parse_with_depth(input, MAX_NESTING_DEPTH)
    }

    /// Decodes the value at the start of `input`, letting arrays nest at most
    /// `max_depth` deep; a deeper array fails with
    /// [`DecodeError::RecursionLimitExceeded`].
    pub fn parse_with_depth(input: &str, max_depth: usize) -> (r: Result<Resp2Type, DecodeError>)
        ensures
            result_view(r) == decode_with_depth(input@, max_depth as nat),
    {
        let s = chars_of(input);
        match read_value(&s, 0, max_depth) {
            Ok((v, _)) => Ok(v),
            Err(e) => Err(e),
        }
    }

    /// Decodes the value at the start of `input` and gives with it the number
    /// of characters that its encoding takes, so that a caller can find where
    /// the next value begins.
    pub fn parse_frame(input: &str) -> (r: Result<(Resp2Type, usize), DecodeError>)
        ensures
            value_result_view(r) == value_at(input@, 0, MAX_NESTING_DEPTH as nat),
    {
        let s = chars_of(input);
        read_value(&s, 0, MAX_NESTING_DEPTH)
    }
}

} // verus!
