//! Properties of the decoder, stated over [`crate::grammar::decode`] and proved.
use vstd::prelude::*;
use crate::grammar::{
    crlf_at, decode, digits_value, in_class, in_i64, run_end, signed_field, value_at, CharClass,
    MAX_NESTING_DEPTH,
};
use crate::value::{DecodeError, RespValue};

verus! {

/// The ASCII digit for `d`, for `d < 10`.
pub open spec fn digit_char(d: nat) -> char {
    (d + 48) as char
}

/// The decimal digits of `m`, most significant first, with no leading zeros.
pub open spec fn digits_of(m: nat) -> Seq<char>
    decreases m,
{
    if m < 10 {
        seq![digit_char(m)]
    } else {
        digits_of(m / 10).push(digit_char(m % 10))
    }
}

proof fn lemma_digit_char(d: nat)
    requires
        d < 10,
    ensures
        in_class(digit_char(d), CharClass::Digit),
        (digit_char(d) as nat) - ('0' as nat) == d,
{
}

proof fn lemma_digits_of(m: nat)
    ensures
        digits_of(m).len() >= 1,
        forall|i: int| 0 <= i < digits_of(m).len() ==> in_class(#[trigger] digits_of(m)[i], CharClass::Digit),
    decreases m,
{
    lemma_digit_char(m % 10);
    if m >= 10 {
        lemma_digits_of(m / 10);
    }
}

/// A run of characters of one class, from `p` to `e`, ends at `e`.
proof fn lemma_run_end(s: Seq<char>, p: int, e: int, class: CharClass)
    requires
        0 <= p <= e <= s.len(),
        forall|i: int| p <= i < e ==> in_class(#[trigger] s[i], class),
        e == s.len() || !in_class(s[e], class),
    ensures
        run_end(s, p, class) == e,
    decreases e - p,
{
    if p < e {
        lemma_run_end(s, p + 1, e, class);
    }
}

/// Zeros add nothing to a value.
proof fn lemma_zeros_value(s: Seq<char>, a: int, b: int)
    requires
        0 <= a <= b <= s.len(),
        forall|i: int| a <= i < b ==> s[i] == '0',
    ensures
        digits_value(s, a, b) == 0,
    decreases b - a,
{
    if a < b {
        lemma_zeros_value(s, a, b - 1);
    }
}

/// After digits worth nothing, the digits of `m` are worth `m`.
proof fn lemma_digits_value(s: Seq<char>, a: int, c: int, m: nat)
    requires
        0 <= a <= c,
        c + digits_of(m).len() <= s.len(),
        digits_value(s, a, c) == 0,
        s.subrange(c, c + digits_of(m).len()) == digits_of(m),
    ensures
        digits_value(s, a, c + digits_of(m).len()) == m,
    decreases m,
{
    let n = digits_of(m).len() as int;
    lemma_digit_char(m % 10);
    assert(s[c + n - 1] == s.subrange(c, c + n)[n - 1]);
    if m >= 10 {
        let head = digits_of(m / 10);
        assert(s.subrange(c, c + head.len()) == s.subrange(c, c + n).subrange(0, head.len() as int));
        assert(digits_of(m).subrange(0, head.len() as int) == head);
        lemma_digits_value(s, a, c, m / 10);
        assert(10 * (m / 10) + m % 10 == m);
    }
}

/// `k` zero digits.
pub open spec fn zeros(k: nat) -> Seq<char> {
    Seq::new(k, |i: int| '0')
}

/// The optional sign of an integer field: nothing, `+` or `-`.
pub open spec fn is_sign_mark(sign: Seq<char>) -> bool {
    sign == Seq::<char>::empty() || sign == seq!['+'] || sign == seq!['-']
}

/// The value that a field written with `sign` and magnitude `m` stands for.
pub open spec fn signed_value(sign: Seq<char>, m: nat) -> int {
    if sign == seq!['-'] {
        -m
    } else {
        m as int
    }
}

/// An integer field's text: the sign, `k` leading zeros, then the digits of `m`.
pub open spec fn int_text(sign: Seq<char>, k: nat, m: nat) -> Seq<char> {
    sign + zeros(k) + digits_of(m)
}

/// The usual decimal text of `n`: a `-` for a negative `n`, then its digits.
pub open spec fn decimal_text(n: int) -> Seq<char> {
    if n < 0 {
        seq!['-'] + digits_of((-n) as nat)
    } else {
        digits_of(n as nat)
    }
}

pub open spec fn crlf() -> Seq<char> {
    seq!['\r', '\n']
}

/// What a signed field reads when `s` holds an integer text at `p`, followed
/// at `e` by something that ends the digits.
proof fn lemma_signed_field(s: Seq<char>, p: int, sign: Seq<char>, k: nat, m: nat)
    requires
        is_sign_mark(sign),
        0 <= p,
        p + int_text(sign, k, m).len() <= s.len(),
        s.subrange(p, p + int_text(sign, k, m).len()) == int_text(sign, k, m),
        ({
            let e = p + int_text(sign, k, m).len();
            e == s.len() || s[e] == '\r' || s[e] == '\n'
        }),
    ensures
        ({
            let e = p + int_text(sign, k, m).len();
            let v = signed_value(sign, m);
            signed_field(s, p) == if !crlf_at(s, e) {
                Err::<(int, int), DecodeError>(DecodeError::MalformedTerminator)
            } else if in_i64(v) {
                Ok::<(int, int), DecodeError>((v, e + 2))
            } else {
                Err::<(int, int), DecodeError>(DecodeError::Overflow)
            }
        }),
{
    let t = int_text(sign, k, m);
    let d = p + sign.len();
    let c = d + k;
    let e = p + t.len();
    lemma_digits_of(m);
    assert forall|i: int| 0 <= i < t.len() implies s[p + i] == t[i] by {
        assert(s[p + i] == s.subrange(p, e)[i]);
    }
    assert forall|i: int| d <= i < e implies in_class(#[trigger] s[i], CharClass::Digit) by {
        assert(s[p + (i - p)] == t[i - p]);
        if i < c {
            assert(t[i - p] == zeros(k)[i - d]);
        } else {
            assert(t[i - p] == digits_of(m)[i - c]);
        }
    }
    if sign.len() == 0 {
        assert(s[p] == t[0]);
    } else {
        assert(s[p] == t[0]);
        assert(t[0] == sign[0]);
    }
    lemma_run_end(s, d, e, CharClass::Digit);
    assert forall|i: int| d <= i < c implies s[i] == '0' by {
        assert(s[p + (i - p)] == t[i - p]);
        assert(t[i - p] == zeros(k)[i - d]);
    }
    lemma_zeros_value(s, d, c);
    assert(s.subrange(c, e) == digits_of(m)) by {
        assert forall|i: int| 0 <= i < digits_of(m).len() implies s.subrange(c, e)[i] == digits_of(
            m,
        )[i] by {
            assert(s[p + (c + i - p)] == t[c + i - p]);
            assert(t[c + i - p] == digits_of(m)[i]);
        }
        assert(s.subrange(c, e) =~= digits_of(m));
    }
    lemma_digits_value(s, d, c, m);
}

/// An integer frame decodes to the value it is written with, whatever sign mark
/// and leading zeros it carries, and fails with
/// [`DecodeError::Overflow`] exactly when that value is outside the 64-bit
/// signed range.
pub proof fn lemma_integer_frame(sign: Seq<char>, k: nat, m: nat)
    requires
        is_sign_mark(sign),
    ensures
        decode(seq![':'] + int_text(sign, k, m) + crlf()) == if in_i64(signed_value(sign, m)) {
            Ok::<RespValue, DecodeError>(RespValue::Integer(signed_value(sign, m)))
        } else {
            Err::<RespValue, DecodeError>(DecodeError::Overflow)
        },
{
    let t = int_text(sign, k, m);
    let s = seq![':'] + t + crlf();
    let e = 1 + t.len() as int;
    assert(s.subrange(1, e) =~= t);
    assert(s[e] == '\r' && s[e + 1] == '\n');
    lemma_signed_field(s, 1, sign, k, m);
    assert(s[0] == ':');
}

/// Every 64-bit integer decodes from its decimal text; one outside that range
/// fails with [`DecodeError::Overflow`].
pub proof fn lemma_integer_round_trip(n: int)
    ensures
        decode(seq![':'] + decimal_text(n) + crlf()) == if in_i64(n) {
            Ok::<RespValue, DecodeError>(RespValue::Integer(n))
        } else {
            Err::<RespValue, DecodeError>(DecodeError::Overflow)
        },
{
    if n < 0 {
        assert(int_text(seq!['-'], 0, (-n) as nat) =~= decimal_text(n));
        lemma_integer_frame(seq!['-'], 0, (-n) as nat);
    } else {
        assert(int_text(Seq::<char>::empty(), 0, n as nat) =~= decimal_text(n));
        lemma_integer_frame(Seq::<char>::empty(), 0, n as nat);
    }
}

/// Leading zeros do not change what an integer frame decodes to.
pub proof fn lemma_leading_zeros(sign: Seq<char>, k: nat, m: nat)
    requires
        is_sign_mark(sign),
    ensures
        decode(seq![':'] + int_text(sign, k, m) + crlf()) == decode(
            seq![':'] + int_text(sign, 0, m) + crlf(),
        ),
{
    lemma_integer_frame(sign, k, m);
    lemma_integer_frame(sign, 0, m);
}

/// `x` starts with a lone LF, a lone CR, or a CR followed by something other
/// than LF.
pub open spec fn is_broken_terminator(x: Seq<char>) -> bool {
    x.len() > 0 && (x[0] == '\n' || (x[0] == '\r' && (x.len() == 1 || x[1] != '\n')))
}

/// A text line's content: one or more characters, none of them CR or LF.
pub open spec fn is_line_content(t: Seq<char>) -> bool {
    t.len() > 0 && forall|i: int| 0 <= i < t.len() ==> in_class(#[trigger] t[i], CharClass::LineChar)
}

/// A simple string whose text is followed by a broken terminator fails with
/// [`DecodeError::MalformedTerminator`].
pub proof fn lemma_simple_string_terminator(t: Seq<char>, x: Seq<char>)
    requires
        is_line_content(t),
        is_broken_terminator(x),
    ensures
        decode(seq!['+'] + t + x) == Err::<RespValue, DecodeError>(DecodeError::MalformedTerminator),
{
    let s = seq!['+'] + t + x;
    let e = 1 + t.len() as int;
    assert forall|i: int| 1 <= i < e implies in_class(#[trigger] s[i], CharClass::LineChar) by {
        assert(s[i] == t[i - 1]);
    }
    assert(s[e] == x[0]);
    lemma_run_end(s, 1, e, CharClass::LineChar);
    assert(!crlf_at(s, e)) by {
        if e + 1 < s.len() {
            assert(s[e + 1] == x[1]);
        }
    }
    assert(s[0] == '+');
}

/// An integer field whose digits are followed by a broken terminator fails
/// with [`DecodeError::MalformedTerminator`].
pub proof fn lemma_integer_terminator(sign: Seq<char>, k: nat, m: nat, x: Seq<char>)
    requires
        is_sign_mark(sign),
        is_broken_terminator(x),
    ensures
        decode(seq![':'] + int_text(sign, k, m) + x) == Err::<RespValue, DecodeError>(
            DecodeError::MalformedTerminator,
        ),
{
    let t = int_text(sign, k, m);
    let s = seq![':'] + t + x;
    let e = 1 + t.len() as int;
    assert(s.subrange(1, e) =~= t);
    assert(s[e] == x[0]);
    assert(!crlf_at(s, e)) by {
        if e + 1 < s.len() {
            assert(s[e + 1] == x[1]);
        }
    }
    lemma_signed_field(s, 1, sign, k, m);
    assert(s[0] == ':');
}

/// A bulk string whose payload is followed by a broken terminator fails with
/// [`DecodeError::MalformedTerminator`], whatever the payload holds.
pub proof fn lemma_bulk_string_terminator(payload: Seq<char>, x: Seq<char>)
    requires
        payload.len() <= i64::MAX,
        is_broken_terminator(x),
    ensures
        decode(seq!['$'] + digits_of(payload.len()) + crlf() + payload + x) == Err::<
            RespValue,
            DecodeError,
        >(DecodeError::MalformedTerminator),
{
    let n = payload.len();
    let t = int_text(Seq::<char>::empty(), 0, n);
    assert(t =~= digits_of(n));
    let s = seq!['$'] + digits_of(n) + crlf() + payload + x;
    let e = 1 + t.len() as int;
    assert(s.subrange(1, e) =~= t);
    assert(s[e] == '\r' && s[e + 1] == '\n');
    lemma_signed_field(s, 1, Seq::<char>::empty(), 0, n);
    let q = e + 2;
    assert(s[q + n] == x[0]);
    assert(!crlf_at(s, q + n)) by {
        if q + n + 1 < s.len() {
            assert(s[q + n + 1] == x[1]);
        }
    }
    assert(s[0] == '$');
}

/// An error kind: one or more ASCII uppercase letters.
pub open spec fn is_error_kind(kind: Seq<char>) -> bool {
    kind.len() > 0 && forall|i: int| 0 <= i < kind.len() ==> in_class(#[trigger] kind[i], CharClass::Upper)
}

/// A simple error whose first character is not an ASCII uppercase letter fails
/// with [`DecodeError::EmptyKind`]: the kind is case-sensitive.
pub proof fn lemma_error_kind_uppercase(t: Seq<char>)
    requires
        t.len() == 0 || !in_class(t[0], CharClass::Upper),
    ensures
        decode(seq!['-'] + t) == Err::<RespValue, DecodeError>(DecodeError::EmptyKind),
{
    let s = seq!['-'] + t;
    if t.len() > 0 {
        assert(s[1] == t[0]);
    }
    assert(s[0] == '-');
}

/// A simple error whose uppercase kind runs into a character that is not an
/// uppercase letter, a space, CR or LF fails with [`DecodeError::EmptyKind`]: a
/// kind in mixed case is no kind.
pub proof fn lemma_error_kind_mixed_case(kind: Seq<char>, c: char, rest: Seq<char>)
    requires
        is_error_kind(kind),
        !in_class(c, CharClass::Upper),
        !in_class(c, CharClass::Separator),
        in_class(c, CharClass::LineChar),
    ensures
        decode(seq!['-'] + kind + seq![c] + rest) == Err::<RespValue, DecodeError>(
            DecodeError::EmptyKind,
        ),
{
    let s = seq!['-'] + kind + seq![c] + rest;
    let k = 1 + kind.len() as int;
    assert forall|i: int| 1 <= i < k implies in_class(#[trigger] s[i], CharClass::Upper) by {
        assert(s[i] == kind[i - 1]);
    }
    assert(s[k] == c);
    lemma_run_end(s, 1, k, CharClass::Upper);
    assert(s[0] == '-');
}

/// A simple error whose message is followed by a broken terminator fails with
/// [`DecodeError::MalformedTerminator`].
pub proof fn lemma_error_terminator(
    kind: Seq<char>,
    separator: Seq<char>,
    message: Seq<char>,
    x: Seq<char>,
)
    requires
        is_error_kind(kind),
        separator.len() > 0,
        forall|i: int| 0 <= i < separator.len() ==> in_class(#[trigger] separator[i], CharClass::Separator),
        is_line_content(message),
        message[0] != ' ',
        is_broken_terminator(x),
    ensures
        decode(seq!['-'] + kind + separator + message + x) == Err::<RespValue, DecodeError>(
            DecodeError::MalformedTerminator,
        ),
{
    let s = seq!['-'] + kind + separator + message + x;
    let k = 1 + kind.len() as int;
    let m = k + separator.len() as int;
    let e = m + message.len() as int;
    assert forall|i: int| 1 <= i < k implies in_class(#[trigger] s[i], CharClass::Upper) by {
        assert(s[i] == kind[i - 1]);
    }
    assert(s[k] == separator[0]);
    lemma_run_end(s, 1, k, CharClass::Upper);
    assert forall|i: int| k <= i < m implies in_class(#[trigger] s[i], CharClass::Separator) by {
        assert(s[i] == separator[i - k]);
    }
    assert(s[m] == message[0]);
    assert(in_class(message[0], CharClass::LineChar));
    lemma_run_end(s, k, m, CharClass::Separator);
    assert forall|i: int| m <= i < e implies in_class(#[trigger] s[i], CharClass::LineChar) by {
        assert(s[i] == message[i - m]);
    }
    assert(s[e] == x[0]);
    lemma_run_end(s, m, e, CharClass::LineChar);
    assert(!crlf_at(s, e)) by {
        if e + 1 < s.len() {
            assert(s[e + 1] == x[1]);
        }
    }
    assert(s[0] == '-');
}

} // verus!
