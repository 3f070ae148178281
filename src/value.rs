//! The decoded value tree, its mathematical model and the decode errors.
use vstd::prelude::*;

verus! {

/// The kind and message of a simple error such as `-ERR unknown command`.
#[derive(Debug, PartialEq)]
pub struct Resp2SimpleError {
    pub kind: String,
    pub message: String,
}

/// One decoded RESP2 value.
#[derive(Debug, PartialEq)]
pub enum Resp2Type {
    SimpleString(String),
    SimpleError(Resp2SimpleError),
    Integer(i64),
    BulkString(String),
    NullBulkString,
    Array(Vec<Resp2Type>),
    NullArray,
}

/// Why an input is not a valid encoding.
#[derive(Debug, Clone, Copy, PartialEq, Eq, Structural)]
pub enum DecodeError {
    /// The input is empty, or its leading character is not one of `+ - : $ *`.
    UnrecognizedType,
    /// A text field (a simple string, or an error's message with the separator
    /// before it) was empty.
    EmptyContent,
    /// An error's kind is missing, or is not a word of ASCII uppercase letters.
    EmptyKind,
    /// The two characters expected to be CR-LF are not exactly CR then LF.
    MalformedTerminator,
    /// An integer or length field is not an optional sign and ASCII digits.
    MalformedDigits,
    /// An integer or length field does not fit in 64 signed bits.
    Overflow,
    /// A declared length or count is negative but not the null marker `-1`.
    InvalidLength,
    /// Fewer characters remain than a bulk string declares.
    TruncatedPayload,
    /// The input ends before an array's declared count of elements.
    TruncatedElements,
    /// Arrays are nested deeper than the decoder allows.
    RecursionLimitExceeded,
}

/// The mathematical model of a [`Resp2Type`].
pub enum RespValue {
    SimpleString(Seq<char>),
    SimpleError { kind: Seq<char>, message: Seq<char> },
    Integer(int),
    BulkString(Seq<char>),
    NullBulkString,
    Array(Seq<RespValue>),
    NullArray,
}

impl View for Resp2Type {
    type V = RespValue;

    open spec fn view(&self) -> RespValue
        decreases self,
    {
        match self {
            Resp2Type::SimpleString(s) => RespValue::SimpleString(s@),
            Resp2Type::SimpleError(e) => RespValue::SimpleError { kind: e.kind@, message: e.message@ },
            Resp2Type::Integer(n) => RespValue::Integer(*n as int),
            Resp2Type::BulkString(s) => RespValue::BulkString(s@),
            Resp2Type::NullBulkString => RespValue::NullBulkString,
            Resp2Type::Array(items) => RespValue::Array(
                Seq::new(
                    items.len() as nat,
                    |i: int|
                        if 0 <= i < items.len() {
                            items[i].view()
                        } else {
                            RespValue::NullArray
                        },
                ),
            ),
            Resp2Type::NullArray => RespValue::NullArray,
        }
    }
}

} // verus!
