//! The mathematical model of RESP2: what a value is, how it is encoded, and
//! what the bytes at the front of a stream denote.
use crate::text;
use vstd::prelude::*;
use vstd::utf8::*;

verus! {

/// A RESP2 value.
pub enum Resp {
    SimpleString(Seq<char>),
    Error(Seq<char>),
    Integer(int),
    BulkString(Option<Seq<u8>>),
    Array(Option<Seq<Resp>>),
}

/// The line end of the protocol.
pub open spec fn crlf() -> Seq<u8> {
    seq![13u8, 10u8]
}

/// The encoding of a value.
pub open spec fn encoded(v: Resp) -> Seq<u8>
    decreases v,
{
    match v {
        Resp::SimpleString(s) => seq![43u8] + encode_utf8(s) + crlf(),
        Resp::Error(s) => seq![45u8] + encode_utf8(s) + crlf(),
        Resp::Integer(n) => seq![58u8] + text::decimal_int(n) + crlf(),
        Resp::BulkString(None) => seq![36u8] + text::decimal_int(-1) + crlf(),
        Resp::BulkString(Some(data)) => seq![36u8] + text::decimal(data.len()) + crlf() + data + crlf(),
        Resp::Array(None) => seq![42u8] + text::decimal_int(-1) + crlf(),
        Resp::Array(Some(items)) => seq![42u8] + text::decimal(items.len()) + crlf() + encoded_all(items),
    }
}

/// The encodings of several values, one after another.
pub open spec fn encoded_all(items: Seq<Resp>) -> Seq<u8>
    decreases items,
{
    if items.len() == 0 {
        Seq::empty()
    } else {
        encoded_all(items.drop_last()) + encoded(items.last())
    }
}

/// Why bytes are no RESP2: where a type byte, a digit or a line end was
/// expected, or a number that does not fit 64 bits or is no length.
#[derive(Debug, Clone, Copy, PartialEq, Eq, Structural)]
pub enum ErrorKind {
    Char,
    Digit,
    MapRes,
    CrLf,
}

/// The outcome of reading something from the front of a stream: a value and the
/// number of bytes that it takes, the need for more bytes, or an error at a
/// position.
pub enum Outcome<T> {
    Done { value: T, used: nat },
    Incomplete,
    Invalid { code: ErrorKind, at: nat },
}

/// A signed number and the bytes it takes. It ends at the first byte that is no
/// digit, so without such a byte more input is needed.
pub open spec fn signed_int(b: Seq<u8>) -> Outcome<int> {
    let neg = b.len() > 0 && b[0] == 45;
    let s: nat = if neg {
        1
    } else {
        0
    };
    let d = text::digit_run(b.skip(s as int));
    let v = text::decimal_value(b.subrange(s as int, (s + d) as int));
    let n = if neg {
        -(v as int)
    } else {
        v as int
    };
    if s + d == b.len() {
        Outcome::Incomplete
    } else if d == 0 {
        Outcome::Invalid { code: ErrorKind::Digit, at: s }
    } else if n < i64::MIN || n > i64::MAX {
        Outcome::Invalid { code: ErrorKind::MapRes, at: 0 }
    } else {
        Outcome::Done { value: n, used: s + d }
    }
}

/// Is there a line end at position `at`?
pub open spec fn line_end(b: Seq<u8>, at: nat) -> Outcome<()> {
    if at >= b.len() {
        Outcome::Incomplete
    } else if b[at as int] != 13 {
        Outcome::Invalid { code: ErrorKind::CrLf, at }
    } else if at + 1 >= b.len() {
        Outcome::Incomplete
    } else if b[at as int + 1] != 10 {
        Outcome::Invalid { code: ErrorKind::CrLf, at }
    } else {
        Outcome::Done { value: (), used: at + 2 }
    }
}

/// A line that holds a signed number.
pub open spec fn number_line(b: Seq<u8>) -> Outcome<int> {
    match signed_int(b) {
        Outcome::Done { value, used } => match line_end(b, used) {
            Outcome::Done { used: end, .. } => Outcome::Done { value, used: end },
            Outcome::Incomplete => Outcome::Incomplete,
            Outcome::Invalid { code, at } => Outcome::Invalid { code, at },
        },
        other => other,
    }
}

/// The position of the first line end, if there is one.
pub open spec fn find_crlf(b: Seq<u8>) -> Option<nat>
    decreases b.len(),
{
    if b.len() < 2 {
        None
    } else if b[0] == 13 && b[1] == 10 {
        Some(0)
    } else {
        match find_crlf(b.drop_first()) {
            None => None,
            Some(n) => Some(n + 1),
        }
    }
}

/// The text line after the type byte of a simple string or an error.
pub open spec fn text_frame(b: Seq<u8>) -> Outcome<Seq<char>> {
    match find_crlf(b.skip(1)) {
        None => Outcome::Incomplete,
        Some(n) => Outcome::Done { value: text::text_of(b.subrange(1, 1 + n as int)), used: n + 3 },
    }
}

/// A frame after the type byte of an integer.
pub open spec fn integer_frame(b: Seq<u8>) -> Outcome<Resp> {
    match number_line(b.skip(1)) {
        Outcome::Done { value, used } => Outcome::Done {
            value: Resp::Integer(value),
            used: used + 1,
        },
        Outcome::Incomplete => Outcome::Incomplete,
        Outcome::Invalid { code, at } => Outcome::Invalid { code, at: at + 1 },
    }
}

/// A frame after the type byte of a bulk string. No length is below -1.
pub open spec fn bulk_frame(b: Seq<u8>) -> Outcome<Resp> {
    match number_line(b.skip(1)) {
        Outcome::Done { value, used } => {
            let start = used + 1;
            let end = (start + value) as nat;
            if value == -1 {
                Outcome::Done { value: Resp::BulkString(None), used: start }
            } else if value < 0 {
                Outcome::Invalid { code: ErrorKind::MapRes, at: 1 }
            } else if end > b.len() {
                Outcome::Incomplete
            } else {
                match line_end(b, end) {
                    Outcome::Done { used: last, .. } => Outcome::Done {
                        value: Resp::BulkString(Some(b.subrange(start as int, end as int))),
                        used: last,
                    },
                    Outcome::Incomplete => Outcome::Incomplete,
                    Outcome::Invalid { code, at } => Outcome::Invalid { code, at },
                }
            }
        },
        Outcome::Incomplete => Outcome::Incomplete,
        Outcome::Invalid { code, at } => Outcome::Invalid { code, at: at + 1 },
    }
}

/// A frame after the type byte of an array. No count is below -1.
pub open spec fn array_frame(b: Seq<u8>) -> Outcome<Resp>
    decreases b.len(), 1nat, 0nat,
{
    if b.len() == 0 {
        Outcome::Incomplete
    } else {
        match number_line(b.skip(1)) {
            Outcome::Done { value, used } => {
                let start = used + 1;
                if value == -1 {
                    Outcome::Done { value: Resp::Array(None), used: start }
                } else if value < 0 {
                    Outcome::Invalid { code: ErrorKind::MapRes, at: 1 }
                } else if start > b.len() {
                    Outcome::Incomplete
                } else {
                    match frames(b.skip(start as int), value as nat) {
                        Outcome::Done { value: items, used: last } => Outcome::Done {
                            value: Resp::Array(Some(items)),
                            used: start + last,
                        },
                        Outcome::Incomplete => Outcome::Incomplete,
                        Outcome::Invalid { code, at } => Outcome::Invalid { code, at: start + at },
                    }
                }
            },
            Outcome::Incomplete => Outcome::Incomplete,
            Outcome::Invalid { code, at } => Outcome::Invalid { code, at: at + 1 },
        }
    }
}

/// The frame at the front of a stream. What no kind of frame accepts is
/// reported as the array reader sees it: for anything but an array, as an
/// unexpected type byte at the very front.
pub open spec fn frame(b: Seq<u8>) -> Outcome<Resp>
    decreases b.len(), 2nat, 0nat,
{
    let not_an_array = Outcome::Invalid { code: ErrorKind::Char, at: 0 };
    if b.len() == 0 {
        Outcome::Incomplete
    } else if b[0] == 43 {
        match text_frame(b) {
            Outcome::Done { value, used } => Outcome::Done {
                value: Resp::SimpleString(value),
                used,
            },
            Outcome::Incomplete => Outcome::Incomplete,
            Outcome::Invalid { .. } => not_an_array,
        }
    } else if b[0] == 45 {
        match text_frame(b) {
            Outcome::Done { value, used } => Outcome::Done { value: Resp::Error(value), used },
            Outcome::Incomplete => Outcome::Incomplete,
            Outcome::Invalid { .. } => not_an_array,
        }
    } else if b[0] == 58 {
        match integer_frame(b) {
            Outcome::Invalid { .. } => not_an_array,
            other => other,
        }
    } else if b[0] == 36 {
        match bulk_frame(b) {
            Outcome::Invalid { .. } => not_an_array,
            other => other,
        }
    } else if b[0] == 42 {
        array_frame(b)
    } else {
        not_an_array
    }
}

/// `n` frames, one after another.
pub open spec fn frames(b: Seq<u8>, n: nat) -> Outcome<Seq<Resp>>
    decreases b.len(), 3nat, n,
{
    if n == 0 {
        Outcome::Done { value: Seq::empty(), used: 0 }
    } else {
        match frame(b) {
            Outcome::Done { value, used } => if used > b.len() {
                Outcome::Incomplete
            } else {
                prepend(value, used, frames(b.skip(used as int), (n - 1) as nat))
            },
            Outcome::Incomplete => Outcome::Incomplete,
            Outcome::Invalid { code, at } => Outcome::Invalid { code, at },
        }
    }
}

/// The outcome for a list whose first value takes `used` bytes.
pub open spec fn prepend(first: Resp, used: nat, rest: Outcome<Seq<Resp>>) -> Outcome<Seq<Resp>> {
    match rest {
        Outcome::Done { value, used: more } => Outcome::Done {
            value: seq![first] + value,
            used: used + more,
        },
        Outcome::Incomplete => Outcome::Incomplete,
        Outcome::Invalid { code, at } => Outcome::Invalid { code, at: used + at },
    }
}

} // verus!
