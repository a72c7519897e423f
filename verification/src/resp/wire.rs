//! The bytes on the wire: what the encoding of each kind of value looks like, and
//! what bytes of each shape are read as.
use crate::resp::debug;
use crate::resp::laws;
use crate::resp::laws::Event;
use crate::resp::model;
use crate::resp::model::{ErrorKind, Outcome, Resp};
use crate::resp::parser;
use crate::resp::parser::RespValue;
use crate::text;
use vstd::prelude::*;
use vstd::utf8::*;

verus! {

/// What each kind of value is written as.
pub proof fn law_written_values(s: Seq<char>, n: int, data: Seq<u8>, items: Seq<Resp>)
    ensures
        model::encoded(Resp::SimpleString(s)) == seq![43u8] + encode_utf8(s) + seq![13u8, 10u8],
        model::encoded(Resp::Error(s)) == seq![45u8] + encode_utf8(s) + seq![13u8, 10u8],
        model::encoded(Resp::Integer(n)) == seq![58u8] + text::decimal_int(n) + seq![13u8, 10u8],
        model::encoded(Resp::BulkString(None)) == seq![36u8, 45u8, 49u8, 13u8, 10u8],
        model::encoded(Resp::BulkString(Some(data))) == seq![36u8] + text::decimal(data.len())
            + seq![13u8, 10u8] + data + seq![13u8, 10u8],
        model::encoded(Resp::Array(None)) == seq![42u8, 45u8, 49u8, 13u8, 10u8],
        model::encoded(Resp::Array(Some(items))) == seq![42u8] + text::decimal(items.len())
            + seq![13u8, 10u8] + model::encoded_all(items),
{
    assert(text::decimal(1) =~= seq![49u8]);
    assert(model::encoded(Resp::BulkString(None)) =~= seq![36u8, 45u8, 49u8, 13u8, 10u8]);
    assert(model::encoded(Resp::Array(None)) =~= seq![42u8, 45u8, 49u8, 13u8, 10u8]);
}

/// Several values are written one after another.
pub proof fn law_written_lists(a: Seq<Resp>, b: Seq<Resp>, v: Resp)
    ensures
        model::encoded_all(Seq::empty()) == Seq::<u8>::empty(),
        model::encoded_all(seq![v]) == model::encoded(v),
        model::encoded_all(a + b) == model::encoded_all(a) + model::encoded_all(b),
    decreases b.len(),
{
    assert(seq![v].drop_last() =~= Seq::<Resp>::empty());
    assert(model::encoded_all(seq![v].drop_last()) =~= Seq::<u8>::empty());
    assert(model::encoded_all(seq![v]) =~= model::encoded(v));
    if b.len() == 0 {
        assert(a + b =~= a);
        assert(model::encoded_all(a) + model::encoded_all(b) =~= model::encoded_all(a));
    } else {
        law_written_lists(a, b.drop_last(), v);
        assert((a + b).drop_last() =~= a + b.drop_last());
        assert(model::encoded_all(a + b) =~= model::encoded_all(a) + model::encoded_all(b));
    }
}

/// Are these bytes digits, and nothing else?
pub open spec fn digits(d: Seq<u8>) -> bool {
    forall|i: int| 0 <= i < d.len() ==> 48 <= #[trigger] d[i] <= 57
}

/// Do these bytes write a number: digits, with a minus sign before them or not?
pub open spec fn writes_number(line: Seq<u8>, n: int) -> bool {
    ||| line.len() > 0 && digits(line) && n == text::decimal_value(line)
    ||| line.len() > 1 && line[0] == 45 && digits(line.drop_first()) && n == -text::decimal_value(
        line.drop_first(),
    )
}

/// Does the number fit 64 bits?
pub open spec fn fits(n: int) -> bool {
    -9223372036854775808 <= n <= 9223372036854775807
}

/// No line end occurs in the bytes.
pub open spec fn one_line(line: Seq<u8>) -> bool {
    forall|i: int| 0 <= i < line.len() - 1 ==> !(#[trigger] line[i] == 13 && line[i + 1] == 10)
}

/// A number that ends before some byte.
proof fn lemma_number(line: Seq<u8>, n: int, rest: Seq<u8>)
    requires
        writes_number(line, n),
        rest.len() > 0,
        !(48 <= rest[0] <= 57),
    ensures
        model::signed_int(line + rest) == if fits(n) {
            Outcome::Done { value: n, used: line.len() }
        } else {
            Outcome::Invalid { code: ErrorKind::MapRes, at: 0 }
        },
{
    let b = line + rest;
    if line.len() > 0 && digits(line) && n == text::decimal_value(line) {
        assert(48 <= line[0] <= 57);
        assert(b[0] == line[0]);
        assert(b.skip(0) =~= b);
        assert forall|i: int| 0 <= i < line.len() implies text::is_digit(#[trigger] b[i]) by {
            assert(b[i] == line[i]);
        }
        text::lemma_digit_run_is(b, line.len());
        assert(b.subrange(0, line.len() as int) =~= line);
    } else {
        let d = line.drop_first();
        let c = b.skip(1);
        assert(c =~= d + rest);
        assert forall|i: int| 0 <= i < d.len() implies text::is_digit(#[trigger] c[i]) by {
            assert(c[i] == d[i]);
        }
        text::lemma_digit_run_is(c, d.len());
        assert(b.subrange(1, 1 + d.len() as int) =~= d);
    }
}

/// A number on a line of its own.
proof fn lemma_number_line(line: Seq<u8>, n: int, rest: Seq<u8>)
    requires
        writes_number(line, n),
    ensures
        model::number_line(line + seq![13u8, 10u8] + rest) == if fits(n) {
            Outcome::Done { value: n, used: line.len() + 2 }
        } else {
            Outcome::Invalid { code: ErrorKind::MapRes, at: 0 }
        },
{
    let end = seq![13u8, 10u8] + rest;
    lemma_number(line, n, end);
    let b = line + seq![13u8, 10u8] + rest;
    assert(b =~= line + end);
    assert(b[line.len() as int] == 13);
    assert(b[line.len() as int + 1] == 10);
}

/// A line of text behind `+` or `-` is read as a simple string or an error: up to
/// the first line end, whatever follows.
pub proof fn law_read_text(line: Seq<u8>, rest: Seq<u8>)
    requires
        one_line(line),
    ensures
        model::frame(seq![43u8] + line + seq![13u8, 10u8] + rest) == (Outcome::Done {
            value: Resp::SimpleString(text::text_of(line)),
            used: line.len() + 3,
        }),
        model::frame(seq![45u8] + line + seq![13u8, 10u8] + rest) == (Outcome::Done {
            value: Resp::Error(text::text_of(line)),
            used: line.len() + 3,
        }),
{
    let tail = line + seq![13u8, 10u8] + rest;
    assert forall|i: int| 0 <= i < line.len() implies !(#[trigger] tail[i] == 13 && tail[i + 1]
        == 10) by {
        assert(tail[i] == line[i]);
        if i + 1 < line.len() {
            assert(tail[i + 1] == line[i + 1]);
        }
    }
    laws::lemma_find_crlf_is(tail, line.len());
    let b = seq![43u8] + line + seq![13u8, 10u8] + rest;
    let c = seq![45u8] + line + seq![13u8, 10u8] + rest;
    assert(b.skip(1) =~= tail);
    assert(c.skip(1) =~= tail);
    assert(b.subrange(1, 1 + line.len() as int) =~= line);
    assert(c.subrange(1, 1 + line.len() as int) =~= line);
}

/// As long as a line of text has no end, more bytes are needed.
pub proof fn law_text_needs_an_end(line: Seq<u8>)
    requires
        one_line(line),
    ensures
        model::frame(seq![43u8] + line) is Incomplete,
        model::frame(seq![45u8] + line) is Incomplete,
{
    lemma_no_end(line);
    assert((seq![43u8] + line).skip(1) =~= line);
    assert((seq![45u8] + line).skip(1) =~= line);
}

/// There is no line end on a single line.
pub proof fn lemma_no_end(line: Seq<u8>)
    requires
        one_line(line),
    ensures
        model::find_crlf(line) is None,
    decreases line.len(),
{
    if line.len() >= 2 {
        let rest = line.drop_first();
        assert forall|i: int| 0 <= i < rest.len() - 1 implies !(#[trigger] rest[i] == 13 && rest[i
            + 1] == 10) by {
            assert(rest[i] == line[i + 1] && rest[i + 1] == line[i + 2]);
        }
        assert(!(line[0] == 13 && line[0int + 1] == 10));
        lemma_no_end(rest);
    }
}

/// A number on a line behind `:` is read as an integer, if it fits 64 bits.
pub proof fn law_read_integer(line: Seq<u8>, n: int, rest: Seq<u8>)
    requires
        writes_number(line, n),
    ensures
        model::frame(seq![58u8] + line + seq![13u8, 10u8] + rest) == if fits(n) {
            Outcome::Done { value: Resp::Integer(n), used: line.len() + 3 }
        } else {
            Outcome::Invalid { code: ErrorKind::Char, at: 0 }
        },
{
    let b = seq![58u8] + line + seq![13u8, 10u8] + rest;
    lemma_number_line(line, n, rest);
    assert(b.skip(1) =~= line + seq![13u8, 10u8] + rest);
    assert(b[0] == 58);
}

/// As many bytes as the line behind `$` says are read as a bulk string, if a line
/// end follows them; other bytes in its place are an error.
pub proof fn law_read_bulk(line: Seq<u8>, data: Seq<u8>, end: Seq<u8>, rest: Seq<u8>)
    requires
        writes_number(line, data.len() as int),
        fits(data.len() as int),
        end.len() == 2,
    ensures
        model::frame(seq![36u8] + line + seq![13u8, 10u8] + data + end + rest) == if end == seq![
            13u8,
            10u8,
        ] {
            Outcome::Done {
                value: Resp::BulkString(Some(data)),
                used: line.len() + data.len() + 5,
            }
        } else {
            Outcome::Invalid { code: ErrorKind::Char, at: 0 }
        },
{
    let b = seq![36u8] + line + seq![13u8, 10u8] + data + end + rest;
    let start = line.len() + 3;
    lemma_number_line(line, data.len() as int, data + end + rest);
    assert(b.skip(1) =~= line + seq![13u8, 10u8] + (data + end + rest));
    assert(b.subrange(start as int, (start + data.len()) as int) =~= data);
    assert(b[0] == 36);
    assert(b[(start + data.len()) as int] == end[0]);
    assert(b[(start + data.len()) as int + 1] == end[1]);
    if end[0] == 13 && end[1] == 10 {
        assert(end =~= seq![13u8, 10u8]);
    }
}

/// As long as the data of a bulk string and its line end have not arrived, more
/// bytes are needed.
pub proof fn law_bulk_needs_its_data(line: Seq<u8>, n: int, part: Seq<u8>)
    requires
        writes_number(line, n),
        0 <= n,
        fits(n),
        n >= part.len() || (n == part.len() - 1 && part.last() == 13),
    ensures
        model::frame(seq![36u8] + line + seq![13u8, 10u8] + part) is Incomplete,
{
    let b = seq![36u8] + line + seq![13u8, 10u8] + part;
    lemma_number_line(line, n, part);
    assert(b.skip(1) =~= line + seq![13u8, 10u8] + part);
    assert(b[0] == 36);
    if n == part.len() - 1 {
        assert(b[(line.len() + 3 + n) as int] == part.last());
    }
}

/// The length -1 stands for no value, and smaller ones, like numbers that do not
/// fit 64 bits, are errors.
pub proof fn law_read_null(line: Seq<u8>, n: int, rest: Seq<u8>)
    requires
        writes_number(line, n),
        n < 0 || !fits(n),
    ensures
        n == -1 ==> model::frame(seq![36u8] + line + seq![13u8, 10u8] + rest) == (Outcome::Done {
            value: Resp::BulkString(None),
            used: line.len() + 3,
        }),
        n == -1 ==> model::frame(seq![42u8] + line + seq![13u8, 10u8] + rest) == (Outcome::Done {
            value: Resp::Array(None),
            used: line.len() + 3,
        }),
        n != -1 ==> model::frame(seq![36u8] + line + seq![13u8, 10u8] + rest) == (
        Outcome::<Resp>::Invalid { code: ErrorKind::Char, at: 0 }),
        n != -1 ==> model::frame(seq![42u8] + line + seq![13u8, 10u8] + rest) == (
        Outcome::<Resp>::Invalid { code: ErrorKind::MapRes, at: 1 }),
{
    let b = seq![36u8] + line + seq![13u8, 10u8] + rest;
    let c = seq![42u8] + line + seq![13u8, 10u8] + rest;
    lemma_number_line(line, n, rest);
    assert(b.skip(1) =~= line + seq![13u8, 10u8] + rest);
    assert(c.skip(1) =~= line + seq![13u8, 10u8] + rest);
    assert(b[0] == 36);
    assert(c[0] == 42);
}

/// As many frames as the line behind `*` says are read as an array. It needs more
/// bytes as long as one of them does, and is wrong where one of them is.
pub proof fn law_read_array(line: Seq<u8>, n: int, body: Seq<u8>)
    requires
        writes_number(line, n),
        0 <= n,
        fits(n),
    ensures
        match model::frames(body, n as nat) {
            Outcome::Done { value, used } => model::frame(
                seq![42u8] + line + seq![13u8, 10u8] + body,
            ) == (Outcome::Done {
                value: Resp::Array(Some(value)),
                used: line.len() + 3 + used,
            }),
            Outcome::Incomplete => model::frame(
                seq![42u8] + line + seq![13u8, 10u8] + body,
            ) is Incomplete,
            Outcome::Invalid { code, at } => model::frame(
                seq![42u8] + line + seq![13u8, 10u8] + body,
            ) == (Outcome::<Resp>::Invalid { code, at: line.len() + 3 + at }),
        },
{
    let b = seq![42u8] + line + seq![13u8, 10u8] + body;
    lemma_number_line(line, n, body);
    assert(b.skip(1) =~= line + seq![13u8, 10u8] + body);
    assert(b.skip(line.len() as int + 3) =~= body);
    assert(b[0] == 42);
}

/// A list of frames is read one frame after another; the first that is cut off or
/// wrong decides.
pub proof fn law_read_list(b: Seq<u8>, n: nat)
    ensures
        model::frames(b, 0) == (Outcome::Done { value: Seq::<Resp>::empty(), used: 0 }),
        model::frame(b) is Incomplete ==> model::frames(b, n + 1) is Incomplete,
        model::frame(b) matches Outcome::Invalid { code, at } ==> model::frames(b, n + 1) == (
        Outcome::<Seq<Resp>>::Invalid { code, at }),
        model::frame(b) matches Outcome::Done { value, used } ==> match model::frames(
            b.skip(used as int),
            n,
        ) {
            Outcome::Done { value: more, used: taken } => model::frames(b, n + 1) == (
            Outcome::Done { value: seq![value] + more, used: used + taken }),
            Outcome::Incomplete => model::frames(b, n + 1) is Incomplete,
            Outcome::Invalid { code, at } => model::frames(b, n + 1) == (
            Outcome::<Seq<Resp>>::Invalid { code, at: used + at }),
        },
{
    laws::law_frame_stable(b, Seq::empty());
}

/// A frame begins with one of five bytes; any other byte is an error at the very
/// front. Without a byte, more are needed.
pub proof fn law_type_bytes(b: Seq<u8>)
    ensures
        b.len() == 0 ==> model::frame(b) is Incomplete,
        b.len() > 0 && b[0] != 43 && b[0] != 45 && b[0] != 58 && b[0] != 36 && b[0] != 42
            ==> model::frame(b) == (Outcome::<Resp>::Invalid { code: ErrorKind::Char, at: 0 }),
{
}

/// The outcome for a number line that is wrong at a position behind the type byte:
/// only an array tells why and where.
pub open spec fn wrong(kind: u8, code: ErrorKind, at: nat) -> Outcome<Resp> {
    if kind == 42 {
        Outcome::Invalid { code, at }
    } else {
        Outcome::Invalid { code: ErrorKind::Char, at: 0 }
    }
}

/// Behind the type byte of a number line, something other than a number is an
/// error, at the byte that is no digit.
pub proof fn law_number_expected(kind: u8, minus: bool, other: u8, rest: Seq<u8>)
    requires
        kind == 58 || kind == 36 || kind == 42,
        !(48 <= other <= 57),
        minus || other != 45,
    ensures
        minus ==> model::frame(seq![kind, 45u8, other] + rest) == wrong(kind, ErrorKind::Digit, 2),
        !minus ==> model::frame(seq![kind, other] + rest) == wrong(kind, ErrorKind::Digit, 1),
{
    if minus {
        let b = seq![kind, 45u8, other] + rest;
        let c = b.skip(1);
        assert(c[0] == 45);
        assert(c.skip(1)[0] == other);
        assert(b[0] == kind);
    } else {
        let b = seq![kind, other] + rest;
        let c = b.skip(1);
        assert(c[0] == other);
        assert(c.skip(0) =~= c);
        assert(b[0] == kind);
    }
}

/// A number that is not followed by a line end is an error, at the byte behind the
/// number.
pub proof fn law_line_end_expected(kind: u8, line: Seq<u8>, n: int, end: Seq<u8>, rest: Seq<u8>)
    requires
        kind == 58 || kind == 36 || kind == 42,
        writes_number(line, n),
        fits(n),
        end.len() == 2,
        !(48 <= end[0] <= 57),
        end[0] != 13 || end[1] != 10,
    ensures
        model::frame(seq![kind] + line + end + rest) == wrong(
            kind,
            ErrorKind::CrLf,
            line.len() + 1,
        ),
{
    let b = seq![kind] + line + end + rest;
    let c = b.skip(1);
    lemma_number(line, n, end + rest);
    assert(c =~= line + (end + rest));
    assert(c[line.len() as int] == end[0]);
    assert(c[line.len() as int + 1] == end[1]);
    assert(b[0] == kind);
}

/// As long as a number can go on or its line end is not there, more bytes are
/// needed.
pub proof fn law_number_needs_an_end(kind: u8, line: Seq<u8>, minus: bool)
    requires
        kind == 58 || kind == 36 || kind == 42,
        digits(line),
    ensures
        minus ==> model::frame(seq![kind, 45u8] + line) is Incomplete,
        !minus ==> model::frame(seq![kind] + line) is Incomplete,
        line.len() > 0 && fits(text::decimal_value(line) as int) ==> model::frame(
            seq![kind] + line + seq![13u8],
        ) is Incomplete,
{
    if minus {
        let b = seq![kind, 45u8] + line;
        let c = b.skip(1);
        assert(c[0] == 45);
        assert(c.skip(1) =~= line);
        text::lemma_digit_run_is(line, line.len());
        assert(b[0] == kind);
    } else {
        let b = seq![kind] + line;
        let c = b.skip(1);
        assert(c =~= line);
        assert(c.skip(0) =~= line);
        if line.len() > 0 {
            assert(48 <= line[0] <= 57);
        }
        text::lemma_digit_run_is(line, line.len());
        assert(b[0] == kind);
    }
    if line.len() > 0 && fits(text::decimal_value(line) as int) {
        let b = seq![kind] + line + seq![13u8];
        let n = text::decimal_value(line) as int;
        lemma_number(line, n, seq![13u8]);
        assert(b.skip(1) =~= line + seq![13u8]);
        assert(b[0] == kind);
    }
}

/// What is seen of a stream: it begins with the first frame, or with an error
/// where there is none, and goes on behind it. Behind an error it goes on at the
/// wrong byte, but at least one byte further. What needs more bytes is left.
pub proof fn law_seen(b: Seq<u8>)
    ensures
        model::frame(b) is Incomplete ==> laws::events(b) == Seq::<Event>::empty()
            && laws::leftover(b) == b,
        model::frame(b) matches Outcome::Done { value, used } ==> laws::events(b) == seq![
            Event::Frame(value),
        ] + laws::events(b.skip(used as int)) && laws::leftover(b) == laws::leftover(
            b.skip(used as int),
        ),
        model::frame(b) matches Outcome::Invalid { code, at } ==> at < b.len() && laws::events(b)
            == seq![Event::Bad(code)] + laws::events(
            b.skip(
                if at > 0 {
                    at as int
                } else {
                    1
                },
            ),
        ) && laws::leftover(b) == laws::leftover(
            b.skip(
                if at > 0 {
                    at as int
                } else {
                    1
                },
            ),
        ),
{
    laws::law_frame_stable(b, Seq::empty());
    laws::lemma_events_step(b);
    let es = laws::events(b);
    if es.len() > 0 {
        assert(es =~= seq![es[0]] + es.drop_first());
    }
}

/// A value stands for what it holds, and a list of values for its items, in their
/// order.
pub proof fn law_views(
    s: String,
    n: i64,
    data: Vec<u8>,
    items: Vec<RespValue>,
    i: int,
)
    ensures
        RespValue::SimpleString(s)@ == Resp::SimpleString(s@),
        RespValue::Error(s)@ == Resp::Error(s@),
        RespValue::Integer(n)@ == Resp::Integer(n as int),
        RespValue::BulkString(Some(data))@ == Resp::BulkString(Some(data@)),
        RespValue::BulkString(None)@ == Resp::BulkString(None),
        RespValue::Array(None)@ == Resp::Array(None),
        RespValue::Array(Some(items))@ is Array,
        RespValue::Array(Some(items))@->Array_0 is Some,
        RespValue::Array(Some(items))@->Array_0->0 == parser::views(items@),
        parser::views(items@).len() == items@.len(),
        0 <= i < items@.len() ==> parser::views(items@)[i] == items@[i]@,
{
}

/// The messages for bytes that are no RESP2.
pub proof fn law_error_messages()
    ensures
        parser::parse_error_text(ErrorKind::Char) == "RESP parse error: Char"@,
        parser::parse_error_text(ErrorKind::Digit) == "RESP parse error: Digit"@,
        parser::parse_error_text(ErrorKind::MapRes) == "RESP parse error: MapRes"@,
        parser::parse_error_text(ErrorKind::CrLf) == "RESP parse error: CrLf"@,
{
    reveal_strlit("RESP parse error: ");
    reveal_strlit("Char");
    reveal_strlit("Digit");
    reveal_strlit("MapRes");
    reveal_strlit("CrLf");
    reveal_strlit("RESP parse error: Char");
    reveal_strlit("RESP parse error: Digit");
    reveal_strlit("RESP parse error: MapRes");
    reveal_strlit("RESP parse error: CrLf");
    assert(parser::parse_error_text(ErrorKind::Char) =~= "RESP parse error: Char"@);
    assert(parser::parse_error_text(ErrorKind::Digit) =~= "RESP parse error: Digit"@);
    assert(parser::parse_error_text(ErrorKind::MapRes) =~= "RESP parse error: MapRes"@);
    assert(parser::parse_error_text(ErrorKind::CrLf) =~= "RESP parse error: CrLf"@);
}

/// How each kind of value is shown: its name, and what it holds in brackets. Text
/// is in quotes, bytes are numbers.
pub proof fn law_shown_values(s: Seq<char>, n: int, data: Seq<u8>, items: Seq<Resp>)
    ensures
        debug::debug_text(Resp::SimpleString(s)) == "SimpleString("@ + text::quoted_text(s) + ")"@,
        debug::debug_text(Resp::Error(s)) == "Error("@ + text::quoted_text(s) + ")"@,
        debug::debug_text(Resp::Integer(n)) == "Integer("@ + text::number_text(n) + ")"@,
        debug::debug_text(Resp::BulkString(None)) == "BulkString(None)"@,
        debug::debug_text(Resp::Array(None)) == "Array(None)"@,
        debug::debug_text(Resp::BulkString(Some(data))) == "BulkString(Some(["@
            + debug::bytes_text(data) + "]))"@,
        debug::debug_text(Resp::Array(Some(items))) == "Array(Some(["@ + debug::items_text(items)
            + "]))"@,
{
    reveal_strlit("SimpleString");
    reveal_strlit("Error");
    reveal_strlit("Integer");
    reveal_strlit("(");
    reveal_strlit("SimpleString(");
    reveal_strlit("Error(");
    reveal_strlit("Integer(");
    assert("SimpleString"@ + "("@ =~= "SimpleString("@);
    assert("Error"@ + "("@ =~= "Error("@);
    assert("Integer"@ + "("@ =~= "Integer("@);
}

/// The items of a list are shown one after another, with a comma and a space
/// between them.
pub proof fn law_shown_lists(data: Seq<u8>, b: u8, items: Seq<Resp>, v: Resp)
    ensures
        debug::bytes_text(Seq::empty()) == Seq::<char>::empty(),
        debug::bytes_text(seq![b]) == text::number_text(b as int),
        data.len() > 0 ==> debug::bytes_text(data.push(b)) == debug::bytes_text(data) + ", "@
            + text::number_text(b as int),
        debug::items_text(Seq::empty()) == Seq::<char>::empty(),
        debug::items_text(seq![v]) == debug::debug_text(v),
        items.len() > 0 ==> debug::items_text(items.push(v)) == debug::items_text(items) + ", "@
            + debug::debug_text(v),
{
    assert(data.push(b).drop_last() =~= data);
    assert(items.push(v).drop_last() =~= items);
}

/// What can be sent: texts without line ends, numbers that fit 64 bits, data and
/// lists whose lengths do, and lists of what can be sent.
pub proof fn law_transmissible(s: Seq<char>, n: int, data: Seq<u8>, items: Seq<Resp>)
    ensures
        laws::transmissible(Resp::SimpleString(s)) == (forall|i: int|
            0 <= i < s.len() - 1 ==> !(#[trigger] s[i] == '\r' && s[i + 1] == '\n')),
        laws::transmissible(Resp::Error(s)) == laws::transmissible(Resp::SimpleString(s)),
        laws::transmissible(Resp::Integer(n)) == fits(n),
        laws::transmissible(Resp::BulkString(None)),
        laws::transmissible(Resp::Array(None)),
        laws::transmissible(Resp::BulkString(Some(data))) == fits(data.len() as int),
        laws::transmissible(Resp::Array(Some(items))) == (fits(items.len() as int) && (forall|i: int|
            0 <= i < items.len() ==> laws::transmissible(#[trigger] items[i]))),
{
    laws::lemma_all_transmissible(items);
}

} // verus!
