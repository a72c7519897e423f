//! RESP2 values, their encoding, and the streaming parser.
use crate::resp::model;
use crate::resp::model::{ErrorKind, Outcome, Resp};
use crate::text;
use vstd::prelude::*;
use vstd::slice::*;
use vstd::string::*;
use vstd::utf8::*;

verus! {

/// A value of the Redis serialization protocol (RESP2).
#[derive(Debug, PartialEq)]
pub enum RespValue {
    /// `+<text>\r\n`
    SimpleString(String),
    /// `-<text>\r\n`
    Error(String),
    /// `:<number>\r\n`
    Integer(i64),
    /// `$<length>\r\n<data>\r\n`; `None` is the null bulk string, `$-1\r\n`.
    BulkString(Option<Vec<u8>>),
    /// `*<count>\r\n...`; `None` is the null array, `*-1\r\n`.
    Array(Option<Vec<RespValue>>),
}

/// The values that a list of values stands for.
pub open spec fn views(items: Seq<RespValue>) -> Seq<Resp>
    decreases items,
{
    Seq::new(
        items.len(),
        |i: int|
            if 0 <= i < items.len() {
                view_of(items[i])
            } else {
                Resp::Integer(0)
            },
    )
}

/// The value that a `RespValue` stands for.
pub open spec fn view_of(v: RespValue) -> Resp
    decreases v,
{
    match v {
        RespValue::SimpleString(s) => Resp::SimpleString(s@),
        RespValue::Error(s) => Resp::Error(s@),
        RespValue::Integer(n) => Resp::Integer(n as int),
        RespValue::BulkString(None) => Resp::BulkString(None),
        RespValue::BulkString(Some(data)) => Resp::BulkString(Some(data@)),
        RespValue::Array(None) => Resp::Array(None),
        RespValue::Array(Some(items)) => Resp::Array(Some(views(items@))),
    }
}

impl View for RespValue {
    type V = Resp;

    open spec fn view(&self) -> Resp {
        view_of(*self)
    }
}

/// An item of an array is smaller than the array.
pub proof fn lemma_items_smaller(v: RespValue, items: Vec<RespValue>, i: int)
    requires
        v == RespValue::Array(Some(items)),
        0 <= i < items@.len(),
    ensures
        decreases_to!(v => items@[i]),
{
    assert(decreases_to!(v => v->Array_0));
    assert(decreases_to!(v->Array_0 => v->Array_0->0));
    assert(decreases_to!(items => items@));
    assert(decreases_to!(items@ => items@[i]));
}

impl Clone for RespValue {
    fn clone(&self) -> (r: Self)
        ensures
            r@ == self@,
        decreases self,
    {
        match self {
            RespValue::SimpleString(s) => RespValue::SimpleString(s.clone()),
            RespValue::Error(s) => RespValue::Error(s.clone()),
            RespValue::Integer(n) => RespValue::Integer(*n),
            RespValue::BulkString(None) => RespValue::BulkString(None),
            RespValue::BulkString(Some(data)) => RespValue::BulkString(
                Some(slice_to_vec(data.as_slice())),
            ),
            RespValue::Array(None) => RespValue::Array(None),
            RespValue::Array(Some(items)) => {
                let mut copy: Vec<RespValue> = Vec::new();
                let mut i: usize = 0;
                while i < items.len()
                    invariant
                        i <= items@.len(),
                        copy@.len() == i,
                        self == RespValue::Array(Some(*items)),
                        forall|j: int| 0 <= j < i ==> #[trigger] copy@[j]@ == items@[j]@,
                    decreases items@.len() - i,
                {
                    proof {
                        lemma_items_smaller(*self, *items, i as int);
                    }
                    copy.push(items[i].clone());
                    i = i + 1;
                }
                proof {
                    assert forall|j: int| 0 <= j < copy@.len() implies views(copy@)[j] == views(
                        items@,
                    )[j] by {
                        assert(copy@[j]@ == items@[j]@);
                    }
                    assert(views(copy@) =~= views(items@));
                }
                RespValue::Array(Some(copy))
            },
        }
    }
}

/// Appends a line end.
fn push_crlf(buf: &mut Vec<u8>)
    ensures
        final(buf)@ == old(buf)@ + model::crlf(),
{
    buf.push(13);
    buf.push(10);
    assert(buf@ =~= old(buf)@ + model::crlf());
}

/// A line: a type byte, a content, and a line end.
fn line(kind: u8, content: &[u8]) -> (r: Vec<u8>)
    ensures
        r@ == seq![kind] + content@ + model::crlf(),
{
    let mut buf: Vec<u8> = Vec::new();
    buf.push(kind);
    buf.extend_from_slice(content);
    assert(buf@ =~= seq![kind] + content@);
    push_crlf(&mut buf);
    buf
}

/// Encodes a count as an integer.
pub fn encode_count(n: u64) -> (r: Vec<u8>)
    ensures
        r@ == model::encoded(Resp::Integer(n as int)),
{
    let digits: Vec<u8> = text::decimal_bytes(n);
    line(58, digits.as_slice())
}

impl RespValue {
    /// Encodes this value as RESP2 bytes.
    pub fn encode(&self) -> (r: Vec<u8>)
        ensures
            r@ == model::encoded(self@),
        decreases self,
    {
        match self {
            RespValue::SimpleString(s) => line(43, s.as_str().as_bytes()),
            RespValue::Error(s) => line(45, s.as_str().as_bytes()),
            RespValue::Integer(n) => {
                let digits: Vec<u8> = text::decimal_int_bytes(*n);
                line(58, digits.as_slice())
            },
            RespValue::BulkString(None) => {
                let digits: Vec<u8> = text::decimal_int_bytes(-1);
                line(36, digits.as_slice())
            },
            RespValue::BulkString(Some(data)) => {
                let digits: Vec<u8> = text::decimal_bytes(data.len() as u64);
                let mut buf: Vec<u8> = line(36, digits.as_slice());
                buf.extend_from_slice(data.as_slice());
                assert(buf@ =~= seq![36u8] + text::decimal(data@.len()) + model::crlf() + data@);
                push_crlf(&mut buf);
                buf
            },
            RespValue::Array(None) => {
                let digits: Vec<u8> = text::decimal_int_bytes(-1);
                line(42, digits.as_slice())
            },
            RespValue::Array(Some(items)) => {
                let digits: Vec<u8> = text::decimal_bytes(items.len() as u64);
                let mut buf: Vec<u8> = line(42, digits.as_slice());
                let ghost head = buf@;
                let ghost all = views(items@);
                let mut i: usize = 0;
                assert(all.take(0) =~= Seq::<Resp>::empty());
                assert(buf@ =~= head + model::encoded_all(all.take(0)));
                while i < items.len()
                    invariant
                        i <= items@.len(),
                        all == views(items@),
                        self == RespValue::Array(Some(*items)),
                        buf@ == head + model::encoded_all(all.take(i as int)),
                    decreases items@.len() - i,
                {
                    proof {
                        lemma_items_smaller(*self, *items, i as int);
                    }
                    let part: Vec<u8> = items[i].encode();
                    let ghost before = buf@;
                    buf.extend_from_slice(part.as_slice());
                    proof {
                        let next = all.take(i as int + 1);
                        assert(next.drop_last() =~= all.take(i as int));
                        assert(next.last() == items@[i as int]@);
                        assert(buf@ =~= before + part@);
                        assert(buf@ =~= head + model::encoded_all(next));
                    }
                    i = i + 1;
                }
                assert(all.take(items@.len() as int) =~= all);
                buf
            },
        }
    }
}

/// Why no frame could be taken from the front of a stream.
#[derive(Debug, Clone, Copy, PartialEq, Eq, Structural)]
pub enum FrameError {
    /// The stream ends inside a frame: more bytes are needed.
    Incomplete,
    /// The byte at position `at` does not belong there.
    Error { code: ErrorKind, at: usize },
}

/// A number was read as the model says.
spec fn number_agrees(r: Result<(i64, usize), FrameError>, o: Outcome<int>, len: nat) -> bool {
    match o {
        Outcome::Done { value, used } => r matches Ok((v, u)) && v == value && u == used && used
            <= len,
        Outcome::Incomplete => r == Err::<(i64, usize), FrameError>(FrameError::Incomplete),
        Outcome::Invalid { code, at } => r matches Err(FrameError::Error { code: c, at: a }) && c
            == code && a == at && at < len,
    }
}

/// A value was read as the model says.
spec fn value_agrees(r: Result<(RespValue, usize), FrameError>, o: Outcome<Resp>, len: nat) -> bool {
    match o {
        Outcome::Done { value, used } => r matches Ok((v, u)) && v@ == value && u == used && used
            <= len,
        Outcome::Incomplete => r == Err::<(RespValue, usize), FrameError>(FrameError::Incomplete),
        Outcome::Invalid { code, at } => r matches Err(FrameError::Error { code: c, at: a }) && c
            == code && a == at && at < len,
    }
}

/// Several values were read as the model says.
spec fn values_agree(
    r: Result<(Vec<RespValue>, usize), FrameError>,
    o: Outcome<Seq<Resp>>,
    len: nat,
) -> bool {
    match o {
        Outcome::Done { value, used } => r matches Ok((v, u)) && views(v@) == value && u == used
            && used <= len,
        Outcome::Incomplete => r == Err::<(Vec<RespValue>, usize), FrameError>(
            FrameError::Incomplete,
        ),
        Outcome::Invalid { code, at } => r matches Err(FrameError::Error { code: c, at: a }) && c
            == code && a == at && at < len,
    }
}

/// Reads a possibly negative number, written in decimal.
fn parse_signed_int(input: &[u8]) -> (r: Result<(i64, usize), FrameError>)
    ensures
        number_agrees(r, model::signed_int(input@), input@.len()),
{
    let neg: bool = input.len() > 0 && input[0] == 45;
    let start: usize = if neg {
        1
    } else {
        0
    };
    let mut end: usize = start;
    while end < input.len() && 48 <= input[end] && input[end] <= 57
        invariant
            start <= end <= input@.len(),
            forall|i: int| start <= i < end ==> text::is_digit(#[trigger] input@[i]),
        decreases input@.len() - end,
    {
        end = end + 1;
    }
    let ghost d = input@.subrange(start as int, end as int);
    proof {
        let tail = input@.skip(start as int);
        assert forall|i: int| 0 <= i < end - start implies text::is_digit(#[trigger] tail[i]) by {
            assert(tail[i] == input@[i + start]);
        }
        if end < input@.len() {
            assert(tail[end - start] == input@[end as int]);
        }
        text::lemma_digit_run_is(tail, (end - start) as nat);
        assert forall|i: int| 0 <= i < d.len() implies text::is_digit(#[trigger] d[i]) by {
            assert(d[i] == input@[i + start]);
        }
    }
    if end == input.len() {
        return Err(FrameError::Incomplete);
    }
    if end == start {
        return Err(FrameError::Error { code: ErrorKind::Digit, at: start });
    }
    let max: u64 = if neg {
        9223372036854775808
    } else {
        9223372036854775807
    };
    match text::read_digits(input, start, end, max) {
        None => Err(FrameError::Error { code: ErrorKind::MapRes, at: 0 }),
        Some(m) => Ok((text::signed(neg, m), end)),
    }
}

/// Checks for a line end at position `at`, and gives the position behind it.
fn parse_line_end(input: &[u8], at: usize) -> (r: Result<usize, FrameError>)
    requires
        at <= input@.len(),
    ensures
        match model::line_end(input@, at as nat) {
            Outcome::Done { used, .. } => r matches Ok(u) && u == used && used <= input@.len(),
            Outcome::Incomplete => r == Err::<usize, FrameError>(FrameError::Incomplete),
            Outcome::Invalid { code, at: p } => r matches Err(FrameError::Error { code: c, at: a })
                && c == code && a == p && p < input@.len(),
        },
{
    if at == input.len() {
        Err(FrameError::Incomplete)
    } else if input[at] != 13 {
        Err(FrameError::Error { code: ErrorKind::CrLf, at })
    } else if at + 1 == input.len() {
        Err(FrameError::Incomplete)
    } else if input[at + 1] != 10 {
        Err(FrameError::Error { code: ErrorKind::CrLf, at })
    } else {
        Ok(at + 2)
    }
}

/// Reads a line that holds a number.
fn parse_number_line(input: &[u8]) -> (r: Result<(i64, usize), FrameError>)
    ensures
        number_agrees(r, model::number_line(input@), input@.len()),
{
    match parse_signed_int(input) {
        Err(e) => Err(e),
        Ok((n, used)) => match parse_line_end(input, used) {
            Err(e) => Err(e),
            Ok(end) => Ok((n, end)),
        },
    }
}

/// Moves the position of an error by `by` bytes.
fn shift<T>(e: FrameError, by: usize) -> (r: Result<T, FrameError>)
    requires
        e matches FrameError::Error { code, at } ==> at + by <= usize::MAX,
    ensures
        match e {
            FrameError::Incomplete => r == Err::<T, FrameError>(FrameError::Incomplete),
            FrameError::Error { code, at } => r matches Err(FrameError::Error { code: c, at: a })
                && c == code && a == at + by,
        },
{
    match e {
        FrameError::Incomplete => Err(FrameError::Incomplete),
        FrameError::Error { code, at } => Err(FrameError::Error { code, at: at + by }),
    }
}

/// The position of the first line end at or behind `from`.
pub fn find_line_end(input: &[u8], from: usize) -> (r: Option<usize>)
    requires
        from <= input@.len(),
    ensures
        match model::find_crlf(input@.skip(from as int)) {
            None => r is None,
            Some(n) => r matches Some(e) && e == from + n && from + n + 2 <= input@.len(),
        },
{
    let mut i: usize = from;
    let ghost tail = input@.skip(from as int);
    assert(tail.skip(0) =~= tail);
    while i < input.len() && i + 1 < input.len()
        invariant
            from <= i <= input@.len(),
            tail == input@.skip(from as int),
            match model::find_crlf(tail.skip(i - from)) {
                None => model::find_crlf(tail) is None,
                Some(n) => model::find_crlf(tail) == Some((i - from + n) as nat),
            },
        decreases input@.len() - i,
    {
        let ghost here = tail.skip(i - from);
        assert(here[0] == input@[i as int] && here[1] == input@[i + 1]);
        if input[i] == 13 && input[i + 1] == 10 {
            return Some(i);
        }
        assert(here.drop_first() =~= tail.skip(i + 1 - from));
        i = i + 1;
    }
    None
}

/// Reads the text line of a simple string or an error.
fn parse_text(input: &[u8]) -> (r: Result<(String, usize), FrameError>)
    requires
        input@.len() >= 1,
    ensures
        match model::text_frame(input@) {
            Outcome::Done { value, used } => r matches Ok((s, u)) && s@ == value && u == used
                && used <= input@.len(),
            Outcome::Incomplete => r == Err::<(String, usize), FrameError>(FrameError::Incomplete),
            Outcome::Invalid { .. } => false,
        },
{
    match find_line_end(input, 1) {
        None => Err(FrameError::Incomplete),
        Some(end) => {
            assert(end + 2 <= input.len());
            Ok((text::utf8_lossy(slice_subrange(input, 1, end)), end + 2))
        },
    }
}

/// Reads a simple string.
fn parse_simple_string(input: &[u8]) -> (r: Result<(RespValue, usize), FrameError>)
    requires
        input@.len() >= 1,
        input@[0] == 43,
    ensures
        value_agrees(r, model::frame(input@), input@.len()),
{
    match parse_text(input) {
        Err(e) => Err(e),
        Ok((s, used)) => Ok((RespValue::SimpleString(s), used)),
    }
}

/// Reads an error.
fn parse_error(input: &[u8]) -> (r: Result<(RespValue, usize), FrameError>)
    requires
        input@.len() >= 1,
        input@[0] == 45,
    ensures
        value_agrees(r, model::frame(input@), input@.len()),
{
    match parse_text(input) {
        Err(e) => Err(e),
        Ok((s, used)) => Ok((RespValue::Error(s), used)),
    }
}

/// Reads an integer.
fn parse_integer(input: &[u8]) -> (r: Result<(RespValue, usize), FrameError>)
    requires
        input@.len() >= 1,
    ensures
        value_agrees(r, model::integer_frame(input@), input@.len()),
{
    let rest: &[u8] = slice_subrange(input, 1, input.len());
    assert(rest@ =~= input@.skip(1));
    match parse_number_line(rest) {
        Err(e) => shift(e, 1),
        Ok((n, used)) => Ok((RespValue::Integer(n), used + 1)),
    }
}

/// Reads a bulk string.
fn parse_bulk_string(input: &[u8]) -> (r: Result<(RespValue, usize), FrameError>)
    requires
        input@.len() >= 1,
    ensures
        value_agrees(r, model::bulk_frame(input@), input@.len()),
{
    let rest: &[u8] = slice_subrange(input, 1, input.len());
    assert(rest@ =~= input@.skip(1));
    match parse_number_line(rest) {
        Err(e) => shift(e, 1),
        Ok((n, used)) => {
            let start: usize = used + 1;
            if n == -1 {
                return Ok((RespValue::BulkString(None), start));
            }
            if n < 0 {
                return Err(FrameError::Error { code: ErrorKind::MapRes, at: 1 });
            }
            let size: u64 = n as u64;
            if size > (input.len() - start) as u64 {
                return Err(FrameError::Incomplete);
            }
            let end: usize = start + size as usize;
            match parse_line_end(input, end) {
                Err(e) => Err(e),
                Ok(last) => {
                    let data: Vec<u8> = slice_to_vec(slice_subrange(input, start, end));
                    Ok((RespValue::BulkString(Some(data)), last))
                },
            }
        },
    }
}

/// The outcome for a list whose first values take `used` bytes.
spec fn join(first: Seq<Resp>, used: nat, rest: Outcome<Seq<Resp>>) -> Outcome<Seq<Resp>> {
    match rest {
        Outcome::Done { value, used: more } => Outcome::Done {
            value: first + value,
            used: used + more,
        },
        Outcome::Incomplete => Outcome::Incomplete,
        Outcome::Invalid { code, at } => Outcome::Invalid { code, at: used + at },
    }
}

/// Reads `n` frames.
fn parse_frames(input: &[u8], n: u64) -> (r: Result<(Vec<RespValue>, usize), FrameError>)
    ensures
        values_agree(r, model::frames(input@, n as nat), input@.len()),
    decreases input@.len(), 3nat,
{
    let mut items: Vec<RespValue> = Vec::new();
    let mut i: u64 = 0;
    let mut used: usize = 0;
    let ghost all = model::frames(input@, n as nat);
    proof {
        assert(input@.skip(0) =~= input@);
        assert(views(items@) =~= Seq::<Resp>::empty());
        if let Outcome::Done { value, used: u } = all {
            assert(views(items@) + value =~= value);
        }
    }
    while i < n
        invariant
            i <= n,
            used <= input@.len(),
            all == model::frames(input@, n as nat),
            all == join(
                views(items@),
                used as nat,
                model::frames(input@.skip(used as int), (n - i) as nat),
            ),
        decreases n - i,
    {
        let rest: &[u8] = slice_subrange(input, used, input.len());
        let ghost tail = input@.skip(used as int);
        assert(rest@ =~= tail);
        match read_frame(rest) {
            Err(e) => {
                return shift(e, used);
            },
            Ok((v, more)) => {
                let ghost before = views(items@);
                let ghost value = v@;
                items.push(v);
                proof {
                    assert(tail.skip(more as int) =~= input@.skip(used + more));
                    assert(views(items@) =~= before.push(value));
                    if let Outcome::Done { value: vs, used: u } = model::frames(
                        tail.skip(more as int),
                        (n - i - 1) as nat,
                    ) {
                        assert(before + (seq![value] + vs) =~= views(items@) + vs);
                    }
                }
                used = used + more;
                i = i + 1;
            },
        }
    }
    assert(views(items@) + Seq::<Resp>::empty() =~= views(items@));
    Ok((items, used))
}

/// Reads an array.
fn parse_array(input: &[u8]) -> (r: Result<(RespValue, usize), FrameError>)
    requires
        input@.len() >= 1,
    ensures
        value_agrees(r, model::array_frame(input@), input@.len()),
    decreases input@.len(), 1nat,
{
    let rest: &[u8] = slice_subrange(input, 1, input.len());
    assert(rest@ =~= input@.skip(1));
    match parse_number_line(rest) {
        Err(e) => shift(e, 1),
        Ok((n, used)) => {
            let start: usize = used + 1;
            if n == -1 {
                return Ok((RespValue::Array(None), start));
            }
            if n < 0 {
                return Err(FrameError::Error { code: ErrorKind::MapRes, at: 1 });
            }
            let body: &[u8] = slice_subrange(input, start, input.len());
            assert(body@ =~= input@.skip(start as int));
            match parse_frames(body, n as u64) {
                Err(e) => shift(e, start),
                Ok((items, last)) => Ok((RespValue::Array(Some(items)), start + last)),
            }
        },
    }
}

/// Takes one frame from the front of `input`, and gives its length as well.
fn read_frame(input: &[u8]) -> (r: Result<(RespValue, usize), FrameError>)
    ensures
        value_agrees(r, model::frame(input@), input@.len()),
    decreases input@.len(), 2nat,
{
    let not_an_array: Result<(RespValue, usize), FrameError> = Err(
        FrameError::Error { code: ErrorKind::Char, at: 0 },
    );
    if input.len() == 0 {
        return Err(FrameError::Incomplete);
    }
    let kind: u8 = input[0];
    if kind == 43 {
        parse_simple_string(input)
    } else if kind == 45 {
        parse_error(input)
    } else if kind == 58 {
        match parse_integer(input) {
            Err(FrameError::Error { .. }) => not_an_array,
            other => other,
        }
    } else if kind == 36 {
        match parse_bulk_string(input) {
            Err(FrameError::Error { .. }) => not_an_array,
            other => other,
        }
    } else if kind == 42 {
        parse_array(input)
    } else {
        not_an_array
    }
}

/// Parses one complete RESP2 frame from `input`.
///
/// Gives the bytes that are left and the value.
pub fn parse_frame(input: &[u8]) -> (r: Result<(&[u8], RespValue), FrameError>)
    ensures
        match model::frame(input@) {
            Outcome::Done { value, used } => r matches Ok((rest, v)) && v@ == value && used
                <= input@.len() && rest@ == input@.skip(used as int),
            Outcome::Incomplete => r == Err::<(&[u8], RespValue), FrameError>(
                FrameError::Incomplete,
            ),
            Outcome::Invalid { code, at } => r matches Err(FrameError::Error { code: c, at: a })
                && c == code && a == at && at < input@.len(),
        },
{
    match read_frame(input) {
        Err(e) => Err(e),
        Ok((v, used)) => {
            let rest: &[u8] = slice_subrange(input, used, input.len());
            assert(rest@ =~= input@.skip(used as int));
            Ok((rest, v))
        },
    }
}

/// The text of the message for bytes that are no RESP2.
pub open spec fn code_name(code: ErrorKind) -> Seq<char> {
    match code {
        ErrorKind::Char => "Char"@,
        ErrorKind::Digit => "Digit"@,
        ErrorKind::MapRes => "MapRes"@,
        ErrorKind::CrLf => "CrLf"@,
    }
}

/// The message for bytes that are no RESP2.
pub open spec fn parse_error_text(code: ErrorKind) -> Seq<char> {
    "RESP parse error: "@ + code_name(code)
}

/// Collects bytes from a connection and takes complete RESP2 frames off its
/// front.
#[derive(Debug)]
pub struct RespBuffer {
    buf: Vec<u8>,
}

impl View for RespBuffer {
    type V = Seq<u8>;

    closed spec fn view(&self) -> Seq<u8> {
        self.buf@
    }
}

impl RespBuffer {
    /// An empty buffer.
    pub fn new() -> (r: Self)
        ensures
            r@ == Seq::<u8>::empty(),
    {
        RespBuffer { buf: Vec::new() }
    }

    /// Appends bytes that have arrived.
    pub fn feed(&mut self, data: &[u8])
        ensures
            final(self)@ == old(self)@ + data@,
    {
        self.buf.extend_from_slice(data);
        assert(self.buf@ =~= old(self).buf@ + data@);
    }

    /// Drops the first `n` bytes.
    fn advance(&mut self, n: usize)
        requires
            n <= old(self)@.len(),
        ensures
            final(self)@ == old(self)@.skip(n as int),
    {
        let rest: Vec<u8> = self.buf.split_off(n);
        self.buf = rest;
        assert(self.buf@ =~= old(self).buf@.skip(n as int));
    }

    /// Tries to take one complete frame off the front.
    ///
    /// - `Ok(Some(value))`: a frame was there, and its bytes are gone.
    /// - `Ok(None)`: more bytes are needed; nothing has changed.
    /// - `Err(message)`: the bytes are no RESP2. The bytes before the one that
    ///   does not belong there are dropped, and at least one byte is.
    pub fn try_parse(&mut self) -> (r: Result<Option<RespValue>, String>)
        ensures
            match model::frame(old(self)@) {
                Outcome::Done { value, used } => {
                    &&& r matches Ok(Some(v))
                    &&& v@ == value
                    &&& used <= old(self)@.len()
                    &&& final(self)@ == old(self)@.skip(used as int)
                },
                Outcome::Incomplete => {
                    &&& r == Ok::<Option<RespValue>, String>(None)
                    &&& final(self)@ == old(self)@
                },
                Outcome::Invalid { code, at } => {
                    &&& r matches Err(message)
                    &&& message@ == parse_error_text(code)
                    &&& at < old(self)@.len()
                    &&& final(self)@ == old(self)@.skip(
                        if at > 0 {
                            at as int
                        } else {
                            1
                        },
                    )
                },
            },
    {
        match read_frame(self.buf.as_slice()) {
            Ok((value, used)) => {
                self.advance(used);
                Ok(Some(value))
            },
            Err(FrameError::Incomplete) => Ok(None),
            Err(FrameError::Error { code, at }) => {
                if at > 0 {
                    self.advance(at);
                } else {
                    self.advance(1);
                }
                let mut message: String = String::from_str("RESP parse error: ");
                match code {
                    ErrorKind::Char => message.append("Char"),
                    ErrorKind::Digit => message.append("Digit"),
                    ErrorKind::MapRes => message.append("MapRes"),
                    ErrorKind::CrLf => message.append("CrLf"),
                }
                Err(message)
            },
        }
    }

    /// The bytes that no frame has been taken from yet.
    pub fn pending(&self) -> (r: &[u8])
        ensures
            r@ == self@,
    {
        self.buf.as_slice()
    }
}

impl Default for RespBuffer {
    fn default() -> (r: Self)
        ensures
            r@ == Seq::<u8>::empty(),
    {
        Self::new()
    }
}

} // verus!
