//! What holds of the protocol as a whole: what is encoded is read back, a frame
//! that has arrived is not changed by what arrives later, and it does not
//! matter in which pieces a stream arrives.
use crate::resp::model;
use crate::resp::model::{ErrorKind, Outcome, Resp};
use crate::text;
use vstd::prelude::*;
use vstd::utf8::*;

verus! {

/// No line end occurs in the text.
pub open spec fn single_line(s: Seq<char>) -> bool {
    forall|i: int| 0 <= i < s.len() - 1 ==> !(#[trigger] s[i] == '\r' && s[i + 1] == '\n')
}

/// What was made unbroken is a single line, and a single line stays as it is.
pub proof fn lemma_unbroken(s: Seq<char>)
    ensures
        single_line(text::unbroken(s)),
        single_line(s) ==> text::unbroken(s) == s,
        s.len() > 0 ==> text::unbroken(s).len() > 0 && (text::unbroken(s)[0] == '\n' ==> s[0]
            == '\n'),
    decreases s.len(),
{
    let u = text::unbroken(s);
    if s.len() > 0 {
        let pair = s.len() >= 2 && s[0] == '\r' && s[1] == '\n';
        let n: int = if pair {
            2
        } else {
            1
        };
        let rest = s.skip(n);
        let r = text::unbroken(rest);
        assert(s.skip(1) =~= s.drop_first());
        lemma_unbroken(rest);
        assert forall|i: int| 0 <= i < u.len() - 1 implies !(#[trigger] u[i] == '\r' && u[i + 1]
            == '\n') by {
            if i >= n {
                assert(u[i] == r[i - n] && u[i + 1] == r[i - n + 1]);
            } else if !pair {
                assert(u[1] == r[0]);
                if u[0] == '\r' && u[1] == '\n' {
                    assert(rest.len() > 0);
                    assert(rest[0] == s[1]);
                }
            }
        }
        if single_line(s) {
            assert(!(s[0] == '\r' && s[0int + 1] == '\n') || s.len() == 1);
            assert forall|i: int| 0 <= i < rest.len() - 1 implies !(#[trigger] rest[i] == '\r'
                && rest[i + 1] == '\n') by {
                assert(rest[i] == s[i + n] && rest[i + 1] == s[i + n + 1]);
            }
            assert(u =~= s);
        }
    }
}

/// Two single lines make one, where no line end comes about between them.
pub proof fn lemma_single_line_concat(a: Seq<char>, b: Seq<char>)
    requires
        single_line(a),
        single_line(b),
        a.len() > 0 && b.len() > 0 ==> !(a.last() == '\r' && b[0] == '\n'),
    ensures
        single_line(a + b),
{
    let c = a + b;
    assert forall|i: int| 0 <= i < c.len() - 1 implies !(#[trigger] c[i] == '\r' && c[i + 1]
        == '\n') by {
        if i + 1 < a.len() {
            assert(c[i] == a[i] && c[i + 1] == a[i + 1]);
        } else if i >= a.len() {
            assert(c[i] == b[i - a.len()] && c[i + 1] == b[i - a.len() + 1]);
        }
    }
}

/// Can the value be sent over the wire? The texts of simple strings and errors
/// must not hold a line end, numbers must fit 64 bits, and lengths and counts
/// must fit the positive half of that.
pub open spec fn transmissible(v: Resp) -> bool
    decreases v,
{
    match v {
        Resp::SimpleString(s) => single_line(s),
        Resp::Error(s) => single_line(s),
        Resp::Integer(n) => i64::MIN <= n <= i64::MAX,
        Resp::BulkString(None) => true,
        Resp::BulkString(Some(data)) => data.len() <= i64::MAX,
        Resp::Array(None) => true,
        Resp::Array(Some(items)) => items.len() <= i64::MAX && all_transmissible(items),
    }
}

/// Can each of the values be sent over the wire?
pub open spec fn all_transmissible(items: Seq<Resp>) -> bool
    decreases items,
{
    if items.len() == 0 {
        true
    } else {
        all_transmissible(items.drop_last()) && transmissible(items.last())
    }
}

/// Each item of a transmissible list is transmissible, and so is each part of it.
pub proof fn lemma_all_transmissible(items: Seq<Resp>)
    ensures
        all_transmissible(items) <==> (forall|i: int|
            0 <= i < items.len() ==> transmissible(#[trigger] items[i])),
    decreases items.len(),
{
    if items.len() > 0 {
        let front = items.drop_last();
        lemma_all_transmissible(front);
        if all_transmissible(items) {
            assert forall|i: int| 0 <= i < items.len() implies transmissible(
                #[trigger] items[i],
            ) by {
                if i < items.len() - 1 {
                    assert(items[i] == front[i]);
                }
            }
        }
        if forall|i: int| 0 <= i < items.len() ==> transmissible(#[trigger] items[i]) {
            assert forall|i: int| 0 <= i < front.len() implies transmissible(
                #[trigger] front[i],
            ) by {
                assert(front[i] == items[i]);
            }
            assert(transmissible(items[items.len() - 1]));
        }
    }
}

/// The encoding of a list starts with that of its first item.
pub proof fn lemma_encoded_all_front(items: Seq<Resp>)
    requires
        items.len() > 0,
    ensures
        model::encoded_all(items) == model::encoded(items[0]) + model::encoded_all(
            items.drop_first(),
        ),
    decreases items.len(),
{
    let front = items.drop_last();
    if items.len() == 1 {
        assert(front =~= Seq::<Resp>::empty());
        assert(items.drop_first() =~= Seq::<Resp>::empty());
        assert(model::encoded_all(front) =~= Seq::<u8>::empty());
        assert(items.last() == items[0]);
        assert(model::encoded_all(items) =~= model::encoded(items[0]) + model::encoded_all(
            items.drop_first(),
        ));
    } else {
        lemma_encoded_all_front(front);
        let tail = items.drop_first();
        assert(tail.drop_last() =~= front.drop_first());
        assert(tail.last() == items.last());
        assert(model::encoded_all(items) =~= model::encoded(items[0]) + model::encoded_all(tail));
    }
}

/// A text of a single line has no line end in its bytes either.
pub proof fn lemma_single_line_bytes(s: Seq<char>)
    requires
        single_line(s),
    ensures
        forall|i: int|
            0 <= i < encode_utf8(s).len() - 1 ==> !(#[trigger] encode_utf8(s)[i] == 13
                && encode_utf8(s)[i + 1] == 10),
    decreases s.len(),
{
    if s.len() > 0 {
        let t = s.drop_first();
        let b = encode_utf8(s);
        let e = encode_scalar(s[0] as u32);
        let r = encode_utf8(t);
        assert forall|i: int| 0 <= i < t.len() - 1 implies !(#[trigger] t[i] == '\r' && t[i + 1]
            == '\n') by {
            assert(t[i] == s[i + 1] && t[i + 1] == s[i + 2]);
        }
        lemma_single_line_bytes(t);
        text::lemma_first_byte(s);
        assert(b =~= e + r);
        assert forall|i: int| 0 <= i < b.len() - 1 implies !(#[trigger] b[i] == 13 && b[i + 1]
            == 10) by {
            if i >= e.len() {
                assert(b[i] == r[i - e.len()] && b[i + 1] == r[i - e.len() + 1]);
            } else if b[0] >= 128 {
                assert(b[i] == e[i]);
            } else {
                assert(e =~= seq![b[0]]) by {
                    assert(b == seq![b[0]] + r);
                    assert(b.len() == 1 + r.len());
                    assert(e.len() == 1);
                }
                if b[0] == 13 && b[1] == 10 {
                    assert(t.len() > 0);
                    text::lemma_first_byte(t);
                    assert(r[0] == b[1]);
                    assert(s[1] == t[0]);
                    text::lemma_char_of_number(s[0], '\r');
                    text::lemma_char_of_number(s[1], '\n');
                    assert(s[0] == '\r' && s[0int + 1] == '\n');
                }
            }
        }
    }
}

/// Where no line end occurs before position `n` and one stands at `n`, that is
/// the first.
pub proof fn lemma_find_crlf_is(b: Seq<u8>, n: nat)
    requires
        n + 2 <= b.len(),
        b[n as int] == 13,
        b[n as int + 1] == 10,
        forall|i: int| 0 <= i < n ==> !(#[trigger] b[i] == 13 && b[i + 1] == 10),
    ensures
        model::find_crlf(b) == Some(n),
    decreases n,
{
    if n > 0 {
        let t = b.drop_first();
        assert(!(b[0] == 13 && b[0int + 1] == 10));
        assert forall|i: int| 0 <= i < n - 1 implies !(#[trigger] t[i] == 13 && t[i + 1] == 10) by {
            assert(t[i] == b[i + 1] && t[i + 1] == b[i + 2]);
        }
        lemma_find_crlf_is(t, (n - 1) as nat);
    }
}

/// A number line is read back as the number that was written.
pub proof fn lemma_number_line_round_trip(n: int, rest: Seq<u8>)
    requires
        i64::MIN <= n <= i64::MAX,
    ensures
        model::number_line(text::decimal_int(n) + model::crlf() + rest) == (Outcome::Done {
            value: n,
            used: text::decimal_int(n).len() + 2,
        }),
{
    let m = if n < 0 {
        (-n) as nat
    } else {
        n as nat
    };
    let d = text::decimal(m);
    let b = text::decimal_int(n) + model::crlf() + rest;
    let s: int = if n < 0 {
        1
    } else {
        0
    };
    text::lemma_decimal_digits(m);
    text::lemma_decimal_round_trip(m);
    let tail = b.skip(s);
    assert(tail =~= d + model::crlf() + rest);
    assert(n >= 0 ==> b[0] == d[0] && text::is_digit(d[0]));
    assert(n < 0 ==> b[0] == 45);
    text::lemma_digit_run_is(tail, d.len());
    assert(b.subrange(s, s + d.len()) =~= d);
    let end = (s + d.len()) as nat;
    assert(b[end as int] == 13 && b[end as int + 1] == 10);
}

/// A bulk string is read back as it was encoded.
proof fn lemma_bulk_round_trip(data: Seq<u8>, rest: Seq<u8>)
    requires
        data.len() <= i64::MAX,
    ensures
        model::frame(model::encoded(Resp::BulkString(Some(data))) + rest) == (Outcome::Done {
            value: Resp::BulkString(Some(data)),
            used: model::encoded(Resp::BulkString(Some(data))).len(),
        }),
{
    let b = model::encoded(Resp::BulkString(Some(data))) + rest;
    let n = data.len() as int;
    let more = data + model::crlf() + rest;
    assert(text::decimal_int(n) == text::decimal(data.len()));
    assert(b.skip(1) =~= text::decimal_int(n) + model::crlf() + more);
    lemma_number_line_round_trip(n, more);
    let start = text::decimal_int(n).len() + 3;
    assert(b.subrange(start as int, start + n) =~= data);
    assert(b[start + n] == 13 && b[start + n + 1] == 10);
}

/// A null value is read back as it was encoded.
proof fn lemma_null_round_trip(rest: Seq<u8>)
    ensures
        model::frame(model::encoded(Resp::BulkString(None)) + rest) == (Outcome::Done {
            value: Resp::BulkString(None),
            used: model::encoded(Resp::BulkString(None)).len(),
        }),
        model::frame(model::encoded(Resp::Array(None)) + rest) == (Outcome::Done {
            value: Resp::Array(None),
            used: model::encoded(Resp::Array(None)).len(),
        }),
{
    let number = text::decimal_int(-1) + model::crlf() + rest;
    lemma_number_line_round_trip(-1, rest);
    let b = model::encoded(Resp::BulkString(None)) + rest;
    assert(b.skip(1) =~= number);
    assert(b[0] == 36);
    let a = model::encoded(Resp::Array(None)) + rest;
    assert(a.skip(1) =~= number);
    assert(a[0] == 42);
}

/// An integer is read back as it was encoded.
proof fn lemma_integer_round_trip(n: int, rest: Seq<u8>)
    requires
        i64::MIN <= n <= i64::MAX,
    ensures
        model::frame(model::encoded(Resp::Integer(n)) + rest) == (Outcome::Done {
            value: Resp::Integer(n),
            used: model::encoded(Resp::Integer(n)).len(),
        }),
{
    let b = model::encoded(Resp::Integer(n)) + rest;
    assert(b.skip(1) =~= text::decimal_int(n) + model::crlf() + rest);
    lemma_number_line_round_trip(n, rest);
    assert(b[0] == 58);
}

/// What is encoded is read back: the parser takes exactly the encoding of a
/// transmissible value off the front of a stream, and gives that value.
pub proof fn law_round_trip(v: Resp, rest: Seq<u8>)
    requires
        transmissible(v),
    ensures
        model::frame(model::encoded(v) + rest) == (Outcome::Done {
            value: v,
            used: model::encoded(v).len(),
        }),
    decreases v,
{
    match v {
        Resp::SimpleString(s) => lemma_text_round_trip(43, s, rest),
        Resp::Error(s) => lemma_text_round_trip(45, s, rest),
        Resp::Integer(n) => lemma_integer_round_trip(n, rest),
        Resp::BulkString(None) => lemma_null_round_trip(rest),
        Resp::BulkString(Some(data)) => lemma_bulk_round_trip(data, rest),
        Resp::Array(None) => lemma_null_round_trip(rest),
        Resp::Array(Some(items)) => {
            let b = model::encoded(v) + rest;
            let n = items.len() as int;
            let more = model::encoded_all(items) + rest;
            assert(text::decimal_int(n) == text::decimal(items.len()));
            assert(b.skip(1) =~= text::decimal_int(n) + model::crlf() + more);
            lemma_number_line_round_trip(n, more);
            let start = text::decimal_int(n).len() + 3;
            assert(b.skip(start as int) =~= more);
            law_round_trip_all(items, rest);
        },
    }
}

/// Several values in a row are read back as they were encoded.
pub proof fn law_round_trip_all(items: Seq<Resp>, rest: Seq<u8>)
    requires
        all_transmissible(items),
    ensures
        model::frames(model::encoded_all(items) + rest, items.len()) == (Outcome::Done {
            value: items,
            used: model::encoded_all(items).len(),
        }),
    decreases items,
{
    let b = model::encoded_all(items) + rest;
    if items.len() == 0 {
        assert(items =~= Seq::<Resp>::empty());
    } else {
        let first = items[0];
        let tail = items.drop_first();
        lemma_all_transmissible(items);
        lemma_all_transmissible(tail);
        lemma_encoded_all_front(items);
        let more = model::encoded_all(tail) + rest;
        assert(b =~= model::encoded(first) + more);
        law_round_trip(first, more);
        assert(b.skip(model::encoded(first).len() as int) =~= more);
        law_round_trip_all(tail, rest);
        assert(seq![first] + tail =~= items);
    }
}

/// A text line is read back as it was encoded.
proof fn lemma_text_round_trip(kind: u8, s: Seq<char>, rest: Seq<u8>)
    requires
        single_line(s),
    ensures
        model::text_frame(seq![kind] + encode_utf8(s) + model::crlf() + rest) == (Outcome::Done {
            value: s,
            used: encode_utf8(s).len() + 3,
        }),
{
    let c = encode_utf8(s);
    let b = seq![kind] + c + model::crlf() + rest;
    let t = b.skip(1);
    assert(t =~= c + model::crlf() + rest);
    lemma_single_line_bytes(s);
    assert forall|i: int| 0 <= i < c.len() implies !(#[trigger] t[i] == 13 && t[i + 1] == 10) by {
        assert(t[i] == c[i]);
        if i < c.len() - 1 {
            assert(t[i + 1] == c[i + 1]);
        } else {
            assert(t[i + 1] == 13);
        }
    }
    lemma_find_crlf_is(t, c.len());
    assert(b.subrange(1, 1 + c.len() as int) =~= c);
    encode_utf8_valid_utf8(s);
    encode_utf8_decode_utf8(s);
}

/// A number that ends before the input does is the same with more input.
proof fn lemma_signed_int_extend(b: Seq<u8>, c: Seq<u8>)
    ensures
        model::signed_int(b) !is Incomplete ==> model::signed_int(b + c) == model::signed_int(b),
        model::signed_int(b) matches Outcome::Done { value, used } ==> 1 <= used < b.len(),
        model::signed_int(b) matches Outcome::Invalid { code, at } ==> at < b.len(),
{
    let neg = b.len() > 0 && b[0] == 45;
    let s: int = if neg {
        1
    } else {
        0
    };
    let tail = b.skip(s);
    let d = text::digit_run(tail);
    text::lemma_digit_run(tail);
    if s + d < b.len() {
        let e = b + c;
        let more = e.skip(s);
        assert forall|i: int| 0 <= i < d implies text::is_digit(#[trigger] more[i]) by {
            assert(more[i] == tail[i]);
        }
        assert(more[d as int] == tail[d as int]);
        text::lemma_digit_run_is(more, d);
        assert(e.subrange(s, s + d) =~= b.subrange(s, s + d));
    }
}

/// A number line that has arrived is the same with more input.
proof fn lemma_number_line_extend(b: Seq<u8>, c: Seq<u8>)
    ensures
        model::number_line(b) !is Incomplete ==> model::number_line(b + c) == model::number_line(b),
        model::number_line(b) matches Outcome::Done { value, used } ==> 1 <= used <= b.len(),
        model::number_line(b) matches Outcome::Invalid { code, at } ==> at < b.len(),
{
    lemma_signed_int_extend(b, c);
}

/// The first line end stays the first with more input.
proof fn lemma_find_crlf_extend(b: Seq<u8>, c: Seq<u8>)
    ensures
        model::find_crlf(b) matches Some(n) ==> model::find_crlf(b + c) == Some(n) && n + 2
            <= b.len(),
    decreases b.len(),
{
    if b.len() >= 2 && !(b[0] == 13 && b[1] == 10) {
        lemma_find_crlf_extend(b.drop_first(), c);
        assert((b + c).drop_first() =~= b.drop_first() + c);
    }
}

/// A bulk string that has arrived is the same with more input.
proof fn lemma_bulk_extend(b: Seq<u8>, c: Seq<u8>)
    requires
        b.len() > 0,
    ensures
        model::bulk_frame(b) !is Incomplete ==> model::bulk_frame(b + c) == model::bulk_frame(b),
        model::bulk_frame(b) matches Outcome::Done { value, used } ==> 1 <= used <= b.len(),
        model::bulk_frame(b) matches Outcome::Invalid { code, at } ==> at < b.len(),
{
    let e = b + c;
    assert(e.skip(1) =~= b.skip(1) + c);
    lemma_number_line_extend(b.skip(1), c);
    if let Outcome::Done { value, used } = model::number_line(b.skip(1)) {
        let start = used + 1;
        let end = start + value;
        if value >= 0 && end <= b.len() {
            assert(e.subrange(start as int, end as int) =~= b.subrange(start as int, end as int));
        }
    }
}

/// A frame that has arrived is not changed by what arrives later: where the
/// parser gives a value or an error for some bytes, it gives the same for any
/// bytes that go on from there. A frame takes at least one byte and at most
/// those there are, and an error is found at one of them.
pub proof fn law_frame_stable(b: Seq<u8>, c: Seq<u8>)
    ensures
        model::frame(b) !is Incomplete ==> model::frame(b + c) == model::frame(b),
        model::frame(b) matches Outcome::Done { value, used } ==> 1 <= used <= b.len(),
        model::frame(b) matches Outcome::Invalid { code, at } ==> at < b.len(),
    decreases b.len(), 1nat, 0nat,
{
    let e = b + c;
    if b.len() > 0 {
        assert(e[0] == b[0]);
        assert(e.skip(1) =~= b.skip(1) + c);
        if b[0] == 43 || b[0] == 45 {
            lemma_find_crlf_extend(b.skip(1), c);
            if let Some(n) = model::find_crlf(b.skip(1)) {
                assert(e.subrange(1, 1 + n as int) =~= b.subrange(1, 1 + n as int));
            }
        } else if b[0] == 58 {
            lemma_number_line_extend(b.skip(1), c);
        } else if b[0] == 36 {
            lemma_bulk_extend(b, c);
        } else if b[0] == 42 {
            lemma_number_line_extend(b.skip(1), c);
            if let Outcome::Done { value, used } = model::number_line(b.skip(1)) {
                let start = used + 1;
                if value >= 0 {
                    lemma_frames_stable(b.skip(start as int), c, value as nat);
                    assert(e.skip(start as int) =~= b.skip(start as int) + c);
                }
            }
        }
    }
}

/// Frames that have arrived are not changed by what arrives later.
proof fn lemma_frames_stable(b: Seq<u8>, c: Seq<u8>, n: nat)
    ensures
        model::frames(b, n) !is Incomplete ==> model::frames(b + c, n) == model::frames(b, n),
        model::frames(b, n) matches Outcome::Done { value, used } ==> used <= b.len(),
        model::frames(b, n) matches Outcome::Invalid { code, at } ==> at < b.len(),
    decreases b.len(), 2nat, n,
{
    if n > 0 {
        law_frame_stable(b, c);
        if let Outcome::Done { value, used } = model::frame(b) {
            lemma_frames_stable(b.skip(used as int), c, (n - 1) as nat);
            assert((b + c).skip(used as int) =~= b.skip(used as int) + c);
        }
    }
}

/// A length or a count below -1 is no RESP2, whatever follows it: the parser does
/// not wait for more.
pub proof fn law_negative_sizes_are_invalid(kind: u8, n: int, rest: Seq<u8>)
    requires
        kind == 36 || kind == 42,
        i64::MIN <= n < -1,
    ensures
        model::frame(seq![kind] + text::decimal_int(n) + model::crlf() + rest) is Invalid,
{
    let b = seq![kind] + text::decimal_int(n) + model::crlf() + rest;
    lemma_number_line_round_trip(n, rest);
    assert(b.skip(1) =~= text::decimal_int(n) + model::crlf() + rest);
    assert(b[0] == kind);
}

/// A part of a frame is no frame: the parser asks for more after any proper prefix
/// of the encoding of a transmissible value.
pub proof fn law_prefix_is_incomplete(v: Resp, n: int)
    requires
        transmissible(v),
        0 <= n < model::encoded(v).len(),
    ensures
        model::frame(model::encoded(v).take(n)) is Incomplete,
{
    let e = model::encoded(v);
    law_round_trip(v, Seq::empty());
    assert(e + Seq::<u8>::empty() =~= e);
    law_frame_stable(e.take(n), e.skip(n));
    assert(e.take(n) + e.skip(n) =~= e);
}

/// No encoding is a prefix of another, so different values have different
/// encodings.
pub proof fn law_prefix_free(v: Resp, w: Resp)
    requires
        transmissible(v),
        transmissible(w),
        v != w,
    ensures
        !model::encoded(v).is_prefix_of(model::encoded(w)),
        !model::encoded(w).is_prefix_of(model::encoded(v)),
        model::encoded(v) != model::encoded(w),
{
    lemma_not_prefix(v, w);
    lemma_not_prefix(w, v);
    if model::encoded(v) == model::encoded(w) {
        assert(model::encoded(v).is_prefix_of(model::encoded(w)));
    }
}

/// The encoding of a value is no prefix of that of another.
proof fn lemma_not_prefix(v: Resp, w: Resp)
    requires
        transmissible(v),
        transmissible(w),
        v != w,
    ensures
        !model::encoded(v).is_prefix_of(model::encoded(w)),
{
    let a = model::encoded(v);
    let b = model::encoded(w);
    if a.is_prefix_of(b) {
        let rest = b.skip(a.len() as int);
        assert(b =~= a + rest);
        law_round_trip(v, rest);
        law_round_trip(w, Seq::empty());
        assert(b + Seq::<u8>::empty() =~= b);
    }
}

/// What a connection gets to see of a stream: a value, or an error.
pub enum Event {
    Frame(Resp),
    Bad(ErrorKind),
}

/// How many bytes the next value or error takes off the front of a stream: the
/// bytes of the value, or those before the position of the error, but at least
/// one.
#[verifier::opaque]
pub open spec fn step(b: Seq<u8>) -> Option<(Event, nat)> {
    match model::frame(b) {
        Outcome::Done { value, used } => Some((Event::Frame(value), used)),
        Outcome::Incomplete => None,
        Outcome::Invalid { code, at } => Some(
            (
                Event::Bad(code),
                if at > 0 {
                    at
                } else {
                    1
                },
            ),
        ),
    }
}

/// What is seen of a stream, taken off its front until more bytes are needed.
pub open spec fn events(b: Seq<u8>) -> Seq<Event>
    decreases b.len(),
{
    match step(b) {
        Some((e, n)) if 1 <= n <= b.len() => seq![e] + events(b.skip(n as int)),
        _ => Seq::empty(),
    }
}

/// What is left of a stream when more bytes are needed.
pub open spec fn leftover(b: Seq<u8>) -> Seq<u8>
    decreases b.len(),
{
    match step(b) {
        Some((e, n)) if 1 <= n <= b.len() => leftover(b.skip(n as int)),
        _ => b,
    }
}

/// The next value or error is not changed by what arrives later, and takes at
/// least one byte.
proof fn lemma_step_stable(b: Seq<u8>, c: Seq<u8>)
    ensures
        step(b) is Some ==> step(b + c) == step(b),
        step(b) matches Some((e, n)) ==> 1 <= n <= b.len(),
{
    reveal(step);
    law_frame_stable(b, c);
}

/// What is seen of a stream begins with its first frame or error, and goes on
/// behind it.
pub proof fn lemma_events_step(b: Seq<u8>)
    ensures
        match model::frame(b) {
            Outcome::Done { value, used } => {
                &&& 1 <= used <= b.len()
                &&& events(b).len() > 0
                &&& events(b)[0] == Event::Frame(value)
                &&& events(b).drop_first() == events(b.skip(used as int))
                &&& leftover(b) == leftover(b.skip(used as int))
            },
            Outcome::Incomplete => events(b) == Seq::<Event>::empty() && leftover(b) == b,
            Outcome::Invalid { code, at } => {
                let n: int = if at > 0 {
                    at as int
                } else {
                    1
                };
                &&& 1 <= n <= b.len()
                &&& events(b).len() > 0
                &&& events(b)[0] == Event::Bad(code)
                &&& events(b).drop_first() == events(b.skip(n))
                &&& leftover(b) == leftover(b.skip(n))
            },
        },
{
    reveal(step);
    law_frame_stable(b, Seq::empty());
    if let Some((e, n)) = step(b) {
        assert((seq![e] + events(b.skip(n as int))).drop_first() =~= events(b.skip(n as int)));
    }
}

/// It does not matter in which pieces a stream arrives: what is seen of two
/// pieces, one after the other, is what is seen of the whole, and so is what is
/// left of it.
pub proof fn law_chunks(b: Seq<u8>, c: Seq<u8>)
    ensures
        events(b + c) == events(b) + events(leftover(b) + c),
        leftover(b + c) == leftover(leftover(b) + c),
    decreases b.len(),
{
    lemma_step_stable(b, c);
    if let Some((e, n)) = step(b) {
        let rest = b.skip(n as int);
        let whole = b + c;
        law_chunks(rest, c);
        assert(whole.skip(n as int) =~= rest + c);
        assert(events(whole) == seq![e] + events(rest + c));
        assert(events(b) == seq![e] + events(rest));
        assert(leftover(b) == leftover(rest));
        assert((seq![e] + events(rest)) + events(leftover(b) + c) =~= seq![e] + (events(rest)
            + events(leftover(b) + c)));
    } else {
        assert(events(b) =~= Seq::<Event>::empty());
        assert(leftover(b) == b);
        assert(events(b) + events(b + c) =~= events(b + c));
    }
}

/// A stream of encoded values is seen as those values, and nothing is left.
pub proof fn law_stream_round_trip(items: Seq<Resp>)
    requires
        all_transmissible(items),
    ensures
        events(model::encoded_all(items)) == items.map_values(|v: Resp| Event::Frame(v)),
        leftover(model::encoded_all(items)) == Seq::<u8>::empty(),
    decreases items.len(),
{
    reveal(step);
    let b = model::encoded_all(items);
    if items.len() == 0 {
        assert(events(b) =~= items.map_values(|v: Resp| Event::Frame(v)));
    } else {
        let tail = items.drop_first();
        let more = model::encoded_all(tail);
        lemma_all_transmissible(items);
        lemma_all_transmissible(tail);
        lemma_encoded_all_front(items);
        law_round_trip(items[0], more);
        law_frame_stable(b, Seq::empty());
        assert(b.skip(model::encoded(items[0]).len() as int) =~= more);
        law_stream_round_trip(tail);
        assert(events(b) =~= items.map_values(|v: Resp| Event::Frame(v)));
    }
}

} // verus!
