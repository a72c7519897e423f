//! What holds between the load generator and the server.
use crate::benchmark::model;
use crate::benchmark::CommandType;
use crate::cmd;
use crate::cmd::model::Cmd;
use crate::resp;
use crate::resp::model::{Outcome, Resp};
use crate::text;
use vstd::prelude::*;
use vstd::utf8::*;

verus! {

/// A number line is read in the same way by both parsers.
proof fn lemma_number_line(b: Seq<u8>)
    ensures
        resp::model::number_line(b) matches Outcome::Done { value, used } ==> used >= 2
            && resp::model::find_crlf(b) == Some((used - 2) as nat) && text::signed_of(
            b.subrange(0, used - 2),
        ) == Some(value),
{
    if let Outcome::Done { value, used } = resp::model::number_line(b) {
        let neg = b.len() > 0 && b[0] == 45;
        let s: int = if neg {
            1
        } else {
            0
        };
        let tail = b.skip(s);
        let d = text::digit_run(tail);
        let end = s + d;
        text::lemma_digit_run(tail);
        assert(used == end + 2);
        assert forall|i: int| 0 <= i < end implies !(#[trigger] b[i] == 13 && b[i + 1] == 10) by {
            if i >= s {
                assert(b[i] == tail[i - s]);
                assert(text::is_digit(tail[i - s]));
            }
        }
        resp::laws::lemma_find_crlf_is(b, end as nat);
        let line = b.subrange(0, end);
        let digits = b.subrange(s, end);
        assert forall|i: int| 0 <= i < digits.len() implies text::is_digit(#[trigger] digits[i]) by {
            assert(digits[i] == tail[i]);
        }
        if neg {
            assert(line[0] == 45);
            assert(line.drop_first() =~= digits);
        } else {
            assert(line =~= digits);
            assert(text::is_digit(digits[0]));
            assert(line[0] == digits[0]);
        }
    }
}

/// The minimal parser measures every frame as the real one does.
pub proof fn law_measure_agrees(b: Seq<u8>)
    ensures
        resp::model::frame(b) matches Outcome::Done { value, used } ==> model::measure(b) == Some(
            used,
        ),
    decreases b.len(), 1nat, 0nat,
{
    if let Outcome::Done { value: v, used } = resp::model::frame(b) {
        let rest = b.skip(1);
        lemma_number_line(rest);
        resp::laws::law_frame_stable(b, Seq::empty());
        if b[0] == 58 || b[0] == 36 || b[0] == 42 {
            if let Outcome::Done { value, used: head } = resp::model::number_line(rest) {
                let n = (head - 2) as nat;
                assert(rest.subrange(0, n as int) =~= b.subrange(1, 1 + n as int));
                if b[0] == 42 && value >= 0 {
                    let start = head + 1;
                    lemma_measure_all(b.skip(start as int), value as nat);
                }
            }
        }
    }
}

/// The minimal parser measures several frames as the real one does.
proof fn lemma_measure_all(b: Seq<u8>, n: nat)
    ensures
        resp::model::frames(b, n) matches Outcome::Done { value, used } ==> model::measure_all(b, n)
            == Some(used),
    decreases b.len(), 2nat, n,
{
    if n > 0 {
        law_measure_agrees(b);
        resp::laws::law_frame_stable(b, Seq::empty());
        if let Outcome::Done { value, used } = resp::model::frame(b) {
            lemma_measure_all(b.skip(used as int), (n - 1) as nat);
        }
    }
}

/// Every request of the load generator is understood by the server as what it is
/// meant to be.
pub proof fn law_requests_are_understood(
    command: CommandType,
    worker: nat,
    number: nat,
    value: Seq<u8>,
)
    ensures
        cmd::model::command_of(model::request(command, worker, number, value)->Array_0->0) == Ok::<
            Cmd,
            Seq<char>,
        >(
            if model::is_set(command, number) {
                Cmd::SetKey {
                    key: model::request_key(worker, number),
                    value,
                    ttl_secs: None,
                }
            } else {
                Cmd::Get(model::request_key(worker, number))
            },
        ),
{
    let key = model::request_key(worker, number);
    let items = model::request(command, worker, number, value)->Array_0->0;
    if model::is_set(command, number) {
        cmd::laws::law_set_request(key, value, None);
        assert(items =~= cmd::laws::set_request(key, value, None));
    } else {
        cmd::laws::law_get_request(key);
        assert(items =~= cmd::laws::get_request(key));
    }
}

/// The replies of the server to SET and to GET of a key that has a value are
/// accepted; the reply to GET of a key without one is not.
pub proof fn law_replies_are_judged(data: Seq<u8>)
    requires
        data.len() <= i64::MAX,
    ensures
        model::is_ok(resp::model::encoded(Resp::SimpleString("OK"@))),
        model::is_bulk(resp::model::encoded(Resp::BulkString(Some(data)))),
        !model::is_bulk(resp::model::encoded(Resp::BulkString(None))),
{
    reveal_strlit("OK");
    reveal_strlit("+OK\r\n");
    is_ascii_chars_encode_utf8("OK"@);
    is_ascii_chars_encode_utf8("+OK\r\n"@);
    assert(encode_utf8("+OK\r\n"@) =~= resp::model::encoded(Resp::SimpleString("OK"@)));
    let n = data.len() as int;
    let full = resp::model::encoded(Resp::BulkString(Some(data)));
    let more = data + resp::model::crlf();
    assert(text::decimal_int(n) == text::decimal(data.len()));
    assert(full.skip(1) =~= text::decimal_int(n) + resp::model::crlf() + more);
    text::lemma_decimal_digits(data.len());
    resp::laws::lemma_number_line_round_trip(n, more);
    lemma_number_line(full.skip(1));
    let line = full.skip(1).subrange(0, text::decimal_int(n).len() as int);
    assert(line =~= full.subrange(1, 1 + text::decimal_int(n).len() as int));
    let null = resp::model::encoded(Resp::BulkString(None));
    assert(null.skip(1) =~= text::decimal_int(-1) + resp::model::crlf() + Seq::<u8>::empty());
    resp::laws::lemma_number_line_round_trip(-1, Seq::empty());
    lemma_number_line(null.skip(1));
    let short = null.skip(1).subrange(0, text::decimal_int(-1).len() as int);
    assert(short =~= null.subrange(1, 1 + text::decimal_int(-1).len() as int));
}

/// Successes and errors add up to the requests made, and a request counts as a
/// success exactly if it got the expected reply.
pub proof fn law_counts_add_up(outcomes: Seq<(bool, bool)>)
    ensures
        model::counts_of(outcomes).success + model::counts_of(outcomes).errors == outcomes.len(),
        model::counts_of(outcomes).success == outcomes.filter(|o: (bool, bool)| o.0 && o.1).len(),
    decreases outcomes.len(),
{
    reveal(Seq::filter);
    if outcomes.len() > 0 {
        law_counts_add_up(outcomes.drop_last());
    }
}

} // verus!
