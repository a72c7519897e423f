//! What stands in the files, and how they are read back frame by frame.
use crate::cmd;
use crate::cmd::model::Cmd;
use crate::persistence;
use crate::persistence::model;
use crate::persistence::SaveOutcome;
use crate::resp;
use crate::resp::model::{ErrorKind, Outcome, Resp};
use crate::resp::parser;
use crate::store::model::Table;
use crate::text;
use vstd::prelude::*;
use vstd::utf8::*;

verus! {

/// A frame stands for a command if it is an array that is understood as one.
pub proof fn law_commands_in_frames(frame: Resp, items: Seq<Resp>, c: Cmd)
    ensures
        cmd::model::command_of(items) == Ok::<Cmd, Seq<char>>(c) ==> model::command_in(
            Resp::Array(Some(items)),
        ) == Some(c),
        cmd::model::command_of(items) is Err ==> model::command_in(Resp::Array(Some(items)))
            is None,
        !(frame is Array) || frame->Array_0 is None ==> model::command_in(frame) is None,
{
}

/// A frame that stands for a command does what the command does, and any other
/// frame does nothing.
pub proof fn law_executed_frames(frame: Resp, frames: Seq<Resp>, t: Table, now: u128)
    ensures
        model::command_in(frame) is None ==> model::after_frame(frame, t, now) == t,
        model::command_in(frame) is Some ==> model::after_frame(frame, t, now)
            == cmd::model::effect(model::command_in(frame)->0, t, now),
        model::after_frames(Seq::empty(), t, now) == t,
        model::after_frames(frames.push(frame), t, now) == model::after_frame(
            frame,
            model::after_frames(frames, t, now),
            now,
        ),
        model::count_commands(Seq::empty()) == 0,
        model::count_commands(frames.push(frame)) == model::count_commands(frames)
            + if model::command_in(frame) is Some {
            1nat
        } else {
            0nat
        },
{
    assert(frames.push(frame).drop_last() =~= frames);
}

/// A file is read back frame by frame: each is executed, and counts if it is a
/// command. Reading ends well where no whole frame is left, and with an error at
/// bytes that are no RESP2.
pub proof fn law_read_back_step(b: Seq<u8>, t: Table, now: u128, count: nat)
    ensures
        model::replay(Seq::empty(), t, now, count).result == Ok::<nat, ErrorKind>(count),
        model::replay(Seq::empty(), t, now, count).table == t,
        resp::model::frame(b) is Incomplete ==> model::replay(b, t, now, count).result == Ok::<
            nat,
            ErrorKind,
        >(count) && model::replay(b, t, now, count).table == t,
        resp::model::frame(b) matches Outcome::Invalid { code, at } ==> model::replay(
            b,
            t,
            now,
            count,
        ).result == Err::<nat, ErrorKind>(code) && model::replay(b, t, now, count).table == t,
        resp::model::frame(b) matches Outcome::Done { value, used } ==> model::replay(
            b,
            t,
            now,
            count,
        ) == model::replay(
            b.skip(used as int),
            model::after_frame(value, t, now),
            now,
            if model::command_in(value) is Some {
                (count + 1) as nat
            } else {
                count
            },
        ),
{
    resp::laws::law_frame_stable(b, Seq::empty());
}

/// Reading back tells the number of commands, or the message of the error behind
/// the given words.
pub proof fn law_read_back_results(
    r: Result<usize, String>,
    n: nat,
    code: ErrorKind,
    prefix: Seq<char>,
)
    ensures
        persistence::read_back(r, Ok(n), prefix) == (r is Ok && r->Ok_0 == n),
        persistence::read_back(r, Err(code), prefix) == (r is Err && r->Err_0@ == prefix
            + parser::parse_error_text(code)),
{
}

/// The frame by which a snapshot sets a key is the request SET with the key and the
/// value, and with EX and the seconds if the key expires.
pub proof fn law_set_frames(key: Seq<u8>, value: Seq<u8>, secs: u64)
    ensures
        model::set_frame((key, value, None)) == Resp::Array(
            Some(
                seq![
                    Resp::BulkString(Some(encode_utf8("SET"@))),
                    Resp::BulkString(Some(key)),
                    Resp::BulkString(Some(value)),
                ],
            ),
        ),
        model::set_frame((key, value, Some(secs))) == Resp::Array(
            Some(
                seq![
                    Resp::BulkString(Some(encode_utf8("SET"@))),
                    Resp::BulkString(Some(key)),
                    Resp::BulkString(Some(value)),
                    Resp::BulkString(Some(encode_utf8("EX"@))),
                    Resp::BulkString(Some(text::decimal(secs as nat))),
                ],
            ),
        ),
{
    assert(cmd::laws::set_request(key, value, Some(secs)) =~= seq![
        Resp::BulkString(Some(encode_utf8("SET"@))),
        Resp::BulkString(Some(key)),
        Resp::BulkString(Some(value)),
        Resp::BulkString(Some(encode_utf8("EX"@))),
        Resp::BulkString(Some(text::decimal(secs as nat))),
    ]);
}

/// A snapshot is made of the frames of its entries, one after another.
pub proof fn law_snapshot_file(
    entries: Seq<(Seq<u8>, Seq<u8>, Option<u64>)>,
    e: (Seq<u8>, Seq<u8>, Option<u64>),
)
    ensures
        model::snapshot_bytes(Seq::empty()) == Seq::<u8>::empty(),
        model::snapshot_bytes(entries.push(e)) == model::snapshot_bytes(entries)
            + resp::model::encoded(model::set_frame(e)),
{
    assert(model::snapshot_bytes(Seq::empty()) =~= Seq::<u8>::empty());
    let frames = model::snapshot_frames(entries.push(e));
    assert(frames.drop_last() =~= model::snapshot_frames(entries));
}

/// Saving a snapshot is answered with `+OK`, or with an error that says which step
/// failed and why, on a single line.
pub proof fn law_save_replies(e: String)
    ensures
        persistence::save_reply_of(SaveOutcome::Saved) == Resp::SimpleString("OK"@),
        persistence::save_reply_of(SaveOutcome::WriteFailed(e)) == Resp::Error(
            "ERR saving snapshot: "@ + text::unbroken(e@),
        ),
        persistence::save_reply_of(SaveOutcome::RenameFailed(e)) == Resp::Error(
            "ERR renaming snapshot: "@ + text::unbroken(e@),
        ),
{
}

} // verus!
