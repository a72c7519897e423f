//! The text by which a value is shown in messages, as `{:?}` shows it.
use crate::resp::model::Resp;
use crate::resp::parser;
use crate::resp::parser::RespValue;
use crate::text;
use vstd::prelude::*;
use vstd::string::*;

verus! {

/// The numbers of a list of bytes, with commas between them.
pub open spec fn bytes_text(data: Seq<u8>) -> Seq<char>
    decreases data.len(),
{
    if data.len() == 0 {
        Seq::empty()
    } else if data.len() == 1 {
        text::number_text(data[0] as int)
    } else {
        bytes_text(data.drop_last()) + ", "@ + text::number_text(data.last() as int)
    }
}

/// A tag and what it holds in brackets.
pub open spec fn tagged_text(tag: Seq<char>, inner: Seq<char>) -> Seq<char> {
    tag + "("@ + inner + ")"@
}

/// How a value is shown.
pub open spec fn debug_text(v: Resp) -> Seq<char>
    decreases v,
{
    match v {
        Resp::SimpleString(s) => tagged_text("SimpleString"@, text::quoted_text(s)),
        Resp::Error(s) => tagged_text("Error"@, text::quoted_text(s)),
        Resp::Integer(n) => tagged_text("Integer"@, text::number_text(n)),
        Resp::BulkString(None) => "BulkString(None)"@,
        Resp::BulkString(Some(data)) => "BulkString(Some(["@ + bytes_text(data) + "]))"@,
        Resp::Array(None) => "Array(None)"@,
        Resp::Array(Some(items)) => "Array(Some(["@ + items_text(items) + "]))"@,
    }
}

/// How the items of a list are shown, with commas between them.
pub open spec fn items_text(items: Seq<Resp>) -> Seq<char>
    decreases items,
{
    if items.len() == 0 {
        Seq::empty()
    } else if items.len() == 1 {
        debug_text(items[0])
    } else {
        items_text(items.drop_last()) + ", "@ + debug_text(items.last())
    }
}

/// A tag and what it holds in brackets.
pub fn tagged(tag: &str, inner: &str) -> (r: String)
    ensures
        r@ == tagged_text(tag@, inner@),
{
    String::from_str(tag).concat("(").concat(inner).concat(")")
}

/// Appends the numbers of a list of bytes.
fn push_bytes(out: &mut String, data: &[u8])
    ensures
        final(out)@ == old(out)@ + bytes_text(data@),
{
    let mut i: usize = 0;
    let ghost start = out@;
    assert(data@.take(0) =~= Seq::<u8>::empty());
    assert(out@ =~= start + bytes_text(data@.take(0)));
    while i < data.len()
        invariant
            i <= data@.len(),
            out@ == start + bytes_text(data@.take(i as int)),
        decreases data@.len() - i,
    {
        let ghost next = data@.take(i as int + 1);
        assert(next.drop_last() =~= data@.take(i as int));
        assert(next.last() == data@[i as int]);
        if i > 0 {
            out.append(", ");
        }
        let n: String = text::number_string(data[i] as i64);
        out.append(n.as_str());
        assert(out@ =~= start + bytes_text(next));
        i = i + 1;
    }
    assert(data@.take(data@.len() as int) =~= data@);
}

impl RespValue {
    /// Appends how this value is shown.
    fn push_debug(&self, out: &mut String)
        ensures
            final(out)@ == old(out)@ + debug_text(self@),
        decreases self,
    {
        let ghost start = out@;
        match self {
            RespValue::SimpleString(s) => {
                let quoted: String = text::quoted(s.as_str());
                out.append(tagged("SimpleString", quoted.as_str()).as_str());
            },
            RespValue::Error(s) => {
                let quoted: String = text::quoted(s.as_str());
                out.append(tagged("Error", quoted.as_str()).as_str());
            },
            RespValue::Integer(n) => {
                let number: String = text::number_string(*n);
                out.append(tagged("Integer", number.as_str()).as_str());
            },
            RespValue::BulkString(None) => out.append("BulkString(None)"),
            RespValue::BulkString(Some(data)) => {
                out.append("BulkString(Some([");
                push_bytes(out, data.as_slice());
                out.append("]))");
            },
            RespValue::Array(None) => out.append("Array(None)"),
            RespValue::Array(Some(items)) => {
                out.append("Array(Some([");
                let ghost head = out@;
                let ghost all = parser::views(items@);
                let mut i: usize = 0;
                assert(all.take(0) =~= Seq::<Resp>::empty());
                assert(out@ =~= head + items_text(all.take(0)));
                while i < items.len()
                    invariant
                        i <= items@.len(),
                        all == parser::views(items@),
                        self == RespValue::Array(Some(*items)),
                        out@ == head + items_text(all.take(i as int)),
                    decreases items@.len() - i,
                {
                    proof {
                        parser::lemma_items_smaller(*self, *items, i as int);
                    }
                    let ghost next = all.take(i as int + 1);
                    assert(next.drop_last() =~= all.take(i as int));
                    assert(next.last() == items@[i as int]@);
                    if i > 0 {
                        out.append(", ");
                    }
                    items[i].push_debug(out);
                    assert(out@ =~= head + items_text(next));
                    i = i + 1;
                }
                assert(all.take(items@.len() as int) =~= all);
                out.append("]))");
            },
        }
        assert(out@ =~= start + debug_text(self@));
    }

    /// How this value is shown in messages.
    pub fn debug_string(&self) -> (r: String)
        ensures
            r@ == debug_text(self@),
    {
        let mut out: String = String::new();
        self.push_debug(&mut out);
        assert(out@ =~= debug_text(self@));
        out
    }
}

} // verus!
