//! GELF over TCP: records with a null behind each.
use vstd::prelude::*;

verus! {

/// What a client sent is over, is nothing, or is a record.
#[derive(Debug, Clone, Copy, PartialEq, Eq, Structural)]
pub enum Frame {
    /// The client closed the connection.
    End,
    /// Two nulls in a row: nothing to read.
    Empty,
    /// A record, without the null behind it.
    Record,
}

/// What was read up to a null, without that null.
pub open spec fn frame_body(read: Seq<u8>) -> Seq<u8> {
    if read.len() > 0 && read.last() == 0 {
        read.drop_last()
    } else {
        read
    }
}

/// Take the null off what was read up to one, and say what it is. Nothing read
/// at all means that the client closed the connection.
pub fn close_frame(buf: &mut Vec<u8>) -> (frame: Frame)
    ensures
        final(buf)@ == frame_body(old(buf)@),
        frame == (if old(buf)@.len() == 0 {
            Frame::End
        } else if frame_body(old(buf)@).len() == 0 {
            Frame::Empty
        } else {
            Frame::Record
        }),
{
    if buf.len() == 0 {
        return Frame::End;
    }
    if buf[buf.len() - 1] == 0 {
        buf.pop();
    }
    if buf.len() == 0 {
        Frame::Empty
    } else {
        Frame::Record
    }
}

/// The null behind a record is no part of it, and nothing else is taken off.
pub proof fn records_lose_only_their_null(record: Seq<u8>)
    ensures
        frame_body(record.push(0)) == record,
        record.len() > 0 && record.last() != 0 ==> frame_body(record) == record,
        frame_body(seq![]) == Seq::<u8>::empty(),
{
    assert(record.push(0).drop_last() =~= record);
}

} // verus!
