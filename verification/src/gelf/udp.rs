//! GELF over UDP: one record per datagram.
use vstd::prelude::*;

verus! {

/// The receive buffer asked for. A system's default can drop datagrams under
/// burst even where they are drained quickly; the kernel may grant less.
pub const UDP_RCVBUF_BYTES: usize = 8_388_608;

/// What a datagram carries: some senders end it with nulls, as over TCP.
pub open spec fn payload(datagram: Seq<u8>) -> Seq<u8>
    decreases datagram.len(),
{
    if datagram.len() > 0 && datagram.last() == 0 {
        payload(datagram.drop_last())
    } else {
        datagram
    }
}

/// Where the payload of a datagram of `len` bytes ends in its buffer.
pub fn payload_end(buf: &[u8], len: usize) -> (end: usize)
    requires
        len <= buf@.len(),
    ensures
        end <= len,
        buf@.take(end as int) == payload(buf@.take(len as int)),
{
    let mut end: usize = len;
    while end > 0 && buf[end - 1] == 0
        invariant
            end <= len <= buf@.len(),
            payload(buf@.take(end as int)) == payload(buf@.take(len as int)),
        decreases end,
    {
        proof {
            assert(buf@.take(end as int).drop_last() =~= buf@.take(end - 1));
            assert(buf@.take(end as int).last() == buf@[end - 1]);
        }
        end -= 1;
    }
    proof {
        if end > 0 {
            assert(buf@.take(end as int).last() == buf@[end - 1]);
        }
    }
    end
}

/// A payload does not end with a null, and what was cut is nulls only.
pub proof fn payloads_lose_only_trailing_nulls(datagram: Seq<u8>)
    ensures
        payload(datagram).len() <= datagram.len(),
        payload(datagram).len() > 0 ==> payload(datagram).last() != 0,
        payload(datagram) == datagram.take(payload(datagram).len() as int),
        forall|i: int| payload(datagram).len() <= i < datagram.len() ==> #[trigger] datagram[i] == 0,
    decreases datagram.len(),
{
    if datagram.len() > 0 && datagram.last() == 0 {
        let front = datagram.drop_last();
        payloads_lose_only_trailing_nulls(front);
        let n = payload(front).len();
        assert(front.take(n as int) =~= datagram.take(n as int));
        assert forall|i: int| n <= i < datagram.len() implies #[trigger] datagram[i] == 0 by {
            if i < front.len() {
                assert(front[i] == 0);
            }
        }
    } else {
        assert(datagram.take(datagram.len() as int) =~= datagram);
    }
}

} // verus!
