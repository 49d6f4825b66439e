//! Answers on the wire: one payload in as many packets as it takes.

use vstd::prelude::*;

use crate::protocol;
use crate::protocol::{
    MessageKind, Operation, Packet, PacketModel, ProtocolError, StatusCode, MAX_PAYLOAD_LEN,
};

verus! {

/// The longest answer, in bytes.
pub const MAX_RESPONSE: usize = 8_388_608;

/// The most bytes that may wait for all clients together.
pub const MAX_QUEUED: usize = 67_108_864;

/// Whether an answer may be queued beside the bytes that wait already.
pub open spec fn queueable(queued: nat, length: nat) -> bool {
    length <= MAX_RESPONSE && queued + length <= MAX_QUEUED
}

/// Whether an answer may be queued beside the bytes that wait already; the client of an
/// answer that may not is dropped.
pub fn may_queue(queued: usize, length: usize) -> (r: bool)
    ensures
        r == queueable(queued as nat, length as nat),
{
    length <= MAX_RESPONSE && queued <= MAX_QUEUED - length
}

/// A payload in parts of the longest size; an empty one is one empty part.
pub open spec fn parts(payload: Seq<u8>) -> Seq<Seq<u8>>
    decreases payload.len(),
{
    if payload.len() <= MAX_PAYLOAD_LEN {
        seq![payload]
    } else {
        seq![payload.take(MAX_PAYLOAD_LEN as int)] + parts(payload.skip(MAX_PAYLOAD_LEN as int))
    }
}

/// One packet of an answer.
pub open spec fn response_packet(
    request_id: u64,
    operation: Operation,
    status: StatusCode,
    list: Seq<Seq<u8>>,
    i: int,
) -> PacketModel {
    PacketModel {
        kind: MessageKind::Response,
        request_id,
        operation,
        status,
        more: i + 1 < list.len(),
        payload: list[i],
    }
}

/// The packets of an answer: all but the last say that more follow.
pub open spec fn response(
    request_id: u64,
    operation: Operation,
    status: StatusCode,
    payload: Seq<u8>,
) -> Seq<PacketModel> {
    let list = parts(payload);
    Seq::new(list.len(), |i: int| response_packet(request_id, operation, status, list, i))
}

/// The payloads of packets, one after the other.
pub open spec fn gathered(packets: Seq<PacketModel>) -> Seq<u8>
    decreases packets.len(),
{
    if packets.len() == 0 {
        Seq::empty()
    } else {
        packets[0].payload + gathered(packets.drop_first())
    }
}

/// The parts of a payload, one after the other.
pub open spec fn rejoined(list: Seq<Seq<u8>>) -> Seq<u8>
    decreases list.len(),
{
    if list.len() == 0 {
        Seq::empty()
    } else {
        list[0] + rejoined(list.drop_first())
    }
}

proof fn parts_rejoin(payload: Seq<u8>)
    ensures
        rejoined(parts(payload)) == payload,
        parts(payload).len() > 0,
        forall|i: int|
            0 <= i < parts(payload).len() ==> (#[trigger] parts(payload)[i]).len()
                <= MAX_PAYLOAD_LEN,
    decreases payload.len(),
{
    reveal_with_fuel(rejoined, 2);
    if payload.len() <= MAX_PAYLOAD_LEN {
        assert(seq![payload].drop_first() =~= Seq::<Seq<u8>>::empty());
        assert(rejoined(seq![payload]) =~= payload);
    } else {
        let head = payload.take(MAX_PAYLOAD_LEN as int);
        let rest = payload.skip(MAX_PAYLOAD_LEN as int);
        parts_rejoin(rest);
        let list = parts(payload);
        assert(list.drop_first() =~= parts(rest));
        assert(head + rest =~= payload);
        assert forall|i: int| 0 <= i < list.len() implies (#[trigger] list[i]).len()
            <= MAX_PAYLOAD_LEN by {
            if i > 0 {
                assert(list[i] == parts(rest)[i - 1]);
            }
        }
    }
}

proof fn gather_parts(packets: Seq<PacketModel>, list: Seq<Seq<u8>>)
    requires
        packets.len() == list.len(),
        forall|i: int| 0 <= i < list.len() ==> (#[trigger] packets[i]).payload == list[i],
    ensures
        gathered(packets) == rejoined(list),
    decreases list.len(),
{
    if list.len() > 0 {
        let fewer = packets.drop_first();
        let shorter = list.drop_first();
        assert forall|i: int| 0 <= i < shorter.len() implies (#[trigger] fewer[i]).payload
            == shorter[i] by {
            assert(fewer[i] == packets[i + 1]);
        }
        gather_parts(fewer, shorter);
    }
}

/// The packets of an answer carry its payload whole: every one of them fits the wire, the
/// last one and only that says that nothing follows, and their payloads together are the
/// payload.
pub proof fn response_law(
    request_id: u64,
    operation: Operation,
    status: StatusCode,
    payload: Seq<u8>,
)
    ensures
        ({
            let packets = response(request_id, operation, status, payload);
            &&& packets.len() > 0
            &&& gathered(packets) == payload
            &&& forall|i: int|
                0 <= i < packets.len() ==> (#[trigger] packets[i]).payload.len()
                    <= MAX_PAYLOAD_LEN && packets[i].more == (i < packets.len() - 1)
                    && protocol::decoded(protocol::encoded(packets[i])) == Ok::<
                    PacketModel,
                    ProtocolError,
                >(packets[i])
        }),
{
    let packets = response(request_id, operation, status, payload);
    parts_rejoin(payload);
    gather_parts(packets, parts(payload));
    assert forall|i: int| 0 <= i < packets.len() implies (#[trigger] packets[i]).payload.len()
        <= MAX_PAYLOAD_LEN && packets[i].more == (i < packets.len() - 1) && protocol::decoded(
        protocol::encoded(packets[i]),
    ) == Ok::<PacketModel, ProtocolError>(packets[i]) by {
        assert(parts(payload)[i].len() <= MAX_PAYLOAD_LEN);
        protocol::decode_after_encode(packets[i]);
    }
}

/// The bytes of the packets of an answer.
pub fn response_packets(
    request_id: u64,
    operation: Operation,
    status: StatusCode,
    payload: &Vec<u8>,
) -> (r: Vec<Vec<u8>>)
    ensures
        r@.len() == response(request_id, operation, status, payload@).len(),
        forall|i: int|
            0 <= i < r@.len() ==> (#[trigger] r@[i])@ == protocol::encoded(
                response(request_id, operation, status, payload@)[i],
            ),
{
    let ghost list = parts(payload@);
    let ghost packets = response(request_id, operation, status, payload@);
    let mut r: Vec<Vec<u8>> = Vec::new();
    let mut start: usize = 0;
    let mut done = false;
    proof {
        parts_rejoin(payload@);
        assert(payload@.skip(0) =~= payload@);
        assert(list =~= Seq::<Seq<u8>>::empty() + parts(payload@.skip(0)));
    }
    while !done
        invariant
            list == parts(payload@),
            packets == response(request_id, operation, status, payload@),
            forall|i: int|
                0 <= i < list.len() ==> (#[trigger] list[i]).len() <= MAX_PAYLOAD_LEN,
            start <= payload@.len(),
            r@.len() <= list.len(),
            !done ==> r@.len() < list.len() && list.skip(r@.len() as int) == parts(
                payload@.skip(start as int),
            ),
            done ==> r@.len() == list.len(),
            forall|i: int|
                0 <= i < r@.len() ==> (#[trigger] r@[i])@ == protocol::encoded(packets[i]),
        decreases
                payload@.len() - start + (if done {
                    0int
                } else {
                    1int
                }),
    {
        let left = payload.len() - start;
        let last = left <= MAX_PAYLOAD_LEN;
        let end = if last {
            payload.len()
        } else {
            start + MAX_PAYLOAD_LEN
        };
        let ghost rest = payload@.skip(start as int);
        let ghost k = r@.len() as int;
        let packet = Packet {
            kind: MessageKind::Response,
            request_id,
            operation,
            status,
            more: !last,
            payload: protocol::bytes_between(payload.as_slice(), start, end),
        };
        proof {
            let tail = list.skip(k);
            assert(tail[0] == list[k]);
            if last {
                assert(payload@.subrange(start as int, end as int) =~= rest);
                assert(tail.len() == 1);
            } else {
                assert(payload@.subrange(start as int, end as int) =~= rest.take(
                    MAX_PAYLOAD_LEN as int,
                ));
                let more = payload@.skip(end as int);
                assert(rest.skip(MAX_PAYLOAD_LEN as int) =~= more);
                parts_rejoin(more);
                assert(list.skip(k + 1) =~= tail.drop_first());
                assert(tail.drop_first() =~= parts(more));
                assert(list.skip(k + 1).len() > 0);
            }
            assert(packet@ =~= packets[k]);
        }
        match packet.encode() {
            Ok(bytes) => {
                r.push(bytes);
            },
            Err(_) => {
                proof {
                    assert(list[k].len() <= MAX_PAYLOAD_LEN);
                }
            },
        }
        start = end;
        done = last;
    }
    r
}

/// What every packet of an answer says: that it is one, to which request and operation, and
/// with which status. Each but the last is full.
pub proof fn response_fields_law(
    request_id: u64,
    operation: Operation,
    status: StatusCode,
    payload: Seq<u8>,
    i: int,
)
    requires
        0 <= i < response(request_id, operation, status, payload).len(),
    ensures
        ({
            let packets = response(request_id, operation, status, payload);
            let p = packets[i];
            &&& p.kind == MessageKind::Response
            &&& p.request_id == request_id
            &&& p.operation == operation
            &&& p.status == status
            &&& p.more <==> i < packets.len() - 1
            &&& p.more ==> p.payload.len() == 65508
            &&& payload.len() <= 65508 ==> packets.len() == 1
        }),
{
    full_parts(payload, i);
}

proof fn full_parts(payload: Seq<u8>, i: int)
    requires
        0 <= i < parts(payload).len(),
    ensures
        i < parts(payload).len() - 1 ==> parts(payload)[i].len() == 65508,
    decreases payload.len(),
{
    if payload.len() > MAX_PAYLOAD_LEN && i > 0 {
        full_parts(payload.skip(MAX_PAYLOAD_LEN as int), i - 1);
    }
}

/// How much may wait: an answer of up to eight mebibytes, and up to sixty-four for all.
pub proof fn queue_law(queued: nat, length: nat)
    ensures
        queueable(queued, length) <==> length <= 8 * 1024 * 1024 && queued + length <= 64 * 1024
            * 1024,
{
}

} // verus!
