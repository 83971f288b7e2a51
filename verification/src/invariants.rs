//! What holds of every socket that the engine has worked on, and the proofs
//! that each step keeps it.

use crate::model::{
    acked_prefix, connect_step, distinct_ids, has_socket, lemma_position_unique,
    listen_handler_step, listen_step, position, receive_step, synrcvd_handler_step,
    target_position, timer_from, timer_step, without_socket, ActionView, Sweep,
};
use crate::packet::{ack_of, flag_of, payload_of, seq_of, src_of, window_size_of};
use crate::seqnum::{seq_add, seq_diff, seq_le, seq_lt, HALF_SPACE};
use crate::socket::{
    fresh_socket, lemma_segment_fields, RetransmissionEntryView, SendParam, SentTime, SockID,
    SocketView, TcpStatus, MAX_RTO, MIN_RTO,
};
use crate::tcp::{TCPEvent, TCPEventKind, MAX_TRANSMISSION, MSS};
use crate::tcpflags::{has_flag, lemma_flag_bits, ACK, FIN, SYN};
use vstd::prelude::*;

verus! {

/// An entry was sent at least once and at most five times, and its timeout
/// lies between the clamps.
pub open spec fn entry_bounded(entry: RetransmissionEntryView) -> bool {
    &&& 1 <= entry.transmission_count <= MAX_TRANSMISSION
    &&& MIN_RTO <= entry.rto <= MAX_RTO
}

impl SocketView {
    /// Sequence numbers sent and not yet acknowledged.
    pub open spec fn in_flight(self) -> int {
        seq_diff(self.send_param.next, self.send_param.unacked_seq)
    }

    /// The oldest unacknowledged sequence number does not lie after the next
    /// one to send.
    pub open spec fn send_ordered(self) -> bool {
        seq_le(self.send_param.unacked_seq, self.send_param.next)
    }

    /// How far the queue entry at `i` starts behind the next sequence number
    /// to send.
    pub open spec fn behind(self, i: int) -> int {
        seq_diff(self.send_param.next, seq_of(self.retransmission_queue[i].packet))
    }

    /// The sequence numbers of the queue entries ascend from head to tail:
    /// every entry starts before the next sequence number to send, and none
    /// starts before the entry ahead of it in the queue.
    pub open spec fn queue_ascending(self) -> bool {
        &&& forall|i: int|
            0 <= i < self.retransmission_queue.len() ==> #[trigger] self.behind(i) < HALF_SPACE
        &&& forall|i: int, j: int|
            0 <= i < j < self.retransmission_queue.len() ==> #[trigger] self.behind(i)
                >= #[trigger] self.behind(j)
    }

    /// No queue entry starts before the oldest unacknowledged sequence
    /// number.
    pub open spec fn queue_outstanding(self) -> bool {
        forall|i: int|
            0 <= i < self.retransmission_queue.len() ==> #[trigger] self.behind(i)
                <= self.in_flight()
    }

    /// Every queue entry was sent between one and five times with a timeout
    /// between the clamps.
    pub open spec fn queue_bounded(self) -> bool {
        forall|i: int|
            0 <= i < self.retransmission_queue.len() ==> entry_bounded(
                #[trigger] self.retransmission_queue[i],
            )
    }

    /// What every step of the engine keeps of a socket.
    pub open spec fn inv(self) -> bool {
        &&& self.wf()
        &&& self.send_ordered()
        &&& self.queue_ascending()
        &&& self.queue_bounded()
        &&& self.rto.in_range()
    }
}

/// The acknowledged entries at the head of a queue: every entry before the
/// count is acknowledged, and the one at the count, if any, is not.
proof fn lemma_acked_prefix(queue: Seq<RetransmissionEntryView>, una: u32)
    ensures
        acked_prefix(queue, una) <= queue.len(),
        forall|i: int|
            0 <= i < acked_prefix(queue, una) ==> seq_lt(seq_of(#[trigger] queue[i].packet), una),
        acked_prefix(queue, una) < queue.len() ==> !seq_lt(
            seq_of(queue[acked_prefix(queue, una) as int].packet),
            una,
        ),
    decreases queue.len(),
{
    if queue.len() > 0 && seq_lt(seq_of(queue[0].packet), una) {
        let rest = queue.drop_first();
        lemma_acked_prefix(rest, una);
        assert forall|i: int| 0 <= i < acked_prefix(queue, una) implies seq_lt(
            seq_of(#[trigger] queue[i].packet),
            una,
        ) by {
            if i > 0 {
                assert(queue[i] == rest[i - 1]);
            }
        }
    }
}

/// Dropping the acknowledged entries keeps what holds of the socket, and
/// leaves no entry before the oldest unacknowledged sequence number.
pub proof fn lemma_delete_acked_keeps_invariant(socket: SocketView)
    requires
        socket.inv(),
    ensures
        socket.delete_acked().socket.inv(),
        socket.delete_acked().socket.queue_outstanding(),
        socket.delete_acked().socket.sock_id() == socket.sock_id(),
        socket.delete_acked().socket.status == socket.status,
        socket.delete_acked().socket.send_param == socket.send_param,
        socket.delete_acked().socket.recv_param == socket.recv_param,
{
    let una = socket.send_param.unacked_seq;
    let queue = socket.retransmission_queue;
    let count = acked_prefix(queue, una) as int;
    let after = socket.delete_acked().socket;
    lemma_acked_prefix(queue, una);
    assert forall|i: int| 0 <= i < after.retransmission_queue.len() implies {
        &&& #[trigger] after.behind(i) == socket.behind(i + count)
        &&& after.retransmission_queue[i] == queue[i + count]
    } by {}
    assert forall|i: int| 0 <= i < after.retransmission_queue.len() implies #[trigger] after.behind(
        i,
    ) <= after.in_flight() by {
        assert(socket.behind(count) >= socket.behind(i + count) || i == 0);
    }
}

/// Two sockets with the same send side: sequence numbers, queue and
/// estimator.
pub open spec fn same_send_side(a: SocketView, b: SocketView) -> bool {
    &&& a.send_param.unacked_seq == b.send_param.unacked_seq
    &&& a.send_param.next == b.send_param.next
    &&& a.retransmission_queue == b.retransmission_queue
    &&& a.rto == b.rto
}

/// What holds of the send side of a socket holds of every socket with the
/// same send side.
proof fn lemma_same_send_side(a: SocketView, b: SocketView)
    requires
        same_send_side(a, b),
    ensures
        a.send_ordered() == b.send_ordered(),
        a.queue_ascending() == b.queue_ascending(),
        a.queue_outstanding() == b.queue_outstanding(),
        a.queue_bounded() == b.queue_bounded(),
        a.rto.in_range() == b.rto.in_range(),
{
    assert forall|i: int| 0 <= i < a.retransmission_queue.len() implies #[trigger] a.behind(i)
        == b.behind(i) by {}
    assert(a.queue_ascending() ==> b.queue_ascending()) by {
        if a.queue_ascending() {
            assert forall|i: int|
                0 <= i < b.retransmission_queue.len() implies #[trigger] b.behind(i)
                < HALF_SPACE by {
                assert(a.behind(i) < HALF_SPACE);
            }
            assert forall|i: int, j: int|
                0 <= i < j < b.retransmission_queue.len() implies #[trigger] b.behind(i)
                >= #[trigger] b.behind(j) by {
                assert(a.behind(i) >= a.behind(j));
            }
        }
    }
    assert(a.queue_outstanding() ==> b.queue_outstanding()) by {
        if a.queue_outstanding() {
            assert forall|i: int|
                0 <= i < b.retransmission_queue.len() implies #[trigger] b.behind(i)
                <= b.in_flight() by {
                assert(a.behind(i) <= a.in_flight());
            }
        }
    }
}

/// Moving the oldest unacknowledged sequence number up to an accepted
/// acknowledgment keeps the send side ordered and the queue ascending.
proof fn lemma_advance_unacked(socket: SocketView, ack: u32)
    requires
        socket.inv(),
        seq_le(socket.send_param.unacked_seq, ack),
        seq_le(ack, socket.send_param.next),
    ensures
        ({
            let after = SocketView {
                send_param: SendParam { unacked_seq: ack, ..socket.send_param },
                ..socket
            };
            &&& after.inv()
            &&& after.in_flight() <= socket.in_flight()
        }),
{
    let after = SocketView {
        send_param: SendParam { unacked_seq: ack, ..socket.send_param },
        ..socket
    };
    assert forall|i: int| 0 <= i < after.retransmission_queue.len() implies #[trigger] after.behind(
        i,
    ) == socket.behind(i) by {}
}

/// Taking an acknowledgment number keeps what holds of the socket. After an
/// accepted one, no queue entry starts before the oldest unacknowledged
/// sequence number; after any other, that is so if it was so before.
pub proof fn lemma_take_ack_keeps_invariant(socket: SocketView, ack: u32)
    requires
        socket.inv(),
    ensures
        socket.take_ack(ack).socket.inv(),
        socket.accepts_ack(ack) || socket.queue_outstanding() ==> socket.take_ack(
            ack,
        ).socket.queue_outstanding(),
        socket.take_ack(ack).socket.sock_id() == socket.sock_id(),
        socket.take_ack(ack).socket.status == socket.status,
        socket.take_ack(ack).socket.recv_param == socket.recv_param,
        socket.take_ack(ack).socket.send_param.next == socket.send_param.next,
        socket.take_ack(ack).socket.in_flight() <= socket.in_flight(),
{
    if socket.accepts_ack(ack) {
        lemma_advance_unacked(socket, ack);
        let advanced = SocketView {
            send_param: SendParam { unacked_seq: ack, ..socket.send_param },
            ..socket
        };
        lemma_delete_acked_keeps_invariant(advanced);
    }
}

/// Taking the peer's window and sampling the round-trip time keep what
/// holds of the socket.
pub proof fn lemma_window_and_sample_keep_invariant(
    socket: SocketView,
    window: u16,
    ack: u32,
    now: u64,
)
    requires
        socket.inv(),
    ensures
        socket.update_window(window, now).inv(),
        socket.sample_rtt(ack, now).inv(),
        socket.queue_outstanding() ==> socket.update_window(window, now).queue_outstanding()
            && socket.sample_rtt(ack, now).queue_outstanding(),
{
    let windowed = socket.update_window(window, now);
    let sampled = socket.sample_rtt(ack, now);
    lemma_same_send_side(socket, windowed);
    assert forall|i: int|
        0 <= i < sampled.retransmission_queue.len() implies #[trigger] sampled.behind(i)
        == socket.behind(i) by {}
}

/// Depositing a payload keeps what holds of the socket. The next expected
/// byte never moves back, and moves forward by no more than the free window.
pub proof fn lemma_process_payload_keeps_invariant(socket: SocketView, bytes: Seq<u8>)
    requires
        socket.inv(),
    ensures
        socket.process_payload(bytes).socket.inv(),
        socket.queue_outstanding() ==> socket.process_payload(bytes).socket.queue_outstanding(),
        same_send_side(socket, socket.process_payload(bytes).socket),
        socket.process_payload(bytes).socket.sock_id() == socket.sock_id(),
        socket.process_payload(bytes).socket.status == socket.status,
        seq_diff(socket.process_payload(bytes).socket.recv_param.next, socket.recv_param.next)
            <= socket.recv_param.window,
        socket.process_payload(bytes).socket.recv_param.initial_seq
            == socket.recv_param.initial_seq,
{
    reveal(SocketView::process_payload);
    lemma_same_send_side(socket, socket.process_payload(bytes).socket);
}

/// Taking the peer's FIN keeps what holds of the socket, and moves the next
/// expected byte forward by one.
pub proof fn lemma_receive_fin_keeps_invariant(socket: SocketView)
    requires
        socket.inv(),
    ensures
        socket.receive_fin().inv(),
        socket.queue_outstanding() ==> socket.receive_fin().queue_outstanding(),
        same_send_side(socket, socket.receive_fin()),
        seq_diff(socket.receive_fin().recv_param.next, socket.recv_param.next) == 1,
{
    lemma_same_send_side(socket, socket.receive_fin());
}

/// A segment for an established connection keeps what holds of the socket.
/// Where no queue entry started before the oldest unacknowledged sequence
/// number, none does afterwards. The next expected byte never moves back.
pub proof fn lemma_established_keeps_invariant(socket: SocketView, bytes: Seq<u8>, now: u64)
    requires
        socket.inv(),
    ensures
        socket.established(bytes, now).socket.inv(),
        socket.queue_outstanding() ==> socket.established(bytes, now).socket.queue_outstanding(),
        socket.established(bytes, now).socket.sock_id() == socket.sock_id(),
        socket.established(bytes, now).socket.in_flight() <= socket.in_flight(),
        seq_diff(socket.established(bytes, now).socket.recv_param.next, socket.recv_param.next)
            <= socket.recv_param.window + 1,
        socket.established(bytes, now).socket.recv_param.initial_seq
            == socket.recv_param.initial_seq,
{
    reveal(SocketView::established);
    let ack = ack_of(bytes);
    if !(!has_flag(flag_of(bytes), ACK) || socket.ack_of_unsent(
        ack,
    )) {
        let acked = socket.take_ack(ack).socket;
        lemma_take_ack_keeps_invariant(socket, ack);
        let windowed = acked.update_window(window_size_of(bytes), now);
        lemma_window_and_sample_keep_invariant(acked, window_size_of(bytes), ack, now);
        let sampled = windowed.sample_rtt(ack, now);
        lemma_window_and_sample_keep_invariant(windowed, window_size_of(bytes), ack, now);
        let deposited = if payload_of(bytes).len() > 0 {
            sampled.process_payload(bytes).socket
        } else {
            sampled
        };
        lemma_process_payload_keeps_invariant(sampled, bytes);
        lemma_receive_fin_keeps_invariant(deposited);
        let closed = SocketView { status: TcpStatus::CloseWait, ..deposited.receive_fin() };
        lemma_same_send_side(deposited.receive_fin(), closed);
    }
}

/// A segment for a connection that sent its FIN keeps what holds of the
/// socket. Where no queue entry started before the oldest unacknowledged
/// sequence number, none does afterwards. The next expected byte never moves
/// back.
pub proof fn lemma_finwait_keeps_invariant(socket: SocketView, bytes: Seq<u8>)
    requires
        socket.inv(),
    ensures
        socket.finwait(bytes).socket.inv(),
        socket.queue_outstanding() ==> socket.finwait(bytes).socket.queue_outstanding(),
        socket.finwait(bytes).socket.sock_id() == socket.sock_id(),
        socket.finwait(bytes).socket.in_flight() <= socket.in_flight(),
        seq_diff(socket.finwait(bytes).socket.recv_param.next, socket.recv_param.next)
            <= socket.recv_param.window + 1,
        socket.finwait(bytes).socket.recv_param.initial_seq == socket.recv_param.initial_seq,
{
    reveal(SocketView::finwait);
    let ack = ack_of(bytes);
    if !(!has_flag(flag_of(bytes), ACK) || socket.ack_of_unsent(
        ack,
    )) {
        let acked = socket.take_ack(ack).socket;
        lemma_take_ack_keeps_invariant(socket, ack);
        let deposited = if payload_of(bytes).len() > 0 {
            acked.process_payload(bytes).socket
        } else {
            acked
        };
        lemma_process_payload_keeps_invariant(acked, bytes);
        let moved = if deposited.status == TcpStatus::FinWait1 && deposited.send_param.next
            == deposited.send_param.unacked_seq {
            SocketView { status: TcpStatus::FinWait2, ..deposited }
        } else {
            deposited
        };
        lemma_same_send_side(deposited, moved);
        lemma_receive_fin_keeps_invariant(moved);
    }
}

/// A segment for a connection whose peer has closed keeps what holds of the
/// socket.
pub proof fn lemma_closing_keeps_invariant(socket: SocketView, bytes: Seq<u8>)
    requires
        socket.inv(),
    ensures
        socket.closing(bytes).inv(),
        socket.closing(bytes).sock_id() == socket.sock_id(),
        socket.closing(bytes).in_flight() <= socket.in_flight(),
        socket.closing(bytes).recv_param == socket.recv_param,
{
    if socket.accepts_ack(ack_of(bytes)) {
        lemma_advance_unacked(socket, ack_of(bytes));
    }
}

/// A segment for a socket that sent its SYN keeps what holds of the socket.
/// Where it synchronizes the socket, the next expected byte is the one after
/// the peer's initial sequence number.
pub proof fn lemma_synsent_keeps_invariant(socket: SocketView, bytes: Seq<u8>, now: u64)
    requires
        socket.inv(),
    ensures
        socket.synsent(bytes, now).socket.inv(),
        socket.synsent(bytes, now).socket.sock_id() == socket.sock_id(),
        socket.synsent(bytes, now).socket.in_flight() <= socket.in_flight(),
        socket.synsent(bytes, now).socket.status != socket.status ==> socket.synsent(
            bytes,
            now,
        ).socket.recv_param.next == seq_add(
            socket.synsent(bytes, now).socket.recv_param.initial_seq,
            1,
        ),
{
    reveal(SocketView::synsent);
    if socket.answers_syn(bytes) {
        lemma_advance_unacked(socket, ack_of(bytes));
        let advanced = SocketView {
            send_param: SendParam {
                unacked_seq: ack_of(bytes),
                ..socket.send_param
            },
            ..socket
        };
        lemma_same_send_side(advanced, socket.synsent(bytes, now).socket);
    } else {
        lemma_same_send_side(socket, socket.synsent(bytes, now).socket);
    }
}

/// The segment that completes the handshake keeps what holds of the socket.
pub proof fn lemma_handshake_completed_keeps_invariant(socket: SocketView, bytes: Seq<u8>)
    requires
        socket.inv(),
        socket.completes_handshake(bytes),
    ensures
        socket.handshake_completed(bytes).inv(),
        socket.handshake_completed(bytes).sock_id() == socket.sock_id(),
        socket.handshake_completed(bytes).in_flight() <= socket.in_flight(),
{
    lemma_advance_unacked(socket, ack_of(bytes));
    let advanced = SocketView {
        send_param: SendParam { unacked_seq: ack_of(bytes), ..socket.send_param },
        ..socket
    };
    lemma_same_send_side(advanced, socket.handshake_completed(bytes));
}

/// How far the segment of `entry` starts behind the next sequence number
/// that `socket` sends.
pub open spec fn distance(socket: SocketView, entry: RetransmissionEntryView) -> int {
    seq_diff(socket.send_param.next, seq_of(entry.packet))
}

/// What holds of the entries that a sweep keeps: each is bounded and starts
/// no earlier than the oldest unacknowledged sequence number, and none
/// starts before the one ahead of it.
pub open spec fn kept_in_order(socket: SocketView, kept: Seq<RetransmissionEntryView>) -> bool {
    &&& forall|k: int|
        0 <= k < kept.len() ==> entry_bounded(#[trigger] kept[k]) && distance(socket, kept[k])
            <= socket.in_flight()
    &&& forall|k: int, m: int|
        0 <= k < m < kept.len() ==> distance(socket, #[trigger] kept[k]) >= distance(
            socket,
            #[trigger] kept[m],
        )
}

/// The sweep keeps the estimator in range and its kept entries in order.
proof fn lemma_sweep_keeps_order(
    socket: SocketView,
    queue: Seq<RetransmissionEntryView>,
    from: int,
    so_far: Sweep,
    now: u64,
)
    requires
        socket.send_ordered(),
        0 <= from <= queue.len(),
        so_far.rto.in_range(),
        kept_in_order(socket, so_far.kept),
        forall|i: int| 0 <= i < queue.len() ==> entry_bounded(#[trigger] queue[i]),
        forall|i: int| 0 <= i < queue.len() ==> distance(socket, #[trigger] queue[i]) < HALF_SPACE,
        forall|i: int, j: int|
            0 <= i < j < queue.len() ==> distance(socket, #[trigger] queue[i]) >= distance(
                socket,
                #[trigger] queue[j],
            ),
        forall|k: int, j: int|
            0 <= k < so_far.kept.len() && from <= j < queue.len() ==> distance(
                socket,
                #[trigger] so_far.kept[k],
            ) >= distance(socket, #[trigger] queue[j]),
    ensures
        socket.sweep_from(queue, from, so_far, now).rto.in_range(),
        kept_in_order(socket, socket.sweep_from(queue, from, so_far, now).kept),
    decreases queue.len() - from,
{
    if from < queue.len() {
        let entry = queue[from];
        let next = socket.sweep_entry(entry, so_far, now);
        lemma_sweep_keeps_order(socket, queue, from + 1, next, now);
    }
}

/// One visit of the timer keeps what holds of the socket, and leaves no
/// queue entry before the oldest unacknowledged sequence number.
pub proof fn lemma_tick_keeps_invariant(socket: SocketView, now: u64)
    requires
        socket.inv(),
    ensures
        socket.tick(now).socket.inv(),
        socket.tick(now).socket.queue_outstanding(),
        socket.tick(now).socket.sock_id() == socket.sock_id(),
        socket.tick(now).socket.send_param == socket.send_param,
        socket.tick(now).socket.recv_param == socket.recv_param,
{
    reveal(SocketView::tick);
    let probed = if socket.probe_due(now) {
        SocketView { last_time_window_probe: Some(now), ..socket }
    } else {
        socket
    };
    let queue = probed.retransmission_queue;
    let start = Sweep {
        rto: probed.rto,
        kept: Seq::empty(),
        actions: if socket.probe_due(now) {
            seq![socket.window_probe()]
        } else {
            Seq::empty()
        },
    };
    assert forall|i: int| 0 <= i < queue.len() implies distance(probed, #[trigger] queue[i])
        < HALF_SPACE by {
        assert(socket.behind(i) < HALF_SPACE);
    }
    assert forall|i: int, j: int| 0 <= i < j < queue.len() implies distance(
        probed,
        #[trigger] queue[i],
    ) >= distance(probed, #[trigger] queue[j]) by {
        assert(socket.behind(i) >= socket.behind(j));
    }
    lemma_sweep_keeps_order(probed, queue, 0, start, now);
}

/// A socket as `Socket::new` makes it satisfies all that holds of sockets.
pub proof fn lemma_fresh_socket_invariant(
    local_addr: u32,
    remote_addr: u32,
    local_port: u16,
    remote_port: u16,
    status: TcpStatus,
)
    ensures
        fresh_socket(local_addr, remote_addr, local_port, remote_port, status).inv(),
        fresh_socket(local_addr, remote_addr, local_port, remote_port, status).queue_outstanding(),
        fresh_socket(local_addr, remote_addr, local_port, remote_port, status).sock_id() == SockID(
            local_addr,
            remote_addr,
            local_port,
            remote_port,
        ),
{
}

/// Sending a segment that starts at the next sequence number to send, and
/// moving that number past what the segment uses up, keeps what holds of
/// the socket, as long as what is in flight stays below half the sequence
/// space.
proof fn lemma_send_keeps_invariant(
    socket: SocketView,
    ack: u32,
    flag: u8,
    payload: Seq<u8>,
    used: int,
    now: u64,
)
    requires
        socket.inv(),
        socket.queue_outstanding(),
        0 <= used,
        socket.in_flight() + used < HALF_SPACE,
    ensures
        ({
            let sent = socket.after_send(socket.send_param.next, ack, flag, payload, now);
            let after = SocketView {
                send_param: SendParam {
                    next: seq_add(socket.send_param.next, used),
                    ..sent.send_param
                },
                ..sent
            };
            &&& after.inv()
            &&& after.queue_outstanding()
            &&& after.in_flight() == socket.in_flight() + used
        }),
{
    let sent = socket.after_send(socket.send_param.next, ack, flag, payload, now);
    let after = SocketView {
        send_param: SendParam { next: seq_add(socket.send_param.next, used), ..sent.send_param },
        ..sent
    };
    let old_len = socket.retransmission_queue.len() as int;
    lemma_segment_fields(
        socket.local_addr,
        socket.remote_addr,
        socket.local_port,
        socket.remote_port,
        socket.send_param.next,
        ack,
        flag,
        socket.recv_param.window,
        payload,
    );
    assert forall|i: int| 0 <= i < after.retransmission_queue.len() implies {
        &&& i < old_len ==> #[trigger] after.behind(i) == socket.behind(i) + used
        &&& i >= old_len ==> after.behind(i) == used
        &&& entry_bounded(after.retransmission_queue[i])
    } by {
    }
}

/// Sending data keeps what holds of the socket: what the socket sends in
/// one segment fits the peer's window.
pub proof fn lemma_send_chunk_keeps_invariant(socket: SocketView, data: Seq<u8>, now: u64)
    requires
        socket.inv(),
        socket.queue_outstanding(),
        0 < data.len() <= socket.send_param.spec_remain(),
    ensures
        socket.send_chunk(data, now).socket.inv(),
        socket.send_chunk(data, now).socket.queue_outstanding(),
        socket.send_chunk(data, now).socket.in_flight() == socket.in_flight() + data.len(),
        socket.send_chunk(data, now).socket.in_flight() <= socket.send_param.window,
        socket.send_chunk(data, now).socket.sock_id() == socket.sock_id(),
{
    let recorded = SocketView {
        sent_times: socket.sent_times.push(
            SentTime {
                sent_time: now,
                expected_ack: seq_add(socket.send_param.next, data.len() as int),
            },
        ),
        ..socket
    };
    lemma_same_send_side(socket, recorded);
    lemma_send_keeps_invariant(
        recorded,
        socket.recv_param.next,
        ACK,
        data,
        data.len() as int,
        now,
    );
}

/// Closing keeps what holds of the socket, as long as what is in flight
/// stays below half the sequence space.
pub proof fn lemma_close_keeps_invariant(socket: SocketView, now: u64)
    requires
        socket.inv(),
        socket.queue_outstanding(),
        socket.in_flight() + 1 < HALF_SPACE,
    ensures
        socket.close_step(now).socket.inv(),
        socket.close_step(now).socket.queue_outstanding(),
        socket.close_step(now).socket.in_flight() == socket.in_flight() + 1,
        socket.close_step(now).socket.sock_id() == socket.sock_id(),
{
    lemma_send_keeps_invariant(
        socket,
        socket.recv_param.next,
        FIN | ACK,
        Seq::empty(),
        1,
        now,
    );
    let sent = socket.after_send(
        socket.send_param.next,
        socket.recv_param.next,
        FIN | ACK,
        Seq::empty(),
        now,
    );
    let moved = SocketView {
        send_param: SendParam { next: seq_add(socket.send_param.next, 1), ..sent.send_param },
        ..sent
    };
    lemma_same_send_side(moved, socket.close_step(now).socket);
}

/// Handing bytes to the application keeps what holds of the socket.
pub proof fn lemma_consume_keeps_invariant(socket: SocketView, count: int)
    requires
        socket.inv(),
        0 <= count <= socket.ready(),
    ensures
        socket.consume(count).inv(),
        socket.queue_outstanding() ==> socket.consume(count).queue_outstanding(),
        socket.consume(count).sock_id() == socket.sock_id(),
{
    lemma_same_send_side(socket, socket.consume(count));
}

/// The connection that a listening socket opens for a SYN satisfies all
/// that holds of sockets, with its SYN|ACK in flight and the next expected
/// byte the one after the peer's initial sequence number.
pub proof fn lemma_accept_syn_invariant(
    listener: SocketView,
    bytes: Seq<u8>,
    remote_addr: u32,
    iss: u32,
    now: u64,
)
    ensures
        listener.accept_syn(bytes, remote_addr, iss, now).socket.inv(),
        listener.accept_syn(bytes, remote_addr, iss, now).socket.queue_outstanding(),
        listener.accept_syn(bytes, remote_addr, iss, now).socket.in_flight() == 1,
        listener.accept_syn(bytes, remote_addr, iss, now).socket.recv_param.next == seq_add(
            seq_of(bytes),
            1,
        ),
        listener.accept_syn(bytes, remote_addr, iss, now).socket.recv_param.initial_seq == seq_of(
            bytes,
        ),
        listener.accept_syn(bytes, remote_addr, iss, now).socket.status == TcpStatus::SynRcvd,
{
    reveal(SocketView::accept_syn);
    let fresh = fresh_socket(
        listener.local_addr,
        remote_addr,
        listener.local_port,
        src_of(bytes),
        TcpStatus::SynRcvd,
    ).synchronize(seq_of(bytes));
    let prepared = SocketView {
        send_param: SendParam {
            initial_seq: iss,
            window: window_size_of(bytes),
            unacked_seq: iss,
            next: iss,
        },
        ..fresh
    };
    lemma_send_keeps_invariant(
        prepared,
        fresh.recv_param.next,
        SYN | ACK,
        Seq::empty(),
        1,
        now,
    );
    let sent = prepared.after_send(
        iss,
        fresh.recv_param.next,
        SYN | ACK,
        Seq::empty(),
        now,
    );
    let moved = SocketView {
        send_param: SendParam { next: seq_add(iss, 1), ..sent.send_param },
        ..sent
    };
    let result = listener.accept_syn(bytes, remote_addr, iss, now).socket;
    lemma_same_send_side(moved, result);
}

/// What every step of the engine keeps of the table: identities are
/// distinct, and every socket satisfies what holds of sockets.
pub open spec fn table_inv(table: Seq<SocketView>) -> bool {
    &&& distinct_ids(table)
    &&& forall|i: int| 0 <= i < table.len() ==> #[trigger] table[i].inv()
}

/// No socket of the table has a queue entry before its oldest
/// unacknowledged sequence number.
pub open spec fn table_outstanding(table: Seq<SocketView>) -> bool {
    forall|i: int| 0 <= i < table.len() ==> #[trigger] table[i].queue_outstanding()
}

/// Whatever is received, from whomever, the table keeps what holds of it:
/// in every socket the oldest unacknowledged sequence number does not lie
/// after the next one to send, the reassembly buffer accounts for its
/// window, the retransmission queue ascends, and its entries are bounded.
pub proof fn lemma_receive_keeps_invariant(
    table: Seq<SocketView>,
    local_addr: u32,
    remote_addr: u32,
    bytes: Seq<u8>,
    iss: u32,
    now: u64,
)
    requires
        table_inv(table),
    ensures
        table_inv(receive_step(table, local_addr, remote_addr, bytes, iss, now).table),
{
    let after = receive_step(table, local_addr, remote_addr, bytes, iss, now).table;
    if after != table {
        let at = target_position(table, local_addr, remote_addr, bytes);
        let socket = table[at];
        match socket.status {
            TcpStatus::Listen => {
                lemma_accept_syn_invariant(socket, bytes, remote_addr, iss, now);
            },
            TcpStatus::SynRcvd => {
                if socket.completes_handshake(bytes) {
                    lemma_handshake_completed_keeps_invariant(socket, bytes);
                    let opened = table.update(at, socket.handshake_completed(bytes));
                    if let Some(id) = socket.listening_socket {
                        if has_socket(opened, id) {
                            let listener = opened[position(opened, id)];
                            let joined = SocketView {
                                connected_connection_queue: listener.connected_connection_queue.push(
                                    socket.sock_id(),
                                ),
                                ..listener
                            };
                            assert(listener.inv());
                            lemma_same_send_side(listener, joined);
                        }
                    }
                }
            },
            TcpStatus::SynSent => {
                lemma_synsent_keeps_invariant(socket, bytes, now);
            },
            TcpStatus::Established => {
                lemma_established_keeps_invariant(socket, bytes, now);
            },
            TcpStatus::CloseWait | TcpStatus::LastAck => {
                lemma_closing_keeps_invariant(socket, bytes);
            },
            TcpStatus::FinWait1 | TcpStatus::FinWait2 => {
                lemma_finwait_keeps_invariant(socket, bytes);
            },
            TcpStatus::TimeWait => {},
        }
    }
}

/// The steps that the application asks for keep what holds of the table:
/// taking a socket out, handing out a completed connection, and handing
/// received bytes to the application.
pub proof fn lemma_quiet_steps_keep_invariant(table: Seq<SocketView>, id: SockID, count: int)
    requires
        table_inv(table),
    ensures
        table_inv(without_socket(table, id)),
        has_socket(table, id) ==> table_inv(
            table.update(
                position(table, id),
                SocketView {
                    connected_connection_queue: table[position(
                        table,
                        id,
                    )].connected_connection_queue.drop_first(),
                    ..table[position(table, id)]
                },
            ),
        ),
        has_socket(table, id) && 0 <= count <= table[position(table, id)].ready() ==> table_inv(
            table.update(position(table, id), table[position(table, id)].consume(count)),
        ),
{
    if has_socket(table, id) {
        let at = position(table, id);
        let socket = table[at];
        assert(socket.inv());
        let removed = table.remove(at);
        assert forall|i: int| 0 <= i < removed.len() implies #[trigger] removed[i].inv() by {
            let k = if i < at {
                i
            } else {
                i + 1
            };
            assert(table[k].inv());
            assert(removed[i] == table[k]);
        }
        assert forall|i: int, j: int|
            0 <= i < j < removed.len() implies #[trigger] removed[i].sock_id()
            != #[trigger] removed[j].sock_id() by {
            let a = if i < at {
                i
            } else {
                i + 1
            };
            let b = if j < at {
                j
            } else {
                j + 1
            };
            assert(table[a].sock_id() != table[b].sock_id());
        }
        let popped = SocketView {
            connected_connection_queue: socket.connected_connection_queue.drop_first(),
            ..socket
        };
        lemma_same_send_side(socket, popped);
        if 0 <= count <= socket.ready() {
            lemma_consume_keeps_invariant(socket, count);
        }
    }
}

/// Sending data from a socket whose queue holds nothing acknowledged keeps
/// what holds of the table; so does closing it, as long as what is in
/// flight stays below half the sequence space.
pub proof fn lemma_send_and_close_keep_invariant(
    table: Seq<SocketView>,
    id: SockID,
    data: Seq<u8>,
    now: u64,
)
    requires
        table_inv(table),
        has_socket(table, id),
        table[position(table, id)].queue_outstanding(),
    ensures
        0 < data.len() <= table[position(table, id)].send_param.spec_remain() ==> table_inv(
            table.update(
                position(table, id),
                table[position(table, id)].send_chunk(data, now).socket,
            ),
        ),
        table[position(table, id)].in_flight() + 1 < HALF_SPACE ==> table_inv(
            table.update(position(table, id), table[position(table, id)].close_step(now).socket),
        ) && table_inv(table.remove(position(table, id))),
{
    let at = position(table, id);
    let socket = table[at];
    assert(socket.inv());
    if 0 < data.len() <= socket.send_param.spec_remain() {
        lemma_send_chunk_keeps_invariant(socket, data, now);
    }
    if socket.in_flight() + 1 < HALF_SPACE {
        lemma_close_keeps_invariant(socket, now);
        lemma_quiet_steps_keep_invariant(table, id, 0);
    }
}

/// The timer's visit from index `from` on keeps what holds of the table and
/// leaves the sockets that it visits without a queue entry before their
/// oldest unacknowledged sequence number.
proof fn lemma_timer_from_keeps_invariant(
    table: Seq<SocketView>,
    from: int,
    actions: Seq<ActionView>,
    now: u64,
)
    requires
        table_inv(table),
        0 <= from <= table.len(),
        forall|i: int| 0 <= i < from ==> #[trigger] table[i].queue_outstanding(),
    ensures
        table_inv(timer_from(table, from, actions, now).table),
        table_outstanding(timer_from(table, from, actions, now).table),
        timer_from(table, from, actions, now).table.len() == table.len(),
    decreases table.len() - from,
{
    if from < table.len() {
        let step = table[from].tick(now);
        lemma_tick_keeps_invariant(table[from], now);
        let updated = table.update(from, step.socket);
        lemma_timer_from_keeps_invariant(updated, from + 1, actions + step.actions, now);
    }
}

/// A round of the timer keeps what holds of the table, and after it no
/// socket has a queue entry before its oldest unacknowledged sequence
/// number: the head of every retransmission queue is outstanding.
pub proof fn lemma_timer_keeps_invariant(table: Seq<SocketView>, now: u64)
    requires
        table_inv(table),
    ensures
        table_inv(timer_step(table, now).table),
        table_outstanding(timer_step(table, now).table),
{
    lemma_timer_from_keeps_invariant(table, 0, Seq::empty(), now);
}

/// Opening a connection or a listening socket keeps what holds of the
/// table.
pub proof fn lemma_open_keeps_invariant(
    table: Seq<SocketView>,
    local_addr: u32,
    remote_addr: u32,
    local_port: u16,
    remote_port: u16,
    iss: u32,
    now: u64,
)
    requires
        table_inv(table),
    ensures
        table_inv(
            connect_step(table, local_addr, remote_addr, local_port, remote_port, iss, now).table,
        ),
        table_inv(listen_step(table, local_addr, local_port)),
{
    let fresh = fresh_socket(local_addr, remote_addr, local_port, remote_port, TcpStatus::SynSent);
    let prepared = SocketView {
        send_param: SendParam { initial_seq: iss, unacked_seq: iss, next: iss, ..fresh.send_param },
        ..fresh
    };
    lemma_send_keeps_invariant(prepared, 0, SYN, Seq::empty(), 1, now);
}

impl SocketView {
    /// Sequence numbers that the peer has used up since its initial one.
    pub open spec fn received(self) -> int {
        seq_diff(self.recv_param.next, seq_add(self.recv_param.initial_seq, 1))
    }

    /// The next expected byte does not lie before the one after the peer's
    /// initial sequence number.
    pub open spec fn after_initial(self) -> bool {
        seq_le(seq_add(self.recv_param.initial_seq, 1), self.recv_param.next)
    }
}

/// In a well-formed socket the next expected byte does not lie after the
/// highest deposited one.
pub proof fn lemma_next_not_after_tail(socket: SocketView)
    requires
        socket.wf(),
    ensures
        seq_le(socket.recv_param.next, socket.recv_param.tail),
{
}

/// A segment for a synchronized connection leaves the next expected byte
/// at or after the one that follows the peer's initial sequence number, as
/// long as the peer has used up less than half the sequence space.
pub proof fn lemma_next_stays_after_initial(socket: SocketView, bytes: Seq<u8>, now: u64)
    requires
        socket.inv(),
        socket.after_initial(),
        socket.received() + socket.recv_param.window + 1 < HALF_SPACE,
    ensures
        socket.established(bytes, now).socket.after_initial(),
        socket.finwait(bytes).socket.after_initial(),
        socket.closing(bytes).after_initial(),
        socket.tick(now).socket.after_initial(),
{
    lemma_established_keeps_invariant(socket, bytes, now);
    lemma_finwait_keeps_invariant(socket, bytes);
    lemma_tick_keeps_invariant(socket, now);
}

/// Depositing a payload leaves the bytes that wait for the application as
/// they are, keeps the sequence number of the first byte of the buffer, and
/// writes each byte that it takes at the place of its sequence number.
pub proof fn lemma_deposit_places_bytes(socket: SocketView, bytes: Seq<u8>)
    requires
        socket.wf(),
        socket.in_window(seq_of(bytes)),
    ensures
        ({
            let after = socket.process_payload(bytes).socket;
            let size = socket.deposit_size(seq_of(bytes), payload_of(bytes).len() as int);
            &&& after.buffer_base() == socket.buffer_base()
            &&& after.ready() >= socket.ready()
            &&& forall|i: int|
                0 <= i < socket.ready() ==> after.recv_buffer[i] == socket.recv_buffer[i]
            &&& forall|k: int|
                0 <= k < size ==> after.recv_buffer[seq_diff(
                    seq_add(seq_of(bytes), k),
                    socket.buffer_base(),
                )] == payload_of(bytes)[k]
        }),
{
    reveal(SocketView::process_payload);
}

/// Handing `count` bytes to the application moves the first byte of the
/// buffer `count` sequence numbers on, and moves the bytes that still wait
/// down to the head of the buffer.
pub proof fn lemma_consume_moves_base(socket: SocketView, count: int)
    requires
        socket.wf(),
        0 <= count <= socket.ready(),
    ensures
        socket.consume(count).buffer_base() == seq_add(socket.buffer_base(), count),
        socket.consume(count).ready() == socket.ready() - count,
        forall|i: int|
            0 <= i < socket.ready() - count ==> socket.consume(count).recv_buffer[i]
                == socket.recv_buffer[i + count],
{
}

/// Two segments that arrive in the wrong order are put together: where the
/// second half of a stretch of data arrives first and the first half after
/// it, and both fit the free window, the whole stretch is ready at once, in
/// order, behind what was ready before.
pub proof fn lemma_out_of_order_arrival(socket: SocketView, first: Seq<u8>, second: Seq<u8>)
    requires
        socket.wf(),
        socket.recv_param.tail == socket.recv_param.next,
        seq_of(first) == socket.recv_param.next,
        seq_of(second) == seq_add(socket.recv_param.next, payload_of(first).len() as int),
        payload_of(first).len() > 0,
        payload_of(second).len() > 0,
        payload_of(first).len() + payload_of(second).len() <= socket.recv_param.window,
    ensures
        ({
            let after = socket.process_payload(second).socket.process_payload(first).socket;
            let total = payload_of(first).len() + payload_of(second).len();
            &&& socket.process_payload(second).socket.ready() == socket.ready()
            &&& socket.process_payload(second).socket.recv_param.next == socket.recv_param.next
            &&& socket.process_payload(second).actions == seq![
                socket.process_payload(second).socket.acknowledgment(),
                socket.process_payload(second).socket.event(TCPEventKind::DataArrived),
            ]
            &&& after.ready() == socket.ready() + total
            &&& after.recv_param.window == socket.recv_param.window - total
            &&& socket.process_payload(second).socket.process_payload(first).actions == seq![
                after.acknowledgment(),
                after.event(TCPEventKind::DataArrived),
            ]
            &&& after.recv_param.next == seq_add(socket.recv_param.next, total as int)
            &&& after.recv_buffer.subrange(socket.ready(), socket.ready() + total) == payload_of(
                first,
            ) + payload_of(second)
            &&& after.recv_buffer.subrange(0, socket.ready()) == socket.recv_buffer.subrange(
                0,
                socket.ready(),
            )
        }),
{
    reveal(SocketView::process_payload);
}

/// A data segment that arrives in order is delivered: where the receiver
/// expects the sequence number that the sender sends next, has nothing
/// deposited ahead and has room for the data, the segment that the sender
/// makes of the data puts exactly the data behind what was ready before,
/// moves the receiver's next expected byte to the sender's next sequence
/// number, and is acknowledged.
pub proof fn lemma_data_segment_is_delivered(
    sender: SocketView,
    receiver: SocketView,
    data: Seq<u8>,
    now: u64,
    arrival: u64,
)
    requires
        receiver.wf(),
        receiver.recv_param.next == sender.send_param.next,
        receiver.recv_param.tail == receiver.recv_param.next,
        0 < data.len() <= receiver.recv_param.window,
        !receiver.ack_of_unsent(sender.recv_param.next),
    ensures
        ({
            let segment = sender.segment(
                sender.send_param.next,
                sender.recv_param.next,
                ACK,
                data,
            );
            let step = receiver.established(segment, arrival);
            let ready = receiver.ready();
            &&& sender.send_chunk(data, now).actions == seq![
                ActionView::Send { remote_addr: sender.remote_addr, packet: segment },
            ]
            &&& step.socket.ready() == ready + data.len()
            &&& step.socket.recv_buffer.subrange(ready, ready + data.len()) == data
            &&& step.socket.recv_buffer.subrange(0, ready) == receiver.recv_buffer.subrange(
                0,
                ready,
            )
            &&& step.socket.recv_param.next == sender.send_chunk(data, now).socket.send_param.next
            &&& step.socket.status == receiver.status
            &&& step.actions.len() >= 2
            &&& step.actions[step.actions.len() - 2] == step.socket.acknowledgment()
            &&& step.actions.last() == step.socket.event(TCPEventKind::DataArrived)
        }),
{
    reveal(SocketView::established);
    reveal(SocketView::process_payload);
    lemma_segment_fields(
        sender.local_addr,
        sender.remote_addr,
        sender.local_port,
        sender.remote_port,
        sender.send_param.next,
        sender.recv_param.next,
        ACK,
        sender.recv_param.window,
        data,
    );
    lemma_flag_bits();
}

/// The acknowledgment of everything sent empties the retransmission queue:
/// where a segment with ACK acknowledges the next sequence number to send,
/// an established sender has nothing in flight afterwards and keeps no
/// segment for retransmission.
pub proof fn lemma_full_acknowledgment_clears_queue(sender: SocketView, bytes: Seq<u8>, now: u64)
    requires
        sender.inv(),
        has_flag(flag_of(bytes), ACK),
        ack_of(bytes) == sender.send_param.next,
        sender.in_flight() > 0,
        forall|i: int|
            0 <= i < sender.retransmission_queue.len() ==> #[trigger] sender.behind(i) > 0,
    ensures
        sender.established(bytes, now).socket.in_flight() == 0,
        sender.established(bytes, now).socket.retransmission_queue.len() == 0,
{
    reveal(SocketView::established);
    reveal(SocketView::process_payload);
    let ack = ack_of(bytes);
    if sender.accepts_ack(ack) {
        let advanced = SocketView {
            send_param: SendParam { unacked_seq: ack, ..sender.send_param },
            ..sender
        };
        let trimmed = advanced.delete_acked().socket;
        if trimmed.retransmission_queue.len() > 0 {
            let count = acked_prefix(advanced.retransmission_queue, ack) as int;
            lemma_acked_prefix(advanced.retransmission_queue, ack);
            assert(trimmed.behind(0) == sender.behind(count));
        }
    }
}

/// The window that an acknowledgment advertises decides about probe mode:
/// after a segment that an established connection takes, the stored window
/// is the advertised one; with a window of zero the socket probes, from the
/// time of arrival on or from earlier if it probed already, and with any
/// other window it does not.
pub proof fn lemma_window_decides_probe_mode(socket: SocketView, bytes: Seq<u8>, now: u64)
    requires
        has_flag(flag_of(bytes), ACK),
        !socket.ack_of_unsent(ack_of(bytes)),
    ensures
        ({
            let after = socket.established(bytes, now).socket;
            &&& after.send_param.window == window_size_of(bytes)
            &&& window_size_of(bytes) == 0 ==> after.last_time_window_probe == (
            if socket.last_time_window_probe is Some {
                socket.last_time_window_probe
            } else {
                Some(now)
            })
            &&& window_size_of(bytes) > 0 ==> after.last_time_window_probe is None
        }),
{
    reveal(SocketView::established);
    reveal(SocketView::process_payload);
}

/// A send hands exactly one entry to the retransmission queue, behind the
/// entries that were there: it holds the segment, which starts at the
/// sequence number given, was sent once and carries the timeout in force. A
/// bare acknowledgment is never queued.
pub proof fn lemma_sent_segment_joins_queue(
    socket: SocketView,
    seq: u32,
    ack: u32,
    flag: u8,
    payload: Seq<u8>,
    now: u64,
)
    ensures
        ({
            let queue = socket.retransmission_queue;
            let after = socket.after_send(seq, ack, flag, payload, now).retransmission_queue;
            if payload.len() > 0 || flag != ACK {
                &&& after == queue.push(after.last())
                &&& after.last().packet == socket.segment(seq, ack, flag, payload)
                &&& seq_of(after.last().packet) == seq
                &&& payload_of(after.last().packet) == payload
                &&& after.last().transmission_count == 1
                &&& after.last().rto == socket.rto.rto
                &&& after.last().latest_transmission_time == now
            } else {
                after == queue
            }
        }),
{
    lemma_segment_fields(
        socket.local_addr,
        socket.remote_addr,
        socket.local_port,
        socket.remote_port,
        seq,
        ack,
        flag,
        socket.recv_param.window,
        payload,
    );
}

/// A segment size of data goes out in one segment, and one byte more in
/// two: where the socket does not probe and the peer's window has room for
/// it all, `send` takes 1460 bytes of 1461 in its first step, at the next
/// sequence number to send, and the one byte left in its second step, 1460
/// sequence numbers on.
pub proof fn lemma_segment_size_bounds_a_step(socket: SocketView, data: Seq<u8>, now: u64)
    requires
        socket.last_time_window_probe is None,
        data.len() == MSS + 1,
        socket.send_param.spec_remain() >= MSS + 1,
    ensures
        ({
            let first = socket.send_chunk(data.subrange(0, MSS as int), now);
            let second = first.socket.send_chunk(data.subrange(MSS as int, MSS + 1), now);
            &&& socket.chunk_size(MSS as int) == MSS
            &&& socket.chunk_size(MSS + 1) == MSS
            &&& first.socket.chunk_size(1) == 1
            &&& first.actions == seq![
                ActionView::Send {
                    remote_addr: socket.remote_addr,
                    packet: socket.segment(
                        socket.send_param.next,
                        socket.recv_param.next,
                        ACK,
                        data.subrange(0, MSS as int),
                    ),
                },
            ]
            &&& second.actions == seq![
                ActionView::Send {
                    remote_addr: socket.remote_addr,
                    packet: socket.segment(
                        seq_add(socket.send_param.next, MSS as int),
                        socket.recv_param.next,
                        ACK,
                        data.subrange(MSS as int, MSS + 1),
                    ),
                },
            ]
            &&& second.socket.send_param.next == seq_add(socket.send_param.next, MSS + 1)
            &&& second.socket.chunk_size(0) == 0
        }),
{
}

/// Data still arrives after the application has closed: for a connection
/// in FIN_WAIT_1 or FIN_WAIT_2, a segment with ACK and without FIN that
/// brings data in order, with room for it and nothing deposited ahead, puts
/// the data behind what was ready, is acknowledged and published as
/// arrived. FIN_WAIT_1 becomes FIN_WAIT_2 exactly when everything sent is
/// acknowledged afterwards, and the end of the connection is not published.
pub proof fn lemma_finwait_takes_data(socket: SocketView, bytes: Seq<u8>)
    requires
        socket.wf(),
        socket.sending_closed(),
        has_flag(flag_of(bytes), ACK),
        !has_flag(flag_of(bytes), FIN),
        !socket.ack_of_unsent(ack_of(bytes)),
        seq_of(bytes) == socket.recv_param.next,
        socket.recv_param.tail == socket.recv_param.next,
        0 < payload_of(bytes).len() <= socket.recv_param.window,
    ensures
        ({
            let step = socket.finwait(bytes);
            let size = payload_of(bytes).len();
            let ready = socket.ready();
            &&& step.socket.recv_param.next == seq_add(socket.recv_param.next, size as int)
            &&& step.socket.recv_param.window == socket.recv_param.window - size
            &&& step.socket.recv_buffer.subrange(ready, ready + size) == payload_of(bytes)
            &&& step.socket.status == (if socket.status == TcpStatus::FinWait1
                && step.socket.send_param.unacked_seq == step.socket.send_param.next {
                TcpStatus::FinWait2
            } else {
                socket.status
            })
            &&& step.actions.len() >= 2
            &&& step.actions[step.actions.len() - 2] == step.socket.acknowledgment()
            &&& step.actions.last() == step.socket.event(TCPEventKind::DataArrived)
            &&& forall|i: int|
                0 <= i < step.actions.len() ==> step.actions[i] != step.socket.event(
                    TCPEventKind::ConnectionClosed,
                )
        }),
{
    reveal(SocketView::finwait);
    reveal(SocketView::process_payload);
    let step = socket.finwait(bytes);
    let size = payload_of(bytes).len();
    let ready = socket.ready();
    assert(step.socket.recv_buffer.subrange(ready, ready + size) =~= payload_of(bytes));
}

/// A SYN opens a connection: a listening socket that takes a segment with
/// SYN and without ACK gains a connection in SYN_RCVD between its own
/// endpoint and the sender's, synchronized to the sender's sequence number,
/// with the sender's window, the given initial send sequence number and one
/// sequence number in flight, and tied to the listening socket. One SYN|ACK
/// goes out, and the listening socket stays as it is.
pub proof fn lemma_syn_opens_connection(
    table: Seq<SocketView>,
    at: int,
    bytes: Seq<u8>,
    remote_addr: u32,
    iss: u32,
    now: u64,
)
    requires
        distinct_ids(table),
        0 <= at < table.len(),
        table[at].status == TcpStatus::Listen,
        has_flag(flag_of(bytes), SYN),
        !has_flag(flag_of(bytes), ACK),
        SockID(table[at].local_addr, remote_addr, table[at].local_port, src_of(bytes))
            != table[at].sock_id(),
    ensures
        ({
            let step = listen_handler_step(table, at, bytes, remote_addr, iss, now);
            let id = SockID(table[at].local_addr, remote_addr, table[at].local_port, src_of(bytes));
            let child = step.table[position(step.table, id)];
            &&& has_socket(step.table, id)
            &&& child.sock_id() == id
            &&& child.status == TcpStatus::SynRcvd
            &&& child.recv_param.initial_seq == seq_of(bytes)
            &&& child.recv_param.next == seq_add(seq_of(bytes), 1)
            &&& child.recv_param.tail == child.recv_param.next
            &&& child.send_param.window == window_size_of(bytes)
            &&& child.send_param.initial_seq == iss
            &&& child.send_param.unacked_seq == iss
            &&& child.send_param.next == seq_add(iss, 1)
            &&& child.listening_socket == Some(table[at].sock_id())
            &&& child.retransmission_queue.len() == 1
            &&& step.actions.len() == 1
            &&& step.actions[0] matches ActionView::Send { remote_addr: to, packet }
            &&& to == remote_addr
            &&& packet == child.retransmission_queue[0].packet
            &&& seq_of(packet) == iss
            &&& ack_of(packet) == seq_add(seq_of(bytes), 1)
            &&& flag_of(packet) == SYN | ACK
            &&& payload_of(packet).len() == 0
            &&& step.table[at] == table[at]
        }),
{
    reveal(SocketView::accept_syn);
    let listener = table[at];
    let step = listen_handler_step(table, at, bytes, remote_addr, iss, now);
    let child = listener.accept_syn(bytes, remote_addr, iss, now).socket;
    let id = child.sock_id();
    lemma_flag_bits();
    lemma_segment_fields(
        listener.local_addr,
        remote_addr,
        listener.local_port,
        src_of(bytes),
        iss,
        seq_add(seq_of(bytes), 1),
        SYN | ACK,
        child.recv_param.window,
        Seq::empty(),
    );
    if has_socket(table, id) {
        let found = position(table, id);
        lemma_position_unique(step.table, id, found);
    } else {
        lemma_position_unique(step.table, id, table.len() as int);
    }
}

/// Completed connections are handed out in the order in which they
/// completed: the connection whose handshake completes joins the end of the
/// queue of the listening socket that it came from, and the listening
/// socket stays in its state.
pub proof fn lemma_completed_connection_joins_queue(table: Seq<SocketView>, at: int, bytes: Seq<u8>)
    requires
        distinct_ids(table),
        0 <= at < table.len(),
        table[at].completes_handshake(bytes),
        table[at].listening_socket is Some,
        has_socket(table, table[at].listening_socket->0),
        table[at].listening_socket->0 != table[at].sock_id(),
    ensures
        ({
            let step = synrcvd_handler_step(table, at, bytes);
            let id = table[at].listening_socket->0;
            let listener = table[position(table, id)];
            let after = step.table[position(table, id)];
            &&& step.table[at].status == TcpStatus::Established
            &&& after.connected_connection_queue == listener.connected_connection_queue.push(
                table[at].sock_id(),
            )
            &&& after.status == listener.status
            &&& after.sock_id() == id
            &&& step.actions == seq![
                ActionView::Publish(
                    TCPEvent { sock_id: id, kind: TCPEventKind::ConnectionCompleted },
                ),
            ]
        }),
{
    let id = table[at].listening_socket->0;
    let opened = table.update(at, table[at].handshake_completed(bytes));
    let found = position(table, id);
    assert(found != at);
    lemma_position_unique(opened, id, found);
}

} // verus!
