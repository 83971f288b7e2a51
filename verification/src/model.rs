//! The state machine as mathematics: what each step of the engine does to a
//! socket record, and which segments and events come out of it.
//!
//! Every executable step of the engine is specified by one function of this
//! module, on the plain-value views of the records.

use crate::packet::{
    ack_of, checksum_ok, dst_of, flag_of, payload_of, seq_of, src_of, window_size_of,
    TCP_HEADER_SIZE,
};
use crate::seqnum::{seq_add, seq_diff, seq_le, seq_lt, seq_max};
use crate::socket::{
    fresh_socket, RecvParam, RetransmissionEntryView, RtoView, SendParam, SentTime, SockID,
    SocketView, TcpStatus, INIT_RTO, SOCKET_BUFFER_SIZE,
};
use crate::tcp::{
    TCPEvent, TCPEventKind, MAX_TRANSMISSION, MSS, UNDETERMINED_IP_ADDR, UNDETERMINED_PORT,
    WINDOW_PROBE_DURATION,
};
use crate::tcpflags::{has_flag, ACK, FIN, SYN};
use vstd::prelude::*;

verus! {

/// What the engine asks of its caller, as plain values: to send a segment to
/// a remote address, or to publish an event.
pub enum ActionView {
    /// Put the segment `packet` on the wire to `remote_addr`.
    Send { remote_addr: u32, packet: Seq<u8> },
    /// Publish the event on the event bus.
    Publish(TCPEvent),
}

/// A socket after a step, and what the step asks for, in order.
pub struct Step {
    pub socket: SocketView,
    pub actions: Seq<ActionView>,
}

/// The number of entries at the head of `queue` whose sequence number
/// precedes `una`: the segments that are acknowledged.
pub open spec fn acked_prefix(queue: Seq<RetransmissionEntryView>, una: u32) -> nat
    decreases queue.len(),
{
    if queue.len() > 0 && seq_lt(seq_of(queue[0].packet), una) {
        1 + acked_prefix(queue.drop_first(), una)
    } else {
        0
    }
}

/// The index of the first record in `times` that expects `ack`, or the
/// length of `times` where none does.
pub open spec fn first_expecting(times: Seq<SentTime>, ack: u32) -> nat
    decreases times.len(),
{
    if times.len() == 0 || times[0].expected_ack == ack {
        0
    } else {
        1 + first_expecting(times.drop_first(), ack)
    }
}

/// Time elapsed from `since` to `now`; zero where the clock went backwards.
pub open spec fn elapsed(now: u64, since: u64) -> u64 {
    if now >= since {
        (now - since) as u64
    } else {
        0
    }
}

/// What a sweep of the retransmission queue has come to so far: the
/// estimator, the entries that stay, and the requests made.
pub struct Sweep {
    pub rto: RtoView,
    pub kept: Seq<RetransmissionEntryView>,
    pub actions: Seq<ActionView>,
}

impl SocketView {
    /// The step that changes nothing and asks for nothing.
    pub open spec fn idle(self) -> Step {
        Step { socket: self, actions: Seq::empty() }
    }

    /// The request to publish an event of this socket.
    pub open spec fn event(self, kind: TCPEventKind) -> ActionView {
        ActionView::Publish(TCPEvent { sock_id: self.sock_id(), kind })
    }

    /// Sending a segment at `now`: it goes to the remote address, and joins
    /// the retransmission queue unless it is a bare acknowledgment.
    pub open spec fn transmit(
        self,
        seq: u32,
        ack: u32,
        flag: u8,
        payload: Seq<u8>,
        now: u64,
    ) -> Step {
        Step {
            socket: self.after_send(seq, ack, flag, payload, now),
            actions: seq![
                ActionView::Send {
                    remote_addr: self.remote_addr,
                    packet: self.segment(seq, ack, flag, payload),
                },
            ],
        }
    }

    /// The bare acknowledgment of everything received so far.
    pub open spec fn acknowledgment(self) -> ActionView {
        ActionView::Send {
            remote_addr: self.remote_addr,
            packet: self.segment(
                self.send_param.next,
                self.recv_param.next,
                ACK,
                Seq::empty(),
            ),
        }
    }

    /// An acknowledgment number is accepted when it lies after the oldest
    /// unacknowledged sequence number and not after the next one to send.
    pub open spec fn accepts_ack(self, ack: u32) -> bool {
        seq_lt(self.send_param.unacked_seq, ack) && seq_le(ack, self.send_param.next)
    }

    /// An acknowledgment of something not sent yet.
    pub open spec fn ack_of_unsent(self, ack: u32) -> bool {
        !self.accepts_ack(ack) && seq_lt(self.send_param.next, ack)
    }

    /// Drops the acknowledged segments from the head of the retransmission
    /// queue and reports each of them.
    pub open spec fn delete_acked(self) -> Step {
        let count = acked_prefix(self.retransmission_queue, self.send_param.unacked_seq);
        Step {
            socket: SocketView {
                retransmission_queue: self.retransmission_queue.skip(count as int),
                ..self
            },
            actions: Seq::new(count, |i: int| self.event(TCPEventKind::Acked)),
        }
    }

    /// Takes an acknowledgment number: an accepted one moves the oldest
    /// unacknowledged sequence number up and trims the retransmission queue.
    pub open spec fn take_ack(self, ack: u32) -> Step {
        if self.accepts_ack(ack) {
            SocketView {
                send_param: SendParam { unacked_seq: ack, ..self.send_param },
                ..self
            }.delete_acked()
        } else {
            self.idle()
        }
    }

    /// Takes the window that an acknowledgment advertises. A window of zero
    /// puts the socket into probe mode from `now` on, or leaves it there
    /// with the probe timer running as it was; any other window ends probe
    /// mode.
    pub open spec fn update_window(self, window: u16, now: u64) -> SocketView {
        let probe = if window == 0 {
            if self.last_time_window_probe is None {
                Some(now)
            } else {
                self.last_time_window_probe
            }
        } else {
            None
        };
        SocketView {
            send_param: SendParam { window, ..self.send_param },
            last_time_window_probe: probe,
            ..self
        }
    }

    /// Feeds the estimator where `ack` answers a recorded send: the first
    /// such record leaves the sample queue, and the time since it was sent
    /// becomes the sample.
    pub open spec fn sample_rtt(self, ack: u32, now: u64) -> SocketView {
        let at = first_expecting(self.sent_times, ack) as int;
        if at < self.sent_times.len() {
            SocketView {
                sent_times: self.sent_times.remove(at),
                rto: self.rto.next(elapsed(now, self.sent_times[at].sent_time)),
                ..self
            }
        } else {
            self
        }
    }

    /// Bytes that wait in the buffer for the application.
    pub open spec fn ready(self) -> int {
        SOCKET_BUFFER_SIZE - self.recv_param.window
    }

    /// The sequence number of the first byte in the reassembly buffer.
    pub open spec fn buffer_base(self) -> u32 {
        seq_add(self.recv_param.next, 0x1_0000_0000 - self.ready())
    }

    /// Whether a segment that starts at `seq` starts inside the free window.
    pub open spec fn in_window(self, seq: u32) -> bool {
        seq_diff(seq, self.recv_param.next) <= self.recv_param.window
    }

    /// Where in the buffer the payload of a segment at `seq` goes.
    pub open spec fn deposit_offset(self, seq: u32) -> int {
        self.ready() + seq_diff(seq, self.recv_param.next)
    }

    /// How much of a payload of `len` bytes at `seq` fits the buffer.
    pub open spec fn deposit_size(self, seq: u32, len: int) -> int {
        if len <= SOCKET_BUFFER_SIZE - self.deposit_offset(seq) {
            len
        } else {
            SOCKET_BUFFER_SIZE - self.deposit_offset(seq)
        }
    }

    /// Deposits the payload of a segment into the reassembly buffer.
    ///
    /// A segment that starts outside the free window, behind the next
    /// expected byte or beyond what the buffer can take, is dropped whole.
    /// Otherwise as much of the payload as fits is written at its place, the
    /// highest deposited sequence number moves up to the end of it, and a
    /// segment that starts at the next expected byte makes everything up to
    /// there ready. Where anything was written, the new state is
    /// acknowledged. Arrival is published in any case.
    #[verifier::opaque]
    pub open spec fn process_payload(self, bytes: Seq<u8>) -> Step {
        let seq = seq_of(bytes);
        let payload = payload_of(bytes);
        if !self.in_window(seq) {
            self.idle()
        } else {
            let offset = self.deposit_offset(seq);
            let size = self.deposit_size(seq, payload.len() as int);
            let tail = seq_max(self.recv_param.tail, seq_add(seq, size));
            let in_order = seq == self.recv_param.next;
            let after = SocketView {
                recv_buffer: self.recv_buffer.subrange(0, offset) + payload.subrange(0, size)
                    + self.recv_buffer.subrange(offset + size, SOCKET_BUFFER_SIZE as int),
                recv_param: RecvParam {
                    tail,
                    next: if in_order {
                        tail
                    } else {
                        self.recv_param.next
                    },
                    window: if in_order {
                        (self.recv_param.window - seq_diff(tail, seq)) as u16
                    } else {
                        self.recv_param.window
                    },
                    ..self.recv_param
                },
                ..self
            };
            Step {
                socket: after,
                actions: if size > 0 {
                    seq![after.acknowledgment(), after.event(TCPEventKind::DataArrived)]
                } else {
                    seq![after.event(TCPEventKind::DataArrived)]
                },
            }
        }
    }

    /// Takes the peer's FIN: it uses up one sequence number.
    pub open spec fn receive_fin(self) -> SocketView {
        let next = seq_add(self.recv_param.next, 1);
        SocketView {
            recv_param: RecvParam {
                next,
                tail: if self.recv_param.tail == self.recv_param.next {
                    next
                } else {
                    self.recv_param.tail
                },
                ..self.recv_param
            },
            ..self
        }
    }

    /// A segment for an established connection.
    ///
    /// Without ACK, or acknowledging what was not sent, it is ignored.
    /// Otherwise, in this order: the acknowledgment is taken, the advertised
    /// window is taken, the round-trip time is sampled, a payload is
    /// deposited, and a FIN is taken and acknowledged, which moves the
    /// connection to CLOSE_WAIT and publishes the arrival.
    #[verifier::opaque]
    pub open spec fn established(self, bytes: Seq<u8>, now: u64) -> Step {
        let ack = ack_of(bytes);
        if !has_flag(flag_of(bytes), ACK) || self.ack_of_unsent(ack) {
            self.idle()
        } else {
            let acked = self.take_ack(ack);
            let sampled = acked.socket.update_window(window_size_of(bytes), now).sample_rtt(
                ack,
                now,
            );
            let deposited = if payload_of(bytes).len() > 0 {
                sampled.process_payload(bytes)
            } else {
                sampled.idle()
            };
            if has_flag(flag_of(bytes), FIN) {
                let closed = SocketView {
                    status: TcpStatus::CloseWait,
                    ..deposited.socket.receive_fin()
                };
                Step {
                    socket: closed,
                    actions: acked.actions + deposited.actions + seq![
                        closed.acknowledgment(),
                        closed.event(TCPEventKind::DataArrived),
                    ],
                }
            } else {
                Step { socket: deposited.socket, actions: acked.actions + deposited.actions }
            }
        }
    }

    /// A segment for a connection that sent its FIN.
    ///
    /// Without ACK, or acknowledging what was not sent, it is ignored.
    /// Otherwise the acknowledgment is taken and a payload deposited; once
    /// everything sent is acknowledged, FIN_WAIT_1 becomes FIN_WAIT_2; and a
    /// FIN is taken and acknowledged, which publishes the end of the
    /// connection.
    #[verifier::opaque]
    pub open spec fn finwait(self, bytes: Seq<u8>) -> Step {
        let ack = ack_of(bytes);
        if !has_flag(flag_of(bytes), ACK) || self.ack_of_unsent(ack) {
            self.idle()
        } else {
            let acked = self.take_ack(ack);
            let deposited = if payload_of(bytes).len() > 0 {
                acked.socket.process_payload(bytes)
            } else {
                acked.socket.idle()
            };
            let moved = if deposited.socket.status == TcpStatus::FinWait1
                && deposited.socket.send_param.next == deposited.socket.send_param.unacked_seq {
                SocketView { status: TcpStatus::FinWait2, ..deposited.socket }
            } else {
                deposited.socket
            };
            if has_flag(flag_of(bytes), FIN) {
                let closed = moved.receive_fin();
                Step {
                    socket: closed,
                    actions: acked.actions + deposited.actions + seq![
                        closed.acknowledgment(),
                        closed.event(TCPEventKind::ConnectionClosed),
                    ],
                }
            } else {
                Step { socket: moved, actions: acked.actions + deposited.actions }
            }
        }
    }

    /// A segment for a connection whose peer has closed: an accepted
    /// acknowledgment moves the oldest unacknowledged sequence number up.
    /// The retransmission queue is left to the timer.
    pub open spec fn closing(self, bytes: Seq<u8>) -> SocketView {
        if has_flag(flag_of(bytes), ACK) && self.accepts_ack(ack_of(bytes)) {
            SocketView {
                send_param: SendParam { unacked_seq: ack_of(bytes), ..self.send_param },
                ..self
            }
        } else {
            self
        }
    }

    /// The socket with the peer's initial sequence number taken from a SYN
    /// at `seq`: the next byte expected is the one after it.
    pub open spec fn synchronize(self, seq: u32) -> SocketView {
        SocketView {
            recv_param: RecvParam {
                next: seq_add(seq, 1),
                initial_seq: seq,
                tail: seq_add(seq, 1),
                ..self.recv_param
            },
            ..self
        }
    }

    /// Whether a segment answers the SYN that this socket sent: it carries
    /// SYN and ACK, and its acknowledgment number lies between the oldest
    /// unacknowledged sequence number and the next one to send.
    pub open spec fn answers_syn(self, bytes: Seq<u8>) -> bool {
        &&& has_flag(flag_of(bytes), ACK)
        &&& has_flag(flag_of(bytes), SYN)
        &&& seq_le(self.send_param.unacked_seq, ack_of(bytes))
        &&& seq_le(ack_of(bytes), self.send_param.next)
    }

    /// A segment for a socket that sent its SYN.
    ///
    /// An answer to the SYN synchronizes the socket, has its acknowledgment
    /// number and its window taken as those of any acknowledgment, and is
    /// acknowledged. Where it acknowledges the SYN, the connection is
    /// established and its completion published; where it does not, the
    /// socket waits in SYN_RCVD. A SYN without ACK is taken as the peer
    /// opening at the same time: the socket is synchronized, stores the
    /// window, acknowledges, and waits in SYN_RCVD. Anything else is
    /// ignored.
    #[verifier::opaque]
    pub open spec fn synsent(self, bytes: Seq<u8>, now: u64) -> Step {
        if self.answers_syn(bytes) {
            let synced = self.synchronize(seq_of(bytes));
            let updated = SocketView {
                send_param: SendParam { unacked_seq: ack_of(bytes), ..synced.send_param },
                ..synced
            }.update_window(window_size_of(bytes), now);
            if seq_lt(self.send_param.initial_seq, ack_of(bytes)) {
                let opened = SocketView { status: TcpStatus::Established, ..updated };
                Step {
                    socket: opened,
                    actions: seq![
                        opened.acknowledgment(),
                        opened.event(TCPEventKind::ConnectionCompleted),
                    ],
                }
            } else {
                let waiting = SocketView { status: TcpStatus::SynRcvd, ..updated };
                Step { socket: waiting, actions: seq![waiting.acknowledgment()] }
            }
        } else if has_flag(flag_of(bytes), SYN) && !has_flag(flag_of(bytes), ACK) {
            let synced = self.synchronize(seq_of(bytes));
            let waiting = SocketView {
                send_param: SendParam { window: window_size_of(bytes), ..synced.send_param },
                status: TcpStatus::SynRcvd,
                ..synced
            };
            Step { socket: waiting, actions: seq![waiting.acknowledgment()] }
        } else {
            self.idle()
        }
    }

    /// Whether a segment completes the handshake of a socket in SYN_RCVD.
    pub open spec fn completes_handshake(self, bytes: Seq<u8>) -> bool {
        &&& has_flag(flag_of(bytes), ACK)
        &&& seq_le(self.send_param.unacked_seq, ack_of(bytes))
        &&& seq_le(ack_of(bytes), self.send_param.next)
    }

    /// The socket in SYN_RCVD after the segment that completes its
    /// handshake: the next byte expected is the one at the segment's
    /// sequence number.
    pub open spec fn handshake_completed(self, bytes: Seq<u8>) -> SocketView {
        SocketView {
            recv_param: RecvParam {
                next: seq_of(bytes),
                tail: seq_of(bytes),
                ..self.recv_param
            },
            send_param: SendParam { unacked_seq: ack_of(bytes), ..self.send_param },
            status: TcpStatus::Established,
            ..self
        }
    }

    /// The connection that a listening socket opens for a SYN from
    /// `remote_addr`, with `iss` as its initial send sequence number, and
    /// the SYN|ACK that answers the SYN.
    #[verifier::opaque]
    pub open spec fn accept_syn(
        self,
        bytes: Seq<u8>,
        remote_addr: u32,
        iss: u32,
        now: u64,
    ) -> Step {
        let fresh = fresh_socket(
            self.local_addr,
            remote_addr,
            self.local_port,
            src_of(bytes),
            TcpStatus::SynRcvd,
        ).synchronize(seq_of(bytes));
        let prepared = SocketView {
            send_param: SendParam {
                initial_seq: iss,
                window: window_size_of(bytes),
                ..fresh.send_param
            },
            ..fresh
        };
        let sent = prepared.transmit(iss, prepared.recv_param.next, SYN | ACK, Seq::empty(), now);
        Step {
            socket: SocketView {
                send_param: SendParam {
                    next: seq_add(iss, 1),
                    unacked_seq: iss,
                    ..sent.socket.send_param
                },
                listening_socket: Some(self.sock_id()),
                ..sent.socket
            },
            actions: sent.actions,
        }
    }

    /// Whether the zero-window probe is due at `now`.
    pub open spec fn probe_due(self, now: u64) -> bool {
        self.last_time_window_probe matches Some(last) && now >= last && now - last
            >= WINDOW_PROBE_DURATION
    }

    /// The zero-window probe: a bare acknowledgment that carries the
    /// sequence number before the next one to send.
    pub open spec fn window_probe(self) -> ActionView {
        ActionView::Send {
            remote_addr: self.remote_addr,
            packet: self.segment(
                seq_add(self.send_param.next, 0xFFFF_FFFF),
                self.recv_param.next,
                ACK,
                Seq::empty(),
            ),
        }
    }

    /// What the sweep does with one queue entry at `now`.
    ///
    /// An acknowledged entry leaves the queue and its acknowledgment is
    /// published; for the FIN of a connection in LAST_ACK the end of the
    /// connection is published too. An entry whose timeout has not run out
    /// stays as it is. One that timed out and was sent fewer than five times
    /// is sent again and stays, with a timeout of three seconds for a lone
    /// SYN and the backed-off timeout for anything else. One that was sent
    /// five times leaves the queue; if it is a FIN and the connection is
    /// closing, the end of the connection is published.
    pub open spec fn sweep_entry(
        self,
        entry: RetransmissionEntryView,
        so_far: Sweep,
        now: u64,
    ) -> Sweep {
        let flag = flag_of(entry.packet);
        if seq_lt(seq_of(entry.packet), self.send_param.unacked_seq) {
            Sweep {
                actions: so_far.actions + (if has_flag(flag, FIN) && self.status
                    == TcpStatus::LastAck {
                    seq![
                        self.event(TCPEventKind::Acked),
                        self.event(TCPEventKind::ConnectionClosed),
                    ]
                } else {
                    seq![self.event(TCPEventKind::Acked)]
                }),
                ..so_far
            }
        } else if now < entry.latest_transmission_time || now - entry.latest_transmission_time
            < entry.rto {
            Sweep { kept: so_far.kept.push(entry), ..so_far }
        } else if entry.transmission_count < MAX_TRANSMISSION {
            let rto = if flag == SYN {
                so_far.rto.set(INIT_RTO as int)
            } else {
                so_far.rto.backoff()
            };
            Sweep {
                rto,
                kept: so_far.kept.push(
                    RetransmissionEntryView {
                        transmission_count: (entry.transmission_count + 1) as u8,
                        rto: rto.rto,
                        latest_transmission_time: now,
                        ..entry
                    },
                ),
                actions: so_far.actions.push(
                    ActionView::Send { remote_addr: self.remote_addr, packet: entry.packet },
                ),
            }
        } else {
            Sweep {
                actions: if has_flag(flag, FIN) && (self.status == TcpStatus::LastAck
                    || self.status == TcpStatus::FinWait1 || self.status == TcpStatus::FinWait2) {
                    so_far.actions.push(self.event(TCPEventKind::ConnectionClosed))
                } else {
                    so_far.actions
                },
                ..so_far
            }
        }
    }

    /// The sweep over the entries of `queue` from index `from` on.
    pub open spec fn sweep_from(
        self,
        queue: Seq<RetransmissionEntryView>,
        from: int,
        so_far: Sweep,
        now: u64,
    ) -> Sweep
        decreases queue.len() - from,
    {
        if 0 <= from < queue.len() {
            self.sweep_from(queue, from + 1, self.sweep_entry(queue[from], so_far, now), now)
        } else {
            so_far
        }
    }

    /// One visit of the timer at `now`: a zero-window probe if one is due,
    /// then the sweep of the retransmission queue.
    #[verifier::opaque]
    pub open spec fn tick(self, now: u64) -> Step {
        let probed = if self.probe_due(now) {
            Step {
                socket: SocketView { last_time_window_probe: Some(now), ..self },
                actions: seq![self.window_probe()],
            }
        } else {
            self.idle()
        };
        let swept = probed.socket.sweep_from(
            probed.socket.retransmission_queue,
            0,
            Sweep { rto: probed.socket.rto, kept: Seq::empty(), actions: probed.actions },
            now,
        );
        Step {
            socket: SocketView {
                retransmission_queue: swept.kept,
                rto: swept.rto,
                ..probed.socket
            },
            actions: swept.actions,
        }
    }
}

/// The table after a step, and what the step asks for, in order.
pub struct TableStep {
    pub table: Seq<SocketView>,
    pub actions: Seq<ActionView>,
}

/// Whether the table holds a socket with the identity `id`.
pub open spec fn has_socket(table: Seq<SocketView>, id: SockID) -> bool {
    exists|i: int| 0 <= i < table.len() && #[trigger] table[i].sock_id() == id
}

/// Where in the table the socket with the identity `id` stands.
pub open spec fn position(table: Seq<SocketView>, id: SockID) -> int {
    choose|i: int| 0 <= i < table.len() && #[trigger] table[i].sock_id() == id
}

/// No two sockets of the table share an identity.
pub open spec fn distinct_ids(table: Seq<SocketView>) -> bool {
    forall|i: int, j: int|
        0 <= i < j < table.len() ==> #[trigger] table[i].sock_id() != #[trigger] table[j].sock_id()
}

/// The table maps identities to sockets, and every socket in it is well
/// formed.
pub open spec fn table_wf(table: Seq<SocketView>) -> bool {
    &&& distinct_ids(table)
    &&& forall|i: int| 0 <= i < table.len() ==> #[trigger] table[i].wf()
}

/// The table with `socket` in it: in place of the socket of the same
/// identity if there is one, else at the end.
pub open spec fn put_socket(table: Seq<SocketView>, socket: SocketView) -> Seq<SocketView> {
    if has_socket(table, socket.sock_id()) {
        table.update(position(table, socket.sock_id()), socket)
    } else {
        table.push(socket)
    }
}

/// The table without the socket of the identity `id`.
pub open spec fn without_socket(table: Seq<SocketView>, id: SockID) -> Seq<SocketView> {
    if has_socket(table, id) {
        table.remove(position(table, id))
    } else {
        table
    }
}

/// In a table of distinct identities, the socket with a given identity
/// stands where any socket with that identity is found.
pub proof fn lemma_position_unique(table: Seq<SocketView>, id: SockID, at: int)
    requires
        distinct_ids(table),
        0 <= at < table.len(),
        table[at].sock_id() == id,
    ensures
        has_socket(table, id),
        position(table, id) == at,
{
    let found = position(table, id);
    if found < at {
    } else if at < found {
    }
}

/// Whether no socket of the table has the local port `port`.
pub open spec fn port_unused(table: Seq<SocketView>, port: u16) -> bool {
    forall|i: int| 0 <= i < table.len() ==> (#[trigger] table[i]).local_port != port
}

/// The table step that changes nothing and asks for nothing.
pub open spec fn unchanged(table: Seq<SocketView>) -> TableStep {
    TableStep { table, actions: Seq::empty() }
}

/// A step of the socket at `at`, taken as a step of the table.
pub open spec fn lift(table: Seq<SocketView>, at: int, step: Step) -> TableStep {
    TableStep { table: table.update(at, step.socket), actions: step.actions }
}

/// The identity that a listening socket on the given endpoint has.
pub open spec fn listening_id(local_addr: u32, local_port: u16) -> SockID {
    SockID(local_addr, UNDETERMINED_IP_ADDR, local_port, UNDETERMINED_PORT)
}

/// The new socket of an active open with `iss` as its initial send sequence
/// number, and the SYN that it sends.
pub open spec fn connect_step(
    table: Seq<SocketView>,
    local_addr: u32,
    remote_addr: u32,
    local_port: u16,
    remote_port: u16,
    iss: u32,
    now: u64,
) -> TableStep {
    let fresh = fresh_socket(local_addr, remote_addr, local_port, remote_port, TcpStatus::SynSent);
    let prepared = SocketView {
        send_param: SendParam { initial_seq: iss, ..fresh.send_param },
        ..fresh
    };
    let sent = prepared.transmit(iss, 0, SYN, Seq::empty(), now);
    TableStep {
        table: put_socket(
            table,
            SocketView {
                send_param: SendParam {
                    unacked_seq: iss,
                    next: seq_add(iss, 1),
                    ..sent.socket.send_param
                },
                ..sent.socket
            },
        ),
        actions: sent.actions,
    }
}

/// The table with a new listening socket on the given endpoint.
pub open spec fn listen_step(table: Seq<SocketView>, local_addr: u32, local_port: u16) -> Seq<
    SocketView,
> {
    put_socket(
        table,
        fresh_socket(
            local_addr,
            UNDETERMINED_IP_ADDR,
            local_port,
            UNDETERMINED_PORT,
            TcpStatus::Listen,
        ),
    )
}

/// A segment for the listening socket at `at`, sent from `remote_addr`.
///
/// A segment with ACK is ignored. A SYN opens a connection in SYN_RCVD with
/// `iss` as its initial send sequence number; the connection enters the
/// table and answers with SYN|ACK.
pub open spec fn listen_handler_step(
    table: Seq<SocketView>,
    at: int,
    bytes: Seq<u8>,
    remote_addr: u32,
    iss: u32,
    now: u64,
) -> TableStep {
    if !has_flag(flag_of(bytes), ACK) && has_flag(flag_of(bytes), SYN) {
        let step = table[at].accept_syn(bytes, remote_addr, iss, now);
        TableStep { table: put_socket(table, step.socket), actions: step.actions }
    } else {
        unchanged(table)
    }
}

/// A segment for the socket in SYN_RCVD at `at`.
///
/// One that completes the handshake establishes the connection. Where the
/// connection came from a listening socket that is still in the table, it
/// joins the end of that socket's queue of completed connections, and the
/// completion is published under the listening socket's identity.
pub open spec fn synrcvd_handler_step(
    table: Seq<SocketView>,
    at: int,
    bytes: Seq<u8>,
) -> TableStep {
    if table[at].completes_handshake(bytes) {
        let opened = table.update(at, table[at].handshake_completed(bytes));
        match table[at].listening_socket {
            Some(id) => if has_socket(opened, id) {
                let listener = opened[position(opened, id)];
                TableStep {
                    table: opened.update(
                        position(opened, id),
                        SocketView {
                            connected_connection_queue: listener.connected_connection_queue.push(
                                table[at].sock_id(),
                            ),
                            ..listener
                        },
                    ),
                    actions: seq![
                        ActionView::Publish(
                            TCPEvent { sock_id: id, kind: TCPEventKind::ConnectionCompleted },
                        ),
                    ],
                }
            } else {
                TableStep { table: opened, actions: Seq::empty() }
            },
            None => TableStep { table: opened, actions: Seq::empty() },
        }
    } else {
        unchanged(table)
    }
}

/// The identity of the connection that a segment received on `local_addr`
/// from `remote_addr` belongs to.
pub open spec fn connection_id(local_addr: u32, remote_addr: u32, bytes: Seq<u8>) -> SockID {
    SockID(local_addr, remote_addr, dst_of(bytes), src_of(bytes))
}

/// Whether a received segment finds a socket: its connection, or a socket
/// that listens on its destination.
pub open spec fn finds_socket(
    table: Seq<SocketView>,
    local_addr: u32,
    remote_addr: u32,
    bytes: Seq<u8>,
) -> bool {
    has_socket(table, connection_id(local_addr, remote_addr, bytes)) || has_socket(
        table,
        listening_id(local_addr, dst_of(bytes)),
    )
}

/// Where the socket that a received segment goes to stands: its connection
/// first, else the socket that listens on its destination.
pub open spec fn target_position(
    table: Seq<SocketView>,
    local_addr: u32,
    remote_addr: u32,
    bytes: Seq<u8>,
) -> int {
    if has_socket(table, connection_id(local_addr, remote_addr, bytes)) {
        position(table, connection_id(local_addr, remote_addr, bytes))
    } else {
        position(table, listening_id(local_addr, dst_of(bytes)))
    }
}

/// A segment for the socket at `at` goes to the handler of the state that
/// the socket is in; `remote_addr` is where it came from, and `iss` the
/// initial send sequence number of the connection that a listening socket
/// may open for it. A socket in TIME_WAIT ignores it.
pub open spec fn dispatch_step(
    table: Seq<SocketView>,
    at: int,
    bytes: Seq<u8>,
    remote_addr: u32,
    iss: u32,
    now: u64,
) -> TableStep {
    match table[at].status {
        TcpStatus::Listen => listen_handler_step(table, at, bytes, remote_addr, iss, now),
        TcpStatus::SynRcvd => synrcvd_handler_step(table, at, bytes),
        TcpStatus::SynSent => lift(table, at, table[at].synsent(bytes, now)),
        TcpStatus::Established => lift(table, at, table[at].established(bytes, now)),
        TcpStatus::CloseWait | TcpStatus::LastAck => lift(
            table,
            at,
            Step { socket: table[at].closing(bytes), actions: Seq::empty() },
        ),
        TcpStatus::FinWait1 | TcpStatus::FinWait2 => lift(table, at, table[at].finwait(bytes)),
        TcpStatus::TimeWait => unchanged(table),
    }
}

/// What the engine does with the bytes of a segment received on `local_addr`
/// from `remote_addr` at `now`.
///
/// Bytes shorter than a header, bytes for which the table has no socket and
/// bytes whose checksum is wrong are dropped. Anything else goes to the
/// socket of its connection, or else to the socket that listens on its
/// destination.
pub open spec fn receive_step(
    table: Seq<SocketView>,
    local_addr: u32,
    remote_addr: u32,
    bytes: Seq<u8>,
    iss: u32,
    now: u64,
) -> TableStep {
    if bytes.len() < TCP_HEADER_SIZE || !finds_socket(table, local_addr, remote_addr, bytes)
        || !checksum_ok(bytes, local_addr, remote_addr) {
        unchanged(table)
    } else {
        dispatch_step(
            table,
            target_position(table, local_addr, remote_addr, bytes),
            bytes,
            remote_addr,
            iss,
            now,
        )
    }
}

/// The timer's visit to the sockets from index `from` on, in table order.
pub open spec fn timer_from(
    table: Seq<SocketView>,
    from: int,
    actions: Seq<ActionView>,
    now: u64,
) -> TableStep
    decreases table.len() - from,
{
    if 0 <= from < table.len() {
        let step = table[from].tick(now);
        timer_from(table.update(from, step.socket), from + 1, actions + step.actions, now)
    } else {
        TableStep { table, actions }
    }
}

/// One round of the timer at `now` over the whole table.
pub open spec fn timer_step(table: Seq<SocketView>, now: u64) -> TableStep {
    timer_from(table, 0, Seq::empty(), now)
}

impl SocketView {
    /// Whether the application has closed its side of an established
    /// connection: after its FIN the socket sends no more data.
    pub open spec fn sending_closed(self) -> bool {
        self.status == TcpStatus::FinWait1 || self.status == TcpStatus::FinWait2
    }

    /// How many bytes `send` puts into the next segment, with `remaining`
    /// bytes left to send: what the segment size, the peer's window and the
    /// data allow; nothing while the socket probes a closed window.
    pub open spec fn chunk_size(self, remaining: int) -> int {
        if self.last_time_window_probe is Some {
            0
        } else if remaining <= MSS && remaining <= self.send_param.spec_remain() {
            remaining
        } else if MSS <= self.send_param.spec_remain() {
            MSS as int
        } else {
            self.send_param.spec_remain() as int
        }
    }

    /// The socket after it sent `data` in one segment at `now`, and the
    /// segment: the send is recorded for the round-trip time sample, the
    /// segment carries ACK and joins the retransmission queue, and the next
    /// sequence number to send moves past the data.
    pub open spec fn send_chunk(self, data: Seq<u8>, now: u64) -> Step {
        let recorded = SocketView {
            sent_times: self.sent_times.push(
                SentTime {
                    sent_time: now,
                    expected_ack: seq_add(self.send_param.next, data.len() as int),
                },
            ),
            ..self
        };
        let sent = recorded.transmit(self.send_param.next, self.recv_param.next, ACK, data, now);
        Step {
            socket: SocketView {
                send_param: SendParam {
                    next: seq_add(self.send_param.next, data.len() as int),
                    ..sent.socket.send_param
                },
                ..sent.socket
            },
            actions: sent.actions,
        }
    }

    /// Whether the peer has closed its side.
    pub open spec fn peer_closed(self) -> bool {
        self.status == TcpStatus::CloseWait || self.status == TcpStatus::LastAck || self.status
            == TcpStatus::TimeWait
    }

    /// How many bytes `recv` hands out into room for `capacity` bytes.
    pub open spec fn recv_size(self, capacity: int) -> int {
        if capacity <= self.ready() {
            capacity
        } else {
            self.ready()
        }
    }

    /// The socket after the application took `count` bytes: the buffer
    /// moves down by `count`, and the window grows by as much.
    pub open spec fn consume(self, count: int) -> SocketView {
        SocketView {
            recv_buffer: Seq::new(
                SOCKET_BUFFER_SIZE as nat,
                |i: int|
                    if i + count < SOCKET_BUFFER_SIZE {
                        self.recv_buffer[i + count]
                    } else {
                        self.recv_buffer[i]
                    },
            ),
            recv_param: RecvParam {
                window: (self.recv_param.window + count) as u16,
                ..self.recv_param
            },
            ..self
        }
    }

    /// The state that `close` moves the connection to.
    pub open spec fn status_after_close(self) -> TcpStatus {
        match self.status {
            TcpStatus::Established => TcpStatus::FinWait1,
            TcpStatus::CloseWait => TcpStatus::LastAck,
            other => other,
        }
    }

    /// The socket after `close` at `now`, and the FIN|ACK that it sends: the
    /// FIN uses up one sequence number.
    pub open spec fn close_step(self, now: u64) -> Step {
        let sent = self.transmit(
            self.send_param.next,
            self.recv_param.next,
            FIN | ACK,
            Seq::empty(),
            now,
        );
        Step {
            socket: SocketView {
                send_param: SendParam {
                    next: seq_add(self.send_param.next, 1),
                    ..sent.socket.send_param
                },
                status: self.status_after_close(),
                ..sent.socket
            },
            actions: sent.actions,
        }
    }
}

} // verus!
