//! The socket record: everything the engine keeps for one connection.

use crate::packet::{
    ack_of, checksum_ok, data_offset_of, dst_of, flag_of, lemma_be32_round_trip, payload_of,
    put_be16, put_be32, seq_of, src_of, tcp_checksum_of, window_size_of, TCPPacket,
    MAX_SEGMENT_SIZE, TCP_HEADER_SIZE,
};
use crate::seqnum::{advance, diff, seq_add, seq_diff};
use crate::tcpflags::{contains, has_flag, ACK, FIN, SYN};
use std::collections::VecDeque;
use vstd::prelude::*;

verus! {

/// Size of the reassembly buffer, and so the largest window ever advertised.
pub const SOCKET_BUFFER_SIZE: usize = 4380;

/// The retransmission timeout that a socket record starts with, and the one
/// forced on a retransmitted SYN: three seconds.
pub const INIT_RTO: u64 = 3_000_000_000;

/// Lower clamp of the retransmission timeout: one second.
pub const MIN_RTO: u64 = 1_000_000_000;

/// Upper clamp of the retransmission timeout: sixty seconds.
pub const MAX_RTO: u64 = 60_000_000_000;

/// Connection identity: local address, remote address, local port, remote
/// port. A listening socket has remote address 0.0.0.0 and remote port 0.
#[derive(Debug, Hash, PartialEq, Eq, Clone, Copy, Structural)]
pub struct SockID(pub u32, pub u32, pub u16, pub u16);

/// Send control block.
#[derive(Clone, Copy, Debug)]
pub struct SendParam {
    /// Oldest sequence number not yet acknowledged.
    pub unacked_seq: u32,
    /// Next sequence number to send.
    pub next: u32,
    /// Receive window that the peer advertised.
    pub window: u16,
    /// Initial send sequence number.
    pub initial_seq: u32,
}

/// Receive control block.
#[derive(Clone, Copy, Debug)]
pub struct RecvParam {
    /// Next contiguous sequence number expected.
    pub next: u32,
    /// Free bytes in the reassembly buffer.
    pub window: u16,
    /// Initial receive sequence number.
    pub initial_seq: u32,
    /// Highest sequence number deposited in the buffer so far.
    pub tail: u32,
}

/// The state of a connection.
#[derive(PartialEq, Eq, Debug, Clone, Copy, Structural)]
pub enum TcpStatus {
    Listen,
    SynSent,
    SynRcvd,
    Established,
    FinWait1,
    FinWait2,
    TimeWait,
    CloseWait,
    LastAck,
}

/// When a data segment was sent, and the acknowledgment that answers it.
#[derive(Clone, Copy, Debug)]
pub struct SentTime {
    pub sent_time: u64,
    pub expected_ack: u32,
}

/// Retransmission timeout estimator.
#[derive(Clone, Copy, Debug)]
pub struct RTO {
    rto: u64,
    srtt: Option<u64>,
    rttvar: Option<u64>,
}

/// A sent segment that awaits its acknowledgment.
#[derive(Debug)]
pub struct RetransmissionQueueEntry {
    pub packet: TCPPacket,
    pub latest_transmission_time: u64,
    pub expected_ack: u32,
    pub transmission_count: u8,
    pub rto: u64,
}

/// What a retransmission queue entry holds, as plain values.
pub struct RetransmissionEntryView {
    pub packet: Seq<u8>,
    pub latest_transmission_time: u64,
    pub expected_ack: u32,
    pub transmission_count: u8,
    pub rto: u64,
}

/// The record of one socket.
pub struct Socket {
    pub local_addr: u32,
    pub remote_addr: u32,
    pub local_port: u16,
    pub remote_port: u16,
    pub send_param: SendParam,
    pub recv_param: RecvParam,
    pub status: TcpStatus,
    /// Connections that completed their handshake, oldest first. Used by
    /// listening sockets only.
    pub connected_connection_queue: VecDeque<SockID>,
    /// The listening socket that this connection came from, if any.
    pub listening_socket: Option<SockID>,
    pub retransmission_queue: VecDeque<RetransmissionQueueEntry>,
    /// Reassembly buffer. The bytes ready for the application come first;
    /// the free window follows them.
    pub recv_buffer: Vec<u8>,
    /// When the last zero-window probe went out; set while the peer's window
    /// is closed.
    pub last_time_window_probe: Option<u64>,
    pub retransmission_timeout: u64,
    pub sent_times: VecDeque<SentTime>,
    pub rto: RTO,
}

/// What a socket record holds, as plain values.
pub struct SocketView {
    pub local_addr: u32,
    pub remote_addr: u32,
    pub local_port: u16,
    pub remote_port: u16,
    pub send_param: SendParam,
    pub recv_param: RecvParam,
    pub status: TcpStatus,
    pub connected_connection_queue: Seq<SockID>,
    pub listening_socket: Option<SockID>,
    pub retransmission_queue: Seq<RetransmissionEntryView>,
    pub recv_buffer: Seq<u8>,
    pub last_time_window_probe: Option<u64>,
    pub retransmission_timeout: u64,
    pub sent_times: Seq<SentTime>,
    pub rto: RtoView,
}

impl View for RetransmissionQueueEntry {
    type V = RetransmissionEntryView;

    open spec fn view(&self) -> RetransmissionEntryView {
        RetransmissionEntryView {
            packet: self.packet@,
            latest_transmission_time: self.latest_transmission_time,
            expected_ack: self.expected_ack,
            transmission_count: self.transmission_count,
            rto: self.rto,
        }
    }
}

/// The views of the entries of a queue, in order.
pub open spec fn entry_views(queue: Seq<RetransmissionQueueEntry>) -> Seq<
    RetransmissionEntryView,
> {
    Seq::new(queue.len(), |i: int| queue[i]@)
}

impl View for Socket {
    type V = SocketView;

    open spec fn view(&self) -> SocketView {
        SocketView {
            local_addr: self.local_addr,
            remote_addr: self.remote_addr,
            local_port: self.local_port,
            remote_port: self.remote_port,
            send_param: self.send_param,
            recv_param: self.recv_param,
            status: self.status,
            connected_connection_queue: self.connected_connection_queue@,
            listening_socket: self.listening_socket,
            retransmission_queue: entry_views(self.retransmission_queue@),
            recv_buffer: self.recv_buffer@,
            last_time_window_probe: self.last_time_window_probe,
            retransmission_timeout: self.retransmission_timeout,
            sent_times: self.sent_times@,
            rto: self.rto@,
        }
    }
}

impl SendParam {
    /// Bytes in flight: the distance from the oldest unacknowledged sequence
    /// number to the next one to send.
    pub open spec fn spec_used(&self) -> u32 {
        seq_diff(self.next, self.unacked_seq) as u32
    }

    /// What is left of the peer's window after the bytes in flight.
    pub open spec fn spec_remain(&self) -> u32 {
        if self.window >= self.spec_used() {
            (self.window - self.spec_used()) as u32
        } else {
            0
        }
    }

    /// Bytes in flight.
    pub fn used(&self) -> (r: u32)
        ensures
            r == self.spec_used(),
    {
        diff(self.next, self.unacked_seq)
    }

    /// What is left of the peer's window.
    pub fn remain(&self) -> (r: u32)
        ensures
            r == self.spec_remain(),
    {
        let used = self.used();
        let window = self.window as u32;
        if window >= used {
            window - used
        } else {
            0
        }
    }
}

/// `value` brought into the range from `MIN_RTO` to `MAX_RTO`.
pub open spec fn clamp_rto(value: int) -> u64 {
    if value < MIN_RTO {
        MIN_RTO
    } else if value > MAX_RTO {
        MAX_RTO
    } else {
        value as u64
    }
}

/// What the estimator holds: the timeout in force, and the smoothed
/// round-trip time and its variation once a sample was taken.
pub struct RtoView {
    pub rto: u64,
    pub srtt: Option<u64>,
    pub rttvar: Option<u64>,
}

impl RtoView {
    /// The state of a new estimator: a timeout of one second, no sample yet.
    pub open spec fn initial() -> RtoView {
        RtoView { rto: MIN_RTO, srtt: None, rttvar: None }
    }

    /// The timeout lies between the two clamps.
    pub open spec fn in_range(self) -> bool {
        MIN_RTO <= self.rto <= MAX_RTO
    }

    /// The estimator with its timeout set to `rto`, clamped.
    pub open spec fn set(self, rto: int) -> RtoView {
        RtoView { rto: clamp_rto(rto), ..self }
    }

    /// The estimator with its timeout doubled, clamped.
    pub open spec fn backoff(self) -> RtoView {
        self.set(2 * self.rto)
    }

    /// The smoothed round-trip time after the sample `rtt`: the sample
    /// itself the first time, then seven eighths of the old value and one
    /// eighth of the sample.
    pub open spec fn smoothed(self, rtt: u64) -> u64 {
        match (self.srtt, self.rttvar) {
            (Some(s), Some(v)) => ((7 * s + rtt) / 8) as u64,
            _ => rtt,
        }
    }

    /// The round-trip time variation after the sample `rtt`: half the sample
    /// the first time, then three quarters of the old value and one quarter
    /// of the distance between the sample and the old smoothed round-trip
    /// time.
    pub open spec fn variation(self, rtt: u64) -> u64 {
        match (self.srtt, self.rttvar) {
            (Some(s), Some(v)) => ((3 * v + (if rtt > s {
                rtt - s
            } else {
                s - rtt
            })) / 4) as u64,
            _ => rtt / 2,
        }
    }

    /// The estimator after it took the sample `rtt`: the timeout becomes the
    /// smoothed round-trip time plus four times the variation, clamped.
    pub open spec fn next(self, rtt: u64) -> RtoView {
        RtoView {
            rto: clamp_rto(self.smoothed(rtt) + 4 * self.variation(rtt)),
            srtt: Some(self.smoothed(rtt)),
            rttvar: Some(self.variation(rtt)),
        }
    }
}

impl View for RTO {
    type V = RtoView;

    closed spec fn view(&self) -> RtoView {
        RtoView { rto: self.rto, srtt: self.srtt, rttvar: self.rttvar }
    }
}

impl RTO {
    /// An estimator with a timeout of one second and no sample yet.
    pub fn new() -> (r: Self)
        ensures
            r@ == RtoView::initial(),
    {
        RTO { rto: MIN_RTO, srtt: None, rttvar: None }
    }

    /// The timeout in force.
    pub fn get(&self) -> (r: u64)
        ensures
            r == self@.rto,
    {
        self.rto
    }

    /// Sets the timeout to `rto`, brought between the clamps.
    pub fn set(&mut self, rto: u64)
        ensures
            final(self)@ == old(self)@.set(rto as int),
    {
        self.rto = if rto < MIN_RTO {
            MIN_RTO
        } else if rto > MAX_RTO {
            MAX_RTO
        } else {
            rto
        };
    }

    /// Doubles the timeout within the clamps and returns the new value.
    pub fn backoff(&mut self) -> (r: u64)
        ensures
            final(self)@ == old(self)@.backoff(),
            r == final(self)@.rto,
    {
        let doubled: u64 = if self.rto > MAX_RTO / 2 {
            MAX_RTO
        } else {
            self.rto * 2
        };
        self.set(doubled);
        self.rto
    }

    /// Takes the round-trip time sample `rtt` into the estimate.
    pub fn next(&mut self, rtt: u64)
        ensures
            final(self)@ == old(self)@.next(rtt),
    {
        let (srtt, rttvar): (u64, u64) = match (self.srtt, self.rttvar) {
            (Some(s), Some(v)) => {
                let distance: u64 = if rtt > s {
                    rtt - s
                } else {
                    s - rtt
                };
                let rttvar = ((3 * (v as u128) + distance as u128) / 4) as u64;
                let srtt = ((7 * (s as u128) + rtt as u128) / 8) as u64;
                (srtt, rttvar)
            },
            _ => (rtt, rtt / 2),
        };
        self.srtt = Some(srtt);
        self.rttvar = Some(rttvar);
        let total: u128 = srtt as u128 + 4 * (rttvar as u128);
        self.rto = if total < MIN_RTO as u128 {
            MIN_RTO
        } else if total > MAX_RTO as u128 {
            MAX_RTO
        } else {
            total as u64
        };
    }
}

/// Whatever is set, doubled or sampled, the timeout stays between the clamps.
pub proof fn lemma_rto_stays_in_range(rto: RtoView, value: int, rtt: u64)
    ensures
        RtoView::initial().in_range(),
        rto.set(value).in_range(),
        rto.backoff().in_range(),
        rto.next(rtt).in_range(),
{
}

/// The acknowledgment number that answers the segment `bytes`: its sequence
/// number, advanced by the length of the payload and by one more where it
/// carries SYN or FIN.
pub open spec fn expected_ack_of(bytes: Seq<u8>) -> u32 {
    let after_payload = seq_add(seq_of(bytes), payload_of(bytes).len() as int % 0x1_0000_0000);
    if has_flag(flag_of(bytes), SYN) || has_flag(flag_of(bytes), FIN) {
        seq_add(after_payload, 1)
    } else {
        after_payload
    }
}

/// The queue entry of a segment sent for the first time at `now`.
pub open spec fn first_transmission(bytes: Seq<u8>, rto: u64, now: u64) -> RetransmissionEntryView {
    RetransmissionEntryView {
        packet: bytes,
        latest_transmission_time: now,
        expected_ack: expected_ack_of(bytes),
        transmission_count: 1,
        rto,
    }
}

impl Clone for RetransmissionQueueEntry {
    fn clone(&self) -> (r: Self)
        ensures
            r@ == self@,
    {
        RetransmissionQueueEntry {
            packet: self.packet.clone(),
            latest_transmission_time: self.latest_transmission_time,
            expected_ack: self.expected_ack,
            transmission_count: self.transmission_count,
            rto: self.rto,
        }
    }
}

impl RetransmissionQueueEntry {
    /// The entry of a segment sent for the first time at `now` with the
    /// timeout `rto`.
    pub fn new(packet: TCPPacket, rto: u64, now: u64) -> (r: Self)
        ensures
            r@ == first_transmission(packet@, rto, now),
    {
        let payload_len = (packet.payload().len() as u64 % 0x1_0000_0000) as u32;
        let after_payload = advance(packet.get_seq(), payload_len);
        let flag = packet.get_flag();
        let expected_ack = if contains(flag, SYN) || contains(flag, FIN) {
            advance(after_payload, 1)
        } else {
            after_payload
        };
        RetransmissionQueueEntry {
            packet,
            latest_transmission_time: now,
            expected_ack,
            transmission_count: 1,
            rto,
        }
    }
}

impl TcpStatus {
    /// The name of the state, in capitals.
    pub fn name(&self) -> (r: &'static str)
        ensures
            r@ == match *self {
                TcpStatus::Listen => "LISTEN"@,
                TcpStatus::SynSent => "SYNSENT"@,
                TcpStatus::SynRcvd => "SYNRCVD"@,
                TcpStatus::Established => "ESTABLISHED"@,
                TcpStatus::FinWait1 => "FINWAIT1"@,
                TcpStatus::FinWait2 => "FINWAIT2"@,
                TcpStatus::TimeWait => "TIMEWAIT"@,
                TcpStatus::CloseWait => "CLOSEWAIT"@,
                TcpStatus::LastAck => "LASTACK"@,
            },
    {
        match self {
            TcpStatus::Listen => "LISTEN",
            TcpStatus::SynSent => "SYNSENT",
            TcpStatus::SynRcvd => "SYNRCVD",
            TcpStatus::Established => "ESTABLISHED",
            TcpStatus::FinWait1 => "FINWAIT1",
            TcpStatus::FinWait2 => "FINWAIT2",
            TcpStatus::TimeWait => "TIMEWAIT",
            TcpStatus::CloseWait => "CLOSEWAIT",
            TcpStatus::LastAck => "LASTACK",
        }
    }
}

/// The fresh record of a socket between the given endpoints: nothing sent,
/// nothing received, an empty buffer of zeros and the whole window free.
pub open spec fn fresh_socket(
    local_addr: u32,
    remote_addr: u32,
    local_port: u16,
    remote_port: u16,
    status: TcpStatus,
) -> SocketView {
    SocketView {
        local_addr,
        remote_addr,
        local_port,
        remote_port,
        send_param: SendParam {
            unacked_seq: 0,
            initial_seq: 0,
            next: 0,
            window: SOCKET_BUFFER_SIZE as u16,
        },
        recv_param: RecvParam {
            initial_seq: 0,
            next: 0,
            window: SOCKET_BUFFER_SIZE as u16,
            tail: 0,
        },
        status,
        connected_connection_queue: Seq::empty(),
        listening_socket: None,
        retransmission_queue: Seq::empty(),
        recv_buffer: Seq::new(SOCKET_BUFFER_SIZE as nat, |i: int| 0u8),
        last_time_window_probe: None,
        retransmission_timeout: INIT_RTO,
        sent_times: Seq::empty(),
        rto: RtoView::initial(),
    }
}

/// The bytes of the segment that a socket sends: source and destination
/// port, sequence and acknowledgment number, a header of five words, the
/// flags, the advertised window, the payload, and the checksum over all of
/// it for the socket's address pair.
#[verifier::opaque]
pub open spec fn segment_bytes(
    local_addr: u32,
    remote_addr: u32,
    local_port: u16,
    remote_port: u16,
    seq: u32,
    ack: u32,
    flag: u8,
    window: u16,
    payload: Seq<u8>,
) -> Seq<u8> {
    let zeros = Seq::new((TCP_HEADER_SIZE + payload.len()) as nat, |i: int| 0u8);
    let ports = put_be16(put_be16(zeros, 0, local_port), 2, remote_port);
    let numbers = put_be32(put_be32(ports, 4, seq), 8, ack);
    let control = put_be16(numbers.update(12, 0x50u8).update(13, flag), 14, window);
    let filled = control.subrange(0, TCP_HEADER_SIZE as int) + payload;
    put_be16(filled, 16, tcp_checksum_of(filled, local_addr, remote_addr))
}

/// Decoding a segment gives back what it was built from: the ports, the
/// numbers, the flags, the window and the payload, behind a header of twenty
/// bytes.
pub proof fn lemma_segment_fields(
    local_addr: u32,
    remote_addr: u32,
    local_port: u16,
    remote_port: u16,
    seq: u32,
    ack: u32,
    flag: u8,
    window: u16,
    payload: Seq<u8>,
)
    ensures
        ({
            let bytes = segment_bytes(
                local_addr,
                remote_addr,
                local_port,
                remote_port,
                seq,
                ack,
                flag,
                window,
                payload,
            );
            &&& bytes.len() == TCP_HEADER_SIZE + payload.len()
            &&& src_of(bytes) == local_port
            &&& dst_of(bytes) == remote_port
            &&& seq_of(bytes) == seq
            &&& ack_of(bytes) == ack
            &&& data_offset_of(bytes) == TCP_HEADER_SIZE
            &&& flag_of(bytes) == flag
            &&& window_size_of(bytes) == window
            &&& payload_of(bytes) == payload
        }),
{
    reveal(segment_bytes);
    let zeros = Seq::new((TCP_HEADER_SIZE + payload.len()) as nat, |i: int| 0u8);
    let ports = put_be16(put_be16(zeros, 0, local_port), 2, remote_port);
    lemma_be32_round_trip(ports, 4, seq);
    lemma_be32_round_trip(put_be32(ports, 4, seq), 8, ack);
}

/// A segment is kept for retransmission when it carries payload or any
/// flags other than a lone ACK.
pub open spec fn needs_retransmission(flag: u8, payload: Seq<u8>) -> bool {
    payload.len() > 0 || flag != ACK
}

impl SocketView {
    /// The identity of the socket.
    pub open spec fn sock_id(self) -> SockID {
        SockID(self.local_addr, self.remote_addr, self.local_port, self.remote_port)
    }

    /// The reassembly buffer has its fixed size, the free window lies inside
    /// it, and what was deposited ahead of the next expected byte lies inside
    /// the free window.
    pub open spec fn wf(self) -> bool {
        &&& self.recv_buffer.len() == SOCKET_BUFFER_SIZE
        &&& self.recv_param.window <= SOCKET_BUFFER_SIZE
        &&& seq_diff(self.recv_param.tail, self.recv_param.next) <= self.recv_param.window
    }

    /// The segment that this socket sends with the given numbers, flags and
    /// payload.
    pub open spec fn segment(self, seq: u32, ack: u32, flag: u8, payload: Seq<u8>) -> Seq<u8> {
        segment_bytes(
            self.local_addr,
            self.remote_addr,
            self.local_port,
            self.remote_port,
            seq,
            ack,
            flag,
            self.recv_param.window,
            payload,
        )
    }

    /// The socket after it sent that segment at `now`: the segment joins the
    /// retransmission queue with the current timeout, unless it is a bare
    /// acknowledgment.
    pub open spec fn after_send(
        self,
        seq: u32,
        ack: u32,
        flag: u8,
        payload: Seq<u8>,
        now: u64,
    ) -> SocketView {
        if needs_retransmission(flag, payload) {
            SocketView {
                retransmission_queue: self.retransmission_queue.push(
                    first_transmission(self.segment(seq, ack, flag, payload), self.rto.rto, now),
                ),
                ..self
            }
        } else {
            self
        }
    }
}

impl Socket {
    /// A fresh record for a socket between the given endpoints, in the
    /// given state.
    pub fn new(
        local_addr: u32,
        remote_addr: u32,
        local_port: u16,
        remote_port: u16,
        status: TcpStatus,
    ) -> (r: Self)
        ensures
            r@ == fresh_socket(local_addr, remote_addr, local_port, remote_port, status),
            r@.wf(),
    {
        let send_param = SendParam {
            unacked_seq: 0,
            initial_seq: 0,
            next: 0,
            window: SOCKET_BUFFER_SIZE as u16,
        };
        let recv_param = RecvParam {
            initial_seq: 0,
            next: 0,
            window: SOCKET_BUFFER_SIZE as u16,
            tail: 0,
        };
        let recv_buffer = vec![0u8; SOCKET_BUFFER_SIZE];
        let r = Socket {
            local_addr,
            remote_addr,
            local_port,
            remote_port,
            send_param,
            recv_param,
            status,
            connected_connection_queue: VecDeque::new(),
            listening_socket: None,
            retransmission_queue: VecDeque::new(),
            recv_buffer,
            last_time_window_probe: None,
            retransmission_timeout: INIT_RTO,
            sent_times: VecDeque::new(),
            rto: RTO::new(),
        };
        proof {
            let f = fresh_socket(local_addr, remote_addr, local_port, remote_port, status);
            assert(r@.recv_buffer =~= f.recv_buffer);
            assert(r@.retransmission_queue =~= f.retransmission_queue);
        }
        r
    }

    /// Builds the segment with the given numbers, flags and payload, sealed
    /// with its checksum so that it passes the check at the peer as well as
    /// here, and returns it for sending. Unless it is a bare
    /// acknowledgment, a copy joins the retransmission queue, stamped `now`.
    pub fn send_tcp_packet(&mut self, seq: u32, ack: u32, flag: u8, payload: &[u8], now: u64) -> (r:
        TCPPacket)
        requires
            TCP_HEADER_SIZE + payload@.len() <= MAX_SEGMENT_SIZE,
        ensures
            r@ == old(self)@.segment(seq, ack, flag, payload@),
            checksum_ok(r@, old(self).local_addr, old(self).remote_addr),
            checksum_ok(r@, old(self).remote_addr, old(self).local_addr),
            final(self)@ == old(self)@.after_send(seq, ack, flag, payload@, now),
    {
        let mut tcp_packet = TCPPacket::new(payload.len());
        tcp_packet.set_src(self.local_port);
        tcp_packet.set_dst(self.remote_port);
        tcp_packet.set_seq(seq);
        tcp_packet.set_ack(ack);
        tcp_packet.set_data_offset(5);
        tcp_packet.set_flag(flag);
        tcp_packet.set_window_size(self.recv_param.window);
        tcp_packet.set_payload(payload);
        proof {
            reveal(segment_bytes);
            let zeros = Seq::new((TCP_HEADER_SIZE + payload@.len()) as nat, |i: int| 0u8);
            let ports = put_be16(put_be16(zeros, 0, self.local_port), 2, self.remote_port);
            let numbers = put_be32(put_be32(ports, 4, seq), 8, ack);
            let control = put_be16(
                numbers.update(12, 0x50u8).update(13, flag),
                14,
                self.recv_param.window,
            );
            assert(tcp_packet@ =~= control.subrange(0, TCP_HEADER_SIZE as int) + payload@);
        }
        tcp_packet.seal(self.local_addr, self.remote_addr);
        if payload.len() > 0 || flag != ACK {
            let entry = RetransmissionQueueEntry::new(tcp_packet.clone(), self.rto.get(), now);
            self.retransmission_queue.push_back(entry);
            proof {
                assert(entry_views(self.retransmission_queue@) =~= entry_views(
                    old(self).retransmission_queue@,
                ).push(entry@));
            }
        }
        tcp_packet
    }

    /// The identity of the socket.
    pub fn get_sock_id(&self) -> (r: SockID)
        ensures
            r == self@.sock_id(),
    {
        SockID(self.local_addr, self.remote_addr, self.local_port, self.remote_port)
    }
}

} // verus!
