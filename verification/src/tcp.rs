//! The engine: the table of sockets and the steps of the state machine.
//!
//! Nothing here blocks or touches the network. A step takes what was received
//! and the time, changes the records, and returns what is to be sent and
//! published. The caller performs it and comes back with the next input.

use crate::invariants::{
    lemma_open_keeps_invariant, lemma_quiet_steps_keep_invariant, lemma_receive_keeps_invariant,
    lemma_send_and_close_keep_invariant, lemma_timer_keeps_invariant, table_inv,
    table_outstanding,
};
use crate::model::{
    acked_prefix, connect_step, dispatch_step, distinct_ids, first_expecting, has_socket,
    lemma_position_unique, lift, listen_handler_step, listen_step, listening_id, port_unused,
    position, put_socket, receive_step, synrcvd_handler_step, table_wf, timer_from, timer_step,
    unchanged, without_socket, ActionView, Sweep, TableStep,
};
use crate::packet::{seq_of, TCPPacket};
use crate::seqnum::{advance, diff, later, le, lt, seq_lt, HALF_SPACE};
use crate::socket::{
    entry_views, RetransmissionEntryView, RetransmissionQueueEntry, SentTime, SockID, Socket,
    SocketView, TcpStatus, INIT_RTO, SOCKET_BUFFER_SIZE,
};
use crate::tcpflags::{contains, ACK, FIN, SYN};
use std::collections::VecDeque;
use vstd::prelude::*;

verus! {

/// The remote address of a socket that listens.
pub const UNDETERMINED_IP_ADDR: u32 = 0;

/// The remote port of a socket that listens.
pub const UNDETERMINED_PORT: u16 = 0;

/// Most transmissions of one segment, the first one included.
pub const MAX_TRANSMISSION: u8 = 5;

/// Largest payload of one segment.
pub const MSS: usize = 1460;

/// First port of the range that `connect` picks local ports from.
pub const PORT_RANGE_START: u16 = 40000;

/// End of that range; the port itself is not part of it.
pub const PORT_RANGE_END: u16 = 60000;

/// Time between two zero-window probes: five seconds.
pub const WINDOW_PROBE_DURATION: u64 = 5_000_000_000;

/// Lowest initial send sequence number that the engine picks.
pub const ISS_RANGE_START: u32 = 1;

/// End of the range of initial send sequence numbers; not part of it.
pub const ISS_RANGE_END: u32 = 0x8000_0000;

/// Why a call on the engine failed.
#[derive(Debug, Clone, Copy, PartialEq, Eq, Structural)]
pub enum TcpError {
    /// The table holds no socket with the given identity.
    NoSuchSocket,
    /// The listening socket has no completed connection to hand out.
    NoConnectedSocket,
    /// No unused local port was found.
    NoAvailablePort,
    /// The application has closed the connection: it takes no more data to
    /// send.
    ConnectionClosing,
}

/// What can happen to a socket that a caller may wait for.
#[derive(Debug, Clone, Copy, PartialEq, Eq, Structural)]
pub enum TCPEventKind {
    /// The handshake of a connection is complete.
    ConnectionCompleted,
    /// A segment that was sent is acknowledged.
    Acked,
    /// Data has arrived, or the peer's FIN.
    DataArrived,
    /// The connection has ended, or its FIN went unanswered.
    ConnectionClosed,
}

/// Something that happened to a socket, for whoever waits on it.
#[derive(Debug, Clone, Copy, PartialEq, Eq, Structural)]
pub struct TCPEvent {
    pub sock_id: SockID,
    pub kind: TCPEventKind,
}

impl TCPEvent {
    /// The event of the kind `kind` for the socket `sock_id`.
    pub fn new(sock_id: SockID, kind: TCPEventKind) -> (r: Self)
        ensures
            r == (TCPEvent { sock_id, kind }),
    {
        Self { sock_id, kind }
    }
}

/// The single slot of the event bus: it holds the event published last,
/// until a waiter takes it.
pub struct EventSlot {
    event: Option<TCPEvent>,
}

impl View for EventSlot {
    type V = Option<TCPEvent>;

    closed spec fn view(&self) -> Option<TCPEvent> {
        self.event
    }
}

impl EventSlot {
    /// An empty slot.
    pub fn new() -> (r: Self)
        ensures
            r@ is None,
    {
        EventSlot { event: None }
    }

    /// Puts an event into the slot, over whatever it held.
    pub fn publish(&mut self, event: TCPEvent)
        ensures
            final(self)@ == Some(event),
    {
        self.event = Some(event);
    }

    /// Takes the event out of the slot if it is the one waited for. Any
    /// other event stays, and the caller waits on.
    pub fn take(&mut self, sock_id: SockID, kind: TCPEventKind) -> (r: bool)
        ensures
            r == (old(self)@ == Some(TCPEvent { sock_id, kind })),
            final(self)@ == if r {
                None
            } else {
                old(self)@
            },
    {
        match self.event {
            Some(event) => {
                if event.sock_id == sock_id && event.kind == kind {
                    self.event = None;
                    true
                } else {
                    false
                }
            },
            None => false,
        }
    }
}

/// What the engine asks of its caller: to send a segment to a remote
/// address, or to publish an event.
#[derive(Debug)]
pub enum Action {
    /// Put `packet` on the wire to `remote_addr`.
    Send { remote_addr: u32, packet: TCPPacket },
    /// Publish the event on the event bus.
    Publish(TCPEvent),
}

impl View for Action {
    type V = ActionView;

    open spec fn view(&self) -> ActionView {
        match *self {
            Action::Send { remote_addr, packet } => ActionView::Send {
                remote_addr,
                packet: packet@,
            },
            Action::Publish(event) => ActionView::Publish(event),
        }
    }
}

/// The views of a list of requests, in order.
pub open spec fn action_views(actions: Seq<Action>) -> Seq<ActionView> {
    Seq::new(actions.len(), |i: int| actions[i]@)
}

fn emit(out: &mut Vec<Action>, action: Action)
    ensures
        action_views(final(out)@) == action_views(old(out)@).push(action@),
{
    out.push(action);
}

fn publish(socket: &Socket, kind: TCPEventKind, out: &mut Vec<Action>)
    ensures
        action_views(final(out)@) == action_views(old(out)@).push(socket@.event(kind)),
{
    emit(out, Action::Publish(TCPEvent::new(socket.get_sock_id(), kind)));
}

fn acknowledge(socket: &mut Socket, now: u64, out: &mut Vec<Action>)
    ensures
        final(socket)@ == old(socket)@,
        action_views(final(out)@) == action_views(old(out)@).push(old(socket)@.acknowledgment()),
{
    let empty: Vec<u8> = Vec::new();
    let packet = socket.send_tcp_packet(
        socket.send_param.next,
        socket.recv_param.next,
        ACK,
        empty.as_slice(),
        now,
    );
    emit(out, Action::Send { remote_addr: socket.remote_addr, packet });
}

fn front_is_acked(socket: &Socket) -> (r: bool)
    ensures
        r == (socket@.retransmission_queue.len() > 0 && seq_lt(
            seq_of(socket@.retransmission_queue[0].packet),
            socket.send_param.unacked_seq,
        )),
{
    if socket.retransmission_queue.len() > 0 {
        lt(socket.retransmission_queue[0].packet.get_seq(), socket.send_param.unacked_seq)
    } else {
        false
    }
}

/// Skipping `k` entries and then the first of the rest is skipping `k + 1`.
proof fn lemma_skip_drop_first<T>(s: Seq<T>, k: int)
    requires
        0 <= k < s.len(),
    ensures
        s.skip(k).drop_first() == s.skip(k + 1),
        s.skip(k)[0] == s[k],
{
}

/// Where every record before `at` expects another acknowledgment, and the
/// one at `at`, if there is one, expects `ack`, `at` is the first that does.
proof fn lemma_first_expecting(times: Seq<SentTime>, ack: u32, at: int)
    requires
        0 <= at <= times.len(),
        forall|j: int| 0 <= j < at ==> times[j].expected_ack != ack,
        at < times.len() ==> times[at].expected_ack == ack,
    ensures
        first_expecting(times, ack) == at,
    decreases times.len(),
{
    if at > 0 {
        let rest = times.drop_first();
        lemma_first_expecting(rest, ack, at - 1);
    }
}

/// Writes the first `size` bytes of `source` into `buffer` from `offset` on.
fn deposit(buffer: &mut Vec<u8>, offset: usize, source: &[u8], size: usize)
    requires
        offset + size <= old(buffer)@.len(),
        size <= source@.len(),
    ensures
        final(buffer)@ == old(buffer)@.subrange(0, offset as int) + source@.subrange(
            0,
            size as int,
        ) + old(buffer)@.subrange(offset + size, old(buffer)@.len() as int),
{
    let len = buffer.len();
    let mut i: usize = 0;
    while i < size
        invariant
            i <= size,
            size <= source@.len(),
            len == buffer@.len(),
            len == old(buffer)@.len(),
            offset + size <= len,
            forall|j: int| 0 <= j < offset ==> buffer@[j] == old(buffer)@[j],
            forall|j: int| 0 <= j < i ==> buffer@[offset + j] == source@[j],
            forall|j: int| offset + i <= j < len ==> buffer@[j] == old(buffer)@[j],
        decreases size - i,
    {
        buffer[offset + i] = source[i];
        i += 1;
    }
}

/// Calls `rand::Rng::gen_range` on the thread's generator with the half-open
/// range from `low` to `high`.
///
/// Trusted: the result lies in the range. Which value it is depends on
/// chance. An empty range, on which the outside function panics, is left
/// out.
#[verifier::external_body]
fn random_in_range(low: u32, high: u32) -> (r: u32)
    requires
        low < high,
    ensures
        low <= r < high,
{
    rand::Rng::gen_range(&mut rand::thread_rng(), low..high)
}

/// The views of the sockets of a table, in order.
pub open spec fn socket_views(sockets: Seq<Socket>) -> Seq<SocketView> {
    Seq::new(sockets.len(), |i: int| sockets[i]@)
}

/// Where the socket with the identity `id` stands in the table.
fn find(sockets: &Vec<Socket>, id: SockID) -> (r: Option<usize>)
    requires
        distinct_ids(socket_views(sockets@)),
    ensures
        r is Some <==> has_socket(socket_views(sockets@), id),
        r matches Some(at) ==> at == position(socket_views(sockets@), id) && at < sockets@.len()
            && sockets@[at as int]@.sock_id() == id,
{
    let ghost table = socket_views(sockets@);
    let count = sockets.len();
    let mut at: usize = 0;
    while at < count
        invariant
            at <= count,
            count == sockets@.len(),
            table == socket_views(sockets@),
            distinct_ids(table),
            forall|j: int| 0 <= j < at ==> (#[trigger] table[j]).sock_id() != id,
        decreases count - at,
    {
        if sockets[at].get_sock_id() == id {
            proof {
                lemma_position_unique(table, id, at as int);
            }
            return Some(at);
        }
        at += 1;
    }
    None
}

/// Puts `socket` into the table, in place of the socket of the same identity
/// if there is one.
fn insert(sockets: &mut Vec<Socket>, socket: Socket)
    requires
        table_wf(socket_views(old(sockets)@)),
        socket@.wf(),
    ensures
        socket_views(final(sockets)@) == put_socket(socket_views(old(sockets)@), socket@),
        table_wf(socket_views(final(sockets)@)),
{
    let ghost view = socket@;
    let ghost table = socket_views(sockets@);
    match find(sockets, socket.get_sock_id()) {
        Some(at) => {
            sockets[at] = socket;
        },
        None => {
            sockets.push(socket);
            assert(socket_views(sockets@) =~= table.push(view));
        },
    }
}

/// Takes the socket with the identity `id` out of the table.
fn remove(sockets: &mut Vec<Socket>, id: SockID)
    requires
        table_wf(socket_views(old(sockets)@)),
    ensures
        socket_views(final(sockets)@) == without_socket(socket_views(old(sockets)@), id),
        table_wf(socket_views(final(sockets)@)),
{
    let ghost table = socket_views(sockets@);
    match find(sockets, id) {
        Some(at) => {
            sockets.remove(at);
            assert(socket_views(sockets@) =~= table.remove(at as int));
        },
        None => {},
    }
}

/// Handles a segment for the listening socket at `at`, sent from
/// `remote_addr`: a SYN without ACK opens a connection with `iss` as its
/// initial send sequence number, which enters the table and answers with
/// SYN|ACK.
fn listen_handler(
    sockets: &mut Vec<Socket>,
    at: usize,
    packet: &TCPPacket,
    remote_addr: u32,
    iss: u32,
    now: u64,
    out: &mut Vec<Action>,
)
    requires
        table_wf(socket_views(old(sockets)@)),
        at < old(sockets)@.len(),
    ensures
        table_wf(socket_views(final(sockets)@)),
        (TableStep {
            table: socket_views(final(sockets)@),
            actions: action_views(final(out)@),
        }) == (TableStep {
            actions: action_views(old(out)@) + listen_handler_step(
                socket_views(old(sockets)@),
                at as int,
                packet@,
                remote_addr,
                iss,
                now,
            ).actions,
            ..listen_handler_step(
                socket_views(old(sockets)@),
                at as int,
                packet@,
                remote_addr,
                iss,
                now,
            )
        }),
{
    reveal(SocketView::accept_syn);
    let ghost table = socket_views(sockets@);
    let ghost requested = action_views(out@);
    let flag = packet.get_flag();
    if contains(flag, ACK) || !contains(flag, SYN) {
        return ;
    }
    let mut connection = Socket::new(
        sockets[at].local_addr,
        remote_addr,
        sockets[at].local_port,
        packet.get_src(),
        TcpStatus::SynRcvd,
    );
    TCP::synchronize(&mut connection, packet.get_seq());
    connection.send_param.initial_seq = iss;
    connection.send_param.window = packet.get_window_size();
    let empty: Vec<u8> = Vec::new();
    let answer = connection.send_tcp_packet(
        iss,
        connection.recv_param.next,
        SYN | ACK,
        empty.as_slice(),
        now,
    );
    emit(out, Action::Send { remote_addr: connection.remote_addr, packet: answer });
    connection.send_param.next = advance(iss, 1);
    connection.send_param.unacked_seq = iss;
    connection.listening_socket = Some(sockets[at].get_sock_id());
    proof {
        let step = table[at as int].accept_syn(packet@, remote_addr, iss, now);
        assert(action_views(out@) =~= requested + step.actions);
    }
    insert(sockets, connection);
}

/// Handles a segment for the socket in SYN_RCVD at `at`: one that completes
/// the handshake establishes the connection and hands it to the listening
/// socket that it came from.
fn synrcvd_handler(sockets: &mut Vec<Socket>, at: usize, packet: &TCPPacket, out: &mut Vec<Action>)
    requires
        table_wf(socket_views(old(sockets)@)),
        at < old(sockets)@.len(),
    ensures
        table_wf(socket_views(final(sockets)@)),
        (TableStep {
            table: socket_views(final(sockets)@),
            actions: action_views(final(out)@),
        }) == (TableStep {
            actions: action_views(old(out)@) + synrcvd_handler_step(
                socket_views(old(sockets)@),
                at as int,
                packet@,
            ).actions,
            ..synrcvd_handler_step(socket_views(old(sockets)@), at as int, packet@)
        }),
{
    let ghost table = socket_views(sockets@);
    let ghost requested = action_views(out@);
    let ack = packet.get_ack();
    assert(table[at as int].wf());
    if !(contains(packet.get_flag(), ACK) && le(sockets[at].send_param.unacked_seq, ack) && le(
        ack,
        sockets[at].send_param.next,
    )) {
        return ;
    }
    let seq = packet.get_seq();
    let sock_id = sockets[at].get_sock_id();
    let listening_socket = sockets[at].listening_socket;
    sockets[at].recv_param.next = seq;
    sockets[at].recv_param.tail = seq;
    sockets[at].send_param.unacked_seq = ack;
    sockets[at].status = TcpStatus::Established;
    let ghost opened = socket_views(sockets@);
    proof {
        assert(opened =~= table.update(at as int, table[at as int].handshake_completed(packet@)));
    }
    match listening_socket {
        Some(id) => {
            match find(sockets, id) {
                Some(listener) => {
                    assert(opened[listener as int].wf());
                    sockets[listener].connected_connection_queue.push_back(sock_id);
                    emit(
                        out,
                        Action::Publish(TCPEvent::new(id, TCPEventKind::ConnectionCompleted)),
                    );
                    proof {
                        let joined = SocketView {
                            connected_connection_queue: opened[listener as
                                int].connected_connection_queue.push(sock_id),
                            ..opened[listener as int]
                        };
                        assert(socket_views(sockets@) =~= opened.update(listener as int, joined));
                        assert(action_views(out@) =~= requested + seq![
                            ActionView::Publish(
                                TCPEvent { sock_id: id, kind: TCPEventKind::ConnectionCompleted },
                            ),
                        ]);
                    }
                },
                None => {},
            }
        },
        None => {},
    }
}

/// Hands a segment for the socket at `at` to the handler of the state that
/// the socket is in.
fn dispatch(
    sockets: &mut Vec<Socket>,
    at: usize,
    packet: &TCPPacket,
    remote_addr: u32,
    iss: u32,
    now: u64,
    out: &mut Vec<Action>,
)
    requires
        table_wf(socket_views(old(sockets)@)),
        at < old(sockets)@.len(),
        action_views(old(out)@) == Seq::<ActionView>::empty(),
    ensures
        table_wf(socket_views(final(sockets)@)),
        (TableStep {
            table: socket_views(final(sockets)@),
            actions: action_views(final(out)@),
        }) == dispatch_step(socket_views(old(sockets)@), at as int, packet@, remote_addr, iss, now),
{
    let ghost table = socket_views(sockets@);
    match sockets[at].status {
        TcpStatus::Listen => {
            listen_handler(sockets, at, packet, remote_addr, iss, now, out);
        },
        TcpStatus::SynRcvd => {
            synrcvd_handler(sockets, at, packet, out);
        },
        TcpStatus::SynSent => {
            TCP::synsent_handler(&mut sockets[at], packet, now, out);
        },
        TcpStatus::Established => {
            TCP::established_handler(&mut sockets[at], packet, now, out);
        },
        TcpStatus::CloseWait | TcpStatus::LastAck => {
            TCP::close_handler(&mut sockets[at], packet);
        },
        TcpStatus::FinWait1 | TcpStatus::FinWait2 => {
            TCP::finwait_handler(&mut sockets[at], packet, now, out);
        },
        TcpStatus::TimeWait => {},
    }
    proof {
        if table[at as int].status != TcpStatus::Listen && table[at as int].status
            != TcpStatus::SynRcvd {
            assert(socket_views(sockets@) =~= table.update(at as int, sockets@[at as int]@));
        }
    }
}

/// The table of sockets, keyed by connection identity.
pub struct TCP {
    sockets: Vec<Socket>,
}

impl View for TCP {
    type V = Seq<SocketView>;

    closed spec fn view(&self) -> Seq<SocketView> {
        socket_views(self.sockets@)
    }
}

impl TCP {
    /// Drops the acknowledged segments from the head of the retransmission
    /// queue and reports each of them.
    pub fn delete_acked_segment_from_retransmission_queue(
        socket: &mut Socket,
        out: &mut Vec<Action>,
    )
        ensures
            final(socket)@ == old(socket)@.delete_acked().socket,
            action_views(final(out)@) == action_views(old(out)@) + old(
                socket,
            )@.delete_acked().actions,
    {
        let ghost before = socket@;
        let ghost queue = socket@.retransmission_queue;
        let ghost una = socket.send_param.unacked_seq;
        let ghost requested = action_views(out@);
        let ghost mut count: nat = 0;
        proof {
            assert(queue.skip(0) =~= queue);
        }
        let mut more = front_is_acked(socket);
        while more
            invariant
                count <= queue.len(),
                socket@ == (SocketView {
                    retransmission_queue: queue.skip(count as int),
                    ..before
                }),
                before.retransmission_queue == queue,
                before.send_param.unacked_seq == una,
                action_views(out@) == requested + Seq::new(
                    count,
                    |i: int| before.event(TCPEventKind::Acked),
                ),
                count + acked_prefix(queue.skip(count as int), una) == acked_prefix(queue, una),
                more == (queue.skip(count as int).len() > 0 && seq_lt(
                    seq_of(queue.skip(count as int)[0].packet),
                    una,
                )),
            decreases queue.len() - count,
        {
            let ghost views = entry_views(socket.retransmission_queue@);
            socket.retransmission_queue.pop_front();
            publish(socket, TCPEventKind::Acked, out);
            proof {
                lemma_skip_drop_first(queue, count as int);
                assert(entry_views(socket.retransmission_queue@) =~= views.drop_first());
                count = count + 1;
            }
            more = front_is_acked(socket);
        }
    }

    /// Takes an acknowledgment number: an accepted one moves the oldest
    /// unacknowledged sequence number up and trims the retransmission queue.
    fn take_ack(socket: &mut Socket, ack: u32, out: &mut Vec<Action>)
        ensures
            final(socket)@ == old(socket)@.take_ack(ack).socket,
            action_views(final(out)@) == action_views(old(out)@) + old(socket)@.take_ack(
                ack,
            ).actions,
    {
        if lt(socket.send_param.unacked_seq, ack) && le(ack, socket.send_param.next) {
            socket.send_param.unacked_seq = ack;
            Self::delete_acked_segment_from_retransmission_queue(socket, out);
        }
    }

    /// Takes the window that an acknowledgment advertises: a window of zero
    /// starts probe mode unless it is on already, any other window ends it.
    fn update_window(socket: &mut Socket, window: u16, now: u64)
        ensures
            final(socket)@ == old(socket)@.update_window(window, now),
    {
        if window == 0 {
            if socket.last_time_window_probe.is_none() {
                socket.last_time_window_probe = Some(now);
            }
        } else {
            socket.last_time_window_probe = None;
        }
        socket.send_param.window = window;
    }

    /// Samples the round-trip time where `ack` answers a recorded send.
    fn sample_rtt(socket: &mut Socket, ack: u32, now: u64)
        ensures
            final(socket)@ == old(socket)@.sample_rtt(ack, now),
    {
        let count = socket.sent_times.len();
        let mut at: usize = 0;
        while at < count && socket.sent_times[at].expected_ack != ack
            invariant
                at <= count,
                count == socket.sent_times@.len(),
                *socket == *old(socket),
                forall|j: int| 0 <= j < at ==> socket.sent_times@[j].expected_ack != ack,
            decreases count - at,
        {
            at += 1;
        }
        proof {
            lemma_first_expecting(socket.sent_times@, ack, at as int);
        }
        if at < count {
            if let Some(record) = socket.sent_times.remove(at) {
                let rtt = if now >= record.sent_time {
                    now - record.sent_time
                } else {
                    0
                };
                socket.rto.next(rtt);
            }
        }
    }

    /// Deposits the payload of a segment into the reassembly buffer,
    /// acknowledges what was taken and publishes the arrival.
    pub fn process_payload(socket: &mut Socket, packet: &TCPPacket, now: u64, out: &mut Vec<Action>)
        requires
            old(socket)@.wf(),
        ensures
            final(socket)@ == old(socket)@.process_payload(packet@).socket,
            action_views(final(out)@) == action_views(old(out)@) + old(socket)@.process_payload(
                packet@,
            ).actions,
            final(socket)@.wf(),
            final(socket)@.sock_id() == old(socket)@.sock_id(),
    {
        reveal(SocketView::process_payload);
        let seq = packet.get_seq();
        let payload = packet.payload();
        let distance = diff(seq, socket.recv_param.next);
        if distance > socket.recv_param.window as u32 {
            return ;
        }
        let offset = SOCKET_BUFFER_SIZE - socket.recv_param.window as usize + distance as usize;
        let room = SOCKET_BUFFER_SIZE - offset;
        let size = if payload.len() <= room {
            payload.len()
        } else {
            room
        };
        deposit(&mut socket.recv_buffer, offset, payload, size);
        socket.recv_param.tail = later(socket.recv_param.tail, advance(seq, size as u32));
        if seq == socket.recv_param.next {
            socket.recv_param.next = socket.recv_param.tail;
            socket.recv_param.window = socket.recv_param.window - diff(
                socket.recv_param.tail,
                seq,
            ) as u16;
        }
        if size > 0 {
            acknowledge(socket, now, out);
        }
        publish(socket, TCPEventKind::DataArrived, out);
    }

    /// Takes the peer's FIN: it uses up one sequence number.
    fn receive_fin(socket: &mut Socket)
        requires
            old(socket)@.wf(),
        ensures
            final(socket)@ == old(socket)@.receive_fin(),
            final(socket)@.wf(),
    {
        let next = advance(socket.recv_param.next, 1);
        if socket.recv_param.tail == socket.recv_param.next {
            socket.recv_param.tail = next;
        }
        socket.recv_param.next = next;
    }

    /// Handles a segment for an established connection.
    pub fn established_handler(
        socket: &mut Socket,
        packet: &TCPPacket,
        now: u64,
        out: &mut Vec<Action>,
    )
        requires
            old(socket)@.wf(),
        ensures
            final(socket)@ == old(socket)@.established(packet@, now).socket,
            action_views(final(out)@) == action_views(old(out)@) + old(socket)@.established(
                packet@,
                now,
            ).actions,
            final(socket)@.wf(),
            final(socket)@.sock_id() == old(socket)@.sock_id(),
    {
        reveal(SocketView::established);
        let ack = packet.get_ack();
        let flag = packet.get_flag();
        let accepted = lt(socket.send_param.unacked_seq, ack) && le(ack, socket.send_param.next);
        if !contains(flag, ACK) || (!accepted && lt(socket.send_param.next, ack)) {
            return ;
        }
        Self::take_ack(socket, ack, out);
        Self::update_window(socket, packet.get_window_size(), now);
        Self::sample_rtt(socket, ack, now);
        if packet.payload().len() > 0 {
            Self::process_payload(socket, packet, now, out);
        }
        if contains(flag, FIN) {
            Self::receive_fin(socket);
            socket.status = TcpStatus::CloseWait;
            acknowledge(socket, now, out);
            publish(socket, TCPEventKind::DataArrived, out);
        }
    }

    /// Handles a segment for a connection that sent its FIN.
    pub fn finwait_handler(socket: &mut Socket, packet: &TCPPacket, now: u64, out: &mut Vec<Action>)
        requires
            old(socket)@.wf(),
        ensures
            final(socket)@ == old(socket)@.finwait(packet@).socket,
            action_views(final(out)@) == action_views(old(out)@) + old(socket)@.finwait(
                packet@,
            ).actions,
            final(socket)@.wf(),
            final(socket)@.sock_id() == old(socket)@.sock_id(),
    {
        reveal(SocketView::finwait);
        let ack = packet.get_ack();
        let flag = packet.get_flag();
        let accepted = lt(socket.send_param.unacked_seq, ack) && le(ack, socket.send_param.next);
        if !contains(flag, ACK) || (!accepted && lt(socket.send_param.next, ack)) {
            return ;
        }
        Self::take_ack(socket, ack, out);
        if packet.payload().len() > 0 {
            Self::process_payload(socket, packet, now, out);
        }
        if socket.status == TcpStatus::FinWait1 && socket.send_param.next
            == socket.send_param.unacked_seq {
            socket.status = TcpStatus::FinWait2;
        }
        if contains(flag, FIN) {
            Self::receive_fin(socket);
            acknowledge(socket, now, out);
            publish(socket, TCPEventKind::ConnectionClosed, out);
        }
    }

    /// Handles a segment for a connection whose peer has closed.
    pub fn close_handler(socket: &mut Socket, packet: &TCPPacket)
        ensures
            final(socket)@ == old(socket)@.closing(packet@),
            old(socket)@.wf() ==> final(socket)@.wf(),
            final(socket)@.sock_id() == old(socket)@.sock_id(),
    {
        let ack = packet.get_ack();
        if contains(packet.get_flag(), ACK) && lt(socket.send_param.unacked_seq, ack) && le(
            ack,
            socket.send_param.next,
        ) {
            socket.send_param.unacked_seq = ack;
        }
    }

    /// Takes the peer's initial sequence number from a SYN at `seq`.
    fn synchronize(socket: &mut Socket, seq: u32)
        ensures
            final(socket)@ == old(socket)@.synchronize(seq),
    {
        socket.recv_param.next = advance(seq, 1);
        socket.recv_param.initial_seq = seq;
        socket.recv_param.tail = socket.recv_param.next;
    }

    /// Handles a segment for a socket that sent its SYN.
    pub fn synsent_handler(socket: &mut Socket, packet: &TCPPacket, now: u64, out: &mut Vec<Action>)
        requires
            old(socket)@.wf(),
        ensures
            final(socket)@ == old(socket)@.synsent(packet@, now).socket,
            action_views(final(out)@) == action_views(old(out)@) + old(socket)@.synsent(
                packet@,
                now,
            ).actions,
            final(socket)@.wf(),
            final(socket)@.sock_id() == old(socket)@.sock_id(),
    {
        reveal(SocketView::synsent);
        let ack = packet.get_ack();
        let flag = packet.get_flag();
        if contains(flag, ACK) && contains(flag, SYN) && le(socket.send_param.unacked_seq, ack)
            && le(ack, socket.send_param.next) {
            Self::synchronize(socket, packet.get_seq());
            socket.send_param.unacked_seq = ack;
            Self::update_window(socket, packet.get_window_size(), now);
            if lt(socket.send_param.initial_seq, ack) {
                socket.status = TcpStatus::Established;
                acknowledge(socket, now, out);
                publish(socket, TCPEventKind::ConnectionCompleted, out);
            } else {
                socket.status = TcpStatus::SynRcvd;
                acknowledge(socket, now, out);
            }
        } else if contains(flag, SYN) && !contains(flag, ACK) {
            Self::synchronize(socket, packet.get_seq());
            socket.send_param.window = packet.get_window_size();
            socket.status = TcpStatus::SynRcvd;
            acknowledge(socket, now, out);
        }
    }

    /// What the sweep does with one queue entry at `now`.
    fn sweep_entry(
        socket: &mut Socket,
        entry: RetransmissionQueueEntry,
        kept: &mut VecDeque<RetransmissionQueueEntry>,
        now: u64,
        out: &mut Vec<Action>,
    )
        ensures
            (Sweep {
                rto: final(socket).rto@,
                kept: entry_views(final(kept)@),
                actions: action_views(final(out)@),
            }) == old(socket)@.sweep_entry(
                entry@,
                Sweep {
                    rto: old(socket).rto@,
                    kept: entry_views(old(kept)@),
                    actions: action_views(old(out)@),
                },
                now,
            ),
            final(socket)@ == (SocketView { rto: final(socket).rto@, ..old(socket)@ }),
    {
        let ghost requested = action_views(out@);
        let mut entry = entry;
        let flag = entry.packet.get_flag();
        if lt(entry.packet.get_seq(), socket.send_param.unacked_seq) {
            publish(socket, TCPEventKind::Acked, out);
            if contains(flag, FIN) && socket.status == TcpStatus::LastAck {
                publish(socket, TCPEventKind::ConnectionClosed, out);
                assert(action_views(out@) =~= requested + seq![
                    socket@.event(TCPEventKind::Acked),
                    socket@.event(TCPEventKind::ConnectionClosed),
                ]);
            } else {
                assert(action_views(out@) =~= requested + seq![socket@.event(TCPEventKind::Acked)]);
            }
        } else if now < entry.latest_transmission_time || now - entry.latest_transmission_time
            < entry.rto {
            kept.push_back(entry);
            assert(entry_views(kept@) =~= entry_views(old(kept)@).push(entry@));
        } else if entry.transmission_count < MAX_TRANSMISSION {
            let packet = entry.packet.clone();
            emit(out, Action::Send { remote_addr: socket.remote_addr, packet });
            entry.transmission_count = entry.transmission_count + 1;
            if flag == SYN {
                socket.rto.set(INIT_RTO);
                entry.rto = socket.rto.get();
            } else {
                entry.rto = socket.rto.backoff();
            }
            entry.latest_transmission_time = now;
            kept.push_back(entry);
            assert(entry_views(kept@) =~= entry_views(old(kept)@).push(entry@));
        } else {
            if contains(flag, FIN) && (socket.status == TcpStatus::LastAck || socket.status
                == TcpStatus::FinWait1 || socket.status == TcpStatus::FinWait2) {
                publish(socket, TCPEventKind::ConnectionClosed, out);
            }
        }
    }

    /// One visit of the timer to a socket at `now`: a zero-window probe if
    /// one is due, then the sweep of the retransmission queue.
    pub fn tick(socket: &mut Socket, now: u64, out: &mut Vec<Action>)
        ensures
            final(socket)@ == old(socket)@.tick(now).socket,
            action_views(final(out)@) == action_views(old(out)@) + old(socket)@.tick(now).actions,
            old(socket)@.wf() ==> final(socket)@.wf(),
            final(socket)@.sock_id() == old(socket)@.sock_id(),
    {
        reveal(SocketView::tick);
        let mut requests: Vec<Action> = Vec::new();
        assert(action_views(requests@) =~= Seq::<ActionView>::empty());
        if let Some(last) = socket.last_time_window_probe {
            if now >= last && now - last >= WINDOW_PROBE_DURATION {
                let empty: Vec<u8> = Vec::new();
                let packet = socket.send_tcp_packet(
                    advance(socket.send_param.next, 0xFFFF_FFFF),
                    socket.recv_param.next,
                    ACK,
                    empty.as_slice(),
                    now,
                );
                emit(&mut requests, Action::Send { remote_addr: socket.remote_addr, packet });
                socket.last_time_window_probe = Some(now);
            }
        }
        let ghost probed = socket@;
        let ghost queue = socket@.retransmission_queue;
        let ghost target = probed.sweep_from(
            queue,
            0,
            Sweep { rto: probed.rto, kept: Seq::empty(), actions: action_views(requests@) },
            now,
        );
        let ghost mut done: int = 0;
        let mut kept: VecDeque<RetransmissionQueueEntry> = VecDeque::new();
        proof {
            assert(entry_views(kept@) =~= Seq::<RetransmissionEntryView>::empty());
            assert(queue.skip(0) =~= queue);
        }
        while socket.retransmission_queue.len() > 0
            invariant
                0 <= done <= queue.len(),
                socket@ == (SocketView {
                    retransmission_queue: queue.skip(done),
                    rto: socket.rto@,
                    ..probed
                }),
                probed.sweep_from(
                    queue,
                    done,
                    Sweep {
                        rto: socket.rto@,
                        kept: entry_views(kept@),
                        actions: action_views(requests@),
                    },
                    now,
                ) == target,
            decreases queue.len() - done,
        {
            let ghost views = entry_views(socket.retransmission_queue@);
            let popped = socket.retransmission_queue.pop_front();
            if let Some(entry) = popped {
                proof {
                    assert(entry_views(socket.retransmission_queue@) =~= views.drop_first());
                    lemma_skip_drop_first(queue, done);
                }
                Self::sweep_entry(socket, entry, &mut kept, now, &mut requests);
                proof {
                    done = done + 1;
                }
            }
        }
        socket.retransmission_queue = kept;
        proof {
            assert(queue.skip(done).len() == 0);
        }
        out.append(&mut requests);
    }

    #[verifier::type_invariant]
    spec fn well_formed(self) -> bool {
        table_wf(self@)
    }

    /// Takes the table out of the engine, for as long as a step works on it.
    fn take(&mut self) -> (sockets: Vec<Socket>)
        ensures
            socket_views(sockets@) == old(self)@,
            table_wf(old(self)@),
            final(self)@ == Seq::<SocketView>::empty(),
    {
        proof {
            use_type_invariant(&*self);
        }
        let mut sockets: Vec<Socket> = Vec::new();
        core::mem::swap(&mut self.sockets, &mut sockets);
        sockets
    }

    /// Puts the table back.
    fn put(&mut self, sockets: Vec<Socket>)
        requires
            table_wf(socket_views(sockets@)),
        ensures
            final(self)@ == socket_views(sockets@),
    {
        self.sockets = sockets;
    }

    /// An engine with an empty table.
    pub fn new() -> (r: Self)
        ensures
            r@ == Seq::<SocketView>::empty(),
            table_inv(r@),
    {
        let sockets: Vec<Socket> = Vec::new();
        TCP { sockets }
    }

    /// Number of sockets in the table.
    pub fn len(&self) -> (r: usize)
        ensures
            r == self@.len(),
            table_wf(self@),
    {
        proof {
            use_type_invariant(self);
        }
        self.sockets.len()
    }

    /// The socket with the identity `id`, if the table holds one.
    pub fn get(&self, id: SockID) -> (r: Option<&Socket>)
        ensures
            r is Some <==> has_socket(self@, id),
            r matches Some(socket) ==> socket@ == self@[position(self@, id)] && socket@.wf(),
    {
        proof {
            use_type_invariant(self);
        }
        match find(&self.sockets, id) {
            Some(at) => Some(&self.sockets[at]),
            None => None,
        }
    }

    /// Takes the socket with the identity `id` out of the table.
    pub fn remove(&mut self, id: SockID)
        ensures
            final(self)@ == without_socket(old(self)@, id),
            table_inv(old(self)@) ==> table_inv(final(self)@),
    {
        let mut sockets = self.take();
        remove(&mut sockets, id);
        self.put(sockets);
        proof {
            if table_inv(old(self)@) {
                lemma_quiet_steps_keep_invariant(old(self)@, id, 0);
            }
        }
    }

    /// Whether no socket of the table has the local port `port`.
    pub fn port_is_unused(&self, port: u16) -> (r: bool)
        ensures
            r == port_unused(self@, port),
    {
        let count = self.sockets.len();
        let mut at: usize = 0;
        while at < count
            invariant
                at <= count,
                count == self.sockets@.len(),
                forall|j: int| 0 <= j < at ==> (#[trigger] self@[j]).local_port != port,
            decreases count - at,
        {
            if self.sockets[at].local_port == port {
                assert(self@[at as int].local_port == port);
                return false;
            }
            at += 1;
        }
        true
    }

    /// Draws local ports at random until one is unused, as many times as the
    /// port range is long. None is found only if some port of the range is
    /// in use.
    pub fn select_unused_port(&self) -> (r: Option<u16>)
        ensures
            r matches Some(port) ==> PORT_RANGE_START <= port < PORT_RANGE_END && port_unused(
                self@,
                port,
            ),
            r is None ==> exists|port: u16|
                PORT_RANGE_START <= port < PORT_RANGE_END && !#[trigger] port_unused(self@, port),
    {
        let ghost mut taken: u16 = 0;
        let mut tries: u16 = 0;
        while tries < PORT_RANGE_END - PORT_RANGE_START
            invariant
                tries <= PORT_RANGE_END - PORT_RANGE_START,
                tries > 0 ==> PORT_RANGE_START <= taken < PORT_RANGE_END && !port_unused(
                    self@,
                    taken,
                ),
            decreases PORT_RANGE_END - PORT_RANGE_START - tries,
        {
            let port = random_in_range(PORT_RANGE_START as u32, PORT_RANGE_END as u32) as u16;
            if self.port_is_unused(port) {
                return Some(port);
            }
            proof {
                taken = port;
            }
            tries += 1;
        }
        None
    }

    /// Opens a connection from the given local endpoint with `iss` as its
    /// initial send sequence number: the socket enters the table in
    /// SYN_SENT, and its SYN is to be sent.
    pub fn connect_with(
        &mut self,
        local_addr: u32,
        remote_addr: u32,
        local_port: u16,
        remote_port: u16,
        iss: u32,
        now: u64,
    ) -> (r: (SockID, Vec<Action>))
        ensures
            r.0 == SockID(local_addr, remote_addr, local_port, remote_port),
            (TableStep { table: final(self)@, actions: action_views(r.1@) }) == connect_step(
                old(self)@,
                local_addr,
                remote_addr,
                local_port,
                remote_port,
                iss,
                now,
            ),
            table_inv(old(self)@) ==> table_inv(final(self)@),
    {
        proof {
            if table_inv(old(self)@) {
                lemma_open_keeps_invariant(
                    old(self)@,
                    local_addr,
                    remote_addr,
                    local_port,
                    remote_port,
                    iss,
                    now,
                );
            }
        }
        let mut socket = Socket::new(
            local_addr,
            remote_addr,
            local_port,
            remote_port,
            TcpStatus::SynSent,
        );
        socket.send_param.initial_seq = iss;
        let empty: Vec<u8> = Vec::new();
        let packet = socket.send_tcp_packet(iss, 0, SYN, empty.as_slice(), now);
        socket.send_param.unacked_seq = iss;
        socket.send_param.next = advance(iss, 1);
        let mut out: Vec<Action> = Vec::new();
        assert(action_views(out@) =~= Seq::<ActionView>::empty());
        emit(&mut out, Action::Send { remote_addr, packet });
        let sock_id = socket.get_sock_id();
        let mut sockets = self.take();
        insert(&mut sockets, socket);
        self.put(sockets);
        (sock_id, out)
    }

    /// Opens a connection to the given remote endpoint from an unused local
    /// port, with an initial send sequence number drawn at random. It fails
    /// only if some port of the range is in use.
    pub fn connect(&mut self, local_addr: u32, remote_addr: u32, remote_port: u16, now: u64) -> (r:
        Result<(SockID, Vec<Action>), TcpError>)
        ensures
            table_inv(old(self)@) ==> table_inv(final(self)@),
            match r {
                Ok((id, actions)) => exists|port: u16, iss: u32|
                    {
                        &&& PORT_RANGE_START <= port < PORT_RANGE_END
                        &&& port_unused(old(self)@, port)
                        &&& ISS_RANGE_START <= iss < ISS_RANGE_END
                        &&& id == SockID(local_addr, remote_addr, port, remote_port)
                        &&& (TableStep { table: final(self)@, actions: action_views(actions@) })
                            == #[trigger] connect_step(
                            old(self)@,
                            local_addr,
                            remote_addr,
                            port,
                            remote_port,
                            iss,
                            now,
                        )
                    },
                Err(e) => {
                    &&& e == TcpError::NoAvailablePort
                    &&& final(self)@ == old(self)@
                    &&& exists|port: u16|
                        PORT_RANGE_START <= port < PORT_RANGE_END && !#[trigger] port_unused(
                            old(self)@,
                            port,
                        )
                },
            },
    {
        match self.select_unused_port() {
            Some(port) => {
                let iss = random_in_range(ISS_RANGE_START, ISS_RANGE_END);
                Ok(self.connect_with(local_addr, remote_addr, port, remote_port, iss, now))
            },
            None => Err(TcpError::NoAvailablePort),
        }
    }

    /// Opens a listening socket on the given local endpoint.
    pub fn listen(&mut self, local_addr: u32, local_port: u16) -> (r: SockID)
        ensures
            r == listening_id(local_addr, local_port),
            final(self)@ == listen_step(old(self)@, local_addr, local_port),
            table_inv(old(self)@) ==> table_inv(final(self)@),
    {
        proof {
            if table_inv(old(self)@) {
                lemma_open_keeps_invariant(old(self)@, local_addr, 0, local_port, 0, 0, 0);
            }
        }
        let socket = Socket::new(
            local_addr,
            UNDETERMINED_IP_ADDR,
            local_port,
            UNDETERMINED_PORT,
            TcpStatus::Listen,
        );
        let sock_id = socket.get_sock_id();
        let mut sockets = self.take();
        insert(&mut sockets, socket);
        self.put(sockets);
        sock_id
    }

    /// Hands out the oldest completed connection of a listening socket.
    pub fn accept(&mut self, sock_id: SockID) -> (r: Result<SockID, TcpError>)
        ensures
            table_inv(old(self)@) ==> table_inv(final(self)@),
            match r {
                Ok(id) => {
                    let at = position(old(self)@, sock_id);
                    let listener = old(self)@[at];
                    &&& has_socket(old(self)@, sock_id)
                    &&& listener.connected_connection_queue.len() > 0
                    &&& id == listener.connected_connection_queue[0]
                    &&& final(self)@ == old(self)@.update(
                        at,
                        SocketView {
                            connected_connection_queue:
                                listener.connected_connection_queue.drop_first(),
                            ..listener
                        },
                    )
                },
                Err(e) => {
                    &&& final(self)@ == old(self)@
                    &&& if has_socket(old(self)@, sock_id) {
                        e == TcpError::NoConnectedSocket && old(self)@[position(
                            old(self)@,
                            sock_id,
                        )].connected_connection_queue.len() == 0
                    } else {
                        e == TcpError::NoSuchSocket
                    }
                },
            },
    {
        proof {
            if table_inv(old(self)@) {
                lemma_quiet_steps_keep_invariant(old(self)@, sock_id, 0);
            }
        }
        let mut sockets = self.take();
        let r = match find(&sockets, sock_id) {
            None => Err(TcpError::NoSuchSocket),
            Some(at) => {
                assert(old(self)@[at as int].wf());
                match sockets[at].connected_connection_queue.pop_front() {
                    Some(id) => {
                        assert(socket_views(sockets@) =~= old(self)@.update(
                            at as int,
                            SocketView {
                                connected_connection_queue: old(
                                    self,
                                )@[at as int].connected_connection_queue.drop_first(),
                                ..old(self)@[at as int]
                            },
                        ));
                        Ok(id)
                    },
                    None => {
                        assert(socket_views(sockets@) =~= old(self)@);
                        Err(TcpError::NoConnectedSocket)
                    },
                }
            },
        };
        self.put(sockets);
        r
    }

    /// Sends `data` in one segment at `now`.
    fn send_chunk(socket: &mut Socket, data: &[u8], now: u64, out: &mut Vec<Action>)
        requires
            data@.len() <= MSS,
        ensures
            final(socket)@ == old(socket)@.send_chunk(data@, now).socket,
            action_views(final(out)@) == action_views(old(out)@) + old(socket)@.send_chunk(
                data@,
                now,
            ).actions,
    {
        let next = advance(socket.send_param.next, data.len() as u32);
        socket.sent_times.push_back(SentTime { sent_time: now, expected_ack: next });
        let packet = socket.send_tcp_packet(
            socket.send_param.next,
            socket.recv_param.next,
            ACK,
            data,
            now,
        );
        emit(out, Action::Send { remote_addr: socket.remote_addr, packet });
        socket.send_param.next = next;
    }

    /// One step of sending `buffer` from `cursor` on over the connection
    /// `sock_id`: as much as one segment, the peer's window and the data
    /// allow goes out in one segment. Returns how many bytes went out; none
    /// means that the caller is to wait and try again.
    ///
    /// Once the application has closed an established connection, in
    /// FIN_WAIT_1 and FIN_WAIT_2, nothing is accepted for sending any more:
    /// the step fails and changes nothing.
    pub fn send(&mut self, sock_id: SockID, buffer: &[u8], cursor: usize, now: u64) -> (r: Result<
        (usize, Vec<Action>),
        TcpError,
    >)
        ensures
            table_inv(old(self)@) && (has_socket(old(self)@, sock_id) ==> old(self)@[position(
                old(self)@,
                sock_id,
            )].queue_outstanding()) ==> table_inv(final(self)@),
            match r {
                Ok((size, actions)) => {
                    let at = position(old(self)@, sock_id);
                    let socket = old(self)@[at];
                    let remaining = if cursor <= buffer@.len() {
                        buffer@.len() - cursor
                    } else {
                        0
                    };
                    &&& has_socket(old(self)@, sock_id)
                    &&& !socket.sending_closed()
                    &&& size == socket.chunk_size(remaining)
                    &&& if size == 0 {
                        (TableStep { table: final(self)@, actions: action_views(actions@) })
                            == unchanged(old(self)@)
                    } else {
                        (TableStep { table: final(self)@, actions: action_views(actions@) })
                            == lift(
                            old(self)@,
                            at,
                            socket.send_chunk(
                                buffer@.subrange(cursor as int, cursor + size),
                                now,
                            ),
                        )
                    }
                },
                Err(e) => {
                    &&& final(self)@ == old(self)@
                    &&& if has_socket(old(self)@, sock_id) {
                        e == TcpError::ConnectionClosing && old(self)@[position(
                            old(self)@,
                            sock_id,
                        )].sending_closed()
                    } else {
                        e == TcpError::NoSuchSocket
                    }
                },
            },
    {
        let mut sockets = self.take();
        let mut out: Vec<Action> = Vec::new();
        assert(action_views(out@) =~= Seq::<ActionView>::empty());
        let r = match find(&sockets, sock_id) {
            None => Err(TcpError::NoSuchSocket),
            Some(at) => if sockets[at].status == TcpStatus::FinWait1 || sockets[at].status
                == TcpStatus::FinWait2 {
                Err(TcpError::ConnectionClosing)
            } else {
                let remaining: usize = if cursor <= buffer.len() {
                    buffer.len() - cursor
                } else {
                    0
                };
                let window = sockets[at].send_param.remain() as usize;
                let size: usize = if sockets[at].last_time_window_probe.is_some() {
                    0
                } else if remaining <= MSS && remaining <= window {
                    remaining
                } else if MSS <= window {
                    MSS
                } else {
                    window
                };
                if size > 0 {
                    let data = vstd::slice::slice_subrange(buffer, cursor, cursor + size);
                    proof {
                        if table_inv(old(self)@) && old(self)@[at as int].queue_outstanding() {
                            lemma_send_and_close_keep_invariant(old(self)@, sock_id, data@, now);
                        }
                    }
                    assert(old(self)@[at as int].wf());
                    Self::send_chunk(&mut sockets[at], data, now, &mut out);
                    proof {
                        assert(socket_views(sockets@) =~= old(self)@.update(
                            at as int,
                            sockets@[at as int]@,
                        ));
                    }
                }
                Ok((size, out))
            },
        };
        self.put(sockets);
        r
    }

    /// Hands `count` bytes from the head of the reassembly buffer to the
    /// application and moves the rest of the buffer down.
    fn consume(socket: &mut Socket, buffer: &mut [u8], count: usize)
        requires
            old(socket)@.wf(),
            count <= old(socket)@.ready(),
            count <= old(buffer)@.len(),
        ensures
            final(socket)@ == old(socket)@.consume(count as int),
            final(socket)@.wf(),
            final(buffer)@ == old(socket)@.recv_buffer.subrange(0, count as int) + old(
                buffer,
            )@.subrange(count as int, old(buffer)@.len() as int),
    {
        let mut i: usize = 0;
        while i < count
            invariant
                i <= count,
                count <= buffer@.len(),
                buffer@.len() == old(buffer)@.len(),
                *socket == *old(socket),
                socket.recv_buffer@.len() == SOCKET_BUFFER_SIZE,
                count <= SOCKET_BUFFER_SIZE,
                forall|j: int| 0 <= j < i ==> buffer@[j] == socket.recv_buffer@[j],
                forall|j: int| i <= j < buffer@.len() ==> buffer@[j] == old(buffer)@[j],
            decreases count - i,
        {
            buffer[i] = socket.recv_buffer[i];
            i += 1;
        }
        let mut k: usize = 0;
        while k + count < SOCKET_BUFFER_SIZE
            invariant
                count <= SOCKET_BUFFER_SIZE,
                k + count <= SOCKET_BUFFER_SIZE,
                socket.recv_buffer@.len() == SOCKET_BUFFER_SIZE,
                old(socket).recv_buffer@.len() == SOCKET_BUFFER_SIZE,
                socket@ == (SocketView { recv_buffer: socket.recv_buffer@, ..old(socket)@ }),
                forall|j: int| 0 <= j < k ==> socket.recv_buffer@[j] == old(socket).recv_buffer@[j
                    + count],
                forall|j: int|
                    k <= j < SOCKET_BUFFER_SIZE ==> socket.recv_buffer@[j] == old(
                        socket,
                    ).recv_buffer@[j],
            decreases SOCKET_BUFFER_SIZE - count - k,
        {
            socket.recv_buffer[k] = socket.recv_buffer[k + count];
            k += 1;
        }
        socket.recv_param.window = socket.recv_param.window + count as u16;
        assert(socket@.recv_buffer =~= old(socket)@.consume(count as int).recv_buffer);
    }

    /// One step of receiving from the connection `sock_id` into `buffer`.
    ///
    /// While nothing is ready and the peer has not closed, nothing happens
    /// and the caller is to wait for data to arrive. Otherwise the bytes
    /// that are ready, as far as `buffer` has room, move from the head of
    /// the reassembly buffer into `buffer`, and their number is returned;
    /// zero tells that the peer has closed.
    pub fn recv(&mut self, sock_id: SockID, buffer: &mut [u8]) -> (r: Result<
        Option<usize>,
        TcpError,
    >)
        ensures
            final(buffer)@.len() == old(buffer)@.len(),
            table_inv(old(self)@) ==> table_inv(final(self)@),
            match r {
                Ok(Some(count)) => {
                    let at = position(old(self)@, sock_id);
                    let socket = old(self)@[at];
                    &&& has_socket(old(self)@, sock_id)
                    &&& socket.ready() > 0 || socket.peer_closed()
                    &&& count == socket.recv_size(old(buffer)@.len() as int)
                    &&& final(buffer)@ == socket.recv_buffer.subrange(0, count as int) + old(
                        buffer,
                    )@.subrange(count as int, old(buffer)@.len() as int)
                    &&& final(self)@ == old(self)@.update(at, socket.consume(count as int))
                },
                Ok(None) => {
                    let socket = old(self)@[position(old(self)@, sock_id)];
                    &&& has_socket(old(self)@, sock_id)
                    &&& socket.ready() == 0
                    &&& !socket.peer_closed()
                    &&& final(self)@ == old(self)@
                    &&& final(buffer)@ == old(buffer)@
                },
                Err(e) => {
                    &&& e == TcpError::NoSuchSocket
                    &&& !has_socket(old(self)@, sock_id)
                    &&& final(self)@ == old(self)@
                    &&& final(buffer)@ == old(buffer)@
                },
            },
    {
        let mut sockets = self.take();
        let r = match find(&sockets, sock_id) {
            None => Err(TcpError::NoSuchSocket),
            Some(at) => {
                assert(old(self)@[at as int].wf());
                let ready = SOCKET_BUFFER_SIZE - sockets[at].recv_param.window as usize;
                let status = sockets[at].status;
                if ready == 0 && !(status == TcpStatus::CloseWait || status == TcpStatus::LastAck
                    || status == TcpStatus::TimeWait) {
                    Ok(None)
                } else {
                    let count = if buffer.len() <= ready {
                        buffer.len()
                    } else {
                        ready
                    };
                    proof {
                        if table_inv(old(self)@) {
                            lemma_quiet_steps_keep_invariant(old(self)@, sock_id, count as int);
                        }
                    }
                    Self::consume(&mut sockets[at], buffer, count);
                    proof {
                        assert(socket_views(sockets@) =~= old(self)@.update(
                            at as int,
                            sockets@[at as int]@,
                        ));
                    }
                    Ok(Some(count))
                }
            },
        };
        self.put(sockets);
        r
    }

    /// Sends FIN|ACK and moves the socket to the state that follows.
    fn close_socket(socket: &mut Socket, now: u64, out: &mut Vec<Action>)
        ensures
            final(socket)@ == old(socket)@.close_step(now).socket,
            action_views(final(out)@) == action_views(old(out)@) + old(socket)@.close_step(
                now,
            ).actions,
    {
        let empty: Vec<u8> = Vec::new();
        let packet = socket.send_tcp_packet(
            socket.send_param.next,
            socket.recv_param.next,
            FIN | ACK,
            empty.as_slice(),
            now,
        );
        emit(out, Action::Send { remote_addr: socket.remote_addr, packet });
        socket.send_param.next = advance(socket.send_param.next, 1);
        match socket.status {
            TcpStatus::Established => {
                socket.status = TcpStatus::FinWait1;
            },
            TcpStatus::CloseWait => {
                socket.status = TcpStatus::LastAck;
            },
            _ => {},
        }
    }

    /// Closes the socket `sock_id` at `now`: it sends FIN|ACK, which uses
    /// up one sequence number.
    ///
    /// A listening socket leaves the table at once. An established
    /// connection moves to FIN_WAIT_1, and one whose peer has closed moves
    /// from CLOSE_WAIT to LAST_ACK; for these two the result tells the
    /// caller to wait until the end of the connection is published and to
    /// remove the socket then. In any other state nothing else changes.
    pub fn close(&mut self, sock_id: SockID, now: u64) -> (r: Result<(bool, Vec<Action>), TcpError>)
        ensures
            table_inv(old(self)@) && (has_socket(old(self)@, sock_id) ==> {
                let socket = old(self)@[position(old(self)@, sock_id)];
                socket.queue_outstanding() && socket.in_flight() + 1 < HALF_SPACE
            }) ==> table_inv(final(self)@),
            match r {
                Ok((wait, actions)) => {
                    let at = position(old(self)@, sock_id);
                    let socket = old(self)@[at];
                    &&& has_socket(old(self)@, sock_id)
                    &&& wait == (socket.status == TcpStatus::Established || socket.status
                        == TcpStatus::CloseWait)
                    &&& action_views(actions@) == socket.close_step(now).actions
                    &&& final(self)@ == if socket.status == TcpStatus::Listen {
                        old(self)@.remove(at)
                    } else {
                        old(self)@.update(at, socket.close_step(now).socket)
                    }
                },
                Err(e) => e == TcpError::NoSuchSocket && !has_socket(old(self)@, sock_id)
                    && final(self)@ == old(self)@,
            },
    {
        let mut sockets = self.take();
        let mut out: Vec<Action> = Vec::new();
        let r = match find(&sockets, sock_id) {
            None => Err(TcpError::NoSuchSocket),
            Some(at) => {
                assert(old(self)@[at as int].wf());
                proof {
                    if table_inv(old(self)@) && old(self)@[at as int].queue_outstanding() {
                        lemma_send_and_close_keep_invariant(old(self)@, sock_id, Seq::empty(), now);
                    }
                }
                let status = sockets[at].status;
                Self::close_socket(&mut sockets[at], now, &mut out);
                proof {
                    assert(socket_views(sockets@) =~= old(self)@.update(
                        at as int,
                        sockets@[at as int]@,
                    ));
                }
                if status == TcpStatus::Listen {
                    sockets.remove(at);
                    assert(socket_views(sockets@) =~= old(self)@.remove(at as int));
                }
                Ok((status == TcpStatus::Established || status == TcpStatus::CloseWait, out))
            },
        };
        self.put(sockets);
        r
    }

    /// Takes the bytes of a segment received on `local_addr` from
    /// `remote_addr` at `now` through the state machine; `iss` is the
    /// initial send sequence number of the connection that a listening
    /// socket may open for it.
    pub fn receive_handler_with(
        &mut self,
        local_addr: u32,
        remote_addr: u32,
        bytes: Vec<u8>,
        iss: u32,
        now: u64,
    ) -> (out: Vec<Action>)
        ensures
            (TableStep { table: final(self)@, actions: action_views(out@) }) == receive_step(
                old(self)@,
                local_addr,
                remote_addr,
                bytes@,
                iss,
                now,
            ),
            table_inv(old(self)@) ==> table_inv(final(self)@),
    {
        proof {
            if table_inv(old(self)@) {
                lemma_receive_keeps_invariant(
                    old(self)@,
                    local_addr,
                    remote_addr,
                    bytes@,
                    iss,
                    now,
                );
            }
        }
        let mut out: Vec<Action> = Vec::new();
        assert(action_views(out@) =~= Seq::<ActionView>::empty());
        let packet = match TCPPacket::from_bytes(bytes) {
            Some(packet) => packet,
            None => {
                return out;
            },
        };
        let mut sockets = self.take();
        let connection = SockID(local_addr, remote_addr, packet.get_dst(), packet.get_src());
        let listening = SockID(
            local_addr,
            UNDETERMINED_IP_ADDR,
            packet.get_dst(),
            UNDETERMINED_PORT,
        );
        let found = match find(&sockets, connection) {
            Some(at) => Some(at),
            None => find(&sockets, listening),
        };
        if let Some(at) = found {
            if packet.is_correct_checksum(local_addr, remote_addr) {
                dispatch(&mut sockets, at, &packet, remote_addr, iss, now, &mut out);
            }
        }
        self.put(sockets);
        out
    }

    /// Takes the bytes of a segment received on `local_addr` from
    /// `remote_addr` at `now` through the state machine. Where a listening
    /// socket opens a connection for it, the connection's initial send
    /// sequence number is drawn at random.
    pub fn receive_handler(
        &mut self,
        local_addr: u32,
        remote_addr: u32,
        bytes: Vec<u8>,
        now: u64,
    ) -> (out: Vec<Action>)
        ensures
            table_inv(old(self)@) ==> table_inv(final(self)@),
            exists|iss: u32|
                ISS_RANGE_START <= iss < ISS_RANGE_END && (TableStep {
                    table: final(self)@,
                    actions: action_views(out@),
                }) == #[trigger] receive_step(
                    old(self)@,
                    local_addr,
                    remote_addr,
                    bytes@,
                    iss,
                    now,
                ),
    {
        let iss = random_in_range(ISS_RANGE_START, ISS_RANGE_END);
        self.receive_handler_with(local_addr, remote_addr, bytes, iss, now)
    }

    /// One round of the timer at `now`: every socket of the table is
    /// visited, in table order.
    pub fn timer(&mut self, now: u64) -> (out: Vec<Action>)
        ensures
            (TableStep { table: final(self)@, actions: action_views(out@) }) == timer_step(
                old(self)@,
                now,
            ),
            table_inv(old(self)@) ==> table_inv(final(self)@) && table_outstanding(final(self)@),
    {
        proof {
            if table_inv(old(self)@) {
                lemma_timer_keeps_invariant(old(self)@, now);
            }
        }
        let mut sockets = self.take();
        let mut out: Vec<Action> = Vec::new();
        assert(action_views(out@) =~= Seq::<ActionView>::empty());
        let count = sockets.len();
        let mut at: usize = 0;
        while at < count
            invariant
                at <= count,
                count == sockets@.len(),
                table_wf(socket_views(sockets@)),
                timer_from(socket_views(sockets@), at as int, action_views(out@), now)
                    == timer_step(old(self)@, now),
            decreases count - at,
        {
            let ghost table = socket_views(sockets@);
            Self::tick(&mut sockets[at], now, &mut out);
            proof {
                assert(socket_views(sockets@) =~= table.update(at as int, sockets@[at as int]@));
            }
            at += 1;
        }
        self.put(sockets);
        out
    }
}

} // verus!
