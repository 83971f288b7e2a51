use std::collections::VecDeque;
use toytcp::packet::TCPPacket;
use toytcp::seqnum;
use toytcp::socket::{SockID, Socket, TcpStatus};
use toytcp::tcp::{Action, TCPEvent, TCPEventKind, TcpError, MSS, TCP};
use toytcp::tcpflags;

const SECOND: u64 = 1_000_000_000;
const MILLI: u64 = 1_000_000;
const LOCALHOST: u32 = 0x7F00_0001;
const CLIENT_PORT: u16 = 40000;
const SERVER_PORT: u16 = 8000;
const CLIENT_ISS: u32 = 1000;
const SERVER_ISS: u32 = 5000;

/// One engine with what it has published and what waits to be delivered to it.
struct Host {
    tcp: TCP,
    events: Vec<TCPEvent>,
    inbox: VecDeque<Vec<u8>>,
}

impl Host {
    fn new() -> Self {
        Host { tcp: TCP::new(), events: Vec::new(), inbox: VecDeque::new() }
    }

    fn socket(&self, id: SockID) -> &Socket {
        self.tcp.get(id).expect("socket in table")
    }

    fn saw(&self, id: SockID, kind: TCPEventKind) -> bool {
        self.events.contains(&TCPEvent { sock_id: id, kind })
    }
}

/// A client and a server on one address, and every segment that crossed.
struct Net {
    client: Host,
    server: Host,
    wire: Vec<(bool, TCPPacket)>,
    now: u64,
}

impl Net {
    fn new() -> Self {
        Net { client: Host::new(), server: Host::new(), wire: Vec::new(), now: 0 }
    }

    /// Performs what one side asked for: segments go to the other side's
    /// inbox, events to the side's own list.
    fn perform(&mut self, from_client: bool, actions: Vec<Action>) {
        for action in actions {
            match action {
                Action::Send { remote_addr, packet } => {
                    assert_eq!(remote_addr, LOCALHOST);
                    let bytes = packet.packet().to_vec();
                    self.wire.push((from_client, packet));
                    if from_client {
                        self.server.inbox.push_back(bytes);
                    } else {
                        self.client.inbox.push_back(bytes);
                    }
                }
                Action::Publish(event) => {
                    if from_client {
                        self.client.events.push(event);
                    } else {
                        self.server.events.push(event);
                    }
                }
            }
        }
    }

    /// Delivers the oldest waiting segment to one side.
    fn deliver(&mut self, to_client: bool) {
        let now = self.now;
        if to_client {
            let bytes = self.client.inbox.pop_front().expect("segment for the client");
            let actions =
                self.client.tcp.receive_handler_with(LOCALHOST, LOCALHOST, bytes, 1, now);
            self.perform(true, actions);
        } else {
            let bytes = self.server.inbox.pop_front().expect("segment for the server");
            let actions =
                self.server.tcp.receive_handler_with(LOCALHOST, LOCALHOST, bytes, SERVER_ISS, now);
            self.perform(false, actions);
        }
        check(&self.client.tcp);
        check(&self.server.tcp);
    }

    /// Delivers segments until none waits.
    fn settle(&mut self) {
        while !self.client.inbox.is_empty() || !self.server.inbox.is_empty() {
            if !self.server.inbox.is_empty() {
                self.deliver(false);
            } else {
                self.deliver(true);
            }
        }
    }

    /// A round of both timers at `now`.
    fn tick(&mut self) {
        let actions = self.client.tcp.timer(self.now);
        self.perform(true, actions);
        let actions = self.server.tcp.timer(self.now);
        self.perform(false, actions);
        check(&self.client.tcp);
        check(&self.server.tcp);
    }

    /// Listens, connects and completes the handshake. Returns the listening
    /// socket, the client's connection and the server's connection.
    fn open(&mut self) -> (SockID, SockID, SockID) {
        let listener = self.server.tcp.listen(LOCALHOST, SERVER_PORT);
        let (client, actions) = self.client.tcp.connect_with(
            LOCALHOST,
            LOCALHOST,
            CLIENT_PORT,
            SERVER_PORT,
            CLIENT_ISS,
            self.now,
        );
        self.perform(true, actions);
        self.settle();
        let server = self.server.tcp.accept(listener).expect("completed connection");
        (listener, client, server)
    }

    /// Sends all of `data` from the client, as far as the window lets it.
    /// Returns how many bytes went out.
    fn client_send(&mut self, id: SockID, data: &[u8]) -> usize {
        let mut cursor = 0;
        while cursor < data.len() {
            let (size, actions) = self.client.tcp.send(id, data, cursor, self.now).unwrap();
            if size == 0 {
                break;
            }
            cursor += size;
            self.perform(true, actions);
        }
        cursor
    }

    fn data_segments(&self) -> Vec<&TCPPacket> {
        self.wire
            .iter()
            .filter(|(from_client, packet)| *from_client && packet.len() > 20)
            .map(|(_, packet)| packet)
            .collect()
    }
}

/// Tests what holds of every socket on the sockets of the usual exchange.
fn check(tcp: &TCP) {
    for id in [client_id(), server_id(), SockID(LOCALHOST, 0, SERVER_PORT, 0)] {
        if let Some(socket) = tcp.get(id) {
            check_socket(socket);
        }
    }
}

/// What holds of every socket after every step, tested on the values at hand.
fn check_socket(socket: &Socket) {
    let in_flight = seqnum::diff(socket.send_param.next, socket.send_param.unacked_seq);
    assert!(seqnum::le(socket.send_param.unacked_seq, socket.send_param.next));
    assert!(seqnum::le(socket.recv_param.next, socket.recv_param.tail));
    assert!(socket.recv_param.window as usize <= 4380);
    assert!(
        seqnum::diff(socket.recv_param.tail, socket.recv_param.next)
            <= socket.recv_param.window as u32
    );
    assert_eq!(socket.recv_buffer.len(), 4380);
    let mut previous = u32::MAX;
    for entry in socket.retransmission_queue.iter() {
        let behind = seqnum::diff(socket.send_param.next, entry.packet.get_seq());
        assert!(behind <= previous);
        previous = behind;
        assert!(1 <= entry.transmission_count && entry.transmission_count <= 5);
        assert!(SECOND <= entry.rto && entry.rto <= 60 * SECOND);
    }
    assert!(SECOND <= socket.rto.get() && socket.rto.get() <= 60 * SECOND);
    assert!(in_flight < 0x8000_0000);
    if socket.status != TcpStatus::Listen && socket.status != TcpStatus::SynSent {
        let first = socket.recv_param.initial_seq.wrapping_add(1);
        assert!(seqnum::le(first, socket.recv_param.next));
    }
}

fn client_id() -> SockID {
    SockID(LOCALHOST, LOCALHOST, CLIENT_PORT, SERVER_PORT)
}

fn server_id() -> SockID {
    SockID(LOCALHOST, LOCALHOST, SERVER_PORT, CLIENT_PORT)
}

fn flags_on_wire(net: &Net) -> Vec<(bool, u8, usize)> {
    net.wire
        .iter()
        .map(|(from_client, packet)| (*from_client, packet.get_flag(), packet.len() - 20))
        .collect()
}

/// Receives on the server until the peer has closed or nothing is ready.
fn drain(net: &mut Net, id: SockID, into: &mut Vec<u8>) -> Option<usize> {
    loop {
        let mut buffer = [0u8; 1024];
        match net.server.tcp.recv(id, &mut buffer).unwrap() {
            None => return None,
            Some(0) => return Some(0),
            Some(count) => into.extend_from_slice(&buffer[..count]),
        }
    }
}

#[test]
fn listen_inserts_a_listening_socket() {
    let mut tcp = TCP::new();
    assert_eq!(tcp.len(), 0);
    let id = tcp.listen(LOCALHOST, SERVER_PORT);
    assert_eq!(id, SockID(LOCALHOST, 0, SERVER_PORT, 0));
    assert_eq!(tcp.len(), 1);
    let socket = tcp.get(id).unwrap();
    assert_eq!(socket.status, TcpStatus::Listen);
    assert_eq!(socket.get_sock_id(), id);
    check_socket(socket);
}

#[test]
fn listening_twice_replaces_the_socket() {
    let mut tcp = TCP::new();
    let first = tcp.listen(LOCALHOST, SERVER_PORT);
    let second = tcp.listen(LOCALHOST, SERVER_PORT);
    assert_eq!(first, second);
    assert_eq!(tcp.len(), 1);
    tcp.listen(LOCALHOST, SERVER_PORT + 1);
    assert_eq!(tcp.len(), 2);
}

#[test]
fn connect_sends_a_syn_and_waits_in_syn_sent() {
    let mut tcp = TCP::new();
    let (id, actions) = tcp.connect_with(LOCALHOST, 0x0A00_0002, 40123, 80, 777, 5);
    assert_eq!(id, SockID(LOCALHOST, 0x0A00_0002, 40123, 80));
    assert_eq!(actions.len(), 1);
    match &actions[0] {
        Action::Send { remote_addr, packet } => {
            assert_eq!(*remote_addr, 0x0A00_0002);
            assert_eq!(packet.get_flag(), tcpflags::SYN);
            assert_eq!(packet.get_seq(), 777);
            assert_eq!(packet.get_ack(), 0);
            assert_eq!(packet.get_src(), 40123);
            assert_eq!(packet.get_dst(), 80);
            assert_eq!(packet.get_window_size(), 4380);
            assert_eq!(packet.len(), 20);
            assert!(packet.is_correct_checksum(LOCALHOST, 0x0A00_0002));
        }
        other => panic!("unexpected action {:?}", other),
    }
    let socket = tcp.get(id).unwrap();
    assert_eq!(socket.status, TcpStatus::SynSent);
    assert_eq!(socket.send_param.initial_seq, 777);
    assert_eq!(socket.send_param.unacked_seq, 777);
    assert_eq!(socket.send_param.next, 778);
    assert_eq!(socket.retransmission_queue.len(), 1);
    assert_eq!(socket.retransmission_queue[0].latest_transmission_time, 5);
    check_socket(socket);
}

#[test]
fn connect_picks_port_and_sequence_number_from_their_ranges() {
    let mut tcp = TCP::new();
    let mut ports = Vec::new();
    let mut numbers = Vec::new();
    for _ in 0..64 {
        let (id, actions) = tcp.connect(LOCALHOST, 0x0A00_0002, 80, 0).unwrap();
        assert_eq!(id.0, LOCALHOST);
        assert_eq!(id.1, 0x0A00_0002);
        assert_eq!(id.3, 80);
        assert!(40000 <= id.2 && id.2 < 60000);
        assert!(!ports.contains(&id.2));
        ports.push(id.2);
        let socket = tcp.get(id).unwrap();
        let iss = socket.send_param.initial_seq;
        assert!(1 <= iss && iss < 0x8000_0000);
        assert_eq!(socket.send_param.unacked_seq, iss);
        assert_eq!(socket.send_param.next, iss + 1);
        assert_eq!(socket.status, TcpStatus::SynSent);
        numbers.push(iss);
        match &actions[0] {
            Action::Send { packet, .. } => {
                assert_eq!(packet.get_seq(), iss);
                assert_eq!(packet.get_src(), id.2);
            }
            other => panic!("unexpected action {:?}", other),
        }
    }
    assert_eq!(tcp.len(), 64);
    assert!(numbers.iter().any(|n| *n != numbers[0]));
    assert!(ports.iter().any(|p| *p != 40000));
}

#[test]
fn select_unused_port_avoids_ports_in_use() {
    let mut tcp = TCP::new();
    for offset in 0..100u16 {
        tcp.connect_with(LOCALHOST, 0x0A00_0002, 40000 + offset, 80, 1, 0);
    }
    assert!(!tcp.port_is_unused(40000));
    assert!(!tcp.port_is_unused(40099));
    assert!(tcp.port_is_unused(40100));
    assert!(tcp.port_is_unused(80));
    for _ in 0..50 {
        let port = tcp.select_unused_port().unwrap();
        assert!(40100 <= port && port < 60000);
    }
}

#[test]
fn connect_fails_when_every_port_is_taken() {
    let mut tcp = TCP::new();
    for port in 40000..60000u16 {
        tcp.connect_with(LOCALHOST, 0x0A00_0002, port, 80, 1, 0);
    }
    assert_eq!(tcp.len(), 20000);
    assert_eq!(tcp.select_unused_port(), None);
    match tcp.connect(LOCALHOST, 0x0A00_0002, 80, 0) {
        Err(error) => assert_eq!(error, TcpError::NoAvailablePort),
        Ok(_) => panic!("connected without a free port"),
    }
    assert_eq!(tcp.len(), 20000);
}

#[test]
fn calls_on_an_unknown_socket_fail() {
    let mut tcp = TCP::new();
    let id = SockID(1, 2, 3, 4);
    tcp.listen(LOCALHOST, SERVER_PORT);
    assert_eq!(tcp.accept(id), Err(TcpError::NoSuchSocket));
    assert!(matches!(tcp.send(id, b"x", 0, 0), Err(TcpError::NoSuchSocket)));
    let mut buffer = [0u8; 4];
    assert_eq!(tcp.recv(id, &mut buffer), Err(TcpError::NoSuchSocket));
    assert!(matches!(tcp.close(id, 0), Err(TcpError::NoSuchSocket)));
    assert!(tcp.get(id).is_none());
    tcp.remove(id);
    assert_eq!(tcp.len(), 1);
}

#[test]
fn accept_without_a_completed_connection_fails() {
    let mut tcp = TCP::new();
    let listener = tcp.listen(LOCALHOST, SERVER_PORT);
    assert_eq!(tcp.accept(listener), Err(TcpError::NoConnectedSocket));
}

#[test]
fn three_way_handshake() {
    let mut net = Net::new();
    let (listener, client, server) = net.open();
    assert_eq!(client, client_id());
    assert_eq!(server, server_id());
    assert_eq!(
        flags_on_wire(&net),
        vec![
            (true, tcpflags::SYN, 0),
            (false, tcpflags::SYN | tcpflags::ACK, 0),
            (true, tcpflags::ACK, 0),
        ]
    );
    let syn_ack = &net.wire[1].1;
    assert_eq!(syn_ack.get_seq(), SERVER_ISS);
    assert_eq!(syn_ack.get_ack(), CLIENT_ISS + 1);
    let ack = &net.wire[2].1;
    assert_eq!(ack.get_seq(), CLIENT_ISS + 1);
    assert_eq!(ack.get_ack(), SERVER_ISS + 1);

    let c = net.client.socket(client);
    assert_eq!(c.status, TcpStatus::Established);
    assert_eq!(c.send_param.unacked_seq, CLIENT_ISS + 1);
    assert_eq!(c.send_param.next, CLIENT_ISS + 1);
    assert_eq!(c.recv_param.initial_seq, SERVER_ISS);
    assert_eq!(c.recv_param.next, SERVER_ISS + 1);
    assert_eq!(c.recv_param.tail, SERVER_ISS + 1);
    assert_eq!(c.send_param.window, 4380);
    check_socket(c);
    assert!(net.client.saw(client, TCPEventKind::ConnectionCompleted));

    let s = net.server.socket(server);
    assert_eq!(s.status, TcpStatus::Established);
    assert_eq!(s.send_param.initial_seq, SERVER_ISS);
    assert_eq!(s.send_param.unacked_seq, SERVER_ISS + 1);
    assert_eq!(s.send_param.next, SERVER_ISS + 1);
    assert_eq!(s.recv_param.initial_seq, CLIENT_ISS);
    assert_eq!(s.recv_param.next, CLIENT_ISS + 1);
    assert_eq!(s.listening_socket, Some(listener));
    check_socket(s);
    assert!(net.server.saw(listener, TCPEventKind::ConnectionCompleted));
    assert!(net.server.socket(listener).connected_connection_queue.is_empty());
    assert_eq!(net.server.socket(listener).status, TcpStatus::Listen);
}

#[test]
fn tiny_echo() {
    let mut net = Net::new();
    let (_, client, server) = net.open();
    assert_eq!(net.client_send(client, b"hello"), 5);
    net.settle();
    assert!(net.server.saw(server, TCPEventKind::DataArrived));

    let mut buffer = [0u8; 1024];
    assert_eq!(net.server.tcp.recv(server, &mut buffer), Ok(Some(5)));
    assert_eq!(&buffer[..5], b"hello");
    assert_eq!(net.server.tcp.recv(server, &mut buffer), Ok(None));

    let (wait, actions) = net.client.tcp.close(client, net.now).unwrap();
    assert!(wait);
    net.perform(true, actions);
    assert_eq!(net.client.socket(client).status, TcpStatus::FinWait1);
    net.settle();
    assert_eq!(net.client.socket(client).status, TcpStatus::FinWait2);
    assert_eq!(net.server.socket(server).status, TcpStatus::CloseWait);
    assert_eq!(net.server.tcp.recv(server, &mut buffer), Ok(Some(0)));

    let (wait, actions) = net.server.tcp.close(server, net.now).unwrap();
    assert!(wait);
    net.perform(false, actions);
    assert_eq!(net.server.socket(server).status, TcpStatus::LastAck);
    net.settle();
    assert!(net.client.saw(client, TCPEventKind::ConnectionClosed));
    net.client.tcp.remove(client);
    assert!(net.client.tcp.get(client).is_none());

    assert!(!net.server.saw(server, TCPEventKind::ConnectionClosed));
    net.now += 100 * MILLI;
    net.tick();
    assert!(net.server.saw(server, TCPEventKind::ConnectionClosed));
    net.server.tcp.remove(server);
    assert!(net.server.tcp.get(server).is_none());
    assert_eq!(net.client.tcp.len(), 0);
    assert_eq!(net.server.tcp.len(), 1);

    let ack = tcpflags::ACK;
    assert_eq!(
        flags_on_wire(&net),
        vec![
            (true, tcpflags::SYN, 0),
            (false, tcpflags::SYN | ack, 0),
            (true, ack, 0),
            (true, ack, 5),
            (false, ack, 0),
            (true, tcpflags::FIN | ack, 0),
            (false, ack, 0),
            (false, tcpflags::FIN | ack, 0),
            (true, ack, 0),
        ]
    );
}

#[test]
fn segment_numbers_of_a_short_exchange() {
    let mut net = Net::new();
    let (_, client, _) = net.open();
    net.client_send(client, b"hello");
    net.settle();
    let data = &net.wire[3].1;
    assert_eq!(data.get_seq(), CLIENT_ISS + 1);
    assert_eq!(data.get_ack(), SERVER_ISS + 1);
    assert_eq!(data.payload(), b"hello");
    let ack = &net.wire[4].1;
    assert_eq!(ack.get_seq(), SERVER_ISS + 1);
    assert_eq!(ack.get_ack(), CLIENT_ISS + 6);
    assert_eq!(ack.get_window_size(), 4375);
    let c = net.client.socket(client);
    assert_eq!(c.send_param.unacked_seq, CLIENT_ISS + 6);
    assert_eq!(c.send_param.next, CLIENT_ISS + 6);
    assert_eq!(c.send_param.window, 4375);
    assert!(c.retransmission_queue.is_empty());
    assert!(c.sent_times.is_empty());
    assert!(net.client.saw(client, TCPEventKind::Acked));
}

#[test]
fn exactly_mss_bytes_make_one_segment() {
    let mut net = Net::new();
    let (_, client, server) = net.open();
    let payload = vec![0xAAu8; MSS];
    assert_eq!(MSS, 1460);
    assert_eq!(net.client_send(client, &payload), 1460);
    let segments = net.data_segments();
    assert_eq!(segments.len(), 1);
    assert_eq!(segments[0].payload().len(), 1460);
    assert_eq!(segments[0].payload(), &payload[..]);
    net.settle();
    let mut received = Vec::new();
    assert_eq!(drain(&mut net, server, &mut received), None);
    assert_eq!(received, payload);
}

#[test]
fn one_byte_more_than_mss_makes_two_segments() {
    let mut net = Net::new();
    let (_, client, _) = net.open();
    let payload = vec![0x55u8; MSS + 1];
    assert_eq!(net.client_send(client, &payload), 1461);
    let segments = net.data_segments();
    assert_eq!(segments.len(), 2);
    assert_eq!(segments[0].payload().len(), 1460);
    assert_eq!(segments[1].payload().len(), 1);
    assert_eq!(segments[1].get_seq(), CLIENT_ISS + 1 + 1460);
}

#[test]
fn four_thousand_bytes_make_three_segments() {
    let mut net = Net::new();
    let (_, client, server) = net.open();
    let payload: Vec<u8> = (0..4000u32).map(|i| (i % 251) as u8).collect();
    assert_eq!(net.client_send(client, &payload), 4000);
    let sizes: Vec<usize> = net.data_segments().iter().map(|p| p.payload().len()).collect();
    assert_eq!(sizes, vec![1460, 1460, 1080]);
    net.settle();
    let last_ack = net.wire.iter().rev().find(|(from_client, _)| !from_client).unwrap();
    assert_eq!(last_ack.1.get_ack(), CLIENT_ISS + 4001);
    assert_eq!(net.client.socket(client).send_param.unacked_seq, CLIENT_ISS + 4001);
    let mut received = Vec::new();
    assert_eq!(drain(&mut net, server, &mut received), None);
    assert_eq!(received, payload);
}

#[test]
fn send_stops_at_the_peer_window() {
    let mut net = Net::new();
    let (_, client, _) = net.open();
    let payload = vec![7u8; 6000];
    assert_eq!(net.client_send(client, &payload), 4380);
    let sizes: Vec<usize> = net.data_segments().iter().map(|p| p.payload().len()).collect();
    assert_eq!(sizes, vec![1460, 1460, 1460]);
    assert_eq!(net.client.socket(client).send_param.remain(), 0);
    let (size, actions) = net.client.tcp.send(client, &payload, 4380, net.now).unwrap();
    assert_eq!(size, 0);
    assert!(actions.is_empty());
}

#[test]
fn send_past_the_end_of_the_data_sends_nothing() {
    let mut net = Net::new();
    let (_, client, _) = net.open();
    let (size, actions) = net.client.tcp.send(client, b"abc", 3, 0).unwrap();
    assert_eq!(size, 0);
    assert!(actions.is_empty());
    let (size, actions) = net.client.tcp.send(client, b"abc", 9, 0).unwrap();
    assert_eq!(size, 0);
    assert!(actions.is_empty());
    let (size, _) = net.client.tcp.send(client, b"abc", 1, 0).unwrap();
    assert_eq!(size, 2);
}

#[test]
fn send_records_the_time_for_the_round_trip_sample() {
    let mut net = Net::new();
    let (_, client, _) = net.open();
    net.now = 10 * SECOND;
    net.client_send(client, b"ping");
    {
        let c = net.client.socket(client);
        assert_eq!(c.sent_times.len(), 1);
        assert_eq!(c.sent_times[0].sent_time, 10 * SECOND);
        assert_eq!(c.sent_times[0].expected_ack, CLIENT_ISS + 5);
    }
    net.now = 12 * SECOND;
    net.settle();
    let c = net.client.socket(client);
    assert!(c.sent_times.is_empty());
    assert_eq!(c.rto.get(), 6 * SECOND);
}

#[test]
fn stream_of_one_megabyte_arrives_intact() {
    let mut net = Net::new();
    let (_, client, server) = net.open();
    let payload: Vec<u8> = (0..1_000_000u32).map(|i| (i * 7 + i / 256) as u8).collect();
    let mut received = Vec::new();
    let mut cursor = 0;
    while cursor < payload.len() {
        // one segment at a time, and the application reads as data arrives
        let (size, actions) = net.client.tcp.send(client, &payload, cursor, net.now).unwrap();
        assert!(size > 0);
        cursor += size;
        net.perform(true, actions);
        net.settle();
        assert_eq!(drain(&mut net, server, &mut received), None);
        net.now += MILLI;
    }
    assert_eq!(received, payload);
    let (_, actions) = net.client.tcp.close(client, net.now).unwrap();
    net.perform(true, actions);
    net.settle();
    assert_eq!(drain(&mut net, server, &mut received), Some(0));
    assert_eq!(received.len(), 1_000_000);
    check_socket(net.client.socket(client));
    check_socket(net.server.socket(server));
}

#[test]
fn unread_data_closes_the_window() {
    let mut net = Net::new();
    let (_, client, server) = net.open();
    let payload = vec![5u8; 10_000];
    assert_eq!(net.client_send(client, &payload), 4380);
    net.settle();
    assert_eq!(net.server.socket(server).recv_param.window, 0);
    assert_eq!(net.client.socket(client).send_param.window, 0);
    assert!(net.client.socket(client).last_time_window_probe.is_some());
    assert_eq!(net.client_send(client, &payload[4380..]), 0);
    let mut received = Vec::new();
    assert_eq!(drain(&mut net, server, &mut received), None);
    assert_eq!(&received[..], &payload[..4380]);
}

#[test]
fn window_stall_and_probe() {
    let mut net = Net::new();
    let (_, client, server) = net.open();
    let payload = vec![3u8; 4096];
    // the server's application does not read: its window closes
    let sent = net.client_send(client, &payload);
    assert_eq!(sent, 4096);
    net.settle();
    let rest = vec![4u8; 4096];
    let more = net.client_send(client, &rest);
    assert_eq!(more, 284);
    net.settle();
    assert_eq!(net.server.socket(server).recv_param.window, 0);
    {
        let c = net.client.socket(client);
        assert_eq!(c.send_param.window, 0);
        assert_eq!(c.last_time_window_probe, Some(net.now));
    }
    // stalled: nothing goes out, and nothing is probed before five seconds
    let segments_before = net.wire.len();
    assert_eq!(net.client_send(client, &rest[more..]), 0);
    net.now = 4_999 * MILLI;
    net.tick();
    assert_eq!(net.wire.len(), segments_before);
    net.now = 5 * SECOND;
    net.tick();
    assert_eq!(net.wire.len(), segments_before + 1);
    let next = net.client.socket(client).send_param.next;
    {
        let (from_client, probe) = &net.wire[segments_before];
        assert!(*from_client);
        assert_eq!(probe.get_seq(), next.wrapping_sub(1));
        assert_eq!(probe.get_flag(), tcpflags::ACK);
        assert_eq!(probe.len(), 20);
    }
    assert_eq!(net.client.socket(client).last_time_window_probe, Some(5 * SECOND));
    net.settle();
    // one probe per five seconds
    net.now = 9 * SECOND;
    net.tick();
    assert_eq!(net.wire.len(), segments_before + 1);
    net.now = 10 * SECOND;
    net.tick();
    assert_eq!(net.wire.len(), segments_before + 2);
    net.settle();
    assert_eq!(net.client_send(client, &rest[more..]), 0);

    // the application reads, and the server advertises the open window
    let mut received = Vec::new();
    assert_eq!(drain(&mut net, server, &mut received), None);
    assert_eq!(received.len(), 4380);
    let update = {
        let s = net.server.socket(server);
        let mut mirror = Socket::new(LOCALHOST, LOCALHOST, SERVER_PORT, CLIENT_PORT, s.status);
        mirror.recv_param.window = s.recv_param.window;
        mirror.send_tcp_packet(s.send_param.next, s.recv_param.next, tcpflags::ACK, &[], net.now)
    };
    net.client.inbox.push_back(update.packet().to_vec());
    net.settle();
    {
        let c = net.client.socket(client);
        assert_eq!(c.send_param.window, 4380);
        assert_eq!(c.last_time_window_probe, None);
    }
    assert_eq!(net.client_send(client, &rest[more..]), 4096 - more);
    net.settle();
    assert_eq!(drain(&mut net, server, &mut received), None);
    let mut all = payload.clone();
    all.extend_from_slice(&rest);
    assert_eq!(received, all);
}

#[test]
fn lost_segment_is_retransmitted_after_the_timeout() {
    let mut net = Net::new();
    let (_, client, server) = net.open();
    net.tick();
    net.client_send(client, b"precious");
    // the segment is lost on the wire
    assert_eq!(net.server.inbox.len(), 1);
    net.server.inbox.clear();
    let lost = net.wire.last().unwrap().1.packet().to_vec();
    let before = net.wire.len();

    net.now = SECOND - 1;
    net.tick();
    assert_eq!(net.wire.len(), before);
    net.now = SECOND;
    net.tick();
    assert_eq!(net.wire.len(), before + 1);
    assert_eq!(net.wire[before].1.packet(), &lost[..]);
    {
        let entry = &net.client.socket(client).retransmission_queue[0];
        assert_eq!(entry.transmission_count, 2);
        assert_eq!(entry.rto, 2 * SECOND);
        assert_eq!(entry.latest_transmission_time, SECOND);
    }
    net.settle();
    let last = net.wire.last().unwrap();
    assert!(!last.0);
    assert_eq!(last.1.get_ack(), CLIENT_ISS + 9);
    assert!(net.client.socket(client).retransmission_queue.is_empty());
    let mut received = Vec::new();
    assert_eq!(drain(&mut net, server, &mut received), None);
    assert_eq!(received, b"precious");
}

#[test]
fn retransmission_backs_off_and_gives_up_after_five_transmissions() {
    let mut net = Net::new();
    let (_, client, _) = net.open();
    net.tick();
    net.client_send(client, b"lost");
    net.server.inbox.clear();
    let before = net.wire.len();
    let mut times = Vec::new();
    let mut now = 0;
    while now <= 40 * SECOND {
        net.now = now;
        let sent = net.wire.len();
        net.tick();
        net.server.inbox.clear();
        if net.wire.len() > sent {
            times.push(now / SECOND);
        }
        now += 500 * MILLI;
    }
    // timeouts of 1 s, 2 s, 4 s and 8 s between the five transmissions
    assert_eq!(times, vec![1, 3, 7, 15]);
    assert_eq!(net.wire.len(), before + 4);
    assert!(net.client.socket(client).retransmission_queue.is_empty());
    assert_eq!(net.client.socket(client).rto.get(), 16 * SECOND);
    assert!(!net.client.saw(client, TCPEventKind::ConnectionClosed));
}

#[test]
fn lost_syn_is_retransmitted_with_three_second_timeouts() {
    let mut tcp = TCP::new();
    let (id, _) = tcp.connect_with(LOCALHOST, 0x0A00_0002, 40000, 80, 9, 0);
    let mut times = Vec::new();
    let mut now = 0;
    while now <= 30 * SECOND {
        let actions = tcp.timer(now);
        if !actions.is_empty() {
            assert_eq!(actions.len(), 1);
            match &actions[0] {
                Action::Send { remote_addr, packet } => {
                    assert_eq!(*remote_addr, 0x0A00_0002);
                    assert_eq!(packet.get_flag(), tcpflags::SYN);
                    assert_eq!(packet.get_seq(), 9);
                }
                other => panic!("unexpected action {:?}", other),
            }
            times.push(now / SECOND);
            let socket = tcp.get(id).unwrap();
            assert_eq!(socket.retransmission_queue[0].rto, 3 * SECOND);
            assert_eq!(socket.rto.get(), 3 * SECOND);
        }
        now += 500 * MILLI;
    }
    // the first timeout is the initial one second, every later one three
    assert_eq!(times, vec![1, 4, 7, 10]);
    let socket = tcp.get(id).unwrap();
    assert!(socket.retransmission_queue.is_empty());
    assert_eq!(socket.status, TcpStatus::SynSent);
}

#[test]
fn out_of_order_segments_are_put_together() {
    let mut net = Net::new();
    let (_, client, server) = net.open();
    net.client_send(client, &[1u8; 1000]);
    net.client_send(client, &[2u8; 500]);
    assert_eq!(net.server.inbox.len(), 2);
    net.server.inbox.swap(0, 1);

    net.deliver(false);
    {
        let s = net.server.socket(server);
        assert_eq!(s.recv_param.next, CLIENT_ISS + 1);
        assert_eq!(s.recv_param.tail, CLIENT_ISS + 1501);
        assert_eq!(s.recv_param.window, 4380);
    }
    let mut buffer = [0u8; 2048];
    assert_eq!(net.server.tcp.recv(server, &mut buffer), Ok(None));
    let early_ack = net.wire.last().unwrap();
    assert_eq!(early_ack.1.get_ack(), CLIENT_ISS + 1);

    net.deliver(false);
    {
        let s = net.server.socket(server);
        assert_eq!(s.recv_param.next, CLIENT_ISS + 1501);
        assert_eq!(s.recv_param.tail, CLIENT_ISS + 1501);
        assert_eq!(s.recv_param.window, 4380 - 1500);
    }
    assert_eq!(net.server.tcp.recv(server, &mut buffer), Ok(Some(1500)));
    assert_eq!(&buffer[..1000], &[1u8; 1000][..]);
    assert_eq!(&buffer[1000..1500], &[2u8; 500][..]);
    net.settle();
    assert_eq!(net.client.socket(client).send_param.unacked_seq, CLIENT_ISS + 1501);
}

#[test]
fn duplicate_segment_is_dropped() {
    let mut net = Net::new();
    let (_, client, server) = net.open();
    net.client_send(client, b"once");
    let duplicate = net.server.inbox[0].clone();
    net.settle();
    let before = net.wire.len();
    let events = net.server.events.len();
    net.server.inbox.push_back(duplicate);
    net.settle();
    assert_eq!(net.wire.len(), before);
    assert_eq!(net.server.events.len(), events);
    let mut received = Vec::new();
    assert_eq!(drain(&mut net, server, &mut received), None);
    assert_eq!(received, b"once");
}

#[test]
fn segment_beyond_the_window_is_dropped() {
    let mut net = Net::new();
    let (_, _, server) = net.open();
    let mut peer = Socket::new(LOCALHOST, LOCALHOST, CLIENT_PORT, SERVER_PORT, TcpStatus::Established);
    let far = peer.send_tcp_packet(
        CLIENT_ISS + 1 + 4381,
        SERVER_ISS + 1,
        tcpflags::ACK,
        b"far",
        0,
    );
    let before = net.wire.len();
    net.server.inbox.push_back(far.packet().to_vec());
    net.settle();
    assert_eq!(net.wire.len(), before);
    let s = net.server.socket(server);
    assert_eq!(s.recv_param.tail, CLIENT_ISS + 1);
    assert_eq!(s.recv_param.window, 4380);
    assert_eq!(s.recv_buffer, vec![0u8; 4380]);
}

#[test]
fn segment_at_the_edge_of_the_window_is_cut_to_fit() {
    let mut net = Net::new();
    let (_, _, server) = net.open();
    let mut peer = Socket::new(LOCALHOST, LOCALHOST, CLIENT_PORT, SERVER_PORT, TcpStatus::Established);
    let edge = peer.send_tcp_packet(
        CLIENT_ISS + 1 + 4378,
        SERVER_ISS + 1,
        tcpflags::ACK,
        b"edge",
        0,
    );
    net.server.inbox.push_back(edge.packet().to_vec());
    net.settle();
    let s = net.server.socket(server);
    assert_eq!(s.recv_param.tail, CLIENT_ISS + 1 + 4380);
    assert_eq!(s.recv_param.next, CLIENT_ISS + 1);
    assert_eq!(&s.recv_buffer[4378..], b"ed");
    assert!(net.server.saw(server, TCPEventKind::DataArrived));
}

#[test]
fn wrong_checksum_is_dropped() {
    let mut net = Net::new();
    let (_, client, server) = net.open();
    net.client_send(client, b"data");
    let mut bytes = net.server.inbox.pop_front().unwrap();
    bytes[21] ^= 0x01;
    let actions = net.server.tcp.receive_handler_with(LOCALHOST, LOCALHOST, bytes, 1, 0);
    assert!(actions.is_empty());
    assert_eq!(net.server.socket(server).recv_param.next, CLIENT_ISS + 1);
}

#[test]
fn short_and_stray_segments_are_dropped() {
    let mut net = Net::new();
    let (_, _, server) = net.open();
    assert!(net.server.tcp.receive_handler_with(LOCALHOST, LOCALHOST, vec![0u8; 19], 1, 0).is_empty());
    assert!(net.server.tcp.receive_handler_with(LOCALHOST, LOCALHOST, Vec::new(), 1, 0).is_empty());
    let mut stranger = Socket::new(LOCALHOST, LOCALHOST, 41000, 9000, TcpStatus::Established);
    let stray = stranger.send_tcp_packet(1, 1, tcpflags::SYN, &[], 0);
    let actions =
        net.server.tcp.receive_handler_with(LOCALHOST, LOCALHOST, stray.packet().to_vec(), 1, 0);
    assert!(actions.is_empty());
    assert_eq!(net.server.tcp.len(), 2);
    check_socket(net.server.socket(server));
}

#[test]
fn listening_socket_ignores_segments_with_ack() {
    let mut tcp = TCP::new();
    let listener = tcp.listen(LOCALHOST, SERVER_PORT);
    let mut peer = Socket::new(LOCALHOST, LOCALHOST, CLIENT_PORT, SERVER_PORT, TcpStatus::SynSent);
    for flag in [tcpflags::ACK, tcpflags::SYN | tcpflags::ACK, tcpflags::FIN, 0] {
        let packet = peer.send_tcp_packet(1, 1, flag, &[], 0);
        let actions = tcp.receive_handler_with(LOCALHOST, LOCALHOST, packet.packet().to_vec(), 1, 0);
        assert!(actions.is_empty());
        assert_eq!(tcp.len(), 1);
    }
    assert_eq!(tcp.get(listener).unwrap().status, TcpStatus::Listen);
}

#[test]
fn listening_socket_opens_a_connection_for_a_syn() {
    let mut tcp = TCP::new();
    let listener = tcp.listen(LOCALHOST, SERVER_PORT);
    let mut peer = Socket::new(0x0A00_0009, LOCALHOST, 45000, SERVER_PORT, TcpStatus::SynSent);
    peer.recv_param.window = 2000;
    let syn = peer.send_tcp_packet(300, 0, tcpflags::SYN, &[], 0);
    let actions = tcp.receive_handler_with(LOCALHOST, 0x0A00_0009, syn.packet().to_vec(), 4242, 8);
    assert_eq!(actions.len(), 1);
    match &actions[0] {
        Action::Send { remote_addr, packet } => {
            assert_eq!(*remote_addr, 0x0A00_0009);
            assert_eq!(packet.get_flag(), tcpflags::SYN | tcpflags::ACK);
            assert_eq!(packet.get_seq(), 4242);
            assert_eq!(packet.get_ack(), 301);
            assert_eq!(packet.get_src(), SERVER_PORT);
            assert_eq!(packet.get_dst(), 45000);
            assert!(packet.is_correct_checksum(LOCALHOST, 0x0A00_0009));
        }
        other => panic!("unexpected action {:?}", other),
    }
    assert_eq!(tcp.len(), 2);
    let id = SockID(LOCALHOST, 0x0A00_0009, SERVER_PORT, 45000);
    let socket = tcp.get(id).unwrap();
    assert_eq!(socket.status, TcpStatus::SynRcvd);
    assert_eq!(socket.listening_socket, Some(listener));
    assert_eq!(socket.recv_param.initial_seq, 300);
    assert_eq!(socket.recv_param.next, 301);
    assert_eq!(socket.send_param.initial_seq, 4242);
    assert_eq!(socket.send_param.unacked_seq, 4242);
    assert_eq!(socket.send_param.next, 4243);
    assert_eq!(socket.send_param.window, 2000);
    assert_eq!(socket.retransmission_queue.len(), 1);
    assert_eq!(socket.retransmission_queue[0].latest_transmission_time, 8);
    check_socket(socket);
}

#[test]
fn listening_socket_draws_the_initial_sequence_number() {
    let mut tcp = TCP::new();
    tcp.listen(LOCALHOST, SERVER_PORT);
    let mut numbers = Vec::new();
    for port in 0..32u16 {
        let mut peer = Socket::new(LOCALHOST, LOCALHOST, 45000 + port, SERVER_PORT, TcpStatus::SynSent);
        let syn = peer.send_tcp_packet(300, 0, tcpflags::SYN, &[], 0);
        let actions = tcp.receive_handler(LOCALHOST, LOCALHOST, syn.packet().to_vec(), 0);
        assert_eq!(actions.len(), 1);
        let id = SockID(LOCALHOST, LOCALHOST, SERVER_PORT, 45000 + port);
        let iss = tcp.get(id).unwrap().send_param.initial_seq;
        assert!(1 <= iss && iss < 0x8000_0000);
        numbers.push(iss);
    }
    assert!(numbers.iter().any(|n| *n != numbers[0]));
}

#[test]
fn acknowledgment_of_unsent_data_is_dropped() {
    let mut net = Net::new();
    let (_, client, server) = net.open();
    net.client_send(client, b"abc");
    net.settle();
    let mut peer = Socket::new(LOCALHOST, LOCALHOST, SERVER_PORT, CLIENT_PORT, TcpStatus::Established);
    peer.recv_param.window = 100;
    let bogus = peer.send_tcp_packet(SERVER_ISS + 1, CLIENT_ISS + 5, tcpflags::ACK, b"zz", 0);
    let before = net.wire.len();
    net.client.inbox.push_back(bogus.packet().to_vec());
    net.settle();
    assert_eq!(net.wire.len(), before);
    let c = net.client.socket(client);
    assert_eq!(c.send_param.unacked_seq, CLIENT_ISS + 4);
    assert_eq!(c.send_param.window, 4377);
    assert_eq!(c.recv_param.next, SERVER_ISS + 1);
    let _ = server;
}

#[test]
fn segment_without_ack_is_ignored_after_the_handshake() {
    let mut net = Net::new();
    let (_, client, _) = net.open();
    let mut peer = Socket::new(LOCALHOST, LOCALHOST, SERVER_PORT, CLIENT_PORT, TcpStatus::Established);
    let bare = peer.send_tcp_packet(SERVER_ISS + 1, CLIENT_ISS + 1, tcpflags::PSH, b"data", 0);
    let before = net.wire.len();
    net.client.inbox.push_back(bare.packet().to_vec());
    net.settle();
    assert_eq!(net.wire.len(), before);
    assert_eq!(net.client.socket(client).recv_param.next, SERVER_ISS + 1);
    assert_eq!(net.client.socket(client).recv_param.window, 4380);
}

#[test]
fn syn_without_ack_moves_syn_sent_to_syn_rcvd() {
    let mut net = Net::new();
    let (client, actions) =
        net.client.tcp.connect_with(LOCALHOST, LOCALHOST, CLIENT_PORT, SERVER_PORT, CLIENT_ISS, 0);
    drop(actions);
    let mut peer = Socket::new(LOCALHOST, LOCALHOST, SERVER_PORT, CLIENT_PORT, TcpStatus::SynSent);
    let syn = peer.send_tcp_packet(SERVER_ISS, 0, tcpflags::SYN, &[], 0);
    let actions =
        net.client.tcp.receive_handler_with(LOCALHOST, LOCALHOST, syn.packet().to_vec(), 1, 0);
    assert_eq!(actions.len(), 1);
    match &actions[0] {
        Action::Send { packet, .. } => {
            assert_eq!(packet.get_flag(), tcpflags::ACK);
            assert_eq!(packet.get_seq(), CLIENT_ISS + 1);
            assert_eq!(packet.get_ack(), SERVER_ISS + 1);
        }
        other => panic!("unexpected action {:?}", other),
    }
    let c = net.client.socket(client);
    assert_eq!(c.status, TcpStatus::SynRcvd);
    assert_eq!(c.recv_param.next, SERVER_ISS + 1);
    assert_eq!(c.send_param.unacked_seq, CLIENT_ISS);
    check_socket(c);
}

#[test]
fn syn_ack_with_a_stray_acknowledgment_is_ignored() {
    let mut net = Net::new();
    let (client, _) =
        net.client.tcp.connect_with(LOCALHOST, LOCALHOST, CLIENT_PORT, SERVER_PORT, CLIENT_ISS, 0);
    let mut peer = Socket::new(LOCALHOST, LOCALHOST, SERVER_PORT, CLIENT_PORT, TcpStatus::SynRcvd);
    let answer =
        peer.send_tcp_packet(SERVER_ISS, CLIENT_ISS + 2, tcpflags::SYN | tcpflags::ACK, &[], 0);
    let actions =
        net.client.tcp.receive_handler_with(LOCALHOST, LOCALHOST, answer.packet().to_vec(), 1, 0);
    assert!(actions.is_empty());
    assert_eq!(net.client.socket(client).status, TcpStatus::SynSent);
}

#[test]
fn half_close_started_by_the_server() {
    let mut net = Net::new();
    let (_, client, server) = net.open();
    let (wait, actions) = net.server.tcp.close(server, 0).unwrap();
    assert!(wait);
    net.perform(false, actions);
    net.settle();
    assert_eq!(net.server.socket(server).status, TcpStatus::FinWait2);
    assert_eq!(net.client.socket(client).status, TcpStatus::CloseWait);
    assert!(net.client.saw(client, TCPEventKind::DataArrived));
    let mut buffer = [0u8; 16];
    assert_eq!(net.client.tcp.recv(client, &mut buffer), Ok(Some(0)));

    let (wait, actions) = net.client.tcp.close(client, 0).unwrap();
    assert!(wait);
    net.perform(true, actions);
    assert_eq!(net.client.socket(client).status, TcpStatus::LastAck);
    net.settle();
    assert!(net.server.saw(server, TCPEventKind::ConnectionClosed));
    net.server.tcp.remove(server);
    net.now = 100 * MILLI;
    net.tick();
    assert!(net.client.saw(client, TCPEventKind::ConnectionClosed));
    net.client.tcp.remove(client);
    assert!(net.client.tcp.get(client).is_none());
    assert!(net.server.tcp.get(server).is_none());
    assert_eq!(net.client.tcp.len(), 0);
}

#[test]
fn data_still_arrives_after_the_local_close() {
    let mut net = Net::new();
    let (_, client, server) = net.open();
    let (_, actions) = net.server.tcp.close(server, 0).unwrap();
    net.perform(false, actions);
    net.settle();
    // the server has closed its side and still receives
    let mut buffer = [0u8; 16];
    assert_eq!(net.server.tcp.recv(server, &mut buffer), Ok(None));
    assert_eq!(net.client_send(client, b"late"), 4);
    net.settle();
    assert_eq!(net.server.tcp.recv(server, &mut buffer), Ok(Some(4)));
    assert_eq!(&buffer[..4], b"late");
    assert_eq!(net.server.tcp.recv(server, &mut buffer), Ok(None));
}

#[test]
fn nothing_is_sent_after_the_local_close() {
    let mut net = Net::new();
    let (_, client, server) = net.open();
    let (_, actions) = net.client.tcp.close(client, 0).unwrap();
    net.perform(true, actions);
    assert_eq!(net.client.socket(client).status, TcpStatus::FinWait1);
    let next = net.client.socket(client).send_param.next;
    let queued = net.client.socket(client).retransmission_queue.len();
    assert!(matches!(
        net.client.tcp.send(client, b"more", 0, 0),
        Err(TcpError::ConnectionClosing)
    ));
    assert!(matches!(
        net.client.tcp.send(client, b"", 0, 0),
        Err(TcpError::ConnectionClosing)
    ));
    net.settle();
    assert_eq!(net.client.socket(client).status, TcpStatus::FinWait2);
    assert!(matches!(
        net.client.tcp.send(client, b"more", 0, 0),
        Err(TcpError::ConnectionClosing)
    ));
    // nothing moved and nothing was kept for retransmission
    assert_eq!(net.client.socket(client).send_param.next, next);
    assert!(net.client.socket(client).retransmission_queue.len() < queued);
    assert!(net.client.socket(client).sent_times.is_empty());
    assert!(net.data_segments().is_empty());
    // the peer, whose side is still open, sends on, and the closer receives
    assert_eq!(net.server.socket(server).status, TcpStatus::CloseWait);
    assert_eq!(net.server.tcp.send(server, b"reply", 0, 0).unwrap().0, 5);
}

#[test]
fn send_in_the_states_before_and_after_a_connection() {
    let mut net = Net::new();
    let listener = net.server.tcp.listen(LOCALHOST, SERVER_PORT);
    // a socket that was never closed by the application takes data
    assert_eq!(net.server.tcp.send(listener, b"x", 0, 0).unwrap().0, 1);
    let (_, client, server) = net.open();
    let (_, actions) = net.client.tcp.close(client, 0).unwrap();
    net.perform(true, actions);
    net.settle();
    let (_, actions) = net.server.tcp.close(server, 0).unwrap();
    net.perform(false, actions);
    assert_eq!(net.server.socket(server).status, TcpStatus::LastAck);
    assert!(net.server.tcp.send(server, b"x", 0, 0).is_ok());
}

#[test]
fn window_of_zero_starts_probe_mode_whatever_was_stored() {
    // the peer's SYN already advertises an empty window
    let mut tcp = TCP::new();
    tcp.listen(LOCALHOST, SERVER_PORT);
    let mut peer = Socket::new(LOCALHOST, LOCALHOST, CLIENT_PORT, SERVER_PORT, TcpStatus::SynSent);
    peer.recv_param.window = 0;
    let syn = peer.send_tcp_packet(CLIENT_ISS, 0, tcpflags::SYN, &[], 0);
    tcp.receive_handler_with(LOCALHOST, LOCALHOST, syn.packet().to_vec(), SERVER_ISS, 0);
    let ack = peer.send_tcp_packet(CLIENT_ISS + 1, SERVER_ISS + 1, tcpflags::ACK, &[], 0);
    tcp.receive_handler_with(LOCALHOST, LOCALHOST, ack.packet().to_vec(), 1, 1);
    {
        let socket = tcp.get(server_id()).unwrap();
        assert_eq!(socket.status, TcpStatus::Established);
        assert_eq!(socket.send_param.window, 0);
        assert_eq!(socket.last_time_window_probe, None);
    }
    // the first acknowledgment with an empty window starts probing
    let again = peer.send_tcp_packet(CLIENT_ISS + 1, SERVER_ISS + 1, tcpflags::ACK, &[], 0);
    tcp.receive_handler_with(LOCALHOST, LOCALHOST, again.packet().to_vec(), 1, 7 * SECOND);
    assert_eq!(tcp.get(server_id()).unwrap().send_param.window, 0);
    assert_eq!(tcp.get(server_id()).unwrap().last_time_window_probe, Some(7 * SECOND));
    assert_eq!(tcp.send(server_id(), b"data", 0, 7 * SECOND).unwrap().0, 0);
    // another one leaves the probe timer running as it was
    tcp.receive_handler_with(LOCALHOST, LOCALHOST, again.packet().to_vec(), 1, 9 * SECOND);
    assert_eq!(tcp.get(server_id()).unwrap().last_time_window_probe, Some(7 * SECOND));
    assert!(tcp.timer(11 * SECOND).iter().all(|a| matches!(a, Action::Publish(_))));
    let probes = tcp.timer(12 * SECOND);
    assert_eq!(probes.len(), 1);
    match &probes[0] {
        Action::Send { packet, .. } => {
            assert_eq!(packet.get_seq(), SERVER_ISS);
            assert_eq!(packet.len(), 20);
        }
        other => panic!("unexpected action {:?}", other),
    }
    // an open window ends probe mode, and sending resumes
    peer.recv_param.window = 100;
    let open = peer.send_tcp_packet(CLIENT_ISS + 1, SERVER_ISS + 1, tcpflags::ACK, &[], 0);
    tcp.receive_handler_with(LOCALHOST, LOCALHOST, open.packet().to_vec(), 1, 13 * SECOND);
    assert_eq!(tcp.get(server_id()).unwrap().send_param.window, 100);
    assert_eq!(tcp.get(server_id()).unwrap().last_time_window_probe, None);
    assert_eq!(tcp.send(server_id(), b"data", 0, 13 * SECOND).unwrap().0, 4);
}

#[test]
fn answer_to_the_syn_with_an_empty_window_starts_probe_mode() {
    let mut tcp = TCP::new();
    let (id, _) = tcp.connect_with(LOCALHOST, LOCALHOST, CLIENT_PORT, SERVER_PORT, CLIENT_ISS, 0);
    let mut peer = Socket::new(LOCALHOST, LOCALHOST, SERVER_PORT, CLIENT_PORT, TcpStatus::SynRcvd);
    peer.recv_param.window = 0;
    let answer = peer.send_tcp_packet(
        SERVER_ISS,
        CLIENT_ISS + 1,
        tcpflags::SYN | tcpflags::ACK,
        &[],
        0,
    );
    tcp.receive_handler_with(LOCALHOST, LOCALHOST, answer.packet().to_vec(), 1, 3 * SECOND);
    let socket = tcp.get(id).unwrap();
    assert_eq!(socket.status, TcpStatus::Established);
    assert_eq!(socket.send_param.window, 0);
    assert_eq!(socket.last_time_window_probe, Some(3 * SECOND));
}

#[test]
fn closing_a_listening_socket_removes_it() {
    let mut tcp = TCP::new();
    let listener = tcp.listen(LOCALHOST, SERVER_PORT);
    let other = tcp.listen(LOCALHOST, SERVER_PORT + 1);
    let (wait, actions) = tcp.close(listener, 0).unwrap();
    assert!(!wait);
    assert_eq!(actions.len(), 1);
    match &actions[0] {
        Action::Send { remote_addr, packet } => {
            assert_eq!(*remote_addr, 0);
            assert_eq!(packet.get_flag(), tcpflags::FIN | tcpflags::ACK);
        }
        other => panic!("unexpected action {:?}", other),
    }
    assert!(tcp.get(listener).is_none());
    assert!(tcp.get(other).is_some());
    assert_eq!(tcp.len(), 1);
}

#[test]
fn close_uses_up_a_sequence_number() {
    let mut net = Net::new();
    let (_, client, _) = net.open();
    let (_, actions) = net.client.tcp.close(client, 3).unwrap();
    match &actions[0] {
        Action::Send { packet, .. } => {
            assert_eq!(packet.get_flag(), tcpflags::FIN | tcpflags::ACK);
            assert_eq!(packet.get_seq(), CLIENT_ISS + 1);
            assert_eq!(packet.get_ack(), SERVER_ISS + 1);
        }
        other => panic!("unexpected action {:?}", other),
    }
    let c = net.client.socket(client);
    assert_eq!(c.send_param.next, CLIENT_ISS + 2);
    assert_eq!(c.status, TcpStatus::FinWait1);
    assert_eq!(c.retransmission_queue.len(), 2);
    assert_eq!(c.retransmission_queue[1].expected_ack, CLIENT_ISS + 2);
    // closing again changes no state but sends another FIN
    let (wait, actions) = net.client.tcp.close(client, 4).unwrap();
    assert!(!wait);
    assert_eq!(actions.len(), 1);
    assert_eq!(net.client.socket(client).status, TcpStatus::FinWait1);
    assert_eq!(net.client.socket(client).send_param.next, CLIENT_ISS + 3);
}

#[test]
fn unanswered_fin_ends_the_connection_after_five_transmissions() {
    let mut net = Net::new();
    let (_, client, _) = net.open();
    net.tick();
    let (_, actions) = net.client.tcp.close(client, 0).unwrap();
    drop(actions);
    let mut sent = 0;
    let mut now = 0;
    while now <= 40 * SECOND && !net.client.saw(client, TCPEventKind::ConnectionClosed) {
        net.now = now;
        let before = net.wire.len();
        net.tick();
        net.server.inbox.clear();
        sent += net.wire.len() - before;
        now += 500 * MILLI;
    }
    assert_eq!(sent, 4);
    assert!(net.client.saw(client, TCPEventKind::ConnectionClosed));
    assert!(net.client.socket(client).retransmission_queue.is_empty());
}

#[test]
fn timer_reports_acknowledged_segments_left_in_the_queue() {
    let mut net = Net::new();
    let (_, client, _) = net.open();
    // the SYN is acknowledged and waits for the timer
    assert_eq!(net.client.socket(client).retransmission_queue.len(), 1);
    let actions = net.client.tcp.timer(0);
    assert_eq!(actions.len(), 1);
    match &actions[0] {
        Action::Publish(event) => {
            assert_eq!(*event, TCPEvent::new(client, TCPEventKind::Acked));
        }
        other => panic!("unexpected action {:?}", other),
    }
    assert!(net.client.socket(client).retransmission_queue.is_empty());
    assert!(net.client.tcp.timer(SECOND).is_empty());
}

#[test]
fn listener_accepts_one_client_after_another() {
    let mut server = Host::new();
    let listener = server.tcp.listen(LOCALHOST, SERVER_PORT);
    let payloads: Vec<Vec<u8>> = vec![b"first".to_vec(), vec![9u8; 3000], b"third client".to_vec()];
    let mut files: Vec<Vec<u8>> = Vec::new();
    for (index, payload) in payloads.iter().enumerate() {
        let mut net = Net::new();
        net.server = server;
        let (client, actions) = net.client.tcp.connect_with(
            LOCALHOST,
            LOCALHOST,
            CLIENT_PORT + index as u16,
            SERVER_PORT,
            CLIENT_ISS,
            0,
        );
        net.perform(true, actions);
        net.settle();
        let connection = net.server.tcp.accept(listener).unwrap();
        assert_eq!(connection, SockID(LOCALHOST, LOCALHOST, SERVER_PORT, CLIENT_PORT + index as u16));
        assert_eq!(net.client_send(client, payload), payload.len());
        net.settle();
        let (_, actions) = net.client.tcp.close(client, 0).unwrap();
        net.perform(true, actions);
        net.settle();
        let mut file = Vec::new();
        assert_eq!(drain(&mut net, connection, &mut file), Some(0));
        files.push(file);
        let (_, actions) = net.server.tcp.close(connection, 0).unwrap();
        net.perform(false, actions);
        net.settle();
        net.tick();
        assert!(net.server.saw(connection, TCPEventKind::ConnectionClosed));
        net.server.tcp.remove(connection);
        assert_eq!(net.server.tcp.len(), 1);
        server = net.server;
    }
    assert_eq!(files, payloads);
    assert_eq!(server.tcp.accept(listener), Err(TcpError::NoConnectedSocket));
}

#[test]
fn completed_connections_are_accepted_oldest_first() {
    let mut net = Net::new();
    let listener = net.server.tcp.listen(LOCALHOST, SERVER_PORT);
    for port in [CLIENT_PORT + 2, CLIENT_PORT, CLIENT_PORT + 1] {
        let (_, actions) =
            net.client.tcp.connect_with(LOCALHOST, LOCALHOST, port, SERVER_PORT, CLIENT_ISS, 0);
        net.perform(true, actions);
        net.settle();
    }
    assert_eq!(net.server.socket(listener).connected_connection_queue.len(), 3);
    for port in [CLIENT_PORT + 2, CLIENT_PORT, CLIENT_PORT + 1] {
        assert_eq!(
            net.server.tcp.accept(listener),
            Ok(SockID(LOCALHOST, LOCALHOST, SERVER_PORT, port))
        );
    }
    assert_eq!(net.server.tcp.accept(listener), Err(TcpError::NoConnectedSocket));
}

#[test]
fn handshake_outlives_a_closed_listener() {
    let mut net = Net::new();
    let listener = net.server.tcp.listen(LOCALHOST, SERVER_PORT);
    let (_, actions) =
        net.client.tcp.connect_with(LOCALHOST, LOCALHOST, CLIENT_PORT, SERVER_PORT, CLIENT_ISS, 0);
    net.perform(true, actions);
    net.deliver(false);
    net.server.tcp.remove(listener);
    net.settle();
    assert_eq!(net.server.socket(server_id()).status, TcpStatus::Established);
    assert!(!net.server.saw(listener, TCPEventKind::ConnectionCompleted));
}

#[test]
fn recv_into_a_small_buffer_takes_the_head_and_keeps_the_rest() {
    let mut net = Net::new();
    let (_, client, server) = net.open();
    net.client_send(client, b"0123456789");
    net.settle();
    let mut buffer = [0u8; 4];
    assert_eq!(net.server.tcp.recv(server, &mut buffer), Ok(Some(4)));
    assert_eq!(&buffer, b"0123");
    assert_eq!(net.server.socket(server).recv_param.window, 4380 - 6);
    assert_eq!(&net.server.socket(server).recv_buffer[..6], b"456789");
    let mut rest = [0xEEu8; 8];
    assert_eq!(net.server.tcp.recv(server, &mut rest), Ok(Some(6)));
    assert_eq!(&rest, b"456789\xEE\xEE");
    assert_eq!(net.server.socket(server).recv_param.window, 4380);
    let mut empty: [u8; 0] = [];
    assert_eq!(net.server.tcp.recv(server, &mut empty), Ok(None));
}

#[test]
fn sequence_numbers_wrap_around() {
    let mut net = Net::new();
    let listener = net.server.tcp.listen(LOCALHOST, SERVER_PORT);
    let iss = u32::MAX - 2;
    let (client, actions) =
        net.client.tcp.connect_with(LOCALHOST, LOCALHOST, CLIENT_PORT, SERVER_PORT, iss, 0);
    net.perform(true, actions);
    net.settle();
    let server = net.server.tcp.accept(listener).unwrap();
    assert_eq!(net.client.socket(client).send_param.next, u32::MAX - 1);
    let payload: Vec<u8> = (0..3000u32).map(|i| i as u8).collect();
    assert_eq!(net.client_send(client, &payload), 3000);
    assert_eq!(net.client.socket(client).send_param.next, 2998);
    net.settle();
    assert_eq!(net.client.socket(client).send_param.unacked_seq, 2998);
    assert!(net.client.socket(client).retransmission_queue.is_empty());
    assert_eq!(net.server.socket(server).recv_param.next, 2998);
    let mut received = Vec::new();
    assert_eq!(drain(&mut net, server, &mut received), None);
    assert_eq!(received, payload);
    check_socket(net.client.socket(client));
    check_socket(net.server.socket(server));
}

#[test]
fn what_holds_of_sockets_holds_through_an_exchange() {
    let mut net = Net::new();
    let (listener, client, server) = net.open();
    check_socket(net.server.socket(listener));
    let payload = vec![1u8; 9000];
    let mut cursor = 0;
    let mut received = Vec::new();
    let mut rounds = 0;
    while cursor < payload.len() && rounds < 100 {
        cursor += net.client_send(client, &payload[cursor..]);
        check_socket(net.client.socket(client));
        while !net.server.inbox.is_empty() || !net.client.inbox.is_empty() {
            if !net.server.inbox.is_empty() {
                net.deliver(false);
            } else {
                net.deliver(true);
            }
            check_socket(net.client.socket(client));
            check_socket(net.server.socket(server));
        }
        drain(&mut net, server, &mut received);
        net.now += 100 * MILLI;
        net.tick();
        check_socket(net.client.socket(client));
        check_socket(net.server.socket(server));
        // after a round of the timer nothing acknowledged is left in a queue
        for socket in [net.client.socket(client), net.server.socket(server)] {
            for entry in socket.retransmission_queue.iter() {
                assert!(seqnum::le(socket.send_param.unacked_seq, entry.packet.get_seq()));
            }
        }
        rounds += 1;
    }
    assert!(received.len() >= 4380);
    assert_eq!(&received[..], &payload[..received.len()]);
}

#[test]
fn buffer_holds_every_byte_once_at_the_place_of_its_sequence_number() {
    let mut net = Net::new();
    let (_, client, server) = net.open();
    let data: Vec<u8> = (0..3000u32).map(|i| (i % 253) as u8).collect();
    net.client_send(client, &data[..1000]);
    net.client_send(client, &data[1000..2000]);
    net.client_send(client, &data[2000..]);
    // the middle segment arrives last
    net.server.inbox.swap(1, 2);
    net.deliver(false);
    let mut buffer = [0u8; 600];
    assert_eq!(net.server.tcp.recv(server, &mut buffer), Ok(Some(600)));
    assert_eq!(&buffer[..], &data[..600]);
    net.deliver(false);
    {
        // 400 bytes wait; the late segment has left a gap of 1000 behind them
        let s = net.server.socket(server);
        assert_eq!(s.recv_param.window, 4380 - 400);
        assert_eq!(s.recv_param.next, CLIENT_ISS + 1001);
        assert_eq!(s.recv_param.tail, CLIENT_ISS + 3001);
        assert_eq!(&s.recv_buffer[..400], &data[600..1000]);
        assert_eq!(&s.recv_buffer[1400..2400], &data[2000..]);
    }
    net.deliver(false);
    {
        let s = net.server.socket(server);
        assert_eq!(s.recv_param.window, 4380 - 2400);
        assert_eq!(s.recv_param.next, CLIENT_ISS + 3001);
        assert_eq!(&s.recv_buffer[..2400], &data[600..]);
    }
    let mut received = data[..600].to_vec();
    assert_eq!(drain(&mut net, server, &mut received), None);
    assert_eq!(received, data);
    assert_eq!(net.server.socket(server).recv_param.window, 4380);
}

#[test]
fn event_slot_holds_the_last_event_until_it_is_taken() {
    let mut slot = toytcp::tcp::EventSlot::new();
    let id = client_id();
    assert!(!slot.take(id, TCPEventKind::Acked));
    slot.publish(TCPEvent::new(id, TCPEventKind::Acked));
    slot.publish(TCPEvent::new(id, TCPEventKind::DataArrived));
    assert!(!slot.take(id, TCPEventKind::Acked));
    assert!(!slot.take(server_id(), TCPEventKind::DataArrived));
    assert!(slot.take(id, TCPEventKind::DataArrived));
    assert!(!slot.take(id, TCPEventKind::DataArrived));
}

#[test]
fn clock_that_runs_backwards_times_nothing_out() {
    let mut net = Net::new();
    net.now = 10 * SECOND;
    let (_, client, _) = net.open();
    net.tick();
    net.client_send(client, b"data");
    net.server.inbox.clear();
    let before = net.wire.len();
    net.now = 3 * SECOND;
    net.tick();
    assert_eq!(net.wire.len(), before);
    let entry = &net.client.socket(client).retransmission_queue[0];
    assert_eq!(entry.transmission_count, 1);
    assert_eq!(entry.latest_transmission_time, 10 * SECOND);
}

#[test]
fn sample_taken_before_its_send_time_counts_as_zero() {
    let mut net = Net::new();
    net.now = 10 * SECOND;
    let (_, client, _) = net.open();
    net.client_send(client, b"data");
    net.now = 9 * SECOND;
    net.settle();
    let c = net.client.socket(client);
    assert!(c.sent_times.is_empty());
    assert_eq!(c.rto.get(), SECOND);
}

#[test]
fn data_and_fin_in_one_segment() {
    let mut net = Net::new();
    let (_, _, server) = net.open();
    let mut peer =
        Socket::new(LOCALHOST, LOCALHOST, CLIENT_PORT, SERVER_PORT, TcpStatus::Established);
    let last = peer.send_tcp_packet(
        CLIENT_ISS + 1,
        SERVER_ISS + 1,
        tcpflags::FIN | tcpflags::ACK,
        b"bye",
        0,
    );
    net.server.inbox.push_back(last.packet().to_vec());
    net.deliver(false);
    let s = net.server.socket(server);
    assert_eq!(s.status, TcpStatus::CloseWait);
    assert_eq!(s.recv_param.next, CLIENT_ISS + 5);
    assert_eq!(s.recv_param.window, 4380 - 3);
    let acks: Vec<u32> = net.wire.iter().rev().take(2).map(|(_, p)| p.get_ack()).collect();
    assert_eq!(acks, vec![CLIENT_ISS + 5, CLIENT_ISS + 4]);
    let mut buffer = [0u8; 8];
    assert_eq!(net.server.tcp.recv(server, &mut buffer), Ok(Some(3)));
    assert_eq!(&buffer[..3], b"bye");
    assert_eq!(net.server.tcp.recv(server, &mut buffer), Ok(Some(0)));
}

#[test]
fn half_closed_socket_takes_only_acknowledgments_of_what_it_sent() {
    let mut net = Net::new();
    let (_, client, server) = net.open();
    let (_, actions) = net.client.tcp.close(client, 0).unwrap();
    net.perform(true, actions);
    net.settle();
    assert_eq!(net.server.socket(server).status, TcpStatus::CloseWait);
    assert_eq!(net.server.tcp.send(server, b"reply", 0, 0).unwrap().0, 5);
    let next = net.server.socket(server).send_param.next;
    let unacked = net.server.socket(server).send_param.unacked_seq;
    assert_eq!(next, unacked + 5);
    let mut peer =
        Socket::new(LOCALHOST, LOCALHOST, CLIENT_PORT, SERVER_PORT, TcpStatus::FinWait2);
    for (ack, flag, expected) in [
        (next + 1, tcpflags::ACK, unacked),
        (unacked.wrapping_sub(1), tcpflags::ACK, unacked),
        (unacked + 2, 0, unacked),
        (unacked + 2, tcpflags::ACK, unacked + 2),
        (unacked + 1, tcpflags::ACK, unacked + 2),
        (next, tcpflags::ACK, next),
    ] {
        let packet = peer.send_tcp_packet(CLIENT_ISS + 2, ack, flag, &[], 0);
        let actions =
            net.server.tcp.receive_handler_with(LOCALHOST, LOCALHOST, packet.packet().to_vec(), 1, 0);
        assert!(actions.is_empty());
        assert_eq!(net.server.socket(server).send_param.unacked_seq, expected);
        check_socket(net.server.socket(server));
    }
    // the queue is left to the timer
    assert_eq!(net.server.socket(server).retransmission_queue.len(), 2);
    let actions = net.server.tcp.timer(0);
    assert_eq!(actions.len(), 2);
    assert!(net.server.socket(server).retransmission_queue.is_empty());
}

#[test]
fn unanswered_fin_in_last_ack_ends_the_connection() {
    let mut net = Net::new();
    let (_, client, server) = net.open();
    let (_, actions) = net.client.tcp.close(client, 0).unwrap();
    net.perform(true, actions);
    net.settle();
    net.tick();
    let (wait, _) = net.server.tcp.close(server, 0).unwrap();
    assert!(wait);
    assert_eq!(net.server.socket(server).status, TcpStatus::LastAck);
    let mut now = 0;
    while now <= 40 * SECOND && !net.server.saw(server, TCPEventKind::ConnectionClosed) {
        net.now = now;
        net.tick();
        net.client.inbox.clear();
        net.server.inbox.clear();
        now += 500 * MILLI;
    }
    assert!(net.server.saw(server, TCPEventKind::ConnectionClosed));
    assert_eq!(net.now, 31 * SECOND);
}
