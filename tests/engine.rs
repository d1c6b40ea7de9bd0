use what::connections::{
    build_ownership, connection_rows, current_connections, distinct_pids, find_name,
    lookup_names, no_peer, owner_name, shown_owner_of, OpenSocket, OsQueries, ProcessName,
    UNKNOWN_PROCESS,
};
use what::session::{
    capture_frame, is_quit, render_tick, InputEvent, Phase, RenderAction, RenderUnit, Session,
};
use what::store::{ConnectionKey, NetworkUtilization, UtilizationRecord};
use what::traffic::{parse_frame, Direction, InterfaceIdentity, IpAddress, Protocol, Segment, Socket};

fn v4(a: u8, b: u8, c: u8, d: u8) -> IpAddress {
    IpAddress::V4(u32::from_be_bytes([a, b, c, d]))
}

fn sock(ip: IpAddress, port: u16) -> Socket {
    Socket { ip, port }
}

fn local() -> Socket {
    sock(v4(10, 0, 0, 2), 51000)
}

fn remote() -> Socket {
    sock(v4(10, 0, 0, 5), 443)
}

fn seg(direction: Direction, byte_length: u64) -> Segment {
    Segment {
        protocol: Protocol::Tcp,
        local_socket: local(),
        remote_socket: remote(),
        direction,
        byte_length,
    }
}

fn key() -> ConnectionKey {
    ConnectionKey::new(Protocol::Tcp, local(), remote())
}

fn record(down: u64, up: u64) -> UtilizationRecord {
    UtilizationRecord { bytes_downloaded: down, bytes_uploaded: up }
}

/// Ethernet II + IPv4 (20-byte header) + a transport header of `transport_len` bytes.
fn ipv4_frame(src: [u8; 4], dst: [u8; 4], proto: u8, sport: u16, dport: u16, transport_len: usize) -> Vec<u8> {
    let mut f = vec![0u8; 12];
    f.extend_from_slice(&[0x08, 0x00]);
    let mut ip = vec![0u8; 20];
    ip[0] = 0x45;
    ip[2..4].copy_from_slice(&((20 + transport_len) as u16).to_be_bytes());
    ip[9] = proto;
    ip[12..16].copy_from_slice(&src);
    ip[16..20].copy_from_slice(&dst);
    f.extend_from_slice(&ip);
    let mut t = vec![0u8; transport_len];
    if transport_len >= 4 {
        t[0..2].copy_from_slice(&sport.to_be_bytes());
        t[2..4].copy_from_slice(&dport.to_be_bytes());
    }
    f.extend_from_slice(&t);
    f
}

fn arp_frame() -> Vec<u8> {
    let mut f = vec![0xffu8; 12];
    f.extend_from_slice(&[0x08, 0x06]);
    f.extend_from_slice(&[0u8; 28]);
    f
}

fn open_socket(pid: i32) -> OpenSocket {
    OpenSocket { protocol: Protocol::Tcp, local_socket: local(), remote_socket: remote(), owner_pid: pid }
}

#[test]
fn basic_accounting() {
    let mut store = NetworkUtilization::new();
    store.update(&seg(Direction::Incoming, 1000));
    store.update(&seg(Direction::Outgoing, 500));
    assert_eq!(store.get(&key()), Some(record(1000, 500)));
    assert_eq!(store.len(), 1);
}

#[test]
fn ownership_join() {
    let sockets = vec![open_socket(1234)];
    let lookups = vec![ProcessName { pid: 1234, name: Some("curl".to_string()) }];
    let owners = build_ownership(&sockets, &lookups);
    assert_eq!(owners.get(&key()), Some("curl".to_string()));
    let mut store = NetworkUtilization::new();
    store.update(&seg(Direction::Incoming, 1000));
    store.update(&seg(Direction::Outgoing, 500));
    let rows = connection_rows(&store, &owners);
    assert_eq!(rows.len(), 1);
    assert_eq!(rows[0].key, key());
    assert_eq!(rows[0].record, record(1000, 500));
    assert_eq!(rows[0].process, "curl");
}

#[test]
fn unresolved_owner() {
    let sockets = vec![open_socket(1234)];
    let lookups = vec![ProcessName { pid: 1234, name: None }];
    let owners = build_ownership(&sockets, &lookups);
    assert_eq!(owners.get(&key()), Some(UNKNOWN_PROCESS.to_string()));
    assert_eq!(UNKNOWN_PROCESS, "<UNKNOWN>");
    let mut store = NetworkUtilization::new();
    store.update(&seg(Direction::Incoming, 1000));
    let rows = render_tick(&mut store, &owners);
    assert_eq!(rows.len(), 1);
    assert_eq!(rows[0].process, "<UNKNOWN>");
    assert_eq!(rows[0].record, record(1000, 0));
}

#[test]
fn shutdown() {
    let mut session = Session::new();
    let mut render = RenderUnit::new();
    assert_eq!(render.next_action(session.is_running()), RenderAction::SetUpTerminal);
    assert_eq!(render.next_action(session.is_running()), RenderAction::Tick);
    assert!(!session.on_input(&InputEvent::Char('x')));
    assert!(!session.on_input(&InputEvent::Other));
    assert!(session.is_running());
    assert!(session.on_input(&InputEvent::Char('q')));
    assert_eq!(session.phase(), Phase::ShuttingDown);
    assert!(!session.is_running());
    assert!(!render.restored);
    assert_eq!(render.next_action(session.is_running()), RenderAction::RestoreTerminal);
    assert!(render.restored);
    assert_eq!(render.next_action(session.is_running()), RenderAction::Exit);
    assert_eq!(render.next_action(session.is_running()), RenderAction::Exit);
    session.on_unit_joined();
    session.on_unit_joined();
    assert_eq!(session.phase(), Phase::ShuttingDown);
    session.on_unit_joined();
    assert_eq!(session.phase(), Phase::Stopped);
    assert_eq!(session.joined(), 3);
}

#[test]
fn ctrl_c_quits_and_other_keys_do_not() {
    assert!(is_quit(&InputEvent::Ctrl('c')));
    assert!(is_quit(&InputEvent::Char('q')));
    assert!(!is_quit(&InputEvent::Ctrl('q')));
    assert!(!is_quit(&InputEvent::Char('c')));
    let mut session = Session::new();
    assert!(session.on_input(&InputEvent::Ctrl('c')));
    assert_eq!(session.phase(), Phase::ShuttingDown);
}

#[test]
fn accumulation_order_does_not_matter() {
    let segs = vec![
        seg(Direction::Incoming, 10),
        seg(Direction::Outgoing, 7),
        seg(Direction::Incoming, 300),
        seg(Direction::Outgoing, 1),
    ];
    let mut a = NetworkUtilization::new();
    for s in &segs {
        a.update(s);
    }
    let mut b = NetworkUtilization::new();
    for s in segs.iter().rev() {
        b.update(s);
    }
    assert_eq!(a.get(&key()), Some(record(310, 8)));
    assert_eq!(a.get(&key()), b.get(&key()));
}

#[test]
fn reset_empties_the_store() {
    let mut store = NetworkUtilization::new();
    store.update(&seg(Direction::Incoming, 1000));
    let snapshot = store.snapshot_and_reset();
    assert_eq!(snapshot.get(&key()), Some(record(1000, 0)));
    assert_eq!(store.len(), 0);
    assert_eq!(store.get(&key()), None);
    store.update(&seg(Direction::Outgoing, 5));
    assert_eq!(store.get(&key()), Some(record(0, 5)));
}

#[test]
fn each_update_counted_once_across_the_cut() {
    let mut store = NetworkUtilization::new();
    store.update(&seg(Direction::Incoming, 100));
    store.update(&seg(Direction::Outgoing, 20));
    let snapshot = store.snapshot_and_reset();
    store.update(&seg(Direction::Incoming, 3));
    let before = snapshot.get(&key()).unwrap();
    let after = store.get(&key()).unwrap();
    assert_eq!(before, record(100, 20));
    assert_eq!(after, record(3, 0));
    assert_eq!(before.bytes_downloaded + after.bytes_downloaded, 103);
    assert_eq!(before.bytes_uploaded + after.bytes_uploaded, 20);
}

#[test]
fn counters_stop_at_the_maximum() {
    let mut store = NetworkUtilization::new();
    store.update(&seg(Direction::Incoming, u64::MAX - 1));
    store.update(&seg(Direction::Incoming, 5));
    assert_eq!(store.get(&key()), Some(record(u64::MAX, 0)));
}

#[test]
fn key_ignores_which_endpoint_is_local() {
    assert_eq!(
        ConnectionKey::new(Protocol::Tcp, local(), remote()),
        ConnectionKey::new(Protocol::Tcp, remote(), local())
    );
    assert_ne!(
        ConnectionKey::new(Protocol::Tcp, local(), remote()),
        ConnectionKey::new(Protocol::Udp, local(), remote())
    );
    let peer = OpenSocket { protocol: Protocol::Tcp, local_socket: remote(), remote_socket: local(), owner_pid: 1 };
    let owners = build_ownership(&vec![peer], &vec![]);
    assert_eq!(owners.get(&ConnectionKey::of_segment(&seg(Direction::Outgoing, 1))), Some("<UNKNOWN>".to_string()));
}

#[test]
fn arp_frame_yields_nothing_and_leaves_store_alone() {
    let addresses = vec![v4(10, 0, 0, 2)];
    assert_eq!(parse_frame(&arp_frame(), &addresses), None);
    let mut store = NetworkUtilization::new();
    store.update(&seg(Direction::Incoming, 9));
    let interface = InterfaceIdentity { name: "eth0".to_string(), addresses };
    assert!(!capture_frame(&mut store, &arp_frame(), &interface));
    assert_eq!(store.len(), 1);
    assert_eq!(store.get(&key()), Some(record(9, 0)));
}

#[test]
fn outgoing_tcp_frame_is_parsed() {
    let addresses = vec![v4(10, 0, 0, 2)];
    let frame = ipv4_frame([10, 0, 0, 2], [10, 0, 0, 5], 6, 51000, 443, 32);
    let s = parse_frame(&frame, &addresses).unwrap();
    assert_eq!(s.protocol, Protocol::Tcp);
    assert_eq!(s.direction, Direction::Outgoing);
    assert_eq!(s.local_socket, local());
    assert_eq!(s.remote_socket, remote());
    assert_eq!(s.byte_length, 32);
}

#[test]
fn incoming_udp_frame_is_parsed() {
    let addresses = vec![v4(10, 0, 0, 2)];
    let frame = ipv4_frame([8, 8, 8, 8], [10, 0, 0, 2], 17, 53, 40000, 8);
    let s = parse_frame(&frame, &addresses).unwrap();
    assert_eq!(s.protocol, Protocol::Udp);
    assert_eq!(s.direction, Direction::Incoming);
    assert_eq!(s.local_socket, sock(v4(10, 0, 0, 2), 40000));
    assert_eq!(s.remote_socket, sock(v4(8, 8, 8, 8), 53));
    assert_eq!(s.byte_length, 8);
}

#[test]
fn transit_frame_counts_as_incoming() {
    let addresses = vec![v4(10, 0, 0, 2)];
    let frame = ipv4_frame([1, 2, 3, 4], [5, 6, 7, 8], 6, 1, 2, 20);
    let s = parse_frame(&frame, &addresses).unwrap();
    assert_eq!(s.direction, Direction::Incoming);
    assert_eq!(s.local_socket, sock(v4(5, 6, 7, 8), 2));
}

#[test]
fn ipv6_tcp_frame_is_parsed() {
    let mut f = vec![0u8; 12];
    f.extend_from_slice(&[0x86, 0xdd]);
    let mut ip = vec![0u8; 40];
    ip[0] = 0x60;
    ip[4..6].copy_from_slice(&24u16.to_be_bytes());
    ip[6] = 6;
    let src: [u8; 16] = [0x20, 0x01, 0x0d, 0xb8, 0, 0, 0, 0, 0, 0, 0, 0, 0, 0, 0, 1];
    let dst: [u8; 16] = [0x20, 0x01, 0x0d, 0xb8, 0, 0, 0, 0, 0, 0, 0, 0, 0, 0, 0, 2];
    ip[8..24].copy_from_slice(&src);
    ip[24..40].copy_from_slice(&dst);
    f.extend_from_slice(&ip);
    let mut t = vec![0u8; 24];
    t[0..2].copy_from_slice(&443u16.to_be_bytes());
    t[2..4].copy_from_slice(&50000u16.to_be_bytes());
    f.extend_from_slice(&t);
    let me = IpAddress::V6(0x2001_0db8_0000_0000, 2);
    let s = parse_frame(&f, &vec![me]).unwrap();
    assert_eq!(s.direction, Direction::Incoming);
    assert_eq!(s.local_socket, sock(me, 50000));
    assert_eq!(s.remote_socket, sock(IpAddress::V6(0x2001_0db8_0000_0000, 1), 443));
    assert_eq!(s.byte_length, 24);
}

#[test]
fn short_or_foreign_frames_yield_nothing() {
    let addresses = vec![v4(10, 0, 0, 2)];
    assert_eq!(parse_frame(&vec![], &addresses), None);
    assert_eq!(parse_frame(&vec![0u8; 13], &addresses), None);
    let icmp = ipv4_frame([10, 0, 0, 2], [10, 0, 0, 5], 1, 0, 0, 20);
    assert_eq!(parse_frame(&icmp, &addresses), None);
    let short_tcp = ipv4_frame([10, 0, 0, 2], [10, 0, 0, 5], 6, 1, 2, 19);
    assert_eq!(parse_frame(&short_tcp, &addresses), None);
    let short_udp = ipv4_frame([10, 0, 0, 2], [10, 0, 0, 5], 17, 1, 2, 7);
    assert_eq!(parse_frame(&short_udp, &addresses), None);
}

#[test]
fn capture_counts_a_parsed_frame() {
    let interface = InterfaceIdentity { name: "eth0".to_string(), addresses: vec![v4(10, 0, 0, 2)] };
    let mut store = NetworkUtilization::new();
    let frame = ipv4_frame([10, 0, 0, 5], [10, 0, 0, 2], 6, 443, 51000, 40);
    assert!(capture_frame(&mut store, &frame, &interface));
    assert!(capture_frame(&mut store, &frame, &interface));
    assert_eq!(store.get(&key()), Some(record(80, 0)));
}

#[test]
fn pids_are_listed_once() {
    let sockets = vec![open_socket(7), open_socket(3), open_socket(7)];
    let pids = distinct_pids(&sockets);
    assert_eq!(pids, vec![7, 3]);
}

#[test]
fn first_lookup_of_a_pid_names_it() {
    let lookups = vec![
        ProcessName { pid: 1, name: Some("a".to_string()) },
        ProcessName { pid: 2, name: Some("b".to_string()) },
        ProcessName { pid: 1, name: Some("c".to_string()) },
    ];
    assert_eq!(find_name(&lookups, 1), Some("a".to_string()));
    assert_eq!(find_name(&lookups, 2), Some("b".to_string()));
    assert_eq!(find_name(&lookups, 3), None);
    assert_eq!(owner_name(&lookups, 3), "<UNKNOWN>");
}

#[test]
fn tick_drains_the_store() {
    let mut store = NetworkUtilization::new();
    store.update(&seg(Direction::Outgoing, 42));
    let sockets = vec![open_socket(9)];
    let lookups = vec![ProcessName { pid: 9, name: Some("ssh".to_string()) }];
    let owners = build_ownership(&sockets, &lookups);
    let rows = render_tick(&mut store, &owners);
    assert_eq!(rows.len(), 1);
    assert_eq!(rows[0].process, "ssh");
    assert_eq!(rows[0].record, record(0, 42));
    assert_eq!(store.len(), 0);
    assert_eq!(render_tick(&mut store, &owners).len(), 0);
}

struct Fixture {
    sockets: Vec<OpenSocket>,
    asked: Vec<i32>,
}

impl OsQueries for Fixture {
    fn open_sockets(&mut self) -> Vec<OpenSocket> {
        self.sockets.clone()
    }

    fn process_name(&mut self, pid: i32) -> Option<String> {
        self.asked.push(pid);
        if pid == 1234 {
            Some("curl".to_string())
        } else {
            None
        }
    }
}

#[test]
fn correlation_asks_each_pid_once() {
    let other = OpenSocket {
        protocol: Protocol::Udp,
        local_socket: sock(v4(10, 0, 0, 2), 53),
        remote_socket: sock(v4(0, 0, 0, 0), 0),
        owner_pid: 77,
    };
    let mut os = Fixture { sockets: vec![open_socket(1234), other, open_socket(1234)], asked: vec![] };
    let (owners, sockets, lookups) = current_connections(&mut os);
    assert_eq!(os.asked, vec![1234, 77]);
    assert_eq!(sockets.len(), 3);
    assert_eq!(lookups.len(), 2);
    assert_eq!(owners.get(&key()), Some("curl".to_string()));
    let other_key = ConnectionKey::new(Protocol::Udp, other.local_socket, other.remote_socket);
    assert_eq!(owners.get(&other_key), Some("<UNKNOWN>".to_string()));
}

#[test]
fn names_are_looked_up_in_order() {
    let mut os = Fixture { sockets: vec![], asked: vec![] };
    let names = lookup_names(&mut os, &vec![5, 1234]);
    assert_eq!(names.len(), 2);
    assert_eq!(names[0].pid, 5);
    assert_eq!(names[0].name, None);
    assert_eq!(names[1].pid, 1234);
    assert_eq!(names[1].name, Some("curl".to_string()));
}

#[test]
fn ethernet_padding_is_not_counted() {
    let addresses = vec![v4(10, 0, 0, 2)];
    // A pure acknowledgement: 14 + 20 + 20 bytes, padded to the 60-byte minimum.
    let mut frame = ipv4_frame([10, 0, 0, 5], [10, 0, 0, 2], 6, 443, 51000, 20);
    frame.extend_from_slice(&[0u8; 6]);
    assert_eq!(frame.len(), 60);
    let s = parse_frame(&frame, &addresses).unwrap();
    assert_eq!(s.byte_length, 20);
    let mut udp = ipv4_frame([10, 0, 0, 5], [10, 0, 0, 2], 17, 53, 40000, 12);
    udp.extend_from_slice(&[0xaa; 14]);
    assert_eq!(parse_frame(&udp, &addresses).unwrap().byte_length, 12);
}

#[test]
fn ipv6_padding_is_not_counted() {
    let mut f = vec![0u8; 12];
    f.extend_from_slice(&[0x86, 0xdd]);
    let mut ip = vec![0u8; 40];
    ip[0] = 0x60;
    ip[4..6].copy_from_slice(&8u16.to_be_bytes());
    ip[6] = 17;
    f.extend_from_slice(&ip);
    f.extend_from_slice(&[0, 53, 0x9c, 0x40, 0, 8, 0, 0]);
    f.extend_from_slice(&[0u8; 4]);
    let s = parse_frame(&f, &vec![]).unwrap();
    assert_eq!(s.protocol, Protocol::Udp);
    assert_eq!(s.byte_length, 8);
}

#[test]
fn length_fields_that_cut_the_transport_header_yield_nothing() {
    let addresses = vec![v4(10, 0, 0, 2)];
    let mut frame = ipv4_frame([10, 0, 0, 5], [10, 0, 0, 2], 6, 443, 51000, 20);
    // Total length 30: only 10 bytes of TCP header inside the packet.
    frame[16..18].copy_from_slice(&30u16.to_be_bytes());
    assert_eq!(parse_frame(&frame, &addresses), None);
    // Total length shorter than the IP header itself.
    frame[16..18].copy_from_slice(&10u16.to_be_bytes());
    assert_eq!(parse_frame(&frame, &addresses), None);
    // A total length beyond the frame is cut to the frame.
    frame[16..18].copy_from_slice(&1000u16.to_be_bytes());
    assert_eq!(parse_frame(&frame, &addresses).unwrap().byte_length, 20);
}

#[test]
fn terminal_failure_restores_once_and_stops_the_session() {
    let mut session = Session::new();
    let mut render = RenderUnit::new();
    assert_eq!(render.next_action(session.is_running()), RenderAction::SetUpTerminal);
    assert_eq!(render.next_action(session.is_running()), RenderAction::Tick);
    session.on_fatal_failure();
    assert_eq!(session.phase(), Phase::ShuttingDown);
    assert!(!session.is_running());
    assert_eq!(render.on_failure(), RenderAction::RestoreTerminal);
    assert_eq!(render.on_failure(), RenderAction::Exit);
    assert_eq!(render.next_action(session.is_running()), RenderAction::Exit);
    session.on_fatal_failure();
    assert_eq!(session.phase(), Phase::ShuttingDown);
    assert_eq!(session.joined(), 0);
}

#[test]
fn failure_after_restore_does_not_restore_again() {
    let mut render = RenderUnit::new();
    assert_eq!(render.next_action(true), RenderAction::SetUpTerminal);
    assert_eq!(render.next_action(false), RenderAction::RestoreTerminal);
    assert_eq!(render.on_failure(), RenderAction::Exit);
}

#[test]
fn udp_socket_without_peer_owns_its_flows() {
    let bound = sock(v4(10, 0, 0, 2), 53);
    let wildcard = sock(v4(0, 0, 0, 0), 40000);
    assert_eq!(no_peer(&bound), sock(v4(0, 0, 0, 0), 0));
    assert_eq!(no_peer(&sock(IpAddress::V6(1, 2), 9)), sock(IpAddress::V6(0, 0), 0));
    let sockets = vec![
        OpenSocket { protocol: Protocol::Udp, local_socket: bound, remote_socket: no_peer(&bound), owner_pid: 1 },
        OpenSocket { protocol: Protocol::Udp, local_socket: wildcard, remote_socket: no_peer(&wildcard), owner_pid: 2 },
    ];
    let lookups = vec![
        ProcessName { pid: 1, name: Some("dnsd".to_string()) },
        ProcessName { pid: 2, name: Some("game".to_string()) },
    ];
    let owners = build_ownership(&sockets, &lookups);
    let dns = ConnectionKey::new(Protocol::Udp, bound, sock(v4(8, 8, 8, 8), 53));
    assert_eq!(shown_owner_of(&owners, &dns), "dnsd");
    let game = ConnectionKey::new(Protocol::Udp, sock(v4(10, 0, 0, 2), 40000), sock(v4(1, 1, 1, 1), 7777));
    assert_eq!(shown_owner_of(&owners, &game), "game");
    let tcp = ConnectionKey::new(Protocol::Tcp, bound, sock(v4(8, 8, 8, 8), 53));
    assert_eq!(shown_owner_of(&owners, &tcp), "<UNKNOWN>");
    let other = ConnectionKey::new(Protocol::Udp, sock(v4(10, 0, 0, 2), 54), sock(v4(8, 8, 8, 8), 53));
    assert_eq!(shown_owner_of(&owners, &other), "<UNKNOWN>");
    let mut store = NetworkUtilization::new();
    store.update(&Segment {
        protocol: Protocol::Udp,
        local_socket: bound,
        remote_socket: sock(v4(8, 8, 8, 8), 53),
        direction: Direction::Incoming,
        byte_length: 64,
    });
    let rows = render_tick(&mut store, &owners);
    assert_eq!(rows.len(), 1);
    assert_eq!(rows[0].process, "dnsd");
}

#[test]
fn exact_owner_comes_before_a_peerless_one() {
    let bound = sock(v4(10, 0, 0, 2), 51000);
    let sockets = vec![
        OpenSocket { protocol: Protocol::Tcp, local_socket: bound, remote_socket: no_peer(&bound), owner_pid: 1 },
        open_socket(1234),
    ];
    let lookups = vec![
        ProcessName { pid: 1, name: Some("listener".to_string()) },
        ProcessName { pid: 1234, name: Some("curl".to_string()) },
    ];
    let owners = build_ownership(&sockets, &lookups);
    assert_eq!(shown_owner_of(&owners, &key()), "curl");
}
