use porture::addr::{IpAddress, SocketAddress};
use porture::config::UdpRule;
use porture::udp_forwarder::{
    expired, DispatchAction, DispatchEvent, RelayAction, RelayEvent, SessionTable, UdpForwarder,
    NANOS_PER_SEC, RELAY_WAIT_SECS, SWEEP_INTERVAL_SECS,
};

const SEC: u128 = 1_000_000_000;

fn client(last: u32, port: u16) -> SocketAddress {
    SocketAddress::new(IpAddress::V4(0x0a00_0000 + last), port)
}

fn bits(ip: IpAddress) -> u128 {
    match ip {
        IpAddress::V4(bits) => bits as u128,
        IpAddress::V6(bits) => bits,
    }
}

fn sorted(mut clients: Vec<SocketAddress>) -> Vec<SocketAddress> {
    clients.sort_by_key(|c| (bits(c.ip()), c.port()));
    clients
}

/// Handles one datagram as the forwarder does: sends through the client's
/// socket, opening one (numbered from `next_socket`) where it has none.
/// Returns the socket used, the session's number and whether a relay was
/// started.
fn handle_datagram(
    table: &mut SessionTable<u16>,
    c: SocketAddress,
    now: u128,
    next_socket: &mut u16,
) -> (u16, u64, bool) {
    let known = match table.dispatch_step(&c, DispatchEvent::Datagram, now) {
        DispatchAction::Forward { socket, id } => Some((*socket, id)),
        DispatchAction::OpenSocket => None,
        other => panic!("unexpected action {:?}", other),
    };
    match known {
        Some((socket, id)) => (socket, id, false),
        None => {
            let opened = *next_socket;
            *next_socket += 1;
            match table.dispatch_step(&c, DispatchEvent::SocketOpened(opened), now) {
                DispatchAction::Relay { socket, id } => (*socket, id, true),
                other => panic!("unexpected action {:?}", other),
            }
        }
    }
}

#[test]
fn udp_constants() {
    assert_eq!(SWEEP_INTERVAL_SECS, 30);
    assert_eq!(RELAY_WAIT_SECS, 60);
    assert_eq!(NANOS_PER_SEC, 1_000_000_000);
}

#[test]
fn udp_forwarder_keeps_rule_and_buffer_size() {
    let rule = UdpRule {
        bind_addr: "127.0.0.1".to_string(),
        bind_port: 5353,
        target_addr: "8.8.8.8".to_string(),
        target_port: 53,
        name: None,
        timeout: Some(45),
    };
    let forwarder = UdpForwarder::new(rule, 4096);
    assert_eq!(forwarder.buffer_size(), 4096);
    assert_eq!(forwarder.rule().bind_port, 5353);
    assert_eq!(forwarder.rule().target_addr, "8.8.8.8");
    assert_eq!(forwarder.rule().timeout_seconds(), 45);
}

#[test]
fn expiry_is_strictly_after_the_timeout() {
    assert!(!expired(0, 30 * SEC, 30));
    assert!(expired(0, 30 * SEC + 1, 30));
    assert!(!expired(5 * SEC, 35 * SEC, 30));
    assert!(expired(5 * SEC, 35 * SEC + 1, 30));
    assert!(!expired(10, 10, 0));
    assert!(expired(10, 11, 0));
}

#[test]
fn activity_after_now_is_not_idle() {
    assert!(!expired(100 * SEC, 50 * SEC, 30));
    assert!(!expired(1, 0, 0));
}

#[test]
fn expiry_with_the_largest_timeout() {
    assert!(!expired(0, u128::from(u64::MAX) * SEC, u64::MAX));
    assert!(expired(0, u128::from(u64::MAX) * SEC + 1, u64::MAX));
    assert!(!expired(0, u64::MAX as u128, u64::MAX));
}

#[test]
fn new_table_is_empty() {
    let table: SessionTable<u16> = SessionTable::new();
    assert_eq!(table.len(), 0);
    assert_eq!(table.next_id(), 0);
    assert!(!table.contains_key(&client(1, 1000)));
    assert!(table.get(&client(1, 1000)).is_none());
    assert!(!table.is_session(&client(1, 1000), 0));
    assert!(table.expired_clients(u128::MAX, 0).is_empty());
}

#[test]
fn insert_opens_a_numbered_session() {
    let mut table: SessionTable<u16> = SessionTable::new();
    assert_eq!(table.insert(client(1, 1000), 40001, 5 * SEC), Some(0));
    assert_eq!(table.len(), 1);
    assert_eq!(table.next_id(), 1);
    assert!(table.contains_key(&client(1, 1000)));
    assert!(!table.contains_key(&client(1, 1001)));
    assert!(!table.contains_key(&client(2, 1000)));
    let session = table.get(&client(1, 1000)).expect("session");
    assert_eq!(session.id, 0);
    assert_eq!(session.target_socket, 40001);
    assert_eq!(session.last_activity, 5 * SEC);
    assert!(table.is_session(&client(1, 1000), 0));
    assert!(!table.is_session(&client(1, 1000), 1));
    assert!(!table.is_session(&client(2, 1000), 0));
}

#[test]
fn sessions_are_numbered_one_after_the_other() {
    let mut table: SessionTable<u16> = SessionTable::new();
    for n in 0..10u32 {
        assert_eq!(table.insert(client(n, 1000), 40000 + n as u16, 0), Some(n as u64));
    }
    assert_eq!(table.next_id(), 10);
    table.remove(&client(3, 1000));
    table.refresh(&client(4, 1000), 9);
    table.remove_all(&vec![client(5, 1000)]);
    table.sweep(100 * SEC, 30);
    assert_eq!(table.len(), 0);
    assert_eq!(table.next_id(), 10);
    assert_eq!(table.insert(client(3, 1000), 1, 0), Some(10));
}

#[test]
fn insert_replaces_the_session_of_the_same_client() {
    let mut table: SessionTable<u16> = SessionTable::new();
    assert_eq!(table.insert(client(1, 1000), 40001, 5), Some(0));
    assert_eq!(table.insert(client(2, 1000), 40002, 6), Some(1));
    assert_eq!(table.insert(client(1, 1000), 40003, 7), Some(2));
    assert_eq!(table.len(), 2);
    let session = table.get(&client(1, 1000)).expect("session");
    assert_eq!(session.id, 2);
    assert_eq!(session.target_socket, 40003);
    assert_eq!(session.last_activity, 7);
    let other = table.get(&client(2, 1000)).expect("other");
    assert_eq!(other.id, 1);
    assert_eq!(other.target_socket, 40002);
}

#[test]
fn clients_differ_by_address_port_and_family() {
    let mut table: SessionTable<u16> = SessionTable::new();
    let v4 = SocketAddress::new(IpAddress::V4(1), 9);
    let v6 = SocketAddress::new(IpAddress::V6(1), 9);
    let scoped = SocketAddress::V6 { ip: 1, port: 9, flowinfo: 0, scope_id: 3 };
    table.insert(v4, 1, 0);
    table.insert(v6, 2, 0);
    table.insert(scoped, 3, 0);
    assert_eq!(table.len(), 3);
    assert_eq!(table.get(&v4).expect("v4").target_socket, 1);
    assert_eq!(table.get(&v6).expect("v6").target_socket, 2);
    assert_eq!(table.get(&scoped).expect("scoped").target_socket, 3);
}

#[test]
fn refresh_marks_activity_and_hands_out_the_session() {
    let mut table: SessionTable<u16> = SessionTable::new();
    table.insert(client(1, 1000), 40001, 5);
    table.insert(client(2, 1000), 40002, 6);
    {
        let refreshed = table.refresh(&client(1, 1000), 9).expect("session");
        assert_eq!(refreshed.id, 0);
        assert_eq!(refreshed.target_socket, 40001);
        assert_eq!(refreshed.last_activity, 9);
    }
    assert_eq!(table.len(), 2);
    let session = table.get(&client(1, 1000)).expect("session");
    assert_eq!(session.id, 0);
    assert_eq!(session.target_socket, 40001);
    assert_eq!(session.last_activity, 9);
    let other = table.get(&client(2, 1000)).expect("other");
    assert_eq!(other.id, 1);
    assert_eq!(other.target_socket, 40002);
    assert_eq!(other.last_activity, 6);
}

#[test]
fn refresh_of_an_unknown_client_changes_nothing() {
    let mut table: SessionTable<u16> = SessionTable::new();
    table.insert(client(1, 1000), 40001, 5);
    assert!(table.refresh(&client(3, 1000), 9).is_none());
    assert_eq!(table.len(), 1);
    assert!(!table.contains_key(&client(3, 1000)));
    assert_eq!(table.get(&client(1, 1000)).expect("session").last_activity, 5);
}

#[test]
fn remove_ends_a_session_and_is_idempotent() {
    let mut table: SessionTable<u16> = SessionTable::new();
    table.insert(client(1, 1000), 40001, 5);
    table.insert(client(2, 1000), 40002, 6);
    table.insert(client(3, 1000), 40003, 7);
    let removed = table.remove(&client(2, 1000)).expect("removed");
    assert_eq!(removed.id, 1);
    assert_eq!(removed.target_socket, 40002);
    assert_eq!(removed.last_activity, 6);
    assert_eq!(table.len(), 2);
    assert!(!table.contains_key(&client(2, 1000)));
    assert!(table.remove(&client(2, 1000)).is_none());
    assert_eq!(table.len(), 2);
    assert_eq!(table.get(&client(1, 1000)).expect("first").target_socket, 40001);
    assert_eq!(table.get(&client(3, 1000)).expect("third").target_socket, 40003);
}

#[test]
fn end_session_ends_only_the_session_of_that_number() {
    let mut table: SessionTable<u16> = SessionTable::new();
    let c = client(1, 1000);
    assert_eq!(table.insert(c, 40001, 5), Some(0));
    assert_eq!(table.insert(client(2, 1000), 40002, 6), Some(1));
    assert!(table.end_session(&c, 1).is_none());
    assert!(table.end_session(&c, 7).is_none());
    assert_eq!(table.len(), 2);
    let ended = table.end_session(&c, 0).expect("own session");
    assert_eq!(ended.target_socket, 40001);
    assert!(table.end_session(&c, 0).is_none());
    assert_eq!(table.len(), 1);
    assert_eq!(table.insert(c, 40003, 8), Some(2));
    assert!(table.end_session(&c, 0).is_none());
    assert_eq!(table.get(&c).expect("later session").target_socket, 40003);
}

#[test]
fn expired_clients_are_exactly_the_idle_ones() {
    let mut table: SessionTable<u16> = SessionTable::new();
    table.insert(client(1, 1000), 1, 0);
    table.insert(client(2, 1000), 2, 10 * SEC);
    table.insert(client(3, 1000), 3, 20 * SEC);
    table.insert(client(4, 1000), 4, 0);
    table.insert(client(5, 1000), 5, 1);
    let idle = table.expired_clients(30 * SEC, 30);
    assert!(idle.is_empty());
    let idle = sorted(table.expired_clients(30 * SEC + 1, 30));
    assert_eq!(idle, vec![client(1, 1000), client(4, 1000)]);
    let idle = table.expired_clients(41 * SEC, 30);
    assert_eq!(idle.len(), 4);
    assert!(!idle.contains(&client(3, 1000)));
    assert_eq!(table.len(), 5);
}

#[test]
fn remove_all_passes_over_unknown_clients() {
    let mut table: SessionTable<u16> = SessionTable::new();
    table.insert(client(1, 1000), 1, 0);
    table.insert(client(2, 1000), 2, 0);
    table.insert(client(3, 1000), 3, 0);
    table.remove_all(&vec![client(3, 1000), client(9, 1000), client(1, 1000), client(3, 1000)]);
    assert_eq!(table.len(), 1);
    assert!(table.contains_key(&client(2, 1000)));
    table.remove_all(&Vec::new());
    assert_eq!(table.len(), 1);
}

#[test]
fn sweep_removes_idle_sessions_and_keeps_the_rest() {
    let mut table: SessionTable<u16> = SessionTable::new();
    table.insert(client(1, 1000), 40001, 0);
    table.insert(client(2, 1000), 40002, 25 * SEC);
    assert!(table.sweep(30 * SEC, 30).is_empty());
    assert_eq!(table.len(), 2);
    assert_eq!(table.sweep(31 * SEC, 30), vec![client(1, 1000)]);
    assert!(!table.contains_key(&client(1, 1000)));
    let kept = table.get(&client(2, 1000)).expect("kept");
    assert_eq!(kept.id, 1);
    assert_eq!(kept.target_socket, 40002);
    assert_eq!(kept.last_activity, 25 * SEC);
    assert!(table.sweep(31 * SEC, 30).is_empty());
}

#[test]
fn sweep_spares_a_session_that_was_active_after_the_scan() {
    let mut table: SessionTable<u16> = SessionTable::new();
    let c = client(1, 1000);
    table.insert(c, 40001, 0);
    let scanned_at = 31 * SEC;
    assert_eq!(table.expired_clients(scanned_at, 30), vec![c]);
    assert!(table.refresh(&c, 32 * SEC).is_some());
    assert!(table.sweep(scanned_at, 30).is_empty());
    assert_eq!(table.get(&c).expect("session").target_socket, 40001);
}

#[test]
fn datagrams_within_the_idle_window_use_the_same_socket() {
    let mut table: SessionTable<u16> = SessionTable::new();
    let c = client(7, 5000);
    let mut next_socket = 40001;
    assert_eq!(handle_datagram(&mut table, c, 0, &mut next_socket), (40001, 0, true));
    for tick in 1..=10u128 {
        let now = tick * 30 * SEC;
        assert!(table.sweep(now, 30).is_empty());
        assert_eq!(handle_datagram(&mut table, c, now, &mut next_socket), (40001, 0, false));
    }
    assert_eq!(table.len(), 1);
}

#[test]
fn idle_client_gets_a_fresh_session_after_the_sweep() {
    let mut table: SessionTable<u16> = SessionTable::new();
    let c = client(7, 5000);
    let mut next_socket = 40001;
    assert_eq!(handle_datagram(&mut table, c, 0, &mut next_socket), (40001, 0, true));
    assert_eq!(handle_datagram(&mut table, c, 10 * SEC, &mut next_socket), (40001, 0, false));
    assert_eq!(table.sweep(60 * SEC, 30), vec![c]);
    assert!(table.refresh(&c, 61 * SEC).is_none());
    assert_eq!(handle_datagram(&mut table, c, 61 * SEC, &mut next_socket), (40002, 1, true));
    assert_eq!(handle_datagram(&mut table, c, 62 * SEC, &mut next_socket), (40002, 1, false));
    assert_eq!(table.len(), 1);
}

#[test]
fn first_datagrams_of_one_client_open_one_session() {
    let mut table: SessionTable<u16> = SessionTable::new();
    let c = client(7, 5000);
    let mut next_socket = 40001;
    let mut started = 0;
    for now in 0..5u128 {
        let (socket, id, relay) = handle_datagram(&mut table, c, now, &mut next_socket);
        assert_eq!((socket, id), (40001, 0));
        if relay {
            started += 1;
        }
    }
    assert_eq!(started, 1);
    assert_eq!(table.len(), 1);
    assert_eq!(table.next_id(), 1);
}

#[test]
fn relay_forwards_replies_while_its_session_lives() {
    let mut table: SessionTable<u16> = SessionTable::new();
    let c = client(7, 5000);
    let id = table.insert(c, 40001, 0).expect("number");
    assert_eq!(table.relay_step(&c, id, RelayEvent::Datagram, 12), RelayAction::Forward);
    let session = table.get(&c).expect("session");
    assert_eq!(session.last_activity, 12);
    assert_eq!(session.target_socket, 40001);
    assert_eq!(session.id, id);
    assert_eq!(table.relay_step(&c, id, RelayEvent::WaitElapsed, 99), RelayAction::Wait);
    assert_eq!(table.get(&c).expect("session").last_activity, 12);
}

#[test]
fn relay_stops_once_its_session_is_gone() {
    let mut table: SessionTable<u16> = SessionTable::new();
    let c = client(7, 5000);
    table.insert(client(8, 5000), 40002, 3);
    assert_eq!(table.relay_step(&c, 0, RelayEvent::Datagram, 12), RelayAction::Stop);
    assert_eq!(table.relay_step(&c, 0, RelayEvent::WaitElapsed, 12), RelayAction::Stop);
    assert_eq!(table.relay_step(&c, 5, RelayEvent::SocketFailed, 12), RelayAction::Stop);
    assert_eq!(table.len(), 1);
    assert_eq!(table.get(&client(8, 5000)).expect("other").last_activity, 3);
}

#[test]
fn relay_ends_its_own_session_on_failures() {
    for event in [RelayEvent::SocketFailed, RelayEvent::ClientSendFailed] {
        let mut table: SessionTable<u16> = SessionTable::new();
        let c = client(7, 5000);
        let id = table.insert(c, 40001, 4).expect("number");
        table.insert(client(8, 5000), 40002, 5);
        assert_eq!(table.relay_step(&c, id, event, 12), RelayAction::Stop);
        assert!(!table.contains_key(&c));
        assert_eq!(table.len(), 1);
        assert_eq!(table.relay_step(&c, id, event, 13), RelayAction::Stop);
        assert_eq!(table.len(), 1);
        assert_eq!(table.get(&client(8, 5000)).expect("other").last_activity, 5);
    }
}

#[test]
fn stale_relay_leaves_the_later_session_alone() {
    for event in [
        RelayEvent::Datagram,
        RelayEvent::WaitElapsed,
        RelayEvent::SocketFailed,
        RelayEvent::ClientSendFailed,
    ] {
        let mut table: SessionTable<u16> = SessionTable::new();
        let c = client(7, 5000);
        let mut next_socket = 40001;

        // The session on the first socket is opened, then swept.
        let (first_socket, stale, _) = handle_datagram(&mut table, c, 0, &mut next_socket);
        assert_eq!((first_socket, stale), (40001, 0));
        assert_eq!(table.sweep(31 * SEC, 30), vec![c]);

        // The client's next datagram opens a session on another socket.
        let (socket, later, started) = handle_datagram(&mut table, c, 40 * SEC, &mut next_socket);
        assert_eq!((socket, later, started), (40002, 1, true));

        // Whatever the first relay meets now, it stops and harms nothing.
        assert_eq!(table.relay_step(&c, stale, event, 50 * SEC), RelayAction::Stop);
        let session = table.get(&c).expect("later session");
        assert_eq!(session.id, later);
        assert_eq!(session.target_socket, 40002);
        assert_eq!(session.last_activity, 40 * SEC);
        assert_eq!(table.len(), 1);

        // The later session's own relay goes on.
        assert_eq!(
            table.relay_step(&c, later, RelayEvent::WaitElapsed, 51 * SEC),
            RelayAction::Wait
        );
        assert_eq!(
            table.relay_step(&c, later, RelayEvent::Datagram, 52 * SEC),
            RelayAction::Forward
        );
    }
}

#[test]
fn stale_send_failure_leaves_the_later_session_alone() {
    let mut table: SessionTable<u16> = SessionTable::new();
    let c = client(7, 5000);
    let mut next_socket = 40001;
    let (_, stale, _) = handle_datagram(&mut table, c, 0, &mut next_socket);
    assert_eq!(table.sweep(31 * SEC, 30), vec![c]);
    let (_, later, _) = handle_datagram(&mut table, c, 40 * SEC, &mut next_socket);
    assert!(matches!(
        table.dispatch_step(&c, DispatchEvent::TargetSendFailed(stale), 41 * SEC),
        DispatchAction::Done
    ));
    assert!(table.is_session(&c, later));
    assert_eq!(table.get(&c).expect("later session").target_socket, 40002);
}

#[test]
fn dispatch_opens_a_session_for_an_unknown_client() {
    let mut table: SessionTable<u16> = SessionTable::new();
    let c = client(7, 5000);
    assert!(matches!(
        table.dispatch_step(&c, DispatchEvent::Datagram, 3),
        DispatchAction::OpenSocket
    ));
    assert_eq!(table.len(), 0);
    assert!(matches!(
        table.dispatch_step(&c, DispatchEvent::SocketOpened(40001), 4),
        DispatchAction::Relay { socket: &40001, id: 0 }
    ));
    let session = table.get(&c).expect("session");
    assert_eq!(session.id, 0);
    assert_eq!(session.target_socket, 40001);
    assert_eq!(session.last_activity, 4);
    assert_eq!(table.next_id(), 1);
}

#[test]
fn dispatch_forwards_through_the_known_socket() {
    let mut table: SessionTable<u16> = SessionTable::new();
    let c = client(7, 5000);
    table.insert(c, 40001, 4);
    table.insert(client(8, 5000), 40002, 4);
    assert!(matches!(
        table.dispatch_step(&c, DispatchEvent::Datagram, 9),
        DispatchAction::Forward { socket: &40001, id: 0 }
    ));
    assert_eq!(table.get(&c).expect("session").last_activity, 9);
    assert_eq!(table.get(&client(8, 5000)).expect("other").last_activity, 4);
    assert_eq!(table.len(), 2);
}

#[test]
fn failed_send_ends_the_session_and_the_next_datagram_opens_another() {
    let mut table: SessionTable<u16> = SessionTable::new();
    let c = client(7, 5000);
    let mut next_socket = 40001;
    assert_eq!(handle_datagram(&mut table, c, 1, &mut next_socket), (40001, 0, true));
    assert!(matches!(
        table.dispatch_step(&c, DispatchEvent::TargetSendFailed(0), 2),
        DispatchAction::Done
    ));
    assert!(!table.contains_key(&c));
    assert!(matches!(
        table.dispatch_step(&c, DispatchEvent::TargetSendFailed(0), 2),
        DispatchAction::Done
    ));
    assert_eq!(handle_datagram(&mut table, c, 3, &mut next_socket), (40002, 1, true));
    assert_eq!(handle_datagram(&mut table, c, 4, &mut next_socket), (40002, 1, false));
    assert_eq!(table.len(), 1);
}

#[test]
fn many_clients_each_keep_their_own_socket() {
    let mut table: SessionTable<u16> = SessionTable::new();
    let mut next_socket = 40000;
    for round in 0..3u128 {
        for n in 0..20u32 {
            let (socket, id, started) =
                handle_datagram(&mut table, client(n, 6000), round, &mut next_socket);
            assert_eq!(socket, 40000 + n as u16);
            assert_eq!(id, n as u64);
            assert_eq!(started, round == 0);
        }
    }
    assert_eq!(table.len(), 20);
    assert_eq!(next_socket, 40020);
}

#[test]
fn sweep_and_dispatch_over_several_ticks() {
    let mut table: SessionTable<u16> = SessionTable::new();
    let busy = client(1, 7000);
    let quiet = client(2, 7000);
    let mut next_socket = 40001;
    assert_eq!(handle_datagram(&mut table, busy, 0, &mut next_socket), (40001, 0, true));
    assert_eq!(handle_datagram(&mut table, quiet, 0, &mut next_socket), (40002, 1, true));
    assert_eq!(handle_datagram(&mut table, busy, 20 * SEC, &mut next_socket), (40001, 0, false));

    assert!(table.sweep(30 * SEC, 30).is_empty());
    assert_eq!(sorted(table.expired_clients(60 * SEC, 30)), vec![busy, quiet]);
    assert_eq!(handle_datagram(&mut table, busy, 45 * SEC, &mut next_socket), (40001, 0, false));
    assert_eq!(table.sweep(60 * SEC, 30), vec![quiet]);

    assert_eq!(table.relay_step(&quiet, 1, RelayEvent::WaitElapsed, 61 * SEC), RelayAction::Stop);
    assert!(!table.contains_key(&quiet));
    assert_eq!(table.relay_step(&busy, 0, RelayEvent::WaitElapsed, 61 * SEC), RelayAction::Wait);
    assert_eq!(handle_datagram(&mut table, quiet, 70 * SEC, &mut next_socket), (40003, 2, true));
    assert_eq!(handle_datagram(&mut table, busy, 70 * SEC, &mut next_socket), (40001, 0, false));
    assert_eq!(table.len(), 2);
}

#[test]
fn dns_query_is_answered_to_the_asking_client() {
    let rule = UdpRule {
        bind_addr: "127.0.0.1".to_string(),
        bind_port: 5353,
        target_addr: "8.8.8.8".to_string(),
        target_port: 53,
        name: None,
        timeout: Some(30),
    };
    assert_eq!(
        rule.endpoints(),
        Ok((
            SocketAddress::V4 { ip: 0x7f00_0001, port: 5353 },
            SocketAddress::V4 { ip: 0x0808_0808, port: 53 }
        ))
    );
    let forwarder = UdpForwarder::new(rule, 8192);
    let timeout = forwarder.rule().timeout_seconds();
    assert_eq!(timeout, 30);

    let asking = SocketAddress::V4 { ip: 0x7f00_0001, port: 40000 };
    let other = SocketAddress::V4 { ip: 0x7f00_0001, port: 40001 };
    let mut table: SessionTable<u16> = SessionTable::new();
    let mut next_socket = 50000;
    let (socket, id, started) = handle_datagram(&mut table, asking, 0, &mut next_socket);
    assert_eq!((socket, started), (50000, true));
    let (other_socket, other_id, _) = handle_datagram(&mut table, other, 1, &mut next_socket);
    assert_eq!(other_socket, 50001);

    // The reply comes in on the asking client's socket, so its relay, which
    // knows the client's address, sends it there.
    assert_eq!(table.relay_step(&asking, id, RelayEvent::Datagram, 2 * SEC), RelayAction::Forward);
    assert_eq!(table.get(&asking).expect("asking").target_socket, 50000);
    assert_eq!(table.get(&asking).expect("asking").last_activity, 2 * SEC);
    assert_eq!(table.get(&other).expect("other").last_activity, 1);
    assert_eq!(table.sweep(31 * SEC, timeout), vec![other]);
    assert!(table.is_session(&asking, id));
    assert!(!table.is_session(&other, other_id));
}
