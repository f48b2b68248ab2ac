use porture::config::TcpRule;
use porture::tcp_forwarder::{
    pump_step, PumpAction, PumpEvent, TcpConnectionPair, TcpForwarder,
};

fn written(action: PumpAction<'_>) -> Option<Vec<u8>> {
    match action {
        PumpAction::Write(bytes) => Some(bytes.to_vec()),
        _ => None,
    }
}

/// Runs one pump over reads that bring `chunks` into a buffer of `size`
/// bytes, every write succeeding, and returns what it handed out.
fn pump_through(chunks: &[&[u8]], size: usize) -> (Vec<u8>, bool) {
    let mut buffer = vec![0u8; size];
    let mut out = Vec::new();
    for chunk in chunks {
        buffer[..chunk.len()].copy_from_slice(chunk);
        match pump_step(&buffer, PumpEvent::Read(chunk.len())) {
            PumpAction::Write(bytes) => out.extend_from_slice(bytes),
            PumpAction::Stop => return (out, true),
            PumpAction::Read => panic!("a read is answered by a write or a stop"),
        }
        match pump_step(&buffer, PumpEvent::Written) {
            PumpAction::Read => {}
            _ => panic!("a write is followed by a read"),
        }
    }
    (out, false)
}

#[test]
fn forwarder_keeps_rule_and_buffer_size() {
    let rule = TcpRule {
        bind_addr: "127.0.0.1".to_string(),
        bind_port: 8080,
        target_addr: "127.0.0.1".to_string(),
        target_port: 80,
        name: Some("web".to_string()),
    };
    let forwarder = TcpForwarder::new(rule, 8192);
    assert_eq!(forwarder.buffer_size(), 8192);
    assert_eq!(forwarder.rule().bind_addr, "127.0.0.1");
    assert_eq!(forwarder.rule().bind_port, 8080);
    assert_eq!(forwarder.rule().target_addr, "127.0.0.1");
    assert_eq!(forwarder.rule().target_port, 80);
    assert_eq!(forwarder.rule().rule_name(), "web");
}

#[test]
fn read_bytes_are_written_unchanged() {
    let buffer = [1u8, 2, 3, 4, 5, 6, 7, 8];
    assert_eq!(written(pump_step(&buffer, PumpEvent::Read(3))), Some(vec![1, 2, 3]));
    assert_eq!(written(pump_step(&buffer, PumpEvent::Read(1))), Some(vec![1]));
    assert_eq!(
        written(pump_step(&buffer, PumpEvent::Read(8))),
        Some(vec![1, 2, 3, 4, 5, 6, 7, 8])
    );
}

#[test]
fn end_of_stream_and_failures_stop_the_pump() {
    let buffer = [9u8; 4];
    assert!(matches!(pump_step(&buffer, PumpEvent::Read(0)), PumpAction::Stop));
    assert!(matches!(pump_step(&buffer, PumpEvent::ReadFailed), PumpAction::Stop));
    assert!(matches!(pump_step(&buffer, PumpEvent::WriteFailed), PumpAction::Stop));
    let empty: [u8; 0] = [];
    assert!(matches!(pump_step(&empty, PumpEvent::Read(0)), PumpAction::Stop));
}

#[test]
fn a_write_is_followed_by_the_next_read() {
    let buffer = [0u8; 4];
    assert!(matches!(pump_step(&buffer, PumpEvent::Written), PumpAction::Read));
}

#[test]
fn stream_arrives_identical_whatever_the_chunks() {
    let stream: Vec<u8> = (0..=255u8).cycle().take(1000).collect();
    for size in [1usize, 2, 7, 64, 999, 1000, 8192] {
        let chunks: Vec<&[u8]> = stream.chunks(size).collect();
        let (out, stopped) = pump_through(&chunks, size);
        assert_eq!(out, stream);
        assert!(!stopped);
    }
}

#[test]
fn immediate_close_forwards_nothing() {
    let (out, stopped) = pump_through(&[&[]], 16);
    assert!(out.is_empty());
    assert!(stopped);
}

#[test]
fn nothing_is_forwarded_after_the_close() {
    let (out, stopped) = pump_through(&[b"ab", b"", b"cd"], 16);
    assert_eq!(out, b"ab");
    assert!(stopped);
}

#[test]
fn http_request_and_response_pass_unmodified() {
    let rule = TcpRule {
        bind_addr: "127.0.0.1".to_string(),
        bind_port: 8080,
        target_addr: "127.0.0.1".to_string(),
        target_port: 80,
        name: None,
    };
    assert_eq!(rule.validate(), Ok(()));
    let forwarder = TcpForwarder::new(rule, 8192);
    let size = forwarder.buffer_size();

    let request = b"GET / HTTP/1.0\r\n\r\n";
    let (to_target, stopped) = pump_through(&[request], size);
    assert_eq!(to_target, request);
    assert!(!stopped);

    let response: &[u8] = b"HTTP/1.0 200 OK\r\nContent-Length: 2\r\n\r\nok";
    let (to_client, stopped) = pump_through(&[&response[..10], &response[10..], b""], size);
    assert_eq!(to_client, response);
    assert!(stopped);
}

#[test]
fn new_pair_is_open_and_carries_bytes_both_ways() {
    let mut pair = TcpConnectionPair::new();
    assert!(pair.is_open());
    let up = [1u8, 2, 3, 4];
    let down = [9u8, 8, 7];
    assert_eq!(written(pair.step(&up, PumpEvent::Read(4))), Some(vec![1, 2, 3, 4]));
    assert_eq!(written(pair.step(&down, PumpEvent::Read(2))), Some(vec![9, 8]));
    assert!(matches!(pair.step(&up, PumpEvent::Written), PumpAction::Read));
    assert!(matches!(pair.step(&down, PumpEvent::Written), PumpAction::Read));
    assert!(pair.is_open());
}

#[test]
fn close_of_one_side_closes_the_pair_for_both() {
    let up = [1u8, 2, 3, 4];
    let down = [9u8, 8, 7];
    for ending in [PumpEvent::Read(0), PumpEvent::ReadFailed, PumpEvent::WriteFailed] {
        let mut pair = TcpConnectionPair::new();
        assert_eq!(written(pair.step(&down, PumpEvent::Read(3))), Some(vec![9, 8, 7]));
        assert!(matches!(pair.step(&up, ending), PumpAction::Stop));
        assert!(!pair.is_open());
        assert!(matches!(pair.step(&down, PumpEvent::Written), PumpAction::Stop));
        assert!(matches!(pair.step(&down, PumpEvent::Read(3)), PumpAction::Stop));
        assert!(matches!(pair.step(&up, PumpEvent::Read(4)), PumpAction::Stop));
        assert!(!pair.is_open());
    }
}
