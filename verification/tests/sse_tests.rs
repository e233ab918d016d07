use hyperlit::sse::{SseMessage, SseRegistry, SseStream};

#[test]
fn test_message_format() {
    let msg = SseMessage::FileChanged { timestamp: 1234567890 };
    let formatted = msg.format();
    assert!(formatted.contains("event: file-changed"));
    assert!(formatted.contains("data: {\"timestamp\": 1234567890}"));
    assert!(formatted.ends_with("\n\n"));
}

#[test]
fn test_keepalive_format() {
    let msg = SseMessage::KeepAlive;
    let formatted = msg.format();
    assert!(formatted.contains("event: ping"));
    assert!(formatted.contains("data: keep-alive"));
}

#[test]
fn test_registry_register() {
    let mut registry = SseRegistry::new();
    assert_eq!(registry.client_count(), 0);

    let (_id, _receiver) = registry.register();
    assert_eq!(registry.client_count(), 1);
}

#[test]
fn test_registry_unregister() {
    let mut registry = SseRegistry::new();
    let (id, _receiver) = registry.register();
    assert_eq!(registry.client_count(), 1);

    registry.unregister(&id);
    assert_eq!(registry.client_count(), 0);
}

#[test]
fn test_broadcast() {
    let mut registry = SseRegistry::new();
    let (_id1, receiver1) = registry.register();
    let (_id2, receiver2) = registry.register();

    registry.broadcast(SseMessage::KeepAlive);

    // Both receivers should get the message
    assert!(matches!(receiver1.try_recv(), Ok(SseMessage::KeepAlive)));
    assert!(matches!(receiver2.try_recv(), Ok(SseMessage::KeepAlive)));
}

#[test]
fn test_stream_read() {
    let (sender, receiver) = std::sync::mpsc::channel();
    let mut stream = SseStream::new(receiver);

    // Send a message
    sender.send(SseMessage::KeepAlive).unwrap();

    // Read from stream
    let mut buf = [0u8; 1024];
    let n = stream.read(&mut buf);

    assert!(n > 0);
    let text = String::from_utf8_lossy(&buf[..n]);
    assert!(text.contains("event: ping"));
}

#[test]
fn message_exact_texts() {
    assert_eq!(SseMessage::KeepAlive.format(), "event: ping\ndata: keep-alive\n\n");
    assert_eq!(
        SseMessage::FileChanged { timestamp: 7 }.format(),
        "event: file-changed\ndata: {\"timestamp\": 7}\n\n"
    );
    assert_eq!(SseMessage::KeepAlive.to_bytes(), b"event: ping\ndata: keep-alive\n\n".to_vec());
}

#[test]
fn stream_reads_in_pieces_and_ends_when_closed() {
    let (sender, receiver) = std::sync::mpsc::channel();
    let mut stream = SseStream::new(receiver);
    sender.send(SseMessage::KeepAlive).unwrap();
    drop(sender);
    let mut buf = [0u8; 5];
    let mut all = Vec::new();
    loop {
        let n = stream.read(&mut buf);
        if n == 0 {
            break;
        }
        all.extend_from_slice(&buf[..n]);
    }
    assert_eq!(all, b"event: ping\ndata: keep-alive\n\n".to_vec());
}

#[test]
fn broadcast_drops_clients_that_are_gone() {
    let mut registry = SseRegistry::new();
    let (_id1, receiver1) = registry.register();
    let (_id2, receiver2) = registry.register();
    drop(receiver2);
    registry.broadcast(SseMessage::FileChanged { timestamp: 1 });
    assert_eq!(registry.client_count(), 1);
    assert!(matches!(receiver1.try_recv(), Ok(SseMessage::FileChanged { timestamp: 1 })));
}

#[test]
fn client_count_follows_registrations() {
    let mut registry = SseRegistry::new();
    let (a, _ra) = registry.register();
    let (_b, _rb) = registry.register();
    let (_c, _rc) = registry.register();
    assert_eq!(registry.client_count(), 3);
    registry.unregister(&a);
    assert_eq!(registry.client_count(), 2);
}

#[test]
fn loaded_message_is_read_from_its_start() {
    let (_tx, rx) = std::sync::mpsc::channel();
    let mut stream = SseStream::new(rx);
    stream.load_message(Some(SseMessage::KeepAlive));
    let mut buf = [0u8; 8];
    assert_eq!(stream.read(&mut buf), 8);
    assert_eq!(&buf, b"event: p");
    stream.load_message(None);
    let mut rest = [0u8; 64];
    assert_eq!(stream.read(&mut rest), 22);
    assert_eq!(&rest[..22], b"ing\ndata: keep-alive\n\n");
}

#[test]
fn broadcast_hands_message_to_each_live_client() {
    let mut registry = SseRegistry::new();
    let (_a, ra) = registry.register();
    let (_b, rb) = registry.register();
    let (_c, rc) = registry.register();
    drop(rb);
    registry.broadcast(SseMessage::FileChanged { timestamp: 7 });
    assert_eq!(registry.client_count(), 2);
    assert_eq!(ra.try_recv().unwrap(), SseMessage::FileChanged { timestamp: 7 });
    assert_eq!(rc.try_recv().unwrap(), SseMessage::FileChanged { timestamp: 7 });
    assert!(ra.try_recv().is_err());
}

#[test]
fn retain_delivered_keeps_flagged_clients() {
    let mut registry = SseRegistry::new();
    let (a, _ra) = registry.register();
    let (_b, _rb) = registry.register();
    registry.retain_delivered(&[true, false]);
    assert_eq!(registry.client_count(), 1);
    registry.unregister(&a);
    assert_eq!(registry.client_count(), 0);
}
