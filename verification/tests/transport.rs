use chaos_dragon::error::ErrorKind;
use chaos_dragon::ip::IpAddress;
use chaos_dragon::transport::{
    Message, MessageDirection, MessageError, MessageKind, TransportReceiver, TransportSender,
};

fn address(text: &str) -> IpAddress {
    IpAddress::from_text(text.to_string())
}

#[test]
fn it_parses_valid_utf8_bytes_to_text() {
    let text = "Hello, world!";
    let bytes = text.as_bytes();

    assert_eq!(
        TransportReceiver::parse_bytes_to_text(bytes).expect("Expected valid UTF-8 bytes"),
        text
    )
}

#[test]
fn it_rejects_parsing_invalid_utf8_bytes() {
    let bytes: &[u8] = &[0xff, 0xfe, 0xfd];

    assert_eq!(
        TransportReceiver::parse_bytes_to_text(bytes)
            .expect_err("Expected invalid UTF-8 bytes")
            .kind(),
        ErrorKind::InvalidData
    )
}

#[test]
fn it_rejects_invalid_message_direction() {
    let bytes = b"b62168f4fa9a|doesntexist|identity";
    let src_ip = address("192.1.2.5");

    assert_eq!(
        TransportReceiver::build_message(bytes, src_ip)
            .expect_err("Expected invalid message bytes")
            .kind(),
        ErrorKind::InvalidData
    )
}

#[test]
fn it_rejects_invalid_message_kind() {
    let bytes = b"b62168f4fa9a|req|doesntexist";
    let src_ip = address("192.1.2.6");

    assert_eq!(
        TransportReceiver::build_message(bytes, src_ip)
            .expect_err("Expected invalid message bytes")
            .kind(),
        ErrorKind::InvalidData
    )
}

#[test]
fn it_builds_identity_request_message() {
    let bytes = b"b62168f4fa9a|req|id";
    let src_ip = address("192.1.2.3");

    let message = TransportReceiver::build_message(bytes, src_ip)
        .expect("Expected valid identity request message bytes");

    assert_eq!(message.src_node_id, "b62168f4fa9a");
    assert_eq!(message.direction, MessageDirection::Request);
    assert_eq!(message.kind, MessageKind::Identity);
    assert_eq!(message.payload, None);
}

#[test]
fn it_builds_identity_response_message() {
    let bytes = b"b62168f4fa9a|res|id|7c736c19c8f0";
    let src_ip = address("192.1.2.4");

    let message = TransportReceiver::build_message(bytes, src_ip)
        .expect("Expected valid identity response message bytes");

    assert_eq!(message.src_node_id, "b62168f4fa9a");
    assert_eq!(message.direction, MessageDirection::Response);
    assert_eq!(message.kind, MessageKind::Identity);
    assert_eq!(message.payload, Some("7c736c19c8f0".to_string()));
}

#[test]
fn it_builds_gossip_request_message() {
    let bytes = b"b62168f4fa9a|req|goss";
    let src_ip = address("192.1.2.5");

    let message = TransportReceiver::build_message(bytes, src_ip)
        .expect("Expected valid gossip request message bytes");

    assert_eq!(message.src_node_id, "b62168f4fa9a");
    assert_eq!(message.direction, MessageDirection::Request);
    assert_eq!(message.kind, MessageKind::Gossip);
    assert_eq!(message.payload, None);
}

#[test]
fn it_builds_gossip_response_message() {
    let bytes = b"b62168f4fa9a|res|goss|7c736c19c8f0:192.2.1.1,7c736c19c8f1:192.2.1.2,7c736c19c8f2:192.2.1.3";
    let src_ip = address("192.1.2.6");

    let message = TransportReceiver::build_message(bytes, src_ip)
        .expect("Expected valid gossip response message bytes");

    assert_eq!(message.src_node_id, "b62168f4fa9a");
    assert_eq!(message.direction, MessageDirection::Response);
    assert_eq!(message.kind, MessageKind::Gossip);
    assert_eq!(
        message.payload,
        Some("7c736c19c8f0:192.2.1.1,7c736c19c8f1:192.2.1.2,7c736c19c8f2:192.2.1.3".to_string())
    );
}

#[test]
fn received_message_keeps_its_source_address() {
    let message = TransportReceiver::build_message(b"abc|req|id", address("10.0.0.7")).unwrap();
    assert_eq!(message.src_ip, Some(address("10.0.0.7")));
}

#[test]
fn parses_multibyte_utf8_text() {
    let text = "héllo|wörld";
    assert_eq!(TransportReceiver::parse_bytes_to_text(text.as_bytes()).unwrap(), text);
}

#[test]
fn multibyte_source_id_survives_parsing() {
    let message = TransportReceiver::build_message("nöde|res|id".as_bytes(), address("10.0.0.1")).unwrap();
    assert_eq!(message.src_node_id, "nöde");
}

#[test]
fn reports_each_malformed_message_error() {
    let ip = || address("10.0.0.1");
    assert_eq!(
        TransportReceiver::build_message(&[0xc3, 0x28], ip()).unwrap_err(),
        MessageError::InvalidUtf8
    );
    assert_eq!(TransportReceiver::build_message(b"lonely", ip()).unwrap_err(), MessageError::MissingDirection);
    assert_eq!(TransportReceiver::build_message(b"", ip()).unwrap_err(), MessageError::MissingDirection);
    assert_eq!(TransportReceiver::build_message(b"a|sideways|id", ip()).unwrap_err(), MessageError::InvalidDirection);
    assert_eq!(TransportReceiver::build_message(b"a|req", ip()).unwrap_err(), MessageError::MissingKind);
    assert_eq!(TransportReceiver::build_message(b"a|req|chat", ip()).unwrap_err(), MessageError::InvalidKind);
    assert_eq!(MessageError::MissingKind.kind(), ErrorKind::InvalidData);
}

#[test]
fn direction_is_checked_before_kind() {
    assert_eq!(
        TransportReceiver::build_message(b"a|bad|worse", address("10.0.0.1")).unwrap_err(),
        MessageError::InvalidDirection
    );
    assert_eq!(
        TransportReceiver::build_message(b"a|bad", address("10.0.0.1")).unwrap_err(),
        MessageError::InvalidDirection
    );
}

#[test]
fn pieces_after_the_payload_are_ignored() {
    let message = TransportReceiver::build_message(b"a|res|goss|first|second", address("10.0.0.1")).unwrap();
    assert_eq!(message.payload, Some("first".to_string()));
}

#[test]
fn empty_fields_are_kept() {
    let message = TransportReceiver::build_message(b"|req|id|", address("10.0.0.1")).unwrap();
    assert_eq!(message.src_node_id, "");
    assert_eq!(message.payload, Some(String::new()));
}

#[test]
fn directions_and_kinds_read_and_write_their_wire_text() {
    assert_eq!(MessageDirection::from_str("req"), Ok(MessageDirection::Request));
    assert_eq!(MessageDirection::from_str("res"), Ok(MessageDirection::Response));
    assert_eq!(MessageDirection::from_str("REQ"), Err(MessageError::InvalidDirection));
    assert_eq!(MessageKind::from_str("id"), Ok(MessageKind::Identity));
    assert_eq!(MessageKind::from_str("goss"), Ok(MessageKind::Gossip));
    assert_eq!(MessageKind::from_str("gossip"), Err(MessageError::InvalidKind));
    assert_eq!(MessageDirection::Request.as_str(), "req");
    assert_eq!(MessageDirection::Response.as_str(), "res");
    assert_eq!(MessageKind::Identity.as_str(), "id");
    assert_eq!(MessageKind::Gossip.as_str(), "goss");
    for direction in [MessageDirection::Request, MessageDirection::Response] {
        assert_eq!(MessageDirection::from_str(direction.as_str()), Ok(direction));
    }
    for kind in [MessageKind::Identity, MessageKind::Gossip] {
        assert_eq!(MessageKind::from_str(kind.as_str()), Ok(kind));
    }
}

#[test]
fn message_text_has_the_wire_layout() {
    let with_payload = Message {
        src_ip: None,
        src_node_id: "b62168f4fa9a".to_string(),
        direction: MessageDirection::Response,
        kind: MessageKind::Identity,
        payload: Some("7c736c19c8f0".to_string()),
    };
    assert_eq!(with_payload.to_text(), "b62168f4fa9a|res|id|7c736c19c8f0");
    let without_payload = Message {
        src_ip: Some(address("10.0.0.1")),
        src_node_id: "n1".to_string(),
        direction: MessageDirection::Request,
        kind: MessageKind::Gossip,
        payload: None,
    };
    assert_eq!(without_payload.to_text(), "n1|req|goss");
}

#[test]
fn sender_writes_each_message_kind() {
    let sender = TransportSender::new("b62168f4fa9a".to_string(), 4000);
    let dest = address("192.1.2.9");

    let out = sender.request_identification(dest.clone());
    assert_eq!(out.bytes, b"b62168f4fa9a|req|id".to_vec());
    assert_eq!(out.dest_ip, dest);
    assert_eq!(out.dest_port, 4000);

    assert_eq!(sender.respond_identification(dest.clone()).bytes, b"b62168f4fa9a|res|id".to_vec());
    assert_eq!(sender.request_gossip(dest.clone()).bytes, b"b62168f4fa9a|req|goss".to_vec());
    assert_eq!(
        sender.respond_gossip(dest.clone(), "x:10.0.0.1".to_string()).bytes,
        b"b62168f4fa9a|res|goss|x:10.0.0.1".to_vec()
    );
    let copy = sender.clone();
    assert_eq!(copy.request_gossip(dest).bytes, b"b62168f4fa9a|req|goss".to_vec());
}

#[test]
fn sent_messages_read_back_as_sent() {
    let sender = TransportSender::new("nödé-1".to_string(), 9);
    let out = sender.respond_gossip(address("10.1.1.1"), "a:10.0.0.1,b:10.0.0.2".to_string());
    let message = TransportReceiver::build_message(&out.bytes, address("10.2.2.2")).unwrap();
    assert_eq!(message.src_node_id, "nödé-1");
    assert_eq!(message.direction, MessageDirection::Response);
    assert_eq!(message.kind, MessageKind::Gossip);
    assert_eq!(message.payload, Some("a:10.0.0.1,b:10.0.0.2".to_string()));
    assert_eq!(message.src_ip, Some(address("10.2.2.2")));
}
