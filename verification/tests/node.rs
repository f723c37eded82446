use chaos_dragon::discovery::{Discovery, Sibling, SiblingsMap};
use chaos_dragon::error::ErrorKind;
use chaos_dragon::ip::IpAddress;
use chaos_dragon::node::{Node, NodeError};
use chaos_dragon::transport::{
    Message, MessageDirection, MessageKind, TransportReceiver, TransportSender,
};

fn address(text: &str) -> IpAddress {
    IpAddress::from_text(text.to_string())
}

/// Reads dotted-decimal IPv4 text (four decimal octets, no leading zeros),
/// the address form these tests use.
fn parse_ip(text: &str) -> Option<IpAddress> {
    let octets: Vec<&str> = text.split('.').collect();
    if octets.len() != 4 {
        return None;
    }
    for octet in &octets {
        if octet.is_empty() || octet.len() > 3 || !octet.chars().all(|c| c.is_ascii_digit()) {
            return None;
        }
        if octet.len() > 1 && octet.starts_with('0') {
            return None;
        }
        if octet.parse::<u16>().ok()? > 255 {
            return None;
        }
    }
    Some(IpAddress::from_text(text.to_string()))
}

fn now() -> i128 {
    time::OffsetDateTime::now_utc().unix_timestamp_nanos()
}

fn build_sibling_map() -> SiblingsMap {
    let mut siblings = SiblingsMap::new();

    siblings.insert(
        "b62168f4fa9a".to_string(),
        Sibling {
            ip: address("192.1.2.3"),
            last_seen: now(),
        },
    );
    siblings.insert(
        "c73279g5gb0b".to_string(),
        Sibling {
            ip: address("192.1.2.4"),
            last_seen: now(),
        },
    );
    siblings.insert(
        "d84380h6hc1c".to_string(),
        Sibling {
            ip: address("192.1.2.5"),
            last_seen: now(),
        },
    );

    siblings
}

fn message(kind: MessageKind, direction: MessageDirection, src_ip: Option<&str>, payload: Option<&str>) -> Message {
    Message {
        src_ip: src_ip.map(address),
        src_node_id: "c73279g5gb0b".to_string(),
        direction,
        kind,
        payload: payload.map(|p| p.to_string()),
    }
}

#[test]
fn it_builds_gossip_payload() {
    let siblings = build_sibling_map();
    let payload = Node::build_gossip_payload(&siblings);
    // sort to avoid flakiness from HashMap non-determinism
    let mut parts: Vec<_> = payload.split(",").collect();
    parts.sort();

    assert_eq!(
        parts,
        vec![
            "b62168f4fa9a:192.1.2.3",
            "c73279g5gb0b:192.1.2.4",
            "d84380h6hc1c:192.1.2.5"
        ],
    )
}

#[test]
fn it_parses_gossip_payload() {
    let payload =
        "b62168f4fa9a:192.1.2.3,c73279g5gb0b:192.1.2.4,d84380h6hc1c:192.1.2.5".to_string();
    let expected_siblings = build_sibling_map();

    let parsed_siblings =
        Node::parse_gossip_payload(payload, &parse_ip).expect("Expected valid payload string");

    assert_eq!(parsed_siblings, expected_siblings);
}

#[test]
fn gossip_payload_lists_siblings_in_recorded_order() {
    let siblings = build_sibling_map();
    assert_eq!(
        Node::build_gossip_payload(&siblings),
        "b62168f4fa9a:192.1.2.3,c73279g5gb0b:192.1.2.4,d84380h6hc1c:192.1.2.5"
    );
    assert_eq!(Node::build_gossip_payload(&SiblingsMap::new()), "");
}

#[test]
fn gossip_payload_reads_back_as_built() {
    let siblings = build_sibling_map();
    let parsed = Node::parse_gossip_payload(Node::build_gossip_payload(&siblings), &parse_ip).unwrap();
    assert_eq!(parsed, siblings);
    assert_eq!(parsed.len(), 3);
}

#[test]
fn gossip_parse_reports_the_first_bad_item() {
    assert_eq!(
        Node::parse_gossip_payload("a:10.0.0.1,b".to_string(), &parse_ip).unwrap_err(),
        NodeError::MissingIpInPayload
    );
    assert_eq!(
        Node::parse_gossip_payload("a:nowhere,b".to_string(), &parse_ip).unwrap_err(),
        NodeError::InvalidIpInPayload
    );
    assert_eq!(
        Node::parse_gossip_payload("".to_string(), &parse_ip).unwrap_err(),
        NodeError::MissingIpInPayload
    );
    assert_eq!(NodeError::InvalidIpInPayload.kind(), ErrorKind::Other);
}

#[test]
fn gossip_parse_lets_a_later_item_win() {
    let parsed = Node::parse_gossip_payload("a:10.0.0.1,a:10.0.0.2".to_string(), &parse_ip).unwrap();
    assert_eq!(parsed.len(), 1);
    assert_eq!(parsed.get("a").unwrap().ip, address("10.0.0.2"));
}

#[test]
fn gossip_items_ignore_extra_colon_parts() {
    let parsed = Node::parse_gossip_payload("a:10.0.0.1:junk".to_string(), &parse_ip).unwrap();
    assert_eq!(parsed.get("a").unwrap().ip, address("10.0.0.1"));
}

#[test]
fn source_ip_and_payload_are_required_where_used() {
    let none = message(MessageKind::Identity, MessageDirection::Request, None, None);
    assert_eq!(Node::get_source_ip(&none).unwrap_err(), NodeError::MissingSourceIp);
    assert_eq!(Node::get_payload(&none).unwrap_err(), NodeError::MissingPayload);
    let some = message(MessageKind::Gossip, MessageDirection::Response, Some("10.0.0.3"), Some("p"));
    assert_eq!(Node::get_source_ip(&some).unwrap(), address("10.0.0.3"));
    assert_eq!(Node::get_payload(&some).unwrap(), "p");
}

#[test]
fn identification_request_is_answered_with_identity() {
    let sender = TransportSender::new("me".to_string(), 7000);
    let mut discovery = Discovery::new(60_000);
    let request = message(MessageKind::Identity, MessageDirection::Request, Some("10.0.0.9"), None);
    let out = Node::handle_message(&request, &sender, &mut discovery, &parse_ip)
        .unwrap()
        .expect("an answer");
    assert_eq!(out.bytes, b"me|res|id".to_vec());
    assert_eq!(out.dest_ip, address("10.0.0.9"));
    assert_eq!(out.dest_port, 7000);
    assert!(discovery.siblings.is_empty());

    let anonymous = message(MessageKind::Identity, MessageDirection::Request, None, None);
    assert_eq!(
        Node::handle_message(&anonymous, &sender, &mut discovery, &parse_ip).unwrap_err(),
        NodeError::MissingSourceIp
    );
}

#[test]
fn identification_response_records_the_sibling() {
    let sender = TransportSender::new("me".to_string(), 7000);
    let mut discovery = Discovery::new(60_000);
    let before = now();
    let response = message(MessageKind::Identity, MessageDirection::Response, Some("10.0.0.4"), None);
    assert!(Node::handle_message(&response, &sender, &mut discovery, &parse_ip).unwrap().is_none());
    let recorded = discovery.siblings.get("c73279g5gb0b").unwrap();
    assert_eq!(recorded.ip, address("10.0.0.4"));
    assert!(recorded.last_seen >= before);

    let anonymous = message(MessageKind::Identity, MessageDirection::Response, None, None);
    assert_eq!(
        Node::handle_identification_response(&anonymous, &mut discovery).unwrap_err(),
        NodeError::MissingSourceIp
    );
    assert_eq!(discovery.siblings.len(), 1);
}

#[test]
fn gossip_request_is_answered_only_with_known_siblings() {
    let sender = TransportSender::new("me".to_string(), 7000);
    let mut discovery = Discovery::new(60_000);
    let request = message(MessageKind::Gossip, MessageDirection::Request, Some("10.0.0.5"), None);
    assert!(Node::handle_message(&request, &sender, &mut discovery, &parse_ip).unwrap().is_none());

    let anonymous = message(MessageKind::Gossip, MessageDirection::Request, None, None);
    assert!(Node::handle_gossip_request(&anonymous, &sender, &discovery).unwrap().is_none());

    discovery.record_sibling_at("n1".to_string(), address("10.0.0.1"), 5);
    let out = Node::handle_message(&request, &sender, &mut discovery, &parse_ip)
        .unwrap()
        .expect("an answer");
    assert_eq!(out.bytes, b"me|res|goss|n1:10.0.0.1".to_vec());
    assert_eq!(out.dest_ip, address("10.0.0.5"));
    assert_eq!(
        Node::handle_gossip_request(&anonymous, &sender, &discovery).unwrap_err(),
        NodeError::MissingSourceIp
    );
}

#[test]
fn gossip_response_records_fresher_siblings() {
    let sender = TransportSender::new("me".to_string(), 7000);
    let mut discovery = Discovery::new(60_000);
    let far_future = now() + 1_000_000_000_000_000;
    discovery.record_sibling_at("kept".to_string(), address("10.0.0.1"), far_future);
    discovery.record_sibling_at("replaced".to_string(), address("10.0.0.2"), 0);
    let response = message(
        MessageKind::Gossip,
        MessageDirection::Response,
        Some("10.0.0.6"),
        Some("kept:10.9.9.1,replaced:10.9.9.2,new:10.9.9.3"),
    );
    assert!(Node::handle_message(&response, &sender, &mut discovery, &parse_ip).unwrap().is_none());
    assert_eq!(discovery.siblings.get("kept").unwrap().ip, address("10.0.0.1"));
    assert_eq!(discovery.siblings.get("replaced").unwrap().ip, address("10.9.9.2"));
    assert_eq!(discovery.siblings.get("new").unwrap().ip, address("10.9.9.3"));

    let empty = message(MessageKind::Gossip, MessageDirection::Response, Some("10.0.0.6"), None);
    assert_eq!(
        Node::handle_message(&empty, &sender, &mut discovery, &parse_ip).unwrap_err(),
        NodeError::MissingPayload
    );
    let bad = message(MessageKind::Gossip, MessageDirection::Response, None, Some("x:bad"));
    assert_eq!(
        Node::handle_gossip_response(&bad, &mut discovery, &parse_ip).unwrap_err(),
        NodeError::InvalidIpInPayload
    );
    assert_eq!(discovery.siblings.len(), 3);
}

#[test]
fn a_gossip_answer_reaches_the_asker_intact() {
    let asker = TransportSender::new("asker".to_string(), 7000);
    let answerer = TransportSender::new("answerer".to_string(), 7000);
    let mut known = Discovery::new(60_000);
    known.record_sibling_at("n1".to_string(), address("10.0.0.1"), 1);
    known.record_sibling_at("n2".to_string(), address("10.0.0.2"), 2);

    let request = asker.request_gossip(address("10.0.0.20"));
    let received = TransportReceiver::build_message(&request.bytes, address("10.0.0.10")).unwrap();
    let answer = Node::handle_message(&received, &answerer, &mut known, &parse_ip).unwrap().unwrap();
    assert_eq!(answer.dest_ip, address("10.0.0.10"));

    let mut learner = Discovery::new(60_000);
    let reply = TransportReceiver::build_message(&answer.bytes, address("10.0.0.20")).unwrap();
    Node::handle_message(&reply, &asker, &mut learner, &parse_ip).unwrap();
    assert_eq!(learner.siblings, known.siblings);
}

#[test]
fn gossip_read_at_an_instant_stamps_every_sibling_with_it() {
    let parsed = Node::parse_gossip_payload_at("a:10.0.0.1,b:10.0.0.2".to_string(), &parse_ip, 77).unwrap();
    assert_eq!(parsed.get("a").unwrap().last_seen, 77);
    assert_eq!(parsed.get("b").unwrap().last_seen, 77);
    assert_eq!(
        Node::parse_gossip_payload_at("a".to_string(), &parse_ip, 77).unwrap_err(),
        NodeError::MissingIpInPayload
    );
}
