use chaos_dragon::backoff::ExponentialBackoff;
use chaos_dragon::discovery::{dns_retry_step, Discovery, DnsRetryStep, NetworkCheck, Sibling, SiblingsMap};
use chaos_dragon::ip::IpAddress;
use chaos_dragon::simulation::{FailureTarget, SimulatedState};
use chaos_dragon::transport::TransportSender;

fn address(text: &str) -> IpAddress {
    IpAddress::from_text(text.to_string())
}

const SECOND: i128 = 1_000_000_000;

#[test]
fn siblings_map_insert_and_get() {
    let mut map = SiblingsMap::new();
    assert!(map.is_empty());
    map.insert("a".to_string(), Sibling { ip: address("10.0.0.1"), last_seen: 1 });
    map.insert("b".to_string(), Sibling { ip: address("10.0.0.2"), last_seen: 2 });
    map.insert("a".to_string(), Sibling { ip: address("10.0.0.3"), last_seen: 3 });
    assert_eq!(map.len(), 2);
    assert_eq!(map.id_at(0), "a");
    assert_eq!(map.sibling_at(0).ip, address("10.0.0.3"));
    assert_eq!(map.sibling_at(0).last_seen, 3);
    assert_eq!(map.id_at(1), "b");
    assert!(map.get("c").is_none());
}

#[test]
fn siblings_compare_by_address() {
    let a = Sibling { ip: address("10.0.0.1"), last_seen: 1 };
    let b = Sibling { ip: address("10.0.0.1"), last_seen: 99 };
    let c = Sibling { ip: address("10.0.0.2"), last_seen: 1 };
    assert_eq!(a, b);
    assert_ne!(a, c);
    assert_eq!(a.clone(), a);
}

#[test]
fn siblings_maps_compare_by_ids_and_addresses() {
    let mut first = SiblingsMap::new();
    first.insert("a".to_string(), Sibling { ip: address("10.0.0.1"), last_seen: 1 });
    first.insert("b".to_string(), Sibling { ip: address("10.0.0.2"), last_seen: 1 });
    let mut second = SiblingsMap::new();
    second.insert("b".to_string(), Sibling { ip: address("10.0.0.2"), last_seen: 7 });
    second.insert("a".to_string(), Sibling { ip: address("10.0.0.1"), last_seen: 8 });
    assert_eq!(first, second);
    second.insert("a".to_string(), Sibling { ip: address("10.0.0.9"), last_seen: 8 });
    assert_ne!(first, second);
    second.insert("c".to_string(), Sibling { ip: address("10.0.0.1"), last_seen: 8 });
    assert_ne!(first, second);
}

#[test]
fn records_a_sibling_seen_now() {
    let mut discovery = Discovery::new(1000);
    let before = time::OffsetDateTime::now_utc().unix_timestamp_nanos();
    discovery.record_sibling("n1".to_string(), address("10.0.0.1"));
    let after = time::OffsetDateTime::now_utc().unix_timestamp_nanos();
    let sibling = discovery.siblings.get("n1").unwrap();
    assert_eq!(sibling.ip, address("10.0.0.1"));
    assert!(before <= sibling.last_seen && sibling.last_seen <= after);
}

#[test]
fn record_siblings_keeps_the_fresher_record() {
    let mut discovery = Discovery::new(1000);
    discovery.record_sibling_at("older".to_string(), address("10.0.0.1"), 10);
    discovery.record_sibling_at("newer".to_string(), address("10.0.0.2"), 50);
    discovery.record_sibling_at("tied".to_string(), address("10.0.0.3"), 30);
    let mut gossip = SiblingsMap::new();
    gossip.insert("older".to_string(), Sibling { ip: address("10.1.0.1"), last_seen: 20 });
    gossip.insert("newer".to_string(), Sibling { ip: address("10.1.0.2"), last_seen: 40 });
    gossip.insert("tied".to_string(), Sibling { ip: address("10.1.0.3"), last_seen: 30 });
    gossip.insert("fresh".to_string(), Sibling { ip: address("10.1.0.4"), last_seen: 1 });
    discovery.record_siblings(gossip);
    assert_eq!(discovery.siblings.get("older").unwrap().ip, address("10.1.0.1"));
    assert_eq!(discovery.siblings.get("older").unwrap().last_seen, 20);
    assert_eq!(discovery.siblings.get("newer").unwrap().ip, address("10.0.0.2"));
    assert_eq!(discovery.siblings.get("newer").unwrap().last_seen, 50);
    assert_eq!(discovery.siblings.get("tied").unwrap().ip, address("10.1.0.3"));
    assert_eq!(discovery.siblings.get("fresh").unwrap().ip, address("10.1.0.4"));
    assert_eq!(discovery.siblings.len(), 4);
}

#[test]
fn removes_only_expired_siblings() {
    let mut discovery = Discovery::new(1000);
    assert_eq!(discovery.sibling_expiry_time, 1000 * 1_000_000);
    let now = 100 * SECOND;
    discovery.record_sibling_at("recent".to_string(), address("10.0.0.1"), now - SECOND / 2);
    discovery.record_sibling_at("edge".to_string(), address("10.0.0.2"), now - SECOND);
    discovery.record_sibling_at("stale".to_string(), address("10.0.0.3"), now - 5 * SECOND);
    discovery.record_sibling_at("future".to_string(), address("10.0.0.4"), now + SECOND);
    discovery.remove_expired_siblings_at(now);
    assert!(discovery.siblings.get("recent").is_some());
    assert!(discovery.siblings.get("edge").is_none());
    assert!(discovery.siblings.get("stale").is_none());
    assert!(discovery.siblings.get("future").is_some());
    assert_eq!(discovery.siblings.len(), 2);
}

#[test]
fn expiry_survives_extreme_instants() {
    let mut discovery = Discovery::new(1000);
    discovery.record_sibling_at("ancient".to_string(), address("10.0.0.1"), i128::MIN);
    discovery.record_sibling_at("late".to_string(), address("10.0.0.2"), i128::MAX);
    discovery.remove_expired_siblings_at(i128::MAX);
    assert!(discovery.siblings.get("ancient").is_none());
    assert!(discovery.siblings.get("late").is_some());
}

#[test]
fn remove_expired_siblings_now_keeps_just_recorded_ones() {
    let mut discovery = Discovery::new(60_000);
    discovery.record_sibling("n1".to_string(), address("10.0.0.1"));
    discovery.remove_expired_siblings();
    assert_eq!(discovery.siblings.len(), 1);
    let mut expired = Discovery::new(-1);
    expired.record_sibling("n1".to_string(), address("10.0.0.1"));
    expired.remove_expired_siblings();
    assert!(expired.siblings.is_empty());
}

#[test]
fn identifies_each_unknown_address_once() {
    let mut discovery = Discovery::new(1000);
    discovery.record_sibling_at("n1".to_string(), address("10.0.0.1"), 0);
    let discovered = vec![
        address("10.0.0.2"),
        address("10.0.0.1"),
        address("10.0.0.3"),
        address("10.0.0.2"),
    ];
    let unknown = discovery.poll_and_identify_siblings(&discovered);
    assert_eq!(unknown, vec![address("10.0.0.2"), address("10.0.0.3")]);
    assert!(discovery.poll_and_identify_siblings(&Vec::new()).is_empty());
}

#[test]
fn lists_sibling_addresses_for_gossip() {
    let mut discovery = Discovery::new(1000);
    assert!(discovery.sibling_ips().is_empty());
    discovery.record_sibling_at("n1".to_string(), address("10.0.0.1"), 0);
    discovery.record_sibling_at("n2".to_string(), address("10.0.0.2"), 0);
    assert_eq!(discovery.sibling_ips(), vec![address("10.0.0.1"), address("10.0.0.2")]);
}

#[test]
fn network_check_restarts_or_waits() {
    let mut discovery = Discovery::new(1000);
    discovery.backoff = ExponentialBackoff::new_at(10 * SECOND);
    let healthy = SimulatedState::new();
    let mut dns_down = SimulatedState::new();
    dns_down.set_available(FailureTarget::Dns, false);
    let mut outbound_down = SimulatedState::new();
    outbound_down.set_available(FailureTarget::OutboundNetwork, false);
    let mut inbound_down = SimulatedState::new();
    inbound_down.set_available(FailureTarget::InboundNetwork, false);

    assert_eq!(discovery.check_network_backoff_at(&dns_down, 7 * SECOND), NetworkCheck::Unavailable { wait_nanos: 3 * SECOND as u128 });
    assert_eq!(discovery.check_network_backoff_at(&outbound_down, 7 * SECOND), NetworkCheck::Unavailable { wait_nanos: 5 * SECOND as u128 });
    assert_eq!(discovery.check_network_backoff_at(&dns_down, 30 * SECOND), NetworkCheck::Unavailable { wait_nanos: 0 });
    assert_eq!(discovery.check_network_backoff_at(&inbound_down, 30 * SECOND), NetworkCheck::Available);
    assert_eq!(discovery.check_network_backoff_at(&dns_down, 30 * SECOND), NetworkCheck::Unavailable { wait_nanos: 0 });
    assert_eq!(discovery.check_network_backoff_at(&dns_down, 30 * SECOND), NetworkCheck::Unavailable { wait_nanos: 16 * SECOND as u128 });
    assert_eq!(discovery.check_network_backoff_at(&healthy, 31 * SECOND), NetworkCheck::Available);
    assert!(discovery.can_wait());
    assert_eq!(discovery.check_network_backoff(&healthy), NetworkCheck::Available);
}

#[test]
fn dns_retry_doubles_until_dns_returns() {
    assert_eq!(dns_retry_step(0, false), DnsRetryStep { wait_seconds: 0, next_backoff_seconds: 2, proceed: false });
    assert_eq!(dns_retry_step(2, false), DnsRetryStep { wait_seconds: 2, next_backoff_seconds: 4, proceed: false });
    assert_eq!(dns_retry_step(4, false), DnsRetryStep { wait_seconds: 4, next_backoff_seconds: 8, proceed: false });
    assert_eq!(dns_retry_step(8, true), DnsRetryStep { wait_seconds: 0, next_backoff_seconds: 0, proceed: true });
}

#[test]
fn a_failed_round_changes_nothing() {
    let mut discovery = Discovery::new(1000);
    discovery.record_sibling_at("stale".to_string(), address("10.0.0.1"), 0);
    assert!(discovery.finish_discovery_round_at(None, 100 * SECOND).is_none());
    assert_eq!(discovery.siblings.len(), 1);
}

#[test]
fn a_successful_round_identifies_and_then_expires() {
    let mut discovery = Discovery::new(1000);
    discovery.record_sibling_at("stale".to_string(), address("10.0.0.1"), 0);
    discovery.record_sibling_at("fresh".to_string(), address("10.0.0.2"), 100 * SECOND);
    let found = vec![address("10.0.0.1"), address("10.0.0.3"), address("10.0.0.3")];
    let unknown = discovery.finish_discovery_round_at(Some(&found), 100 * SECOND).unwrap();
    assert_eq!(unknown, vec![address("10.0.0.3")]);
    assert!(discovery.siblings.get("stale").is_none());
    assert!(discovery.siblings.get("fresh").is_some());
    let mut now_round = Discovery::new(60_000);
    let unknown = now_round.finish_discovery_round(Some(&found)).unwrap();
    assert_eq!(unknown, vec![address("10.0.0.1"), address("10.0.0.3")]);
}

#[test]
fn gossip_requests_go_to_every_sibling() {
    let mut discovery = Discovery::new(1000);
    let sender = TransportSender::new("me".to_string(), 5000);
    assert!(discovery.gossip_requests(&sender).is_empty());
    discovery.record_sibling_at("n1".to_string(), address("10.0.0.1"), 0);
    discovery.record_sibling_at("n2".to_string(), address("10.0.0.2"), 0);
    let requests = discovery.gossip_requests(&sender);
    assert_eq!(requests.len(), 2);
    assert_eq!(requests[0].dest_ip, address("10.0.0.1"));
    assert_eq!(requests[1].dest_ip, address("10.0.0.2"));
    for request in &requests {
        assert_eq!(request.bytes, b"me|req|goss".to_vec());
        assert_eq!(request.dest_port, 5000);
    }
}

#[test]
fn a_new_discovery_is_due_at_its_start() {
    let mut discovery = Discovery::new_at(1000, 40 * SECOND);
    assert!(discovery.siblings.is_empty());
    assert_eq!(discovery.sibling_expiry_time, 1_000_000_000);
    let mut dns_down = SimulatedState::new();
    dns_down.set_available(FailureTarget::Dns, false);
    assert_eq!(
        discovery.check_network_backoff_at(&dns_down, 39 * SECOND),
        NetworkCheck::Unavailable { wait_nanos: SECOND as u128 }
    );
}
