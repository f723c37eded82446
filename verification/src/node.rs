//! How a node answers the messages it receives, and the gossip payload format.
//!
//! A gossip payload lists siblings as `id:address` items joined by `,`.

use vstd::prelude::*;
use vstd::string::StringExecFns;

use crate::clock::{now_nanos, max_clock_nanos, min_clock_nanos};
use crate::transport::{Message, MessageDirection, MessageKind, OutboundMessage, TransportSender, outgoing_message};
use crate::discovery::{Discovery, Sibling, SiblingView, SiblingsMap, fresher_of, ip_map, map_of};
use crate::error::ErrorKind;
use crate::ip::IpAddress;
use crate::text::{push_char, lemma_split_concat, lemma_split_nonempty, lemma_split_without_sep, split_on, split_text};

verus! {

/// Why a message could not be handled.
#[derive(PartialEq, Eq, Structural, Debug, Clone, Copy)]
pub enum NodeError {
    /// The message carries no source address to answer or record.
    MissingSourceIp,
    /// A gossip response carries no payload.
    MissingPayload,
    /// A gossip item has no `:address` part.
    MissingIpInPayload,
    /// A gossip item's address part is not an address.
    InvalidIpInPayload,
}

impl NodeError {
    /// Every such failure is reported as an other-kind error.
    pub fn kind(&self) -> (k: ErrorKind)
        ensures
            k == ErrorKind::Other,
    {
        ErrorKind::Other
    }
}

/// The text of one gossip item.
pub open spec fn item_text(id: Seq<char>, ip: Seq<char>) -> Seq<char> {
    id + seq![':'] + ip
}

/// The gossip payload for `entries`: their items, in order, joined by `,`.
pub open spec fn gossip_text(entries: Seq<(Seq<char>, SiblingView)>) -> Seq<char>
    decreases entries.len(),
{
    if entries.len() == 0 {
        Seq::empty()
    } else if entries.len() == 1 {
        item_text(entries[0].0, entries[0].1.ip)
    } else {
        gossip_text(entries.drop_last()) + seq![','] + item_text(
            entries.last().0,
            entries.last().1.ip,
        )
    }
}

/// The id and address text of one gossip item, or why it has none.
pub open spec fn item_parts(item: Seq<char>) -> Result<(Seq<char>, Seq<char>), NodeError> {
    let parts = split_on(item, ':');
    if parts.len() < 2 {
        Err(NodeError::MissingIpInPayload)
    } else {
        Ok((parts[0], parts[1]))
    }
}

/// The (id, address) pairs that the items name, read in order with `parse`
/// turning address texts into addresses; the first item that fails decides
/// the error.
pub open spec fn gossip_pairs(
    items: Seq<Seq<char>>,
    parse: spec_fn(Seq<char>) -> Option<Seq<char>>,
) -> Result<Seq<(Seq<char>, Seq<char>)>, NodeError>
    decreases items.len(),
{
    if items.len() == 0 {
        Ok(Seq::empty())
    } else {
        match gossip_pairs(items.drop_last(), parse) {
            Err(e) => Err(e),
            Ok(pairs) => match item_parts(items.last()) {
                Err(e) => Err(e),
                Ok((id, ip_text)) => match parse(ip_text) {
                    None => Err(NodeError::InvalidIpInPayload),
                    Some(ip) => Ok(pairs.push((id, ip))),
                },
            },
        }
    }
}

/// What a gossip payload says, with `parse` reading addresses.
pub open spec fn parse_gossip(payload: Seq<char>, parse: spec_fn(Seq<char>) -> Option<Seq<char>>) -> Result<
    Seq<(Seq<char>, Seq<char>)>,
    NodeError,
> {
    gossip_pairs(split_on(payload, ','), parse)
}

/// The address of each id after recording the pairs in turn.
pub open spec fn pairs_map(pairs: Seq<(Seq<char>, Seq<char>)>) -> Map<Seq<char>, Seq<char>>
    decreases pairs.len(),
{
    if pairs.len() == 0 {
        Map::empty()
    } else {
        pairs_map(pairs.drop_last()).insert(pairs.last().0, pairs.last().1)
    }
}

/// Whether `f` reads every address text as `parse` does, whatever the text's
/// storage: each outcome of `f` on a text is what `parse` gives for its
/// characters.
pub open spec fn parser_agrees<F: Fn(&str) -> Option<IpAddress>>(
    f: F,
    parse: spec_fn(Seq<char>) -> Option<Seq<char>>,
) -> bool {
    forall|text: &str, out: Option<IpAddress>|
        #[trigger] f.ensures((text,), out) ==> match out {
            Some(ip) => parse(text@) == Some(ip@),
            None => parse(text@) is None,
        }
}

/// The map in `res`, if any, by address.
pub open spec fn gossip_result_ips(res: Result<SiblingsMap, NodeError>) -> Result<
    Map<Seq<char>, Seq<char>>,
    NodeError,
> {
    match res {
        Ok(m) => Ok(ip_map(m@)),
        Err(e) => Err(e),
    }
}

/// The pairs' result, as a map by address.
pub open spec fn pairs_result_ips(res: Result<Seq<(Seq<char>, Seq<char>)>, NodeError>) -> Result<
    Map<Seq<char>, Seq<char>>,
    NodeError,
> {
    match res {
        Ok(pairs) => Ok(pairs_map(pairs)),
        Err(e) => Err(e),
    }
}

/// Whether every sibling in `m` was seen at an instant the clock can report.
pub open spec fn seen_now(m: Map<Seq<char>, SiblingView>) -> bool {
    forall|k: Seq<char>|
        #[trigger] m.dom().contains(k) ==> min_clock_nanos() <= m[k].last_seen <= max_clock_nanos()
}

/// Whether every sibling in `m` was seen at `now`.
pub open spec fn seen_at(m: Map<Seq<char>, SiblingView>, now: i128) -> bool {
    forall|k: Seq<char>| #[trigger] m.dom().contains(k) ==> m[k].last_seen == now
}

/// The message-handling rules of a node.
pub struct Node;

impl Node {
    /// The gossip payload listing `siblings`, in their order.
    pub fn build_gossip_payload(siblings: &SiblingsMap) -> (payload: String)
        ensures
            payload@ == gossip_text(siblings.entries()),
    {
        let mut payload = String::new();
        let n = siblings.len();
        let mut i: usize = 0;
        while i < n
            invariant
                n == siblings.entries().len(),
                i <= n,
                payload@ == gossip_text(siblings.entries().take(i as int)),
            decreases n - i,
        {
            let ghost prefix = siblings.entries().take(i as int);
            let ghost next = siblings.entries().take(i as int + 1);
            proof {
                assert(next.drop_last() =~= prefix);
                assert(next.last() == siblings.entries()[i as int]);
            }
            if i > 0 {
                push_char(&mut payload, ',');
            }
            payload.append(siblings.id_at(i).as_str());
            push_char(&mut payload, ':');
            payload.append(siblings.sibling_at(i).ip.as_str());
            proof {
                if i == 0 {
                    assert(prefix =~= Seq::<(Seq<char>, SiblingView)>::empty());
                    assert(payload@ =~= item_text(next[0].0, next[0].1.ip));
                } else {
                    assert(payload@ =~= gossip_text(prefix) + seq![','] + item_text(
                        next.last().0,
                        next.last().1.ip,
                    ));
                }
            }
            i = i + 1;
        }
        proof {
            assert(siblings.entries().take(n as int) =~= siblings.entries());
        }
        payload
    }

    /// Reads a gossip payload into siblings, each seen now (one clock
    /// reading). `parse_ip` reads an address text; a later item for the same
    /// id replaces an earlier one.
    pub fn parse_gossip_payload<F: Fn(&str) -> Option<IpAddress>>(payload: String, parse_ip: &F) -> (res:
        Result<SiblingsMap, NodeError>)
        requires
            forall|text: &str| #[trigger] parse_ip.requires((text,)),
        ensures
            forall|parse: spec_fn(Seq<char>) -> Option<Seq<char>>|
                #[trigger] parser_agrees(*parse_ip, parse) ==> gossip_result_ips(res)
                    == pairs_result_ips(parse_gossip(payload@, parse)),
            res matches Ok(m) ==> seen_now(m@),
            res matches Ok(m) ==> exists|now: i128|
                min_clock_nanos() <= now <= max_clock_nanos() && seen_at(m@, now),
    {
        let now = now_nanos();
        Self::parse_gossip_payload_at(payload, parse_ip, now)
    }

    /// Reads a gossip payload into siblings, each seen at `now`. `parse_ip`
    /// reads an address text; a later item for the same id replaces an
    /// earlier one.
    pub fn parse_gossip_payload_at<F: Fn(&str) -> Option<IpAddress>>(
        payload: String,
        parse_ip: &F,
        now: i128,
    ) -> (res: Result<SiblingsMap, NodeError>)
        requires
            forall|text: &str| #[trigger] parse_ip.requires((text,)),
        ensures
            forall|parse: spec_fn(Seq<char>) -> Option<Seq<char>>|
                #[trigger] parser_agrees(*parse_ip, parse) ==> gossip_result_ips(res)
                    == pairs_result_ips(parse_gossip(payload@, parse)),
            res matches Ok(m) ==> seen_at(m@, now),
    {
        let items = split_text(payload.as_str(), ',');
        let ghost item_views = split_on(payload@, ',');
        let mut siblings = SiblingsMap::new();
        let n = items.len();
        let mut i: usize = 0;
        while i < n
            invariant
                n == items@.len(),
                items@.map_values(|p: String| p@) == item_views,
                item_views == split_on(payload@, ','),
                i <= n,
                seen_at(siblings@, now),
                forall|text: &str| #[trigger] parse_ip.requires((text,)),
                forall|parse: spec_fn(Seq<char>) -> Option<Seq<char>>|
                    #[trigger] parser_agrees(*parse_ip, parse) ==> (gossip_pairs(
                        item_views.take(i as int),
                        parse,
                    ) matches Ok(pairs) && ip_map(siblings@) == pairs_map(pairs)),
            decreases n - i,
        {
            let ghost prefix = item_views.take(i as int);
            let ghost next = item_views.take(i as int + 1);
            let ghost item = items@[i as int]@;
            proof {
                assert(next.drop_last() =~= prefix);
                assert(next.last() == item);
            }
            let parts = split_text(items[i].as_str(), ':');
            proof {
                lemma_split_nonempty(item, ':');
                assert(parts@.len() == split_on(item, ':').len());
            }
            if parts.len() < 2 {
                proof {
                    assert forall|parse: spec_fn(Seq<char>) -> Option<Seq<char>>|
                        #[trigger] parser_agrees(*parse_ip, parse) implies gossip_result_ips(
                        Err::<SiblingsMap, NodeError>(NodeError::MissingIpInPayload),
                    ) == pairs_result_ips(parse_gossip(payload@, parse)) by {
                        assert(gossip_pairs(next, parse) == Err::<Seq<(Seq<char>, Seq<char>)>, NodeError>(
                            NodeError::MissingIpInPayload,
                        ));
                        lemma_error_sticks(item_views, i as int + 1, parse);
                        assert(gossip_pairs(item_views, parse) == gossip_pairs(next, parse));
                        assert(parse_gossip(payload@, parse) == gossip_pairs(item_views, parse));
                    }
                }
                return Err(NodeError::MissingIpInPayload);
            }
            let parsed = parse_ip(parts[1].as_str());
            proof {
                assert(parts@[1]@ == split_on(item, ':')[1]);
                assert(parts@[0]@ == split_on(item, ':')[0]);
            }
            match parsed {
                None => {
                    proof {
                        assert forall|parse: spec_fn(Seq<char>) -> Option<Seq<char>>|
                            #[trigger] parser_agrees(*parse_ip, parse) implies gossip_result_ips(
                            Err::<SiblingsMap, NodeError>(NodeError::InvalidIpInPayload),
                        ) == pairs_result_ips(parse_gossip(payload@, parse)) by {
                            assert(parse(split_on(item, ':')[1]) is None);
                            assert(gossip_pairs(next, parse) == Err::<Seq<(Seq<char>, Seq<char>)>, NodeError>(
                                NodeError::InvalidIpInPayload,
                            ));
                            lemma_error_sticks(item_views, i as int + 1, parse);
                        }
                    }
                    return Err(NodeError::InvalidIpInPayload);
                },
                Some(ip) => {
                    let ghost before = siblings@;
                    let ghost ip_view = ip@;
                    let id = parts[0].clone();
                    siblings.insert(id, Sibling { ip, last_seen: now });
                    proof {
                        assert forall|parse: spec_fn(Seq<char>) -> Option<Seq<char>>|
                            #[trigger] parser_agrees(*parse_ip, parse) implies (gossip_pairs(
                            next,
                            parse,
                        ) matches Ok(pairs) && ip_map(siblings@) == pairs_map(pairs)) by {
                            assert(parse(split_on(item, ':')[1]) == Some(ip_view));
                            let pairs = gossip_pairs(prefix, parse)->Ok_0;
                            let entry = (split_on(item, ':')[0], ip_view);
                            assert(gossip_pairs(next, parse) == Ok::<Seq<(Seq<char>, Seq<char>)>, NodeError>(
                                pairs.push(entry),
                            ));
                            assert(pairs.push(entry).drop_last() =~= pairs);
                            assert(ip_map(siblings@) =~= ip_map(before).insert(entry.0, entry.1));
                        }
                    }
                },
            }
            i = i + 1;
        }
        proof {
            assert(item_views.take(n as int) =~= item_views);
        }
        Ok(siblings)
    }

    /// Handles a received message, returning the datagram to send in answer,
    /// if any:
    /// - an identification request is answered by identifying this node;
    /// - an identification response records its sender as a sibling;
    /// - a gossip request is answered with the known siblings, if any;
    /// - a gossip response's siblings are recorded where they are fresher.
    pub fn handle_message<F: Fn(&str) -> Option<IpAddress>>(
        message: &Message,
        transport_sender: &TransportSender,
        discovery: &mut Discovery,
        parse_ip: &F,
    ) -> (res: Result<Option<OutboundMessage>, NodeError>)
        requires
            forall|text: &str| #[trigger] parse_ip.requires((text,)),
        ensures
            final(discovery).expiry() == old(discovery).expiry(),
            final(discovery).schedule() == old(discovery).schedule(),
            message.kind == MessageKind::Identity && message.direction == MessageDirection::Request
                ==> *final(discovery) == *old(discovery) && match message.src_ip {
                Some(ip) => res matches Ok(Some(out)) && transport_sender.is_datagram_of(
                    out,
                    outgoing_message(
                        transport_sender.src_node_id(),
                        MessageDirection::Response,
                        MessageKind::Identity,
                        None,
                    ),
                    ip@,
                ),
                None => res is Err && res->Err_0 == NodeError::MissingSourceIp,
            },
            message.kind == MessageKind::Identity && message.direction == MessageDirection::Response
                ==> match message.src_ip {
                Some(ip) => res == Ok::<Option<OutboundMessage>, NodeError>(None) && exists|now: i128|
                    min_clock_nanos() <= now <= max_clock_nanos() && final(discovery).siblings@ == old(
                        discovery,
                    ).siblings@.insert(
                        message.src_node_id@,
                        SiblingView { ip: ip@, last_seen: now },
                    ),
                None => res is Err && res->Err_0 == NodeError::MissingSourceIp && *final(discovery)
                    == *old(discovery),
            },
            message.kind == MessageKind::Gossip && message.direction == MessageDirection::Request
                ==> *final(discovery) == *old(discovery) && (old(discovery).siblings.entries().len()
                == 0 ==> res == Ok::<Option<OutboundMessage>, NodeError>(None)) && (old(
                discovery,
            ).siblings.entries().len() > 0 ==> match message.src_ip {
                Some(ip) => res matches Ok(Some(out)) && transport_sender.is_datagram_of(
                    out,
                    outgoing_message(
                        transport_sender.src_node_id(),
                        MessageDirection::Response,
                        MessageKind::Gossip,
                        Some(gossip_text(old(discovery).siblings.entries())),
                    ),
                    ip@,
                ),
                None => res is Err && res->Err_0 == NodeError::MissingSourceIp,
            }),
            message.kind == MessageKind::Gossip && message.direction == MessageDirection::Response
                ==> {
                &&& message.payload is None ==> res is Err && res->Err_0 == NodeError::MissingPayload
                    && *final(discovery) == *old(discovery)
                &&& forall|parse: spec_fn(Seq<char>) -> Option<Seq<char>>|
                    #[trigger] parser_agrees(*parse_ip, parse) ==> (message.payload matches Some(p)
                        ==> match parse_gossip(p@, parse) {
                        Err(e) => res is Err && res->Err_0 == e && *final(discovery) == *old(discovery),
                        Ok(pairs) => res == Ok::<Option<OutboundMessage>, NodeError>(None)
                            && exists|incoming: Map<Seq<char>, SiblingView>|
                            seen_now(incoming) && ip_map(incoming) == pairs_map(pairs)
                                && final(discovery).siblings@ == fresher_of(
                                old(discovery).siblings@,
                                incoming,
                            ),
                    })
            },
    {
        match (message.kind, message.direction) {
            (MessageKind::Identity, MessageDirection::Request) => {
                let out = Self::handle_identification_request(message, transport_sender)?;
                Ok(Some(out))
            },
            (MessageKind::Identity, MessageDirection::Response) => {
                Self::handle_identification_response(message, discovery)?;
                Ok(None)
            },
            (MessageKind::Gossip, MessageDirection::Request) => {
                Self::handle_gossip_request(message, transport_sender, discovery)
            },
            (MessageKind::Gossip, MessageDirection::Response) => {
                Self::handle_gossip_response(message, discovery, parse_ip)?;
                Ok(None)
            },
        }
    }

    /// The address a message came from.
    pub fn get_source_ip(message: &Message) -> (res: Result<IpAddress, NodeError>)
        ensures
            match message.src_ip {
                Some(ip) => res matches Ok(got) && got@ == ip@,
                None => res == Err::<IpAddress, NodeError>(NodeError::MissingSourceIp),
            },
    {
        match &message.src_ip {
            Some(ip) => Ok(ip.clone()),
            None => Err(NodeError::MissingSourceIp),
        }
    }

    /// The payload of a message.
    pub fn get_payload(message: &Message) -> (res: Result<String, NodeError>)
        ensures
            match message.payload {
                Some(p) => res matches Ok(got) && got@ == p@,
                None => res == Err::<String, NodeError>(NodeError::MissingPayload),
            },
    {
        match &message.payload {
            Some(payload) => Ok(payload.clone()),
            None => Err(NodeError::MissingPayload),
        }
    }

    /// Answers an identification request by identifying this node to its
    /// sender.
    pub fn handle_identification_request(message: &Message, transport_sender: &TransportSender) -> (res:
        Result<OutboundMessage, NodeError>)
        ensures
            match message.src_ip {
                Some(ip) => res matches Ok(out) && transport_sender.is_datagram_of(
                    out,
                    outgoing_message(
                        transport_sender.src_node_id(),
                        MessageDirection::Response,
                        MessageKind::Identity,
                        None,
                    ),
                    ip@,
                ),
                None => res is Err && res->Err_0 == NodeError::MissingSourceIp,
            },
    {
        let src_ip = Self::get_source_ip(message)?;
        Ok(transport_sender.respond_identification(src_ip))
    }

    /// Records the sender of an identification response as a sibling, seen
    /// now.
    pub fn handle_identification_response(message: &Message, discovery: &mut Discovery) -> (res:
        Result<(), NodeError>)
        ensures
            match message.src_ip {
                Some(ip) => res is Ok && exists|now: i128|
                    min_clock_nanos() <= now <= max_clock_nanos() && final(discovery).siblings@ == old(
                        discovery,
                    ).siblings@.insert(
                        message.src_node_id@,
                        SiblingView { ip: ip@, last_seen: now },
                    ),
                None => res == Err::<(), NodeError>(NodeError::MissingSourceIp) && *final(discovery)
                    == *old(discovery),
            },
            final(discovery).expiry() == old(discovery).expiry(),
            final(discovery).schedule() == old(discovery).schedule(),
    {
        let src_ip = Self::get_source_ip(message)?;
        discovery.record_sibling(message.src_node_id.clone(), src_ip);
        Ok(())
    }

    /// Answers a gossip request with the siblings this node knows; a node that
    /// knows none does not answer.
    pub fn handle_gossip_request(
        message: &Message,
        transport_sender: &TransportSender,
        discovery: &Discovery,
    ) -> (res: Result<Option<OutboundMessage>, NodeError>)
        ensures
            discovery.siblings.entries().len() == 0 ==> res == Ok::<
                Option<OutboundMessage>,
                NodeError,
            >(None),
            discovery.siblings.entries().len() > 0 ==> match message.src_ip {
                Some(ip) => res matches Ok(Some(out)) && transport_sender.is_datagram_of(
                    out,
                    outgoing_message(
                        transport_sender.src_node_id(),
                        MessageDirection::Response,
                        MessageKind::Gossip,
                        Some(gossip_text(discovery.siblings.entries())),
                    ),
                    ip@,
                ),
                None => res is Err && res->Err_0 == NodeError::MissingSourceIp,
            },
    {
        if discovery.siblings.is_empty() {
            return Ok(None);
        }
        let payload = Self::build_gossip_payload(&discovery.siblings);
        let src_ip = Self::get_source_ip(message)?;
        Ok(Some(transport_sender.respond_gossip(src_ip, payload)))
    }

    /// Records the siblings a gossip response lists, keeping existing records
    /// that were seen more recently.
    pub fn handle_gossip_response<F: Fn(&str) -> Option<IpAddress>>(
        message: &Message,
        discovery: &mut Discovery,
        parse_ip: &F,
    ) -> (res: Result<(), NodeError>)
        requires
            forall|text: &str| #[trigger] parse_ip.requires((text,)),
        ensures
            final(discovery).expiry() == old(discovery).expiry(),
            final(discovery).schedule() == old(discovery).schedule(),
            message.payload is None ==> res == Err::<(), NodeError>(NodeError::MissingPayload)
                && *final(discovery) == *old(discovery),
            forall|parse: spec_fn(Seq<char>) -> Option<Seq<char>>|
                #[trigger] parser_agrees(*parse_ip, parse) ==> (message.payload matches Some(p) ==> match parse_gossip(p@, parse) {
                    Err(e) => res == Err::<(), NodeError>(e) && *final(discovery) == *old(discovery),
                    Ok(pairs) => res is Ok && exists|incoming: Map<Seq<char>, SiblingView>|
                        seen_now(incoming) && ip_map(incoming) == pairs_map(pairs)
                            && final(discovery).siblings@ == fresher_of(
                            old(discovery).siblings@,
                            incoming,
                        ),
                }),
    {
        let payload = Self::get_payload(message)?;
        let siblings = Self::parse_gossip_payload(payload, parse_ip)?;
        discovery.record_siblings(siblings);
        Ok(())
    }
}

/// The (id, address) pairs of entries.
pub open spec fn entry_pairs(entries: Seq<(Seq<char>, SiblingView)>) -> Seq<(Seq<char>, Seq<char>)> {
    entries.map_values(|e: (Seq<char>, SiblingView)| (e.0, e.1.ip))
}

/// Whether an entry can travel in a gossip payload and be read back by
/// `parse`: neither its id nor its address text holds `,` or `:`, and `parse`
/// reads its address text as that address.
pub open spec fn gossip_safe(
    entry: (Seq<char>, SiblingView),
    parse: spec_fn(Seq<char>) -> Option<Seq<char>>,
) -> bool {
    &&& !entry.0.contains(',')
    &&& !entry.0.contains(':')
    &&& !entry.1.ip.contains(',')
    &&& !entry.1.ip.contains(':')
    &&& parse(entry.1.ip) == Some(entry.1.ip)
}

proof fn lemma_item_round_trip(id: Seq<char>, ip: Seq<char>)
    requires
        !id.contains(':'),
        !ip.contains(':'),
        !id.contains(','),
        !ip.contains(','),
    ensures
        item_parts(item_text(id, ip)) == Ok::<(Seq<char>, Seq<char>), NodeError>((id, ip)),
        split_on(item_text(id, ip), ',') == seq![item_text(id, ip)],
{
    lemma_split_concat(id, ip, ':');
    lemma_split_without_sep(id, ':');
    lemma_split_without_sep(ip, ':');
    assert(!item_text(id, ip).contains(',')) by {
        if item_text(id, ip).contains(',') {
            let i = choose|i: int| 0 <= i < item_text(id, ip).len() && item_text(id, ip)[i] == ',';
            if i < id.len() {
                assert(id[i] == ',');
            } else if i > id.len() {
                assert(ip[i - id.len() - 1] == ',');
            }
        }
    }
    lemma_split_without_sep(item_text(id, ip), ',');
}

/// The siblings a gossip payload lists are read back from it: a non-empty
/// payload built from entries that can travel reads as their (id, address)
/// pairs, in order, which give each id the address its entry has.
pub proof fn gossip_round_trip(
    entries: Seq<(Seq<char>, SiblingView)>,
    parse: spec_fn(Seq<char>) -> Option<Seq<char>>,
)
    requires
        entries.len() > 0,
        forall|i: int| 0 <= i < entries.len() ==> gossip_safe(#[trigger] entries[i], parse),
    ensures
        parse_gossip(gossip_text(entries), parse) == Ok::<Seq<(Seq<char>, Seq<char>)>, NodeError>(
            entry_pairs(entries),
        ),
        split_on(gossip_text(entries), ',').len() == entries.len(),
        pairs_map(entry_pairs(entries)) == ip_map(map_of(entries)),
    decreases entries.len(),
{
    let last = entries.last();
    assert(gossip_safe(entries[entries.len() - 1], parse));
    lemma_item_round_trip(last.0, last.1.ip);
    let item = item_text(last.0, last.1.ip);
    if entries.len() == 1 {
        assert(entry_pairs(entries) =~= seq![(last.0, last.1.ip)]);
        assert(seq![item].drop_last() =~= Seq::<Seq<char>>::empty());
        assert(entries.drop_last() =~= Seq::<(Seq<char>, SiblingView)>::empty());
        assert(entry_pairs(entries).drop_last() =~= Seq::<(Seq<char>, Seq<char>)>::empty());
        assert(entries[0] == last);
        assert(gossip_text(entries) == item);
        assert(gossip_pairs(seq![item].drop_last(), parse) == Ok::<
            Seq<(Seq<char>, Seq<char>)>,
            NodeError,
        >(Seq::empty()));
        assert(Seq::<(Seq<char>, Seq<char>)>::empty().push((last.0, last.1.ip)) =~= entry_pairs(
            entries,
        ));
        assert(map_of(entries.drop_last()) == Map::<Seq<char>, SiblingView>::empty());
        assert(pairs_map(entry_pairs(entries).drop_last()) == Map::<Seq<char>, Seq<char>>::empty());
        assert(ip_map(map_of(entries)) =~= pairs_map(entry_pairs(entries)));
    } else {
        let rest = entries.drop_last();
        assert forall|i: int| 0 <= i < rest.len() implies gossip_safe(#[trigger] rest[i], parse) by {
            assert(gossip_safe(entries[i], parse));
        }
        gossip_round_trip(rest, parse);
        lemma_split_concat(gossip_text(rest), item, ',');
        let items = split_on(gossip_text(entries), ',');
        assert(items == split_on(gossip_text(rest), ',') + seq![item]);
        assert(items.drop_last() =~= split_on(gossip_text(rest), ','));
        assert(items.last() == item);
        assert(entry_pairs(entries) =~= entry_pairs(rest).push((last.0, last.1.ip)));
        assert(entry_pairs(entries).drop_last() =~= entry_pairs(rest));
        assert(ip_map(map_of(entries)) =~= ip_map(map_of(rest)).insert(last.0, last.1.ip));
    }
}

/// Once an item fails, the payload fails with that item's error.
proof fn lemma_error_sticks(
    items: Seq<Seq<char>>,
    j: int,
    parse: spec_fn(Seq<char>) -> Option<Seq<char>>,
)
    requires
        0 <= j <= items.len(),
        gossip_pairs(items.take(j), parse) is Err,
    ensures
        gossip_pairs(items, parse) == gossip_pairs(items.take(j), parse),
    decreases items.len(),
{
    if j == items.len() {
        assert(items.take(j) =~= items);
    } else {
        assert(items.drop_last().take(j) =~= items.take(j));
        lemma_error_sticks(items.drop_last(), j, parse);
    }
}

} // verus!
