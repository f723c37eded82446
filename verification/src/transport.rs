//! The plain-text datagram protocol spoken between nodes.
//!
//! A message is the text `<source node id>|<direction>|<kind>` optionally
//! followed by `|<payload>`, sent as UTF-8 bytes.

use vstd::prelude::*;
use vstd::string::StringExecFns;
use vstd::utf8::*;

use crate::error::ErrorKind;
use crate::ip::IpAddress;
use crate::text::{push_char, str_eq, lemma_split_concat, lemma_split_nonempty, lemma_split_without_sep, split_on, split_text};

verus! {

/// Whether a message asks for something or answers a request.
#[derive(PartialEq, Eq, Structural, Debug, Clone, Copy)]
pub enum MessageDirection {
    Request,
    Response,
}

/// What a message is about.
#[derive(PartialEq, Eq, Structural, Debug, Clone, Copy)]
pub enum MessageKind {
    Identity,
    Gossip,
}

/// Why received bytes do not form a message.
#[derive(PartialEq, Eq, Structural, Debug, Clone, Copy)]
pub enum MessageError {
    /// The bytes are not UTF-8 text.
    InvalidUtf8,
    /// The text has no direction field.
    MissingDirection,
    /// The direction field is neither `req` nor `res`.
    InvalidDirection,
    /// The text has no kind field.
    MissingKind,
    /// The kind field is neither `id` nor `goss`.
    InvalidKind,
}

impl MessageError {
    /// Every malformed message is invalid data.
    pub fn kind(&self) -> (k: ErrorKind)
        ensures
            k == ErrorKind::InvalidData,
    {
        ErrorKind::InvalidData
    }
}

/// The wire text of a direction.
pub open spec fn direction_text(direction: MessageDirection) -> Seq<char> {
    match direction {
        MessageDirection::Request => seq!['r', 'e', 'q'],
        MessageDirection::Response => seq!['r', 'e', 's'],
    }
}

/// The direction whose wire text is `text`, if any.
pub open spec fn direction_from_text(text: Seq<char>) -> Option<MessageDirection> {
    if text == seq!['r', 'e', 'q'] {
        Some(MessageDirection::Request)
    } else if text == seq!['r', 'e', 's'] {
        Some(MessageDirection::Response)
    } else {
        None
    }
}

/// The wire text of a kind.
pub open spec fn kind_text(kind: MessageKind) -> Seq<char> {
    match kind {
        MessageKind::Identity => seq!['i', 'd'],
        MessageKind::Gossip => seq!['g', 'o', 's', 's'],
    }
}

/// The kind whose wire text is `text`, if any.
pub open spec fn kind_from_text(text: Seq<char>) -> Option<MessageKind> {
    if text == seq!['i', 'd'] {
        Some(MessageKind::Identity)
    } else if text == seq!['g', 'o', 's', 's'] {
        Some(MessageKind::Gossip)
    } else {
        None
    }
}

impl MessageDirection {
    /// Reads a direction from its wire text.
    pub fn from_str(s: &str) -> (res: Result<MessageDirection, MessageError>)
        ensures
            res == (match direction_from_text(s@) {
                Some(d) => Ok(d),
                None => Err(MessageError::InvalidDirection),
            }),
    {
        proof {
            reveal_strlit("req");
            assert("req"@ =~= seq!['r', 'e', 'q']);
            reveal_strlit("res");
            assert("res"@ =~= seq!['r', 'e', 's']);
        }
        if str_eq(s, "req") {
            Ok(MessageDirection::Request)
        } else if str_eq(s, "res") {
            Ok(MessageDirection::Response)
        } else {
            Err(MessageError::InvalidDirection)
        }
    }

    /// The wire text of the direction.
    pub fn as_str(&self) -> (s: &'static str)
        ensures
            s@ == direction_text(*self),
    {
        proof {
            reveal_strlit("req");
            assert("req"@ =~= seq!['r', 'e', 'q']);
            reveal_strlit("res");
            assert("res"@ =~= seq!['r', 'e', 's']);
        }
        match self {
            MessageDirection::Request => "req",
            MessageDirection::Response => "res",
        }
    }
}

impl MessageKind {
    /// Reads a kind from its wire text.
    pub fn from_str(s: &str) -> (res: Result<MessageKind, MessageError>)
        ensures
            res == (match kind_from_text(s@) {
                Some(k) => Ok(k),
                None => Err(MessageError::InvalidKind),
            }),
    {
        proof {
            reveal_strlit("id");
            assert("id"@ =~= seq!['i', 'd']);
            reveal_strlit("goss");
            assert("goss"@ =~= seq!['g', 'o', 's', 's']);
        }
        if str_eq(s, "id") {
            Ok(MessageKind::Identity)
        } else if str_eq(s, "goss") {
            Ok(MessageKind::Gossip)
        } else {
            Err(MessageError::InvalidKind)
        }
    }

    /// The wire text of the kind.
    pub fn as_str(&self) -> (s: &'static str)
        ensures
            s@ == kind_text(*self),
    {
        proof {
            reveal_strlit("id");
            assert("id"@ =~= seq!['i', 'd']);
            reveal_strlit("goss");
            assert("goss"@ =~= seq!['g', 'o', 's', 's']);
        }
        match self {
            MessageKind::Identity => "id",
            MessageKind::Gossip => "goss",
        }
    }
}

/// Reading the wire text of a direction gives the direction back.
pub proof fn direction_text_round_trip(direction: MessageDirection)
    ensures
        direction_from_text(direction_text(direction)) == Some(direction),
{
    assert(seq!['r', 'e', 'q'] != seq!['r', 'e', 's']) by {
        assert(seq!['r', 'e', 'q'][2] != seq!['r', 'e', 's'][2]);
    }
}

/// A text read as a direction is that direction's wire text.
pub proof fn direction_text_unique(text: Seq<char>)
    ensures
        direction_from_text(text) matches Some(d) ==> direction_text(d) == text,
{
}

/// Reading the wire text of a kind gives the kind back.
pub proof fn kind_text_round_trip(kind: MessageKind)
    ensures
        kind_from_text(kind_text(kind)) == Some(kind),
{
    assert(seq!['i', 'd'] != seq!['g', 'o', 's', 's']) by {
        assert(seq!['i', 'd'].len() != seq!['g', 'o', 's', 's'].len());
    }
}

/// A text read as a kind is that kind's wire text.
pub proof fn kind_text_unique(text: Seq<char>)
    ensures
        kind_from_text(text) matches Some(k) ==> kind_text(k) == text,
{
}

/// A protocol message. `src_ip` is known only for a received message: it is
/// the address the datagram came from and is not part of the wire text.
#[derive(Debug)]
pub struct Message {
    pub src_ip: Option<IpAddress>,
    pub src_node_id: String,
    pub direction: MessageDirection,
    pub kind: MessageKind,
    pub payload: Option<String>,
}

/// A message as values: texts as character sequences.
pub struct MessageView {
    pub src_ip: Option<Seq<char>>,
    pub src_node_id: Seq<char>,
    pub direction: MessageDirection,
    pub kind: MessageKind,
    pub payload: Option<Seq<char>>,
}

impl View for Message {
    type V = MessageView;

    open spec fn view(&self) -> MessageView {
        MessageView {
            src_ip: match self.src_ip {
                Some(ip) => Some(ip@),
                None => None,
            },
            src_node_id: self.src_node_id@,
            direction: self.direction,
            kind: self.kind,
            payload: match self.payload {
                Some(p) => Some(p@),
                None => None,
            },
        }
    }
}

/// The wire text of a message: `id|direction|kind`, then `|payload` when there
/// is a payload.
pub open spec fn message_text(m: MessageView) -> Seq<char> {
    let head = m.src_node_id + seq!['|'] + direction_text(m.direction) + seq!['|'] + kind_text(
        m.kind,
    );
    match m.payload {
        Some(p) => head + seq!['|'] + p,
        None => head,
    }
}

/// What a received text means, once split at `|`: the first piece is the
/// source node id, the second the direction, the third the kind, and the
/// fourth, when present, the payload; pieces after the fourth are ignored.
/// The fields are checked in that order and the first failure is reported.
pub open spec fn parse_message_text(text: Seq<char>, src_ip: Seq<char>) -> Result<
    MessageView,
    MessageError,
> {
    let parts = split_on(text, '|');
    if parts.len() < 2 {
        Err(MessageError::MissingDirection)
    } else if direction_from_text(parts[1]) is None {
        Err(MessageError::InvalidDirection)
    } else if parts.len() < 3 {
        Err(MessageError::MissingKind)
    } else if kind_from_text(parts[2]) is None {
        Err(MessageError::InvalidKind)
    } else {
        Ok(
            MessageView {
                src_ip: Some(src_ip),
                src_node_id: parts[0],
                direction: direction_from_text(parts[1])->Some_0,
                kind: kind_from_text(parts[2])->Some_0,
                payload: if parts.len() >= 4 {
                    Some(parts[3])
                } else {
                    None
                },
            },
        )
    }
}

/// What received bytes mean: UTF-8 text read as a message.
pub open spec fn parse_message_bytes(bytes: Seq<u8>, src_ip: Seq<char>) -> Result<
    MessageView,
    MessageError,
> {
    if valid_utf8(bytes) {
        parse_message_text(decode_utf8(bytes), src_ip)
    } else {
        Err(MessageError::InvalidUtf8)
    }
}

/// The view of a parse result.
pub open spec fn message_result_view(res: Result<Message, MessageError>) -> Result<
    MessageView,
    MessageError,
> {
    match res {
        Ok(m) => Ok(m@),
        Err(e) => Err(e),
    }
}

impl Message {
    /// The wire text of the message.
    pub fn to_text(&self) -> (text: String)
        ensures
            text@ == message_text(self@),
    {
        let mut text = self.src_node_id.clone();
        push_char(&mut text, '|');
        text.append(self.direction.as_str());
        push_char(&mut text, '|');
        text.append(self.kind.as_str());
        match &self.payload {
            Some(payload) => {
                push_char(&mut text, '|');
                text.append(payload.as_str());
            },
            None => {},
        }
        text
    }
}

/// Decodes bytes as UTF-8 text (`std::str::from_utf8`): the text when the
/// bytes are well-formed UTF-8, nothing otherwise.
#[verifier::external_body]
fn utf8_text(bytes: &[u8]) -> (text: Option<&str>)
    ensures
        text is Some <==> valid_utf8(bytes@),
        text matches Some(t) ==> t@ == decode_utf8(bytes@),
{
    std::str::from_utf8(bytes).ok()
}

/// Turns received datagrams into messages.
pub struct TransportReceiver;

impl TransportReceiver {
    /// Reads the bytes of a datagram as text.
    pub fn parse_bytes_to_text(bytes: &[u8]) -> (res: Result<&str, MessageError>)
        ensures
            res is Ok <==> valid_utf8(bytes@),
            res matches Ok(t) ==> t@ == decode_utf8(bytes@),
            res matches Err(e) ==> e == MessageError::InvalidUtf8,
    {
        match utf8_text(bytes) {
            Some(text) => Ok(text),
            None => Err(MessageError::InvalidUtf8),
        }
    }

    /// Reads the bytes of a datagram received from `src_ip` as a message.
    pub fn build_message(bytes: &[u8], src_ip: IpAddress) -> (res: Result<Message, MessageError>)
        ensures
            message_result_view(res) == parse_message_bytes(bytes@, src_ip@),
    {
        let text = Self::parse_bytes_to_text(bytes)?;
        let parts = split_text(text, '|');
        let ghost pieces = split_on(text@, '|');
        proof {
            lemma_split_nonempty(text@, '|');
            assert(parts@.len() == pieces.len());
            assert(forall|i: int| 0 <= i < parts@.len() ==> #[trigger] parts@[i]@ == pieces[i]);
        }
        if parts.len() < 2 {
            return Err(MessageError::MissingDirection);
        }
        let direction = MessageDirection::from_str(parts[1].as_str())?;
        if parts.len() < 3 {
            return Err(MessageError::MissingKind);
        }
        let kind = MessageKind::from_str(parts[2].as_str())?;
        let payload = if parts.len() >= 4 {
            Some(parts[3].clone())
        } else {
            None
        };
        Ok(Message { src_ip: Some(src_ip), src_node_id: parts[0].clone(), direction, kind, payload })
    }
}

/// A datagram ready to go out: its bytes and where to send them.
#[derive(Debug)]
pub struct OutboundMessage {
    pub dest_ip: IpAddress,
    pub dest_port: u16,
    pub bytes: Vec<u8>,
}

/// Writes the messages a node sends: every message names this node as its
/// source and goes to the peers' shared internal port.
#[derive(Debug)]
pub struct TransportSender {
    src_node_id: String,
    internal_port: u16,
}

impl Clone for TransportSender {
    fn clone(&self) -> (copy: Self)
        ensures
            copy.src_node_id() == self.src_node_id(),
            copy.internal_port() == self.internal_port(),
    {
        TransportSender { src_node_id: self.src_node_id.clone(), internal_port: self.internal_port }
    }
}

/// The message a node with id `src_node_id` sends.
pub open spec fn outgoing_message(
    src_node_id: Seq<char>,
    direction: MessageDirection,
    kind: MessageKind,
    payload: Option<Seq<char>>,
) -> MessageView {
    MessageView { src_ip: None, src_node_id, direction, kind, payload }
}

impl TransportSender {
    /// A sender for the node `src_node_id` whose peers listen on `internal_port`.
    pub fn new(src_node_id: String, internal_port: u16) -> (sender: TransportSender)
        ensures
            sender.src_node_id() == src_node_id@,
            sender.internal_port() == internal_port,
    {
        TransportSender { src_node_id, internal_port }
    }

    /// The id this sender writes as the source of its messages.
    pub closed spec fn src_node_id(&self) -> Seq<char> {
        self.src_node_id@
    }

    /// The port its messages go to.
    pub closed spec fn internal_port(&self) -> u16 {
        self.internal_port
    }

    /// The message that sends `m` to `dest_ip`.
    pub open spec fn is_datagram_of(
        &self,
        out: OutboundMessage,
        m: MessageView,
        dest_ip: Seq<char>,
    ) -> bool {
        &&& out.dest_ip@ == dest_ip
        &&& out.dest_port == self.internal_port()
        &&& out.bytes@ == encode_utf8(message_text(m))
    }

    /// Asks `dest_ip` to identify itself.
    pub fn request_identification(&self, dest_ip: IpAddress) -> (out: OutboundMessage)
        ensures
            self.is_datagram_of(
                out,
                outgoing_message(
                    self.src_node_id(),
                    MessageDirection::Request,
                    MessageKind::Identity,
                    None,
                ),
                dest_ip@,
            ),
    {
        self.send_request_message(MessageKind::Identity, None, dest_ip)
    }

    /// Identifies this node to `dest_ip`.
    pub fn respond_identification(&self, dest_ip: IpAddress) -> (out: OutboundMessage)
        ensures
            self.is_datagram_of(
                out,
                outgoing_message(
                    self.src_node_id(),
                    MessageDirection::Response,
                    MessageKind::Identity,
                    None,
                ),
                dest_ip@,
            ),
    {
        self.send_response_message(MessageKind::Identity, None, dest_ip)
    }

    /// Asks `dest_ip` for the siblings it knows.
    pub fn request_gossip(&self, dest_ip: IpAddress) -> (out: OutboundMessage)
        ensures
            self.is_datagram_of(
                out,
                outgoing_message(
                    self.src_node_id(),
                    MessageDirection::Request,
                    MessageKind::Gossip,
                    None,
                ),
                dest_ip@,
            ),
    {
        self.send_request_message(MessageKind::Gossip, None, dest_ip)
    }

    /// Tells `dest_ip` the siblings this node knows, as `payload`.
    pub fn respond_gossip(&self, dest_ip: IpAddress, payload: String) -> (out: OutboundMessage)
        ensures
            self.is_datagram_of(
                out,
                outgoing_message(
                    self.src_node_id(),
                    MessageDirection::Response,
                    MessageKind::Gossip,
                    Some(payload@),
                ),
                dest_ip@,
            ),
    {
        self.send_response_message(MessageKind::Gossip, Some(payload), dest_ip)
    }

    fn send_request_message(
        &self,
        kind: MessageKind,
        payload: Option<String>,
        dest_ip: IpAddress,
    ) -> (out: OutboundMessage)
        ensures
            self.is_datagram_of(
                out,
                outgoing_message(
                    self.src_node_id(),
                    MessageDirection::Request,
                    kind,
                    match payload {
                        Some(p) => Some(p@),
                        None => None,
                    },
                ),
                dest_ip@,
            ),
    {
        self.send_message(MessageDirection::Request, kind, payload, dest_ip)
    }

    fn send_response_message(
        &self,
        kind: MessageKind,
        payload: Option<String>,
        dest_ip: IpAddress,
    ) -> (out: OutboundMessage)
        ensures
            self.is_datagram_of(
                out,
                outgoing_message(
                    self.src_node_id(),
                    MessageDirection::Response,
                    kind,
                    match payload {
                        Some(p) => Some(p@),
                        None => None,
                    },
                ),
                dest_ip@,
            ),
    {
        self.send_message(MessageDirection::Response, kind, payload, dest_ip)
    }

    /// Writes the message with the given fields, addressed to `dest_ip` on the
    /// internal port.
    pub fn send_message(
        &self,
        direction: MessageDirection,
        kind: MessageKind,
        payload: Option<String>,
        dest_ip: IpAddress,
    ) -> (out: OutboundMessage)
        ensures
            self.is_datagram_of(
                out,
                outgoing_message(
                    self.src_node_id(),
                    direction,
                    kind,
                    match payload {
                        Some(p) => Some(p@),
                        None => None,
                    },
                ),
                dest_ip@,
            ),
    {
        let message = Message {
            src_ip: None,
            src_node_id: self.src_node_id.clone(),
            direction,
            kind,
            payload,
        };
        let text = message.to_text();
        let bytes = vstd::slice::slice_to_vec(text.as_str().as_bytes());
        OutboundMessage { dest_ip, dest_port: self.internal_port, bytes }
    }
}

/// The message a received datagram carries is the message that was sent, with
/// the sender's address as its source, whenever neither the source node id nor
/// the payload contains `|`.
pub proof fn message_round_trip(m: MessageView, src_ip: Seq<char>)
    requires
        !m.src_node_id.contains('|'),
        m.payload matches Some(p) ==> !p.contains('|'),
    ensures
        parse_message_bytes(encode_utf8(message_text(m)), src_ip) == Ok::<
            MessageView,
            MessageError,
        >(MessageView { src_ip: Some(src_ip), ..m }),
{
    let text = message_text(m);
    vstd::utf8::encode_utf8_valid_utf8(text);
    vstd::utf8::encode_utf8_decode_utf8(text);
    let d = direction_text(m.direction);
    let k = kind_text(m.kind);
    assert(!d.contains('|'));
    assert(!k.contains('|'));
    lemma_split_without_sep(m.src_node_id, '|');
    lemma_split_without_sep(d, '|');
    lemma_split_without_sep(k, '|');
    direction_text_round_trip(m.direction);
    kind_text_round_trip(m.kind);
    let rest = match m.payload {
        Some(p) => k + seq!['|'] + p,
        None => k,
    };
    match m.payload {
        Some(p) => {
            lemma_split_without_sep(p, '|');
            lemma_split_concat(k, p, '|');
        },
        None => {},
    }
    lemma_split_concat(d, rest, '|');
    lemma_split_concat(m.src_node_id, d + seq!['|'] + rest, '|');
    assert(text == m.src_node_id + seq!['|'] + (d + seq!['|'] + rest));
    let parts = split_on(text, '|');
    assert(parts[0] == m.src_node_id);
    assert(parts[1] == d);
    assert(parts[2] == k);
    match m.payload {
        Some(p) => {
            assert(parts.len() == 4);
            assert(parts[3] == p);
        },
        None => {
            assert(parts.len() == 3);
        },
    }
}

} // verus!
