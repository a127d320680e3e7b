//! What a client makes of the relay's messages: the events it reports to
//! its user, the virtual address it holds, and the packets it passes between
//! the virtual network device and the relay.

use vstd::prelude::*;
use crate::ipv4::{spec_ipv4, spec_octets, ipv4_from_octets, lemma_octets_of_ipv4};
use crate::protocol::{ClientMessage, ClientMessageView, ServerMessage, ServerMessageView};

verus! {

/// What a client reports to its user.
#[derive(Debug, Clone, PartialEq, Eq)]
pub enum ClientEvent {
    /// The relay accepted the registration; the client's virtual address is `virtual_ip`.
    Connected { virtual_ip: u32 },
    /// The relay refused the registration.
    ConnectFailed { reason: String },
    /// `payload` came from the peer whose virtual address is `src_ip`.
    DataReceived { src_ip: u32, payload: Vec<u8> },
    /// A peer with the virtual address `virtual_ip` is in the room.
    PeerJoined { virtual_ip: u32 },
    /// The peer with the virtual address `virtual_ip` left the room.
    PeerLeft { virtual_ip: u32 },
}

/// The mathematical value of a [`ClientEvent`].
pub enum ClientEventView {
    Connected { virtual_ip: u32 },
    ConnectFailed { reason: Seq<char> },
    DataReceived { src_ip: u32, payload: Seq<u8> },
    PeerJoined { virtual_ip: u32 },
    PeerLeft { virtual_ip: u32 },
}

impl View for ClientEvent {
    type V = ClientEventView;

    open spec fn view(&self) -> ClientEventView {
        match self {
            ClientEvent::Connected { virtual_ip } => ClientEventView::Connected {
                virtual_ip: *virtual_ip,
            },
            ClientEvent::ConnectFailed { reason } => ClientEventView::ConnectFailed {
                reason: reason@,
            },
            ClientEvent::DataReceived { src_ip, payload } => ClientEventView::DataReceived {
                src_ip: *src_ip,
                payload: payload@,
            },
            ClientEvent::PeerJoined { virtual_ip } => ClientEventView::PeerJoined {
                virtual_ip: *virtual_ip,
            },
            ClientEvent::PeerLeft { virtual_ip } => ClientEventView::PeerLeft {
                virtual_ip: *virtual_ip,
            },
        }
    }
}

/// The mathematical value of an optional event.
pub open spec fn opt_event_view(e: Option<ClientEvent>) -> Option<ClientEventView> {
    match e {
        Some(e) => Some(e@),
        None => None,
    }
}

/// The event that a message of the relay gives rise to: every message
/// becomes the event of the same meaning, but for the answer to a keep-alive,
/// which is not reported.
pub open spec fn event_for(msg: ServerMessageView) -> Option<ClientEventView> {
    match msg {
        ServerMessageView::RegisterOk { virtual_ip } => Some(
            ClientEventView::Connected { virtual_ip },
        ),
        ServerMessageView::RegisterFailed { reason } => Some(
            ClientEventView::ConnectFailed { reason },
        ),
        ServerMessageView::Data { src_ip, payload } => Some(
            ClientEventView::DataReceived { src_ip, payload },
        ),
        ServerMessageView::PeerJoined { virtual_ip } => Some(
            ClientEventView::PeerJoined { virtual_ip },
        ),
        ServerMessageView::PeerLeft { virtual_ip } => Some(ClientEventView::PeerLeft { virtual_ip }),
        ServerMessageView::HeartbeatAck => None,
    }
}

/// The client's virtual address after `msg`: the one a registration reply
/// grants, else the one it had.
pub open spec fn address_after(current: Option<u32>, msg: ServerMessageView) -> Option<u32> {
    match msg {
        ServerMessageView::RegisterOk { virtual_ip } => Some(virtual_ip),
        _ => current,
    }
}

/// Every message of the relay but the answer to a keep-alive is reported as
/// the event of the same kind, carrying the message's fields unchanged; a
/// granted address is kept, and no other message changes the address.
pub proof fn lemma_events_keep_fields(current: Option<u32>, msg: ServerMessageView)
    ensures
        msg matches ServerMessageView::RegisterOk { virtual_ip } ==> event_for(msg) == Some(
            ClientEventView::Connected { virtual_ip },
        ) && address_after(current, msg) == Some(virtual_ip),
        msg matches ServerMessageView::RegisterFailed { reason } ==> event_for(msg) == Some(
            ClientEventView::ConnectFailed { reason },
        ),
        msg matches ServerMessageView::Data { src_ip, payload } ==> event_for(msg) == Some(
            ClientEventView::DataReceived { src_ip, payload },
        ),
        msg matches ServerMessageView::PeerJoined { virtual_ip } ==> event_for(msg) == Some(
            ClientEventView::PeerJoined { virtual_ip },
        ),
        msg matches ServerMessageView::PeerLeft { virtual_ip } ==> event_for(msg) == Some(
            ClientEventView::PeerLeft { virtual_ip },
        ),
        msg is HeartbeatAck <==> event_for(msg) is None,
        !(msg is RegisterOk) ==> address_after(current, msg) == current,
{
}

/// What a client knows of its standing with the relay.
pub struct ClientState {
    virtual_ip: Option<u32>,
}

impl View for ClientState {
    type V = Option<u32>;

    closed spec fn view(&self) -> Option<u32> {
        self.virtual_ip
    }
}

/// Where waiting for the answer to a registration stands after one message.
pub enum RegisterStep {
    /// The relay granted `virtual_ip`; `event` reports it.
    Registered { virtual_ip: u32, event: ClientEvent },
    /// The relay refused, for `reason`; `event` reports it.
    Rejected { reason: String, event: ClientEvent },
    /// Still waiting; `event`, if any, is to be reported meanwhile.
    Waiting { event: Option<ClientEvent> },
}

/// The mathematical value of a [`RegisterStep`].
pub enum RegisterStepView {
    Registered { virtual_ip: u32, event: ClientEventView },
    Rejected { reason: Seq<char>, event: ClientEventView },
    Waiting { event: Option<ClientEventView> },
}

impl View for RegisterStep {
    type V = RegisterStepView;

    open spec fn view(&self) -> RegisterStepView {
        match self {
            RegisterStep::Registered { virtual_ip, event } => RegisterStepView::Registered {
                virtual_ip: *virtual_ip,
                event: event@,
            },
            RegisterStep::Rejected { reason, event } => RegisterStepView::Rejected {
                reason: reason@,
                event: event@,
            },
            RegisterStep::Waiting { event } => RegisterStepView::Waiting {
                event: opt_event_view(*event),
            },
        }
    }
}

/// How waiting for the answer to a registration goes on after `msg`: a
/// grant ends it with the granted address, a refusal ends it with the
/// reason, a peer that joins is reported, anything else is passed over.
pub open spec fn register_step(msg: ServerMessageView) -> RegisterStepView {
    match msg {
        ServerMessageView::RegisterOk { virtual_ip } => RegisterStepView::Registered {
            virtual_ip,
            event: ClientEventView::Connected { virtual_ip },
        },
        ServerMessageView::RegisterFailed { reason } => RegisterStepView::Rejected {
            reason,
            event: ClientEventView::ConnectFailed { reason },
        },
        ServerMessageView::PeerJoined { virtual_ip } => RegisterStepView::Waiting {
            event: Some(ClientEventView::PeerJoined { virtual_ip }),
        },
        _ => RegisterStepView::Waiting { event: None },
    }
}

impl ClientState {
    /// Not registered yet.
    pub fn new() -> (s: ClientState)
        ensures
            s@ == None::<u32>,
    {
        ClientState { virtual_ip: None }
    }

    /// The virtual address the relay granted, once it has.
    pub fn virtual_ip(&self) -> (ip: Option<u32>)
        ensures
            ip == self@,
    {
        self.virtual_ip
    }

    /// Takes in a message of the relay while the client runs: records a
    /// granted address and gives the event to report.
    pub fn on_server_message(&mut self, msg: ServerMessage) -> (event: Option<ClientEvent>)
        ensures
            final(self)@ == address_after(old(self)@, msg@),
            opt_event_view(event) == event_for(msg@),
            msg matches ServerMessage::RegisterOk { virtual_ip } ==> event == Some(
                ClientEvent::Connected { virtual_ip },
            ) && final(self)@ == Some(virtual_ip),
            msg matches ServerMessage::RegisterFailed { reason } ==> event == Some(
                ClientEvent::ConnectFailed { reason },
            ),
            msg matches ServerMessage::Data { src_ip, payload } ==> event == Some(
                ClientEvent::DataReceived { src_ip, payload },
            ),
            msg matches ServerMessage::PeerJoined { virtual_ip } ==> event == Some(
                ClientEvent::PeerJoined { virtual_ip },
            ),
            msg matches ServerMessage::PeerLeft { virtual_ip } ==> event == Some(
                ClientEvent::PeerLeft { virtual_ip },
            ),
            msg is HeartbeatAck ==> event is None,
            !(msg is RegisterOk) ==> final(self)@ == old(self)@,
    {
        match msg {
            ServerMessage::RegisterOk { virtual_ip } => {
                self.virtual_ip = Some(virtual_ip);
                Some(ClientEvent::Connected { virtual_ip })
            },
            ServerMessage::RegisterFailed { reason } => Some(ClientEvent::ConnectFailed { reason }),
            ServerMessage::Data { src_ip, payload } => Some(
                ClientEvent::DataReceived { src_ip, payload },
            ),
            ServerMessage::PeerJoined { virtual_ip } => Some(ClientEvent::PeerJoined { virtual_ip }),
            ServerMessage::PeerLeft { virtual_ip } => Some(ClientEvent::PeerLeft { virtual_ip }),
            ServerMessage::HeartbeatAck => None,
        }
    }

    /// Takes in a message of the relay while the client waits for the
    /// answer to its registration: records a granted address and says how
    /// the wait goes on.
    pub fn on_register_reply(&mut self, msg: ServerMessage) -> (step: RegisterStep)
        ensures
            final(self)@ == address_after(old(self)@, msg@),
            step@ == register_step(msg@),
            msg matches ServerMessage::RegisterOk { virtual_ip } ==> (step == (RegisterStep::Registered {
                virtual_ip,
                event: ClientEvent::Connected { virtual_ip },
            })) && final(self)@ == Some(virtual_ip),
            msg matches ServerMessage::RegisterFailed { reason } ==> (step matches RegisterStep::Rejected {
                reason: r,
                event: ClientEvent::ConnectFailed { reason: r2 },
            } && r == reason && r2 == reason),
            msg matches ServerMessage::PeerJoined { virtual_ip } ==> (step == (RegisterStep::Waiting {
                event: Some(ClientEvent::PeerJoined { virtual_ip }),
            })),
            (msg is Data || msg is PeerLeft || msg is HeartbeatAck) ==> (step == (
            RegisterStep::Waiting { event: None })),
            !(msg is RegisterOk) ==> final(self)@ == old(self)@,
    {
        match msg {
            ServerMessage::RegisterOk { virtual_ip } => {
                self.virtual_ip = Some(virtual_ip);
                RegisterStep::Registered {
                    virtual_ip,
                    event: ClientEvent::Connected { virtual_ip },
                }
            },
            ServerMessage::RegisterFailed { reason } => {
                let event = ClientEvent::ConnectFailed { reason: reason.clone() };
                RegisterStep::Rejected { reason, event }
            },
            ServerMessage::PeerJoined { virtual_ip } => RegisterStep::Waiting {
                event: Some(ClientEvent::PeerJoined { virtual_ip }),
            },
            _ => RegisterStep::Waiting { event: None },
        }
    }
}

// ---------------------------------------------------------------------------
// The tunnel between the virtual network device and the relay.

/// The destination of an IPv4 packet: bytes 16 to 19 of its header, most
/// significant first; a packet shorter than a header has none.
pub open spec fn spec_packet_destination(packet: Seq<u8>) -> Option<u32> {
    if packet.len() >= 20 {
        Some(spec_ipv4(packet[16], packet[17], packet[18], packet[19]))
    } else {
        None
    }
}

/// A packet's destination comes from its header alone: a packet of at least
/// 20 bytes has one, whose octets are bytes 16 to 19 in that order, and
/// whatever follows those bytes does not change it; a shorter packet has none.
pub proof fn lemma_packet_destination_from_header(p: Seq<u8>, q: Seq<u8>)
    ensures
        spec_packet_destination(p) is None <==> p.len() < 20,
        p.len() >= 20 ==> spec_packet_destination(p + q) == spec_packet_destination(p),
        spec_packet_destination(p) matches Some(d) ==> spec_octets(d) == (p[16], p[17], p[18], p[19]),
{
    if p.len() >= 20 {
        lemma_octets_of_ipv4(p[16], p[17], p[18], p[19]);
        assert((p + q)[16] == p[16] && (p + q)[17] == p[17] && (p + q)[18] == p[18] && (p + q)[19]
            == p[19]);
    }
}

/// The destination address of an IPv4 packet read from the device.
pub fn packet_destination(packet: &[u8]) -> (dst: Option<u32>)
    ensures
        dst == spec_packet_destination(packet@),
{
    if packet.len() >= 20 {
        Some(ipv4_from_octets(packet[16], packet[17], packet[18], packet[19]))
    } else {
        None
    }
}

/// The message that carries a packet read from the device to the relay:
/// the whole packet, addressed to its destination. A packet too short to
/// have a destination is dropped.
pub fn tunnel_message(packet: Vec<u8>) -> (msg: Option<ClientMessage>)
    ensures
        match spec_packet_destination(packet@) {
            Some(dst_ip) => msg matches Some(m) && m@ == ClientMessageView::Data {
                dst_ip,
                payload: packet@,
            },
            None => msg is None,
        },
{
    match packet_destination(packet.as_slice()) {
        Some(dst_ip) => Some(ClientMessage::Data { dst_ip, payload: packet }),
        None => None,
    }
}

/// What the tunnel does with a message of the relay.
pub enum TunnelAction {
    /// Writes the packet to the device.
    WritePacket(Vec<u8>),
    /// Reports the event.
    Emit(ClientEvent),
    /// Nothing.
    Ignore,
}

/// The mathematical value of a [`TunnelAction`].
pub enum TunnelActionView {
    WritePacket(Seq<u8>),
    Emit(ClientEventView),
    Ignore,
}

impl View for TunnelAction {
    type V = TunnelActionView;

    open spec fn view(&self) -> TunnelActionView {
        match self {
            TunnelAction::WritePacket(p) => TunnelActionView::WritePacket(p@),
            TunnelAction::Emit(e) => TunnelActionView::Emit(e@),
            TunnelAction::Ignore => TunnelActionView::Ignore,
        }
    }
}

/// What the tunnel does with `msg`: a payload goes to the device as it
/// came, whoever sent it; peers that join or leave are reported; the rest
/// is passed over.
pub open spec fn tunnel_action_for(msg: ServerMessageView) -> TunnelActionView {
    match msg {
        ServerMessageView::Data { payload, .. } => TunnelActionView::WritePacket(payload),
        ServerMessageView::PeerJoined { virtual_ip } => TunnelActionView::Emit(
            ClientEventView::PeerJoined { virtual_ip },
        ),
        ServerMessageView::PeerLeft { virtual_ip } => TunnelActionView::Emit(
            ClientEventView::PeerLeft { virtual_ip },
        ),
        _ => TunnelActionView::Ignore,
    }
}

/// What the tunnel does with a message of the relay.
pub fn tunnel_action(msg: ServerMessage) -> (action: TunnelAction)
    ensures
        action@ == tunnel_action_for(msg@),
        msg matches ServerMessage::Data { payload, .. } ==> action == TunnelAction::WritePacket(
            payload,
        ),
        msg matches ServerMessage::PeerJoined { virtual_ip } ==> action == TunnelAction::Emit(
            ClientEvent::PeerJoined { virtual_ip },
        ),
        msg matches ServerMessage::PeerLeft { virtual_ip } ==> action == TunnelAction::Emit(
            ClientEvent::PeerLeft { virtual_ip },
        ),
        (msg is RegisterOk || msg is RegisterFailed || msg is HeartbeatAck) ==> action is Ignore,
{
    match msg {
        ServerMessage::Data { payload, .. } => TunnelAction::WritePacket(payload),
        ServerMessage::PeerJoined { virtual_ip } => TunnelAction::Emit(
            ClientEvent::PeerJoined { virtual_ip },
        ),
        ServerMessage::PeerLeft { virtual_ip } => TunnelAction::Emit(
            ClientEvent::PeerLeft { virtual_ip },
        ),
        _ => TunnelAction::Ignore,
    }
}

} // verus!
