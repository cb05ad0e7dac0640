//! The per-connection control loop, as a state machine. The surrounding I/O
//! layer races three event sources — an inbound frame, the heartbeat timer,
//! and the socket's own close or error — and hands exactly one
//! [`ConnEvent`] per iteration to [`ConnectionActor::handle_event`], which
//! decides the outbound actions and whether the loop is over. Admission and
//! teardown bracket the loop; a connection rejected at admission never
//! touches the hub.

use vstd::prelude::*;

use crate::codec::{decode_message, spec_decode};
use crate::heartbeat::{HeartbeatMonitor, TickAction};
use crate::hub::{
    deliver_to, deliveries, handles_of, snapshot_of, spec_recipients, Action, ActionView,
    CloseReason, CloseReasonView, Hub, HubEntryView, NORMAL_CLOSURE,
};
use crate::profile::DiscordUser;
use crate::protocol::{ChatMessage, ChatView, MessageView, WebsocketMessage};

verus! {

/// Why an upgrade request was refused before it ever reached the hub.
#[derive(PartialEq, Eq, Structural, Clone, Copy, Debug)]
pub enum AuthError {
    /// No credential header was presented.
    MissingCredential,
    /// The credential header is too short to carry a bearer token.
    MalformedCredential,
}

/// Mathematical value of a [`CloseCause`].
pub enum CloseCauseView {
    DisconnectRequested(Seq<char>),
    PeerClosed(Option<CloseReasonView>),
    TransportError,
    StreamEnded,
    TimedOut,
}

/// The terminal condition that ended a connection's loop.
#[derive(Debug, PartialEq, Eq)]
pub enum CloseCause {
    /// The peer sent an explicit `Disconnect` envelope with this reason.
    DisconnectRequested(String),
    /// The peer closed the socket, with whatever reason it supplied.
    PeerClosed(Option<CloseReason>),
    /// The transport reported an error; treated like a disconnect.
    TransportError,
    /// The inbound stream ended without a close frame.
    StreamEnded,
    /// The heartbeat found the peer silent past the timeout window.
    TimedOut,
}

impl View for CloseCause {
    type V = CloseCauseView;

    open spec fn view(&self) -> CloseCauseView {
        match self {
            CloseCause::DisconnectRequested(r) => CloseCauseView::DisconnectRequested(r@),
            CloseCause::PeerClosed(r) => CloseCauseView::PeerClosed(
                match r {
                    Some(cr) => Some(cr@),
                    None => None,
                },
            ),
            CloseCause::TransportError => CloseCauseView::TransportError,
            CloseCause::StreamEnded => CloseCauseView::StreamEnded,
            CloseCause::TimedOut => CloseCauseView::TimedOut,
        }
    }
}

/// Mathematical value of a [`ConnEvent`].
pub enum ConnEventView {
    Text(Seq<char>),
    Binary(Seq<u8>),
    PeerClose(Option<CloseReasonView>),
    Ping(Seq<u8>),
    Pong,
    Tick,
    TransportError,
    StreamEnded,
}

/// One event serviced by a connection's loop: exactly one per iteration.
#[derive(Debug, PartialEq, Eq)]
pub enum ConnEvent {
    /// An inbound text frame.
    Text(String),
    /// An inbound binary frame; the protocol does not use them.
    Binary(Vec<u8>),
    /// The peer closed the socket.
    PeerClose(Option<CloseReason>),
    /// An inbound ping with its payload.
    Ping(Vec<u8>),
    /// An inbound pong.
    Pong,
    /// The heartbeat timer fired.
    Tick,
    /// The transport reported an error.
    TransportError,
    /// The inbound stream ended.
    StreamEnded,
}

impl View for ConnEvent {
    type V = ConnEventView;

    open spec fn view(&self) -> ConnEventView {
        match self {
            ConnEvent::Text(t) => ConnEventView::Text(t@),
            ConnEvent::Binary(b) => ConnEventView::Binary(b@),
            ConnEvent::PeerClose(r) => ConnEventView::PeerClose(
                match r {
                    Some(cr) => Some(cr@),
                    None => None,
                },
            ),
            ConnEvent::Ping(b) => ConnEventView::Ping(b@),
            ConnEvent::Pong => ConnEventView::Pong,
            ConnEvent::Tick => ConnEventView::Tick,
            ConnEvent::TransportError => ConnEventView::TransportError,
            ConnEvent::StreamEnded => ConnEventView::StreamEnded,
        }
    }
}

/// What one loop iteration decided: the outbound work, and the terminal
/// condition if the loop is over.
pub struct StepResult {
    pub actions: Vec<Action>,
    pub terminal: Option<CloseCause>,
}

/// Mathematical value of a [`StepResult`] together with the monitor state it
/// leaves behind.
pub struct StepView {
    pub actions: Seq<ActionView>,
    pub terminal: Option<CloseCauseView>,
    pub last_activity: u64,
}

/// The close reason a terminal condition reports to the peer: an explicit
/// disconnect echoes its reason, a peer close propagates what the peer sent,
/// a timeout carries its own distinct description, and transport failures
/// close silently.
pub open spec fn spec_close_reason(cause: CloseCauseView) -> Option<CloseReasonView> {
    match cause {
        CloseCauseView::DisconnectRequested(r) => Some(
            CloseReasonView { code: NORMAL_CLOSURE as u16, description: Some(r) },
        ),
        CloseCauseView::PeerClosed(r) => r,
        CloseCauseView::TransportError => None,
        CloseCauseView::StreamEnded => None,
        CloseCauseView::TimedOut => Some(
            CloseReasonView {
                code: NORMAL_CLOSURE as u16,
                description: Some(("heartbeat timeout")@),
            },
        ),
    }
}

/// The transition of one loop iteration, on the mathematical state: given
/// the hub's rows, the connection's identity, handle and last-activity
/// instant, the event and the clock, it yields the actions, the terminal
/// condition, and the new last-activity instant.
pub open spec fn spec_step(
    rows: Seq<HubEntryView>,
    identity: Seq<char>,
    handle: u64,
    last: u64,
    event: ConnEventView,
    now: u64,
) -> StepView {
    match event {
        ConnEventView::Text(t) => match spec_decode(t) {
            Some(MessageView::Disconnect(reason)) => StepView {
                actions: Seq::empty(),
                terminal: Some(CloseCauseView::DisconnectRequested(reason)),
                last_activity: now,
            },
            _ => StepView {
                actions: deliver_to(
                    spec_recipients(rows, identity),
                    MessageView::Message(ChatView { author: identity, content: t }),
                ),
                terminal: None,
                last_activity: now,
            },
        },
        ConnEventView::Binary(_) => StepView {
            actions: Seq::empty(),
            terminal: None,
            last_activity: now,
        },
        ConnEventView::PeerClose(reason) => StepView {
            actions: Seq::empty(),
            terminal: Some(CloseCauseView::PeerClosed(reason)),
            last_activity: last,
        },
        ConnEventView::Ping(data) => StepView {
            actions: seq![ActionView::Pong { handle, data }],
            terminal: None,
            last_activity: now,
        },
        ConnEventView::Pong => StepView {
            actions: Seq::empty(),
            terminal: None,
            last_activity: now,
        },
        ConnEventView::Tick => if HeartbeatMonitor::spec_tick(last, now) == TickAction::TimedOut {
            StepView {
                actions: Seq::empty(),
                terminal: Some(CloseCauseView::TimedOut),
                last_activity: last,
            }
        } else {
            StepView {
                actions: seq![ActionView::Ping { handle }],
                terminal: None,
                last_activity: last,
            }
        },
        ConnEventView::TransportError => StepView {
            actions: Seq::empty(),
            terminal: Some(CloseCauseView::TransportError),
            last_activity: last,
        },
        ConnEventView::StreamEnded => StepView {
            actions: Seq::empty(),
            terminal: Some(CloseCauseView::StreamEnded),
            last_activity: last,
        },
    }
}

/// Extract the bearer token from the credential header of an upgrade
/// request: everything after the seven-character scheme prefix. A missing
/// header, or one too short to carry the prefix, is refused — before the
/// hub is touched at all.
pub fn bearer_token(header: Option<&str>) -> (r: Result<String, AuthError>)
    ensures
        match r {
            Ok(t) => header matches Some(h) && h@.len() >= 7 && t@ == h@.skip(7),
            Err(e) => match e {
                AuthError::MissingCredential => header is None,
                AuthError::MalformedCredential => header matches Some(h) && h@.len() < 7,
            },
        },
{
    match header {
        None => Err(AuthError::MissingCredential),
        Some(h) => {
            let n = h.unicode_len();
            if n < 7 {
                Err(AuthError::MalformedCredential)
            } else {
                let t = h.substring_char(7, n);
                assert(t@ =~= h@.skip(7));
                Ok(String::from_str(t))
            }
        },
    }
}

/// The state one connection's loop carries: the profile captured at
/// admission (whose `id` is the connection's immutable identity), the
/// delivery handle of its own socket, and its heartbeat monitor.
pub struct ConnectionActor {
    pub user: DiscordUser,
    pub handle: u64,
    pub monitor: HeartbeatMonitor,
}

impl ConnectionActor {
    /// Admit an authenticated connection: record it in the hub and return
    /// the frames to send — the client's own `Session` envelope first, then
    /// the refreshed `ConnectedUsers` snapshot to every registered handle,
    /// the new one included.
    pub fn connect(hub: &mut Hub, user: DiscordUser, handle: u64, now: u64) -> (r: (
        ConnectionActor,
        Vec<Action>,
    ))
        requires
            old(hub).wf(),
            forall|i: int|
                0 <= i < old(hub).rows().len() && old(hub).rows()[i].handle == handle
                    ==> old(hub).rows()[i].identity == user@.id,
        ensures
            r.0.user@ == user@,
            r.0.handle == handle,
            r.0.monitor.last() == now,
            final(hub).wf(),
            final(hub).reg() == old(hub).reg().insert(user@.id, handle),
            final(hub).pres() == old(hub).pres().insert(user@.id, user@),
            !old(hub).has_identity(user@.id) ==> final(hub).rows() == old(hub).rows().push(
                HubEntryView { identity: user@.id, handle, profile: user@ },
            ),
            old(hub).has_identity(user@.id) ==> exists|i: int|
                0 <= i < old(hub).rows().len() && old(hub).rows()[i].identity == user@.id
                    && final(hub).rows() == old(hub).rows().update(
                    i,
                    HubEntryView { identity: user@.id, handle, profile: user@ },
                ),
            r.1@.map_values(|a: Action| a@) == seq![
                ActionView::Deliver { handle, message: MessageView::Session(user@) },
            ] + deliver_to(
                handles_of(final(hub).rows()),
                MessageView::ConnectedUsers(snapshot_of(final(hub).rows())),
            ),
    {
        let actor = ConnectionActor {
            user: user.duplicate(),
            handle,
            monitor: HeartbeatMonitor::new(now),
        };
        let mut actions: Vec<Action> = Vec::new();
        actions.push(Action::Deliver { handle, message: WebsocketMessage::Session(user.duplicate()) });
        hub.join(user, handle);
        let snap = hub.snapshot();
        let connected = WebsocketMessage::ConnectedUsers(snap);
        let handles = hub.all_handles();
        let mut rest = deliveries(&handles, &connected);
        let ghost head = actions@.map_values(|a: Action| a@);
        let ghost tail = rest@.map_values(|a: Action| a@);
        actions.append(&mut rest);
        proof {
            assert(actions@.map_values(|a: Action| a@) =~= head + tail);
            assert(actions@.map_values(|a: Action| a@) =~= seq![
                ActionView::Deliver { handle, message: MessageView::Session(user@) },
            ] + deliver_to(
                handles_of(hub.rows()),
                MessageView::ConnectedUsers(snapshot_of(hub.rows())),
            ));
        }
        (actor, actions)
    }

    /// Service one event. Only the monitor state may change; the hub is
    /// read, never written, and the identity and handle are immutable. The
    /// whole outcome equals the mathematical transition [`spec_step`].
    pub fn handle_event(&mut self, hub: &Hub, event: ConnEvent, now: u64) -> (r: StepResult)
        requires
            hub.wf(),
        ensures
            final(self).user == old(self).user,
            final(self).handle == old(self).handle,
            (StepView {
                actions: r.actions@.map_values(|a: Action| a@),
                terminal: match r.terminal {
                    Some(c) => Some(c@),
                    None => None,
                },
                last_activity: final(self).monitor.last(),
            }) == spec_step(
                hub.rows(),
                old(self).user@.id,
                old(self).handle,
                old(self).monitor.last(),
                event@,
                now,
            ),
    {
        match event {
            ConnEvent::Text(t) => {
                self.monitor.refresh(now);
                match decode_message(t.as_str()) {
                    Some(WebsocketMessage::Disconnect(reason)) => {
                        let r = StepResult {
                            actions: Vec::new(),
                            terminal: Some(CloseCause::DisconnectRequested(reason)),
                        };
                        assert(r.actions@.map_values(|a: Action| a@) =~= Seq::<ActionView>::empty());
                        r
                    },
                    _ => {
                        let chat = WebsocketMessage::Message(
                            ChatMessage { author: self.user.id.clone(), content: t },
                        );
                        let actions = hub.broadcast(&self.user.id, &chat);
                        StepResult { actions, terminal: None }
                    },
                }
            },
            ConnEvent::Binary(_) => {
                self.monitor.refresh(now);
                let r = StepResult { actions: Vec::new(), terminal: None };
                assert(r.actions@.map_values(|a: Action| a@) =~= Seq::<ActionView>::empty());
                r
            },
            ConnEvent::PeerClose(reason) => {
                let r = StepResult {
                    actions: Vec::new(),
                    terminal: Some(CloseCause::PeerClosed(reason)),
                };
                assert(r.actions@.map_values(|a: Action| a@) =~= Seq::<ActionView>::empty());
                r
            },
            ConnEvent::Ping(data) => {
                self.monitor.refresh(now);
                let mut actions: Vec<Action> = Vec::new();
                actions.push(Action::Pong { handle: self.handle, data });
                let r = StepResult { actions, terminal: None };
                assert(r.actions@.map_values(|a: Action| a@) =~= seq![
                    ActionView::Pong { handle: old(self).handle, data: event@->Ping_0 },
                ]);
                r
            },
            ConnEvent::Pong => {
                self.monitor.refresh(now);
                let r = StepResult { actions: Vec::new(), terminal: None };
                assert(r.actions@.map_values(|a: Action| a@) =~= Seq::<ActionView>::empty());
                r
            },
            ConnEvent::Tick => {
                match self.monitor.on_tick(now) {
                    TickAction::TimedOut => {
                        let r = StepResult {
                            actions: Vec::new(),
                            terminal: Some(CloseCause::TimedOut),
                        };
                        assert(r.actions@.map_values(|a: Action| a@)
                            =~= Seq::<ActionView>::empty());
                        r
                    },
                    TickAction::Ping => {
                        let mut actions: Vec<Action> = Vec::new();
                        actions.push(Action::Ping { handle: self.handle });
                        let r = StepResult { actions, terminal: None };
                        assert(r.actions@.map_values(|a: Action| a@) =~= seq![
                            ActionView::Ping { handle: old(self).handle },
                        ]);
                        r
                    },
                }
            },
            ConnEvent::TransportError => {
                let r = StepResult { actions: Vec::new(), terminal: Some(CloseCause::TransportError) };
                assert(r.actions@.map_values(|a: Action| a@) =~= Seq::<ActionView>::empty());
                r
            },
            ConnEvent::StreamEnded => {
                let r = StepResult { actions: Vec::new(), terminal: Some(CloseCause::StreamEnded) };
                assert(r.actions@.map_values(|a: Action| a@) =~= Seq::<ActionView>::empty());
                r
            },
        }
    }

    /// Tear the connection down on its terminal condition: close its own
    /// socket with the reason the condition determines, drop it from the
    /// registry and the presence set, and send the refreshed
    /// `ConnectedUsers` snapshot to every remaining handle.
    pub fn teardown(self, hub: &mut Hub, cause: CloseCause) -> (r: Vec<Action>)
        requires
            old(hub).wf(),
        ensures
            final(hub).wf(),
            final(hub).reg() == old(hub).reg().remove(self.user@.id),
            final(hub).pres() == old(hub).pres().remove(self.user@.id),
            old(hub).has_identity(self.user@.id) ==> exists|i: int|
                0 <= i < old(hub).rows().len() && old(hub).rows()[i].identity == self.user@.id
                    && final(hub).rows() == old(hub).rows().remove(i),
            !old(hub).has_identity(self.user@.id) ==> *final(hub) == *old(hub),
            r@.map_values(|a: Action| a@) == seq![
                ActionView::Close { handle: self.handle, reason: spec_close_reason(cause@) },
            ] + deliver_to(
                handles_of(final(hub).rows()),
                MessageView::ConnectedUsers(snapshot_of(final(hub).rows())),
            ),
    {
        let mut actions: Vec<Action> = Vec::new();
        actions.push(Action::Close { handle: self.handle, reason: close_reason_of(cause) });
        hub.remove(&self.user.id);
        let snap = hub.snapshot();
        let connected = WebsocketMessage::ConnectedUsers(snap);
        let handles = hub.all_handles();
        let mut rest = deliveries(&handles, &connected);
        let ghost head = actions@.map_values(|a: Action| a@);
        let ghost tail = rest@.map_values(|a: Action| a@);
        actions.append(&mut rest);
        proof {
            assert(actions@.map_values(|a: Action| a@) =~= head + tail);
            assert(actions@.map_values(|a: Action| a@) =~= seq![
                ActionView::Close { handle: self.handle, reason: spec_close_reason(cause@) },
            ] + deliver_to(
                handles_of(hub.rows()),
                MessageView::ConnectedUsers(snapshot_of(hub.rows())),
            ));
        }
        actions
    }
}

/// Build the close reason a terminal condition reports.
pub fn close_reason_of(cause: CloseCause) -> (r: Option<CloseReason>)
    ensures
        (match r {
            Some(cr) => Some(cr@),
            None => None,
        }) == spec_close_reason(cause@),
{
    match cause {
        CloseCause::DisconnectRequested(reason) => Some(
            CloseReason { code: NORMAL_CLOSURE, description: Some(reason) },
        ),
        CloseCause::PeerClosed(r) => r,
        CloseCause::TransportError => None,
        CloseCause::StreamEnded => None,
        CloseCause::TimedOut => Some(
            CloseReason {
                code: NORMAL_CLOSURE,
                description: Some(String::from_str("heartbeat timeout")),
            },
        ),
    }
}

/// An inbound text frame carrying the canonical wire form of a `Disconnect`
/// envelope ends the loop with exactly that reason, sends nothing, and
/// counts as activity.
pub proof fn lemma_disconnect_frame_is_terminal(
    rows: Seq<HubEntryView>,
    identity: Seq<char>,
    handle: u64,
    last: u64,
    reason: Seq<char>,
    now: u64,
)
    ensures
        spec_step(
            rows,
            identity,
            handle,
            last,
            ConnEventView::Text(crate::codec::spec_encode(MessageView::Disconnect(reason))),
            now,
        ) == (StepView {
            actions: Seq::<ActionView>::empty(),
            terminal: Some(CloseCauseView::DisconnectRequested(reason)),
            last_activity: now,
        }),
{
    crate::codec::lemma_decode_of_encode(MessageView::Disconnect(reason));
}

} // verus!
