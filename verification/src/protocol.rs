//! The tagged envelope exchanged over a socket: `Session` on admission,
//! `ConnectedUsers` after every membership change, `Message` for chat, and
//! `Disconnect` for an explicit goodbye. The JSON wire form lives in
//! [`crate::codec`].

use vstd::prelude::*;

use crate::profile::{DiscordUser, UserView};

verus! {

/// Mathematical value of a [`ChatMessage`].
pub struct ChatView {
    pub author: Seq<char>,
    pub content: Seq<char>,
}

/// One chat line: who said it and what they said.
#[derive(Debug, PartialEq, Eq)]
pub struct ChatMessage {
    pub author: String,
    pub content: String,
}

impl View for ChatMessage {
    type V = ChatView;

    open spec fn view(&self) -> ChatView {
        ChatView { author: self.author@, content: self.content@ }
    }
}

/// Mathematical value of a [`PresenceEntry`].
pub struct PresenceEntryView {
    pub identity: Seq<char>,
    pub profile: UserView,
}

/// One row of a presence snapshot: an identity and its profile.
#[derive(Debug, PartialEq, Eq)]
pub struct PresenceEntry {
    pub identity: String,
    pub profile: DiscordUser,
}

impl View for PresenceEntry {
    type V = PresenceEntryView;

    open spec fn view(&self) -> PresenceEntryView {
        PresenceEntryView { identity: self.identity@, profile: self.profile@ }
    }
}

/// Mathematical value of a [`WebsocketMessage`].
pub enum MessageView {
    Session(UserView),
    ConnectedUsers(Seq<PresenceEntryView>),
    Message(ChatView),
    Disconnect(Seq<char>),
}

/// The envelope exchanged over the socket. A presence snapshot is carried in
/// the hub's insertion order.
#[derive(Debug, PartialEq, Eq)]
pub enum WebsocketMessage {
    /// The newly admitted client's own profile; its first frame.
    Session(DiscordUser),
    /// The full identity-to-profile snapshot after a membership change.
    ConnectedUsers(Vec<PresenceEntry>),
    /// A chat line, delivered to everyone but its author.
    Message(ChatMessage),
    /// An explicit goodbye with a reason; terminal for the connection.
    Disconnect(String),
}

impl View for WebsocketMessage {
    type V = MessageView;

    open spec fn view(&self) -> MessageView {
        match self {
            WebsocketMessage::Session(u) => MessageView::Session(u@),
            WebsocketMessage::ConnectedUsers(v) => MessageView::ConnectedUsers(
                v@.map_values(|e: PresenceEntry| e@),
            ),
            WebsocketMessage::Message(c) => MessageView::Message(c@),
            WebsocketMessage::Disconnect(r) => MessageView::Disconnect(r@),
        }
    }
}

impl PresenceEntry {
    /// A copy with the same value.
    pub fn duplicate(&self) -> (r: PresenceEntry)
        ensures
            r@ == self@,
    {
        let r = PresenceEntry {
            identity: self.identity.clone(),
            profile: self.profile.duplicate(),
        };
        assert(r@ =~= self@);
        r
    }
}

impl WebsocketMessage {
    /// A copy with the same value; a broadcast hands each recipient its own.
    pub fn duplicate(&self) -> (r: WebsocketMessage)
        ensures
            r@ == self@,
    {
        match self {
            WebsocketMessage::Session(u) => WebsocketMessage::Session(u.duplicate()),
            WebsocketMessage::ConnectedUsers(v) => {
                let mut out: Vec<PresenceEntry> = Vec::new();
                let mut i: usize = 0;
                while i < v.len()
                    invariant
                        i <= v.len(),
                        out@.len() == i,
                        forall|j: int| 0 <= j < i ==> #[trigger] out@[j]@ == v@[j]@,
                    decreases v.len() - i,
                {
                    out.push(v[i].duplicate());
                    i = i + 1;
                }
                assert(out@.map_values(|e: PresenceEntry| e@) =~= v@.map_values(
                    |e: PresenceEntry| e@,
                ));
                WebsocketMessage::ConnectedUsers(out)
            },
            WebsocketMessage::Message(c) => WebsocketMessage::Message(
                ChatMessage { author: c.author.clone(), content: c.content.clone() },
            ),
            WebsocketMessage::Disconnect(r) => WebsocketMessage::Disconnect(r.clone()),
        }
    }
}

} // verus!
