//! The principals the hub talks about: the profile snapshot captured at
//! connect time, and the persisted session record delivered through the
//! login-correlation handshake.

use vstd::prelude::*;

verus! {

/// Mathematical value of a [`DiscordUser`]: every displayed attribute as a
/// plain sequence of characters.
pub struct UserView {
    pub id: Seq<char>,
    pub username: Seq<char>,
    pub discriminator: Seq<char>,
    pub global_name: Option<Seq<char>>,
    pub avatar: Option<Seq<char>>,
    pub accent_color: Option<i32>,
}

/// Display attributes of an authenticated principal, captured once when the
/// connection is admitted and never refreshed for its lifetime. The `id`
/// field is the identity: the opaque string that keys the hub's maps.
#[derive(Debug, PartialEq, Eq)]
pub struct DiscordUser {
    pub id: String,
    pub username: String,
    pub discriminator: String,
    pub global_name: Option<String>,
    pub avatar: Option<String>,
    pub accent_color: Option<i32>,
}

impl View for DiscordUser {
    type V = UserView;

    open spec fn view(&self) -> UserView {
        UserView {
            id: self.id@,
            username: self.username@,
            discriminator: self.discriminator@,
            global_name: match self.global_name {
                Some(s) => Some(s@),
                None => None,
            },
            avatar: match self.avatar {
                Some(s) => Some(s@),
                None => None,
            },
            accent_color: self.accent_color,
        }
    }
}

impl DiscordUser {
    /// A copy with the same value; written out field by field so the equality
    /// of the views is part of the contract.
    pub fn duplicate(&self) -> (r: DiscordUser)
        ensures
            r@ == self@,
    {
        let r = DiscordUser {
            id: self.id.clone(),
            username: self.username.clone(),
            discriminator: self.discriminator.clone(),
            global_name: self.global_name.clone(),
            avatar: self.avatar.clone(),
            accent_color: self.accent_color,
        };
        assert(r@ =~= self@);
        r
    }
}

/// Mathematical value of a [`UserSession`].
pub struct SessionView {
    pub access_token: Seq<char>,
    pub refresh_token: Seq<char>,
    pub session: UserView,
}

/// The persisted session record: the token pair under which the principal is
/// stored, together with its profile. This is the payload a resolved login
/// socket receives as its final frame.
#[derive(Debug, PartialEq, Eq)]
pub struct UserSession {
    pub access_token: String,
    pub refresh_token: String,
    pub session: DiscordUser,
}

impl View for UserSession {
    type V = SessionView;

    open spec fn view(&self) -> SessionView {
        SessionView {
            access_token: self.access_token@,
            refresh_token: self.refresh_token@,
            session: self.session@,
        }
    }
}

impl UserSession {
    /// A copy with the same value.
    pub fn duplicate(&self) -> (r: UserSession)
        ensures
            r@ == self@,
    {
        let r = UserSession {
            access_token: self.access_token.clone(),
            refresh_token: self.refresh_token.clone(),
            session: self.session.duplicate(),
        };
        assert(r@ =~= self@);
        r
    }
}

/// A freshly issued token pair, as handed back by the persistence
/// collaborator after a refresh.
#[derive(Debug, PartialEq, Eq)]
pub struct AccessTokens {
    pub access_token: String,
    pub refresh_token: String,
}

/// The message a resolved login delivers to the parked login socket.
#[derive(Debug, PartialEq, Eq)]
pub struct LoginPayload {
    pub payload: UserSession,
}

} // verus!
