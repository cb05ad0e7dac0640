//! The login correlator: the bridge between a socket opened before
//! authentication and the HTTP callback that completes it. A login socket
//! parks under a freshly minted correlation token; the callback resolves the
//! token at most once, which delivers the session record to the parked
//! socket and closes it.

use vstd::pervasive::VecAdditionalExecFns;
use vstd::prelude::*;

use crate::assoc::{distinct_keys, has_key, lemma_dom, lemma_index, lemma_push, lemma_remove,
    lemma_update, map_of};
use crate::hub::{Action, ActionView, CloseReason, CloseReasonView, NORMAL_CLOSURE};
use crate::profile::{AccessTokens, DiscordUser, UserSession};

verus! {

/// Resolution was attempted with a token that is not (or no longer) parked.
/// The HTTP caller surfaces this to the browser; the hub is untouched.
#[derive(Debug, PartialEq, Eq)]
pub struct CorrelationMiss;

/// One parked login: the token embedded in the authorization URL and the
/// delivery handle of the waiting socket.
struct PendingLogin {
    token: String,
    handle: u64,
}

/// The token-to-handle table of logins that have opened a socket but whose
/// OAuth exchange has not yet come back. Entries never expire on their own:
/// an abandoned login keeps its entry until process restart (a known gap,
/// preserved deliberately).
pub struct LoginCorrelator {
    pending: Vec<PendingLogin>,
}

impl LoginCorrelator {
    /// The parked rows as (token, handle) pairs, oldest first.
    pub closed spec fn rows(self) -> Seq<(Seq<char>, u64)> {
        self.pending@.map_values(|p: PendingLogin| (p.token@, p.handle))
    }

    /// The map the table denotes: token to parked handle.
    pub open spec fn pending(self) -> Map<Seq<char>, u64> {
        map_of(self.rows())
    }

    /// Well-formedness: at most one parked socket per token.
    pub open spec fn wf(self) -> bool {
        distinct_keys(self.rows())
    }

    /// An empty correlator: nothing parked.
    pub fn new() -> (c: LoginCorrelator)
        ensures
            c.wf(),
            c.pending() == Map::<Seq<char>, u64>::empty(),
    {
        let c = LoginCorrelator { pending: Vec::new() };
        proof {
            assert(c.rows() =~= Seq::<(Seq<char>, u64)>::empty());
        }
        c
    }

    /// Park `handle` under `token`, replacing any prior parking of the same
    /// token.
    pub fn register(&mut self, token: String, handle: u64)
        requires
            old(self).wf(),
        ensures
            final(self).wf(),
            final(self).pending() == old(self).pending().insert(token@, handle),
    {
        let ghost pre = *self;
        let mut i: usize = 0;
        while i < self.pending.len()
            invariant
                i <= self.pending.len(),
                *self == pre,
                pre == *old(self),
                pre.wf(),
                forall|j: int| 0 <= j < i ==> self.rows()[j].0 != token@,
            decreases self.pending.len() - i,
        {
            if self.pending[i].token == token {
                let row = PendingLogin { token, handle };
                self.pending.set(i, row);
                proof {
                    assert(self.rows() =~= pre.rows().update(i as int, (pre.rows()[i as int].0, handle)));
                    lemma_update(pre.rows(), i as int, handle);
                    assert(final(self).wf()) by {
                        assert forall|p: int, q: int|
                            0 <= p < q < self.rows().len() implies self.rows()[p].0
                            != self.rows()[q].0 by {
                            assert(pre.rows()[p].0 != pre.rows()[q].0);
                        }
                    }
                }
                return ;
            }
            i = i + 1;
        }
        let row = PendingLogin { token, handle };
        self.pending.push(row);
        proof {
            assert(self.rows() =~= pre.rows().push((self.rows().last().0, handle)));
            lemma_push(pre.rows(), self.rows().last().0, handle);
            assert(final(self).wf()) by {
                assert forall|p: int, q: int|
                    0 <= p < q < self.rows().len() implies self.rows()[p].0
                    != self.rows()[q].0 by {
                    if q < self.rows().len() - 1 {
                        assert(pre.rows()[p].0 != pre.rows()[q].0);
                    } else {
                        assert(pre.rows()[p].0 != self.rows()[q].0);
                    }
                }
            }
        }
    }

    /// Is a login currently parked under `token`?
    pub fn contains(&self, token: &String) -> (r: bool)
        ensures
            r == self.pending().dom().contains(token@),
    {
        proof {
            lemma_dom(self.rows());
        }
        let mut i: usize = 0;
        while i < self.pending.len()
            invariant
                i <= self.pending.len(),
                forall|j: int| 0 <= j < i ==> self.rows()[j].0 != token@,
                self.pending().dom().contains(token@) == has_key(self.rows(), token@),
            decreases self.pending.len() - i,
        {
            if self.pending[i].token == *token {
                assert(self.rows()[i as int].0 == token@);
                return true;
            }
            i = i + 1;
        }
        proof {
            if has_key(self.rows(), token@) {
                let j = choose|j: int| 0 <= j < self.rows().len() && self.rows()[j].0 == token@;
                assert(self.rows()[j].0 != token@);
            }
        }
        false
    }

    /// Mint a fresh correlation token for a newly opened login socket and
    /// park the socket under it.
    pub fn mint(&mut self, handle: u64) -> (token: String)
        requires
            old(self).wf(),
        ensures
            final(self).wf(),
            final(self).pending() == old(self).pending().insert(token@, handle),
            token@.len() == 36,
    {
        let token = fresh_token();
        let parked = token.clone();
        self.register(parked, handle);
        token
    }

    /// Resolve `token` with the session record the OAuth callback produced.
    /// If the token is parked, its entry is consumed — atomically with the
    /// lookup — and the caller must deliver the record to the parked handle
    /// and close it normally. An unknown token misses with no effect.
    pub fn resolve(&mut self, token: &String, record: UserSession) -> (r: Result<
        Vec<Action>,
        CorrelationMiss,
    >)
        requires
            old(self).wf(),
        ensures
            final(self).wf(),
            match r {
                Ok(actions) => {
                    &&& old(self).pending().dom().contains(token@)
                    &&& final(self).pending() == old(self).pending().remove(token@)
                    &&& actions@.map_values(|a: Action| a@) == seq![
                        ActionView::DeliverLogin {
                            handle: old(self).pending()[token@],
                            payload: record@,
                        },
                        ActionView::Close {
                            handle: old(self).pending()[token@],
                            reason: Some(
                                CloseReasonView {
                                    code: NORMAL_CLOSURE,
                                    description: Some("Sent login"@),
                                },
                            ),
                        },
                    ]
                },
                Err(_) => {
                    &&& !old(self).pending().dom().contains(token@)
                    &&& *final(self) == *old(self)
                },
            },
    {
        let ghost pre = *self;
        let mut i: usize = 0;
        while i < self.pending.len()
            invariant
                i <= self.pending.len(),
                *self == pre,
                pre == *old(self),
                pre.wf(),
                forall|j: int| 0 <= j < i ==> self.rows()[j].0 != token@,
            decreases self.pending.len() - i,
        {
            if self.pending[i].token == *token {
                let handle = self.pending[i].handle;
                self.pending.remove(i);
                proof {
                    assert(pre.rows()[i as int] == (token@, handle));
                    lemma_index(pre.rows(), i as int);
                    assert(self.rows() =~= pre.rows().remove(i as int));
                    lemma_remove(pre.rows(), i as int);
                    assert(final(self).wf()) by {
                        assert forall|p: int, q: int|
                            0 <= p < q < self.rows().len() implies self.rows()[p].0
                            != self.rows()[q].0 by {
                            let p0 = if p < i as int { p } else { p + 1 };
                            let q0 = if q < i as int { q } else { q + 1 };
                            assert(pre.rows()[p0].0 != pre.rows()[q0].0);
                        }
                    }
                }
                let mut actions: Vec<Action> = Vec::new();
                actions.push(Action::DeliverLogin { handle, payload: record });
                actions.push(
                    Action::Close {
                        handle,
                        reason: Some(
                            CloseReason {
                                code: NORMAL_CLOSURE,
                                description: Some(String::from_str("Sent login")),
                            },
                        ),
                    },
                );
                proof {
                    assert(actions@.map_values(|a: Action| a@) =~= seq![
                        ActionView::DeliverLogin { handle: pre.pending()[token@], payload: record@ },
                        ActionView::Close {
                            handle: pre.pending()[token@],
                            reason: Some(
                                CloseReasonView {
                                    code: NORMAL_CLOSURE,
                                    description: Some("Sent login"@),
                                },
                            ),
                        },
                    ]);
                }
                return Ok(actions);
            }
            i = i + 1;
        }
        proof {
            assert(!has_key(pre.rows(), token@)) by {
                if has_key(pre.rows(), token@) {
                    let j = choose|j: int| 0 <= j < pre.rows().len() && pre.rows()[j].0 == token@;
                    assert(pre.rows()[j].0 != token@);
                }
            }
            lemma_dom(pre.rows());
        }
        Err(CorrelationMiss)
    }
}

/// Exactly-once: a successful resolution leaves the pending map without the
/// consumed token, so a repeated resolution of the same token must miss.
pub proof fn lemma_resolve_exactly_once(
    before: Map<Seq<char>, u64>,
    after: Map<Seq<char>, u64>,
    token: Seq<char>,
)
    requires
        after == before.remove(token),
    ensures
        !after.dom().contains(token),
{
}

/// Embed a correlation token into an authorization URL as its trailing
/// `state` query parameter, exactly as the login socket advertises it.
pub fn append_state_param(base: &str, token: &str) -> (r: String)
    ensures
        r@ == base@ + "&state="@ + token@,
{
    let mut s = String::from_str(base);
    s.append("&state=");
    s.append(token);
    s
}

/// Relies on `uuid::Uuid::new_v4` and its `Display` rendering: a fresh
/// random (version 4) UUID in the hyphenated form, which is exactly 36
/// characters. The value is random, so nothing more is promised of it.
#[verifier::external_body]
fn fresh_token() -> (r: String)
    ensures
        r@.len() == 36,
{
    uuid::Uuid::new_v4().to_string()
}

/// What the OAuth callback must do with the persisted state for a returning
/// principal, given what the persistence collaborator found.
#[derive(PartialEq, Eq, Structural, Clone, Copy, Debug)]
pub enum SessionPlan {
    /// The stored record already carries the presented access token: hand it
    /// back unchanged.
    UseStored,
    /// A record exists but under a different access token: overwrite its
    /// token pair with the presented one.
    Refresh,
    /// No record exists for this principal: insert a new one.
    AddUser,
}

/// Decide how the callback reconciles the stored session with the token
/// pair the code exchange just produced.
pub fn reconcile_plan(stored: Option<&UserSession>, access_token: &String) -> (r: SessionPlan)
    ensures
        match stored {
            None => r == SessionPlan::AddUser,
            Some(s) => if s.access_token@ == access_token@ {
                r == SessionPlan::UseStored
            } else {
                r == SessionPlan::Refresh
            },
        },
{
    match stored {
        None => SessionPlan::AddUser,
        Some(s) => {
            if s.access_token == *access_token {
                SessionPlan::UseStored
            } else {
                SessionPlan::Refresh
            }
        },
    }
}

/// Assemble the session record the callback resolves with, from a token
/// pair and the profile the authentication collaborator returned.
pub fn assemble_session(tokens: AccessTokens, user: DiscordUser) -> (r: UserSession)
    ensures
        r@.access_token == tokens.access_token@,
        r@.refresh_token == tokens.refresh_token@,
        r@.session == user@,
{
    UserSession {
        access_token: tokens.access_token,
        refresh_token: tokens.refresh_token,
        session: user,
    }
}

} // verus!
