//! The process-wide connection hub: one table of live connections, keyed by
//! identity, holding for each the delivery handle of its socket and the
//! profile snapshot captured at admission. The table is at once the
//! connection registry (identity to handle) and the presence set (identity to
//! profile); every operation is specified against the two maps the table
//! denotes.
//!
//! The hub performs no I/O. Operations that imply frames on the wire return
//! the [`Action`]s the caller must perform after leaving the critical
//! section, so a slow recipient can never stall the table itself.

use vstd::pervasive::VecAdditionalExecFns;
use vstd::prelude::*;

use crate::assoc::{
    distinct_keys, has_key, lemma_absent, lemma_dom, lemma_index, lemma_push, lemma_remove,
    lemma_update, map_of,
};
use crate::profile::{DiscordUser, UserSession, UserView, SessionView};
use crate::protocol::{MessageView, PresenceEntry, PresenceEntryView, WebsocketMessage};

verus! {

/// The websocket close code for a normal closure.
pub const NORMAL_CLOSURE: u16 = 1000;

/// Mathematical value of a [`CloseReason`].
pub struct CloseReasonView {
    pub code: u16,
    pub description: Option<Seq<char>>,
}

/// Why a socket is being closed: a websocket close code and an optional
/// human-readable description.
#[derive(Debug, PartialEq, Eq)]
pub struct CloseReason {
    pub code: u16,
    pub description: Option<String>,
}

impl View for CloseReason {
    type V = CloseReasonView;

    open spec fn view(&self) -> CloseReasonView {
        CloseReasonView {
            code: self.code,
            description: match self.description {
                Some(s) => Some(s@),
                None => None,
            },
        }
    }
}

impl CloseReason {
    /// A copy with the same value.
    pub fn duplicate(&self) -> (r: CloseReason)
        ensures
            r@ == self@,
    {
        let r = CloseReason { code: self.code, description: self.description.clone() };
        assert(r@ =~= self@);
        r
    }
}

/// Mathematical value of an [`Action`].
pub enum ActionView {
    Deliver { handle: u64, message: MessageView },
    DeliverLogin { handle: u64, payload: SessionView },
    Ping { handle: u64 },
    Pong { handle: u64, data: Seq<u8> },
    Close { handle: u64, reason: Option<CloseReasonView> },
}

/// One piece of outbound work the I/O layer must perform on behalf of the
/// hub, after the hub's critical section has ended. `handle` names the
/// socket; handles are minted by the I/O layer, one per live socket.
#[derive(Debug, PartialEq, Eq)]
pub enum Action {
    /// Send one envelope as a text frame.
    Deliver { handle: u64, message: WebsocketMessage },
    /// Send a serialized session record as a text frame (login sockets only).
    DeliverLogin { handle: u64, payload: UserSession },
    /// Send a ping frame.
    Ping { handle: u64 },
    /// Answer a ping with its payload.
    Pong { handle: u64, data: Vec<u8> },
    /// Close the socket, with a reason where one is known.
    Close { handle: u64, reason: Option<CloseReason> },
}

impl View for Action {
    type V = ActionView;

    open spec fn view(&self) -> ActionView {
        match self {
            Action::Deliver { handle, message } => ActionView::Deliver {
                handle: *handle,
                message: message@,
            },
            Action::DeliverLogin { handle, payload } => ActionView::DeliverLogin {
                handle: *handle,
                payload: payload@,
            },
            Action::Ping { handle } => ActionView::Ping { handle: *handle },
            Action::Pong { handle, data } => ActionView::Pong {
                handle: *handle,
                data: data@,
            },
            Action::Close { handle, reason } => ActionView::Close {
                handle: *handle,
                reason: match reason {
                    Some(r) => Some(r@),
                    None => None,
                },
            },
        }
    }
}

/// Mathematical value of a [`HubEntry`].
pub struct HubEntryView {
    pub identity: Seq<char>,
    pub handle: u64,
    pub profile: UserView,
}

/// One live connection: its identity, its delivery handle, and the profile
/// captured when it was admitted.
pub struct HubEntry {
    pub identity: String,
    pub handle: u64,
    pub profile: DiscordUser,
}

impl View for HubEntry {
    type V = HubEntryView;

    open spec fn view(&self) -> HubEntryView {
        HubEntryView { identity: self.identity@, handle: self.handle, profile: self.profile@ }
    }
}

/// The handles every row of `rows` except those owned by `sender` — the
/// recipients of a broadcast, in table order.
pub open spec fn spec_recipients(rows: Seq<HubEntryView>, sender: Seq<char>) -> Seq<u64>
    decreases rows.len(),
{
    if rows.len() == 0 {
        Seq::empty()
    } else {
        let rest = spec_recipients(rows.drop_last(), sender);
        if rows.last().identity == sender {
            rest
        } else {
            rest.push(rows.last().handle)
        }
    }
}

/// Every recipient handle belongs to some row whose identity is not the
/// sender's.
pub proof fn lemma_recipients_membership(rows: Seq<HubEntryView>, sender: Seq<char>)
    ensures
        forall|k: int|
            0 <= k < spec_recipients(rows, sender).len() ==> exists|i: int|
                0 <= i < rows.len() && rows[i].identity != sender && rows[i].handle
                    == #[trigger] spec_recipients(rows, sender)[k],
    decreases rows.len(),
{
    if rows.len() > 0 {
        lemma_recipients_membership(rows.drop_last(), sender);
        let rest = spec_recipients(rows.drop_last(), sender);
        assert forall|k: int|
            0 <= k < spec_recipients(rows, sender).len() implies exists|i: int|
            0 <= i < rows.len() && rows[i].identity != sender && rows[i].handle
                == #[trigger] spec_recipients(rows, sender)[k] by {
            if k < rest.len() {
                let i = choose|i: int|
                    0 <= i < rows.drop_last().len() && rows.drop_last()[i].identity != sender
                        && rows.drop_last()[i].handle == rest[k];
                assert(rows[i].identity != sender && rows[i].handle == spec_recipients(
                    rows,
                    sender,
                )[k]);
            } else {
                let i = rows.len() - 1;
                assert(rows[i].identity != sender && rows[i].handle == spec_recipients(
                    rows,
                    sender,
                )[k]);
            }
        }
    }
}

/// The actions delivering `m` to each handle of `handles`, in order.
pub open spec fn deliver_to(handles: Seq<u64>, m: MessageView) -> Seq<ActionView> {
    handles.map_values(|h: u64| ActionView::Deliver { handle: h, message: m })
}

/// The handles of `rows`, in table order.
pub open spec fn handles_of(rows: Seq<HubEntryView>) -> Seq<u64> {
    rows.map_values(|r: HubEntryView| r.handle)
}

/// The presence snapshot of `rows`, in table order.
pub open spec fn snapshot_of(rows: Seq<HubEntryView>) -> Seq<PresenceEntryView> {
    rows.map_values(|row: HubEntryView| PresenceEntryView { identity: row.identity, profile: row.profile })
}

/// Build the delivery actions sending `message` to each of `handles`.
pub fn deliveries(handles: &Vec<u64>, message: &WebsocketMessage) -> (r: Vec<Action>)
    ensures
        r@.map_values(|a: Action| a@) == deliver_to(handles@, message@),
{
    let mut out: Vec<Action> = Vec::new();
    let mut i: usize = 0;
    while i < handles.len()
        invariant
            i <= handles.len(),
            out@.len() == i,
            forall|j: int|
                0 <= j < i ==> #[trigger] out@[j]@ == (ActionView::Deliver {
                    handle: handles@[j],
                    message: message@,
                }),
        decreases handles.len() - i,
    {
        out.push(Action::Deliver { handle: handles[i], message: message.duplicate() });
        i = i + 1;
    }
    assert(out@.map_values(|a: Action| a@) =~= deliver_to(handles@, message@));
    out
}

/// The connection hub. Its entries are in admission order; identities are
/// unique (a re-admission replaces the old row), and handles are unique
/// (each row owns one socket).
pub struct Hub {
    entries: Vec<HubEntry>,
}

impl Hub {
    /// The table as a sequence of row values, in admission order.
    pub closed spec fn rows(self) -> Seq<HubEntryView> {
        self.entries@.map_values(|e: HubEntry| e@)
    }

    /// The registry rows: identity to delivery handle.
    pub open spec fn reg_rows(self) -> Seq<(Seq<char>, u64)> {
        self.rows().map_values(|r: HubEntryView| (r.identity, r.handle))
    }

    /// The presence rows: identity to profile snapshot.
    pub open spec fn pres_rows(self) -> Seq<(Seq<char>, UserView)> {
        self.rows().map_values(|r: HubEntryView| (r.identity, r.profile))
    }

    /// The connection registry the table denotes.
    pub open spec fn reg(self) -> Map<Seq<char>, u64> {
        map_of(self.reg_rows())
    }

    /// The presence set the table denotes.
    pub open spec fn pres(self) -> Map<Seq<char>, UserView> {
        map_of(self.pres_rows())
    }

    /// Some row carries this identity.
    pub open spec fn has_identity(self, id: Seq<char>) -> bool {
        exists|i: int| 0 <= i < self.rows().len() && self.rows()[i].identity == id
    }

    /// Well-formedness: at most one live row per identity, and one per
    /// handle.
    pub open spec fn wf(self) -> bool {
        &&& forall|i: int, j: int|
            0 <= i < j < self.rows().len() ==> self.rows()[i].identity != self.rows()[j].identity
        &&& forall|i: int, j: int|
            0 <= i < j < self.rows().len() ==> self.rows()[i].handle != self.rows()[j].handle
    }

    /// Unique identities make the registry and presence rows distinct-keyed.
    pub proof fn lemma_wf_distinct(self)
        requires
            self.wf(),
        ensures
            distinct_keys(self.reg_rows()),
            distinct_keys(self.pres_rows()),
    {
        assert forall|i: int, j: int|
            0 <= i < j < self.reg_rows().len() implies self.reg_rows()[i].0
            != self.reg_rows()[j].0 by {
            assert(self.rows()[i].identity != self.rows()[j].identity);
        }
        assert forall|i: int, j: int|
            0 <= i < j < self.pres_rows().len() implies self.pres_rows()[i].0
            != self.pres_rows()[j].0 by {
            assert(self.rows()[i].identity != self.rows()[j].identity);
        }
    }

    /// An empty hub: no connections, no presence.
    pub fn new() -> (h: Hub)
        ensures
            h.wf(),
            h.rows() == Seq::<HubEntryView>::empty(),
            h.reg() == Map::<Seq<char>, u64>::empty(),
            h.pres() == Map::<Seq<char>, UserView>::empty(),
    {
        let h = Hub { entries: Vec::new() };
        proof {
            assert(h.rows() =~= Seq::<HubEntryView>::empty());
            assert(h.reg_rows() =~= Seq::<(Seq<char>, u64)>::empty());
            assert(h.pres_rows() =~= Seq::<(Seq<char>, UserView)>::empty());
        }
        h
    }

    /// The index of the row carrying `identity`, if any.
    fn index_of(&self, identity: &String) -> (r: Option<usize>)
        ensures
            match r {
                Some(i) => i < self.rows().len() && self.rows()[i as int].identity == identity@,
                None => !self.has_identity(identity@),
            },
    {
        let mut i: usize = 0;
        while i < self.entries.len()
            invariant
                i <= self.entries.len(),
                forall|j: int| 0 <= j < i ==> self.rows()[j].identity != identity@,
            decreases self.entries.len() - i,
        {
            if self.entries[i].identity == *identity {
                assert(self.rows()[i as int].identity == identity@);
                return Some(i);
            }
            i = i + 1;
        }
        None
    }

    /// Admit (or re-admit) a connection: insert `identity -> handle` in the
    /// registry and `identity -> profile` in the presence set, replacing any
    /// prior row for the same identity. The handle must be the socket's own:
    /// no other identity's row may carry it.
    pub fn join(&mut self, user: DiscordUser, handle: u64)
        requires
            old(self).wf(),
            forall|i: int|
                0 <= i < old(self).rows().len() && old(self).rows()[i].handle == handle
                    ==> old(self).rows()[i].identity == user@.id,
        ensures
            final(self).wf(),
            final(self).reg() == old(self).reg().insert(user@.id, handle),
            final(self).pres() == old(self).pres().insert(user@.id, user@),
            !old(self).has_identity(user@.id) ==> final(self).rows() == old(self).rows().push(
                HubEntryView { identity: user@.id, handle, profile: user@ },
            ),
            old(self).has_identity(user@.id) ==> exists|i: int|
                0 <= i < old(self).rows().len() && old(self).rows()[i].identity == user@.id
                    && final(self).rows() == old(self).rows().update(
                    i,
                    HubEntryView { identity: user@.id, handle, profile: user@ },
                ),
    {
        let ghost pre = *self;
        let id = user.id.clone();
        let row = HubEntry { identity: id, handle, profile: user };
        let found = self.index_of(&row.identity);
        match found {
            Some(i) => {
                self.entries.set(i, row);
                proof {
                    assert(self.rows() =~= pre.rows().update(i as int, self.rows()[i as int]));
                    assert(self.rows()[i as int] == HubEntryView {
                        identity: pre.rows()[i as int].identity,
                        handle,
                        profile: self.rows()[i as int].profile,
                    });
                    pre.lemma_wf_distinct();
                    assert(self.reg_rows() =~= pre.reg_rows().update(
                        i as int,
                        (pre.reg_rows()[i as int].0, handle),
                    ));
                    lemma_update(pre.reg_rows(), i as int, handle);
                    assert(self.pres_rows() =~= pre.pres_rows().update(
                        i as int,
                        (pre.pres_rows()[i as int].0, self.rows()[i as int].profile),
                    ));
                    lemma_update(pre.pres_rows(), i as int, self.rows()[i as int].profile);
                    assert(final(self).wf()) by {
                        assert forall|p: int, q: int|
                            0 <= p < q < self.rows().len() implies self.rows()[p].identity
                            != self.rows()[q].identity && self.rows()[p].handle
                            != self.rows()[q].handle by {
                            assert(pre.rows()[p].identity != pre.rows()[q].identity);
                            if p != i && q != i {
                                assert(pre.rows()[p].handle != pre.rows()[q].handle);
                            }
                        }
                    }
                }
            },
            None => {
                self.entries.push(row);
                proof {
                    assert(self.rows() =~= pre.rows().push(self.rows().last()));
                    assert(self.reg_rows() =~= pre.reg_rows().push(
                        (self.rows().last().identity, handle),
                    ));
                    lemma_push(pre.reg_rows(), self.rows().last().identity, handle);
                    assert(self.pres_rows() =~= pre.pres_rows().push(
                        (self.rows().last().identity, self.rows().last().profile),
                    ));
                    lemma_push(
                        pre.pres_rows(),
                        self.rows().last().identity,
                        self.rows().last().profile,
                    );
                    assert(final(self).wf()) by {
                        assert forall|p: int, q: int|
                            0 <= p < q < self.rows().len() implies self.rows()[p].identity
                            != self.rows()[q].identity && self.rows()[p].handle
                            != self.rows()[q].handle by {
                            if q < self.rows().len() - 1 {
                                assert(pre.rows()[p].identity != pre.rows()[q].identity);
                                assert(pre.rows()[p].handle != pre.rows()[q].handle);
                            } else {
                                assert(!pre.has_identity(self.rows()[q].identity));
                                assert(pre.rows()[p].identity != self.rows()[q].identity);
                            }
                        }
                    }
                }
            },
        }
    }

    /// Drop the row carrying `identity`, if any, from both the registry and
    /// the presence set. Removing an absent identity changes nothing at all.
    pub fn remove(&mut self, identity: &String)
        requires
            old(self).wf(),
        ensures
            final(self).wf(),
            final(self).reg() == old(self).reg().remove(identity@),
            final(self).pres() == old(self).pres().remove(identity@),
            old(self).has_identity(identity@) ==> exists|i: int|
                0 <= i < old(self).rows().len() && old(self).rows()[i].identity == identity@
                    && final(self).rows() == old(self).rows().remove(i),
            !old(self).has_identity(identity@) ==> *final(self) == *old(self),
    {
        let ghost pre = *self;
        let found = self.index_of(identity);
        match found {
            Some(i) => {
                self.entries.remove(i);
                proof {
                    pre.lemma_wf_distinct();
                    assert(self.rows() =~= pre.rows().remove(i as int));
                    assert(self.reg_rows() =~= pre.reg_rows().remove(i as int));
                    assert(pre.reg_rows()[i as int].0 == identity@);
                    lemma_remove(pre.reg_rows(), i as int);
                    assert(self.pres_rows() =~= pre.pres_rows().remove(i as int));
                    lemma_remove(pre.pres_rows(), i as int);
                    assert(final(self).wf()) by {
                        assert forall|p: int, q: int|
                            0 <= p < q < self.rows().len() implies self.rows()[p].identity
                            != self.rows()[q].identity && self.rows()[p].handle
                            != self.rows()[q].handle by {
                            let p0 = if p < i as int { p } else { p + 1 };
                            let q0 = if q < i as int { q } else { q + 1 };
                            assert(pre.rows()[p0].identity != pre.rows()[q0].identity);
                            assert(pre.rows()[p0].handle != pre.rows()[q0].handle);
                        }
                    }
                }
            },
            None => {
                proof {
                    assert(!has_key(pre.reg_rows(), identity@)) by {
                        if has_key(pre.reg_rows(), identity@) {
                            let i = choose|i: int|
                                0 <= i < pre.reg_rows().len() && pre.reg_rows()[i].0 == identity@;
                            assert(pre.rows()[i].identity == identity@);
                        }
                    }
                    lemma_absent(pre.reg_rows(), identity@);
                    assert(!has_key(pre.pres_rows(), identity@)) by {
                        if has_key(pre.pres_rows(), identity@) {
                            let i = choose|i: int|
                                0 <= i < pre.pres_rows().len() && pre.pres_rows()[i].0 == identity@;
                            assert(pre.rows()[i].identity == identity@);
                        }
                    }
                    lemma_absent(pre.pres_rows(), identity@);
                }
            },
        }
    }

    /// The current presence mapping, in table order, for a `ConnectedUsers`
    /// envelope.
    pub fn snapshot(&self) -> (r: Vec<PresenceEntry>)
        ensures
            r@.map_values(|e: PresenceEntry| e@) == snapshot_of(self.rows()),
    {
        let mut out: Vec<PresenceEntry> = Vec::new();
        let mut i: usize = 0;
        while i < self.entries.len()
            invariant
                i <= self.entries.len(),
                out@.len() == i,
                forall|j: int|
                    0 <= j < i ==> #[trigger] out@[j]@ == (PresenceEntryView {
                        identity: self.rows()[j].identity,
                        profile: self.rows()[j].profile,
                    }),
            decreases self.entries.len() - i,
        {
            let e = &self.entries[i];
            let entry = PresenceEntry { identity: e.identity.clone(), profile: e.profile.duplicate() };
            assert(entry@ == PresenceEntryView {
                identity: self.rows()[i as int].identity,
                profile: self.rows()[i as int].profile,
            });
            out.push(entry);
            i = i + 1;
        }
        assert(out@.map_values(|e: PresenceEntry| e@) =~= snapshot_of(self.rows()));
        out
    }

    /// Every registered handle, in table order.
    pub fn all_handles(&self) -> (r: Vec<u64>)
        ensures
            r@ == handles_of(self.rows()),
    {
        let mut out: Vec<u64> = Vec::new();
        let mut i: usize = 0;
        while i < self.entries.len()
            invariant
                i <= self.entries.len(),
                out@.len() == i,
                forall|j: int| 0 <= j < i ==> #[trigger] out@[j] == self.rows()[j].handle,
            decreases self.entries.len() - i,
        {
            out.push(self.entries[i].handle);
            i = i + 1;
        }
        assert(out@ =~= handles_of(self.rows()));
        out
    }

    /// Deliver `message` to every registered handle except the sender's own.
    /// Per-recipient failures are the I/O layer's business: they neither
    /// abort the broadcast nor remove the failed recipient.
    pub fn broadcast(&self, sender: &String, message: &WebsocketMessage) -> (r: Vec<Action>)
        requires
            self.wf(),
        ensures
            r@.map_values(|a: Action| a@) == deliver_to(
                spec_recipients(self.rows(), sender@),
                message@,
            ),
            self.reg().dom().contains(sender@) ==> forall|k: int|
                0 <= k < spec_recipients(self.rows(), sender@).len()
                    ==> #[trigger] spec_recipients(self.rows(), sender@)[k] != self.reg()[sender@],
    {
        let mut out: Vec<Action> = Vec::new();
        let mut i: usize = 0;
        while i < self.entries.len()
            invariant
                i <= self.entries.len(),
                out@.map_values(|a: Action| a@) == deliver_to(
                    spec_recipients(self.rows().take(i as int), sender@),
                    message@,
                ),
            decreases self.entries.len() - i,
        {
            let ghost prefix = self.rows().take(i as int);
            let ghost pre_out = out@.map_values(|a: Action| a@);
            let e = &self.entries[i];
            if !(e.identity == *sender) {
                out.push(Action::Deliver { handle: e.handle, message: message.duplicate() });
            }
            proof {
                assert(self.rows().take(i + 1 as int).drop_last() =~= prefix);
                assert(self.rows().take(i + 1 as int).last() == self.rows()[i as int]);
                let recips = spec_recipients(self.rows().take(i + 1 as int), sender@);
                if self.rows()[i as int].identity == sender@ {
                    assert(recips == spec_recipients(prefix, sender@));
                } else {
                    assert(recips == spec_recipients(prefix, sender@).push(
                        self.rows()[i as int].handle,
                    ));
                    assert(out@.map_values(|a: Action| a@) =~= pre_out.push(out@.last()@));
                    assert(out@.last()@ == (ActionView::Deliver {
                        handle: self.rows()[i as int].handle,
                        message: message@,
                    }));
                    assert(deliver_to(recips, message@) =~= deliver_to(
                        spec_recipients(prefix, sender@),
                        message@,
                    ).push(
                        ActionView::Deliver {
                            handle: self.rows()[i as int].handle,
                            message: message@,
                        },
                    ));
                }
            }
            i = i + 1;
        }
        proof {
            assert(self.rows().take(self.rows().len() as int) =~= self.rows());
            if self.reg().dom().contains(sender@) {
                lemma_broadcast_excludes_sender(*self, sender@);
            }
        }
        out
    }
}

/// A broadcast never delivers to the sender's own handle: every recipient
/// handle differs from the one the registry maps the sender to.
pub proof fn lemma_broadcast_excludes_sender(h: Hub, sender: Seq<char>)
    requires
        h.wf(),
        h.reg().dom().contains(sender),
    ensures
        forall|k: int|
            0 <= k < spec_recipients(h.rows(), sender).len()
                ==> #[trigger] spec_recipients(h.rows(), sender)[k] != h.reg()[sender],
{
    h.lemma_wf_distinct();
    lemma_dom(h.reg_rows());
    let j = choose|j: int| 0 <= j < h.reg_rows().len() && h.reg_rows()[j].0 == sender;
    lemma_index(h.reg_rows(), j);
    assert(h.reg()[sender] == h.rows()[j].handle);
    lemma_recipients_membership(h.rows(), sender);
    assert forall|k: int|
        0 <= k < spec_recipients(h.rows(), sender).len() implies #[trigger] spec_recipients(
        h.rows(),
        sender,
    )[k] != h.reg()[sender] by {
        let i = choose|i: int|
            0 <= i < h.rows().len() && h.rows()[i].identity != sender && h.rows()[i].handle
                == spec_recipients(h.rows(), sender)[k];
        assert(i != j);
        if i < j {
            assert(h.rows()[i].handle != h.rows()[j].handle);
        } else {
            assert(h.rows()[j].handle != h.rows()[i].handle);
        }
    }
}

/// The presence set mirrors the registry: in every hub state the two maps
/// have exactly the same keys.
pub proof fn lemma_presence_mirrors_registry(h: Hub)
    ensures
        h.reg().dom() == h.pres().dom(),
{
    lemma_dom(h.reg_rows());
    lemma_dom(h.pres_rows());
    assert forall|k: Seq<char>| #[trigger] h.reg().dom().contains(k) implies h.pres().dom().contains(
        k,
    ) by {
        assert(has_key(h.reg_rows(), k));
        let i = choose|i: int| 0 <= i < h.reg_rows().len() && h.reg_rows()[i].0 == k;
        assert(h.pres_rows()[i].0 == k);
        assert(has_key(h.pres_rows(), k));
    }
    assert forall|k: Seq<char>| #[trigger] h.pres().dom().contains(k) implies h.reg().dom().contains(
        k,
    ) by {
        assert(has_key(h.pres_rows(), k));
        let i = choose|i: int| 0 <= i < h.pres_rows().len() && h.pres_rows()[i].0 == k;
        assert(h.reg_rows()[i].0 == k);
        assert(has_key(h.reg_rows(), k));
    }
    assert(h.reg().dom() =~= h.pres().dom());
}

} // verus!
