//! The session engine: the state machine that turns commands from the
//! interface and packets from the wire into presence tracking, liveness
//! decisions and events, one step per call. The surrounding loop only
//! performs the steps' outputs: it transmits the returned frames and
//! forwards the returned events.
use vstd::prelude::*;
use vstd::utf8::encode_utf8;
use crate::channel::{Channel, spec_send_frames, spec_chunks, MAX_FRAGMENTS};
use crate::commands::{NetCommand, UICommand, UICommandView, spec_events_view};
use crate::error::{NetError, NetErrorView};
use crate::ktp::{Id, Packet, PacketView, spec_serialize};
use crate::presence::{
    UpdatePresenceKind, UpdatePresenceKindView, HEARTBEAT_INTERVAL, INACTIVE_TIMEOUT,
    OFFLINE_TIMEOUT, spec_is_inactive, spec_is_offline,
};
use crate::session::{INITIAL_USERNAME, UNKNOWN_USERNAME};
use vstd::string::StringSliceAdditionalSpecFns;

verus! {

/// The session's protocol phase, advancing from unnamed to announced to
/// ready.
#[derive(Copy, Clone, Debug, PartialEq, Eq, Structural)]
pub enum NetThreadState {
    NeedsUsername,
    NeedsInitialPresence,
    Ready,
}

/// Whether `needle` occurs contiguously inside `hay`.
pub open spec fn spec_contains_sub(hay: Seq<u8>, needle: Seq<u8>) -> bool {
    exists|k: int|
        0 <= k <= hay.len() - needle.len() && #[trigger] hay.subrange(k, k + needle.len())
            == needle
}

/// Whether `needle` starts at position `k` of `hay`.
fn match_at(hay: &[u8], needle: &[u8], k: usize) -> (r: bool)
    requires
        k + needle@.len() <= hay@.len(),
    ensures
        r == (hay@.subrange(k as int, k as int + needle@.len()) == needle@),
{
    broadcast use vstd::slice::group_slice_axioms;
    broadcast use vstd::slice::axiom_spec_len;

    let hay_len: usize = hay.len();
    let m = needle.len();
    let mut t: usize = 0;
    while t < m
        invariant
            t <= m,
            m == needle@.len(),
            k + m <= hay@.len(),
            hay@.len() <= usize::MAX,
            forall|u: int| 0 <= u < t ==> hay@[k + u] == needle@[u],
        decreases m - t,
    {
        if *vstd::slice::slice_index_get(hay, k + t) != *vstd::slice::slice_index_get(needle, t) {
            proof {
                assert(hay@.subrange(k as int, k as int + needle@.len())[t as int]
                    != needle@[t as int]);
            }
            return false;
        }
        t = t + 1;
    }
    proof {
        assert(hay@.subrange(k as int, k as int + needle@.len()) =~= needle@);
    }
    true
}

/// Decides [`spec_contains_sub`] by scanning every start position.
pub fn contains_bytes(hay: &[u8], needle: &[u8]) -> (r: bool)
    ensures
        r == spec_contains_sub(hay@, needle@),
{
    broadcast use vstd::slice::group_slice_axioms;

    let n = hay.len();
    let m = needle.len();
    if m > n {
        return false;
    }
    if m == 0 {
        proof {
            assert(hay@.subrange(0, 0 + needle@.len() as int) =~= needle@);
        }
        return true;
    }
    let mut k: usize = 0;
    while k <= n - m
        invariant
            1 <= m <= n,
            n == hay@.len(),
            m == needle@.len(),
            k <= n - m + 1,
            forall|j: int| 0 <= j < k ==> #[trigger] hay@.subrange(j, j + needle@.len())
                != needle@,
        decreases n - m + 1 - k,
    {
        if match_at(hay, needle, k) {
            return true;
        }
        k = k + 1;
    }
    false
}

/// One remembered peer: its session identifier, when it last announced
/// itself, and the name it announced.
pub struct OnlineEntry {
    pub id: Id,
    pub last_seen: u64,
    pub username: String,
}

/// Spec-level image of an [`OnlineEntry`].
#[verifier::ext_equal]
pub struct OnlineEntryView {
    pub id: Id,
    pub last_seen: u64,
    pub username: Seq<char>,
}

impl View for OnlineEntry {
    type V = OnlineEntryView;

    open spec fn view(&self) -> OnlineEntryView {
        OnlineEntryView { id: self.id, last_seen: self.last_seen, username: self.username@ }
    }
}

/// The online table: one entry per remote session identifier, in the
/// order first seen.
pub struct OnlineTable {
    pub entries: Vec<OnlineEntry>,
}

impl View for OnlineTable {
    type V = Seq<OnlineEntryView>;

    open spec fn view(&self) -> Seq<OnlineEntryView> {
        Seq::new(self.entries@.len(), |i: int| self.entries@[i]@)
    }
}

/// Index of the entry for an id, scanning from the front.
pub open spec fn spec_online_find(es: Seq<OnlineEntryView>, id: Id) -> Option<int>
    decreases es.len(),
{
    if es.len() == 0 {
        None
    } else if es[0].id == id {
        Some(0int)
    } else {
        match spec_online_find(es.drop_first(), id) {
            Some(i) => Some(i + 1),
            None => None,
        }
    }
}

pub proof fn lemma_online_find_properties(es: Seq<OnlineEntryView>, id: Id)
    ensures
        match spec_online_find(es, id) {
            Some(i) => 0 <= i < es.len() && es[i].id == id,
            None => forall|i: int| 0 <= i < es.len() ==> (#[trigger] es[i]).id != id,
        },
    decreases es.len(),
{
    if es.len() > 0 && es[0].id != id {
        lemma_online_find_properties(es.drop_first(), id);
        match spec_online_find(es.drop_first(), id) {
            Some(i) => {
                assert(es[i + 1] == es.drop_first()[i]);
            },
            None => {
                assert forall|i: int| 0 <= i < es.len() implies (#[trigger] es[i]).id != id by {
                    if i > 0 {
                        assert(es.drop_first()[i - 1].id != id);
                    }
                }
            },
        }
    }
}

/// The table after a presence announcement: the entry is refreshed in
/// place, or appended when the id is new.
pub open spec fn spec_online_upsert(
    es: Seq<OnlineEntryView>,
    id: Id,
    now: u64,
    username: Seq<char>,
) -> Seq<OnlineEntryView> {
    let e = OnlineEntryView { id, last_seen: now, username };
    match spec_online_find(es, id) {
        Some(i) => es.update(i, e),
        None => es.push(e),
    }
}

/// The table after a disconnect: the entry is gone, or nothing changes
/// when the id was unknown.
pub open spec fn spec_online_remove(es: Seq<OnlineEntryView>, id: Id) -> Seq<OnlineEntryView> {
    match spec_online_find(es, id) {
        Some(i) => es.remove(i),
        None => es,
    }
}

impl OnlineTable {
    /// One entry per id.
    pub open spec fn wf(&self) -> bool {
        forall|i: int, j: int|
            0 <= i < j < self.entries@.len() ==> self.entries@[i]@.id != self.entries@[j]@.id
    }

    pub fn new() -> (r: Self)
        ensures
            r.wf(),
            r@ == Seq::<OnlineEntryView>::empty(),
    {
        let r = OnlineTable { entries: Vec::new() };
        proof {
            assert(r@ =~= Seq::<OnlineEntryView>::empty());
        }
        r
    }

    /// Finds the entry for an id, as [`spec_online_find`] scans.
    pub fn find(&self, id: Id) -> (r: Option<usize>)
        ensures
            match r {
                Some(i) => spec_online_find(self@, id) == Some(i as int),
                None => spec_online_find(self@, id) is None,
            },
    {
        let mut i: usize = 0;
        proof {
            assert(self@.skip(0) =~= self@);
        }
        while i < self.entries.len()
            invariant
                i <= self.entries@.len(),
                spec_online_find(self@, id) == match spec_online_find(self@.skip(i as int), id) {
                    Some(j) => Some(j + i),
                    None => None::<int>,
                },
            decreases self.entries@.len() - i,
        {
            proof {
                assert(self@.skip(i as int).first() == self@[i as int]);
                assert(self@.skip(i as int).drop_first() =~= self@.skip(i as int + 1));
            }
            if self.entries[i].id == id {
                return Some(i);
            }
            i = i + 1;
        }
        proof {
            assert(self@.skip(self.entries@.len() as int) =~= Seq::<OnlineEntryView>::empty());
        }
        None
    }

    /// The username remembered for an id, if any.
    pub fn username_of(&self, id: Id) -> (r: Option<String>)
        ensures
            match spec_online_find(self@, id) {
                Some(i) => r matches Some(u) && u@ == self@[i].username,
                None => r is None,
            },
    {
        match self.find(id) {
            Some(i) => {
                proof {
                    lemma_online_find_properties(self@, id);
                }
                Some(self.entries[i].username.clone())
            },
            None => None,
        }
    }

    /// Creates or refreshes the entry for an id; hands back the name it
    /// had before, if it was known.
    pub fn upsert(&mut self, id: Id, now: u64, username: String) -> (prev: Option<String>)
        requires
            old(self).wf(),
        ensures
            final(self).wf(),
            final(self)@ == spec_online_upsert(old(self)@, id, now, username@),
            match spec_online_find(old(self)@, id) {
                Some(i) => prev matches Some(u) && u@ == old(self)@[i].username,
                None => prev is None,
            },
    {
        proof {
            lemma_online_find_properties(self@, id);
        }
        match self.find(id) {
            Some(i) => {
                let mut entry = self.entries.remove(i);
                let previous = entry.username;
                entry.username = username;
                entry.last_seen = now;
                self.entries.insert(i, entry);
                proof {
                    assert forall|j: int|
                        0 <= j < self.entries@.len() && j != i implies self.entries@[j] == old(
                        self,
                    ).entries@[j] by {}
                    assert(self.entries@[i as int]@.id == id);
                    assert(old(self)@[i as int].id == id);
                    assert forall|p: int, q: int|
                        0 <= p < q < self.entries@.len() implies self.entries@[p]@.id
                        != self.entries@[q]@.id by {
                        assert(old(self).entries@[p]@.id != old(self).entries@[q]@.id);
                    }
                    assert(self@ =~= spec_online_upsert(old(self)@, id, now, username@));
                }
                Some(previous)
            },
            None => {
                self.entries.push(OnlineEntry { id, last_seen: now, username });
                proof {
                    assert forall|j: int|
                        0 <= j < self.entries@.len() - 1 implies self.entries@[j] == old(
                        self,
                    ).entries@[j] by {}
                    assert forall|p: int, q: int|
                        0 <= p < q < self.entries@.len() implies self.entries@[p]@.id
                        != self.entries@[q]@.id by {
                        if q == self.entries@.len() - 1 {
                            assert(old(self)@[p].id != id);
                        } else {
                            assert(old(self).entries@[p]@.id != old(self).entries@[q]@.id);
                        }
                    }
                    assert(self@ =~= spec_online_upsert(old(self)@, id, now, username@));
                }
                None
            },
        }
    }

    /// Drops the entry for an id; hands back its name when it existed.
    pub fn remove(&mut self, id: Id) -> (removed: Option<String>)
        requires
            old(self).wf(),
        ensures
            final(self).wf(),
            final(self)@ == spec_online_remove(old(self)@, id),
            match spec_online_find(old(self)@, id) {
                Some(i) => removed matches Some(u) && u@ == old(self)@[i].username,
                None => removed is None,
            },
    {
        proof {
            lemma_online_find_properties(self@, id);
        }
        match self.find(id) {
            Some(i) => {
                let entry = self.entries.remove(i);
                proof {
                    assert forall|j: int|
                        0 <= j < self.entries@.len() implies #[trigger] self.entries@[j] == if j
                            < i {
                            old(self).entries@[j]
                        } else {
                            old(self).entries@[j + 1]
                        } by {}
                    assert(self@ =~= spec_online_remove(old(self)@, id));
                }
                Some(entry.username)
            },
            None => {
                proof {
                    assert(self@ =~= spec_online_remove(old(self)@, id));
                }
                None
            },
        }
    }
}

/// The set of ids marked offline, so that their next announcement reads
/// as a reconnect.
pub struct OfflineSet {
    pub ids: Vec<Id>,
}

impl View for OfflineSet {
    type V = Seq<Id>;

    open spec fn view(&self) -> Seq<Id> {
        self.ids@
    }
}

/// Marking an id offline adds it once.
pub open spec fn spec_offline_insert(off: Seq<Id>, id: Id) -> Seq<Id> {
    if off.contains(id) {
        off
    } else {
        off.push(id)
    }
}

impl OfflineSet {
    pub open spec fn wf(&self) -> bool {
        forall|i: int, j: int| 0 <= i < j < self.ids@.len() ==> self.ids@[i] != self.ids@[j]
    }

    pub fn new() -> (r: Self)
        ensures
            r.wf(),
            r@ == Seq::<Id>::empty(),
    {
        OfflineSet { ids: Vec::new() }
    }

    pub fn contains(&self, id: Id) -> (r: bool)
        ensures
            r == self@.contains(id),
    {
        let mut i: usize = 0;
        while i < self.ids.len()
            invariant
                i <= self.ids@.len(),
                forall|j: int| 0 <= j < i ==> self.ids@[j] != id,
            decreases self.ids@.len() - i,
        {
            if self.ids[i] == id {
                return true;
            }
            i = i + 1;
        }
        proof {
            assert(!self@.contains(id));
        }
        false
    }

    /// Marks an id offline.
    pub fn insert(&mut self, id: Id)
        requires
            old(self).wf(),
        ensures
            final(self).wf(),
            final(self)@ == spec_offline_insert(old(self)@, id),
    {
        if !self.contains(id) {
            self.ids.push(id);
        }
    }

    /// Unmarks an id; true when it was marked.
    pub fn take(&mut self, id: Id) -> (r: bool)
        requires
            old(self).wf(),
        ensures
            final(self).wf(),
            r == old(self)@.contains(id),
            r ==> !final(self)@.contains(id),
            !r ==> final(self)@ == old(self)@,
            forall|x: Id| x != id ==> final(self)@.contains(x) == old(self)@.contains(x),
    {
        let mut i: usize = 0;
        while i < self.ids.len()
            invariant
                i <= self.ids@.len(),
                old(self).wf(),
                self.ids@ == old(self).ids@,
                forall|j: int| 0 <= j < i ==> self.ids@[j] != id,
            decreases self.ids@.len() - i,
        {
            if self.ids[i] == id {
                self.ids.remove(i);
                proof {
                    assert forall|k: int|
                        0 <= k < self.ids@.len() implies #[trigger] self.ids@[k] == if k < i {
                            old(self).ids@[k]
                        } else {
                            old(self).ids@[k + 1]
                        } by {}
                    assert(old(self)@.contains(id));
                    assert forall|x: Id| x != id implies self@.contains(x) == old(
                        self,
                    )@.contains(x) by {
                        if old(self)@.contains(x) {
                            let w = choose|w: int|
                                0 <= w < old(self)@.len() && old(self)@[w] == x;
                            if w < i {
                                assert(self.ids@[w] == x);
                            } else {
                                assert(self.ids@[w - 1] == x);
                            }
                        } else {
                            if self@.contains(x) {
                                let w = choose|w: int|
                                    0 <= w < self.ids@.len() && self.ids@[w] == x;
                                assert(old(self)@.contains(x));
                            }
                        }
                    }
                    assert forall|w: int| 0 <= w < self.ids@.len() implies #[trigger] self.ids@[w]
                        != id by {
                        if w >= i {
                            assert(old(self).ids@[w + 1] != id);
                        }
                    }
                    assert(!self@.contains(id));
                    assert forall|p: int, q: int|
                        0 <= p < q < self.ids@.len() implies self.ids@[p] != self.ids@[q] by {}
                }
                return true;
            }
            i = i + 1;
        }
        proof {
            assert(!old(self)@.contains(id));
        }
        false
    }
}

/// What one engine step hands to the surrounding loop: events for the
/// interface, frames for the wire, and whether the session is over.
pub struct StepOutput {
    pub events: Vec<UICommand>,
    pub frames: Vec<Vec<u8>>,
    pub terminate: bool,
}

/// This session's own presence announcement.
pub open spec fn spec_own_presence(session_id: Id, is_join: bool, username: Seq<char>) -> PacketView {
    PacketView::PresenceInformation { id: session_id, is_join, username }
}

/// A heartbeat is due once the interval has passed since the last one.
pub open spec fn spec_heartbeat_due(last_heartbeat: u64, now: u64) -> bool {
    now > last_heartbeat + HEARTBEAT_INTERVAL
}

/// The views of a sequence of table entries, in order.
pub open spec fn spec_entries_view(es: Seq<OnlineEntry>) -> Seq<OnlineEntryView> {
    Seq::new(es.len(), |i: int| es[i]@)
}

/// Whether some entry carries the given id.
pub open spec fn spec_has_id(es: Seq<OnlineEntryView>, id: Id) -> bool {
    exists|i: int| 0 <= i < es.len() && (#[trigger] es[i]).id == id
}

/// The table after one liveness sweep: entries past the offline timeout
/// are gone, the rest stay in order.
pub open spec fn spec_sweep_keep(es: Seq<OnlineEntryView>, now: u64) -> Seq<OnlineEntryView>
    decreases es.len(),
{
    if es.len() == 0 {
        Seq::empty()
    } else {
        (if spec_is_offline(now, es.first().last_seen) {
            Seq::empty()
        } else {
            seq![es.first()]
        }) + spec_sweep_keep(es.drop_first(), now)
    }
}

/// The offline set after one sweep: each dropped peer's id is marked.
pub open spec fn spec_sweep_offline(off: Seq<Id>, es: Seq<OnlineEntryView>, now: u64) -> Seq<Id>
    decreases es.len(),
{
    if es.len() == 0 {
        off
    } else {
        spec_sweep_offline(
            if spec_is_offline(now, es.first().last_seen) {
                spec_offline_insert(off, es.first().id)
            } else {
                off
            },
            es.drop_first(),
            now,
        )
    }
}

/// The events one sweep reports, in table order: a removal for each
/// peer past the offline timeout, an inactivity flag for each peer past
/// the inactive timeout only.
pub open spec fn spec_sweep_events(es: Seq<OnlineEntryView>, now: u64) -> Seq<UICommandView>
    decreases es.len(),
{
    if es.len() == 0 {
        Seq::empty()
    } else {
        (if spec_is_offline(now, es.first().last_seen) {
            seq![UICommandView::RemovePresence { id: es.first().id, username: es.first().username }]
        } else if spec_is_inactive(now, es.first().last_seen) {
            seq![
                UICommandView::PresenceUpdate {
                    id: es.first().id,
                    username: es.first().username,
                    is_inactive: true,
                    kind: UpdatePresenceKindView::Boring,
                },
            ]
        } else {
            Seq::empty()
        }) + spec_sweep_events(es.drop_first(), now)
    }
}

/// A sweep keeps ids unique and introduces none.
pub proof fn lemma_sweep_keep_distinct(es: Seq<OnlineEntryView>, now: u64)
    requires
        forall|i: int, j: int| 0 <= i < j < es.len() ==> es[i].id != es[j].id,
    ensures
        forall|i: int, j: int|
            0 <= i < j < spec_sweep_keep(es, now).len() ==> spec_sweep_keep(es, now)[i].id
                != spec_sweep_keep(es, now)[j].id,
        forall|id: Id| spec_has_id(spec_sweep_keep(es, now), id) ==> spec_has_id(es, id),
    decreases es.len(),
{
    if es.len() > 0 {
        let rest = es.drop_first();
        assert forall|i: int, j: int| 0 <= i < j < rest.len() implies rest[i].id != rest[j].id by {
            assert(es[i + 1].id != es[j + 1].id);
        }
        lemma_sweep_keep_distinct(rest, now);
        let kept = spec_sweep_keep(es, now);
        let kept_rest = spec_sweep_keep(rest, now);
        assert forall|id: Id| spec_has_id(kept, id) implies spec_has_id(es, id) by {
            let w = choose|w: int| 0 <= w < kept.len() && kept[w].id == id;
            if spec_is_offline(now, es.first().last_seen) || w > 0 {
                let off: int = if spec_is_offline(now, es.first().last_seen) {
                    0
                } else {
                    1
                };
                assert(kept_rest[w - off].id == id);
                assert(spec_has_id(rest, id));
                let v = choose|v: int| 0 <= v < rest.len() && rest[v].id == id;
                assert(es[v + 1].id == id);
            } else {
                assert(es[0].id == id);
            }
        }
        if !spec_is_offline(now, es.first().last_seen) {
            assert forall|i: int, j: int| 0 <= i < j < kept.len() implies kept[i].id
                != kept[j].id by {
                if i == 0 {
                    assert(kept[j] == kept_rest[j - 1]);
                    assert(spec_has_id(kept_rest, kept[j].id));
                    if kept[j].id == es[0].id {
                        assert(spec_has_id(rest, es[0].id));
                        let v = choose|v: int| 0 <= v < rest.len() && rest[v].id == es[0].id;
                        assert(es[v + 1].id == es[0].id);
                    }
                } else {
                    assert(kept[i] == kept_rest[i - 1] && kept[j] == kept_rest[j - 1]);
                }
            }
        }
    }
}

/// The session engine's whole state: this session's identity and name,
/// the protocol phase, the heartbeat switch and clock, both presence
/// tables, and the frame adapter core it sends and receives through.
pub struct Engine {
    pub session_id: Id,
    pub username: String,
    pub state: NetThreadState,
    pub pause_heartbeat: bool,
    pub online: OnlineTable,
    pub offline: OfflineSet,
    pub last_heartbeat: u64,
    pub channel: Channel,
}

/// What the engine decides before an interface is bound: bind to the
/// named interface, stop without sending anything, or wait on.
pub enum PrebindAction {
    Bind(String),
    Stop,
    Ignore,
}

/// The decision for one command that arrives before an interface is
/// bound: only binding and termination act; everything else waits.
pub fn prebind_step(cmd: NetCommand) -> (r: PrebindAction)
    ensures
        match cmd {
            NetCommand::SetInterface { interface_name } => r matches PrebindAction::Bind(n)
                && n@ == interface_name@,
            NetCommand::Terminate => r is Stop,
            _ => r is Ignore,
        },
{
    match cmd {
        NetCommand::SetInterface { interface_name } => PrebindAction::Bind(interface_name),
        NetCommand::Terminate => PrebindAction::Stop,
        _ => PrebindAction::Ignore,
    }
}

impl Engine {
    pub open spec fn wf(&self) -> bool {
        &&& self.online.wf()
        &&& self.offline.wf()
        &&& self.channel.wf()
    }

    /// A fresh engine over a bound adapter core: unnamed, with empty
    /// tables and the heartbeat clock started now.
    pub fn new(session_id: Id, channel: Channel, now: u64) -> (r: Self)
        requires
            channel.wf(),
        ensures
            r.wf(),
            r.session_id == session_id,
            r.username@ == INITIAL_USERNAME@,
            r.state is NeedsUsername,
            !r.pause_heartbeat,
            r.online@ == Seq::<OnlineEntryView>::empty(),
            r.offline@ == Seq::<Id>::empty(),
            r.last_heartbeat == now,
            r.channel == channel,
    {
        Engine {
            session_id,
            username: INITIAL_USERNAME.to_owned(),
            state: NetThreadState::NeedsUsername,
            pause_heartbeat: false,
            online: OnlineTable::new(),
            offline: OfflineSet::new(),
            last_heartbeat: now,
            channel,
        }
    }

    /// Acts on one command from the interface. `corr_id` is the fresh
    /// correlation id under which a packet sent by this step goes out.
    pub fn handle_command(&mut self, cmd: NetCommand, corr_id: Id) -> (out: StepOutput)
        requires
            old(self).wf(),
        ensures
            final(self).wf(),
            final(self).session_id == old(self).session_id,
            final(self).online == old(self).online,
            final(self).offline == old(self).offline,
            final(self).last_heartbeat == old(self).last_heartbeat,
            final(self).channel.src_mac == old(self).channel.src_mac,
            final(self).channel.buffer == old(self).channel.buffer,
            final(self).channel.recent == old(self).channel.recent,
            !(cmd matches NetCommand::UpdateUsername(_)) ==> final(self).username == old(
                self,
            ).username && final(self).state == old(self).state,
            !(cmd matches NetCommand::SetEtherType(_)) ==> final(self).channel.ether_type == old(
                self,
            ).channel.ether_type,
            !(cmd matches NetCommand::PauseHeartbeat(_)) ==> final(self).pause_heartbeat == old(
                self,
            ).pause_heartbeat,
            out.terminate == (cmd matches NetCommand::Terminate),
            match cmd {
                NetCommand::PauseHeartbeat(pause) => {
                    &&& final(self).pause_heartbeat == pause
                    &&& out.events@.len() == 0
                    &&& out.frames@.len() == 0
                },
                NetCommand::SendMessage { message_text } => {
                    let p = PacketView::Message {
                        id: old(self).session_id,
                        message_text: message_text@,
                    };
                    let echo = UICommandView::ShowMessage {
                        id: old(self).session_id,
                        username: old(self).username@,
                        message: message_text@,
                        is_outgoing_message: true,
                    };
                    if spec_chunks(spec_serialize(p)).len() <= MAX_FRAGMENTS {
                        spec_events_view(out.events@) == seq![echo]
                            && out.frames.deep_view() == spec_send_frames(
                            p,
                            corr_id,
                            old(self).channel.ether_type.spec_bytes(),
                            old(self).channel.src_mac@,
                        )
                    } else {
                        spec_events_view(out.events@) == seq![
                            echo,
                            UICommandView::SendNetError(NetErrorView::MessageTooLong),
                        ] && out.frames@.len() == 0
                    }
                },
                NetCommand::SetEtherType(ether_type) => {
                    &&& final(self).channel.ether_type == ether_type
                    &&& out.events@.len() == 0
                    &&& out.frames@.len() == 0
                },
                NetCommand::SetInterface { .. } => {
                    &&& spec_events_view(out.events@) == seq![
                        UICommandView::SendNetError(NetErrorView::InterfaceAlreadySet),
                    ]
                    &&& out.frames@.len() == 0
                },
                NetCommand::Terminate => {
                    &&& out.events@.len() == 0
                    &&& out.frames.deep_view() == spec_send_frames(
                        PacketView::Disconnect(old(self).session_id),
                        corr_id,
                        old(self).channel.ether_type.spec_bytes(),
                        old(self).channel.src_mac@,
                    )
                },
                NetCommand::UpdateUsername(new_username) => {
                    &&& final(self).username@ == new_username@
                    &&& out.events@.len() == 0
                    &&& if old(self).state is NeedsUsername {
                        final(self).state is NeedsInitialPresence
                            && out.frames.deep_view() == spec_send_frames(
                            PacketView::PresenceBroadcastRequest,
                            corr_id,
                            old(self).channel.ether_type.spec_bytes(),
                            old(self).channel.src_mac@,
                        )
                    } else {
                        final(self).state == old(self).state && out.frames@.len() == 0
                    }
                },
            },
    {
        proof {
            vstd::bytes::lemma_auto_spec_u64_to_from_le_bytes();
        }
        match cmd {
            NetCommand::PauseHeartbeat(pause) => {
                self.pause_heartbeat = pause;
                StepOutput { events: Vec::new(), frames: Vec::new(), terminate: false }
            },
            NetCommand::SendMessage { message_text } => {
                let mut events: Vec<UICommand> = Vec::new();
                events.push(
                    UICommand::ShowMessage {
                        id: self.session_id,
                        username: self.username.clone(),
                        message: message_text.clone(),
                        is_outgoing_message: true,
                    },
                );
                let packet = Packet::Message { id: self.session_id, message_text };
                match self.channel.prepare_send(&packet, corr_id) {
                    Ok(frames) => {
                        proof {
                            assert(spec_events_view(events@) =~= seq![
                                UICommandView::ShowMessage {
                                    id: old(self).session_id,
                                    username: old(self).username@,
                                    message: packet@->Message_message_text,
                                    is_outgoing_message: true,
                                },
                            ]);
                        }
                        StepOutput { events, frames, terminate: false }
                    },
                    Err(_) => {
                        events.push(UICommand::SendNetError(NetError::MessageTooLong));
                        proof {
                            assert(spec_events_view(events@) =~= seq![
                                UICommandView::ShowMessage {
                                    id: old(self).session_id,
                                    username: old(self).username@,
                                    message: packet@->Message_message_text,
                                    is_outgoing_message: true,
                                },
                                UICommandView::SendNetError(NetErrorView::MessageTooLong),
                            ]);
                        }
                        StepOutput { events, frames: Vec::new(), terminate: false }
                    },
                }
            },
            NetCommand::SetEtherType(ether_type) => {
                self.channel.set_ether_type(ether_type);
                StepOutput { events: Vec::new(), frames: Vec::new(), terminate: false }
            },
            NetCommand::SetInterface { .. } => {
                let mut events: Vec<UICommand> = Vec::new();
                events.push(UICommand::SendNetError(NetError::InterfaceAlreadySet));
                proof {
                    assert(spec_events_view(events@) =~= seq![
                        UICommandView::SendNetError(NetErrorView::InterfaceAlreadySet),
                    ]);
                }
                StepOutput { events, frames: Vec::new(), terminate: false }
            },
            NetCommand::Terminate => {
                let packet = Packet::Disconnect(self.session_id);
                match self.channel.prepare_send(&packet, corr_id) {
                    Ok(frames) => StepOutput { events: Vec::new(), frames, terminate: true },
                    Err(_) => {
                        proof {
                            assert(spec_serialize(packet@).len() == 8);
                            assert(false);
                        }
                        StepOutput { events: Vec::new(), frames: Vec::new(), terminate: true }
                    },
                }
            },
            NetCommand::UpdateUsername(new_username) => {
                self.username = new_username;
                if self.state == NetThreadState::NeedsUsername {
                    let packet = Packet::PresenceBroadcastRequest;
                    self.state = NetThreadState::NeedsInitialPresence;
                    match self.channel.prepare_send(&packet, corr_id) {
                        Ok(frames) => StepOutput { events: Vec::new(), frames, terminate: false },
                        Err(_) => {
                            proof {
                                assert(spec_serialize(packet@).len() == 0);
                                assert(false);
                            }
                            StepOutput {
                                events: Vec::new(),
                                frames: Vec::new(),
                                terminate: false,
                            }
                        },
                    }
                } else {
                    StepOutput { events: Vec::new(), frames: Vec::new(), terminate: false }
                }
            },
        }
    }
}

impl Engine {
    /// Acts on one packet received from the wire at time `now`.
    /// `corr_id` is the fresh correlation id for the reply a broadcast
    /// request provokes.
    pub fn handle_packet(&mut self, packet: Packet, now: u64, corr_id: Id) -> (out: StepOutput)
        requires
            old(self).wf(),
        ensures
            final(self).wf(),
            final(self).session_id == old(self).session_id,
            final(self).username == old(self).username,
            final(self).pause_heartbeat == old(self).pause_heartbeat,
            final(self).last_heartbeat == old(self).last_heartbeat,
            final(self).channel == old(self).channel,
            !out.terminate,
            match packet@ {
                PacketView::Message { id, message_text } => {
                    let author = match spec_online_find(old(self).online@, id) {
                        Some(i) => old(self).online@[i].username,
                        None => UNKNOWN_USERNAME@,
                    };
                    let alert = id != old(self).session_id && spec_contains_sub(
                        encode_utf8(message_text),
                        encode_utf8(old(self).username@),
                    );
                    let show = UICommandView::ShowMessage {
                        id,
                        username: author,
                        message: message_text,
                        is_outgoing_message: false,
                    };
                    &&& final(self).state == old(self).state
                    &&& final(self).online == old(self).online
                    &&& final(self).offline == old(self).offline
                    &&& spec_events_view(out.events@) == if alert {
                        seq![UICommandView::AlertUser, show]
                    } else {
                        seq![show]
                    }
                    &&& out.frames@.len() == 0
                },
                PacketView::PresenceBroadcastRequest => {
                    let p = spec_own_presence(
                        old(self).session_id,
                        old(self).state is NeedsInitialPresence,
                        old(self).username@,
                    );
                    &&& final(self).state == old(self).state
                    &&& final(self).online == old(self).online
                    &&& final(self).offline == old(self).offline
                    &&& out.events@.len() == 0
                    &&& if spec_chunks(spec_serialize(p)).len() <= MAX_FRAGMENTS {
                        out.frames.deep_view() == spec_send_frames(
                            p,
                            corr_id,
                            old(self).channel.ether_type.spec_bytes(),
                            old(self).channel.src_mac@,
                        )
                    } else {
                        out.frames@.len() == 0
                    }
                },
                PacketView::PresenceInformation { id, is_join, username } => {
                    &&& final(self).online@ == spec_online_upsert(
                        old(self).online@,
                        id,
                        now,
                        username,
                    )
                    &&& final(self).state == if id == old(self).session_id {
                        NetThreadState::Ready
                    } else {
                        old(self).state
                    }
                    &&& match spec_online_find(old(self).online@, id) {
                        Some(i) => {
                            &&& final(self).offline == old(self).offline
                            &&& spec_events_view(out.events@) == if old(
                                self,
                            ).online@[i].username != username {
                                seq![
                                    UICommandView::PresenceUpdate {
                                        id,
                                        username,
                                        is_inactive: false,
                                        kind: UpdatePresenceKindView::UsernameChange {
                                            previous_username: old(self).online@[i].username,
                                        },
                                    },
                                ]
                            } else {
                                Seq::<UICommandView>::empty()
                            }
                        },
                        None => {
                            &&& forall|x: Id| final(self).offline@.contains(x) == (x != id && old(
                                self,
                            ).offline@.contains(x))
                            &&& spec_events_view(out.events@) == seq![
                                UICommandView::PresenceUpdate {
                                    id,
                                    username,
                                    is_inactive: false,
                                    kind: if old(self).offline@.contains(id) || is_join {
                                        UpdatePresenceKindView::JoinOrReconnect
                                    } else {
                                        UpdatePresenceKindView::Boring
                                    },
                                },
                            ]
                        },
                    }
                    &&& out.frames@.len() == 0
                },
                PacketView::Disconnect(id) => {
                    &&& final(self).state == old(self).state
                    &&& final(self).offline == old(self).offline
                    &&& final(self).online@ == spec_online_remove(old(self).online@, id)
                    &&& spec_events_view(out.events@) == match spec_online_find(
                        old(self).online@,
                        id,
                    ) {
                        Some(i) => seq![
                            UICommandView::RemovePresence {
                                id,
                                username: old(self).online@[i].username,
                            },
                        ],
                        None => Seq::<UICommandView>::empty(),
                    }
                    &&& out.frames@.len() == 0
                },
            },
    {
        match packet {
            Packet::Message { id, message_text } => {
                let author = match self.online.username_of(id) {
                    Some(u) => u,
                    None => UNKNOWN_USERNAME.to_owned(),
                };
                let mut events: Vec<UICommand> = Vec::new();
                let alert = id != self.session_id && contains_bytes(
                    message_text.as_str().as_bytes(),
                    self.username.as_str().as_bytes(),
                );
                if alert {
                    events.push(UICommand::AlertUser);
                }
                let ghost msg = message_text@;
                events.push(
                    UICommand::ShowMessage {
                        id,
                        username: author,
                        message: message_text,
                        is_outgoing_message: false,
                    },
                );
                proof {
                    let author_v = match spec_online_find(old(self).online@, id) {
                        Some(i) => old(self).online@[i].username,
                        None => UNKNOWN_USERNAME@,
                    };
                    let show = UICommandView::ShowMessage {
                        id,
                        username: author_v,
                        message: msg,
                        is_outgoing_message: false,
                    };
                    if alert {
                        assert(spec_events_view(events@) =~= seq![UICommandView::AlertUser, show]);
                    } else {
                        assert(spec_events_view(events@) =~= seq![show]);
                    }
                }
                StepOutput { events, frames: Vec::new(), terminate: false }
            },
            Packet::PresenceBroadcastRequest => {
                let reply = Packet::PresenceInformation {
                    id: self.session_id,
                    is_join: self.state == NetThreadState::NeedsInitialPresence,
                    username: self.username.clone(),
                };
                match self.channel.prepare_send(&reply, corr_id) {
                    Ok(frames) => StepOutput { events: Vec::new(), frames, terminate: false },
                    Err(_) => StepOutput {
                        events: Vec::new(),
                        frames: Vec::new(),
                        terminate: false,
                    },
                }
            },
            Packet::PresenceInformation { id, is_join, username } => {
                let ghost name = username@;
                let previous = self.online.upsert(id, now, username.clone());
                let mut events: Vec<UICommand> = Vec::new();
                match previous {
                    Some(previous_username) => {
                        if !<String as PartialEq>::eq(&previous_username, &username) {
                            events.push(
                                UICommand::PresenceUpdate {
                                    id,
                                    username,
                                    is_inactive: false,
                                    kind: UpdatePresenceKind::UsernameChange { previous_username },
                                },
                            );
                            proof {
                                let i = spec_online_find(old(self).online@, id)->0;
                                assert(spec_events_view(events@) =~= seq![
                                    UICommandView::PresenceUpdate {
                                        id,
                                        username: name,
                                        is_inactive: false,
                                        kind: UpdatePresenceKindView::UsernameChange {
                                            previous_username: old(self).online@[i].username,
                                        },
                                    },
                                ]);
                            }
                        } else {
                            proof {
                                assert(spec_events_view(events@)
                                    =~= Seq::<UICommandView>::empty());
                            }
                        }
                    },
                    None => {
                        let was_offline = self.offline.take(id);
                        let kind = if was_offline || is_join {
                            UpdatePresenceKind::JoinOrReconnect
                        } else {
                            UpdatePresenceKind::Boring
                        };
                        events.push(
                            UICommand::PresenceUpdate { id, username, is_inactive: false, kind },
                        );
                        proof {
                            assert(spec_events_view(events@) =~= seq![
                                UICommandView::PresenceUpdate {
                                    id,
                                    username: name,
                                    is_inactive: false,
                                    kind: if old(self).offline@.contains(id) || is_join {
                                        UpdatePresenceKindView::JoinOrReconnect
                                    } else {
                                        UpdatePresenceKindView::Boring
                                    },
                                },
                            ]);
                        }
                    },
                }
                if id == self.session_id {
                    self.state = NetThreadState::Ready;
                }
                StepOutput { events, frames: Vec::new(), terminate: false }
            },
            Packet::Disconnect(id) => {
                let mut events: Vec<UICommand> = Vec::new();
                match self.online.remove(id) {
                    Some(username) => {
                        let ghost name = username@;
                        events.push(UICommand::RemovePresence { id, username });
                        proof {
                            assert(spec_events_view(events@) =~= seq![
                                UICommandView::RemovePresence { id, username: name },
                            ]);
                        }
                    },
                    None => {
                        proof {
                            assert(spec_events_view(events@) =~= Seq::<UICommandView>::empty());
                        }
                    },
                }
                StepOutput { events, frames: Vec::new(), terminate: false }
            },
        }
    }

    /// Runs one heartbeat check at time `now`: when the session is
    /// ready and the interval has passed, announces presence (unless
    /// paused) and sweeps the online table for inactive and offline
    /// peers; otherwise does nothing.
    pub fn heartbeat_tick(&mut self, now: u64, corr_id: Id) -> (out: StepOutput)
        requires
            old(self).wf(),
        ensures
            final(self).wf(),
            final(self).session_id == old(self).session_id,
            final(self).username == old(self).username,
            final(self).state == old(self).state,
            final(self).pause_heartbeat == old(self).pause_heartbeat,
            final(self).channel == old(self).channel,
            !out.terminate,
            if !(spec_heartbeat_due(old(self).last_heartbeat, now) && old(self).state is Ready) {
                &&& final(self).online == old(self).online
                &&& final(self).offline == old(self).offline
                &&& final(self).last_heartbeat == old(self).last_heartbeat
                &&& out.events@.len() == 0
                &&& out.frames@.len() == 0
            } else {
                let p = spec_own_presence(old(self).session_id, false, old(self).username@);
                &&& final(self).last_heartbeat == now
                &&& final(self).online@ == spec_sweep_keep(old(self).online@, now)
                &&& final(self).offline@ == spec_sweep_offline(
                    old(self).offline@,
                    old(self).online@,
                    now,
                )
                &&& spec_events_view(out.events@) == spec_sweep_events(old(self).online@, now)
                &&& if old(self).pause_heartbeat {
                    out.frames@.len() == 0
                } else if spec_chunks(spec_serialize(p)).len() <= MAX_FRAGMENTS {
                    out.frames.deep_view() == spec_send_frames(
                        p,
                        corr_id,
                        old(self).channel.ether_type.spec_bytes(),
                        old(self).channel.src_mac@,
                    )
                } else {
                    out.frames@.len() == 0
                }
            },
    {
        let due = self.state == NetThreadState::Ready && now > self.last_heartbeat && now
            - self.last_heartbeat > HEARTBEAT_INTERVAL;
        if !due {
            return StepOutput { events: Vec::new(), frames: Vec::new(), terminate: false };
        }
        let frames = if !self.pause_heartbeat {
            let announcement = Packet::PresenceInformation {
                id: self.session_id,
                is_join: false,
                username: self.username.clone(),
            };
            match self.channel.prepare_send(&announcement, corr_id) {
                Ok(frames) => frames,
                Err(_) => Vec::new(),
            }
        } else {
            Vec::new()
        };
        let ghost es = self.online@;
        let ghost off0 = self.offline@;
        let mut events: Vec<UICommand> = Vec::new();
        let mut kept: Vec<OnlineEntry> = Vec::new();
        let mut i: usize = 0;
        proof {
            assert(es.skip(0) =~= es);
        }
        let n = self.online.entries.len();
        while i < n
            invariant
                i <= n,
                n == self.online.entries@.len(),
                self.online == old(self).online,
                es == old(self).online@,
                off0 == old(self).offline@,
                self.session_id == old(self).session_id,
                self.username == old(self).username,
                self.state == old(self).state,
                self.pause_heartbeat == old(self).pause_heartbeat,
                self.channel == old(self).channel,
                self.last_heartbeat == old(self).last_heartbeat,
                old(self).wf(),
                self.offline.wf(),
                spec_sweep_events(es, now) =~= spec_events_view(events@) + spec_sweep_events(
                    es.skip(i as int),
                    now,
                ),
                spec_sweep_keep(es, now) =~= spec_entries_view(kept@) + spec_sweep_keep(
                    es.skip(i as int),
                    now,
                ),
                spec_sweep_offline(off0, es, now) == spec_sweep_offline(
                    self.offline@,
                    es.skip(i as int),
                    now,
                ),
            decreases n - i,
        {
            proof {
                assert(es.skip(i as int).first() == es[i as int]);
                assert(es.skip(i as int).drop_first() =~= es.skip(i as int + 1));
            }
            let id = self.online.entries[i].id;
            let last_seen = self.online.entries[i].last_seen;
            let username = self.online.entries[i].username.clone();
            let ghost ev0 = spec_events_view(events@);
            let ghost kept0 = spec_entries_view(kept@);
            if now > last_seen && now - last_seen > OFFLINE_TIMEOUT {
                self.offline.insert(id);
                events.push(UICommand::RemovePresence { id, username });
                proof {
                    assert(spec_events_view(events@) =~= ev0.push(
                        UICommandView::RemovePresence { id, username: es[i as int].username },
                    ));
                }
            } else {
                if now > last_seen && now - last_seen > INACTIVE_TIMEOUT {
                    events.push(
                        UICommand::PresenceUpdate {
                            id,
                            username: username.clone(),
                            is_inactive: true,
                            kind: UpdatePresenceKind::Boring,
                        },
                    );
                    proof {
                        assert(spec_events_view(events@) =~= ev0.push(
                            UICommandView::PresenceUpdate {
                                id,
                                username: es[i as int].username,
                                is_inactive: true,
                                kind: UpdatePresenceKindView::Boring,
                            },
                        ));
                    }
                }
                kept.push(OnlineEntry { id, last_seen, username });
                proof {
                    assert(spec_entries_view(kept@) =~= kept0.push(es[i as int]));
                }
            }
            i = i + 1;
        }
        proof {
            assert(es.skip(n as int) =~= Seq::<OnlineEntryView>::empty());
            assert(spec_events_view(events@) + spec_sweep_events(es.skip(n as int), now)
                =~= spec_events_view(events@));
            assert(spec_entries_view(kept@) + spec_sweep_keep(es.skip(n as int), now)
                =~= spec_entries_view(kept@));
            assert(spec_entries_view(kept@) =~= spec_sweep_keep(es, now));
            lemma_sweep_keep_distinct(es, now);
        }
        self.online.entries = kept;
        self.last_heartbeat = now;
        proof {
            assert(self.online@ =~= spec_entries_view(self.online.entries@));
            assert forall|p: int, q: int|
                0 <= p < q < self.online.entries@.len() implies self.online.entries@[p]@.id
                != self.online.entries@[q]@.id by {
                assert(spec_sweep_keep(es, now)[p].id != spec_sweep_keep(es, now)[q].id);
            }
        }
        StepOutput { events, frames, terminate: false }
    }
}

} // verus!
