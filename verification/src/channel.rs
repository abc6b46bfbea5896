//! The frame adapter's pure core: fragmentation of an encoded body into
//! chunks, reassembly of arriving fragments by index, and the bounded
//! insertion-ordered set that drops packets delivered once already.
use vstd::prelude::*;
use crate::arp::{
    self, Fragment, FragmentView, PACKET_DATA_SIZE, spec_frame, spec_parse_frame,
};
use crate::error::{NetError, NetErrorView};
use crate::ether_type::EtherType;
use crate::ktp::{Id, Packet, PacketView, spec_deserialize, spec_serialize, spec_tag};

verus! {

/// Most fragments one logical packet may take: the last-index field is
/// one byte, so indices run from 0 to 255.
pub const MAX_FRAGMENTS: usize = 256;

/// How many recently completed correlation ids are remembered.
pub const RECENT_CAPACITY: usize = 16;

/// A byte vector's deep view is its view.
pub broadcast proof fn lemma_bytes_deep_view(v: Vec<u8>)
    ensures
        #[trigger] v.deep_view() == v@,
{
    assert(v.deep_view() =~= v@);
}

/// The encoded body cut into chunks of at most the per-fragment size;
/// an empty body still takes one (empty) chunk.
pub open spec fn spec_chunks(b: Seq<u8>) -> Seq<Seq<u8>>
    decreases b.len(),
{
    if b.len() <= PACKET_DATA_SIZE {
        seq![b]
    } else {
        seq![b.take(PACKET_DATA_SIZE as int)] + spec_chunks(b.skip(PACKET_DATA_SIZE as int))
    }
}

/// Chunking never yields zero pieces, keeps each piece within the
/// per-fragment size, and concatenating the pieces restores the body.
pub proof fn lemma_chunks_flatten(b: Seq<u8>)
    ensures
        spec_chunks(b).len() >= 1,
        forall|i: int| 0 <= i < spec_chunks(b).len() ==> (#[trigger] spec_chunks(b)[i]).len()
            <= PACKET_DATA_SIZE,
        spec_chunks(b).flatten() == b,
    decreases b.len(),
{
    reveal_with_fuel(Seq::<_>::flatten, 3);
    if b.len() <= PACKET_DATA_SIZE {
        assert(spec_chunks(b).flatten() =~= b);
    } else {
        let head = b.take(PACKET_DATA_SIZE as int);
        let rest = b.skip(PACKET_DATA_SIZE as int);
        lemma_chunks_flatten(rest);
        assert(spec_chunks(b).drop_first() =~= spec_chunks(rest));
        assert(spec_chunks(b).flatten() =~= head + spec_chunks(rest).flatten());
        assert(head + rest =~= b);
    }
}

/// Cuts a body into chunks, as [`spec_chunks`] lays them out.
pub fn chunk_bytes(data: &[u8]) -> (r: Vec<Vec<u8>>)
    ensures
        r.deep_view() == spec_chunks(data@),
        r@.len() >= 1,
        forall|i: int| 0 <= i < r@.len() ==> (#[trigger] r@[i])@.len() <= PACKET_DATA_SIZE,
{
    broadcast use vstd::slice::group_slice_axioms;
    broadcast use lemma_bytes_deep_view;

    let mut r: Vec<Vec<u8>> = Vec::new();
    let mut rest: &[u8] = data;
    while rest.len() > PACKET_DATA_SIZE
        invariant
            spec_chunks(data@) =~= r.deep_view() + spec_chunks(rest@),
            forall|i: int| 0 <= i < r@.len() ==> (#[trigger] r@[i])@.len() <= PACKET_DATA_SIZE,
        decreases rest@.len(),
    {
        let (head, tail) = rest.split_at(PACKET_DATA_SIZE);
        let piece = vstd::slice::slice_to_vec(head);
        let ghost rdv = r.deep_view();
        proof {
            assert(head@ =~= rest@.take(PACKET_DATA_SIZE as int));
            assert(tail@ =~= rest@.skip(PACKET_DATA_SIZE as int));
        }
        r.push(piece);
        rest = tail;
        proof {
            assert forall|j: int| 0 <= j < r.deep_view().len() implies r.deep_view()[j]
                == rdv.push(head@)[j] by {
                if j == rdv.len() {
                    lemma_bytes_deep_view(r@[j]);
                }
            }
            assert(r.deep_view() =~= rdv.push(head@));
            assert(rdv.push(head@) + spec_chunks(rest@) =~= rdv + (seq![head@]
                + spec_chunks(rest@)));
        }
    }
    let piece = vstd::slice::slice_to_vec(rest);
    let ghost rdv = r.deep_view();
    let ghost last = rest@;
    r.push(piece);
    proof {
        assert(r.deep_view() =~= rdv.push(last));
        assert(rdv.push(last) =~= rdv + seq![last]);
        assert(r.deep_view() =~= spec_chunks(data@));
    }
    r
}

/// How many reassembly slots hold a fragment already.
pub open spec fn spec_filled_count(parts: Seq<Option<Seq<u8>>>) -> int
    decreases parts.len(),
{
    if parts.len() == 0 {
        0
    } else {
        spec_filled_count(parts.drop_last()) + if parts.last() is Some {
            1int
        } else {
            0int
        }
    }
}

pub proof fn lemma_filled_count_bounds(parts: Seq<Option<Seq<u8>>>)
    ensures
        0 <= spec_filled_count(parts) <= parts.len(),
    decreases parts.len(),
{
    if parts.len() > 0 {
        lemma_filled_count_bounds(parts.drop_last());
    }
}

/// Filling one empty slot raises the filled count by exactly one.
pub proof fn lemma_filled_count_update(parts: Seq<Option<Seq<u8>>>, i: int, v: Seq<u8>)
    requires
        0 <= i < parts.len(),
        parts[i] is None,
    ensures
        spec_filled_count(parts.update(i, Some(v))) == spec_filled_count(parts) + 1,
    decreases parts.len(),
{
    let updated = parts.update(i, Some(v));
    if i == parts.len() - 1 {
        assert(updated.drop_last() =~= parts.drop_last());
    } else {
        assert(updated.drop_last() =~= parts.drop_last().update(i, Some(v)));
        lemma_filled_count_update(parts.drop_last(), i, v);
    }
}

/// A buffer whose filled count reaches its slot count has every slot.
pub proof fn lemma_filled_count_full(parts: Seq<Option<Seq<u8>>>)
    requires
        spec_filled_count(parts) == parts.len(),
    ensures
        forall|i: int| 0 <= i < parts.len() ==> parts[i] is Some,
    decreases parts.len(),
{
    lemma_filled_count_bounds(parts);
    if parts.len() > 0 {
        lemma_filled_count_bounds(parts.drop_last());
        lemma_filled_count_full(parts.drop_last());
        assert forall|i: int| 0 <= i < parts.len() implies parts[i] is Some by {
            if i < parts.len() - 1 {
                assert(parts.drop_last()[i] is Some);
            }
        }
    }
}

/// The reassembled body: the slots' contents in index order, an empty
/// slot contributing nothing.
pub open spec fn spec_assemble(parts: Seq<Option<Seq<u8>>>) -> Seq<u8>
    decreases parts.len(),
{
    if parts.len() == 0 {
        Seq::empty()
    } else {
        (match parts.first() {
            Some(c) => c,
            None => Seq::empty(),
        }) + spec_assemble(parts.drop_first())
    }
}

/// Slots holding exactly the chunks of a body, in order, reassemble to
/// that body — however the slots came to be filled.
pub proof fn lemma_assemble_chunks(b: Seq<u8>, parts: Seq<Option<Seq<u8>>>)
    requires
        parts.len() == spec_chunks(b).len(),
        forall|i: int| 0 <= i < parts.len() ==> parts[i] == Some(#[trigger] spec_chunks(b)[i]),
    ensures
        spec_assemble(parts) == b,
{
    lemma_chunks_flatten(b);
    assert forall|i: int| 0 <= i < parts.len() implies parts[i] is Some by {
        assert(parts[i] == Some(spec_chunks(b)[i]));
    }
    lemma_assemble_all_some(parts);
    assert(Seq::new(parts.len(), |i: int| parts[i]->0) =~= spec_chunks(b));
}

/// Reassembly of fully filled slots is concatenation of their contents.
proof fn lemma_assemble_all_some(parts: Seq<Option<Seq<u8>>>)
    requires
        forall|i: int| 0 <= i < parts.len() ==> parts[i] is Some,
    ensures
        spec_assemble(parts) == Seq::new(parts.len(), |i: int| parts[i]->0).flatten(),
    decreases parts.len(),
{
    let contents = Seq::new(parts.len(), |i: int| parts[i]->0);
    if parts.len() == 0 {
        assert(spec_assemble(parts) =~= contents.flatten());
    } else {
        lemma_assemble_all_some(parts.drop_first());
        assert(Seq::new(parts.drop_first().len(), |i: int| parts.drop_first()[i]->0)
            =~= contents.drop_first());
        assert(contents.flatten() == contents.first() + contents.drop_first().flatten());
        assert(spec_assemble(parts) == parts.first()->0 + spec_assemble(parts.drop_first()));
    }
}

/// One logical packet under reassembly: the tag and last index declared
/// by its fragments, and one slot per expected fragment.
pub struct ReassemblyEntry {
    pub id: Id,
    pub tag: u8,
    pub total: u8,
    pub count: usize,
    pub parts: Vec<Option<Vec<u8>>>,
}

/// Spec-level image of a [`ReassemblyEntry`], without the cached count.
#[verifier::ext_equal]
pub struct ReassemblyEntryView {
    pub id: Id,
    pub tag: u8,
    pub total: u8,
    pub parts: Seq<Option<Seq<u8>>>,
}

impl View for ReassemblyEntry {
    type V = ReassemblyEntryView;

    open spec fn view(&self) -> ReassemblyEntryView {
        ReassemblyEntryView {
            id: self.id,
            tag: self.tag,
            total: self.total,
            parts: self.parts.deep_view(),
        }
    }
}

impl ReassemblyEntry {
    /// One slot per fragment index, and the count caches the filled
    /// slots.
    pub open spec fn wf(&self) -> bool {
        &&& self.parts@.len() == self.total as int + 1
        &&& self.count == spec_filled_count(self.parts.deep_view())
    }
}

/// A fresh entry for a first-seen correlation id: empty slots only.
pub open spec fn spec_entry_new(f: FragmentView) -> ReassemblyEntryView {
    ReassemblyEntryView {
        id: f.id,
        tag: f.tag,
        total: f.total,
        parts: Seq::new(f.total as nat + 1, |i: int| None),
    }
}

/// A fragment lands in its slot when the index is in range and the slot
/// is still empty; anything else leaves the entry as it was.
pub open spec fn spec_entry_insert(
    e: ReassemblyEntryView,
    seq_no: u8,
    chunk: Seq<u8>,
) -> ReassemblyEntryView {
    if (seq_no as int) < e.parts.len() && e.parts[seq_no as int] is None {
        ReassemblyEntryView { parts: e.parts.update(seq_no as int, Some(chunk)), ..e }
    } else {
        e
    }
}

/// Fragments with different indices land independently: the entry does
/// not depend on their arrival order.
pub proof fn lemma_entry_insert_commutes(
    e: ReassemblyEntryView,
    s1: u8,
    c1: Seq<u8>,
    s2: u8,
    c2: Seq<u8>,
)
    requires
        s1 != s2,
    ensures
        spec_entry_insert(spec_entry_insert(e, s1, c1), s2, c2) == spec_entry_insert(
            spec_entry_insert(e, s2, c2),
            s1,
            c1,
        ),
{
    assert(spec_entry_insert(spec_entry_insert(e, s1, c1), s2, c2) =~~= spec_entry_insert(
        spec_entry_insert(e, s2, c2),
        s1,
        c1,
    ));
}

/// An entry is complete once every slot is filled.
pub open spec fn spec_entry_complete(e: ReassemblyEntryView) -> bool {
    spec_filled_count(e.parts) == e.parts.len()
}

impl ReassemblyEntry {
    /// Makes the entry for a first fragment of an unseen id.
    pub fn new(fragment: &Fragment) -> (r: Self)
        ensures
            r.wf(),
            r@ == spec_entry_new(fragment@),
    {
        let slots: usize = fragment.total as usize + 1;
        let mut parts: Vec<Option<Vec<u8>>> = Vec::new();
        while parts.len() < slots
            invariant
                parts@.len() <= slots,
                forall|i: int| 0 <= i < parts@.len() ==> parts@[i] is None,
                spec_filled_count(parts.deep_view()) == 0,
            decreases slots - parts@.len(),
        {
            let ghost before = parts.deep_view();
            parts.push(None);
            proof {
                assert(parts.deep_view().drop_last() =~= before);
            }
        }
        let r = ReassemblyEntry { id: fragment.id, tag: fragment.tag, total: fragment.total, count: 0, parts };
        proof {
            assert(r@.parts =~= spec_entry_new(fragment@).parts);
            assert(r@ =~~= spec_entry_new(fragment@));
        }
        r
    }

    /// Stores a fragment's chunk in its slot, if the slot is open.
    pub fn insert_chunk(&mut self, seq_no: u8, chunk: Vec<u8>)
        requires
            old(self).wf(),
        ensures
            final(self).wf(),
            final(self)@ == spec_entry_insert(old(self)@, seq_no, chunk@),
    {
        broadcast use lemma_bytes_deep_view;

        let idx = seq_no as usize;
        if idx < self.parts.len() {
            let open_slot = match &self.parts[idx] {
                Option::None => true,
                Option::Some(_) => false,
            };
            if open_slot {
                proof {
                    lemma_filled_count_bounds(self.parts.deep_view());
                    lemma_filled_count_update(self.parts.deep_view(), idx as int, chunk@);
                }
                self.parts.set(idx, Some(chunk));
                self.count = self.count + 1;
                proof {
                    assert(self.parts.deep_view() =~= old(self).parts.deep_view().update(
                        idx as int,
                        Some(chunk@),
                    ));
                    assert(self@ =~~= spec_entry_insert(old(self)@, seq_no, chunk@));
                }
                return ;
            }
        }
        proof {
            assert(self@ =~~= spec_entry_insert(old(self)@, seq_no, chunk@));
        }
    }

    /// True once every expected fragment has arrived.
    pub fn is_complete(&self) -> (r: bool)
        requires
            self.wf(),
        ensures
            r == spec_entry_complete(self@),
    {
        self.count == self.parts.len()
    }

    /// Concatenates the completed slots in index order.
    pub fn assemble(&self) -> (r: Vec<u8>)
        requires
            self.wf(),
            spec_entry_complete(self@),
        ensures
            r@ == spec_assemble(self@.parts),
    {
        proof {
            lemma_filled_count_full(self.parts.deep_view());
        }
        let mut out: Vec<u8> = Vec::new();
        let mut i: usize = 0;
        proof {
            assert(self@.parts.skip(0) =~= self@.parts);
        }
        while i < self.parts.len()
            invariant
                i <= self.parts@.len(),
                self.wf(),
                spec_entry_complete(self@),
                forall|j: int| 0 <= j < self.parts.deep_view().len()
                    ==> self.parts.deep_view()[j] is Some,
                spec_assemble(self@.parts) == out@ + spec_assemble(self@.parts.skip(i as int)),
            decreases self.parts@.len() - i,
        {
            let ghost parts = self@.parts;
            proof {
                assert(parts.skip(i as int).first() == parts[i as int]);
                assert(parts.skip(i as int).drop_first() =~= parts.skip(i as int + 1));
            }
            match &self.parts[i] {
                Option::Some(chunk) => {
                    out.extend_from_slice(chunk.as_slice());
                },
                Option::None => {
                    proof {
                        assert(false);
                    }
                },
            }
            i = i + 1;
        }
        proof {
            assert(self@.parts.skip(self.parts@.len() as int) =~= Seq::<Option<Seq<u8>>>::empty());
        }
        out
    }
}

/// The reassembly buffer: entries for the correlation ids with pending
/// fragments, one entry per id.
pub struct ReassemblyBuffer {
    pub entries: Vec<ReassemblyEntry>,
}

impl View for ReassemblyBuffer {
    type V = Seq<ReassemblyEntryView>;

    open spec fn view(&self) -> Seq<ReassemblyEntryView> {
        Seq::new(self.entries@.len(), |i: int| self.entries@[i]@)
    }
}

/// Index of the entry holding the given id, scanning from the front.
pub open spec fn spec_find(bs: Seq<ReassemblyEntryView>, id: Id) -> Option<int>
    decreases bs.len(),
{
    if bs.len() == 0 {
        None
    } else if bs[0].id == id {
        Some(0int)
    } else {
        match spec_find(bs.drop_first(), id) {
            Some(i) => Some(i + 1),
            None => None,
        }
    }
}

pub proof fn lemma_find_properties(bs: Seq<ReassemblyEntryView>, id: Id)
    ensures
        match spec_find(bs, id) {
            Some(i) => 0 <= i < bs.len() && bs[i].id == id,
            None => forall|i: int| 0 <= i < bs.len() ==> (#[trigger] bs[i]).id != id,
        },
    decreases bs.len(),
{
    if bs.len() > 0 && bs[0].id != id {
        lemma_find_properties(bs.drop_first(), id);
        match spec_find(bs.drop_first(), id) {
            Some(i) => {
                assert(bs[i + 1] == bs.drop_first()[i]);
            },
            None => {
                assert forall|i: int| 0 <= i < bs.len() implies (#[trigger] bs[i]).id != id by {
                    if i > 0 {
                        assert(bs.drop_first()[i - 1].id != id);
                    }
                }
            },
        }
    }
}

impl ReassemblyBuffer {
    pub open spec fn wf(&self) -> bool {
        &&& forall|i: int| 0 <= i < self.entries@.len() ==> (#[trigger] self.entries@[i]).wf()
        &&& forall|i: int, j: int|
            0 <= i < j < self.entries@.len() ==> self.entries@[i]@.id != self.entries@[j]@.id
    }

    pub fn new() -> (r: Self)
        ensures
            r.wf(),
            r@ == Seq::<ReassemblyEntryView>::empty(),
    {
        let r = ReassemblyBuffer { entries: Vec::new() };
        proof {
            assert(r@ =~= Seq::<ReassemblyEntryView>::empty());
        }
        r
    }

    /// Finds the entry for an id, as [`spec_find`] scans.
    pub fn find(&self, id: Id) -> (r: Option<usize>)
        ensures
            match r {
                Some(i) => spec_find(self@, id) == Some(i as int),
                None => spec_find(self@, id) is None,
            },
    {
        let mut i: usize = 0;
        proof {
            assert(self@.skip(0) =~= self@);
        }
        while i < self.entries.len()
            invariant
                i <= self.entries@.len(),
                spec_find(self@, id) == match spec_find(self@.skip(i as int), id) {
                    Some(j) => Some(j + i),
                    None => None::<int>,
                },
            decreases self.entries@.len() - i,
        {
            proof {
                assert(self@.skip(i as int).first() == self@[i as int]);
                assert(self@.skip(i as int).drop_first() =~= self@.skip(i as int + 1));
            }
            if self.entries[i].id == id {
                return Some(i);
            }
            i = i + 1;
        }
        proof {
            assert(self@.skip(self.entries@.len() as int)
                =~= Seq::<ReassemblyEntryView>::empty());
        }
        None
    }
}

/// The recently-completed set: at most [`RECENT_CAPACITY`] correlation
/// ids, oldest first, evicted first-in-first-out on overflow.
pub struct RecentSet {
    pub items: Vec<Id>,
}

impl View for RecentSet {
    type V = Seq<Id>;

    open spec fn view(&self) -> Seq<Id> {
        self.items@
    }
}

/// Insertion appends the id and, past capacity, evicts the oldest.
pub open spec fn spec_recent_insert(r: Seq<Id>, id: Id) -> Seq<Id> {
    if r.len() + 1 > RECENT_CAPACITY {
        r.push(id).drop_first()
    } else {
        r.push(id)
    }
}

impl RecentSet {
    pub open spec fn wf(&self) -> bool {
        self.items@.len() <= RECENT_CAPACITY
    }

    pub fn new() -> (r: Self)
        ensures
            r.wf(),
            r@ == Seq::<Id>::empty(),
    {
        RecentSet { items: Vec::new() }
    }

    /// Whether the id was delivered recently.
    pub fn contains(&self, id: Id) -> (r: bool)
        ensures
            r == self@.contains(id),
    {
        let mut i: usize = 0;
        while i < self.items.len()
            invariant
                i <= self.items@.len(),
                forall|j: int| 0 <= j < i ==> self.items@[j] != id,
            decreases self.items@.len() - i,
        {
            if self.items[i] == id {
                return true;
            }
            i = i + 1;
        }
        proof {
            assert(!self@.contains(id));
        }
        false
    }

    /// Remembers a delivered id, evicting the oldest past capacity.
    pub fn insert(&mut self, id: Id)
        requires
            old(self).wf(),
        ensures
            final(self).wf(),
            final(self)@ == spec_recent_insert(old(self)@, id),
    {
        self.items.push(id);
        if self.items.len() > RECENT_CAPACITY {
            self.items.remove(0);
            proof {
                assert(self@ =~= old(self)@.push(id).drop_first());
            }
        }
    }
}

/// Every correlation id just inserted is remembered.
pub proof fn lemma_recent_insert_contains(r: Seq<Id>, id: Id)
    ensures
        spec_recent_insert(r, id).contains(id),
{
    let pushed = r.push(id);
    assert(pushed[r.len() as int] == id);
    if r.len() + 1 > RECENT_CAPACITY {
        assert(pushed.drop_first()[r.len() - 1] == id);
    }
}

/// What sending one logical packet puts on the wire: one frame per
/// chunk of the encoded body, all under one fresh correlation id.
pub open spec fn spec_send_frames(p: PacketView, id: Id, ether_type: Seq<u8>, src_mac: Seq<u8>) -> Seq<
    Seq<u8>,
> {
    let chunks = spec_chunks(spec_serialize(p));
    Seq::new(
        chunks.len(),
        |i: int|
            spec_frame(
                ether_type,
                src_mac,
                FragmentView {
                    tag: spec_tag(p),
                    seq_no: i as u8,
                    total: (chunks.len() - 1) as u8,
                    id,
                    chunk: chunks[i],
                },
            ),
    )
}

/// How one parsed fragment moves the reassembly and dedup state, and
/// what it delivers: the fragment lands in its entry's slot; a completed
/// entry leaves the buffer and is decoded; a decoded packet is delivered
/// exactly when its correlation id is not remembered yet, and is then
/// remembered.
pub open spec fn spec_accept_fragment(
    b0: Seq<ReassemblyEntryView>,
    r0: Seq<Id>,
    f: FragmentView,
    b1: Seq<ReassemblyEntryView>,
    r1: Seq<Id>,
    out: Option<PacketView>,
) -> bool {
    let found = spec_find(b0, f.id);
    let target = match found {
        Some(i) => spec_entry_insert(b0[i], f.seq_no, f.chunk),
        None => spec_entry_insert(spec_entry_new(f), f.seq_no, f.chunk),
    };
    if !spec_entry_complete(target) {
        &&& out is None
        &&& r1 == r0
        &&& b1 == match found {
            Some(i) => b0.update(i, target),
            None => b0.push(target),
        }
    } else {
        &&& b1 == match found {
            Some(i) => b0.remove(i),
            None => b0,
        }
        &&& match spec_deserialize(target.tag, spec_assemble(target.parts)) {
            None => out is None && r1 == r0,
            Some(pv) => if r0.contains(f.id) {
                out is None && r1 == r0
            } else {
                out == Some(pv) && r1 == spec_recent_insert(r0, f.id)
            },
        }
    }
}

/// A completed fragment set whose correlation id was delivered already
/// yields nothing and changes nothing but the buffer.
pub proof fn lemma_duplicate_delivery_dropped(
    b0: Seq<ReassemblyEntryView>,
    r0: Seq<Id>,
    f: FragmentView,
    b1: Seq<ReassemblyEntryView>,
    r1: Seq<Id>,
    out: Option<PacketView>,
)
    requires
        r0.contains(f.id),
        spec_accept_fragment(b0, r0, f, b1, r1, out),
    ensures
        out is None,
        r1 == r0,
{
}

/// A delivered packet's correlation id was new and is remembered from
/// then on.
pub proof fn lemma_delivery_remembered(
    b0: Seq<ReassemblyEntryView>,
    r0: Seq<Id>,
    f: FragmentView,
    b1: Seq<ReassemblyEntryView>,
    r1: Seq<Id>,
    out: Option<PacketView>,
)
    requires
        spec_accept_fragment(b0, r0, f, b1, r1, out),
        out is Some,
    ensures
        !r0.contains(f.id),
        r1.contains(f.id),
{
    lemma_recent_insert_contains(r0, f.id);
}

/// The frame adapter's own state: the bound interface's hardware
/// address, the chosen discriminator, and the reassembly and dedup
/// state. Capture and transmission live outside; this core turns
/// packets into frame bytes and frame bytes back into packets.
pub struct Channel {
    pub src_mac: Vec<u8>,
    pub ether_type: EtherType,
    pub buffer: ReassemblyBuffer,
    pub recent: RecentSet,
}

impl Channel {
    pub open spec fn wf(&self) -> bool {
        &&& self.src_mac@.len() == 6
        &&& self.buffer.wf()
        &&& self.recent.wf()
    }

    /// A fresh adapter core for an interface with the given address.
    pub fn new(src_mac: Vec<u8>, ether_type: EtherType) -> (r: Self)
        requires
            src_mac@.len() == 6,
        ensures
            r.wf(),
            r.src_mac@ == src_mac@,
            r.ether_type == ether_type,
            r.buffer@ == Seq::<ReassemblyEntryView>::empty(),
            r.recent@ == Seq::<Id>::empty(),
    {
        Channel { src_mac, ether_type, buffer: ReassemblyBuffer::new(), recent: RecentSet::new() }
    }

    /// Switches the discriminator used for frames sent from now on.
    pub fn set_ether_type(&mut self, ether_type: EtherType)
        ensures
            final(self).ether_type == ether_type,
            final(self).src_mac == old(self).src_mac,
            final(self).buffer == old(self).buffer,
            final(self).recent == old(self).recent,
            old(self).wf() ==> final(self).wf(),
    {
        self.ether_type = ether_type;
    }

    /// Builds every frame that sending the packet takes, or refuses a
    /// packet whose body would need more fragments than the one-byte
    /// index can number — then nothing is put on the wire.
    pub fn prepare_send(&self, packet: &Packet, correlation_id: Id) -> (r: Result<
        Vec<Vec<u8>>,
        NetError,
    >)
        requires
            self.wf(),
        ensures
            match r {
                Ok(frames) => spec_chunks(spec_serialize(packet@)).len() <= MAX_FRAGMENTS
                    && frames.deep_view() == spec_send_frames(
                    packet@,
                    correlation_id,
                    self.ether_type.spec_bytes(),
                    self.src_mac@,
                ),
                Err(e) => e@ is MessageTooLong && spec_chunks(spec_serialize(packet@)).len()
                    > MAX_FRAGMENTS,
            },
    {
        broadcast use lemma_bytes_deep_view;

        let body = packet.serialize();
        let chunks = chunk_bytes(body.as_slice());
        if chunks.len() > MAX_FRAGMENTS {
            return Err(NetError::MessageTooLong);
        }
        let total = (chunks.len() - 1) as u8;
        let tag = packet.tag();
        let ghost sf = spec_send_frames(
            packet@,
            correlation_id,
            self.ether_type.spec_bytes(),
            self.src_mac@,
        );
        let mut frames: Vec<Vec<u8>> = Vec::new();
        let mut i: usize = 0;
        while i < chunks.len()
            invariant
                i <= chunks@.len(),
                1 <= chunks@.len() <= MAX_FRAGMENTS,
                self.wf(),
                total == (chunks@.len() - 1) as u8,
                tag == spec_tag(packet@),
                chunks.deep_view() == spec_chunks(spec_serialize(packet@)),
                forall|j: int| 0 <= j < chunks@.len() ==> (#[trigger] chunks@[j])@.len()
                    <= PACKET_DATA_SIZE,
                sf == spec_send_frames(
                    packet@,
                    correlation_id,
                    self.ether_type.spec_bytes(),
                    self.src_mac@,
                ),
                frames.deep_view() =~= sf.take(i as int),
            decreases chunks@.len() - i,
        {
            let frame = arp::build_frame(
                self.ether_type,
                self.src_mac.as_slice(),
                tag,
                i as u8,
                total,
                correlation_id,
                chunks[i].as_slice(),
            );
            let ghost fdv = frames.deep_view();
            proof {
                assert(chunks.deep_view()[i as int] == chunks@[i as int]@);
            }
            frames.push(frame);
            i = i + 1;
            proof {
                assert forall|j: int| 0 <= j < frames.deep_view().len() implies frames.deep_view()[j]
                    == fdv.push(sf[i - 1])[j] by {
                    if j == fdv.len() {
                        lemma_bytes_deep_view(frames@[j]);
                    }
                }
                assert(frames.deep_view() =~= fdv.push(sf[i - 1]));
                assert(frames.deep_view() =~= sf.take(i as int));
            }
        }
        proof {
            assert(sf.take(chunks@.len() as int) =~= sf);
        }
        Ok(frames)
    }

    /// Takes one captured frame through the whole receive path: filter,
    /// parse, reassemble, decode, and de-duplicate. Foreign or malformed
    /// frames change nothing; a completed, decoded, first-time packet is
    /// delivered.
    pub fn accept_frame(&mut self, frame: &[u8]) -> (r: Option<Packet>)
        requires
            old(self).wf(),
        ensures
            final(self).wf(),
            final(self).src_mac == old(self).src_mac,
            final(self).ether_type == old(self).ether_type,
            match spec_parse_frame(frame@) {
                None => r is None && final(self).buffer@ == old(self).buffer@
                    && final(self).recent@ == old(self).recent@,
                Some(f) => spec_accept_fragment(
                    old(self).buffer@,
                    old(self).recent@,
                    f,
                    final(self).buffer@,
                    final(self).recent@,
                    match r {
                        Some(p) => Some(p@),
                        None => None,
                    },
                ),
            },
    {
        broadcast use lemma_bytes_deep_view;

        let fragment = match arp::parse_frame(frame) {
            Some(f) => f,
            None => {
                return None;
            },
        };
        proof {
            lemma_find_properties(self.buffer@, fragment.id);
        }
        let ghost b0 = self.buffer@;
        let found = self.buffer.find(fragment.id);
        let frag_id = fragment.id;
        let entry = match found {
            Some(i) => {
                let mut entry = self.buffer.entries.remove(i);
                proof {
                    assert(entry@ == b0[i as int]);
                }
                entry.insert_chunk(fragment.seq_no, fragment.chunk);
                if !entry.is_complete() {
                    self.buffer.entries.insert(i, entry);
                    proof {
                        assert forall|j: int|
                            0 <= j < self.buffer.entries@.len() && j != i implies
                            self.buffer.entries@[j] == old(self).buffer.entries@[j] by {}
                        assert(self.buffer@ =~= b0.update(
                            i as int,
                            spec_entry_insert(b0[i as int], fragment@.seq_no, fragment@.chunk),
                        ));
                        assert(self.buffer.wf());
                    }
                    return None;
                }
                proof {
                    assert forall|j: int| 0 <= j < self.buffer.entries@.len() implies (
                    #[trigger] self.buffer.entries@[j]).wf() by {
                        if j < i {
                            assert(self.buffer.entries@[j] == old(self).buffer.entries@[j]);
                        } else {
                            assert(self.buffer.entries@[j] == old(self).buffer.entries@[j + 1]);
                        }
                    }
                    assert(self.buffer@ =~= b0.remove(i as int));
                    assert(self.buffer.wf());
                }
                entry
            },
            None => {
                let mut entry = ReassemblyEntry::new(&fragment);
                entry.insert_chunk(fragment.seq_no, fragment.chunk);
                if !entry.is_complete() {
                    let ghost target = entry@;
                    self.buffer.entries.push(entry);
                    proof {
                        assert forall|j: int|
                            0 <= j < self.buffer.entries@.len() - 1 implies
                            self.buffer.entries@[j] == old(self).buffer.entries@[j] by {}
                        assert(self.buffer@ =~= b0.push(target));
                        assert(target.id == fragment@.id);
                        let es = self.buffer.entries@;
                        assert forall|p: int, q: int| 0 <= p < q < es.len() implies es[p]@.id
                            != es[q]@.id by {
                            assert(es[p]@ == b0[p]);
                            if q == es.len() - 1 {
                                assert(b0[p].id != fragment@.id);
                            } else {
                                assert(es[q]@ == b0[q]);
                            }
                        }
                        assert(self.buffer.wf());
                    }
                    return None;
                }
                entry
            },
        };
        let body = entry.assemble();
        let packet = match Packet::deserialize(entry.tag, body.as_slice()) {
            Some(p) => p,
            None => {
                return None;
            },
        };
        if self.recent.contains(frag_id) {
            return None;
        }
        self.recent.insert(frag_id);
        Some(packet)
    }
}

} // verus!
