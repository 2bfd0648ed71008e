//! The tangle together with the milestone state: the milestone registry, the
//! solid entry points, the index cursors and the non-lazy tips.

use vstd::prelude::*;

use crate::ids::MessageId;
use crate::table::{Table, TableKey};
use crate::tangle::{
    IndexId, MessageMetadata, Tangle, TangleView, Vertex, CONFIRMED_THRESHOLD, DEFAULT_CACHE_LEN,
    MIN_CACHE_LEN, SYNCED_THRESHOLD,
};

verus! {

/// How far the youngest root of a tip may lag the solid milestone.
pub const YMRSI_DELTA: u32 = 8;

/// How far the oldest root of a tip may lag the solid milestone.
pub const OMRSI_DELTA: u32 = 13;

impl TableKey for u32 {
    fn same(&self, other: &u32) -> (r: bool) {
        *self == *other
    }
}

/// A milestone as the tangle records it: the message that carries it and its time.
#[derive(Clone, Copy, Debug, PartialEq, Eq)]
pub struct Milestone {
    pub message_id: MessageId,
    pub timestamp: u64,
}

/// `a - b`, or zero where `b` is larger.
pub open spec fn saturating_sub(a: u32, b: u32) -> u32 {
    if a >= b {
        (a - b) as u32
    } else {
        0
    }
}

/// The cache capacity for a sync gap: 1000 plus 500 per milestone of lag,
/// at most the default capacity and at least the minimum.
pub open spec fn cache_len_for(gap: u32) -> int {
    let wanted = 1000 + 500 * gap;
    let capped = if wanted < DEFAULT_CACHE_LEN {
        wanted
    } else {
        DEFAULT_CACHE_LEN as int
    };
    if capped > MIN_CACHE_LEN {
        capped
    } else {
        MIN_CACHE_LEN as int
    }
}

/// Whether a tip whose roots are `omrsi` and `ymrsi` is lazy at solid
/// milestone `smi`: a missing root or one that lags too far.
pub open spec fn is_lazy(omrsi: Option<IndexId>, ymrsi: Option<IndexId>, smi: u32) -> bool {
    match (omrsi, ymrsi) {
        (Some(o), Some(y)) => y.index + YMRSI_DELTA < smi || o.index + OMRSI_DELTA < smi,
        _ => true,
    }
}

/// The milestone state as plain values.
pub struct MsTangleView {
    pub tangle: TangleView,
    pub milestones: Map<u32, Milestone>,
    pub solid_entry_points: Map<MessageId, u32>,
    pub tips: Set<MessageId>,
    pub latest_milestone_index: u32,
    pub solid_milestone_index: u32,
    pub confirmed_milestone_index: u32,
    pub snapshot_index: u32,
    pub pruning_index: u32,
    pub entry_point_index: u32,
}

/// The OMRSI (`oldest`) or YMRSI of `id`: a solid entry point is its own
/// root at its index; otherwise the cached metadata tells.
pub open spec fn root_of(v: MsTangleView, id: MessageId, oldest: bool) -> Option<IndexId> {
    if v.solid_entry_points.contains_key(id) {
        Some(IndexId { index: v.solid_entry_points[id], id })
    } else if v.tangle.cache.contains_key(id) {
        if oldest {
            v.tangle.cache[id].metadata.omrsi
        } else {
            v.tangle.cache[id].metadata.ymrsi
        }
    } else {
        None
    }
}

/// A tangle wrapper that holds the milestone state.
pub struct MsTangle {
    inner: Tangle,
    milestones: Table<u32, Milestone>,
    solid_entry_points: Table<MessageId, u32>,
    tips: Table<MessageId, ()>,
    latest_milestone_index: u32,
    solid_milestone_index: u32,
    confirmed_milestone_index: u32,
    snapshot_index: u32,
    pruning_index: u32,
    entry_point_index: u32,
}

impl View for MsTangle {
    type V = MsTangleView;

    closed spec fn view(&self) -> MsTangleView {
        MsTangleView {
            tangle: self.inner@,
            milestones: self.milestones@,
            solid_entry_points: self.solid_entry_points@,
            tips: self.tips@.dom(),
            latest_milestone_index: self.latest_milestone_index,
            solid_milestone_index: self.solid_milestone_index,
            confirmed_milestone_index: self.confirmed_milestone_index,
            snapshot_index: self.snapshot_index,
            pruning_index: self.pruning_index,
            entry_point_index: self.entry_point_index,
        }
    }
}

impl MsTangle {
    pub closed spec fn wf(&self) -> bool {
        self.inner.wf() && self.milestones.wf() && self.solid_entry_points.wf() && self.tips.wf()
    }

    /// An empty tangle with the default cache capacity and every index at zero.
    pub fn new() -> (r: MsTangle)
        ensures
            r.wf(),
            r@.tangle.cache == Map::<MessageId, Vertex>::empty(),
            r@.tangle.capacity == DEFAULT_CACHE_LEN,
            r@.milestones == Map::<u32, Milestone>::empty(),
            r@.solid_entry_points == Map::<MessageId, u32>::empty(),
            r@.tips == Set::<MessageId>::empty(),
            r@.latest_milestone_index == 0 && r@.solid_milestone_index == 0
                && r@.confirmed_milestone_index == 0 && r@.snapshot_index == 0
                && r@.pruning_index == 0 && r@.entry_point_index == 0,
    {
        let r = MsTangle {
            inner: Tangle::new(DEFAULT_CACHE_LEN),
            milestones: Table::new(),
            solid_entry_points: Table::new(),
            tips: Table::new(),
            latest_milestone_index: 0,
            solid_milestone_index: 0,
            confirmed_milestone_index: 0,
            snapshot_index: 0,
            pruning_index: 0,
            entry_point_index: 0,
        };
        assert(r@.tips =~= Set::empty());
        r
    }

    /// The tangle underneath.
    pub fn tangle(&self) -> (r: &Tangle)
        ensures
            r@ == self@.tangle,
            self.wf() ==> r.wf(),
    {
        &self.inner
    }

    /// Inserts a message into the tangle (see `Tangle::insert`).
    pub fn insert(
        &mut self,
        message_id: MessageId,
        parent1: MessageId,
        parent2: MessageId,
        metadata: MessageMetadata,
    ) -> (r: Option<Vec<(MessageId, Vertex)>>)
        requires
            old(self).wf(),
        ensures
            final(self).wf(),
            final(self)@ == (MsTangleView { tangle: final(self)@.tangle, ..old(self)@ }),
            final(self)@.tangle.capacity == old(self)@.tangle.capacity,
            old(self)@.tangle.cache.contains_key(message_id) ==> r is None && final(self)@.tangle == old(self)@.tangle,
            !old(self)@.tangle.cache.contains_key(message_id) ==> r is Some,
            !old(self)@.tangle.cache.contains_key(message_id) ==> final(self)@.tangle.edges == old(self)@.tangle.edges.insert(
                crate::tangle::ApproverEdge { parent: parent1, approver: message_id },
            ).insert(crate::tangle::ApproverEdge { parent: parent2, approver: message_id }),
            !old(self)@.tangle.cache.contains_key(message_id) && old(self)@.tangle.capacity > 0 ==> final(self)@.tangle.cache.contains_key(message_id)
                && final(self)@.tangle.cache[message_id] == (Vertex { parent1, parent2, metadata }),
            !old(self)@.tangle.cache.contains_key(message_id) ==> final(self)@.tangle.cache.remove(message_id).submap_of(old(self)@.tangle.cache),
            !old(self)@.tangle.cache.contains_key(message_id) && old(self)@.tangle.capacity == 0 ==> final(self)@.tangle.cache
                == old(self)@.tangle.cache && final(self)@.tangle.order == old(self)@.tangle.order && r->Some_0@.len() == 0,
            !old(self)@.tangle.cache.contains_key(message_id) && old(self)@.tangle.capacity > 0 ==> {
                let ev = r->Some_0@;
                &&& ev.len() == (if old(self)@.tangle.order.len() >= old(self)@.tangle.capacity {
                    old(self)@.tangle.order.len() - old(self)@.tangle.capacity + 1
                } else {
                    0
                })
                &&& forall|j: int| 0 <= j < ev.len() ==> #[trigger] ev[j].0 == old(self)@.tangle.order[j]
                &&& final(self)@.tangle.order == old(self)@.tangle.order.subrange(
                    ev.len() as int,
                    old(self)@.tangle.order.len() as int,
                ).push(message_id)
            },
            r matches Some(ev) ==> forall|j: int|
                0 <= j < ev@.len() ==> old(self)@.tangle.cache.contains_key(#[trigger] ev@[j].0)
                    && !final(self)@.tangle.cache.contains_key(ev@[j].0) && ev@[j].1 == old(self)@.tangle.cache[ev@[j].0],
            forall|x: MessageId|
                #[trigger] old(self)@.tangle.cache.contains_key(x) && !final(self)@.tangle.cache.contains_key(x)
                    ==> r is Some && exists|j: int|
                    0 <= j < r->Some_0@.len() && #[trigger] r->Some_0@[j] == (x, old(self)@.tangle.cache[x]),
    {
        self.inner.insert(message_id, parent1, parent2, metadata)
    }

    /// Records milestone `idx`: its message is marked as a milestone with
    /// index `idx` and becomes its own oldest and youngest root.
    pub fn add_milestone(&mut self, idx: u32, milestone: Milestone)
        requires
            old(self).wf(),
        ensures
            final(self).wf(),
            final(self)@.milestones == old(self)@.milestones.insert(idx, milestone),
            final(self)@.solid_entry_points == old(self)@.solid_entry_points,
            final(self)@.tips == old(self)@.tips,
            final(self)@.tangle.edges == old(self)@.tangle.edges,
            final(self)@.tangle.capacity == old(self)@.tangle.capacity,
            final(self)@.tangle.cache == (if old(self)@.tangle.cache.contains_key(milestone.message_id) {
                let v = old(self)@.tangle.cache[milestone.message_id];
                let root = Some(IndexId { index: idx, id: milestone.message_id });
                old(self)@.tangle.cache.insert(
                    milestone.message_id,
                    Vertex {
                        metadata: MessageMetadata {
                            flags: crate::tangle::MessageFlags { milestone: true, ..v.metadata.flags },
                            milestone_index: Some(idx),
                            omrsi: root,
                            ymrsi: root,
                            ..v.metadata
                        },
                        ..v
                    },
                )
            } else {
                old(self)@.tangle.cache
            }),
    {
        let id = milestone.message_id;
        match self.inner.get_metadata(&id) {
            Some(m) => {
                let mut flags = m.flags;
                flags.milestone = true;
                let root = Some(IndexId { index: idx, id });
                let updated = MessageMetadata {
                    flags,
                    milestone_index: Some(idx),
                    omrsi: root,
                    ymrsi: root,
                    ..m
                };
                self.inner.set_metadata(&id, updated);
            },
            None => {},
        }
        self.milestones.insert(idx, milestone);
    }

    pub fn remove_milestone(&mut self, index: u32)
        requires
            old(self).wf(),
        ensures
            final(self).wf(),
            final(self)@ == (MsTangleView {
                milestones: old(self)@.milestones.remove(index),
                ..old(self)@
            }),
    {
        self.milestones.remove(&index);
    }

    /// Takes milestone `index` as storage returned it (`stored`) into the
    /// registry, unless the registry holds it already; returns the id of the
    /// message that carries the registered milestone.
    pub fn pull_milestone(&mut self, index: u32, stored: Option<Milestone>) -> (r: Option<MessageId>)
        requires
            old(self).wf(),
        ensures
            final(self).wf(),
            match stored {
                None => r is None && final(self)@ == old(self)@,
                Some(m) => if old(self)@.milestones.contains_key(index) {
                    r == Some(old(self)@.milestones[index].message_id) && final(self)@ == old(self)@
                } else {
                    r == Some(m.message_id) && final(self)@ == (MsTangleView {
                        milestones: old(self)@.milestones.insert(index, m),
                        ..old(self)@
                    })
                },
            },
    {
        match stored {
            None => None,
            Some(m) => match self.milestones.get(&index) {
                Some(existing) => Some(existing.message_id),
                None => {
                    self.milestones.insert(index, m);
                    Some(m.message_id)
                },
            },
        }
    }

    pub fn get_milestone(&self, index: u32) -> (r: Option<Milestone>)
        requires
            self.wf(),
        ensures
            r == (if self@.milestones.contains_key(index) {
                Some(self@.milestones[index])
            } else {
                None::<Milestone>
            }),
    {
        self.milestones.get(&index)
    }

    pub fn get_milestone_message_id(&self, index: u32) -> (r: Option<MessageId>)
        requires
            self.wf(),
        ensures
            r == (if self@.milestones.contains_key(index) {
                Some(self@.milestones[index].message_id)
            } else {
                None::<MessageId>
            }),
    {
        match self.milestones.get(&index) {
            Some(m) => Some(m.message_id),
            None => None,
        }
    }

    /// The cached vertex of the message that carries milestone `index`.
    pub fn get_milestone_message(&self, index: u32) -> (r: Option<Vertex>)
        requires
            self.wf(),
        ensures
            r == (if self@.milestones.contains_key(index) && self@.tangle.cache.contains_key(
                self@.milestones[index].message_id,
            ) {
                Some(self@.tangle.cache[self@.milestones[index].message_id])
            } else {
                None::<Vertex>
            }),
    {
        match self.milestones.get(&index) {
            Some(m) => self.inner.get(&m.message_id),
            None => None,
        }
    }

    pub fn contains_milestone(&self, index: u32) -> (r: bool)
        requires
            self.wf(),
        ensures
            r == self@.milestones.contains_key(index),
    {
        self.milestones.contains(&index)
    }

    pub fn get_latest_milestone_index(&self) -> (r: u32)
        ensures
            r == self@.latest_milestone_index,
    {
        self.latest_milestone_index
    }

    pub fn update_latest_milestone_index(&mut self, new_index: u32)
        ensures
            final(self)@ == (MsTangleView { latest_milestone_index: new_index, ..old(self)@ }),
            final(self).wf() == old(self).wf(),
    {
        self.latest_milestone_index = new_index;
    }

    pub fn get_solid_milestone_index(&self) -> (r: u32)
        ensures
            r == self@.solid_milestone_index,
    {
        self.solid_milestone_index
    }

    /// Sets the solid milestone index, then resizes the cache to fit the new
    /// sync gap; the evicted messages come back.
    pub fn update_solid_milestone_index(&mut self, new_index: u32) -> (r: Vec<(MessageId, Vertex)>)
        requires
            old(self).wf(),
        ensures
            final(self).wf(),
            final(self)@.solid_milestone_index == new_index,
            final(self)@.tangle.capacity == cache_len_for(
                saturating_sub(old(self)@.latest_milestone_index, new_index),
            ),
            final(self)@.tangle.cache.dom().len() <= final(self)@.tangle.capacity,
            final(self)@.tangle.cache.submap_of(old(self)@.tangle.cache),
            final(self)@.tangle.edges == old(self)@.tangle.edges,
            forall|j: int|
                0 <= j < r@.len() ==> old(self)@.tangle.cache.contains_key(#[trigger] r@[j].0)
                    && !final(self)@.tangle.cache.contains_key(r@[j].0) && r@[j].1
                    == old(self)@.tangle.cache[r@[j].0],
            forall|x: MessageId|
                #[trigger] old(self)@.tangle.cache.contains_key(x) && !final(self)@.tangle.cache.contains_key(x)
                    ==> exists|j: int| 0 <= j < r@.len() && #[trigger] r@[j] == (x, old(self)@.tangle.cache[x]),
            forall|j: int| 0 <= j < r@.len() ==> #[trigger] r@[j].0 == old(self)@.tangle.order[j],
            final(self)@.tangle.order == old(self)@.tangle.order.subrange(
                r@.len() as int,
                old(self)@.tangle.order.len() as int,
            ),
            final(self)@.milestones == old(self)@.milestones,
            final(self)@.solid_entry_points == old(self)@.solid_entry_points,
            final(self)@.tips == old(self)@.tips,
            final(self)@.latest_milestone_index == old(self)@.latest_milestone_index,
    {
        self.solid_milestone_index = new_index;
        let gap = self.get_sync_threshold();
        let wanted: u64 = 1000 + 500 * (gap as u64);
        let capped: usize = if wanted < DEFAULT_CACHE_LEN as u64 {
            wanted as usize
        } else {
            DEFAULT_CACHE_LEN
        };
        let new_len: usize = if capped > MIN_CACHE_LEN {
            capped
        } else {
            MIN_CACHE_LEN
        };
        self.inner.resize(new_len)
    }

    pub fn get_confirmed_milestone_index(&self) -> (r: u32)
        ensures
            r == self@.confirmed_milestone_index,
    {
        self.confirmed_milestone_index
    }

    pub fn update_confirmed_milestone_index(&mut self, new_index: u32)
        ensures
            final(self)@ == (MsTangleView { confirmed_milestone_index: new_index, ..old(self)@ }),
            final(self).wf() == old(self).wf(),
    {
        self.confirmed_milestone_index = new_index;
    }

    pub fn get_snapshot_index(&self) -> (r: u32)
        ensures
            r == self@.snapshot_index,
    {
        self.snapshot_index
    }

    pub fn update_snapshot_index(&mut self, new_index: u32)
        ensures
            final(self)@ == (MsTangleView { snapshot_index: new_index, ..old(self)@ }),
            final(self).wf() == old(self).wf(),
    {
        self.snapshot_index = new_index;
    }

    pub fn get_pruning_index(&self) -> (r: u32)
        ensures
            r == self@.pruning_index,
    {
        self.pruning_index
    }

    pub fn update_pruning_index(&mut self, new_index: u32)
        ensures
            final(self)@ == (MsTangleView { pruning_index: new_index, ..old(self)@ }),
            final(self).wf() == old(self).wf(),
    {
        self.pruning_index = new_index;
    }

    pub fn get_entry_point_index(&self) -> (r: u32)
        ensures
            r == self@.entry_point_index,
    {
        self.entry_point_index
    }

    pub fn update_entry_point_index(&mut self, new_index: u32)
        ensures
            final(self)@ == (MsTangleView { entry_point_index: new_index, ..old(self)@ }),
            final(self).wf() == old(self).wf(),
    {
        self.entry_point_index = new_index;
    }

    /// How many milestones the solid milestone lags the latest one.
    pub fn get_sync_threshold(&self) -> (r: u32)
        ensures
            r == saturating_sub(self@.latest_milestone_index, self@.solid_milestone_index),
    {
        self.latest_milestone_index.saturating_sub(self.solid_milestone_index)
    }

    /// Whether the solid milestone lags the latest one by at most `threshold`.
    pub fn is_synced_threshold(&self, threshold: u32) -> (r: bool)
        ensures
            r == (self@.solid_milestone_index >= saturating_sub(
                self@.latest_milestone_index,
                threshold,
            )),
    {
        self.solid_milestone_index >= self.latest_milestone_index.saturating_sub(threshold)
    }

    pub fn is_synced(&self) -> (r: bool)
        ensures
            r == (self@.solid_milestone_index >= saturating_sub(
                self@.latest_milestone_index,
                SYNCED_THRESHOLD,
            )),
    {
        self.is_synced_threshold(SYNCED_THRESHOLD)
    }

    /// Whether the confirmed milestone lags the latest one by at most `threshold`.
    pub fn is_confirmed_threshold(&self, threshold: u32) -> (r: bool)
        ensures
            r == (self@.confirmed_milestone_index >= saturating_sub(
                self@.latest_milestone_index,
                threshold,
            )),
    {
        self.confirmed_milestone_index >= self.latest_milestone_index.saturating_sub(threshold)
    }

    pub fn is_confirmed(&self) -> (r: bool)
        ensures
            r == (self@.confirmed_milestone_index >= saturating_sub(
                self@.latest_milestone_index,
                CONFIRMED_THRESHOLD,
            )),
    {
        self.is_confirmed_threshold(CONFIRMED_THRESHOLD)
    }

    pub fn get_solid_entry_point_index(&self, sep: &MessageId) -> (r: Option<u32>)
        requires
            self.wf(),
        ensures
            r == (if self@.solid_entry_points.contains_key(*sep) {
                Some(self@.solid_entry_points[*sep])
            } else {
                None::<u32>
            }),
    {
        self.solid_entry_points.get(sep)
    }

    pub fn add_solid_entry_point(&mut self, sep: MessageId, index: u32)
        requires
            old(self).wf(),
        ensures
            final(self).wf(),
            final(self)@ == (MsTangleView {
                solid_entry_points: old(self)@.solid_entry_points.insert(sep, index),
                ..old(self)@
            }),
    {
        self.solid_entry_points.insert(sep, index);
    }

    /// A copy of all solid entry points with their indices.
    pub fn get_solid_entry_points(&self) -> (r: Vec<(MessageId, u32)>)
        requires
            self.wf(),
        ensures
            r@.len() == self@.solid_entry_points.dom().len(),
            forall|j: int|
                0 <= j < r@.len() ==> self@.solid_entry_points.contains_key(#[trigger] r@[j].0)
                    && self@.solid_entry_points[r@[j].0] == r@[j].1,
            forall|m: MessageId|
                #[trigger] self@.solid_entry_points.contains_key(m) ==> exists|j: int|
                    0 <= j < r@.len() && #[trigger] r@[j].0 == m,
    {
        proof {
            self.solid_entry_points.lemma_keys();
        }
        let n = self.solid_entry_points.len();
        let mut out: Vec<(MessageId, u32)> = Vec::new();
        let mut k: usize = 0;
        while k < n
            invariant
                self.wf(),
                n == self.solid_entry_points.entries().len(),
                0 <= k <= n,
                out@ == self.solid_entry_points.entries().take(k as int),
            decreases n - k,
        {
            out.push(self.solid_entry_points.entry(k));
            assert(out@ =~= self.solid_entry_points.entries().take(k + 1));
            k = k + 1;
        }
        proof {
            assert(out@ =~= self.solid_entry_points.entries());
            assert forall|m: MessageId| #[trigger] self@.solid_entry_points.contains_key(m) implies exists|j: int|
                0 <= j < out@.len() && #[trigger] out@[j].0 == m by {
                assert(self.solid_entry_points.keys().to_set().contains(m));
                let j = choose|j: int| 0 <= j < self.solid_entry_points.keys().len() && self.solid_entry_points.keys()[j] == m;
                assert(out@[j].0 == m);
            }
        }
        out
    }

    pub fn remove_solid_entry_point(&mut self, sep: &MessageId)
        requires
            old(self).wf(),
        ensures
            final(self).wf(),
            final(self)@ == (MsTangleView {
                solid_entry_points: old(self)@.solid_entry_points.remove(*sep),
                ..old(self)@
            }),
    {
        self.solid_entry_points.remove(sep);
    }

    pub fn clear_solid_entry_points(&mut self)
        requires
            old(self).wf(),
        ensures
            final(self).wf(),
            final(self)@ == (MsTangleView {
                solid_entry_points: Map::empty(),
                ..old(self)@
            }),
    {
        self.solid_entry_points.clear();
    }

    /// Replaces all solid entry points by `new_seps` (a later pair wins over
    /// an earlier one with the same message).
    pub fn replace_solid_entry_points(&mut self, new_seps: &Vec<(MessageId, u32)>)
        requires
            old(self).wf(),
        ensures
            final(self).wf(),
            final(self)@.solid_entry_points.dom() == new_seps@.map_values(|p: (MessageId, u32)| p.0).to_set(),
            forall|m: MessageId| #[trigger] final(self)@.solid_entry_points.contains_key(m) ==> exists|j: int|
                0 <= j < new_seps@.len() && new_seps@[j] == (m, final(self)@.solid_entry_points[m])
                    && forall|k: int| j < k < new_seps@.len() ==> new_seps@[k].0 != m,
            final(self)@ == (MsTangleView {
                solid_entry_points: final(self)@.solid_entry_points,
                ..old(self)@
            }),
    {
        self.solid_entry_points.clear();
        let ghost ks = new_seps@.map_values(|p: (MessageId, u32)| p.0);
        let mut i: usize = 0;
        while i < new_seps.len()
            invariant
                self.wf(),
                0 <= i <= new_seps@.len(),
                ks == new_seps@.map_values(|p: (MessageId, u32)| p.0),
                self@.solid_entry_points.dom() == ks.take(i as int).to_set(),
                forall|m: MessageId| #[trigger] self@.solid_entry_points.contains_key(m) ==> exists|j: int|
                    0 <= j < i && new_seps@[j] == (m, self@.solid_entry_points[m])
                        && forall|k: int| j < k < i ==> new_seps@[k].0 != m,
                self@ == (MsTangleView {
                    solid_entry_points: self@.solid_entry_points,
                    ..old(self)@
                }),
            decreases new_seps@.len() - i,
        {
            let (m, idx) = new_seps[i];
            self.solid_entry_points.insert(m, idx);
            proof {
                let a = ks.take(i as int);
                let b = ks.take(i + 1);
                assert(b =~= a.push(m));
                assert forall|x: MessageId| b.contains(x) <==> a.contains(x) || x == m by {
                    if b.contains(x) {
                        let j = choose|j: int| 0 <= j < b.len() && b[j] == x;
                        if j < a.len() {
                            assert(a[j] == x);
                        }
                    }
                    if a.contains(x) {
                        let j = choose|j: int| 0 <= j < a.len() && a[j] == x;
                        assert(b[j] == x);
                    }
                    if x == m {
                        assert(b[i as int] == x);
                    }
                }
                assert(self@.solid_entry_points.dom() =~= b.to_set());
                assert forall|x: MessageId| #[trigger] self@.solid_entry_points.contains_key(x) implies exists|j: int|
                    0 <= j < i + 1 && new_seps@[j] == (x, self@.solid_entry_points[x])
                        && forall|k: int| j < k < i + 1 ==> new_seps@[k].0 != x by {
                    if x == m {
                        assert(new_seps@[i as int] == (x, self@.solid_entry_points[x]));
                    }
                }
            }
            i = i + 1;
        }
        proof {
            assert(ks.take(i as int) =~= ks);
        }
    }

    pub fn is_solid_entry_point(&self, id: &MessageId) -> (r: bool)
        requires
            self.wf(),
        ensures
            r == self@.solid_entry_points.contains_key(*id),
    {
        self.solid_entry_points.contains(id)
    }

    /// A message is solid when it is a solid entry point or the cache marks it solid.
    pub fn is_solid_message(&self, id: &MessageId) -> (r: bool)
        requires
            self.wf(),
        ensures
            r == (self@.solid_entry_points.contains_key(*id) || (self@.tangle.cache.contains_key(*id)
                && self@.tangle.cache[*id].metadata.flags.solid)),
    {
        if self.solid_entry_points.contains(id) {
            true
        } else {
            match self.inner.get_metadata(id) {
                Some(m) => m.flags.solid,
                None => false,
            }
        }
    }

    /// The oldest milestone root snapshot index of `id`.
    pub fn omrsi(&self, id: &MessageId) -> (r: Option<IndexId>)
        requires
            self.wf(),
        ensures
            r == root_of(self@, *id, true),
    {
        match self.solid_entry_points.get(id) {
            Some(index) => Some(IndexId { index, id: *id }),
            None => match self.inner.get_metadata(id) {
                Some(m) => m.omrsi,
                None => None,
            },
        }
    }

    /// The youngest milestone root snapshot index of `id`.
    pub fn ymrsi(&self, id: &MessageId) -> (r: Option<IndexId>)
        requires
            self.wf(),
        ensures
            r == root_of(self@, *id, false),
    {
        match self.solid_entry_points.get(id) {
            Some(index) => Some(IndexId { index, id: *id }),
            None => match self.inner.get_metadata(id) {
                Some(m) => m.ymrsi,
                None => None,
            },
        }
    }

    /// Registers `message_id` as a tip; its parents are approved now and stop being tips.
    pub fn insert_tip(&mut self, message_id: MessageId, parents: &Vec<MessageId>)
        requires
            old(self).wf(),
        ensures
            final(self).wf(),
            final(self)@.tips == old(self)@.tips.difference(parents@.to_set()).insert(message_id),
            final(self)@ == (MsTangleView { tips: final(self)@.tips, ..old(self)@ }),
    {
        let mut i: usize = 0;
        while i < parents.len()
            invariant
                self.wf(),
                0 <= i <= parents@.len(),
                self@.tips == old(self)@.tips.difference(parents@.take(i as int).to_set()),
                self@ == (MsTangleView { tips: self@.tips, ..old(self)@ }),
            decreases parents@.len() - i,
        {
            self.tips.remove(&parents[i]);
            proof {
                let a = parents@.take(i as int);
                let b = parents@.take(i + 1);
                assert(b =~= a.push(parents@[i as int]));
                assert forall|x: MessageId| b.contains(x) <==> a.contains(x) || x == parents@[i as int] by {
                    if b.contains(x) {
                        let j = choose|j: int| 0 <= j < b.len() && b[j] == x;
                        if j < a.len() {
                            assert(a[j] == x);
                        }
                    }
                    if a.contains(x) {
                        let j = choose|j: int| 0 <= j < a.len() && a[j] == x;
                        assert(b[j] == x);
                    }
                    if x == parents@[i as int] {
                        assert(b[i as int] == x);
                    }
                }
                assert(self@.tips =~= old(self)@.tips.difference(b.to_set()));
            }
            i = i + 1;
        }
        proof {
            assert(parents@.take(i as int) =~= parents@);
        }
        self.tips.insert(message_id, ());
        assert(self@.tips =~= old(self)@.tips.difference(parents@.to_set()).insert(message_id));
    }

    /// Drops the tips that are lazy at the current solid milestone.
    pub fn update_tip_scores(&mut self)
        requires
            old(self).wf(),
        ensures
            final(self).wf(),
            final(self)@.tips == old(self)@.tips.filter(
                |t: MessageId|
                    !is_lazy(
                        root_of(old(self)@, t, true),
                        root_of(old(self)@, t, false),
                        old(self)@.solid_milestone_index,
                    ),
            ),
            final(self)@ == (MsTangleView { tips: final(self)@.tips, ..old(self)@ }),
    {
        proof {
            self.tips.lemma_keys();
        }
        let ghost v0 = self@;
        let smi = self.solid_milestone_index;
        let n = self.tips.len();
        let mut keep: Table<MessageId, ()> = Table::new();
        let mut k: usize = 0;
        while k < n
            invariant
                self.wf(),
                self@ == v0,
                smi == v0.solid_milestone_index,
                keep.wf(),
                n == self.tips.entries().len(),
                self.tips.keys().to_set() == v0.tips,
                forall|i: int|
                    0 <= i < self.tips.entries().len() ==> #[trigger] self.tips.entries()[i].0
                        == self.tips.keys()[i],
                0 <= k <= n,
                keep@.dom() == self.tips.keys().take(k as int).to_set().filter(
                    |t: MessageId| !is_lazy(root_of(v0, t, true), root_of(v0, t, false), smi),
                ),
            decreases n - k,
        {
            let (t, _) = self.tips.entry(k);
            let o = self.omrsi(&t);
            let y = self.ymrsi(&t);
            let lazy = match (o, y) {
                (Some(oo), Some(yy)) => (yy.index as u64) + (YMRSI_DELTA as u64) < smi as u64
                    || (oo.index as u64) + (OMRSI_DELTA as u64) < smi as u64,
                _ => true,
            };
            if !lazy {
                keep.insert(t, ());
            }
            proof {
                let ks = self.tips.keys();
                let a = ks.take(k as int);
                let b = ks.take(k + 1);
                assert(b =~= a.push(t));
                assert forall|x: MessageId| b.contains(x) <==> a.contains(x) || x == t by {
                    if b.contains(x) {
                        let j = choose|j: int| 0 <= j < b.len() && b[j] == x;
                        if j < a.len() {
                            assert(a[j] == x);
                        }
                    }
                    if a.contains(x) {
                        let j = choose|j: int| 0 <= j < a.len() && a[j] == x;
                        assert(b[j] == x);
                    }
                    if x == t {
                        assert(b[k as int] == x);
                    }
                }
                assert(keep@.dom() =~= b.to_set().filter(
                    |x: MessageId| !is_lazy(root_of(v0, x, true), root_of(v0, x, false), smi),
                ));
            }
            k = k + 1;
        }
        proof {
            assert(self.tips.keys().take(n as int) =~= self.tips.keys());
        }
        self.tips = keep;
        proof {
            assert(self@.tips =~= v0.tips.filter(
                |t: MessageId| !is_lazy(root_of(v0, t, true), root_of(v0, t, false), smi),
            ));
        }
    }

    /// Up to two distinct tips for a new message to approve; `None` when there is none.
    pub fn get_messages_to_approve(&self) -> (r: Option<Vec<MessageId>>)
        requires
            self.wf(),
        ensures
            self@.tips.len() == 0 ==> r is None,
            self@.tips.len() > 0 ==> r is Some,
            r matches Some(v) ==> 1 <= v@.len() <= 2 && v@.len() == (if self@.tips.len() >= 2 {
                2int
            } else {
                1int
            }) && v@.no_duplicates() && forall|j: int| 0 <= j < v@.len() ==> self@.tips.contains(
                #[trigger] v@[j],
            ),
    {
        proof {
            self.tips.lemma_keys();
        }
        let n = self.tips.len();
        if n == 0 {
            return None;
        }
        let mut out: Vec<MessageId> = Vec::new();
        let (a, _) = self.tips.entry(0);
        out.push(a);
        if n >= 2 {
            let (b, _) = self.tips.entry(1);
            assert(self.tips.keys()[0] != self.tips.keys()[1]);
            out.push(b);
        }
        Some(out)
    }

    /// The number of tips.
    pub fn non_lazy_tips_num(&self) -> (r: usize)
        requires
            self.wf(),
        ensures
            r == self@.tips.len(),
    {
        self.tips.len()
    }
}

/// After resizing to capacity `n`, the cache holds at most `n` messages.
pub proof fn lemma_cache_bound(t: &MsTangle)
    requires
        t.wf(),
    ensures
        t@.tangle.cache.dom().len() <= t@.tangle.capacity,
        MIN_CACHE_LEN <= cache_len_for(0) <= DEFAULT_CACHE_LEN,
        forall|g: u32| MIN_CACHE_LEN <= #[trigger] cache_len_for(g) <= DEFAULT_CACHE_LEN,
{
    t.inner.lemma_bounded();
}

} // verus!
