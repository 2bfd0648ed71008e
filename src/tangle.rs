//! The tangle: a bounded cache of messages with their metadata, the approver
//! index, and the milestone state around it.

use vstd::prelude::*;

use crate::ids::MessageId;
use crate::table::{Table, TableKey};

verus! {

/// Largest number of messages the cache holds.
pub const DEFAULT_CACHE_LEN: usize = 100_000;

/// Smallest number of messages the cache is resized to.
pub const MIN_CACHE_LEN: usize = 8192;

/// How many milestones the solid milestone may lag and the node still count as synced.
pub const SYNCED_THRESHOLD: u32 = 2;

/// How many milestones the confirmed milestone may lag and the node still count as confirmed.
pub const CONFIRMED_THRESHOLD: u32 = 2;

/// A milestone index and a message id, as propagated for tip selection.
#[derive(Clone, Copy, Debug, PartialEq, Eq)]
pub struct IndexId {
    pub index: u32,
    pub id: MessageId,
}

/// The flags of a message.
#[derive(Clone, Copy, Debug, PartialEq, Eq, Default, Structural)]
pub struct MessageFlags {
    pub solid: bool,
    pub milestone: bool,
    pub referenced: bool,
    pub conflicting: bool,
}

/// What the node learns about a message after it arrives.
#[derive(Clone, Copy, Debug, PartialEq, Eq)]
pub struct MessageMetadata {
    pub flags: MessageFlags,
    pub milestone_index: Option<u32>,
    pub omrsi: Option<IndexId>,
    pub ymrsi: Option<IndexId>,
    pub arrival_timestamp: u64,
    pub conflict: u8,
}

impl MessageMetadata {
    /// The metadata of a message that just arrived.
    pub fn arrived(arrival_timestamp: u64) -> (r: MessageMetadata)
        ensures
            r == (MessageMetadata {
                flags: MessageFlags { solid: false, milestone: false, referenced: false, conflicting: false },
                milestone_index: None,
                omrsi: None,
                ymrsi: None,
                arrival_timestamp,
                conflict: 0,
            }),
    {
        MessageMetadata {
            flags: MessageFlags { solid: false, milestone: false, referenced: false, conflicting: false },
            milestone_index: None,
            omrsi: None,
            ymrsi: None,
            arrival_timestamp,
            conflict: 0,
        }
    }
}

/// A cached message: its two parents and its metadata.
#[derive(Clone, Copy, Debug, PartialEq, Eq)]
pub struct Vertex {
    pub parent1: MessageId,
    pub parent2: MessageId,
    pub metadata: MessageMetadata,
}

/// An approver edge: `approver` names `parent` as one of its parents.
#[derive(Clone, Copy, Debug, PartialEq, Eq)]
pub struct ApproverEdge {
    pub parent: MessageId,
    pub approver: MessageId,
}

impl TableKey for ApproverEdge {
    fn same(&self, other: &ApproverEdge) -> (r: bool) {
        self.parent == other.parent && self.approver == other.approver
    }
}

/// The tangle as plain values.
pub struct TangleView {
    pub cache: Map<MessageId, Vertex>,
    /// The cached ids, least recently used first.
    pub order: Seq<MessageId>,
    pub capacity: nat,
    pub edges: Set<ApproverEdge>,
}

/// The approvers of `id` that the approver index records.
pub open spec fn approvers_of(v: TangleView, id: MessageId) -> Set<MessageId> {
    Set::new(|a: MessageId| v.edges.contains(ApproverEdge { parent: id, approver: a }))
}

proof fn lemma_submap_get(a: Map<MessageId, Vertex>, b: Map<MessageId, Vertex>, k: MessageId)
    requires
        a.submap_of(b),
        a.contains_key(k),
    ensures
        b.contains_key(k),
        a[k] == b[k],
{
    // Both membership terms must be present for the quantifier of `submap_of` to fire.
    let in_b = b.dom().contains(k);
    assert(a.dom().contains(k));
    assert(in_b);
}

/// The cache of messages, least recently used first, and the approver index.
pub struct Tangle {
    cache: Table<MessageId, Vertex>,
    capacity: usize,
    edges: Table<ApproverEdge, ()>,
}

impl View for Tangle {
    type V = TangleView;

    closed spec fn view(&self) -> TangleView {
        TangleView {
            cache: self.cache@,
            order: self.cache.keys(),
            capacity: self.capacity as nat,
            edges: self.edges@.dom(),
        }
    }
}

impl Tangle {
    pub closed spec fn wf(&self) -> bool {
        &&& self.cache.wf()
        &&& self.edges.wf()
        &&& self.cache@.dom().len() <= self.capacity
        &&& forall|id: MessageId|
            #[trigger] self.cache@.contains_key(id) ==> self.edges@.contains_key(
                ApproverEdge { parent: self.cache@[id].parent1, approver: id },
            ) && self.edges@.contains_key(
                ApproverEdge { parent: self.cache@[id].parent2, approver: id },
            )
    }

    /// An empty tangle whose cache holds at most `capacity` messages.
    pub fn new(capacity: usize) -> (r: Tangle)
        ensures
            r.wf(),
            r@.cache == Map::<MessageId, Vertex>::empty(),
            r@.order == Seq::<MessageId>::empty(),
            r@.capacity == capacity,
            r@.edges == Set::<ApproverEdge>::empty(),
    {
        let r = Tangle { cache: Table::new(), capacity, edges: Table::new() };
        assert(r@.edges =~= Set::empty());
        r
    }

    pub fn capacity(&self) -> (r: usize)
        ensures
            r == self@.capacity,
    {
        self.capacity
    }

    pub fn len(&self) -> (r: usize)
        requires
            self.wf(),
        ensures
            r == self@.cache.dom().len(),
            r <= self@.capacity,
    {
        self.cache.len()
    }

    /// The cache never holds more messages than its capacity.
    pub proof fn lemma_bounded(&self)
        requires
            self.wf(),
        ensures
            self@.cache.dom().finite(),
            self@.cache.dom().len() <= self@.capacity,
    {
        self.cache.lemma_keys();
    }

    /// The recency order holds each cached id once.
    pub proof fn lemma_order(&self)
        requires
            self.wf(),
        ensures
            self@.order.no_duplicates(),
            self@.order.to_set() == self@.cache.dom(),
            self@.order.len() == self@.cache.dom().len(),
    {
        self.cache.lemma_keys();
    }

    /// Evicts least recently used messages until at most `n` remain; returns
    /// them, so that what they hold can be written to storage.
    fn evict_to(&mut self, n: usize) -> (r: Vec<(MessageId, Vertex)>)
        requires
            old(self).cache.wf(),
            old(self).edges.wf(),
        ensures
            final(self).cache.wf(),
            final(self).edges.wf(),
            final(self).edges == old(self).edges,
            final(self).capacity == old(self).capacity,
            final(self)@.cache.dom().len() <= n,
            final(self)@.cache.submap_of(old(self)@.cache),
            forall|id: MessageId|
                #[trigger] old(self)@.cache.contains_key(id) && !final(self)@.cache.contains_key(id)
                    ==> exists|j: int| 0 <= j < r@.len() && #[trigger] r@[j] == (id, old(self)@.cache[id]),
            forall|j: int|
                0 <= j < r@.len() ==> old(self)@.cache.contains_key(#[trigger] r@[j].0)
                    && !final(self)@.cache.contains_key(r@[j].0) && r@[j].1 == old(self)@.cache[r@[j].0],
            r@.len() == (if old(self)@.order.len() > n {
                old(self)@.order.len() - n
            } else {
                0
            }),
            forall|j: int| 0 <= j < r@.len() ==> #[trigger] r@[j].0 == old(self)@.order[j],
            final(self)@.order == old(self)@.order.subrange(r@.len() as int, old(self)@.order.len() as int),
    {
        let mut evicted: Vec<(MessageId, Vertex)> = Vec::new();
        let ghost c0 = self.cache@;
        let ghost ko = self.cache.keys();
        proof {
            self.cache.lemma_keys();
            assert(ko.subrange(0, ko.len() as int) =~= ko);
        }
        while self.cache.len() > n
            invariant
                ko == old(self).cache.keys(),
                ko.no_duplicates(),
                evicted@.len() <= ko.len(),
                self.cache.keys() == ko.subrange(evicted@.len() as int, ko.len() as int),
                forall|j: int| 0 <= j < evicted@.len() ==> #[trigger] evicted@[j].0 == ko[j],
                evicted@.len() > 0 ==> ko.len() - evicted@.len() >= n,
                self.cache.wf(),
                self.edges.wf(),
                self.edges == old(self).edges,
                self.capacity == old(self).capacity,
                c0 == old(self)@.cache,
                self.cache@.submap_of(c0),
                forall|id: MessageId|
                    #[trigger] c0.contains_key(id) && !self.cache@.contains_key(id) ==> exists|j: int|
                        0 <= j < evicted@.len() && #[trigger] evicted@[j] == (id, c0[id]),
                forall|j: int|
                    0 <= j < evicted@.len() ==> c0.contains_key(#[trigger] evicted@[j].0)
                        && !self.cache@.contains_key(evicted@[j].0) && evicted@[j].1 == c0[evicted@[j].0],
            decreases self.cache@.dom().len(),
        {
            proof {
                self.cache.lemma_keys();
            }
            let (id, vertex) = self.cache.entry(0);
            let ghost before = self.cache@;
            let ghost prev = evicted@;
            let ghost kb = self.cache.keys();
            assert(kb[0] == id);
            assert(before.contains_key(id) && before[id] == vertex);
            assert(before.dom().contains(id));
            assert(c0[id] == before[id]) by {
                assert(before.submap_of(c0));
                assert(before.dom().contains(id));
                lemma_submap_get(before, c0, id);
            }
            self.cache.remove(&id);
            proof {
                self.cache.lemma_keys();
                assert(before.dom().remove(id) =~= self.cache@.dom());
                let i = choose|i: int| 0 <= i < kb.len() && kb[i] == id && self.cache.keys() == kb.remove(i);
                assert(kb[i] == ko[prev.len() + i]);
                assert(kb[0] == ko[prev.len() as int]);
                assert(i == 0);
                assert(self.cache.keys() =~= ko.subrange(prev.len() as int + 1, ko.len() as int));
            }
            evicted.push((id, vertex));
            proof {
                assert forall|j: int| 0 <= j < evicted@.len() implies #[trigger] evicted@[j].0 == ko[j] by {
                    if j < prev.len() {
                        assert(evicted@[j] == prev[j]);
                    }
                }
                assert(evicted@[evicted@.len() - 1] == (id, c0[id]));
                assert forall|x: MessageId|
                    #[trigger] c0.contains_key(x) && !self.cache@.contains_key(x) implies exists|j: int|
                        0 <= j < evicted@.len() && #[trigger] evicted@[j] == (x, c0[x]) by {
                    if x == id {
                        assert(evicted@[evicted@.len() - 1] == (x, c0[x]));
                    } else {
                        assert(!before.contains_key(x));
                        let j = choose|j: int| 0 <= j < prev.len() && #[trigger] prev[j] == (x, c0[x]);
                        assert(evicted@[j] == prev[j]);
                    }
                }
                assert forall|j: int| 0 <= j < evicted@.len() implies c0.contains_key(
                    #[trigger] evicted@[j].0,
                ) && !self.cache@.contains_key(evicted@[j].0) && evicted@[j].1 == c0[evicted@[j].0] by {
                    if j < prev.len() {
                        assert(evicted@[j] == prev[j]);
                    }
                }
            }
        }
        proof {
            self.cache.lemma_keys();
        }
        evicted
    }

    /// Sets the capacity of the cache to `n`, evicting what no longer fits.
    pub fn resize(&mut self, n: usize) -> (r: Vec<(MessageId, Vertex)>)
        requires
            old(self).wf(),
        ensures
            final(self).wf(),
            final(self)@.capacity == n,
            final(self)@.edges == old(self)@.edges,
            final(self)@.cache.dom().len() <= n,
            final(self)@.cache.submap_of(old(self)@.cache),
            forall|j: int|
                0 <= j < r@.len() ==> old(self)@.cache.contains_key(#[trigger] r@[j].0)
                    && !final(self)@.cache.contains_key(r@[j].0) && r@[j].1 == old(self)@.cache[r@[j].0],
            forall|id: MessageId|
                #[trigger] old(self)@.cache.contains_key(id) && !final(self)@.cache.contains_key(id)
                    ==> exists|j: int| 0 <= j < r@.len() && #[trigger] r@[j] == (id, old(self)@.cache[id]),
            r@.len() == (if old(self)@.order.len() > n {
                old(self)@.order.len() - n
            } else {
                0
            }),
            forall|j: int| 0 <= j < r@.len() ==> #[trigger] r@[j].0 == old(self)@.order[j],
            final(self)@.order == old(self)@.order.subrange(r@.len() as int, old(self)@.order.len() as int),
    {
        let r = self.evict_to(n);
        self.capacity = n;
        proof {
            assert forall|id: MessageId| #[trigger] self.cache@.contains_key(id) implies self.edges@.contains_key(
                ApproverEdge { parent: self.cache@[id].parent1, approver: id },
            ) && self.edges@.contains_key(
                ApproverEdge { parent: self.cache@[id].parent2, approver: id },
            ) by {
                lemma_submap_get(self.cache@, old(self).cache@, id);
            }
        }
        r
    }

    /// Whether the cache holds `id`.
    pub fn contains(&self, id: &MessageId) -> (r: bool)
        requires
            self.wf(),
        ensures
            r == self@.cache.contains_key(*id),
    {
        self.cache.contains(id)
    }

    /// The cached vertex of `id`.
    pub fn get(&self, id: &MessageId) -> (r: Option<Vertex>)
        requires
            self.wf(),
        ensures
            r == (if self@.cache.contains_key(*id) {
                Some(self@.cache[*id])
            } else {
                None::<Vertex>
            }),
    {
        self.cache.get(id)
    }

    /// The metadata of `id`, if the cache holds it.
    pub fn get_metadata(&self, id: &MessageId) -> (r: Option<MessageMetadata>)
        requires
            self.wf(),
        ensures
            r == (if self@.cache.contains_key(*id) {
                Some(self@.cache[*id].metadata)
            } else {
                None::<MessageMetadata>
            }),
    {
        match self.cache.get(id) {
            Some(v) => Some(v.metadata),
            None => None,
        }
    }

    /// Replaces the metadata of `id`, if the cache holds it.
    pub fn set_metadata(&mut self, id: &MessageId, metadata: MessageMetadata) -> (r: bool)
        requires
            old(self).wf(),
        ensures
            final(self).wf(),
            r == old(self)@.cache.contains_key(*id),
            final(self)@.capacity == old(self)@.capacity,
            final(self)@.edges == old(self)@.edges,
            final(self)@.order == old(self)@.order,
            final(self)@.cache == (if r {
                old(self)@.cache.insert(*id, Vertex { metadata, ..old(self)@.cache[*id] })
            } else {
                old(self)@.cache
            }),
    {
        match self.cache.get(id) {
            Some(v) => {
                proof {
                    self.cache.lemma_keys();
                }
                self.cache.insert(*id, Vertex { metadata, ..v });
                proof {
                    self.cache.lemma_keys();
                    assert(self.cache@.dom() =~= old(self).cache@.dom());
                }
                true
            },
            None => false,
        }
    }

    /// Marks `id` as the most recently used message, so that it is evicted
    /// last: it moves to the end of the recency order.
    pub fn touch(&mut self, id: &MessageId)
        requires
            old(self).wf(),
        ensures
            final(self).wf(),
            final(self)@.cache == old(self)@.cache,
            final(self)@.capacity == old(self)@.capacity,
            final(self)@.edges == old(self)@.edges,
            old(self)@.cache.contains_key(*id) ==> exists|i: int|
                0 <= i < old(self)@.order.len() && old(self)@.order[i] == *id && final(self)@.order
                    == old(self)@.order.remove(i).push(*id),
            !old(self)@.cache.contains_key(*id) ==> final(self)@.order == old(self)@.order,
    {
        match self.cache.get(id) {
            Some(v) => {
                let ghost k0 = self.cache.keys();
                self.cache.remove(id);
                let ghost k1 = self.cache.keys();
                self.cache.insert(*id, v);
                proof {
                    let i = choose|i: int| 0 <= i < k0.len() && k0[i] == *id && k1 == k0.remove(i);
                    assert(self.cache@ =~= old(self).cache@);
                    assert(old(self)@.order == k0);
                    assert(0 <= i < old(self)@.order.len() && old(self)@.order[i] == *id && self@.order
                        == old(self)@.order.remove(i).push(*id));
                }
            },
            None => {},
        }
    }

    /// Records that `approver` names `parent` as a parent.
    pub fn insert_approver(&mut self, parent: MessageId, approver: MessageId)
        requires
            old(self).wf(),
        ensures
            final(self).wf(),
            final(self)@.cache == old(self)@.cache,
            final(self)@.capacity == old(self)@.capacity,
            final(self)@.edges == old(self)@.edges.insert(ApproverEdge { parent, approver }),
            final(self)@.order == old(self)@.order,
    {
        self.edges.insert(ApproverEdge { parent, approver }, ());
        assert(self@.edges =~= old(self)@.edges.insert(ApproverEdge { parent, approver }));
    }

    /// The approvers of `id`, each once.
    pub fn fetch_approvers(&self, id: &MessageId) -> (r: Vec<MessageId>)
        requires
            self.wf(),
        ensures
            r@.to_set() == approvers_of(self@, *id),
            r@.no_duplicates(),
    {
        proof {
            self.edges.lemma_keys();
        }
        let ghost ks = self.edges.keys();
        let n = self.edges.len();
        let mut out: Vec<MessageId> = Vec::new();
        let mut k: usize = 0;
        while k < n
            invariant
                self.wf(),
                n == self.edges.entries().len(),
                ks == self.edges.keys(),
                ks.no_duplicates(),
                ks.to_set() == self@.edges,
                forall|i: int|
                    0 <= i < self.edges.entries().len() ==> #[trigger] self.edges.entries()[i].0
                        == ks[i],
                0 <= k <= n,
                out@.no_duplicates(),
                forall|a: MessageId|
                    out@.contains(a) <==> exists|j: int|
                        0 <= j < k && #[trigger] ks[j] == (ApproverEdge { parent: *id, approver: a }),
            decreases n - k,
        {
            let (edge, _) = self.edges.entry(k);
            let ghost prev = out@;
            assert(edge == ks[k as int]);
            if edge.parent == *id {
                proof {
                    if prev.contains(edge.approver) {
                        let j = choose|j: int|
                            0 <= j < k && #[trigger] ks[j] == (ApproverEdge {
                                parent: *id,
                                approver: edge.approver,
                            });
                        assert(ks[j] == ks[k as int]);
                    }
                }
                out.push(edge.approver);
                proof {
                    assert forall|a: MessageId| out@.contains(a) <==> prev.contains(a) || a
                        == edge.approver by {
                        if out@.contains(a) {
                            let i = choose|i: int| 0 <= i < out@.len() && out@[i] == a;
                            if i < prev.len() {
                                assert(prev[i] == a);
                            }
                        }
                        if prev.contains(a) {
                            let i = choose|i: int| 0 <= i < prev.len() && prev[i] == a;
                            assert(out@[i] == a);
                        }
                        if a == edge.approver {
                            assert(out@[out@.len() - 1] == a);
                        }
                    }
                    assert forall|a: MessageId| out@.contains(a) <==> exists|j: int|
                        0 <= j < k + 1 && #[trigger] ks[j] == (ApproverEdge {
                            parent: *id,
                            approver: a,
                        }) by {
                        let e = ApproverEdge { parent: *id, approver: a };
                        if a == edge.approver {
                            assert(ks[k as int] == e);
                        }
                        if prev.contains(a) {
                            let j = choose|j: int| 0 <= j < k && #[trigger] ks[j] == e;
                            assert(0 <= j < k + 1 && ks[j] == e);
                        }
                        if exists|j: int| 0 <= j < k + 1 && #[trigger] ks[j] == e {
                            let j = choose|j: int| 0 <= j < k + 1 && #[trigger] ks[j] == e;
                            if j < k {
                                assert(prev.contains(a));
                            } else {
                                assert(a == edge.approver);
                            }
                        }
                    }
                }
            } else {
                proof {
                    assert forall|a: MessageId| out@.contains(a) <==> exists|j: int|
                        0 <= j < k + 1 && #[trigger] ks[j] == (ApproverEdge {
                            parent: *id,
                            approver: a,
                        }) by {
                        let e = ApproverEdge { parent: *id, approver: a };
                        if out@.contains(a) {
                            let j = choose|j: int| 0 <= j < k && #[trigger] ks[j] == e;
                            assert(0 <= j < k + 1 && ks[j] == e);
                        }
                        if exists|j: int| 0 <= j < k + 1 && #[trigger] ks[j] == e {
                            let j = choose|j: int| 0 <= j < k + 1 && #[trigger] ks[j] == e;
                            assert(edge.parent != *id);
                            assert(j != k);
                            assert(0 <= j < k && ks[j] == e);
                        }
                    }
                }
            }
            k = k + 1;
        }
        proof {
            assert forall|a: MessageId| out@.to_set().contains(a) <==> approvers_of(self@, *id).contains(a) by {
                let e = ApproverEdge { parent: *id, approver: a };
                if self@.edges.contains(e) {
                    assert(ks.to_set().contains(e));
                    let j = choose|j: int| 0 <= j < ks.len() && ks[j] == e;
                    assert(ks[j] == e);
                }
                if out@.contains(a) {
                    let j = choose|j: int| 0 <= j < n && #[trigger] ks[j] == e;
                    assert(ks.to_set().contains(ks[j]));
                }
            }
            assert(out@.to_set() =~= approvers_of(self@, *id));
        }
        out
    }

    /// Inserts a message with its parents and metadata. A message already in
    /// the cache is left as it is and `None` comes back. Otherwise the least
    /// recently used messages make room, the message is cached (where the
    /// capacity is not zero) and recorded as an approver of both parents; the
    /// evicted messages come back, so that what they hold can be written to
    /// storage.
    pub fn insert(
        &mut self,
        id: MessageId,
        parent1: MessageId,
        parent2: MessageId,
        metadata: MessageMetadata,
    ) -> (r: Option<Vec<(MessageId, Vertex)>>)
        requires
            old(self).wf(),
        ensures
            final(self).wf(),
            final(self)@.capacity == old(self)@.capacity,
            old(self)@.cache.contains_key(id) ==> r is None && final(self)@ == old(self)@,
            !old(self)@.cache.contains_key(id) ==> r is Some,
            !old(self)@.cache.contains_key(id) ==> final(self)@.edges == old(self)@.edges.insert(
                ApproverEdge { parent: parent1, approver: id },
            ).insert(ApproverEdge { parent: parent2, approver: id }),
            !old(self)@.cache.contains_key(id) && old(self)@.capacity > 0 ==> final(self)@.cache.contains_key(id)
                && final(self)@.cache[id] == (Vertex { parent1, parent2, metadata }),
            !old(self)@.cache.contains_key(id) ==> final(self)@.cache.remove(id).submap_of(old(self)@.cache),
            !old(self)@.cache.contains_key(id) && old(self)@.capacity == 0 ==> final(self)@.cache
                == old(self)@.cache && final(self)@.order == old(self)@.order && r->Some_0@.len() == 0,
            !old(self)@.cache.contains_key(id) && old(self)@.capacity > 0 ==> {
                let ev = r->Some_0@;
                &&& ev.len() == (if old(self)@.order.len() >= old(self)@.capacity {
                    old(self)@.order.len() - old(self)@.capacity + 1
                } else {
                    0
                })
                &&& forall|j: int| 0 <= j < ev.len() ==> #[trigger] ev[j].0 == old(self)@.order[j]
                &&& final(self)@.order == old(self)@.order.subrange(
                    ev.len() as int,
                    old(self)@.order.len() as int,
                ).push(id)
            },
            r matches Some(ev) ==> forall|j: int|
                0 <= j < ev@.len() ==> old(self)@.cache.contains_key(#[trigger] ev@[j].0)
                    && !final(self)@.cache.contains_key(ev@[j].0) && ev@[j].1 == old(self)@.cache[ev@[j].0],
            forall|x: MessageId|
                #[trigger] old(self)@.cache.contains_key(x) && !final(self)@.cache.contains_key(x)
                    ==> r is Some && exists|j: int|
                    0 <= j < r->Some_0@.len() && #[trigger] r->Some_0@[j] == (x, old(self)@.cache[x]),
    {
        if self.cache.contains(&id) {
            return None;
        }
        self.insert_approver(parent1, id);
        self.insert_approver(parent2, id);
        let ghost c0 = self.cache@;
        assert(c0 == old(self)@.cache);
        let evicted = if self.capacity > 0 {
            let ghost pre = self@;
            let ev = self.evict_to(self.capacity - 1);
            let ghost post = self@;
            let ghost ce = self.cache@;
            proof {
                self.cache.lemma_keys();
                if ce.contains_key(id) {
                    lemma_submap_get(ce, c0, id);
                }
            }
            self.cache.insert(id, Vertex { parent1, parent2, metadata });
            proof {
                assert(self.cache@.dom() =~= ce.dom().insert(id));
                assert(self.cache@.remove(id) =~= ce);
                assert forall|x: MessageId| #[trigger] self.cache@.contains_key(x) implies self.edges@.contains_key(
                    ApproverEdge { parent: self.cache@[x].parent1, approver: x },
                ) && self.edges@.contains_key(
                    ApproverEdge { parent: self.cache@[x].parent2, approver: x },
                ) by {
                    if x != id {
                        lemma_submap_get(ce, c0, x);
                    }
                }
                assert forall|j: int| 0 <= j < ev@.len() implies old(self)@.cache.contains_key(
                    #[trigger] ev@[j].0,
                ) && !self@.cache.contains_key(ev@[j].0) && ev@[j].1 == old(self)@.cache[ev@[j].0] by {
                    assert(c0.contains_key(ev@[j].0));
                }
                assert forall|x: MessageId|
                    #[trigger] old(self)@.cache.contains_key(x) && !self@.cache.contains_key(x) implies exists|j: int|
                        0 <= j < ev@.len() && #[trigger] ev@[j] == (x, old(self)@.cache[x]) by {
                    assert(pre.cache.contains_key(x) && !post.cache.contains_key(x));
                    let j = choose|j: int| 0 <= j < ev@.len() && #[trigger] ev@[j] == (x, pre.cache[x]);
                    assert(pre.cache[x] == old(self)@.cache[x]);
                    assert(ev@[j] == (x, old(self)@.cache[x]));
                }
            }
            ev
        } else {
            proof {
                assert(c0.remove(id) =~= c0);
            }
            Vec::new()
        };
        let r = Some(evicted);
        proof {
            assert forall|x: MessageId|
                #[trigger] old(self)@.cache.contains_key(x) && !self@.cache.contains_key(x) implies r is Some && exists|j: int|
                    0 <= j < r->Some_0@.len() && #[trigger] r->Some_0@[j] == (x, old(self)@.cache[x]) by {
                let j = choose|j: int| 0 <= j < evicted@.len() && #[trigger] evicted@[j] == (x, old(self)@.cache[x]);
                assert(r->Some_0@[j] == evicted@[j]);
            }
        }
        r
    }
}

/// A cached message is an approver of both of its parents in the approver index.
pub proof fn lemma_cached_is_approver(t: &Tangle, id: MessageId)
    requires
        t.wf(),
        t@.cache.contains_key(id),
    ensures
        approvers_of(t@, t@.cache[id].parent1).contains(id),
        approvers_of(t@, t@.cache[id].parent2).contains(id),
{
}

/// Inserting a message that was not there records it as an approver of both
/// of its parents.
pub proof fn lemma_insert_approvers(
    before: TangleView,
    after: TangleView,
    id: MessageId,
    parent1: MessageId,
    parent2: MessageId,
)
    requires
        after.edges == before.edges.insert(ApproverEdge { parent: parent1, approver: id }).insert(
            ApproverEdge { parent: parent2, approver: id },
        ),
    ensures
        approvers_of(after, parent1).contains(id),
        approvers_of(after, parent2).contains(id),
        approvers_of(before, parent1).subset_of(approvers_of(after, parent1)),
        approvers_of(before, parent2).subset_of(approvers_of(after, parent2)),
{
}

} // verus!
