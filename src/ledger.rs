//! The UTXO ledger: outputs, spent records, the unspent set and the address
//! index, moved forward and back one milestone diff at a time.

use vstd::prelude::*;

use crate::codec::array32_eq;
use crate::ids::{MessageId, OutputId, TransactionId};
use crate::table::{Table, TableKey};

verus! {

/// Total number of tokens; the unspent outputs of a valid ledger hold exactly this much.
pub const IOTA_SUPPLY: u64 = 2_779_530_283_277_761;

/// The 32-byte hash of an Ed25519 public key.
#[derive(Clone, Copy, Debug, Eq)]
pub struct Ed25519Address {
    pub bytes: [u8; 32],
}

impl PartialEq for Ed25519Address {
    fn eq(&self, other: &Ed25519Address) -> (r: bool)
        ensures
            r == (*self == *other),
    {
        array32_eq(&self.bytes, &other.bytes)
    }
}

impl vstd::std_specs::cmp::PartialEqSpecImpl for Ed25519Address {
    open spec fn obeys_eq_spec() -> bool {
        true
    }

    open spec fn eq_spec(&self, other: &Ed25519Address) -> bool {
        *self == *other
    }
}

/// The address an output is sent to.
#[derive(Clone, Copy, Debug, PartialEq, Eq)]
pub enum Address {
    Ed25519(Ed25519Address),
}

/// An output as the ledger stores it: the message that created it, its
/// amount and its address.
#[derive(Clone, Copy, Debug, PartialEq, Eq)]
pub struct Output {
    pub message_id: MessageId,
    pub amount: u64,
    pub address: Address,
}

/// The record that an output was spent: by which transaction, at which milestone.
#[derive(Clone, Copy, Debug, PartialEq, Eq)]
pub struct Spent {
    pub transaction_id: TransactionId,
    pub milestone_index: u32,
}

impl TableKey for OutputId {
    fn same(&self, other: &OutputId) -> (r: bool) {
        *self == *other
    }
}

/// An entry of the address index: an address and an output sent to it.
#[derive(Clone, Copy, Debug, PartialEq, Eq)]
pub struct AddressEntry {
    pub address: Ed25519Address,
    pub output_id: OutputId,
}

impl TableKey for AddressEntry {
    fn same(&self, other: &AddressEntry) -> (r: bool) {
        self.address == other.address && self.output_id == other.output_id
    }
}

pub open spec fn address_of(o: Output) -> Ed25519Address {
    match o.address {
        Address::Ed25519(a) => a,
    }
}

/// Why the ledger refused a diff.
#[derive(Clone, Copy, Debug, PartialEq, Eq)]
pub enum LedgerError {
    /// The diff's milestone index is neither the next one nor the current one.
    UnexpectedDiffIndex(u32),
}

/// The ledger as plain values.
pub struct LedgerView {
    pub index: u32,
    pub outputs: Map<OutputId, Output>,
    pub spent: Map<OutputId, Spent>,
    pub unspent: Set<OutputId>,
    pub addresses: Set<AddressEntry>,
}

/// The address-index entries of the outputs in `created`.
pub open spec fn created_pairs(created: Map<OutputId, Output>) -> Set<AddressEntry> {
    Set::new(
        |p: AddressEntry|
            created.contains_key(p.output_id) && p.address == address_of(created[p.output_id]),
    )
}

/// The address-index entries of the outputs in `ids`, as `outputs` records them.
pub open spec fn pairs_of(outputs: Map<OutputId, Output>, ids: Set<OutputId>) -> Set<
    AddressEntry,
> {
    Set::new(
        |p: AddressEntry|
            ids.contains(p.output_id) && outputs.contains_key(p.output_id) && p.address == address_of(
                outputs[p.output_id],
            ),
    )
}

/// The ledger after applying the diff of milestone `i`: the created outputs are
/// stored, unspent and indexed by address; then the consumed ones are marked
/// spent, leave the unspent set and the address index.
pub open spec fn apply_view(
    v: LedgerView,
    i: u32,
    created: Map<OutputId, Output>,
    consumed: Map<OutputId, Spent>,
) -> LedgerView {
    let outputs = v.outputs.union_prefer_right(created);
    LedgerView {
        index: i,
        outputs,
        spent: v.spent.union_prefer_right(consumed),
        unspent: v.unspent.union(created.dom()).difference(consumed.dom()),
        addresses: v.addresses.union(created_pairs(created)).difference(
            pairs_of(outputs, consumed.dom()),
        ),
    }
}

/// The ledger after rolling back the diff of milestone `i`: the created outputs
/// leave every index; then the consumed ones lose their spent record and
/// return to the unspent set and the address index.
pub open spec fn rollback_view(
    v: LedgerView,
    i: u32,
    created: Map<OutputId, Output>,
    consumed: Map<OutputId, Spent>,
) -> LedgerView {
    let outputs = v.outputs.remove_keys(created.dom());
    LedgerView {
        index: (i - 1) as u32,
        outputs,
        spent: v.spent.remove_keys(consumed.dom()),
        unspent: v.unspent.difference(created.dom()).union(consumed.dom()),
        addresses: v.addresses.difference(created_pairs(created)).union(
            pairs_of(outputs, consumed.dom()),
        ),
    }
}

/// The set of the first `n` keys of `ks`.
pub open spec fn first_keys(ks: Seq<OutputId>, n: int) -> Set<OutputId> {
    ks.take(n).to_set()
}

proof fn lemma_first_keys_step(ks: Seq<OutputId>, n: int)
    requires
        0 <= n < ks.len(),
        ks.no_duplicates(),
    ensures
        first_keys(ks, n + 1) == first_keys(ks, n).insert(ks[n]),
        !first_keys(ks, n).contains(ks[n]),
{
    let a = ks.take(n);
    let b = ks.take(n + 1);
    assert(b =~= a.push(ks[n]));
    assert forall|x: OutputId| b.contains(x) <==> a.contains(x) || x == ks[n] by {
        if b.contains(x) {
            let j = choose|j: int| 0 <= j < b.len() && b[j] == x;
            if j < n {
                assert(a[j] == x);
            }
        }
        if a.contains(x) {
            let j = choose|j: int| 0 <= j < a.len() && a[j] == x;
            assert(b[j] == x);
        }
        if x == ks[n] {
            assert(b[n] == x);
        }
    }
    assert(first_keys(ks, n + 1) =~= first_keys(ks, n).insert(ks[n]));
    if first_keys(ks, n).contains(ks[n]) {
        let j = choose|j: int| 0 <= j < ks.take(n).len() && ks.take(n)[j] == ks[n];
        assert(ks[j] == ks[n]);
    }
}

proof fn lemma_first_keys_all(ks: Seq<OutputId>)
    ensures
        first_keys(ks, ks.len() as int) == ks.to_set(),
{
    assert(ks.take(ks.len() as int) =~= ks);
}

/// The amount of output `id` as `outputs` records it; nothing where it has none.
pub open spec fn amount_of(outputs: Map<OutputId, Output>, id: OutputId) -> int {
    if outputs.contains_key(id) {
        outputs[id].amount as int
    } else {
        0
    }
}

/// The sum of the amounts of the outputs `ids`, as `outputs` records them.
pub open spec fn sum_over(ids: Set<OutputId>, outputs: Map<OutputId, Output>) -> int {
    ids.fold(0int, |acc: int, id: OutputId| acc + amount_of(outputs, id))
}

/// The sum of the amounts of the unspent outputs.
pub open spec fn unspent_total(v: LedgerView) -> int {
    sum_over(v.unspent, v.outputs)
}

/// The sum of the amounts of the outputs `ids`, in order.
pub open spec fn amount_sum(outputs: Map<OutputId, Output>, ids: Seq<OutputId>) -> int
    decreases ids.len(),
{
    if ids.len() == 0 {
        0
    } else {
        amount_sum(outputs, ids.drop_last()) + amount_of(outputs, ids.last())
    }
}

proof fn lemma_sum_empty(outputs: Map<OutputId, Output>)
    ensures
        sum_over(Set::empty(), outputs) == 0,
{
    let f = |acc: int, id: OutputId| acc + amount_of(outputs, id);
    vstd::set::fold::lemma_fold_empty(0int, f);
}

proof fn lemma_sum_insert(ids: Set<OutputId>, outputs: Map<OutputId, Output>, x: OutputId)
    requires
        ids.finite(),
        !ids.contains(x),
    ensures
        sum_over(ids.insert(x), outputs) == sum_over(ids, outputs) + amount_of(outputs, x),
{
    let f = |acc: int, id: OutputId| acc + amount_of(outputs, id);
    assert(vstd::set::fold::is_fun_commutative(f));
    vstd::set::fold::lemma_fold_insert(ids, 0int, f, x);
}

/// The sum over two disjoint sets is the sum of their sums.
proof fn lemma_sum_union(a: Set<OutputId>, b: Set<OutputId>, outputs: Map<OutputId, Output>)
    requires
        a.finite(),
        b.finite(),
        a.disjoint(b),
    ensures
        sum_over(a.union(b), outputs) == sum_over(a, outputs) + sum_over(b, outputs),
    decreases b.len(),
{
    if b.len() == 0 {
        assert(b =~= Set::<OutputId>::empty());
        assert(a.union(b) =~= a);
        lemma_sum_empty(outputs);
    } else {
        let x = b.choose();
        let b1 = b.remove(x);
        lemma_sum_union(a, b1, outputs);
        assert(a.union(b) =~= a.union(b1).insert(x));
        lemma_sum_insert(a.union(b1), outputs, x);
        assert(b =~= b1.insert(x));
        lemma_sum_insert(b1, outputs, x);
    }
}

/// Sums over maps that agree on the set are equal.
proof fn lemma_sum_agree(a: Set<OutputId>, m1: Map<OutputId, Output>, m2: Map<OutputId, Output>)
    requires
        a.finite(),
        forall|id: OutputId| #[trigger] a.contains(id) ==> amount_of(m1, id) == amount_of(m2, id),
    ensures
        sum_over(a, m1) == sum_over(a, m2),
    decreases a.len(),
{
    if a.len() == 0 {
        assert(a =~= Set::<OutputId>::empty());
        lemma_sum_empty(m1);
        lemma_sum_empty(m2);
    } else {
        let x = a.choose();
        let a1 = a.remove(x);
        lemma_sum_agree(a1, m1, m2);
        assert(a =~= a1.insert(x));
        lemma_sum_insert(a1, m1, x);
        lemma_sum_insert(a1, m2, x);
    }
}

proof fn lemma_amount_sum_fold(outputs: Map<OutputId, Output>, ids: Seq<OutputId>)
    requires
        ids.no_duplicates(),
    ensures
        sum_over(ids.to_set(), outputs) == amount_sum(outputs, ids),
    decreases ids.len(),
{
    if ids.len() == 0 {
        assert(ids.to_set() =~= Set::<OutputId>::empty());
        lemma_sum_empty(outputs);
    } else {
        let init = ids.drop_last();
        let x = ids.last();
        assert forall|i: int, j: int| 0 <= i < init.len() && 0 <= j < init.len() && i != j implies init[i]
            != init[j] by {
            assert(ids[i] != ids[j]);
        }
        lemma_amount_sum_fold(outputs, init);
        assert(ids =~= init.push(x));
        assert(ids.to_set() =~= init.to_set().insert(x)) by {
            assert forall|y: OutputId| ids.contains(y) <==> init.contains(y) || y == x by {
                if ids.contains(y) {
                    let j = choose|j: int| 0 <= j < ids.len() && ids[j] == y;
                    if j < init.len() {
                        assert(init[j] == y);
                    }
                }
                if init.contains(y) {
                    let j = choose|j: int| 0 <= j < init.len() && init[j] == y;
                    assert(ids[j] == y);
                }
                if y == x {
                    assert(ids[ids.len() - 1] == y);
                }
            }
        }
        if init.contains(x) {
            let j = choose|j: int| 0 <= j < init.len() && init[j] == x;
            assert(ids[j] == ids[ids.len() - 1]);
        }
        vstd::seq_lib::seq_to_set_is_finite(init);
        lemma_sum_insert(init.to_set(), outputs, x);
    }
}

/// The ledger: the current milestone index and the four indices of outputs.
pub struct Ledger {
    index: u32,
    outputs: Table<OutputId, Output>,
    spent: Table<OutputId, Spent>,
    unspent: Table<OutputId, ()>,
    addresses: Table<AddressEntry, ()>,
}

impl View for Ledger {
    type V = LedgerView;

    closed spec fn view(&self) -> LedgerView {
        LedgerView {
            index: self.index,
            outputs: self.outputs@,
            spent: self.spent@,
            unspent: self.unspent@.dom(),
            addresses: self.addresses@.dom(),
        }
    }
}

impl Ledger {
    pub closed spec fn wf(&self) -> bool {
        self.outputs.wf() && self.spent.wf() && self.unspent.wf() && self.addresses.wf()
    }

    /// An empty ledger at milestone index `index`.
    pub fn new(index: u32) -> (r: Ledger)
        ensures
            r.wf(),
            r@ == (LedgerView {
                index,
                outputs: Map::empty(),
                spent: Map::empty(),
                unspent: Set::empty(),
                addresses: Set::empty(),
            }),
    {
        let r = Ledger {
            index,
            outputs: Table::new(),
            spent: Table::new(),
            unspent: Table::new(),
            addresses: Table::new(),
        };
        assert(r@.unspent =~= Set::empty());
        assert(r@.addresses =~= Set::empty());
        r
    }

    pub fn ledger_index(&self) -> (r: u32)
        ensures
            r == self@.index,
    {
        self.index
    }

    /// Sets the milestone index, as a snapshot header does.
    pub fn set_ledger_index(&mut self, index: u32)
        requires
            old(self).wf(),
        ensures
            final(self).wf(),
            final(self)@ == (LedgerView { index, ..old(self)@ }),
    {
        self.index = index;
    }

    pub fn output(&self, id: &OutputId) -> (r: Option<Output>)
        requires
            self.wf(),
        ensures
            r == (if self@.outputs.contains_key(*id) {
                Some(self@.outputs[*id])
            } else {
                None::<Output>
            }),
    {
        self.outputs.get(id)
    }

    pub fn spent(&self, id: &OutputId) -> (r: Option<Spent>)
        requires
            self.wf(),
        ensures
            r == (if self@.spent.contains_key(*id) {
                Some(self@.spent[*id])
            } else {
                None::<Spent>
            }),
    {
        self.spent.get(id)
    }

    pub fn is_unspent(&self, id: &OutputId) -> (r: bool)
        requires
            self.wf(),
        ensures
            r == self@.unspent.contains(*id),
    {
        self.unspent.contains(id)
    }

    pub fn has_address_entry(&self, address: &Ed25519Address, id: &OutputId) -> (r: bool)
        requires
            self.wf(),
        ensures
            r == self@.addresses.contains(AddressEntry { address: *address, output_id: *id }),
    {
        self.addresses.contains(&AddressEntry { address: *address, output_id: *id })
    }

    /// Stores an unspent output: in the outputs, the unspent set and the
    /// address index.
    pub fn insert_unspent_output(&mut self, id: OutputId, output: Output)
        requires
            old(self).wf(),
        ensures
            final(self).wf(),
            final(self)@ == (LedgerView {
                outputs: old(self)@.outputs.insert(id, output),
                unspent: old(self)@.unspent.insert(id),
                addresses: old(self)@.addresses.insert(AddressEntry { address: address_of(output), output_id: id }),
                ..old(self)@
            }),
    {
        self.outputs.insert(id, output);
        self.unspent.insert(id, ());
        let Address::Ed25519(a) = output.address;
        self.addresses.insert(AddressEntry { address: a, output_id: id }, ());
        assert(self@.unspent =~= old(self)@.unspent.insert(id));
        assert(self@.addresses =~= old(self)@.addresses.insert(AddressEntry { address: address_of(output), output_id: id }));
    }

    /// Applies the diff of milestone `index`, which must be the next one.
    pub fn apply_diff(
        &mut self,
        index: u32,
        created: &Table<OutputId, Output>,
        consumed: &Table<OutputId, Spent>,
    ) -> (r: Result<(), LedgerError>)
        requires
            old(self).wf(),
            created.wf(),
            consumed.wf(),
        ensures
            final(self).wf(),
            r is Ok <==> index as int == old(self)@.index + 1,
            r is Ok ==> final(self)@ == apply_view(old(self)@, index, created@, consumed@),
            r is Err ==> final(self)@ == old(self)@ && r == Err::<(), LedgerError>(
                LedgerError::UnexpectedDiffIndex(index),
            ),
    {
        if self.index == u32::MAX || index != self.index + 1 {
            return Err(LedgerError::UnexpectedDiffIndex(index));
        }
        let ghost v = self@;
        proof {
            created.lemma_keys();
            consumed.lemma_keys();
        }
        let ghost cks = created.keys();
        let n = created.len();
        let mut k: usize = 0;
        while k < n
            invariant
                self.wf(),
                created.wf(),
                n == created.entries().len(),
                cks == created.keys(),
                cks.no_duplicates(),
                cks.to_set() == created@.dom(),
                forall|i: int|
                    0 <= i < created.entries().len() ==> #[trigger] created.entries()[i].0 == cks[i]
                        && created@[cks[i]] == created.entries()[i].1,
                0 <= k <= n,
                self@.index == v.index,
                self@.spent == v.spent,
                self@.outputs == v.outputs.union_prefer_right(
                    created@.restrict(first_keys(cks, k as int)),
                ),
                self@.unspent == v.unspent.union(first_keys(cks, k as int)),
                self@.addresses == v.addresses.union(
                    created_pairs(created@.restrict(first_keys(cks, k as int))),
                ),
            decreases n - k,
        {
            let (id, output) = created.entry(k);
            proof {
                lemma_first_keys_step(cks, k as int);
            }
            let ghost before = self@;
            self.insert_unspent_output(id, output);
            proof {
                let s0 = first_keys(cks, k as int);
                let s1 = first_keys(cks, k + 1);
                assert(created@.restrict(s1) =~= created@.restrict(s0).insert(id, output));
                assert(self@.outputs =~= v.outputs.union_prefer_right(created@.restrict(s1)));
                assert(self@.unspent =~= v.unspent.union(s1));
                assert(created_pairs(created@.restrict(s1)) =~= created_pairs(
                    created@.restrict(s0),
                ).insert(AddressEntry { address: address_of(output), output_id: id }));
                assert(self@.addresses =~= v.addresses.union(created_pairs(created@.restrict(s1))));
            }
            k = k + 1;
        }
        proof {
            lemma_first_keys_all(cks);
            assert(created@.restrict(created@.dom()) =~= created@);
        }
        let ghost mid = self@;
        let ghost sks = consumed.keys();
        let m = consumed.len();
        let mut k: usize = 0;
        while k < m
            invariant
                self.wf(),
                consumed.wf(),
                m == consumed.entries().len(),
                sks == consumed.keys(),
                sks.no_duplicates(),
                sks.to_set() == consumed@.dom(),
                forall|i: int|
                    0 <= i < consumed.entries().len() ==> #[trigger] consumed.entries()[i].0
                        == sks[i] && consumed@[sks[i]] == consumed.entries()[i].1,
                0 <= k <= m,
                self@.index == v.index,
                self@.outputs == mid.outputs,
                self@.spent == mid.spent.union_prefer_right(
                    consumed@.restrict(first_keys(sks, k as int)),
                ),
                self@.unspent == mid.unspent.difference(first_keys(sks, k as int)),
                self@.addresses == mid.addresses.difference(
                    pairs_of(mid.outputs, first_keys(sks, k as int)),
                ),
            decreases m - k,
        {
            let (id, spent) = consumed.entry(k);
            proof {
                lemma_first_keys_step(sks, k as int);
            }
            self.spent.insert(id, spent);
            self.unspent.remove(&id);
            match self.outputs.get(&id) {
                Some(o) => {
                    let Address::Ed25519(a) = o.address;
                    self.addresses.remove(&AddressEntry { address: a, output_id: id });
                },
                None => {},
            }
            proof {
                let s0 = first_keys(sks, k as int);
                let s1 = first_keys(sks, k + 1);
                assert(consumed@.restrict(s1) =~= consumed@.restrict(s0).insert(id, spent));
                assert(self@.spent =~= mid.spent.union_prefer_right(consumed@.restrict(s1)));
                assert(self@.unspent =~= mid.unspent.difference(s1));
                assert(self@.addresses =~= mid.addresses.difference(pairs_of(mid.outputs, s1)));
            }
            k = k + 1;
        }
        proof {
            lemma_first_keys_all(sks);
            assert(consumed@.restrict(consumed@.dom()) =~= consumed@);
        }
        self.index = index;
        proof {
            let w = apply_view(v, index, created@, consumed@);
            assert(self@.unspent =~= w.unspent);
            assert(self@.addresses =~= w.addresses);
        }
        Ok(())
    }

    /// Rolls back the diff of milestone `index`, which must be the current one.
    pub fn rollback_diff(
        &mut self,
        index: u32,
        created: &Table<OutputId, Output>,
        consumed: &Table<OutputId, Spent>,
    ) -> (r: Result<(), LedgerError>)
        requires
            old(self).wf(),
            created.wf(),
            consumed.wf(),
        ensures
            final(self).wf(),
            r is Ok <==> index == old(self)@.index && index > 0,
            r is Ok ==> final(self)@ == rollback_view(old(self)@, index, created@, consumed@),
            r is Err ==> final(self)@ == old(self)@ && r == Err::<(), LedgerError>(
                LedgerError::UnexpectedDiffIndex(index),
            ),
    {
        if index == 0 || index != self.index {
            return Err(LedgerError::UnexpectedDiffIndex(index));
        }
        let ghost v = self@;
        proof {
            created.lemma_keys();
            consumed.lemma_keys();
        }
        let ghost cks = created.keys();
        let n = created.len();
        let mut k: usize = 0;
        while k < n
            invariant
                self.wf(),
                created.wf(),
                n == created.entries().len(),
                cks == created.keys(),
                cks.no_duplicates(),
                cks.to_set() == created@.dom(),
                forall|i: int|
                    0 <= i < created.entries().len() ==> #[trigger] created.entries()[i].0 == cks[i]
                        && created@[cks[i]] == created.entries()[i].1,
                0 <= k <= n,
                self@.index == v.index,
                self@.spent == v.spent,
                self@.outputs == v.outputs.remove_keys(first_keys(cks, k as int)),
                self@.unspent == v.unspent.difference(first_keys(cks, k as int)),
                self@.addresses == v.addresses.difference(
                    created_pairs(created@.restrict(first_keys(cks, k as int))),
                ),
            decreases n - k,
        {
            let (id, output) = created.entry(k);
            proof {
                lemma_first_keys_step(cks, k as int);
            }
            self.outputs.remove(&id);
            self.unspent.remove(&id);
            let Address::Ed25519(a) = output.address;
            self.addresses.remove(&AddressEntry { address: a, output_id: id });
            proof {
                let s0 = first_keys(cks, k as int);
                let s1 = first_keys(cks, k + 1);
                assert(created@.restrict(s1) =~= created@.restrict(s0).insert(id, output));
                assert(self@.outputs =~= v.outputs.remove_keys(s1));
                assert(self@.unspent =~= v.unspent.difference(s1));
                assert(created_pairs(created@.restrict(s1)) =~= created_pairs(
                    created@.restrict(s0),
                ).insert(AddressEntry { address: address_of(output), output_id: id }));
                assert(self@.addresses =~= v.addresses.difference(
                    created_pairs(created@.restrict(s1)),
                ));
            }
            k = k + 1;
        }
        proof {
            lemma_first_keys_all(cks);
            assert(created@.restrict(created@.dom()) =~= created@);
        }
        let ghost mid = self@;
        let ghost sks = consumed.keys();
        let m = consumed.len();
        let mut k: usize = 0;
        while k < m
            invariant
                self.wf(),
                consumed.wf(),
                m == consumed.entries().len(),
                sks == consumed.keys(),
                sks.no_duplicates(),
                sks.to_set() == consumed@.dom(),
                forall|i: int|
                    0 <= i < consumed.entries().len() ==> #[trigger] consumed.entries()[i].0
                        == sks[i] && consumed@[sks[i]] == consumed.entries()[i].1,
                0 <= k <= m,
                self@.index == v.index,
                self@.outputs == mid.outputs,
                self@.spent == mid.spent.remove_keys(first_keys(sks, k as int)),
                self@.unspent == mid.unspent.union(first_keys(sks, k as int)),
                self@.addresses == mid.addresses.union(
                    pairs_of(mid.outputs, first_keys(sks, k as int)),
                ),
            decreases m - k,
        {
            let (id, _spent) = consumed.entry(k);
            proof {
                lemma_first_keys_step(sks, k as int);
            }
            self.spent.remove(&id);
            self.unspent.insert(id, ());
            match self.outputs.get(&id) {
                Some(o) => {
                    let Address::Ed25519(a) = o.address;
                    self.addresses.insert(AddressEntry { address: a, output_id: id }, ());
                },
                None => {},
            }
            proof {
                let s1 = first_keys(sks, k + 1);
                assert(self@.spent =~= mid.spent.remove_keys(s1));
                assert(self@.unspent =~= mid.unspent.union(s1));
                assert(self@.addresses =~= mid.addresses.union(pairs_of(mid.outputs, s1)));
            }
            k = k + 1;
        }
        proof {
            lemma_first_keys_all(sks);
        }
        self.index = index - 1;
        proof {
            let w = rollback_view(v, index, created@, consumed@);
            assert(self@.unspent =~= w.unspent);
            assert(self@.addresses =~= w.addresses);
        }
        Ok(())
    }

    /// Whether the unspent outputs are all stored and hold exactly the total supply.
    pub fn check_ledger_state(&self) -> (r: bool)
        requires
            self.wf(),
        ensures
            r == (self@.unspent.subset_of(self@.outputs.dom()) && unspent_total(self@)
                == IOTA_SUPPLY),
    {
        proof {
            self.unspent.lemma_keys();
        }
        let ghost uks = self.unspent.keys();
        let ghost outs = self@.outputs;
        let n = self.unspent.len();
        let mut total: u128 = 0;
        let mut all_stored = true;
        let mut k: usize = 0;
        while k < n
            invariant
                self.wf(),
                outs == self@.outputs,
                n == self.unspent.entries().len(),
                uks == self.unspent.keys(),
                forall|i: int|
                    0 <= i < self.unspent.entries().len() ==> #[trigger] self.unspent.entries()[i].0
                        == uks[i],
                0 <= k <= n,
                total == amount_sum(outs, uks.take(k as int)),
                total <= k * 0xFFFF_FFFF_FFFF_FFFFu128,
                all_stored == (forall|j: int| 0 <= j < k ==> outs.contains_key(#[trigger] uks[j])),
            decreases n - k,
        {
            let (id, _) = self.unspent.entry(k);
            proof {
                assert(uks.take(k + 1).drop_last() =~= uks.take(k as int));
            }
            match self.outputs.get(&id) {
                Some(o) => {
                    total = total + o.amount as u128;
                },
                None => {
                    all_stored = false;
                },
            }
            k = k + 1;
        }
        proof {
            assert(uks.take(n as int) =~= uks);
            lemma_amount_sum_fold(outs, uks);
            assert(all_stored == self@.unspent.subset_of(self@.outputs.dom())) by {
                if all_stored {
                    assert forall|id: OutputId| self@.unspent.contains(id) implies outs.contains_key(
                        id,
                    ) by {
                        assert(uks.to_set().contains(id));
                        let j = choose|j: int| 0 <= j < uks.len() && uks[j] == id;
                        assert(outs.contains_key(uks[j]));
                    }
                } else {
                    let j = choose|j: int| 0 <= j < n && !outs.contains_key(#[trigger] uks[j]);
                    assert(uks.to_set().contains(uks[j]));
                }
            }
        }
        all_stored && total == IOTA_SUPPLY as u128
    }
}


/// The ledger is consistent: every unspent output is stored, and the address
/// index holds exactly the unspent outputs under their addresses.
pub open spec fn consistent(v: LedgerView) -> bool {
    &&& v.unspent.subset_of(v.outputs.dom())
    &&& v.addresses == pairs_of(v.outputs, v.unspent)
}

/// A diff fits the ledger: it creates outputs the ledger does not hold yet and
/// consumes outputs that are unspent and were never recorded as spent.
pub open spec fn diff_fits(
    v: LedgerView,
    created: Map<OutputId, Output>,
    consumed: Map<OutputId, Spent>,
) -> bool {
    &&& created.dom().disjoint(v.outputs.dom())
    &&& consumed.dom().subset_of(v.unspent)
    &&& consumed.dom().disjoint(v.spent.dom())
}

/// Rolling back the diff of milestone `i` right after applying it gives the
/// ledger back as it was, in all of its indices.
pub proof fn lemma_apply_rollback(
    v: LedgerView,
    i: u32,
    created: Map<OutputId, Output>,
    consumed: Map<OutputId, Spent>,
)
    requires
        consistent(v),
        diff_fits(v, created, consumed),
        i as int == v.index + 1,
    ensures
        rollback_view(apply_view(v, i, created, consumed), i, created, consumed) == v,
{
    let a = apply_view(v, i, created, consumed);
    let b = rollback_view(a, i, created, consumed);
    assert(b.outputs =~= v.outputs);
    assert(b.spent =~= v.spent);
    assert(b.unspent =~= v.unspent);
    assert forall|p: AddressEntry| b.addresses.contains(p) <==> v.addresses.contains(p) by {
        if v.addresses.contains(p) {
            assert(v.unspent.contains(p.output_id));
        }
    }
    assert(b.addresses =~= v.addresses);
}

/// A milestone diff as plain values.
pub struct DiffView {
    pub index: u32,
    pub created: Map<OutputId, Output>,
    pub consumed: Map<OutputId, Spent>,
}

/// The ledger after applying `ds` in order.
pub open spec fn apply_all(v: LedgerView, ds: Seq<DiffView>) -> LedgerView
    decreases ds.len(),
{
    if ds.len() == 0 {
        v
    } else {
        let d = ds.last();
        apply_view(apply_all(v, ds.drop_last()), d.index, d.created, d.consumed)
    }
}

/// Whether the diffs `ds` follow milestone `start` one by one.
pub open spec fn in_order(start: int, ds: Seq<DiffView>) -> bool {
    forall|j: int| 0 <= j < ds.len() ==> #[trigger] ds[j].index == start + 1 + j
}

/// Applying diffs that follow the ledger index one by one advances the index
/// by exactly their number, each being the next one when it is applied.
pub proof fn lemma_apply_in_order(v: LedgerView, ds: Seq<DiffView>)
    requires
        in_order(v.index as int, ds),
    ensures
        apply_all(v, ds).index == v.index + ds.len(),
        forall|j: int|
            0 <= j < ds.len() ==> #[trigger] ds[j].index == apply_all(v, ds.take(j)).index + 1,
    decreases ds.len(),
{
    if ds.len() > 0 {
        let init = ds.drop_last();
        assert(in_order(v.index as int, init)) by {
            assert forall|j: int| 0 <= j < init.len() implies #[trigger] init[j].index == v.index + 1
                + j by {
                assert(init[j] == ds[j]);
            }
        }
        lemma_apply_in_order(v, init);
        assert forall|j: int| 0 <= j < ds.len() implies #[trigger] ds[j].index == apply_all(
            v,
            ds.take(j),
        ).index + 1 by {
            if j < init.len() {
                assert(ds.take(j) =~= init.take(j));
                assert(init[j] == ds[j]);
            } else {
                assert(ds.take(j) =~= init);
            }
        }
    }
}

/// A diff is balanced: its created outputs hold as much as the outputs it consumes.
pub open spec fn balanced(
    v: LedgerView,
    created: Map<OutputId, Output>,
    consumed: Map<OutputId, Spent>,
) -> bool {
    sum_over(created.dom(), created) == sum_over(consumed.dom(), v.outputs)
}

/// Applying a balanced diff that fits the ledger keeps the sum of the unspent
/// outputs, and keeps every unspent output stored.
pub proof fn lemma_apply_keeps_supply(
    v: LedgerView,
    i: u32,
    created: Map<OutputId, Output>,
    consumed: Map<OutputId, Spent>,
)
    requires
        v.unspent.finite(),
        created.dom().finite(),
        v.unspent.subset_of(v.outputs.dom()),
        diff_fits(v, created, consumed),
        balanced(v, created, consumed),
    ensures
        unspent_total(apply_view(v, i, created, consumed)) == unspent_total(v),
        apply_view(v, i, created, consumed).unspent.finite(),
        apply_view(v, i, created, consumed).unspent.subset_of(
            apply_view(v, i, created, consumed).outputs.dom(),
        ),
{
    let w = apply_view(v, i, created, consumed);
    let u = v.unspent;
    let c = created.dom();
    let sp = consumed.dom();
    let o2 = w.outputs;
    let rest = u.difference(sp);
    assert(w.unspent =~= rest.union(c));
    assert(sp.finite()) by {
        vstd::set_lib::lemma_len_subset(sp, u);
    }
    lemma_sum_union(rest, c, o2);
    assert forall|id: OutputId| #[trigger] rest.contains(id) implies amount_of(o2, id) == amount_of(
        v.outputs,
        id,
    ) by {
        assert(!c.contains(id));
    }
    lemma_sum_agree(rest, o2, v.outputs);
    assert forall|id: OutputId| #[trigger] c.contains(id) implies amount_of(o2, id) == amount_of(
        created,
        id,
    ) by {}
    lemma_sum_agree(c, o2, created);
    assert(u =~= rest.union(sp));
    lemma_sum_union(rest, sp, v.outputs);
}

/// Whether each diff of `ds` is balanced and fits the ledger it is applied to.
pub open spec fn supply_preserving(v: LedgerView, ds: Seq<DiffView>) -> bool
    decreases ds.len(),
{
    if ds.len() == 0 {
        true
    } else {
        let w = apply_all(v, ds.drop_last());
        let d = ds.last();
        &&& supply_preserving(v, ds.drop_last())
        &&& d.created.dom().finite()
        &&& diff_fits(w, d.created, d.consumed)
        &&& balanced(w, d.created, d.consumed)
    }
}

/// Starting from a ledger whose unspent outputs hold the total supply, any
/// sequence of balanced diffs that fit leaves them holding the total supply.
pub proof fn lemma_supply_invariant(v: LedgerView, ds: Seq<DiffView>)
    requires
        v.unspent.finite(),
        v.unspent.subset_of(v.outputs.dom()),
        unspent_total(v) == IOTA_SUPPLY,
        supply_preserving(v, ds),
    ensures
        unspent_total(apply_all(v, ds)) == IOTA_SUPPLY,
        apply_all(v, ds).unspent.finite(),
        apply_all(v, ds).unspent.subset_of(apply_all(v, ds).outputs.dom()),
    decreases ds.len(),
{
    if ds.len() > 0 {
        lemma_supply_invariant(v, ds.drop_last());
        let d = ds.last();
        lemma_apply_keeps_supply(apply_all(v, ds.drop_last()), d.index, d.created, d.consumed);
    }
}

} // verus!
