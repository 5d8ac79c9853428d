//! Inventory: the stock counts, keyed by (repository, product).
//!
//! `InventoryStore` models the inventory table together with the two
//! transactional adjustments made against it. Each adjustment is specified
//! as a transition on the table's map view (`spec_add`, `spec_reduce`);
//! an adjustment either commits the whole transition or leaves the table
//! exactly as it was, never anything in between.

use vstd::prelude::*;
use crate::errors::DataError;
use crate::product::Product;

verus! {

/// One stock record: `amount` units of product `pid` in repository `rid`.
/// Created lazily with the first addition; the amount never goes below zero.
#[derive(Debug, Clone, Copy, PartialEq, Eq, Structural)]
pub struct Inventory {
    pub pid: u32,
    pub rid: u32,
    pub amount: u32,
}

/// A query for the stock of one repository.
#[derive(Debug, Clone, Copy)]
pub struct InventoryRepoQueryId {
    pub rid: u32,
}

/// A query for the stock of one product.
#[derive(Debug, Clone, Copy)]
pub struct InventoryProductQueryId {
    pub pid: u32,
}

/// A request to add stock.
#[derive(Debug, Clone, Copy)]
pub struct AddInventory {
    pub rid: u32,
    pub pid: u32,
    pub amount: u32,
}

/// A request to take stock out.
#[derive(Debug, Clone, Copy)]
pub struct ReduceInventory {
    pub rid: u32,
    pub pid: u32,
    pub amount: u32,
}

/// One stock record joined with the names of its repository and product,
/// as the listings return it.
#[derive(Debug, Clone)]
pub struct InventoryDetail {
    pub rid: u32,
    pub rname: String,
    pub product: Product,
    pub amount: u32,
}

/// The key a stock record is addressed by.
pub open spec fn inv_key_of(rec: Inventory) -> (u32, u32) {
    (rec.rid, rec.pid)
}

/// The map view of a sequence of stock records: later records win, though
/// a well-formed store never holds two records of one key.
pub open spec fn inv_map_of(s: Seq<Inventory>) -> Map<(u32, u32), u32>
    decreases s.len(),
{
    if s.len() == 0 {
        Map::empty()
    } else {
        inv_map_of(s.drop_last()).insert(inv_key_of(s.last()), s.last().amount)
    }
}

/// What adding `delta` units under key `(rid, pid)` does to the table:
/// an absent record is created at zero first (lazy creation), and the
/// store rejects a count that would leave the column's range.
pub open spec fn spec_add(
    m: Map<(u32, u32), u32>,
    rid: u32,
    pid: u32,
    delta: u32,
) -> Result<Map<(u32, u32), u32>, DataError> {
    let cur: u32 = if m.contains_key((rid, pid)) {
        m[(rid, pid)]
    } else {
        0
    };
    if cur + delta > u32::MAX {
        Err(DataError::ConstraintViolation)
    } else {
        Ok(m.insert((rid, pid), (cur + delta) as u32))
    }
}

/// What taking `delta` units out under key `(rid, pid)` does to the table:
/// stock that does not exist cannot be reduced, and the amount never goes
/// below zero.
pub open spec fn spec_reduce(
    m: Map<(u32, u32), u32>,
    rid: u32,
    pid: u32,
    delta: u32,
) -> Result<Map<(u32, u32), u32>, DataError> {
    if !m.contains_key((rid, pid)) {
        Err(DataError::RecordNotFound)
    } else if m[(rid, pid)] < delta {
        Err(DataError::InsufficientStock)
    } else {
        Ok(m.insert((rid, pid), (m[(rid, pid)] - delta) as u32))
    }
}

/// The inventory table with its two transactional adjustments.
pub struct InventoryStore {
    recs: Vec<Inventory>,
}

impl View for InventoryStore {
    type V = Map<(u32, u32), u32>;

    closed spec fn view(&self) -> Map<(u32, u32), u32> {
        inv_map_of(self.recs@)
    }
}

/// In `s`, each key addresses at most one record.
pub open spec fn inv_unique_keys(s: Seq<Inventory>) -> bool {
    forall|i: int, j: int|
        0 <= i < j < s.len() ==> inv_key_of(s[i]) != inv_key_of(s[j])
}

/// A key is in the map view exactly when some record carries it.
proof fn lemma_inv_map_contains(s: Seq<Inventory>)
    ensures
        forall|k: (u32, u32)|
            inv_map_of(s).contains_key(k) <==> exists|i: int|
                0 <= i < s.len() && inv_key_of(s[i]) == k,
    decreases s.len(),
{
    if s.len() > 0 {
        let d = s.drop_last();
        lemma_inv_map_contains(d);
        assert forall|k: (u32, u32)| inv_map_of(s).contains_key(k) implies exists|i: int|
            0 <= i < s.len() && inv_key_of(s[i]) == k by {
            if k == inv_key_of(s.last()) {
                assert(inv_key_of(s[s.len() - 1]) == k);
            } else {
                assert(inv_map_of(d).contains_key(k));
                let i = choose|i: int| 0 <= i < d.len() && inv_key_of(d[i]) == k;
                assert(d[i] == s[i]);
                assert(inv_key_of(s[i]) == k);
            }
        }
        assert forall|k: (u32, u32)|
            (exists|i: int| 0 <= i < s.len() && inv_key_of(s[i]) == k) implies inv_map_of(
            s,
        ).contains_key(k) by {
            let i = choose|i: int| 0 <= i < s.len() && inv_key_of(s[i]) == k;
            if i < s.len() - 1 {
                assert(d[i] == s[i]);
                assert(inv_key_of(d[i]) == k);
                assert(inv_map_of(d).contains_key(k));
            }
        }
    }
}

/// With unique keys, the map view reads each record's amount back.
proof fn lemma_inv_map_index(s: Seq<Inventory>, i: int)
    requires
        inv_unique_keys(s),
        0 <= i < s.len(),
    ensures
        inv_map_of(s).contains_key(inv_key_of(s[i])),
        inv_map_of(s)[inv_key_of(s[i])] == s[i].amount,
    decreases s.len(),
{
    lemma_inv_map_contains(s);
    if i < s.len() - 1 {
        assert(inv_unique_keys(s.drop_last()));
        lemma_inv_map_index(s.drop_last(), i);
        assert(inv_key_of(s[i]) != inv_key_of(s.last()));
    }
}

/// Appending a record of a fresh key inserts it into the map view.
proof fn lemma_inv_map_push(s: Seq<Inventory>, rec: Inventory)
    ensures
        inv_map_of(s.push(rec)) == inv_map_of(s).insert(inv_key_of(rec), rec.amount),
{
    assert(s.push(rec).drop_last() =~= s);
    assert(s.push(rec).last() == rec);
}

/// Overwriting the record at `i` with one of the same key updates the map
/// view at that key and nothing else.
proof fn lemma_inv_map_update(s: Seq<Inventory>, i: int, rec: Inventory)
    requires
        inv_unique_keys(s),
        0 <= i < s.len(),
        inv_key_of(rec) == inv_key_of(s[i]),
    ensures
        inv_map_of(s.update(i, rec)) == inv_map_of(s).insert(inv_key_of(rec), rec.amount),
    decreases s.len(),
{
    let k = inv_key_of(rec);
    if i == s.len() - 1 {
        assert(s.update(i, rec).drop_last() =~= s.drop_last());
        assert(s.update(i, rec).last() == rec);
        assert(inv_map_of(s.drop_last()).insert(k, s[i].amount).insert(k, rec.amount) =~= inv_map_of(
            s.drop_last(),
        ).insert(k, rec.amount));
    } else {
        assert(inv_unique_keys(s.drop_last()));
        assert(s.update(i, rec).drop_last() =~= s.drop_last().update(i, rec));
        lemma_inv_map_update(s.drop_last(), i, rec);
        let klast = inv_key_of(s.last());
        assert(klast != k);
        assert(s.update(i, rec).last() == s.last());
        assert(inv_map_of(s.drop_last()).insert(k, rec.amount).insert(
            klast,
            s.last().amount,
        ) =~= inv_map_of(s.drop_last()).insert(klast, s.last().amount).insert(k, rec.amount));
    }
}

impl InventoryStore {
    /// Each key addresses at most one record.
    pub closed spec fn wf(&self) -> bool {
        inv_unique_keys(self.recs@)
    }

    /// The stored records, in storage order.
    pub closed spec fn recs_seq(&self) -> Seq<Inventory> {
        self.recs@
    }

    /// An empty inventory table.
    pub fn new() -> (r: Self)
        ensures
            r.wf(),
            r@ == Map::<(u32, u32), u32>::empty(),
    {
        InventoryStore { recs: Vec::new() }
    }

    /// The index of the record under `(rid, pid)`, if one exists.
    fn find(&self, rid: u32, pid: u32) -> (r: Option<usize>)
        requires
            self.wf(),
        ensures
            match r {
                Some(i) => i < self.recs@.len() && inv_key_of(self.recs@[i as int]) == (rid, pid),
                None => !self@.contains_key((rid, pid)),
            },
    {
        proof {
            lemma_inv_map_contains(self.recs@);
        }
        let mut i: usize = 0;
        while i < self.recs.len()
            invariant
                i <= self.recs@.len(),
                forall|j: int| 0 <= j < i ==> inv_key_of(self.recs@[j]) != (rid, pid),
                inv_map_of(self.recs@).contains_key((rid, pid)) <==> exists|j: int|
                    0 <= j < self.recs@.len() && inv_key_of(self.recs@[j]) == (rid, pid),
            decreases self.recs@.len() - i,
        {
            let rec = self.recs[i];
            if rec.rid == rid && rec.pid == pid {
                return Some(i);
            }
            i += 1;
        }
        None
    }

    /// The stock currently recorded under `(rid, pid)`.
    pub fn lookup(&self, rid: u32, pid: u32) -> (r: Option<u32>)
        requires
            self.wf(),
        ensures
            r == (if self@.contains_key((rid, pid)) {
                Some(self@[(rid, pid)])
            } else {
                None::<u32>
            }),
    {
        match self.find(rid, pid) {
            Some(i) => {
                proof {
                    lemma_inv_map_index(self.recs@, i as int);
                }
                Some(self.recs[i].amount)
            },
            None => None,
        }
    }

    /// Adds `delta` units under `(rid, pid)`, creating the record at zero
    /// first when it is absent. Either the whole transition `spec_add`
    /// commits and the call reports one affected row, or the table is left
    /// unchanged with the transition's error.
    pub fn add(&mut self, rid: u32, pid: u32, delta: u32) -> (r: Result<u64, DataError>)
        requires
            old(self).wf(),
        ensures
            final(self).wf(),
            match spec_add(old(self)@, rid, pid, delta) {
                Ok(m2) => r matches Ok(n) && n == 1 && final(self)@ == m2,
                Err(e) => r matches Err(e2) && e2 == e && final(self)@ == old(self)@,
            },
    {
        match self.find(rid, pid) {
            Some(i) => {
                proof {
                    lemma_inv_map_index(self.recs@, i as int);
                }
                let rec = self.recs[i];
                if delta > u32::MAX - rec.amount {
                    return Err(DataError::ConstraintViolation);
                }
                let updated = Inventory { pid: rec.pid, rid: rec.rid, amount: rec.amount + delta };
                proof {
                    lemma_inv_map_update(self.recs@, i as int, updated);
                    assert(forall|j: int|
                        0 <= j < self.recs@.len() && j != i ==> inv_key_of(
                            #[trigger] self.recs@.update(i as int, updated)[j],
                        ) == inv_key_of(self.recs@[j]));
                }
                self.recs.set(i, updated);
                Ok(1)
            },
            None => {
                let rec = Inventory { pid, rid, amount: delta };
                proof {
                    lemma_inv_map_push(self.recs@, rec);
                    lemma_inv_map_contains(self.recs@);
                }
                self.recs.push(rec);
                Ok(1)
            },
        }
    }

    /// Takes `delta` units out from under `(rid, pid)`. Either the whole
    /// transition `spec_reduce` commits and the call reports one affected
    /// row, or the table is left unchanged with the transition's error:
    /// `RecordNotFound` for stock that was never created, and
    /// `InsufficientStock` when the record holds fewer than `delta` units.
    pub fn reduce(&mut self, rid: u32, pid: u32, delta: u32) -> (r: Result<u64, DataError>)
        requires
            old(self).wf(),
        ensures
            final(self).wf(),
            match spec_reduce(old(self)@, rid, pid, delta) {
                Ok(m2) => r matches Ok(n) && n == 1 && final(self)@ == m2,
                Err(e) => r matches Err(e2) && e2 == e && final(self)@ == old(self)@,
            },
    {
        match self.find(rid, pid) {
            Some(i) => {
                proof {
                    lemma_inv_map_index(self.recs@, i as int);
                }
                let rec = self.recs[i];
                if rec.amount < delta {
                    return Err(DataError::InsufficientStock);
                }
                let updated = Inventory { pid: rec.pid, rid: rec.rid, amount: rec.amount - delta };
                proof {
                    lemma_inv_map_update(self.recs@, i as int, updated);
                    assert(forall|j: int|
                        0 <= j < self.recs@.len() && j != i ==> inv_key_of(
                            #[trigger] self.recs@.update(i as int, updated)[j],
                        ) == inv_key_of(self.recs@[j]));
                }
                self.recs.set(i, updated);
                Ok(1)
            },
            None => Err(DataError::RecordNotFound),
        }
    }

    /// Every stock record, for listings.
    pub fn records(&self) -> (r: &Vec<Inventory>)
        ensures
            r@ == self.recs_seq(),
            self.wf() ==> forall|i: int|
                0 <= i < r@.len() ==> self@.contains_key(inv_key_of(#[trigger] r@[i]))
                    && self@[inv_key_of(r@[i])] == r@[i].amount,
    {
        proof {
            if self.wf() {
                assert forall|i: int| 0 <= i < self.recs@.len() implies self@.contains_key(
                    inv_key_of(#[trigger] self.recs@[i]),
                ) && self@[inv_key_of(self.recs@[i])] == self.recs@[i].amount by {
                    lemma_inv_map_index(self.recs@, i);
                }
            }
        }
        &self.recs
    }
}

/// Adding stock twice under one key is one addition of the sum: the order
/// of the two calls does not matter, and splitting an addition does not
/// change the final table.
pub proof fn lemma_add_splits(m: Map<(u32, u32), u32>, rid: u32, pid: u32, d1: u32, d2: u32)
    requires
        spec_add(m, rid, pid, d1) is Ok,
        spec_add(spec_add(m, rid, pid, d1)->Ok_0, rid, pid, d2) is Ok,
    ensures
        d1 + d2 <= u32::MAX,
        spec_add(m, rid, pid, (d1 + d2) as u32) == spec_add(
            spec_add(m, rid, pid, d1)->Ok_0,
            rid,
            pid,
            d2,
        ),
        spec_add(spec_add(m, rid, pid, d1)->Ok_0, rid, pid, d2) == spec_add(
            spec_add(m, rid, pid, d2)->Ok_0,
            rid,
            pid,
            d1,
        ),
{
    let cur: u32 = if m.contains_key((rid, pid)) {
        m[(rid, pid)]
    } else {
        0
    };
    let m1 = spec_add(m, rid, pid, d1)->Ok_0;
    let m2 = spec_add(m1, rid, pid, d2)->Ok_0;
    assert(m2 =~= m.insert((rid, pid), (cur + d1 + d2) as u32));
    assert(spec_add(m, rid, pid, (d1 + d2) as u32)->Ok_0 =~= m2);
    let m1r = spec_add(m, rid, pid, d2)->Ok_0;
    assert(spec_add(m1r, rid, pid, d1)->Ok_0 =~= m2);
}

/// Reducing below the available amount fails with `InsufficientStock` and
/// changes nothing.
pub proof fn lemma_reduce_insufficient(m: Map<(u32, u32), u32>, rid: u32, pid: u32, delta: u32)
    requires
        m.contains_key((rid, pid)),
        m[(rid, pid)] < delta,
    ensures
        spec_reduce(m, rid, pid, delta) == Result::<Map<(u32, u32), u32>, DataError>::Err(
            DataError::InsufficientStock,
        ),
{
}

/// Two reductions that would jointly overdraw one key cannot both commit:
/// after either one commits, the other fails with `InsufficientStock`
/// (the store serializes them; this is the outcome of each serial order).
pub proof fn lemma_reduce_no_joint_overdraw(
    m: Map<(u32, u32), u32>,
    rid: u32,
    pid: u32,
    d1: u32,
    d2: u32,
)
    requires
        m.contains_key((rid, pid)),
        d1 + d2 > m[(rid, pid)],
        spec_reduce(m, rid, pid, d1) is Ok,
    ensures
        spec_reduce(spec_reduce(m, rid, pid, d1)->Ok_0, rid, pid, d2) == Result::<
            Map<(u32, u32), u32>,
            DataError,
        >::Err(DataError::InsufficientStock),
{
}

} // verus!
