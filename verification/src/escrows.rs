//! The escrow records of a room, one for each tenant who has one.
use crate::entries::DepositEscrow;
use crate::ledger_vec::{same_address, Address};
use vstd::prelude::*;

verus! {

/// `rows[i]` is the row of `a`.
spec fn row_of(rows: Seq<(Address, DepositEscrow)>, a: Address, i: int) -> bool {
    0 <= i < rows.len() && rows[i].0 == a
}

/// The escrow records by the address that they are kept under.
pub struct EscrowTable {
    rows: Vec<(Address, DepositEscrow)>,
}

impl View for EscrowTable {
    type V = Map<Address, DepositEscrow>;

    closed spec fn view(&self) -> Map<Address, DepositEscrow> {
        Map::new(
            |a: Address| exists|i: int| row_of(self.rows@, a, i),
            |a: Address| self.rows@[choose|i: int| row_of(self.rows@, a, i)].1,
        )
    }
}

impl EscrowTable {
    /// No address has two rows.
    #[verifier::type_invariant]
    spec fn one_row_each(self) -> bool {
        forall|i: int, j: int|
            0 <= i < j < self.rows@.len() ==> (#[trigger] self.rows@[i]).0 != (
            #[trigger] self.rows@[j]).0
    }

    /// The table without records.
    pub fn new() -> (table: EscrowTable)
        ensures
            table@ == Map::<Address, DepositEscrow>::empty(),
    {
        let table = EscrowTable { rows: Vec::new() };
        assert(table@ =~= Map::<Address, DepositEscrow>::empty());
        table
    }

    /// The position of the row of `a`, if it has one.
    fn find(&self, a: Address) -> (found: Option<usize>)
        ensures
            match found {
                Some(i) => row_of(self.rows@, a, i as int),
                None => forall|i: int| !row_of(self.rows@, a, i),
            },
    {
        let mut i: usize = 0;
        while i < self.rows.len()
            invariant
                i <= self.rows@.len(),
                forall|j: int| 0 <= j < i ==> !row_of(self.rows@, a, j),
            decreases self.rows@.len() - i,
        {
            if same_address(self.rows[i].0, a) {
                return Some(i);
            }
            i = i + 1;
        }
        None
    }

    /// The record kept under `a`.
    pub fn get(&self, a: Address) -> (record: Option<DepositEscrow>)
        ensures
            record == if self@.contains_key(a) {
                Some(self@[a])
            } else {
                None
            },
    {
        proof {
            use_type_invariant(self);
        }
        match self.find(a) {
            Some(i) => {
                assert(row_of(self.rows@, a, choose|i: int| row_of(self.rows@, a, i)));
                Some(self.rows[i].1)
            },
            None => None,
        }
    }

    /// Keeps `record` under `a`, in place of what was there.
    pub fn set(&mut self, a: Address, record: DepositEscrow)
        ensures
            final(self)@ == old(self)@.insert(a, record),
    {
        proof {
            use_type_invariant(&*self);
        }
        let found = self.find(a);
        let mut rows: Vec<(Address, DepositEscrow)> = Vec::new();
        std::mem::swap(&mut rows, &mut self.rows);
        let ghost before = rows@;
        match found {
            Some(i) => {
                rows.set(i, (a, record));
            },
            None => {
                rows.push((a, record));
            },
        }
        let ghost after = rows@;
        proof {
            let at: int = match found {
                Some(i) => i as int,
                None => before.len() as int,
            };
            assert(forall|k: int| 0 <= k < before.len() ==> (#[trigger] after[k]).0 == before[k].0);
            assert forall|i: int, j: int| 0 <= i < j < after.len() implies (
            #[trigger] after[i]).0 != (#[trigger] after[j]).0 by {
                assert(!(found is None && row_of(before, a, i)));
                assert(before[i].0 == after[i].0);
            }
            assert(row_of(after, a, at));
            assert(forall|b: Address, i: int|
                b != a ==> #[trigger] row_of(before, b, i) == row_of(after, b, i));
        }
        self.rows = rows;
        proof {
            assert forall|b: Address| old(self)@.insert(a, record).contains_key(b) implies
                #[trigger] self@.contains_key(b) && self@[b] == old(self)@.insert(a, record)[b] by {
                let i = choose|i: int| row_of(after, b, i);
                if b != a {
                    let k = choose|i: int| row_of(before, b, i);
                    assert(row_of(after, b, k));
                }
                assert(row_of(after, b, i));
            }
            assert forall|b: Address| #[trigger] self@.contains_key(b) implies old(self)@.insert(
                a,
                record,
            ).contains_key(b) by {
                let i = choose|i: int| row_of(after, b, i);
                assert(b != a ==> row_of(before, b, i));
            }
            assert(self@ =~= old(self)@.insert(a, record));
        }
    }
}

} // verus!
