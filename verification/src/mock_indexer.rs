//! The rules of the mock indexer service that the forwarding workers are
//! tested against: tables are created once, and checkpoints advance one
//! sequence number at a time.  Serving HTTP and decoding the requests is
//! the caller's; it hands in the requests' fields.

use vstd::prelude::*;

use crate::proto::{encode_last_checkpoint_response, last_checkpoint_response};

verus! {

/// Why the mock service refused a request.
#[derive(Debug, Clone, Copy, PartialEq, Eq)]
pub enum MockStatus {
    /// The table already exists (HTTP 409).
    Conflict,
    /// The request does not follow the service's rules (HTTP 400).
    BadRequest,
}

/// The mock service's state, held in memory.
pub struct MockIndexerState {
    last_checkpoint: Option<u64>,
    tables: Vec<String>,
}

/// The table names in `v`.
pub open spec fn names(v: Seq<String>) -> Set<Seq<char>> {
    Set::new(|n: Seq<char>| exists|i: int| 0 <= i < v.len() && #[trigger] v[i]@ == n)
}

impl MockIndexerState {
    /// The last checkpointed sequence number, if any.
    pub closed spec fn last(&self) -> Option<u64> {
        self.last_checkpoint
    }

    /// The known tables.
    pub closed spec fn tables(&self) -> Set<Seq<char>> {
        names(self.tables@)
    }

    /// No table is listed twice.
    pub closed spec fn wf(&self) -> bool {
        forall|i: int, j: int|
            0 <= i < self.tables@.len() && 0 <= j < self.tables@.len() && i != j
                ==> self.tables@[i]@ != self.tables@[j]@
    }

    /// A service with no tables and no checkpoint.
    pub fn new() -> (r: Self)
        ensures
            r.wf(),
            r.last() is None,
            r.tables() == Set::<Seq<char>>::empty(),
    {
        let r = MockIndexerState { last_checkpoint: None, tables: Vec::new() };
        assert(r.tables() =~= Set::<Seq<char>>::empty());
        r
    }

    fn position(&self, table_name: &String) -> (r: Option<usize>)
        ensures
            match r {
                Some(i) => i < self.tables@.len() && self.tables@[i as int]@ == table_name@,
                None => !self.tables().contains(table_name@),
            },
    {
        let mut i: usize = 0;
        while i < self.tables.len()
            invariant
                i <= self.tables@.len(),
                forall|j: int| 0 <= j < i ==> self.tables@[j]@ != table_name@,
            decreases self.tables@.len() - i,
        {
            if self.tables[i] == *table_name {
                return Some(i);
            }
            i += 1;
        }
        None
    }

    /// Creates a table; refused with `Conflict` when it exists.
    pub fn create_table(&mut self, table_name: String) -> (r: Result<(), MockStatus>)
        requires
            old(self).wf(),
        ensures
            final(self).wf(),
            final(self).last() == old(self).last(),
            if old(self).tables().contains(table_name@) {
                &&& r == Err::<(), MockStatus>(MockStatus::Conflict)
                &&& final(self).tables() == old(self).tables()
            } else {
                &&& r is Ok
                &&& final(self).tables() == old(self).tables().insert(table_name@)
            },
    {
        match self.position(&table_name) {
            Some(_) => Err(MockStatus::Conflict),
            None => {
                let ghost pre = self.tables@;
                let ghost name = table_name@;
                self.tables.push(table_name);
                proof {
                    assert(self.tables() =~= names(pre).insert(name)) by {
                        assert forall|n: Seq<char>| self.tables().contains(n) implies names(
                            pre,
                        ).insert(name).contains(n) by {
                            let i = choose|i: int| 0 <= i < self.tables@.len() && #[trigger] self.tables@[i]@ == n;
                            if i < pre.len() {
                                assert(pre[i]@ == n);
                            }
                        }
                        assert forall|n: Seq<char>| names(pre).insert(name).contains(n) implies self.tables().contains(n) by {
                            if n == name {
                                assert(self.tables@[pre.len() as int]@ == n);
                            } else {
                                let i = choose|i: int| 0 <= i < pre.len() && #[trigger] pre[i]@ == n;
                                assert(self.tables@[i]@ == n);
                            }
                        }
                    }
                    assert forall|i: int, j: int|
                        0 <= i < self.tables@.len() && 0 <= j < self.tables@.len() && i != j
                        implies self.tables@[i]@ != self.tables@[j]@ by {
                        if i < pre.len() && j < pre.len() {
                        } else if i < pre.len() {
                            assert(names(pre).contains(pre[i]@));
                        } else {
                            assert(names(pre).contains(pre[j]@));
                        }
                    }
                }
                Ok(())
            },
        }
    }

    /// Forgets a table, if it exists.
    pub fn drop_table(&mut self, table_name: &String)
        requires
            old(self).wf(),
        ensures
            final(self).wf(),
            final(self).last() == old(self).last(),
            final(self).tables() == old(self).tables().remove(table_name@),
    {
        let ghost pre = self.tables@;
        match self.position(table_name) {
            Some(i) => {
                self.tables.remove(i);
                proof {
                    let post = self.tables@;
                    assert forall|a: int| 0 <= a < post.len() implies post[a] == pre[if a < i {
                        a
                    } else {
                        a + 1
                    }] by {}
                    assert(self.tables() =~= names(pre).remove(table_name@)) by {
                        assert forall|n: Seq<char>| self.tables().contains(n) implies names(
                            pre,
                        ).remove(table_name@).contains(n) by {
                            let a = choose|a: int| 0 <= a < post.len() && #[trigger] post[a]@ == n;
                            let b = if a < i { a } else { a + 1 };
                            assert(pre[b]@ == n);
                            assert(b != i);
                        }
                        assert forall|n: Seq<char>| names(pre).remove(table_name@).contains(n) implies self.tables().contains(n) by {
                            let b = choose|b: int| 0 <= b < pre.len() && #[trigger] pre[b]@ == n;
                            assert(b != i);
                            let a = if b < i { b } else { b - 1 };
                            assert(post[a]@ == n);
                        }
                    }
                }
            },
            None => {
                assert(self.tables() =~= names(pre).remove(table_name@));
            },
        }
    }

    /// Records a checkpoint: the first is 1 and each next one is one more
    /// than the last; repeating the last is accepted and changes nothing.
    /// Any other sequence number is refused with `BadRequest`.  The next
    /// number after the last is computed first, so the last may not be the
    /// largest `u64`.
    pub fn checkpoint(&mut self, sequence_number: u64) -> (r: Result<(), MockStatus>)
        requires
            old(self).last() != Some(u64::MAX),
        ensures
            final(self).tables() == old(self).tables(),
            ({
                let expected: int = match old(self).last() {
                    Some(n) => n + 1,
                    None => 1,
                };
                if old(self).last() == Some(sequence_number) {
                    r is Ok && final(self).last() == old(self).last()
                } else if sequence_number != expected {
                    r == Err::<(), MockStatus>(MockStatus::BadRequest) && final(self).last()
                        == old(self).last()
                } else {
                    r is Ok && final(self).last() == Some(sequence_number)
                }
            }),
    {
        if self.last_checkpoint == Some(sequence_number) {
            return Ok(());
        }
        let expected: u64 = match self.last_checkpoint {
            Some(n) => n + 1,
            None => 1,
        };
        if sequence_number != expected {
            return Err(MockStatus::BadRequest);
        }
        self.last_checkpoint = Some(sequence_number);
        Ok(())
    }

    /// The reply to a request for the last checkpoint: its sequence number
    /// (0 when there is none) and whether there is one, encoded.
    pub fn get_last_checkpoint(&self) -> (r: Vec<u8>)
        ensures
            r@ == match self.last() {
                Some(n) => last_checkpoint_response(n, true),
                None => last_checkpoint_response(0, false),
            },
    {
        match self.last_checkpoint {
            Some(n) => encode_last_checkpoint_response(n, true),
            None => encode_last_checkpoint_response(0, false),
        }
    }
}

} // verus!
