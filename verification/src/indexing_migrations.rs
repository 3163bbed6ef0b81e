//! Stepped storage migrations of the indexing pallet.  Each step does as
//! much work as the weight meter allows and returns a cursor to resume
//! from, or `None` once the migration is complete.

use vstd::prelude::*;

use crate::commitments::SteppedMigrationError;
use crate::indexing::{
    apply_v0, lemma_bound_of_smaller, lemma_migrate_prefix_grows, migrate_v0, within_bound,
    IndexingPallet, QuorumScope, SubmissionV0View,
};
use crate::types::{AccountId, DataHash};
use crate::vecmap::{bytes_clone, bytes_eq};
use crate::weights::{sat_sub, Weight, WeightMeter};

verus! {

/// Identifies a migration of a pallet's storage from one version to the
/// next.
#[derive(Debug, Clone, Copy, PartialEq, Eq)]
pub struct MigrationId {
    /// The pallet whose storage is migrated.
    pub pallet_id: [u8; 26],
    /// The storage version migrated from.
    pub version_from: u8,
    /// The storage version migrated to.
    pub version_to: u8,
}

/// The bytes of `pallet-indexing-migrations`, which tell this pallet's
/// migrations apart from those of other pallets.
pub open spec fn spec_pallet_migrations_id() -> Seq<u8> {
    seq![
        112u8, 97, 108, 108, 101, 116, 45, 105, 110, 100, 101, 120, 105, 110, 103, 45, 109, 105,
        103, 114, 97, 116, 105, 111, 110, 115,
    ]
}

/// The identifier of this pallet among migrations: the bytes of
/// `pallet-indexing-migrations`.
pub fn pallet_migrations_id() -> (r: [u8; 26])
    ensures
        r@ == spec_pallet_migrations_id(),
{
    let r: [u8; 26] = [
        112u8, 97, 108, 108, 101, 116, 45, 105, 110, 100, 101, 120, 105, 110, 103, 45, 109, 105,
        103, 114, 97, 116, 105, 111, 110, 115,
    ];
    assert(r@ =~= spec_pallet_migrations_id());
    r
}

/// Whether `j` units of `required` can be spent on top of `consumed`
/// without passing `limit`.
pub open spec fn fits(consumed: Weight, limit: Weight, required: Weight, j: int) -> bool {
    &&& consumed.ref_time + j * required.ref_time <= limit.ref_time
    &&& consumed.proof_size + j * required.proof_size <= limit.proof_size
}

/// `consumed` plus `j` units of `required`.
pub open spec fn consumed_after(consumed: Weight, required: Weight, j: int) -> Weight {
    Weight {
        ref_time: (consumed.ref_time + j * required.ref_time) as u64,
        proof_size: (consumed.proof_size + j * required.proof_size) as u64,
    }
}

/// Whether the weight left on a meter is less than `required` in either
/// component.
pub open spec fn lacks_weight(consumed: Weight, limit: Weight, required: Weight) -> bool {
    ||| sat_sub(limit.ref_time, consumed.ref_time) < required.ref_time
    ||| sat_sub(limit.proof_size, consumed.proof_size) < required.proof_size
}

proof fn lemma_one_more(consumed: Weight, required: Weight, j: int)
    requires
        j >= 0,
    ensures
        consumed.ref_time + (j + 1) * required.ref_time == consumed.ref_time + j
            * required.ref_time + required.ref_time,
        consumed.proof_size + (j + 1) * required.proof_size == consumed.proof_size + j
            * required.proof_size + required.proof_size,
{
    assert((j + 1) * required.ref_time == j * required.ref_time + required.ref_time)
        by (nonlinear_arith);
    assert((j + 1) * required.proof_size == j * required.proof_size + required.proof_size)
        by (nonlinear_arith);
}

/// Moves the old submissions storage, which maps a batch and a data hash to
/// the submitters per scope, into the current one, which maps a batch, a
/// scope and a submitter to the data hash.
pub struct LazyMigrationV1;

impl LazyMigrationV1 {
    /// This migration's identifier: from storage version 0 to 1.
    pub fn id() -> (r: MigrationId)
        ensures
            r.pallet_id@ == spec_pallet_migrations_id(),
            r.version_from == 0,
            r.version_to == 1,
    {
        MigrationId { pallet_id: pallet_migrations_id(), version_from: 0, version_to: 1 }
    }

    /// Moves old entries one at a time, from the first in storage order,
    /// while the meter has `required` (the weight of one entry) left for
    /// it.  Each moved entry is removed from the old storage, so the entries
    /// after the previous step's cursor are those that remain; `cursor` is
    /// returned unchanged when no entry could be moved.  Moving all the old
    /// entries must leave no batch with more submitters in a scope than the
    /// pallet allows, as the pallet's storage never holds more.
    pub fn step(
        pallet: &mut IndexingPallet,
        cursor: Option<(Vec<u8>, DataHash)>,
        meter: &mut WeightMeter,
        required: Weight,
    ) -> (r: Result<Option<(Vec<u8>, DataHash)>, SteppedMigrationError>)
        requires
            old(pallet).wf(),
            within_bound(
                migrate_v0(old(pallet).submissions(), old(pallet).submissions_v0()),
                old(pallet).config().max_submitters,
            ),
        ensures
            final(pallet).wf(),
            final(meter).spec_limit() == old(meter).spec_limit(),
            final(pallet).batch_queue() == old(pallet).batch_queue(),
            final(pallet).batch_queue_count() == old(pallet).batch_queue_count(),
            final(pallet).batch_queue_bottom() == old(pallet).batch_queue_bottom(),
            final(pallet).final_data() == old(pallet).final_data(),
            final(pallet).block_numbers() == old(pallet).block_numbers(),
            final(pallet).config() == old(pallet).config(),
            ({
                let c0 = old(meter).spec_consumed();
                let limit = old(meter).spec_limit();
                let es = old(pallet).submissions_v0();
                let n = es.len() - final(pallet).submissions_v0().len();
                if lacks_weight(c0, limit, required) {
                    &&& r == Err::<Option<(Vec<u8>, DataHash)>, SteppedMigrationError>(
                        SteppedMigrationError::InsufficientWeight { required },
                    )
                    &&& final(pallet).submissions() == old(pallet).submissions()
                    &&& final(pallet).submissions_v0() == es
                    &&& *final(meter) == *old(meter)
                } else {
                    &&& 0 <= n <= es.len()
                    &&& final(pallet).submissions_v0() == es.skip(n)
                    &&& final(pallet).submissions() == migrate_v0(
                        old(pallet).submissions(),
                        es.take(n),
                    )
                    &&& forall|j: int| 0 < j <= n ==> fits(c0, limit, required, j)
                    &&& if n == es.len() && fits(c0, limit, required, n + 1) {
                        &&& r matches Ok(None)
                        &&& final(meter).spec_consumed() == consumed_after(c0, required, n + 1)
                    } else {
                        &&& !fits(c0, limit, required, n + 1)
                        &&& final(meter).spec_consumed() == consumed_after(c0, required, n)
                        &&& r matches Ok(k)
                        &&& if n == 0 {
                            k == cursor
                        } else {
                            k matches Some(kk) && kk.0@ == es[n - 1].0 && kk.1 == es[n - 1].1
                        }
                    }
                }
            }),
    {
        if meter.remaining().any_lt(required) {
            return Err(SteppedMigrationError::InsufficientWeight { required });
        }
        let ghost es = pallet.submissions_v0();
        let ghost subs0 = pallet.submissions();
        let ghost pre = *pallet;
        let ghost c0 = meter.spec_consumed();
        let ghost limit = meter.spec_limit();
        let ghost cursor0 = cursor;
        let ghost mut i: int = 0;
        let mut cursor = cursor;
        proof {
            assert(es.take(0) =~= Seq::<SubmissionV0View>::empty());
            assert(es.skip(0) =~= es);
            assert(consumed_after(c0, required, 0) == c0);
        }
        loop
            invariant_except_break
                pallet.wf(),
                0 <= i <= es.len(),
                pallet.submissions_v0() == es.skip(i),
                pallet.submissions() == migrate_v0(subs0, es.take(i)),
                pallet.batch_queue() == pre.batch_queue(),
                pallet.batch_queue_count() == pre.batch_queue_count(),
                pallet.batch_queue_bottom() == pre.batch_queue_bottom(),
                pallet.final_data() == pre.final_data(),
                pallet.block_numbers() == pre.block_numbers(),
                pallet.config() == pre.config(),
                within_bound(migrate_v0(subs0, es), pre.config().max_submitters),
                meter.spec_limit() == limit,
                meter.spec_consumed() == consumed_after(c0, required, i),
                forall|j: int| 0 < j <= i ==> fits(c0, limit, required, j),
                i == 0 ==> cursor == cursor0,
                i > 0 ==> (cursor matches Some(k) && k.0@ == es[i - 1].0 && k.1 == es[i - 1].1),
            ensures
                pallet.wf(),
                0 <= i <= es.len(),
                pallet.submissions_v0() == es.skip(i),
                pallet.submissions() == migrate_v0(subs0, es.take(i)),
                pallet.batch_queue() == pre.batch_queue(),
                pallet.batch_queue_count() == pre.batch_queue_count(),
                pallet.batch_queue_bottom() == pre.batch_queue_bottom(),
                pallet.final_data() == pre.final_data(),
                pallet.block_numbers() == pre.block_numbers(),
                pallet.config() == pre.config(),
                meter.spec_limit() == limit,
                forall|j: int| 0 < j <= i ==> fits(c0, limit, required, j),
                if i == es.len() && fits(c0, limit, required, i + 1) {
                    &&& cursor is None
                    &&& meter.spec_consumed() == consumed_after(c0, required, i + 1)
                } else {
                    &&& !fits(c0, limit, required, i + 1)
                    &&& meter.spec_consumed() == consumed_after(c0, required, i)
                    &&& i == 0 ==> cursor == cursor0
                    &&& i > 0 ==> (cursor matches Some(k) && k.0@ == es[i - 1].0 && k.1
                        == es[i - 1].1)
                },
            decreases es.len() - i,
        {
            proof {
                lemma_one_more(c0, required, i);
                assert(i * required.ref_time >= 0 && i * required.proof_size >= 0)
                    by (nonlinear_arith)
                    requires
                        i >= 0,
                ;
                if i > 0 {
                    assert(fits(c0, limit, required, i));
                }
                assert(meter.spec_consumed().ref_time == c0.ref_time + i * required.ref_time);
                assert(meter.spec_consumed().proof_size == c0.proof_size + i * required.proof_size);
            }
            match meter.try_consume(required) {
                Ok(()) => {},
                Err(()) => {
                    break;
                },
            }
            proof {
                if i < es.len() {
                    assert(pallet.submissions_v0()[0] == es[i]);
                    assert(es.take(i + 1).drop_last() =~= es.take(i));
                    assert(es.take(i + 1).last() == es[i]);
                    assert(apply_v0(pallet.submissions(), es[i]) == migrate_v0(subs0, es.take(i + 1)));
                    lemma_migrate_prefix_grows(subs0, es, i + 1);
                    lemma_bound_of_smaller(
                        migrate_v0(subs0, es.take(i + 1)),
                        migrate_v0(subs0, es),
                        pre.config().max_submitters,
                    );
                }
            }
            match pallet.migrate_first_v0() {
                Some(k) => {
                    cursor = Some(k);
                    proof {
                        assert(es.skip(i).drop_first() =~= es.skip(i + 1));
                        assert(es.take(i + 1).drop_last() =~= es.take(i));
                        i = i + 1;
                    }
                },
                None => {
                    cursor = None;
                    break;
                },
            }
        }
        Ok(cursor)
    }
}

/// A key of the submissions storage: a batch, a scope and a submitter.
#[derive(Debug, Clone, PartialEq, Eq)]
pub struct SubmissionKey {
    /// The (inner) batch id.
    pub batch_id: Vec<u8>,
    /// The quorum scope.
    pub scope: QuorumScope,
    /// The submitter.
    pub who: AccountId,
}

/// The view of a submissions key.
pub type SubmissionKeyView = (Seq<u8>, QuorumScope, AccountId);

impl View for SubmissionKey {
    type V = SubmissionKeyView;

    open spec fn view(&self) -> SubmissionKeyView {
        (self.batch_id@, self.scope, self.who)
    }
}

impl SubmissionKey {
    /// A copy of the key.
    pub fn duplicate(&self) -> (r: Self)
        ensures
            r@ == self@,
    {
        SubmissionKey { batch_id: bytes_clone(&self.batch_id), scope: self.scope, who: self.who }
    }
}

/// The views of a list of keys.
pub open spec fn keys_view(v: Seq<SubmissionKey>) -> Seq<SubmissionKeyView> {
    v.map_values(|k: SubmissionKey| k@)
}

/// The position after the run of keys of the same batch as the key at `p`.
pub open spec fn run_end(keys: Seq<SubmissionKeyView>, p: int) -> int
    decreases keys.len() - p,
{
    if 0 <= p && p + 1 < keys.len() && keys[p + 1].0 == keys[p].0 {
        run_end(keys, p + 1)
    } else {
        p + 1
    }
}

/// A run of keys ends after its start, and within the keys.
pub proof fn lemma_run_end_after(keys: Seq<SubmissionKeyView>, p: int)
    ensures
        run_end(keys, p) > p,
        0 <= p < keys.len() ==> run_end(keys, p) <= keys.len(),
    decreases keys.len() - p,
{
    if 0 <= p && p + 1 < keys.len() && keys[p + 1].0 == keys[p].0 {
        lemma_run_end_after(keys, p + 1);
    }
}

/// The walk of a step over the keys from position `p`, with `j` batches
/// queued so far: while the meter can spend one more unit of `required` and
/// keys are left, the batch of the next key is put in the queue at the
/// position equal to the queue's size, and the walk skips the rest of that
/// batch's run of keys.  The result is the final queue, position and
/// number of batches queued.
pub open spec fn v2_walk(
    q: Map<u32, Seq<u8>>,
    keys: Seq<SubmissionKeyView>,
    p: int,
    consumed: Weight,
    limit: Weight,
    required: Weight,
    j: int,
) -> (Map<u32, Seq<u8>>, int, int)
    decreases keys.len() - p,
{
    if p < 0 || p >= keys.len() || !fits(consumed, limit, required, j + 1) {
        (q, p, j)
    } else {
        proof {
            lemma_run_end_after(keys, p);
        }
        v2_walk(
            q.insert(q.dom().len() as u32, keys[p].0),
            keys,
            run_end(keys, p),
            consumed,
            limit,
            required,
            j + 1,
        )
    }
}

/// Whether batch `b` is at some position of the queue.
pub open spec fn is_queued(q: Map<u32, Seq<u8>>, b: Seq<u8>) -> bool {
    exists|i: u32| #[trigger] q.contains_key(i) && q[i] == b
}

/// The queue's positions are exactly those below its size.
pub open spec fn positions_from_zero(q: Map<u32, Seq<u8>>) -> bool {
    &&& q.dom().finite()
    &&& forall|i: u32| #[trigger] q.dom().contains(i) <==> (i as int) < q.dom().len()
}

proof fn lemma_run_same_batch(keys: Seq<SubmissionKeyView>, p: int, m: int)
    requires
        0 <= p <= m < run_end(keys, p),
        p < keys.len(),
    ensures
        m < keys.len(),
        keys[m].0 == keys[p].0,
    decreases keys.len() - p,
{
    if m > p {
        lemma_run_end_after(keys, p);
        assert(p + 1 < keys.len() && keys[p + 1].0 == keys[p].0);
        lemma_run_same_batch(keys, p + 1, m);
    }
}

proof fn lemma_walk_queues(
    q: Map<u32, Seq<u8>>,
    keys: Seq<SubmissionKeyView>,
    p: int,
    consumed: Weight,
    limit: Weight,
    required: Weight,
    j: int,
)
    requires
        0 <= p,
        positions_from_zero(q),
        q.dom().len() + keys.len() - p < u32::MAX,
    ensures
        ({
            let w = v2_walk(q, keys, p, consumed, limit, required, j);
            &&& positions_from_zero(w.0)
            &&& forall|i: u32| #[trigger] q.contains_key(i) ==> w.0.contains_key(i) && w.0[i] == q[i]
            &&& fits(consumed, limit, required, w.2 + 1) ==> w.1 >= keys.len()
            &&& fits(consumed, limit, required, w.2 + 1) ==> forall|m: int|
                p <= m < keys.len() ==> #[trigger] is_queued(w.0, keys[m].0)
        }),
    decreases keys.len() - p,
{
    let w = v2_walk(q, keys, p, consumed, limit, required, j);
    if p >= keys.len() || !fits(consumed, limit, required, j + 1) {
    } else {
        let c = q.dom().len();
        let idx = c as u32;
        let q2 = q.insert(idx, keys[p].0);
        lemma_run_end_after(keys, p);
        assert(!q.dom().contains(idx));
        assert(q2.dom() == q.dom().insert(idx));
        assert(q2.dom().len() == c + 1);
        assert forall|i: u32| #[trigger] q2.dom().contains(i) <==> (i as int) < q2.dom().len() by {
            if i == idx {
            } else {
                assert(q2.dom().contains(i) == q.dom().contains(i));
            }
        }
        lemma_walk_queues(q2, keys, run_end(keys, p), consumed, limit, required, j + 1);
        assert(w == v2_walk(q2, keys, run_end(keys, p), consumed, limit, required, j + 1));
        assert forall|i: u32| #[trigger] q.contains_key(i) implies w.0.contains_key(i) && w.0[i] == q[i] by {
            assert(q2.contains_key(i));
        }
        if fits(consumed, limit, required, w.2 + 1) {
            assert forall|m: int| p <= m < keys.len() implies #[trigger] is_queued(w.0, keys[m].0) by {
                if m < run_end(keys, p) {
                    lemma_run_same_batch(keys, p, m);
                    assert(q2.contains_key(idx));
                    assert(w.0.contains_key(idx) && w.0[idx] == keys[m].0);
                }
            }
        }
    }
}

/// A walk from a queue whose positions run from zero up to its size, that
/// stops only because the keys ran out, queues the batch of every key and
/// keeps what was queued before, with the positions still running from zero.
pub proof fn lemma_v2_queues_every_batch(
    q: Map<u32, Seq<u8>>,
    keys: Seq<SubmissionKeyView>,
    consumed: Weight,
    limit: Weight,
    required: Weight,
)
    requires
        positions_from_zero(q),
        q.dom().len() + keys.len() < u32::MAX,
    ensures
        ({
            let w = v2_walk(q, keys, 0, consumed, limit, required, 0);
            &&& positions_from_zero(w.0)
            &&& forall|i: u32| #[trigger] q.contains_key(i) ==> w.0.contains_key(i) && w.0[i] == q[i]
            &&& fits(consumed, limit, required, w.2 + 1) ==> forall|m: int|
                0 <= m < keys.len() ==> #[trigger] is_queued(w.0, keys[m].0)
        }),
{
    lemma_walk_queues(q, keys, 0, consumed, limit, required, 0);
}

/// The keys of each batch come together: a key between two keys of one
/// batch is of that batch too, as in storage, where keys start with their
/// batch.
pub open spec fn grouped(keys: Seq<SubmissionKeyView>) -> bool {
    forall|i: int, j: int, k: int|
        0 <= i < j < k < keys.len() && #[trigger] keys[i].0 == #[trigger] keys[k].0 ==> #[trigger] keys[j].0
            == keys[i].0
}

/// The batches that the keys name.
pub open spec fn key_batches(keys: Seq<SubmissionKeyView>) -> Set<Seq<u8>> {
    Set::new(|b: Seq<u8>| exists|m: int| 0 <= m < keys.len() && #[trigger] keys[m].0 == b)
}

/// No batch sits at two positions of the queue.
pub open spec fn queued_once(q: Map<u32, Seq<u8>>) -> bool {
    forall|i: u32, j: u32|
        #[trigger] q.contains_key(i) && #[trigger] q.contains_key(j) && i != j ==> q[i] != q[j]
}

/// The progress of the batch-queue migration at position `p` of the keys:
/// the queue's positions run from zero, each batch is queued once, the
/// queued batches are exactly those of the keys before `p`, and `p` starts
/// a batch's keys.
pub open spec fn v2_progress(q: Map<u32, Seq<u8>>, keys: Seq<SubmissionKeyView>, p: int) -> bool {
    &&& 0 <= p <= keys.len()
    &&& positions_from_zero(q)
    &&& queued_once(q)
    &&& forall|b: Seq<u8>| is_queued(q, b) <==> key_batches(keys.take(p)).contains(b)
    &&& (p == 0 || p == keys.len() || keys[p].0 != keys[p - 1].0)
}

proof fn lemma_run_end_boundary(keys: Seq<SubmissionKeyView>, p: int)
    requires
        0 <= p < keys.len(),
    ensures
        run_end(keys, p) < keys.len() ==> keys[run_end(keys, p)].0 != keys[run_end(keys, p) - 1].0,
        run_end(keys, p) > p,
        keys[run_end(keys, p) - 1].0 == keys[p].0,
    decreases keys.len() - p,
{
    if p + 1 < keys.len() && keys[p + 1].0 == keys[p].0 {
        lemma_run_end_boundary(keys, p + 1);
    }
}

proof fn lemma_walk_once(
    q: Map<u32, Seq<u8>>,
    keys: Seq<SubmissionKeyView>,
    p: int,
    consumed: Weight,
    limit: Weight,
    required: Weight,
    j: int,
)
    requires
        grouped(keys),
        v2_progress(q, keys, p),
        q.dom().len() + keys.len() - p < u32::MAX,
    ensures
        ({
            let w = v2_walk(q, keys, p, consumed, limit, required, j);
            &&& v2_progress(w.0, keys, w.1)
            &&& w.0.dom().len() + keys.len() - w.1 < u32::MAX
            &&& fits(consumed, limit, required, w.2 + 1) ==> w.1 == keys.len()
        }),
    decreases keys.len() - p,
{
    if p >= keys.len() {
    } else if !fits(consumed, limit, required, j + 1) {
    } else {
        let c = q.dom().len();
        let idx = c as u32;
        let b0 = keys[p].0;
        let q2 = q.insert(idx, b0);
        let e = run_end(keys, p);
        lemma_run_end_boundary(keys, p);
        lemma_run_end_after(keys, p);
        assert(!q.dom().contains(idx));
        assert(q2.dom() == q.dom().insert(idx));
        assert forall|i: u32| #[trigger] q2.dom().contains(i) <==> (i as int) < q2.dom().len() by {
            if i != idx {
                assert(q2.dom().contains(i) == q.dom().contains(i));
            }
        }
        assert(!is_queued(q, b0)) by {
            if is_queued(q, b0) {
                assert(key_batches(keys.take(p)).contains(b0));
                let m = choose|m: int| 0 <= m < keys.take(p).len() && #[trigger] keys.take(p)[m].0 == b0;
                assert(keys[m].0 == b0);
                assert(keys[p - 1].0 != b0);
                if m < p - 1 {
                    assert(keys[m].0 == keys[p].0);
                    assert(keys[p - 1].0 == keys[m].0);
                }
            }
        }
        assert forall|i: u32, k: u32| #[trigger] q2.contains_key(i) && #[trigger] q2.contains_key(k) && i
            != k implies q2[i] != q2[k] by {
            if i == idx {
                assert(q.contains_key(k));
                assert(is_queued(q, q[k]));
            } else if k == idx {
                assert(q.contains_key(i));
                assert(is_queued(q, q[i]));
            } else {
                assert(q.contains_key(i) && q.contains_key(k));
            }
        }
        assert forall|b: Seq<u8>| is_queued(q2, b) <==> key_batches(keys.take(e)).contains(b) by {
            if is_queued(q2, b) {
                let i = choose|i: u32| #[trigger] q2.contains_key(i) && q2[i] == b;
                if i == idx {
                    assert(keys.take(e)[p].0 == b);
                } else {
                    assert(q.contains_key(i) && q[i] == b);
                    assert(is_queued(q, b));
                    let m = choose|m: int| 0 <= m < keys.take(p).len() && #[trigger] keys.take(p)[m].0 == b;
                    assert(keys.take(e)[m].0 == b);
                }
            }
            if key_batches(keys.take(e)).contains(b) {
                let m = choose|m: int| 0 <= m < keys.take(e).len() && #[trigger] keys.take(e)[m].0 == b;
                if m < p {
                    assert(keys.take(p)[m].0 == b);
                    assert(key_batches(keys.take(p)).contains(b));
                    assert(is_queued(q, b));
                    let i = choose|i: u32| #[trigger] q.contains_key(i) && q[i] == b;
                    assert(q2.contains_key(i) && q2[i] == b);
                } else {
                    lemma_run_same_batch(keys, p, m);
                    assert(q2.contains_key(idx) && q2[idx] == b);
                }
            }
        }
        lemma_walk_once(q2, keys, e, consumed, limit, required, j + 1);
    }
}

proof fn lemma_run_end_shift(keys: Seq<SubmissionKeyView>, p: int, i: int)
    requires
        0 <= p,
        0 <= i,
        p + i < keys.len(),
    ensures
        run_end(keys.skip(p), i) == run_end(keys, p + i) - p,
    decreases keys.len() - p - i,
{
    let ks = keys.skip(p);
    if p + i + 1 < keys.len() && keys[p + i + 1].0 == keys[p + i].0 {
        assert(ks[i + 1] == keys[p + i + 1] && ks[i] == keys[p + i]);
        lemma_run_end_shift(keys, p, i + 1);
    } else {
        if i + 1 < ks.len() {
            assert(ks[i + 1] == keys[p + i + 1] && ks[i] == keys[p + i]);
        }
    }
}

proof fn lemma_walk_shift(
    q: Map<u32, Seq<u8>>,
    keys: Seq<SubmissionKeyView>,
    p: int,
    i: int,
    consumed: Weight,
    limit: Weight,
    required: Weight,
    j: int,
)
    requires
        0 <= p <= keys.len(),
        0 <= i,
    ensures
        ({
            let w1 = v2_walk(q, keys.skip(p), i, consumed, limit, required, j);
            let w2 = v2_walk(q, keys, p + i, consumed, limit, required, j);
            w1.0 == w2.0 && w1.2 == w2.2 && w1.1 + p == w2.1
        }),
    decreases keys.len() - p - i,
{
    let ks = keys.skip(p);
    if p + i >= keys.len() || !fits(consumed, limit, required, j + 1) {
    } else {
        assert(ks[i] == keys[p + i]);
        lemma_run_end_shift(keys, p, i);
        lemma_run_end_after(keys, p + i);
        lemma_walk_shift(
            q.insert(q.dom().len() as u32, keys[p + i].0),
            keys,
            p,
            run_end(keys, p + i) - p,
            consumed,
            limit,
            required,
            j + 1,
        );
    }
}

/// The batch-queue migration starts with its progress at the first key
/// when the queue is empty.
pub proof fn lemma_v2_progress_at_start(keys: Seq<SubmissionKeyView>)
    ensures
        v2_progress(Map::empty(), keys, 0),
{
    let q = Map::<u32, Seq<u8>>::empty();
    assert(q.dom() =~= Set::<u32>::empty());
    assert forall|b: Seq<u8>| is_queued(q, b) <==> key_batches(keys.take(0)).contains(b) by {}
}

/// Each step of the batch-queue migration keeps its progress: a step
/// handed the keys after its cursor, which sits at position `p` of all the
/// keys grouped by batch, leaves the progress at the position where it
/// stopped; a step that stops because the keys ran out leaves it at their
/// end.
pub proof fn lemma_v2_step_keeps_progress(
    q: Map<u32, Seq<u8>>,
    keys: Seq<SubmissionKeyView>,
    p: int,
    consumed: Weight,
    limit: Weight,
    required: Weight,
)
    requires
        grouped(keys),
        v2_progress(q, keys, p),
        q.dom().len() + keys.len() - p < u32::MAX,
    ensures
        ({
            let w = v2_walk(q, keys.skip(p), 0, consumed, limit, required, 0);
            &&& v2_progress(w.0, keys, p + w.1)
            &&& w.0.dom().len() + keys.len() - (p + w.1) < u32::MAX
            &&& fits(consumed, limit, required, w.2 + 1) ==> p + w.1 == keys.len()
        }),
{
    lemma_walk_shift(q, keys, p, 0, consumed, limit, required, 0);
    lemma_walk_once(q, keys, p, consumed, limit, required, 0);
}

/// Progress at the end of the keys is the migration's result: each batch
/// of the keys is queued exactly once and nothing else, and the queue holds
/// as many batches as the keys name.
pub proof fn lemma_v2_progress_at_end(q: Map<u32, Seq<u8>>, keys: Seq<SubmissionKeyView>)
    requires
        v2_progress(q, keys, keys.len() as int),
    ensures
        forall|b: Seq<u8>| is_queued(q, b) <==> key_batches(keys).contains(b),
        queued_once(q),
        q.dom().len() == key_batches(keys).len(),
{
    assert(keys.take(keys.len() as int) =~= keys);
    let f = |i: u32| q[i];
    assert(q.dom().map(f) =~= key_batches(keys)) by {
        assert forall|b: Seq<u8>| key_batches(keys).contains(b) implies q.dom().map(f).contains(b) by {
            assert(is_queued(q, b));
            let i = choose|i: u32| #[trigger] q.contains_key(i) && q[i] == b;
            assert(f(i) == b);
        }
        assert forall|b: Seq<u8>| q.dom().map(f).contains(b) implies key_batches(keys).contains(b) by {
            let i = choose|i: u32| q.dom().contains(i) && #[trigger] f(i) == b;
            assert(q.contains_key(i) && q[i] == b);
            assert(is_queued(q, b));
        }
    }
    assert(vstd::relations::injective_on(f, q.dom())) by {
        assert forall|x: u32, y: u32| q.dom().contains(x) && q.dom().contains(y) && #[trigger] f(x)
            == #[trigger] f(y) implies x == y by {
            if x != y {
                assert(q.contains_key(x) && q.contains_key(y));
            }
        }
    }
    vstd::set_lib::lemma_map_size(q.dom(), key_batches(keys), f);
}

/// Filling an empty queue from keys grouped by batch, with steps that
/// stop only because the keys ran out, queues each batch of the keys
/// exactly once and nothing else, at the positions from zero up to the
/// number of batches.
pub proof fn lemma_v2_queues_each_batch_once(
    keys: Seq<SubmissionKeyView>,
    consumed: Weight,
    limit: Weight,
    required: Weight,
)
    requires
        grouped(keys),
        keys.len() < u32::MAX,
    ensures
        ({
            let w = v2_walk(Map::empty(), keys, 0, consumed, limit, required, 0);
            fits(consumed, limit, required, w.2 + 1) ==> {
                &&& forall|b: Seq<u8>| is_queued(w.0, b) <==> key_batches(keys).contains(b)
                &&& queued_once(w.0)
                &&& positions_from_zero(w.0)
                &&& w.0.dom().len() == key_batches(keys).len()
            }
        }),
{
    let q = Map::<u32, Seq<u8>>::empty();
    lemma_v2_progress_at_start(keys);
    assert(q.dom() =~= Set::<u32>::empty());
    lemma_walk_once(q, keys, 0, consumed, limit, required, 0);
    let w = v2_walk(q, keys, 0, consumed, limit, required, 0);
    if fits(consumed, limit, required, w.2 + 1) {
        lemma_v2_progress_at_end(w.0, keys);
    }
}

/// Fills the batch queue from the current submissions storage, one batch
/// per run of keys of the same batch, in storage order.
pub struct LazyMigrationV2;

impl LazyMigrationV2 {
    /// This migration's identifier: from storage version 1 to 2.
    pub fn id() -> (r: MigrationId)
        ensures
            r.pallet_id@ == spec_pallet_migrations_id(),
            r.version_from == 1,
            r.version_to == 2,
    {
        MigrationId { pallet_id: pallet_migrations_id(), version_from: 1, version_to: 2 }
    }

    /// Walks the submissions keys after `cursor`, `keys`, in storage order
    /// (all keys when there is no cursor), while the meter has `required`
    /// (the weight of one batch) left: queues the batch of the next key and
    /// skips the other keys of that batch that follow it.  Returns the last
    /// key visited as the cursor, `cursor` itself when no batch was queued,
    /// or `None` when the keys ran out.
    pub fn step(
        pallet: &mut IndexingPallet,
        keys: &Vec<SubmissionKey>,
        cursor: Option<SubmissionKey>,
        meter: &mut WeightMeter,
        required: Weight,
    ) -> (r: Result<Option<SubmissionKey>, SteppedMigrationError>)
        requires
            old(pallet).wf(),
            old(pallet).batch_queue_count() + keys@.len() < u32::MAX,
        ensures
            final(pallet).wf(),
            final(meter).spec_limit() == old(meter).spec_limit(),
            final(pallet).submissions() == old(pallet).submissions(),
            final(pallet).submissions_v0() == old(pallet).submissions_v0(),
            final(pallet).batch_queue_bottom() == old(pallet).batch_queue_bottom(),
            final(pallet).final_data() == old(pallet).final_data(),
            final(pallet).block_numbers() == old(pallet).block_numbers(),
            final(pallet).config() == old(pallet).config(),
            ({
                let c0 = old(meter).spec_consumed();
                let limit = old(meter).spec_limit();
                let ks = keys_view(keys@);
                let walk = v2_walk(old(pallet).batch_queue(), ks, 0, c0, limit, required, 0);
                let t = walk.2;
                if lacks_weight(c0, limit, required) {
                    &&& r == Err::<Option<SubmissionKey>, SteppedMigrationError>(
                        SteppedMigrationError::InsufficientWeight { required },
                    )
                    &&& final(pallet).batch_queue() == old(pallet).batch_queue()
                    &&& *final(meter) == *old(meter)
                } else {
                    &&& final(pallet).batch_queue() == walk.0
                    &&& if fits(c0, limit, required, t + 1) {
                        &&& r matches Ok(None)
                        &&& final(meter).spec_consumed() == consumed_after(c0, required, t + 1)
                    } else {
                        &&& final(meter).spec_consumed() == consumed_after(c0, required, t)
                        &&& r matches Ok(k)
                        &&& if t == 0 {
                            k == cursor
                        } else {
                            k matches Some(kk) && kk@ == ks[walk.1 - 1]
                        }
                    }
                }
            }),
    {
        if meter.remaining().any_lt(required) {
            return Err(SteppedMigrationError::InsufficientWeight { required });
        }
        let ghost pre = *pallet;
        let ghost ks = keys_view(keys@);
        let ghost c0 = meter.spec_consumed();
        let ghost limit = meter.spec_limit();
        let ghost cursor0 = cursor;
        let ghost walk = v2_walk(pre.batch_queue(), ks, 0, c0, limit, required, 0);
        let ghost mut j: int = 0;
        let mut cursor = cursor;
        let mut p: usize = 0;
        proof {
            assert(consumed_after(c0, required, 0) == c0);
            pre.lemma_queue_count();
        }
        loop
            invariant_except_break
                pallet.wf(),
                p <= keys@.len(),
                0 <= j <= p,
                ks == keys_view(keys@),
                v2_walk(pallet.batch_queue(), ks, p as int, c0, limit, required, j) == walk,
                pallet.batch_queue_count() <= pre.batch_queue_count() + j,
                pre.batch_queue_count() + keys@.len() < u32::MAX,
                pallet.submissions() == pre.submissions(),
                pallet.submissions_v0() == pre.submissions_v0(),
                pallet.batch_queue_bottom() == pre.batch_queue_bottom(),
                pallet.final_data() == pre.final_data(),
                pallet.block_numbers() == pre.block_numbers(),
                pallet.config() == pre.config(),
                meter.spec_limit() == limit,
                meter.spec_consumed() == consumed_after(c0, required, j),
                forall|m: int| 0 < m <= j ==> fits(c0, limit, required, m),
                j == 0 ==> cursor == cursor0,
                j > 0 ==> (cursor matches Some(k) && k@ == ks[p - 1]),
            ensures
                pallet.wf(),
                0 <= walk.2,
                pallet.batch_queue() == walk.0,
                pallet.submissions() == pre.submissions(),
                pallet.submissions_v0() == pre.submissions_v0(),
                pallet.batch_queue_bottom() == pre.batch_queue_bottom(),
                pallet.final_data() == pre.final_data(),
                pallet.block_numbers() == pre.block_numbers(),
                pallet.config() == pre.config(),
                meter.spec_limit() == limit,
                if fits(c0, limit, required, walk.2 + 1) {
                    &&& cursor is None
                    &&& meter.spec_consumed() == consumed_after(c0, required, walk.2 + 1)
                } else {
                    &&& meter.spec_consumed() == consumed_after(c0, required, walk.2)
                    &&& walk.2 == 0 ==> cursor == cursor0
                    &&& walk.2 > 0 ==> (cursor matches Some(k) && k@ == ks[walk.1 - 1])
                },
            decreases keys@.len() - p,
        {
            proof {
                lemma_one_more(c0, required, j);
                assert(j * required.ref_time >= 0 && j * required.proof_size >= 0)
                    by (nonlinear_arith)
                    requires
                        j >= 0,
                ;
                if j > 0 {
                    assert(fits(c0, limit, required, j));
                }
                assert(meter.spec_consumed().ref_time == c0.ref_time + j * required.ref_time);
                assert(meter.spec_consumed().proof_size == c0.proof_size + j * required.proof_size);
            }
            match meter.try_consume(required) {
                Ok(()) => {},
                Err(()) => {
                    break;
                },
            }
            if p >= keys.len() {
                cursor = None;
                break;
            }
            let start = p;
            let b = bytes_clone(&keys[p].batch_id);
            proof {
                assert(ks[p as int] == keys@[p as int]@);
                pallet.lemma_queue_count();
                lemma_run_end_after(ks, p as int);
            }
            pallet.queue_at_count(b);
            proof {
                pallet.lemma_queue_count();
            }
            cursor = Some(keys[p].duplicate());
            p = p + 1;
            while p < keys.len() && bytes_eq(&keys[p].batch_id, &keys[start].batch_id)
                invariant
                    start < p <= keys@.len(),
                    ks == keys_view(keys@),
                    run_end(ks, start as int) == run_end(ks, p - 1),
                    cursor matches Some(k) && k@ == ks[p - 1],
                    ks[p - 1].0 == ks[start as int].0,
                decreases keys@.len() - p,
            {
                proof {
                    assert(ks[p as int] == keys@[p as int]@);
                    assert(ks[start as int] == keys@[start as int]@);
                }
                cursor = Some(keys[p].duplicate());
                proof {
                    assert(run_end(ks, p - 1) == run_end(ks, p as int));
                }
                p = p + 1;
            }
            proof {
                if p < keys@.len() {
                    assert(ks[p as int] == keys@[p as int]@);
                    assert(ks[start as int] == keys@[start as int]@);
                }
                assert(run_end(ks, p - 1) == p);
                j = j + 1;
            }
        }
        Ok(cursor)
    }
}

} // verus!
