//! The indexing pallet: indexers submit data for a table's batch, and once
//! more submitters than the table's quorum size agree on a data hash, the
//! batch is decided and its data finalized.

use vstd::prelude::*;

use crate::permissions::{
    permission_view, spec_ensure_root_or_permissioned, IndexingPalletPermission, PermissionLevel,
    PermissionView, PermissionsPallet,
};
use crate::types::{hash_eq, AccountId, DataHash, Origin, TableIdentifier};
use crate::vecmap::{bytes_clone, bytes_eq, MapKey, VecMap};

verus! {

/// The scope of a quorum: tables may have a public and a privileged quorum.
#[derive(Debug, Clone, Copy, PartialEq, Eq)]
pub enum QuorumScope {
    /// Anyone holding the public submit permission takes part.
    Public,
    /// Only holders of the table's privileged permission take part.
    Privileged,
}

/// The quorum sizes of a table, per scope.  A scope without a size takes no
/// submissions.
#[derive(Debug, Clone, Copy, PartialEq, Eq)]
pub struct InsertQuorumSize {
    /// Quorum size of the public scope.
    pub public: Option<u8>,
    /// Quorum size of the privileged scope.
    pub privileged: Option<u8>,
}

/// The quorum size for the given scope.
pub open spec fn spec_of_scope(q: InsertQuorumSize, scope: QuorumScope) -> Option<u8> {
    match scope {
        QuorumScope::Public => q.public,
        QuorumScope::Privileged => q.privileged,
    }
}

impl InsertQuorumSize {
    /// The quorum size for the given scope.
    pub fn of_scope(&self, scope: QuorumScope) -> (r: Option<u8>)
        ensures
            r == spec_of_scope(*self, scope),
    {
        match scope {
            QuorumScope::Public => self.public,
            QuorumScope::Privileged => self.privileged,
        }
    }
}

/// A batch and a scope: the key under which submitters of a batch are kept.
pub struct BatchScope {
    /// The (inner) batch id.
    pub batch_id: Vec<u8>,
    /// The quorum scope.
    pub scope: QuorumScope,
}

impl View for BatchScope {
    type V = (Seq<u8>, QuorumScope);

    open spec fn view(&self) -> (Seq<u8>, QuorumScope) {
        (self.batch_id@, self.scope)
    }
}

impl MapKey for BatchScope {
    fn key_eq(&self, other: &Self) -> (r: bool) {
        let same_scope = match (self.scope, other.scope) {
            (QuorumScope::Public, QuorumScope::Public) => true,
            (QuorumScope::Privileged, QuorumScope::Privileged) => true,
            _ => false,
        };
        same_scope && self.batch_id.key_eq(&other.batch_id)
    }

    fn key_clone(&self) -> (r: Self) {
        BatchScope { batch_id: bytes_clone(&self.batch_id), scope: self.scope }
    }
}

/// The submitters of one batch and data hash in the old storage layout,
/// per scope.
#[derive(Debug, Clone, PartialEq, Eq)]
pub struct SubmittersByScope {
    /// Submitters in the public scope.
    pub public: Vec<AccountId>,
    /// Submitters in the privileged scope.
    pub privileged: Vec<AccountId>,
}

impl SubmittersByScope {
    /// The submitters of one scope.
    pub fn iter_scope(&self, scope: QuorumScope) -> (r: &Vec<AccountId>)
        ensures
            r@ == match scope {
                QuorumScope::Public => self.public@,
                QuorumScope::Privileged => self.privileged@,
            },
    {
        match scope {
            QuorumScope::Public => &self.public,
            QuorumScope::Privileged => &self.privileged,
        }
    }

    /// The number of submitters of one scope.
    pub fn len_of_scope(&self, scope: QuorumScope) -> (r: usize)
        ensures
            r == match scope {
                QuorumScope::Public => self.public@.len(),
                QuorumScope::Privileged => self.privileged@.len(),
            },
    {
        self.iter_scope(scope).len()
    }
}

/// An entry of the old (version 0) submissions storage: the submitters of
/// one batch that submitted one data hash.
#[derive(Debug, Clone, PartialEq, Eq)]
pub struct SubmissionV0 {
    /// The (inner) batch id.
    pub batch_id: Vec<u8>,
    /// The submitted data hash.
    pub data_hash: DataHash,
    /// Who submitted it, per scope.
    pub submitters: SubmittersByScope,
}

/// The view of an old submissions entry: batch, hash, public and
/// privileged submitters.
pub type SubmissionV0View = (Seq<u8>, DataHash, Seq<AccountId>, Seq<AccountId>);

impl View for SubmissionV0 {
    type V = SubmissionV0View;

    open spec fn view(&self) -> SubmissionV0View {
        (self.batch_id@, self.data_hash, self.submitters.public@, self.submitters.privileged@)
    }
}

/// The views of the old submissions entries.
pub open spec fn v0_entries_view(v: Seq<SubmissionV0>) -> Seq<SubmissionV0View> {
    v.map_values(|e: SubmissionV0| e@)
}

/// No two old entries share a batch and a hash.
pub open spec fn v0_keys_unique(es: Seq<SubmissionV0View>) -> bool {
    forall|i: int, j: int|
        0 <= i < es.len() && 0 <= j < es.len() && i != j ==> (es[i].0 != es[j].0 || es[i].1 != es[j].1)
}

/// The decision on a batch.
#[derive(Debug, Clone, PartialEq, Eq)]
pub struct DataQuorum {
    /// The table the data is for.
    pub table: TableIdentifier,
    /// The (inner) batch id.
    pub batch_id: Vec<u8>,
    /// The hash that the quorum agreed on.
    pub data_hash: DataHash,
    /// The block at which the quorum was reached.
    pub block_number: u64,
    /// Submitters that agreed on `data_hash`, in ascending order.
    pub agreements: Vec<AccountId>,
    /// Submitters that submitted another hash, in ascending order.
    pub dissents: Vec<AccountId>,
    /// The scope in which the quorum was reached.
    pub quorum_scope: QuorumScope,
}

/// A submission as announced in events: only the hash of the data.
#[derive(Debug, Clone, PartialEq, Eq)]
pub struct DataSubmission {
    /// The table the data is for.
    pub table: TableIdentifier,
    /// The (inner) batch id.
    pub batch_id: Vec<u8>,
    /// The hash of the submitted data.
    pub data_hash: DataHash,
    /// The scope the submission counts for.
    pub quorum_scope: QuorumScope,
}

/// Errors of the indexing pallet.
#[derive(Debug, Clone, Copy, PartialEq, Eq)]
pub enum IndexingError {
    /// The origin is not a signed account.
    BadOrigin,
    /// The signer of the transaction is not authorized to submit data.
    UnauthorizedSubmitter,
    /// No data was provided with the submission.
    NoData,
    /// An empty batch id was provided.
    InvalidBatch,
    /// The batch has already been decided on.
    LateBatch,
    /// This account has already submitted data for this batch.
    AlreadySubmitted,
    /// An invalid table identifier was supplied.
    InvalidTable,
    /// The maximum number of submitters for this batch is reached.
    MaxSubmittersReached,
    /// The table's treasury cannot pay the refunds.
    InsufficientTableFunds,
    /// The submitted data could not be turned into a table insert; the
    /// payload names the stage that failed.
    InsertProcessing(u8),
}

/// Events of the indexing pallet.
#[derive(Debug, Clone, PartialEq, Eq)]
pub enum IndexingEvent {
    /// Data was submitted by an indexer.
    DataSubmitted { who: AccountId, submission: DataSubmission },
    /// Quorum was reached and the data finalized.
    QuorumReached { quorum: DataQuorum, data: Vec<u8> },
    /// Quorum was reached for an insert of no rows.
    QuorumEmptyBlock {
        table: TableIdentifier,
        block_number: u64,
        agreements: Vec<AccountId>,
        dissents: Vec<AccountId>,
    },
    /// A system table insert reached quorum and was processed.
    SystemTableUpdate { table: TableIdentifier, data: Vec<u8> },
    /// A system table insert reached quorum but its processing failed.
    SystemTableError { table: TableIdentifier, error: u8, data: Vec<u8> },
    /// Batches were pruned from the batch queue.
    BatchQueuePruned { num_pruned: u32 },
    /// The participants of a decided batch are refunded from the table's
    /// treasury: `refund` in all, by the transfers `payouts`.
    RefundIssued {
        table: TableIdentifier,
        batch_id: Vec<u8>,
        treasury: AccountId,
        refund: u128,
        payouts: Vec<(AccountId, u128)>,
    },
    /// The table's treasury cannot pay the refunds of a decided batch; the
    /// batch is decided all the same.
    InsufficientTableFunds { table: TableIdentifier, batch_id: Vec<u8>, treasury: AccountId },
    /// A refund transfer to `recipient` failed.
    RefundError { recipient: AccountId, refund: u128 },
}

/// The pallet's configured limits.
#[derive(Debug, Clone, Copy, PartialEq, Eq)]
pub struct IndexingConfig {
    /// The most submitters a batch can have in one scope.
    pub max_submitters: u32,
    /// The most batches that may be finding quorum at any given time.
    pub max_batches_finding_quorum: u32,
    /// The most batches pruned per block.
    pub max_batches_pruned: u32,
}

/// The view of a map of submitters to hashes.
pub type SubmittersView = Map<AccountId, DataHash>;

/// Submitters in `m` whose hash is `h`.
pub open spec fn agreeing(m: SubmittersView, h: DataHash) -> Set<AccountId> {
    m.dom().filter(|a: AccountId| m[a]@ == h@)
}

/// Submitters in `m` whose hash is not `h`.
pub open spec fn dissenting(m: SubmittersView, h: DataHash) -> Set<AccountId> {
    m.dom().filter(|a: AccountId| m[a]@ != h@)
}

/// The indexing pallet's storage.
pub struct IndexingPallet {
    submissions: VecMap<BatchScope, VecMap<AccountId, DataHash>>,
    batch_queue: VecMap<u32, Vec<u8>>,
    batch_queue_bottom: u32,
    final_data: VecMap<Vec<u8>, DataQuorum>,
    block_numbers: VecMap<TableIdentifier, u64>,
    submissions_v0: Vec<SubmissionV0>,
    config: IndexingConfig,
}

} // verus!

verus! {

/// Whether `b` has a submission in either scope.
pub open spec fn spec_has_batch(
    subs: Map<(Seq<u8>, QuorumScope), SubmittersView>,
    b: Seq<u8>,
) -> bool {
    subs.contains_key((b, QuorumScope::Public)) || subs.contains_key((b, QuorumScope::Privileged))
}

/// The submitters of a batch in one scope, or none.
pub open spec fn spec_submitters(
    subs: Map<(Seq<u8>, QuorumScope), SubmittersView>,
    b: Seq<u8>,
    scope: QuorumScope,
) -> SubmittersView {
    if subs.contains_key((b, scope)) {
        subs[(b, scope)]
    } else {
        Map::empty()
    }
}

/// Whether `agreements` and `dissents` list exactly the agreeing and the
/// dissenting submitters of `m`, each once, in any order.
pub open spec fn splits(
    m: SubmittersView,
    h: DataHash,
    agreements: Seq<AccountId>,
    dissents: Seq<AccountId>,
) -> bool {
    &&& agreements.no_duplicates()
    &&& dissents.no_duplicates()
    &&& agreements.to_set() == agreeing(m, h)
    &&& dissents.to_set() == dissenting(m, h)
}

/// Whether the accounts of `s` are in strictly ascending order.
pub open spec fn ascending(s: Seq<AccountId>) -> bool {
    forall|i: int, j: int| 0 <= i < j < s.len() ==> s[i] < s[j]
}

/// Whether `agreements` and `dissents` list exactly the agreeing and the
/// dissenting submitters of `m`, each once, in ascending order.
pub open spec fn partitions(
    m: SubmittersView,
    h: DataHash,
    agreements: Seq<AccountId>,
    dissents: Seq<AccountId>,
) -> bool {
    &&& splits(m, h, agreements, dissents)
    &&& ascending(agreements)
    &&& ascending(dissents)
}

/// The accounts of `v`, which are distinct, in ascending order.
fn sort_accounts(v: &Vec<AccountId>) -> (r: Vec<AccountId>)
    requires
        v@.no_duplicates(),
    ensures
        r@.to_set() == v@.to_set(),
        r@.no_duplicates(),
        r@.len() == v@.len(),
        ascending(r@),
{
    let mut r: Vec<AccountId> = Vec::new();
    let mut i: usize = 0;
    while i < v.len()
        invariant
            i <= v@.len(),
            v@.no_duplicates(),
            ascending(r@),
            r@.len() == i,
            forall|a: AccountId| r@.contains(a) <==> v@.take(i as int).contains(a),
        decreases v.len() - i,
    {
        let x = v[i];
        assert(!r@.contains(x)) by {
            if v@.take(i as int).contains(x) {
                let j = choose|j: int| 0 <= j < i && v@.take(i as int)[j] == x;
                assert(v@[j] == v@[i as int]);
            }
        }
        let mut p: usize = 0;
        while p < r.len() && r[p] < x
            invariant
                p <= r@.len(),
                forall|j: int| 0 <= j < p ==> r@[j] < x,
            decreases r.len() - p,
        {
            p += 1;
        }
        let ghost old_r = r@;
        proof {
            if p < old_r.len() {
                assert(old_r[p as int] != x);
                assert forall|j: int| p <= j < old_r.len() implies old_r[j] > x by {
                    if j > p {
                        assert(old_r[p as int] < old_r[j]);
                    }
                }
            }
        }
        r.insert(p, x);
        proof {
            assert(r@ == old_r.insert(p as int, x));
            assert forall|a: int, b: int| 0 <= a < b < r@.len() implies r@[a] < r@[b] by {
                if b < p {
                } else if b == p {
                } else if a < p {
                    assert(r@[b] == old_r[b - 1]);
                } else if a == p {
                    assert(r@[b] == old_r[b - 1]);
                } else {
                    assert(r@[a] == old_r[a - 1] && r@[b] == old_r[b - 1]);
                }
            }
            assert(v@.take(i + 1) =~= v@.take(i as int).push(x));
            assert forall|a: AccountId| r@.contains(a) <==> v@.take(i + 1).contains(a) by {
                let t0 = v@.take(i as int);
                let t1 = v@.take(i + 1);
                if r@.contains(a) {
                    let k = choose|k: int| 0 <= k < r@.len() && r@[k] == a;
                    if k != p {
                        let kk = if k < p { k } else { k - 1 };
                        assert(old_r[kk] == a);
                        assert(old_r.contains(a));
                        let j = choose|j: int| 0 <= j < t0.len() && t0[j] == a;
                        assert(t1[j] == a);
                    } else {
                        assert(t1[i as int] == a);
                    }
                }
                if t1.contains(a) {
                    let j = choose|j: int| 0 <= j < t1.len() && t1[j] == a;
                    if j < i {
                        assert(t0[j] == a);
                        assert(old_r.contains(a));
                        let k = choose|k: int| 0 <= k < old_r.len() && old_r[k] == a;
                        let kk = if k < p { k } else { k + 1 };
                        assert(r@[kk] == a);
                    } else {
                        assert(r@[p as int] == a);
                    }
                }
            }
        }
        i += 1;
    }
    proof {
        assert(v@.take(v@.len() as int) =~= v@);
        assert(r@.to_set() =~= v@.to_set());
        assert forall|a: int, b: int| 0 <= a < r@.len() && 0 <= b < r@.len() && a != b implies r@[a]
            != r@[b] by {
            if a < b {
            } else {
            }
        }
    }
    r
}

impl IndexingPallet {
    /// Submitters of each batch and scope, with the hash each submitted.
    pub closed spec fn submissions(&self) -> Map<(Seq<u8>, QuorumScope), SubmittersView> {
        self.submissions@.map_values(|m: VecMap<AccountId, DataHash>| m@)
    }

    /// Batches finding quorum, by queue position.
    pub closed spec fn batch_queue(&self) -> Map<u32, Seq<u8>> {
        self.batch_queue@.map_values(|b: Vec<u8>| b@)
    }

    /// The number of batches in the queue.
    pub closed spec fn batch_queue_count(&self) -> nat {
        self.batch_queue.spec_len()
    }

    /// The queue position of the oldest batch still finding quorum.
    pub closed spec fn batch_queue_bottom(&self) -> u32 {
        self.batch_queue_bottom
    }

    /// Decided batches and their quorums.
    pub closed spec fn final_data(&self) -> Map<Seq<u8>, DataQuorum> {
        self.final_data@
    }

    /// The latest indexed block of each table.
    pub closed spec fn block_numbers(&self) -> Map<(Seq<u8>, Seq<u8>), u64> {
        self.block_numbers@
    }

    /// The entries of the old submissions storage, in storage order.
    pub closed spec fn submissions_v0(&self) -> Seq<SubmissionV0View> {
        v0_entries_view(self.submissions_v0@)
    }

    /// The configured limits.
    pub closed spec fn config(&self) -> IndexingConfig {
        self.config
    }

    /// The storage is consistent: keys are unique, every stored batch has a
    /// submitter, and no batch has more submitters than allowed.
    pub closed spec fn wf(&self) -> bool {
        &&& self.submissions.wf()
        &&& forall|k: (Seq<u8>, QuorumScope)| #[trigger]
            self.submissions@.contains_key(k) ==> {
                let m = self.submissions@[k];
                &&& m.wf()
                &&& 0 < m.spec_len() <= self.config.max_submitters
            }
        &&& self.batch_queue.wf()
        &&& self.final_data.wf()
        &&& self.block_numbers.wf()
        &&& v0_keys_unique(v0_entries_view(self.submissions_v0@))
        &&& self.config.max_submitters < 256
    }

    /// A pallet with empty storage.
    pub fn new(config: IndexingConfig) -> (r: Self)
        requires
            config.max_submitters < 256,
        ensures
            r.wf(),
            r.config() == config,
            r.submissions() == Map::<(Seq<u8>, QuorumScope), SubmittersView>::empty(),
            r.batch_queue() == Map::<u32, Seq<u8>>::empty(),
            r.batch_queue_bottom() == 0,
            r.final_data() == Map::<Seq<u8>, DataQuorum>::empty(),
            r.block_numbers() == Map::<(Seq<u8>, Seq<u8>), u64>::empty(),
            r.submissions_v0() == Seq::<SubmissionV0View>::empty(),
    {
        let r = IndexingPallet {
            submissions: VecMap::new(),
            batch_queue: VecMap::new(),
            batch_queue_bottom: 0,
            final_data: VecMap::new(),
            block_numbers: VecMap::new(),
            submissions_v0: Vec::new(),
            config,
        };
        assert(r.submissions_v0() =~= Seq::<SubmissionV0View>::empty());
        assert(r.submissions() =~= Map::<(Seq<u8>, QuorumScope), SubmittersView>::empty());
        assert(r.batch_queue() =~= Map::<u32, Seq<u8>>::empty());
        r
    }

    /// The batch at a queue position, if any.
    pub fn batch_queue_get(&self, index: u32) -> (r: Option<Vec<u8>>)
        requires
            self.wf(),
        ensures
            r is Some <==> self.batch_queue().contains_key(index),
            r matches Some(b) ==> b@ == self.batch_queue()[index],
    {
        match self.batch_queue.get(&index) {
            Some(b) => Some(bytes_clone(b)),
            None => None,
        }
    }

    /// The number of batches in the queue.
    pub fn batch_queue_len(&self) -> (r: usize)
        ensures
            r == self.batch_queue_count(),
    {
        self.batch_queue.len()
    }

    /// Whether a new batch can still be given a queue position.
    pub fn has_queue_room(&self) -> (r: bool)
        ensures
            r == (self.batch_queue_bottom() as int + self.batch_queue_count() < u32::MAX),
    {
        self.batch_queue.len() < (u32::MAX - self.batch_queue_bottom) as usize
    }

    /// The latest indexed block of a table, if recorded.
    pub fn block_number_of(&self, table: &TableIdentifier) -> (r: Option<u64>)
        requires
            self.wf(),
        ensures
            r is Some <==> self.block_numbers().contains_key(table@),
            r matches Some(n) ==> n == self.block_numbers()[table@],
    {
        match self.block_numbers.get(table) {
            Some(n) => Some(*n),
            None => None,
        }
    }

    /// Whether a batch has been decided.
    pub fn is_decided(&self, batch_id: &Vec<u8>) -> (r: bool)
        requires
            self.wf(),
        ensures
            r == self.final_data().contains_key(batch_id@),
    {
        self.final_data.contains_key(batch_id)
    }

    /// The quorum decided on a batch, if any.
    pub fn final_data_of(&self, batch_id: &Vec<u8>) -> (r: Option<DataQuorum>)
        requires
            self.wf(),
        ensures
            r is Some <==> self.final_data().contains_key(batch_id@),
            r matches Some(q) ==> {
                let f = self.final_data()[batch_id@];
                &&& q.table@ == f.table@
                &&& q.batch_id@ == f.batch_id@
                &&& q.data_hash == f.data_hash
                &&& q.block_number == f.block_number
                &&& q.agreements@ == f.agreements@
                &&& q.dissents@ == f.dissents@
                &&& q.quorum_scope == f.quorum_scope
            },
    {
        match self.final_data.get(batch_id) {
            Some(q) => Some(q.duplicate()),
            None => None,
        }
    }

    /// The hash that `who` submitted for a batch in a scope, if any.
    pub fn submission_of(&self, batch_id: &Vec<u8>, scope: QuorumScope, who: AccountId) -> (r:
        Option<DataHash>)
        requires
            self.wf(),
        ensures
            r is Some <==> spec_submitters(self.submissions(), batch_id@, scope).contains_key(who),
            r matches Some(h) ==> h == spec_submitters(self.submissions(), batch_id@, scope)[who],
    {
        let key = BatchScope { batch_id: bytes_clone(batch_id), scope };
        match self.submissions.get(&key) {
            Some(m) => match m.get(&who) {
                Some(h) => Some(*h),
                None => None,
            },
            None => {
                assert(spec_submitters(self.submissions(), batch_id@, scope) =~= Map::empty());
                None
            },
        }
    }

    fn has_batch(&self, batch_id: &Vec<u8>) -> (r: bool)
        requires
            self.wf(),
        ensures
            r == spec_has_batch(self.submissions(), batch_id@),
    {
        let public = BatchScope { batch_id: bytes_clone(batch_id), scope: QuorumScope::Public };
        let privileged = BatchScope {
            batch_id: bytes_clone(batch_id),
            scope: QuorumScope::Privileged,
        };
        self.submissions.contains_key(&public) || self.submissions.contains_key(&privileged)
    }
}

/// Splits the submitters of `m` into those that submitted `h` and the rest.
fn partition_submitters(m: &VecMap<AccountId, DataHash>, h: &DataHash) -> (r: (
    Vec<AccountId>,
    Vec<AccountId>,
))
    requires
        m.wf(),
    ensures
        splits(m@, *h, r.0@, r.1@),
{
    let mut agreements: Vec<AccountId> = Vec::new();
    let mut dissents: Vec<AccountId> = Vec::new();
    let n = m.len();
    proof {
        m.lemma_len();
    }
    let ghost ks = m.key_seq();
    let mut i: usize = 0;
    while i < n
        invariant
            m.wf(),
            n == m.spec_len(),
            ks == m.key_seq(),
            ks.len() == n,
            ks.no_duplicates(),
            m@.dom() == ks.to_set(),
            i <= n,
            agreements@.no_duplicates(),
            dissents@.no_duplicates(),
            forall|a: AccountId|
                agreements@.contains(a) <==> (ks.take(i as int).contains(a) && m@[a]@ == h@),
            forall|a: AccountId|
                dissents@.contains(a) <==> (ks.take(i as int).contains(a) && m@[a]@ != h@),
        decreases n - i,
    {
        let (k, v) = m.entry(i);
        let ghost kk = *k;
        proof {
            assert(!ks.take(i as int).contains(kk)) by {
                if ks.take(i as int).contains(kk) {
                    let j = choose|j: int| 0 <= j < i && ks.take(i as int)[j] == kk;
                    assert(ks[j] == ks[i as int]);
                }
            }
            assert(ks.take(i + 1) =~= ks.take(i as int).push(kk));
            let t0 = ks.take(i as int);
            let t1 = ks.take(i + 1);
            assert forall|a: AccountId| t1.contains(a) <==> (t0.contains(a) || a == kk) by {
                if t1.contains(a) && a != kk {
                    let j = choose|j: int| 0 <= j < t1.len() && t1[j] == a;
                    assert(t0[j] == a);
                }
                if t0.contains(a) {
                    let j = choose|j: int| 0 <= j < t0.len() && t0[j] == a;
                    assert(t1[j] == a);
                }
                if a == kk {
                    assert(t1[i as int] == a);
                }
            }
        }
        let ghost old_a = agreements@;
        let ghost old_d = dissents@;
        assert(!old_a.contains(kk));
        assert(!old_d.contains(kk));
        assert(m@[kk] == *v);
        if hash_eq(v, h) {
            agreements.push(*k);
            proof {
                assert forall|x: int, y: int| 0 <= x < y < agreements@.len() implies agreements@[x]
                    != agreements@[y] by {
                    if y == old_a.len() {
                        assert(old_a.contains(old_a[x]));
                    }
                }
                assert forall|a: AccountId| agreements@.contains(a) <==> (old_a.contains(a) || a
                    == kk) by {
                    if agreements@.contains(a) && a != kk {
                        let j = choose|j: int| 0 <= j < agreements@.len() && agreements@[j] == a;
                        assert(old_a[j] == a);
                    }
                    if old_a.contains(a) {
                        let j = choose|j: int| 0 <= j < old_a.len() && old_a[j] == a;
                        assert(agreements@[j] == a);
                    }
                    if a == kk {
                        assert(agreements@[old_a.len() as int] == a);
                    }
                }
                assert(dissents@ == old_d);
                assert forall|a: AccountId| agreements@.contains(a) <==> (ks.take(i + 1).contains(a)
                    && m@[a]@ == h@) by {
                    assert(ks.take(i + 1).contains(a) <==> (ks.take(i as int).contains(a) || a == kk));
                    assert(old_a.contains(a) <==> (ks.take(i as int).contains(a) && m@[a]@ == h@));
                    if a == kk {
                        assert(m@[a]@ == (*v)@);
                    }
                }
                assert forall|a: AccountId| dissents@.contains(a) <==> (ks.take(i + 1).contains(a)
                    && m@[a]@ != h@) by {
                    assert(ks.take(i + 1).contains(a) <==> (ks.take(i as int).contains(a) || a == kk));
                }
            }
        } else {
            dissents.push(*k);
            proof {
                assert forall|x: int, y: int| 0 <= x < y < dissents@.len() implies dissents@[x]
                    != dissents@[y] by {
                    if y == old_d.len() {
                        assert(old_d.contains(old_d[x]));
                    }
                }
                assert forall|a: AccountId| dissents@.contains(a) <==> (old_d.contains(a) || a
                    == kk) by {
                    if dissents@.contains(a) && a != kk {
                        let j = choose|j: int| 0 <= j < dissents@.len() && dissents@[j] == a;
                        assert(old_d[j] == a);
                    }
                    if old_d.contains(a) {
                        let j = choose|j: int| 0 <= j < old_d.len() && old_d[j] == a;
                        assert(dissents@[j] == a);
                    }
                    if a == kk {
                        assert(dissents@[old_d.len() as int] == a);
                    }
                }
                assert(agreements@ == old_a);
                assert forall|a: AccountId| agreements@.contains(a) <==> (ks.take(i + 1).contains(a)
                    && m@[a]@ == h@) by {
                    assert(ks.take(i + 1).contains(a) <==> (ks.take(i as int).contains(a) || a == kk));
                }
                assert forall|a: AccountId| dissents@.contains(a) <==> (ks.take(i + 1).contains(a)
                    && m@[a]@ != h@) by {
                    assert(ks.take(i + 1).contains(a) <==> (ks.take(i as int).contains(a) || a == kk));
                    assert(old_d.contains(a) <==> (ks.take(i as int).contains(a) && m@[a]@ != h@));
                    if a == kk {
                        assert(m@[a]@ == (*v)@);
                    }
                }
            }
        }
        i += 1;
    }
    proof {
        assert(ks.take(n as int) =~= ks);
        assert(agreements@.to_set() =~= agreeing(m@, *h));
        assert(dissents@.to_set() =~= dissenting(m@, *h));
    }
    (agreements, dissents)
}

} // verus!

verus! {

/// What the runtime knows about a submission that the pallet itself does
/// not store: the table's settings in the tables pallet, the hashes the
/// runtime computed, and the current block.
pub struct SubmissionContext {
    /// The current block number.
    pub current_block: u64,
    /// The table's insert quorum sizes.
    pub insert_quorum: InsertQuorumSize,
    /// Whether the table is public and permissionless.
    pub is_permissionless: bool,
    /// Whether the table has a schema.
    pub schema_exists: bool,
    /// Whether the table is a staking system table.
    pub is_staking_table: bool,
    /// The batch id under which the submission is kept: the runtime's hash
    /// of the table and the submitted batch id.
    pub inner_batch_id: Vec<u8>,
    /// The runtime's hash of the data and the block number.
    pub data_hash: DataHash,
}

/// The insert that finalizing a batch produces, as the runtime computed it
/// from the submitted data.
pub struct ProcessedInsert {
    /// Number of rows inserted.
    pub num_rows: u64,
    /// The largest block number in the data's block-number column, if any.
    pub max_block_number: Option<u64>,
    /// The serialized insert with its commitment metadata columns.
    pub data: Vec<u8>,
}

/// Results of the runtime's work when a batch is finalized.
pub struct FinalizeInputs {
    /// The insert produced from the data, or the code of the stage that
    /// stopped it (decoding, permissionless column, commitments,
    /// serialization).
    pub insert: Result<ProcessedInsert, u8>,
    /// For staking tables: the outcome of processing the system table insert.
    pub system_table_result: Result<(), u8>,
    /// What each participant of the quorum is owed back: the fee of a
    /// submission.
    pub base_refund: u128,
    /// The table's treasury account and its free balance, if the table has
    /// a treasury account.
    pub treasury: Option<(AccountId, u128)>,
}

/// Whether `origin` may submit for the public and for the privileged quorum.
pub open spec fn spec_can_submit(
    perms: Map<AccountId, Seq<PermissionView>>,
    who: AccountId,
    table: (Seq<u8>, Seq<u8>),
    q: InsertQuorumSize,
) -> (bool, bool) {
    (
        spec_ensure_root_or_permissioned(
            perms,
            Origin::Signed(who),
            PermissionView::SubmitDataForPublicQuorum,
        ) is Ok && q.public is Some,
        spec_ensure_root_or_permissioned(
            perms,
            Origin::Signed(who),
            PermissionView::SubmitDataForPrivilegedQuorum(table),
        ) is Ok && q.privileged is Some,
    )
}

/// The checks made before a submission is recorded: on success, the signer
/// and the scope the submission counts for.
pub open spec fn spec_precheck(
    final_data: Map<Seq<u8>, DataQuorum>,
    perms: Map<AccountId, Seq<PermissionView>>,
    origin: Origin,
    table: (Seq<u8>, Seq<u8>),
    outer_batch_id: Seq<u8>,
    data: Seq<u8>,
    ctx: SubmissionContext,
) -> Result<(AccountId, QuorumScope), IndexingError> {
    match origin {
        Origin::Signed(who) => {
            let (can_public, can_privileged) = spec_can_submit(perms, who, table, ctx.insert_quorum);
            if !(can_public || can_privileged || ctx.is_permissionless) {
                Err(IndexingError::UnauthorizedSubmitter)
            } else if final_data.contains_key(outer_batch_id) && final_data[outer_batch_id].table@
                == table {
                Err(IndexingError::LateBatch)
            } else if outer_batch_id.len() == 0 {
                Err(IndexingError::InvalidBatch)
            } else if final_data.contains_key(ctx.inner_batch_id@) {
                Err(IndexingError::LateBatch)
            } else if table.0.len() == 0 || table.1.len() == 0 {
                Err(IndexingError::InvalidTable)
            } else if data.len() == 0 {
                Err(IndexingError::NoData)
            } else if !ctx.schema_exists {
                Err(IndexingError::InvalidTable)
            } else if can_privileged {
                Ok((who, QuorumScope::Privileged))
            } else {
                Ok((who, QuorumScope::Public))
            }
        },
        _ => Err(IndexingError::BadOrigin),
    }
}

/// Whether `q` is the quorum decided on a batch.
pub open spec fn is_decided_quorum(
    q: DataQuorum,
    table: (Seq<u8>, Seq<u8>),
    batch_id: Seq<u8>,
    data_hash: DataHash,
    block_number: u64,
    submitters: SubmittersView,
    scope: QuorumScope,
) -> bool {
    &&& q.table@ == table
    &&& q.batch_id@ == batch_id
    &&& q.data_hash == data_hash
    &&& q.block_number == block_number
    &&& q.quorum_scope == scope
    &&& partitions(submitters, data_hash, q.agreements@, q.dissents@)
}

/// A copy of a list of accounts.
pub fn accounts_copy(v: &Vec<AccountId>) -> (r: Vec<AccountId>)
    ensures
        r@ == v@,
{
    let mut r: Vec<AccountId> = Vec::new();
    let mut i: usize = 0;
    while i < v.len()
        invariant
            i <= v.len(),
            r@ == v@.take(i as int),
        decreases v.len() - i,
    {
        r.push(v[i]);
        i += 1;
        assert(r@ =~= v@.take(i as int));
    }
    assert(v@.take(v.len() as int) =~= v@);
    r
}

impl DataQuorum {
    /// A copy of the quorum.
    pub fn duplicate(&self) -> (r: DataQuorum)
        ensures
            r.table@ == self.table@,
            r.batch_id@ == self.batch_id@,
            r.data_hash == self.data_hash,
            r.block_number == self.block_number,
            r.agreements@ == self.agreements@,
            r.dissents@ == self.dissents@,
            r.quorum_scope == self.quorum_scope,
    {
        DataQuorum {
            table: self.table.duplicate(),
            batch_id: bytes_clone(&self.batch_id),
            data_hash: self.data_hash,
            block_number: self.block_number,
            agreements: accounts_copy(&self.agreements),
            dissents: accounts_copy(&self.dissents),
            quorum_scope: self.quorum_scope,
        }
    }
}

} // verus!

verus! {

/// The storage views of two pallets agree.
pub open spec fn same_storage(a: IndexingPallet, b: IndexingPallet) -> bool {
    &&& a.submissions() == b.submissions()
    &&& a.batch_queue() == b.batch_queue()
    &&& a.batch_queue_bottom() == b.batch_queue_bottom()
    &&& a.final_data() == b.final_data()
    &&& a.block_numbers() == b.block_numbers()
    &&& a.submissions_v0() == b.submissions_v0()
    &&& a.config() == b.config()
}

/// `e` announces that `who` submitted `hash` for batch `b` of `table` in `scope`.
pub open spec fn is_submitted_event(
    e: IndexingEvent,
    who: AccountId,
    table: (Seq<u8>, Seq<u8>),
    b: Seq<u8>,
    hash: DataHash,
    scope: QuorumScope,
) -> bool {
    e matches IndexingEvent::DataSubmitted { who: w, submission: s } && w == who && s.table@
        == table && s.batch_id@ == b && s.data_hash == hash && s.quorum_scope == scope
}

/// The queue after a submission for batch `b`: a batch seen for the first
/// time is appended.
pub open spec fn queue_after(pre: IndexingPallet, b: Seq<u8>) -> Map<u32, Seq<u8>> {
    if spec_has_batch(pre.submissions(), b) {
        pre.batch_queue()
    } else {
        pre.batch_queue().insert(
            (pre.batch_queue_bottom() + pre.batch_queue_count()) as u32,
            b,
        )
    }
}

/// Whether the agreements on `hash` in `m` exceed the quorum size of `scope`.
pub open spec fn quorum_reached(
    q: InsertQuorumSize,
    scope: QuorumScope,
    m: SubmittersView,
    hash: DataHash,
) -> bool {
    match spec_of_scope(q, scope) {
        Some(size) => agreeing(m, hash).len() > size,
        None => false,
    }
}


/// Whether the sender of a call is charged its fee.
#[derive(Debug, Clone, Copy, PartialEq, Eq)]
pub enum Pays {
    /// The fee is charged.
    Yes,
    /// The fee is not charged.
    No,
}

/// Whether the submitter is charged the fee of a submission that ended with
/// `r`: a late submission, for a batch already decided, is not charged.
pub fn submission_pays_fee(r: &Result<Vec<IndexingEvent>, IndexingError>) -> (p: Pays)
    ensures
        p == (if r matches Err(IndexingError::LateBatch) {
            Pays::No
        } else {
            Pays::Yes
        }),
{
    match r {
        Err(IndexingError::LateBatch) => Pays::No,
        _ => Pays::Yes,
    }
}

/// The transfers that refund a quorum's participants: each agreeing
/// submitter gets the reward amount, then each dissenting one the base
/// refund.
pub open spec fn refund_payouts(
    agreements: Seq<AccountId>,
    dissents: Seq<AccountId>,
    base_refund: u128,
) -> Seq<(AccountId, u128)> {
    agreements.map_values(|a: AccountId| (a, reward_amount(base_refund))) + dissents.map_values(
        |d: AccountId| (d, base_refund),
    )
}

/// Whether `e` is what deciding quorum `q` of batch `b` announces about its
/// refunds, from a treasury with `balance`: the refunds and their transfers
/// if the treasury can pay them all, else that its funds are insufficient.
pub open spec fn is_refund_event(
    e: IndexingEvent,
    table: (Seq<u8>, Seq<u8>),
    b: Seq<u8>,
    treasury: AccountId,
    balance: u128,
    base_refund: u128,
    q: DataQuorum,
) -> bool {
    let total = total_refund(q.agreements@.len() as u128, q.dissents@.len() as u128, base_refund);
    if balance < total {
        e matches IndexingEvent::InsufficientTableFunds { table: t, batch_id: bb, treasury: tr }
            && t@ == table && bb@ == b && tr == treasury
    } else {
        e matches IndexingEvent::RefundIssued {
            table: t,
            batch_id: bb,
            treasury: tr,
            refund,
            payouts,
        } && t@ == table && bb@ == b && tr == treasury && refund == total && payouts@
            == refund_payouts(q.agreements@, q.dissents@, base_refund)
    }
}

/// The outcome of a submission: how storage changes and what is returned.
pub open spec fn submit_outcome(
    pre: IndexingPallet,
    post: IndexingPallet,
    perms: Map<AccountId, Seq<PermissionView>>,
    origin: Origin,
    table: (Seq<u8>, Seq<u8>),
    outer_batch_id: Seq<u8>,
    data: Seq<u8>,
    block_number: Option<u64>,
    ctx: SubmissionContext,
    finalize: FinalizeInputs,
    r: Result<Vec<IndexingEvent>, IndexingError>,
) -> bool {
                                                let b = ctx.inner_batch_id@;
                let hash = ctx.data_hash;
                match spec_precheck(
                    pre.final_data(),
                    perms,
                    origin,
                    table,
                    outer_batch_id,
                    data,
                    ctx,
                ) {
                    Err(e) => r == Err::<Vec<IndexingEvent>, IndexingError>(e) && same_storage(
                        post,
                        pre,
                    ),
                    Ok((who, scope)) => {
                        let m2 = spec_submitters(pre.submissions(), b, scope).insert(who, hash);
                        if spec_submitters(pre.submissions(), b, scope).contains_key(who) {
                            r == Err::<Vec<IndexingEvent>, IndexingError>(
                                IndexingError::AlreadySubmitted,
                            ) && same_storage(post, pre)
                        } else if m2.len() > pre.config().max_submitters {
                            r == Err::<Vec<IndexingEvent>, IndexingError>(
                                IndexingError::MaxSubmittersReached,
                            ) && same_storage(post, pre)
                        } else if !quorum_reached(ctx.insert_quorum, scope, m2, hash) {
                            &&& post.submissions() == pre.submissions().insert((b, scope), m2)
                            &&& post.batch_queue() == queue_after(pre, b)
                            &&& post.batch_queue_bottom() == pre.batch_queue_bottom()
                            &&& post.final_data() == pre.final_data()
                            &&& post.block_numbers() == pre.block_numbers()
                            &&& post.submissions_v0() == pre.submissions_v0()
                            &&& post.config() == pre.config()
                            &&& r matches Ok(events)
                            &&& events@.len() == 1
                            &&& is_submitted_event(events@[0], who, table, b, hash, scope)
                        } else {
                            match finalize.insert {
                                Err(code) => r == Err::<Vec<IndexingEvent>, IndexingError>(
                                    IndexingError::InsertProcessing(code),
                                ) && same_storage(post, pre),
                                Ok(p) => {
                                    &&& post.submissions() == pre.submissions().remove(
                                        (b, QuorumScope::Public),
                                    ).remove((b, QuorumScope::Privileged))
                                    &&& post.batch_queue() == queue_after(pre, b)
                                    &&& post.batch_queue_bottom() == pre.batch_queue_bottom()
                                    &&& post.final_data().contains_key(b)
                                    &&& post.final_data() == pre.final_data().insert(
                                        b,
                                        post.final_data()[b],
                                    )
                                    &&& is_decided_quorum(
                                        post.final_data()[b],
                                        table,
                                        b,
                                        hash,
                                        ctx.current_block,
                                        m2,
                                        scope,
                                    )
                                    &&& post.block_numbers() == match block_number {
                                        Some(n) => pre.block_numbers().insert(table, n),
                                        None => match p.max_block_number {
                                            Some(n) => pre.block_numbers().insert(table, n),
                                            None => pre.block_numbers(),
                                        },
                                    }
                                    &&& post.submissions_v0() == pre.submissions_v0()
                                    &&& post.config() == pre.config()
                                    &&& r matches Ok(events)
                                    &&& events@.len() == (if ctx.is_staking_table {
                                        3int
                                    } else {
                                        2int
                                    }) + (if finalize.treasury is Some {
                                        1int
                                    } else {
                                        0int
                                    })
                                    &&& finalize.treasury matches Some((treasury, balance))
                                        ==> is_refund_event(
                                        events@[events@.len() - 1],
                                        table,
                                        b,
                                        treasury,
                                        balance,
                                        finalize.base_refund,
                                        post.final_data()[b],
                                    )
                                    &&& is_submitted_event(events@[0], who, table, b, hash, scope)
                                    &&& if p.num_rows == 0 {
                                        events@[1] matches IndexingEvent::QuorumEmptyBlock {
                                            table: t,
                                            block_number: n,
                                            agreements: a,
                                            dissents: d,
                                        } && t@ == table && n == match block_number {
                                            Some(n) => n,
                                            None => 0,
                                        } && partitions(m2, hash, a@, d@)
                                    } else {
                                        events@[1] matches IndexingEvent::QuorumReached {
                                            quorum: q,
                                            data: d,
                                        } && d@ == p.data@ && is_decided_quorum(
                                            q,
                                            table,
                                            b,
                                            hash,
                                            ctx.current_block,
                                            m2,
                                            scope,
                                        )
                                    }
                                    &&& ctx.is_staking_table ==> match finalize.system_table_result {
                                        Ok(_) => events@[2] matches IndexingEvent::SystemTableUpdate {
                                            table: t,
                                            data: d,
                                        } && t@ == table && d@ == p.data@,
                                        Err(code) => events@[2] matches IndexingEvent::SystemTableError {
                                            table: t,
                                            error: c,
                                            data: d,
                                        } && t@ == table && c == code && d@ == p.data@,
                                    }
                                },
                            }
                        }
                    },
                }
}

/// The checks that a table, batch and data are reasonable, non-empty
/// values: the batch is not decided, the table has a namespace, a name and
/// a schema, and there is data.
pub open spec fn spec_validate_submission(
    final_data: Map<Seq<u8>, DataQuorum>,
    table: (Seq<u8>, Seq<u8>),
    batch_id: Seq<u8>,
    data: Seq<u8>,
    schema_exists: bool,
) -> Result<(), IndexingError> {
    if final_data.contains_key(batch_id) {
        Err(IndexingError::LateBatch)
    } else if table.0.len() == 0 || table.1.len() == 0 {
        Err(IndexingError::InvalidTable)
    } else if data.len() == 0 {
        Err(IndexingError::NoData)
    } else if !schema_exists {
        Err(IndexingError::InvalidTable)
    } else {
        Ok(())
    }
}

impl IndexingPallet {
    /// Checks that a submission's table, (inner) batch id and data are
    /// reasonable; `schema_exists` is whether the table has a schema.
    pub fn validate_submission(
        &self,
        table: &TableIdentifier,
        batch_id: &Vec<u8>,
        data: &Vec<u8>,
        schema_exists: bool,
    ) -> (r: Result<(), IndexingError>)
        requires
            self.wf(),
        ensures
            r == spec_validate_submission(self.final_data(), table@, batch_id@, data@, schema_exists),
    {
        if self.final_data.contains_key(batch_id) {
            return Err(IndexingError::LateBatch);
        }
        if table.namespace.len() == 0 || table.name.len() == 0 {
            return Err(IndexingError::InvalidTable);
        }
        if data.len() == 0 {
            return Err(IndexingError::NoData);
        }
        if !schema_exists {
            return Err(IndexingError::InvalidTable);
        }
        Ok(())
    }

    fn precheck(
        &self,
        perms: &PermissionsPallet,
        origin: Origin,
        table: &TableIdentifier,
        outer_batch_id: &Vec<u8>,
        data: &Vec<u8>,
        ctx: &SubmissionContext,
    ) -> (r: Result<(AccountId, QuorumScope), IndexingError>)
        requires
            self.wf(),
            perms.wf(),
        ensures
            r == spec_precheck(
                self.final_data(),
                perms@,
                origin,
                table@,
                outer_batch_id@,
                data@,
                *ctx,
            ),
    {
        let who = match origin {
            Origin::Signed(w) => w,
            _ => {
                return Err(IndexingError::BadOrigin);
            },
        };
        let public_perm = PermissionLevel::IndexingPallet(
            IndexingPalletPermission::SubmitDataForPublicQuorum,
        );
        let privileged_perm = PermissionLevel::IndexingPallet(
            IndexingPalletPermission::SubmitDataForPrivilegedQuorum(table.duplicate()),
        );
        proof {
            assert(permission_view(privileged_perm) == PermissionView::SubmitDataForPrivilegedQuorum(
                table@,
            ));
        }
        let can_public = perms.ensure_root_or_permissioned(Origin::Signed(who), &public_perm).is_ok()
            && ctx.insert_quorum.public.is_some();
        let can_privileged = perms.ensure_root_or_permissioned(
            Origin::Signed(who),
            &privileged_perm,
        ).is_ok() && ctx.insert_quorum.privileged.is_some();
        if !(can_public || can_privileged || ctx.is_permissionless) {
            return Err(IndexingError::UnauthorizedSubmitter);
        }
        let legacy_duplicate = match self.final_data.get(outer_batch_id) {
            Some(q) => q.table.key_eq(table),
            None => false,
        };
        if legacy_duplicate {
            return Err(IndexingError::LateBatch);
        }
        if outer_batch_id.len() == 0 {
            return Err(IndexingError::InvalidBatch);
        }
        match self.validate_submission(table, &ctx.inner_batch_id, data, ctx.schema_exists) {
            Ok(()) => {},
            Err(e) => {
                return Err(e);
            },
        }
        if can_privileged {
            Ok((who, QuorumScope::Privileged))
        } else {
            Ok((who, QuorumScope::Public))
        }
    }

    /// Submits data for a batch of a table, and decides the batch once the
    /// submitters agreeing on a hash outnumber the table's quorum size.
    ///
    /// `data` is the submitted record batch; `block_number` is the block the
    /// data covers, if the submitter gave one.  On any error the storage is
    /// left as it was.  On success the events deposited are returned.  When
    /// the batch is decided and the table has a treasury, the last event
    /// either lists the refund transfers to make to every participant, or
    /// says that the treasury cannot pay them; the batch is decided either
    /// way.
    pub fn submit_data_inner(
        &mut self,
        perms: &PermissionsPallet,
        origin: Origin,
        table: TableIdentifier,
        outer_batch_id: Vec<u8>,
        data: &Vec<u8>,
        block_number: Option<u64>,
        ctx: &SubmissionContext,
        finalize: FinalizeInputs,
    ) -> (r: Result<Vec<IndexingEvent>, IndexingError>)
        requires
            old(self).wf(),
            perms.wf(),
            old(self).batch_queue_bottom() as int + old(self).batch_queue_count() < u32::MAX,
        ensures
            final(self).wf(),
            submit_outcome(
                *old(self),
                *final(self),
                perms@,
                origin,
                table@,
                outer_batch_id@,
                data@,
                block_number,
                *ctx,
                finalize,
                r,
            ),
    {
        let (who, scope) = match self.precheck(perms, origin, &table, &outer_batch_id, data, ctx) {
            Ok(x) => x,
            Err(e) => {
                return Err(e);
            },
        };
        let ghost pre = *self;
        let hash = ctx.data_hash;
        let key = BatchScope { batch_id: bytes_clone(&ctx.inner_batch_id), scope };
        let mut m = match self.submissions.get(&key) {
            Some(m) => m.copy(),
            None => VecMap::new(),
        };
        proof {
            if !pre.submissions@.contains_key(key@) {
                assert(spec_submitters(pre.submissions(), key@.0, scope) =~= Map::empty());
            }
        }
        if m.contains_key(&who) {
            return Err(IndexingError::AlreadySubmitted);
        }
        m.insert(who, hash);
        proof {
            m.lemma_len();
        }
        if m.len() as u64 > self.config.max_submitters as u64 {
            return Err(IndexingError::MaxSubmittersReached);
        }
        let (unsorted_agreements, unsorted_dissents) = partition_submitters(&m, &hash);
        let agreements = sort_accounts(&unsorted_agreements);
        let dissents = sort_accounts(&unsorted_dissents);
        proof {
            agreements@.unique_seq_to_set();
            vstd::set_lib::lemma_len_subset(agreeing(m@, hash), m@.dom());
        }
        let reached = match ctx.insert_quorum.of_scope(scope) {
            Some(size) => agreements.len() as u64 > size as u64,
            None => false,
        };
        let processed = if reached {
            match finalize.insert {
                Ok(p) => Some(p),
                Err(code) => {
                    return Err(IndexingError::InsertProcessing(code));
                },
            }
        } else {
            None
        };
        let seen = self.has_batch(&ctx.inner_batch_id);
        if !seen {
            let index = self.batch_queue_bottom + self.batch_queue.len() as u32;
            self.batch_queue.insert(index, bytes_clone(&ctx.inner_batch_id));
        }
        proof {
            assert(self.batch_queue() =~= queue_after(pre, ctx.inner_batch_id@));
        }
        let mut events: Vec<IndexingEvent> = Vec::new();
        events.push(
            IndexingEvent::DataSubmitted {
                who,
                submission: DataSubmission {
                    table: table.duplicate(),
                    batch_id: bytes_clone(&ctx.inner_batch_id),
                    data_hash: hash,
                    quorum_scope: scope,
                },
            },
        );
        match processed {
            None => {
                let ghost mv = m@;
                let ghost mm = m;
                let ghost kv = key@;
                proof {
                    assert(m@.dom().contains(who));
                    assert(m.spec_len() > 0);
                }
                self.submissions.insert(key, m);
                proof {
                    assert forall|k: (Seq<u8>, QuorumScope)| #[trigger]
                        self.submissions@.contains_key(k) implies {
                            let mk = self.submissions@[k];
                            &&& mk.wf()
                            &&& 0 < mk.spec_len() <= self.config.max_submitters
                        } by {
                        if k != kv {
                            assert(pre.submissions@.contains_key(k));
                        }
                    }
                    assert(self.submissions() =~= pre.submissions().insert(
                        (ctx.inner_batch_id@, scope),
                        mv,
                    ));
                }
                Ok(events)
            },
            Some(p) => {
                let public = BatchScope {
                    batch_id: bytes_clone(&ctx.inner_batch_id),
                    scope: QuorumScope::Public,
                };
                let privileged = BatchScope {
                    batch_id: bytes_clone(&ctx.inner_batch_id),
                    scope: QuorumScope::Privileged,
                };
                let _ = self.submissions.remove(&public);
                let _ = self.submissions.remove(&privileged);
                proof {
                    assert forall|k: (Seq<u8>, QuorumScope)| #[trigger]
                        self.submissions@.contains_key(k) implies {
                            let mk = self.submissions@[k];
                            &&& mk.wf()
                            &&& 0 < mk.spec_len() <= self.config.max_submitters
                        } by {
                        assert(pre.submissions@.contains_key(k));
                    }
                    assert(self.submissions() =~= pre.submissions().remove(
                        (ctx.inner_batch_id@, QuorumScope::Public),
                    ).remove((ctx.inner_batch_id@, QuorumScope::Privileged)));
                }
                let quorum = DataQuorum {
                    table: table.duplicate(),
                    batch_id: bytes_clone(&ctx.inner_batch_id),
                    data_hash: hash,
                    block_number: ctx.current_block,
                    agreements,
                    dissents,
                    quorum_scope: scope,
                };
                let recorded = quorum.duplicate();
                self.final_data.insert(bytes_clone(&ctx.inner_batch_id), recorded);
                let latest = match block_number {
                    Some(n) => Some(n),
                    None => p.max_block_number,
                };
                if let Some(n) = latest {
                    self.block_numbers.insert(table.duplicate(), n);
                }
                if p.num_rows == 0 {
                    events.push(
                        IndexingEvent::QuorumEmptyBlock {
                            table: table.duplicate(),
                            block_number: match block_number {
                                Some(n) => n,
                                None => 0,
                            },
                            agreements: accounts_copy(&quorum.agreements),
                            dissents: accounts_copy(&quorum.dissents),
                        },
                    );
                } else {
                    events.push(
                        IndexingEvent::QuorumReached { quorum: quorum.duplicate(), data: bytes_clone(&p.data) },
                    );
                }
                if ctx.is_staking_table {
                    match finalize.system_table_result {
                        Ok(_) => {
                            events.push(
                                IndexingEvent::SystemTableUpdate {
                                    table: table.duplicate(),
                                    data: bytes_clone(&p.data),
                                },
                            );
                        },
                        Err(code) => {
                            events.push(
                                IndexingEvent::SystemTableError {
                                    table: table.duplicate(),
                                    error: code,
                                    data: bytes_clone(&p.data),
                                },
                            );
                        },
                    }
                }
                if let Some((treasury, balance)) = finalize.treasury {
                    let total = total_refund_exec(
                        quorum.agreements.len() as u128,
                        quorum.dissents.len() as u128,
                        finalize.base_refund,
                    );
                    match refund_quorum_participants(
                        &quorum.agreements,
                        &quorum.dissents,
                        finalize.base_refund,
                        Some(balance),
                    ) {
                        Ok(payouts) => {
                            events.push(
                                IndexingEvent::RefundIssued {
                                    table: table.duplicate(),
                                    batch_id: bytes_clone(&ctx.inner_batch_id),
                                    treasury,
                                    refund: total,
                                    payouts,
                                },
                            );
                        },
                        Err(_) => {
                            events.push(
                                IndexingEvent::InsufficientTableFunds {
                                    table: table.duplicate(),
                                    batch_id: bytes_clone(&ctx.inner_batch_id),
                                    treasury,
                                },
                            );
                        },
                    }
                }
                Ok(events)
            },
        }
    }
}

} // verus!

verus! {

/// Batches at queue positions `lo..hi`.
pub open spec fn batches_between(q: Map<u32, Seq<u8>>, lo: int, hi: int) -> Set<Seq<u8>> {
    Set::new(|b: Seq<u8>| exists|j: u32| lo <= j < hi && #[trigger] q.contains_key(j) && q[j] == b)
}

/// The queue without positions `lo..hi`.
pub open spec fn queue_without(q: Map<u32, Seq<u8>>, lo: int, hi: int) -> Map<u32, Seq<u8>> {
    q.restrict(q.dom().filter(|j: u32| !(lo <= j < hi)))
}

/// Submissions without those of the given batches.
pub open spec fn submissions_without(
    subs: Map<(Seq<u8>, QuorumScope), SubmittersView>,
    batches: Set<Seq<u8>>,
) -> Map<(Seq<u8>, QuorumScope), SubmittersView> {
    subs.restrict(subs.dom().filter(|k: (Seq<u8>, QuorumScope)| !batches.contains(k.0)))
}

/// Every account of `accts` mapped to `h`.
pub open spec fn accounts_to(accts: Seq<AccountId>, h: DataHash) -> SubmittersView {
    Map::new(|a: AccountId| accts.contains(a), |a: AccountId| h)
}

/// The submissions after recording that `accts` submitted `h` for batch
/// `b` in `scope`.
pub open spec fn add_submitters(
    subs: Map<(Seq<u8>, QuorumScope), SubmittersView>,
    b: Seq<u8>,
    scope: QuorumScope,
    accts: Seq<AccountId>,
    h: DataHash,
) -> Map<(Seq<u8>, QuorumScope), SubmittersView> {
    if accts.len() == 0 {
        subs
    } else {
        subs.insert((b, scope), spec_submitters(subs, b, scope).union_prefer_right(accounts_to(accts, h)))
    }
}

/// The submissions after moving one old entry into them: its public, then
/// its privileged submitters.
pub open spec fn apply_v0(
    subs: Map<(Seq<u8>, QuorumScope), SubmittersView>,
    e: SubmissionV0View,
) -> Map<(Seq<u8>, QuorumScope), SubmittersView> {
    add_submitters(add_submitters(subs, e.0, QuorumScope::Public, e.2, e.1), e.0, QuorumScope::Privileged, e.3, e.1)
}

/// The submissions after moving the old entries `es` into them, in order.
pub open spec fn migrate_v0(
    subs: Map<(Seq<u8>, QuorumScope), SubmittersView>,
    es: Seq<SubmissionV0View>,
) -> Map<(Seq<u8>, QuorumScope), SubmittersView>
    decreases es.len(),
{
    if es.len() == 0 {
        subs
    } else {
        apply_v0(migrate_v0(subs, es.drop_last()), es.last())
    }
}

/// Every submitters map of `b` holds those of `a` under the same key.
pub open spec fn grows(
    a: Map<(Seq<u8>, QuorumScope), SubmittersView>,
    b: Map<(Seq<u8>, QuorumScope), SubmittersView>,
) -> bool {
    forall|k: (Seq<u8>, QuorumScope)| #[trigger]
        a.contains_key(k) ==> b.contains_key(k) && a[k].dom().subset_of(b[k].dom())
}

/// No batch has more than `max` submitters in a scope.
pub open spec fn within_bound(subs: Map<(Seq<u8>, QuorumScope), SubmittersView>, max: u32) -> bool {
    forall|k: (Seq<u8>, QuorumScope)| #[trigger]
        subs.contains_key(k) ==> subs[k].dom().finite() && subs[k].dom().len() <= max
}

proof fn lemma_add_grows(
    subs: Map<(Seq<u8>, QuorumScope), SubmittersView>,
    b: Seq<u8>,
    scope: QuorumScope,
    accts: Seq<AccountId>,
    h: DataHash,
)
    ensures
        grows(subs, add_submitters(subs, b, scope, accts, h)),
{
}

proof fn lemma_grows_trans(
    a: Map<(Seq<u8>, QuorumScope), SubmittersView>,
    b: Map<(Seq<u8>, QuorumScope), SubmittersView>,
    c: Map<(Seq<u8>, QuorumScope), SubmittersView>,
)
    requires
        grows(a, b),
        grows(b, c),
    ensures
        grows(a, c),
{
    assert forall|k: (Seq<u8>, QuorumScope)| #[trigger] a.contains_key(k) implies c.contains_key(k)
        && a[k].dom().subset_of(c[k].dom()) by {
        assert(b.contains_key(k));
    }
}

pub proof fn lemma_bound_of_smaller(
    a: Map<(Seq<u8>, QuorumScope), SubmittersView>,
    b: Map<(Seq<u8>, QuorumScope), SubmittersView>,
    max: u32,
)
    requires
        grows(a, b),
        within_bound(b, max),
    ensures
        within_bound(a, max),
{
    assert forall|k: (Seq<u8>, QuorumScope)| #[trigger] a.contains_key(k) implies a[k].dom().finite()
        && a[k].dom().len() <= max by {
        assert(b.contains_key(k));
        vstd::set_lib::lemma_len_subset(a[k].dom(), b[k].dom());
    }
}

proof fn lemma_apply_grows(subs: Map<(Seq<u8>, QuorumScope), SubmittersView>, e: SubmissionV0View)
    ensures
        grows(subs, add_submitters(subs, e.0, QuorumScope::Public, e.2, e.1)),
        grows(add_submitters(subs, e.0, QuorumScope::Public, e.2, e.1), apply_v0(subs, e)),
        grows(subs, apply_v0(subs, e)),
{
    let mid = add_submitters(subs, e.0, QuorumScope::Public, e.2, e.1);
    lemma_add_grows(subs, e.0, QuorumScope::Public, e.2, e.1);
    lemma_add_grows(mid, e.0, QuorumScope::Privileged, e.3, e.1);
    lemma_grows_trans(subs, mid, apply_v0(subs, e));
}

/// Moving a prefix of the old entries gives each batch a subset of the
/// submitters that moving all of them gives.
pub proof fn lemma_migrate_prefix_grows(
    subs: Map<(Seq<u8>, QuorumScope), SubmittersView>,
    es: Seq<SubmissionV0View>,
    j: int,
)
    requires
        0 <= j <= es.len(),
    ensures
        grows(migrate_v0(subs, es.take(j)), migrate_v0(subs, es)),
    decreases es.len(),
{
    if j == es.len() {
        assert(es.take(j) =~= es);
    } else {
        let init = es.drop_last();
        lemma_migrate_prefix_grows(subs, init, j);
        assert(init.take(j) =~= es.take(j));
        lemma_apply_grows(migrate_v0(subs, init), es.last());
        lemma_grows_trans(migrate_v0(subs, es.take(j)), migrate_v0(subs, init), migrate_v0(subs, es));
    }
}

/// Whether an old entry lists `a` among the submitters of `scope`.
pub open spec fn v0_lists(e: SubmissionV0View, scope: QuorumScope, a: AccountId) -> bool {
    match scope {
        QuorumScope::Public => e.2.contains(a),
        QuorumScope::Privileged => e.3.contains(a),
    }
}

proof fn lemma_apply_at(
    subs: Map<(Seq<u8>, QuorumScope), SubmittersView>,
    e: SubmissionV0View,
    b: Seq<u8>,
    scope: QuorumScope,
    a: AccountId,
)
    ensures
        ({
            let post = spec_submitters(apply_v0(subs, e), b, scope);
            let before = spec_submitters(subs, b, scope);
            if e.0 == b && v0_lists(e, scope, a) {
                post.contains_key(a) && post[a] == e.1
            } else {
                post.contains_key(a) == before.contains_key(a) && (before.contains_key(a)
                    ==> post[a] == before[a])
            }
        }),
{
}

/// Moving the old entries records each old submission with its hash, where
/// no later entry of the same batch lists the same submitter again.
pub proof fn lemma_migrated_submission(
    subs: Map<(Seq<u8>, QuorumScope), SubmittersView>,
    es: Seq<SubmissionV0View>,
    i: int,
    scope: QuorumScope,
    a: AccountId,
)
    requires
        0 <= i < es.len(),
        v0_lists(es[i], scope, a),
        forall|j: int| i < j < es.len() && es[j].0 == es[i].0 ==> !v0_lists(es[j], scope, a),
    ensures
        migrate_v0(subs, es).contains_key((es[i].0, scope)),
        migrate_v0(subs, es)[(es[i].0, scope)].contains_key(a),
        migrate_v0(subs, es)[(es[i].0, scope)][a] == es[i].1,
    decreases es.len(),
{
    let init = es.drop_last();
    let last = es.last();
    lemma_apply_at(migrate_v0(subs, init), last, es[i].0, scope, a);
    if i < es.len() - 1 {
        assert(init[i] == es[i]);
        assert forall|j: int| i < j < init.len() && init[j].0 == init[i].0 implies !v0_lists(
            init[j],
            scope,
            a,
        ) by {
            assert(init[j] == es[j]);
        }
        lemma_migrated_submission(subs, init, i, scope, a);
        assert(!(last.0 == es[i].0 && v0_lists(last, scope, a)));
    }
}

/// Moving the old entries leaves the submission of `a` for batch `b` in
/// `scope` as it was when no old entry of that batch lists `a` there.
pub proof fn lemma_migration_keeps_others(
    subs: Map<(Seq<u8>, QuorumScope), SubmittersView>,
    es: Seq<SubmissionV0View>,
    b: Seq<u8>,
    scope: QuorumScope,
    a: AccountId,
)
    requires
        forall|j: int| 0 <= j < es.len() && es[j].0 == b ==> !v0_lists(es[j], scope, a),
    ensures
        spec_submitters(migrate_v0(subs, es), b, scope).contains_key(a) == spec_submitters(
            subs,
            b,
            scope,
        ).contains_key(a),
        spec_submitters(subs, b, scope).contains_key(a) ==> spec_submitters(
            migrate_v0(subs, es),
            b,
            scope,
        )[a] == spec_submitters(subs, b, scope)[a],
    decreases es.len(),
{
    if es.len() > 0 {
        let init = es.drop_last();
        assert forall|j: int| 0 <= j < init.len() && init[j].0 == b implies !v0_lists(
            init[j],
            scope,
            a,
        ) by {
            assert(init[j] == es[j]);
        }
        lemma_migration_keeps_others(subs, init, b, scope, a);
        lemma_apply_at(migrate_v0(subs, init), es.last(), b, scope, a);
    }
}

/// How many old submissions entries pruning removes.
pub open spec fn num_v0_to_prune(len: nat, limit: u32) -> nat {
    if len < limit {
        len
    } else {
        limit as nat
    }
}

/// How many batches pruning removes from the queue.
pub open spec fn num_to_prune(count: nat, max_finding: u32, limit: u32) -> nat {
    if count <= max_finding {
        0
    } else {
        let excess = (count - max_finding) as nat;
        if excess < limit {
            excess
        } else {
            limit as nat
        }
    }
}

impl IndexingPallet {
    /// Prunes the oldest batches from the queue while more batches than
    /// allowed are finding quorum, at most `prune_limit` of them, together
    /// with their submissions.  Returns what remains of the limit.
    pub fn prune_batch_queue(&mut self, prune_limit: u32) -> (remaining: u32)
        requires
            old(self).wf(),
            old(self).batch_queue_bottom() as int + old(self).batch_queue_count() <= u32::MAX,
        ensures
            final(self).wf(),
            ({
                let pre = *old(self);
                let n = num_to_prune(
                    pre.batch_queue_count(),
                    pre.config().max_batches_finding_quorum,
                    prune_limit,
                );
                let lo = pre.batch_queue_bottom() as int;
                &&& remaining == prune_limit - n
                &&& final(self).batch_queue_bottom() == lo + n
                &&& final(self).batch_queue() == queue_without(pre.batch_queue(), lo, lo + n)
                &&& final(self).submissions() == submissions_without(
                    pre.submissions(),
                    batches_between(pre.batch_queue(), lo, lo + n),
                )
                &&& final(self).final_data() == pre.final_data()
                &&& final(self).block_numbers() == pre.block_numbers()
                &&& final(self).submissions_v0() == pre.submissions_v0()
                &&& final(self).config() == pre.config()
            }),
    {
        let ghost pre = *self;
        let count = self.batch_queue.len();
        let max_finding = self.config.max_batches_finding_quorum;
        let lo = self.batch_queue_bottom;
        if count <= max_finding as usize {
            assert(self.batch_queue() =~= queue_without(pre.batch_queue(), lo as int, lo as int));
            assert(self.submissions() =~= submissions_without(
                pre.submissions(),
                batches_between(pre.batch_queue(), lo as int, lo as int),
            ));
            return prune_limit;
        }
        let excess = (count - max_finding as usize) as u32;
        let n = if excess < prune_limit {
            excess
        } else {
            prune_limit
        };
        let hi = lo + n;
        let mut idx = lo;
        proof {
            assert(self.batch_queue() =~= queue_without(pre.batch_queue(), lo as int, lo as int));
            assert(self.submissions() =~= submissions_without(
                pre.submissions(),
                batches_between(pre.batch_queue(), lo as int, lo as int),
            ));
        }
        while idx < hi
            invariant
                self.wf(),
                lo <= idx <= hi,
                hi == lo + n,
                self.batch_queue() == queue_without(pre.batch_queue(), lo as int, idx as int),
                self.submissions() == submissions_without(
                    pre.submissions(),
                    batches_between(pre.batch_queue(), lo as int, idx as int),
                ),
                self.final_data() == pre.final_data(),
                self.block_numbers() == pre.block_numbers(),
                self.submissions_v0() == pre.submissions_v0(),
                self.config() == pre.config(),
                self.batch_queue_bottom() == pre.batch_queue_bottom(),
            decreases hi - idx,
        {
            let ghost subs0 = self.submissions();
            let ghost q0 = self.batch_queue();
            let ghost iter0 = *self;
            let ghost raw0 = self.batch_queue@;
            let taken = self.batch_queue.remove(&idx);
            proof {
                assert(q0.contains_key(idx) == raw0.contains_key(idx));
                assert(q0.contains_key(idx) == pre.batch_queue().contains_key(idx));
                assert(self.batch_queue() =~= q0.remove(idx));
                assert(self.batch_queue() =~= queue_without(pre.batch_queue(), lo as int, idx + 1));
            }
            match taken {
                Some(b) => {
                    proof {
                        assert(pre.batch_queue().contains_key(idx));
                        assert(raw0[idx] == b);
                        assert(q0[idx] == b@);
                        assert(pre.batch_queue()[idx] == b@);
                    }
                    let public = BatchScope { batch_id: bytes_clone(&b), scope: QuorumScope::Public };
                    let privileged = BatchScope { batch_id: b, scope: QuorumScope::Privileged };
                    let _ = self.submissions.remove(&public);
                    let _ = self.submissions.remove(&privileged);
                    proof {
                        let bv = public.batch_id@;
                        let s_old = batches_between(pre.batch_queue(), lo as int, idx as int);
                        let s_new = batches_between(pre.batch_queue(), lo as int, idx + 1);
                        assert(s_new =~= s_old.insert(bv)) by {
                            assert forall|x: Seq<u8>| s_new.contains(x) implies s_old.insert(bv).contains(x) by {
                                let j = choose|j: u32| lo <= j < idx + 1 && #[trigger] pre.batch_queue().contains_key(j) && pre.batch_queue()[j] == x;
                                if j < idx {
                                    assert(s_old.contains(x));
                                }
                            }
                            assert forall|x: Seq<u8>| s_old.insert(bv).contains(x) implies s_new.contains(x) by {
                                if x == bv {
                                    assert(pre.batch_queue().contains_key(idx));
                                } else {
                                    let j = choose|j: u32| lo <= j < idx && #[trigger] pre.batch_queue().contains_key(j) && pre.batch_queue()[j] == x;
                                    assert(lo <= j < idx + 1);
                                }
                            }
                        }
                        assert(self.submissions() =~= subs0.remove((bv, QuorumScope::Public)).remove(
                            (bv, QuorumScope::Privileged),
                        ));
                        assert forall|k: (Seq<u8>, QuorumScope)| #[trigger] self.submissions().contains_key(k)
                            == submissions_without(pre.submissions(), s_new).contains_key(k) by {
                            if k.0 == bv {
                                assert(k == (bv, QuorumScope::Public) || k == (bv, QuorumScope::Privileged));
                            }
                        }
                        assert(self.submissions() =~= submissions_without(pre.submissions(), s_new));
                        assert forall|k: (Seq<u8>, QuorumScope)| #[trigger]
                            self.submissions@.contains_key(k) implies {
                                let mk = self.submissions@[k];
                                &&& mk.wf()
                                &&& 0 < mk.spec_len() <= self.config.max_submitters
                            } by {
                            assert(iter0.submissions@.contains_key(k));
                        }
                    }
                },
                None => {
                    proof {
                        let s_old = batches_between(pre.batch_queue(), lo as int, idx as int);
                        let s_new = batches_between(pre.batch_queue(), lo as int, idx + 1);
                        assert(!pre.batch_queue().contains_key(idx));
                        assert(s_new =~= s_old) by {
                            assert forall|x: Seq<u8>| s_new.contains(x) implies s_old.contains(x) by {
                                let j = choose|j: u32| lo <= j < idx + 1 && #[trigger] pre.batch_queue().contains_key(j) && pre.batch_queue()[j] == x;
                                assert(j != idx);
                            }
                        }
                    }
                },
            }
            idx = idx + 1;
        }
        self.batch_queue_bottom = hi;
        prune_limit - n
    }

    /// Stores the submitters of a batch and data hash in the old storage
    /// layout, replacing an entry with the same batch and hash in place, or
    /// adding one at the end of the storage order.
    pub fn insert_submission_v0(&mut self, entry: SubmissionV0)
        requires
            old(self).wf(),
        ensures
            final(self).wf(),
            ({
                let pre = old(self).submissions_v0();
                let post = final(self).submissions_v0();
                if exists|i: int| 0 <= i < pre.len() && pre[i].0 == entry@.0 && pre[i].1 == entry@.1 {
                    exists|i: int|
                        0 <= i < pre.len() && pre[i].0 == entry@.0 && pre[i].1 == entry@.1
                            && post == pre.update(i, entry@)
                } else {
                    post == pre.push(entry@)
                }
            }),
            final(self).submissions() == old(self).submissions(),
            final(self).batch_queue() == old(self).batch_queue(),
            final(self).batch_queue_count() == old(self).batch_queue_count(),
            final(self).batch_queue_bottom() == old(self).batch_queue_bottom(),
            final(self).final_data() == old(self).final_data(),
            final(self).block_numbers() == old(self).block_numbers(),
            final(self).config() == old(self).config(),
    {
        let ghost pre = v0_entries_view(self.submissions_v0@);
        let ghost ev = entry@;
        match self.find_v0(&entry.batch_id, &entry.data_hash) {
            Some(i) => {
                self.submissions_v0.set(i, entry);
                proof {
                    let post = v0_entries_view(self.submissions_v0@);
                    assert(post =~= pre.update(i as int, ev));
                    assert forall|a: int, b: int|
                        0 <= a < post.len() && 0 <= b < post.len() && a != b
                        implies (post[a].0 != post[b].0 || post[a].1 != post[b].1) by {
                        if a == i {
                            assert(post[b] == pre[b]);
                        } else if b == i {
                            assert(post[a] == pre[a]);
                        } else {
                            assert(post[a] == pre[a] && post[b] == pre[b]);
                        }
                    }
                }
            },
            None => {
                self.submissions_v0.push(entry);
                proof {
                    let post = v0_entries_view(self.submissions_v0@);
                    assert(post =~= pre.push(ev));
                    assert forall|a: int, b: int|
                        0 <= a < post.len() && 0 <= b < post.len() && a != b
                        implies (post[a].0 != post[b].0 || post[a].1 != post[b].1) by {
                        if a < pre.len() && b < pre.len() {
                            assert(post[a] == pre[a] && post[b] == pre[b]);
                        } else if a < pre.len() {
                            assert(post[a] == pre[a]);
                        } else {
                            assert(post[b] == pre[b]);
                        }
                    }
                }
            },
        }
    }

    /// The position of the old entry for a batch and hash, if any.
    fn find_v0(&self, batch_id: &Vec<u8>, data_hash: &DataHash) -> (r: Option<usize>)
        ensures
            match r {
                Some(i) => i < self.submissions_v0().len() && self.submissions_v0()[i as int].0
                    == batch_id@ && self.submissions_v0()[i as int].1 == *data_hash,
                None => forall|j: int|
                    0 <= j < self.submissions_v0().len() ==> !(self.submissions_v0()[j].0
                        == batch_id@ && self.submissions_v0()[j].1 == *data_hash),
            },
    {
        let ghost es = self.submissions_v0();
        let mut i: usize = 0;
        while i < self.submissions_v0.len()
            invariant
                i <= self.submissions_v0@.len(),
                es == v0_entries_view(self.submissions_v0@),
                forall|j: int| 0 <= j < i ==> !(es[j].0 == batch_id@ && es[j].1 == *data_hash),
            decreases self.submissions_v0@.len() - i,
        {
            proof {
                assert(es[i as int] == self.submissions_v0@[i as int]@);
            }
            if bytes_eq(&self.submissions_v0[i].batch_id, batch_id) && hash_eq(
                &self.submissions_v0[i].data_hash,
                data_hash,
            ) {
                assert(es[i as int].1 =~= *data_hash);
                return Some(i);
            }
            i = i + 1;
        }
        None
    }

    /// Records that `accts` submitted `h` for a batch in a scope.
    fn add_submitters_v1(
        &mut self,
        batch_id: &Vec<u8>,
        scope: QuorumScope,
        accts: &Vec<AccountId>,
        h: DataHash,
    )
        requires
            old(self).wf(),
            within_bound(
                add_submitters(old(self).submissions(), batch_id@, scope, accts@, h),
                old(self).config().max_submitters,
            ),
        ensures
            final(self).wf(),
            final(self).submissions() == add_submitters(old(self).submissions(), batch_id@, scope, accts@, h),
            final(self).submissions_v0() == old(self).submissions_v0(),
            final(self).batch_queue() == old(self).batch_queue(),
            final(self).batch_queue_count() == old(self).batch_queue_count(),
            final(self).batch_queue_bottom() == old(self).batch_queue_bottom(),
            final(self).final_data() == old(self).final_data(),
            final(self).block_numbers() == old(self).block_numbers(),
            final(self).config() == old(self).config(),
    {
        if accts.len() == 0 {
            return;
        }
        let ghost pre = *self;
        let ghost base = spec_submitters(pre.submissions(), batch_id@, scope);
        let key = BatchScope { batch_id: bytes_clone(batch_id), scope };
        let mut m = match self.submissions.get(&key) {
            Some(m) => m.copy(),
            None => VecMap::new(),
        };
        proof {
            if !pre.submissions@.contains_key(key@) {
                assert(base =~= Map::empty());
            }
            assert(m@ =~= base.union_prefer_right(accounts_to(accts@.take(0), h)));
        }
        let mut i: usize = 0;
        while i < accts.len()
            invariant
                m.wf(),
                i <= accts@.len(),
                m@ == base.union_prefer_right(accounts_to(accts@.take(i as int), h)),
            decreases accts@.len() - i,
        {
            let a = accts[i];
            m.insert(a, h);
            proof {
                let before = accts@.take(i as int);
                let after = accts@.take(i + 1);
                assert forall|x: AccountId| after.contains(x) == (before.contains(x) || x == a) by {
                    if before.contains(x) {
                        let j = choose|j: int| 0 <= j < before.len() && before[j] == x;
                        assert(after[j] == x);
                    }
                    if x == a {
                        assert(after[i as int] == a);
                    }
                    if after.contains(x) {
                        let j = choose|j: int| 0 <= j < after.len() && after[j] == x;
                        if j < i {
                            assert(before[j] == x);
                        }
                    }
                }
                assert(m@ =~= base.union_prefer_right(accounts_to(after, h)));
            }
            i = i + 1;
        }
        proof {
            assert(accts@.take(accts@.len() as int) =~= accts@);
            let target = add_submitters(pre.submissions(), batch_id@, scope, accts@, h);
            assert(target.contains_key(key@));
            assert(m@ == target[key@]);
            m.lemma_len();
            assert(m@.dom().contains(accts@[0]));
        }
        let ghost mv = m@;
        let ghost kv = key@;
        let ghost mm = m;
        self.submissions.insert(key, m);
        proof {
            let target = add_submitters(pre.submissions(), batch_id@, scope, accts@, h);
            assert forall|k: (Seq<u8>, QuorumScope)| #[trigger]
                self.submissions@.contains_key(k) implies {
                    let mk = self.submissions@[k];
                    &&& mk.wf()
                    &&& 0 < mk.spec_len() <= self.config.max_submitters
                } by {
                if k != kv {
                    assert(pre.submissions@.contains_key(k));
                } else {
                    assert(target.contains_key(kv));
                }
            }
            assert(self.submissions() =~= target);
        }
    }

    /// Moves the first entry of the old submissions storage into the
    /// submissions, and returns its batch and hash; `None` when there is no
    /// old entry left.
    pub(crate) fn migrate_first_v0(&mut self) -> (r: Option<(Vec<u8>, DataHash)>)
        requires
            old(self).wf(),
            old(self).submissions_v0().len() > 0 ==> within_bound(
                apply_v0(old(self).submissions(), old(self).submissions_v0()[0]),
                old(self).config().max_submitters,
            ),
        ensures
            final(self).wf(),
            final(self).batch_queue() == old(self).batch_queue(),
            final(self).batch_queue_count() == old(self).batch_queue_count(),
            final(self).batch_queue_bottom() == old(self).batch_queue_bottom(),
            final(self).final_data() == old(self).final_data(),
            final(self).block_numbers() == old(self).block_numbers(),
            final(self).config() == old(self).config(),
            if old(self).submissions_v0().len() == 0 {
                &&& r is None
                &&& final(self).submissions() == old(self).submissions()
                &&& final(self).submissions_v0() == old(self).submissions_v0()
            } else {
                let e = old(self).submissions_v0()[0];
                &&& r matches Some(k) && k.0@ == e.0 && k.1 == e.1
                &&& final(self).submissions() == apply_v0(old(self).submissions(), e)
                &&& final(self).submissions_v0() == old(self).submissions_v0().drop_first()
            },
    {
        if self.submissions_v0.len() == 0 {
            return None;
        }
        let ghost pre = *self;
        let ghost es = pre.submissions_v0();
        let entry = self.submissions_v0.remove(0);
        proof {
            assert(entry@ == es[0]);
            assert(self.submissions_v0() =~= es.drop_first());
            let post = self.submissions_v0();
            assert forall|a: int, b: int|
                0 <= a < post.len() && 0 <= b < post.len() && a != b
                implies (post[a].0 != post[b].0 || post[a].1 != post[b].1) by {
                assert(post[a] == es[a + 1] && post[b] == es[b + 1]);
            }
            lemma_apply_grows(pre.submissions(), es[0]);
            lemma_bound_of_smaller(
                add_submitters(pre.submissions(), es[0].0, QuorumScope::Public, es[0].2, es[0].1),
                apply_v0(pre.submissions(), es[0]),
                pre.config().max_submitters,
            );
        }
        self.add_submitters_v1(&entry.batch_id, QuorumScope::Public, &entry.submitters.public, entry.data_hash);
        self.add_submitters_v1(
            &entry.batch_id,
            QuorumScope::Privileged,
            &entry.submitters.privileged,
            entry.data_hash,
        );
        Some((entry.batch_id, entry.data_hash))
    }

    /// The queue count is the number of queue positions in use.
    pub proof fn lemma_queue_count(&self)
        requires
            self.wf(),
        ensures
            self.batch_queue().dom().finite(),
            self.batch_queue_count() == self.batch_queue().dom().len(),
    {
        self.batch_queue.lemma_len();
        assert(self.batch_queue().dom() =~= self.batch_queue@.dom());
    }

    /// Puts a batch in the queue at the position equal to the number of
    /// batches in the queue, replacing a batch already there.
    pub(crate) fn queue_at_count(&mut self, batch_id: Vec<u8>)
        requires
            old(self).wf(),
            old(self).batch_queue_count() < u32::MAX,
        ensures
            final(self).wf(),
            final(self).batch_queue() == old(self).batch_queue().insert(
                old(self).batch_queue_count() as u32,
                batch_id@,
            ),
            final(self).submissions() == old(self).submissions(),
            final(self).submissions_v0() == old(self).submissions_v0(),
            final(self).batch_queue_bottom() == old(self).batch_queue_bottom(),
            final(self).final_data() == old(self).final_data(),
            final(self).block_numbers() == old(self).block_numbers(),
            final(self).config() == old(self).config(),
    {
        let ghost q0 = self.batch_queue();
        let ghost bv = batch_id@;
        let index = self.batch_queue.len() as u32;
        self.batch_queue.insert(index, batch_id);
        proof {
            assert(self.batch_queue() =~= q0.insert(index, bv));
        }
    }

    /// Removes the oldest entries of the old submissions storage, at most
    /// `prune_limit` of them.  Returns what remains of the limit.
    pub fn prune_submissions_v0(&mut self, prune_limit: u32) -> (remaining: u32)
        requires
            old(self).wf(),
        ensures
            final(self).wf(),
            ({
                let pre = *old(self);
                let k = num_v0_to_prune(pre.submissions_v0().len(), prune_limit);
                &&& remaining == prune_limit - k
                &&& final(self).submissions_v0() == pre.submissions_v0().skip(k as int)
                &&& final(self).submissions() == pre.submissions()
                &&& final(self).batch_queue() == pre.batch_queue()
                &&& final(self).batch_queue_count() == pre.batch_queue_count()
                &&& final(self).batch_queue_bottom() == pre.batch_queue_bottom()
                &&& final(self).final_data() == pre.final_data()
                &&& final(self).block_numbers() == pre.block_numbers()
                &&& final(self).config() == pre.config()
            }),
    {
        let ghost pre = *self;
        let len = self.submissions_v0.len();
        let k: usize = if len < prune_limit as usize {
            len
        } else {
            prune_limit as usize
        };
        let rest = self.submissions_v0.split_off(k);
        self.submissions_v0 = rest;
        proof {
            let es = v0_entries_view(pre.submissions_v0@);
            assert(self.submissions_v0() =~= es.skip(k as int));
            assert forall|i: int, j: int|
                0 <= i < self.submissions_v0().len() && 0 <= j < self.submissions_v0().len() && i != j
                implies (self.submissions_v0()[i].0 != self.submissions_v0()[j].0
                || self.submissions_v0()[i].1 != self.submissions_v0()[j].1) by {
                assert(self.submissions_v0()[i] == es[i + k]);
                assert(self.submissions_v0()[j] == es[j + k]);
            }
        }
        prune_limit - k as u32
    }

    /// The block hook: prunes the old submissions storage, then the batch
    /// queue, by up to the configured number of entries and batches in all,
    /// and announces how many were pruned.
    pub fn on_initialize(&mut self) -> (r: Option<IndexingEvent>)
        requires
            old(self).wf(),
            old(self).batch_queue_bottom() as int + old(self).batch_queue_count() <= u32::MAX,
        ensures
            final(self).wf(),
            ({
                let pre = *old(self);
                let limit = pre.config().max_batches_pruned;
                let k = num_v0_to_prune(pre.submissions_v0().len(), limit);
                let n = num_to_prune(
                    pre.batch_queue_count(),
                    pre.config().max_batches_finding_quorum,
                    (limit - k) as u32,
                );
                let lo = pre.batch_queue_bottom() as int;
                &&& final(self).submissions_v0() == pre.submissions_v0().skip(k as int)
                &&& final(self).batch_queue_bottom() == lo + n
                &&& final(self).batch_queue() == queue_without(pre.batch_queue(), lo, lo + n)
                &&& final(self).submissions() == submissions_without(
                    pre.submissions(),
                    batches_between(pre.batch_queue(), lo, lo + n),
                )
                &&& final(self).final_data() == pre.final_data()
                &&& final(self).block_numbers() == pre.block_numbers()
                &&& final(self).config() == pre.config()
                &&& if k + n > 0 {
                    r == Some(IndexingEvent::BatchQueuePruned { num_pruned: (k + n) as u32 })
                } else {
                    r is None
                }
            }),
    {
        let max_pruned = self.config.max_batches_pruned;
        let after_v0 = self.prune_submissions_v0(max_pruned);
        let remaining = self.prune_batch_queue(after_v0);
        let num_pruned = max_pruned - remaining;
        if num_pruned > 0 {
            Some(IndexingEvent::BatchQueuePruned { num_pruned })
        } else {
            None
        }
    }
}

} // verus!

verus! {

impl IndexingPallet {
    /// Submits a record batch for a given table's batch (no block number).
    pub fn submit_data(
        &mut self,
        perms: &PermissionsPallet,
        origin: Origin,
        table: TableIdentifier,
        batch_id: Vec<u8>,
        data: &Vec<u8>,
        ctx: &SubmissionContext,
        finalize: FinalizeInputs,
    ) -> (r: Result<Vec<IndexingEvent>, IndexingError>)
        requires
            old(self).wf(),
            perms.wf(),
            old(self).batch_queue_bottom() as int + old(self).batch_queue_count() < u32::MAX,
        ensures
            final(self).wf(),
            submit_outcome(
                *old(self),
                *final(self),
                perms@,
                origin,
                table@,
                batch_id@,
                data@,
                None,
                *ctx,
                finalize,
                r,
            ),
    {
        self.submit_data_inner(perms, origin, table, batch_id, data, None, ctx, finalize)
    }

    /// Submits a record batch for a given table's batch, with the block
    /// number the data covers.
    pub fn submit_blockchain_data(
        &mut self,
        perms: &PermissionsPallet,
        origin: Origin,
        table: TableIdentifier,
        batch_id: Vec<u8>,
        data: &Vec<u8>,
        block_number: u64,
        ctx: &SubmissionContext,
        finalize: FinalizeInputs,
    ) -> (r: Result<Vec<IndexingEvent>, IndexingError>)
        requires
            old(self).wf(),
            perms.wf(),
            old(self).batch_queue_bottom() as int + old(self).batch_queue_count() < u32::MAX,
        ensures
            final(self).wf(),
            submit_outcome(
                *old(self),
                *final(self),
                perms@,
                origin,
                table@,
                batch_id@,
                data@,
                Some(block_number),
                *ctx,
                finalize,
                r,
            ),
    {
        self.submit_data_inner(
            perms,
            origin,
            table,
            batch_id,
            data,
            Some(block_number),
            ctx,
            finalize,
        )
    }
}

/// `x * y`, or `u128::MAX` if that overflows.
pub open spec fn sat_mul(x: u128, y: u128) -> u128 {
    if x * y > u128::MAX {
        u128::MAX
    } else {
        (x * y) as u128
    }
}

/// `x + y`, or `u128::MAX` if that overflows.
pub open spec fn sat_add(x: u128, y: u128) -> u128 {
    if x + y > u128::MAX {
        u128::MAX
    } else {
        (x + y) as u128
    }
}

fn saturating_mul_u128(x: u128, y: u128) -> (r: u128)
    ensures
        r == sat_mul(x, y),
{
    match x.checked_mul(y) {
        Some(v) => v,
        None => u128::MAX,
    }
}

/// The refund each agreeing submitter receives: the base refund plus a
/// reward percentage, which is currently zero.
pub open spec fn reward_amount(base_refund: u128) -> u128 {
    sat_add(base_refund, (sat_mul(base_refund, 0) / 100) as u128)
}

/// What a quorum's refunds cost the table's treasury in total.
pub open spec fn total_refund(num_agreements: u128, num_dissents: u128, base_refund: u128) -> u128 {
    sat_add(
        sat_mul(num_agreements, reward_amount(base_refund)),
        sat_mul(num_dissents, base_refund),
    )
}

/// Computes the refunds of all quorum participants from the table's
/// treasury: every agreeing submitter gets the reward amount, every
/// dissenting one the base refund, agreements first.
///
/// `treasury_balance` is the free balance of the table's treasury account,
/// or `None` if the table has no treasury account.  On success the
/// transfers to make are returned, in order.
pub fn refund_quorum_participants(
    agreements: &Vec<AccountId>,
    dissents: &Vec<AccountId>,
    base_refund: u128,
    treasury_balance: Option<u128>,
) -> (r: Result<Vec<(AccountId, u128)>, IndexingError>)
    ensures
        match treasury_balance {
            None => r == Err::<Vec<(AccountId, u128)>, IndexingError>(IndexingError::InvalidTable),
            Some(balance) => if balance < total_refund(
                agreements@.len() as u128,
                dissents@.len() as u128,
                base_refund,
            ) {
                r == Err::<Vec<(AccountId, u128)>, IndexingError>(
                    IndexingError::InsufficientTableFunds,
                )
            } else {
                &&& r matches Ok(payouts)
                &&& payouts@ == refund_payouts(agreements@, dissents@, base_refund)
                &&& payouts@.len() == agreements@.len() + dissents@.len()
                &&& forall|i: int|
                    0 <= i < agreements@.len() ==> payouts@[i] == (
                        agreements@[i],
                        reward_amount(base_refund),
                    )
                &&& forall|i: int|
                    0 <= i < dissents@.len() ==> payouts@[agreements@.len() + i] == (
                        dissents@[i],
                        base_refund,
                    )
            },
        },
{
    let reward_percent: u128 = 0;
    let reward = base_refund.saturating_add(saturating_mul_u128(base_refund, reward_percent) / 100);
    let num_agreements = agreements.len() as u128;
    let num_dissents = dissents.len() as u128;
    let total_needed = saturating_mul_u128(num_agreements, reward).saturating_add(
        saturating_mul_u128(num_dissents, base_refund),
    );
    let balance = match treasury_balance {
        Some(b) => b,
        None => {
            return Err(IndexingError::InvalidTable);
        },
    };
    if balance < total_needed {
        return Err(IndexingError::InsufficientTableFunds);
    }
    let mut payouts: Vec<(AccountId, u128)> = Vec::new();
    let mut i: usize = 0;
    while i < agreements.len()
        invariant
            i <= agreements@.len(),
            reward == reward_amount(base_refund),
            payouts@.len() == i,
            forall|j: int| 0 <= j < i ==> payouts@[j] == (agreements@[j], reward),
        decreases agreements.len() - i,
    {
        payouts.push((agreements[i], reward));
        i += 1;
    }
    let mut j: usize = 0;
    while j < dissents.len()
        invariant
            j <= dissents@.len(),
            payouts@.len() == agreements@.len() + j,
            forall|k: int| 0 <= k < agreements@.len() ==> payouts@[k] == (agreements@[k], reward),
            forall|k: int|
                0 <= k < j ==> payouts@[agreements@.len() + k] == (dissents@[k], base_refund),
        decreases dissents.len() - j,
    {
        payouts.push((dissents[j], base_refund));
        j += 1;
    }
    assert(payouts@ =~= refund_payouts(agreements@, dissents@, base_refund));
    Ok(payouts)
}

/// What refunds cost in total: the reward amount for each agreement and
/// the base refund for each dissent, saturating.
pub fn total_refund_exec(num_agreements: u128, num_dissents: u128, base_refund: u128) -> (r: u128)
    ensures
        r == total_refund(num_agreements, num_dissents, base_refund),
{
    let reward = base_refund.saturating_add(saturating_mul_u128(base_refund, 0) / 100);
    saturating_mul_u128(num_agreements, reward).saturating_add(
        saturating_mul_u128(num_dissents, base_refund),
    )
}

/// The transfers among the first `n` of `payouts` that did not go
/// through, in order: `transferred[i]` is whether `payouts[i]` did.
pub open spec fn failed_refunds(
    payouts: Seq<(AccountId, u128)>,
    transferred: Seq<bool>,
    n: int,
) -> Seq<(AccountId, u128)>
    decreases n,
{
    if n <= 0 {
        Seq::empty()
    } else if transferred[n - 1] {
        failed_refunds(payouts, transferred, n - 1)
    } else {
        failed_refunds(payouts, transferred, n - 1).push(payouts[n - 1])
    }
}

/// The events of the refund transfers that failed: `transferred[i]` is
/// whether the transfer `payouts[i]` went through.
pub fn refund_errors(payouts: &Vec<(AccountId, u128)>, transferred: &Vec<bool>) -> (r: Vec<
    IndexingEvent,
>)
    requires
        payouts@.len() == transferred@.len(),
    ensures
        ({
            let failed = failed_refunds(payouts@, transferred@, payouts@.len() as int);
            &&& r@.len() == failed.len()
            &&& forall|i: int|
                0 <= i < failed.len() ==> r@[i] == (IndexingEvent::RefundError {
                    recipient: failed[i].0,
                    refund: failed[i].1,
                })
        }),
{
    let mut r: Vec<IndexingEvent> = Vec::new();
    let mut i: usize = 0;
    while i < payouts.len()
        invariant
            i <= payouts@.len(),
            payouts@.len() == transferred@.len(),
            r@.len() == failed_refunds(payouts@, transferred@, i as int).len(),
            forall|k: int|
                0 <= k < r@.len() ==> r@[k] == (IndexingEvent::RefundError {
                    recipient: failed_refunds(payouts@, transferred@, i as int)[k].0,
                    refund: failed_refunds(payouts@, transferred@, i as int)[k].1,
                }),
        decreases payouts.len() - i,
    {
        if !transferred[i] {
            let (recipient, refund) = payouts[i];
            r.push(IndexingEvent::RefundError { recipient, refund });
        }
        i += 1;
    }
    r
}

} // verus!

verus! {

/// A batch that has been decided is refused: any submission whose batch id
/// maps to a decided batch fails.
pub proof fn lemma_decided_batch_is_refused(
    final_data: Map<Seq<u8>, DataQuorum>,
    perms: Map<AccountId, Seq<PermissionView>>,
    origin: Origin,
    table: (Seq<u8>, Seq<u8>),
    outer_batch_id: Seq<u8>,
    data: Seq<u8>,
    ctx: SubmissionContext,
)
    requires
        final_data.contains_key(ctx.inner_batch_id@),
    ensures
        spec_precheck(final_data, perms, origin, table, outer_batch_id, data, ctx) is Err,
{
}

/// Once a submission decides a batch, every later submission for that batch
/// is refused.
pub proof fn lemma_batch_decided_once(
    pre: IndexingPallet,
    post: IndexingPallet,
    perms: Map<AccountId, Seq<PermissionView>>,
    origin: Origin,
    table: (Seq<u8>, Seq<u8>),
    outer_batch_id: Seq<u8>,
    data: Seq<u8>,
    block_number: Option<u64>,
    ctx: SubmissionContext,
    finalize: FinalizeInputs,
    r: Result<Vec<IndexingEvent>, IndexingError>,
    later_perms: Map<AccountId, Seq<PermissionView>>,
    later_origin: Origin,
    later_table: (Seq<u8>, Seq<u8>),
    later_outer_batch_id: Seq<u8>,
    later_data: Seq<u8>,
    later_ctx: SubmissionContext,
)
    requires
        submit_outcome(
            pre,
            post,
            perms,
            origin,
            table,
            outer_batch_id,
            data,
            block_number,
            ctx,
            finalize,
            r,
        ),
        r is Ok,
        ({
            let (who, scope) = spec_precheck(
                pre.final_data(),
                perms,
                origin,
                table,
                outer_batch_id,
                data,
                ctx,
            )->Ok_0;
            quorum_reached(
                ctx.insert_quorum,
                scope,
                spec_submitters(pre.submissions(), ctx.inner_batch_id@, scope).insert(
                    who,
                    ctx.data_hash,
                ),
                ctx.data_hash,
            )
        }),
        later_ctx.inner_batch_id@ == ctx.inner_batch_id@,
    ensures
        post.final_data().contains_key(ctx.inner_batch_id@),
        spec_precheck(
            post.final_data(),
            later_perms,
            later_origin,
            later_table,
            later_outer_batch_id,
            later_data,
            later_ctx,
        ) is Err,
{
}

/// A submitter submits once per batch: after a submission went through,
/// the same signer submitting for the same table and batch again, with the
/// same permissions and table settings, is refused, whatever the data.
pub proof fn lemma_no_second_submission(
    pre: IndexingPallet,
    post: IndexingPallet,
    perms: Map<AccountId, Seq<PermissionView>>,
    origin: Origin,
    table: (Seq<u8>, Seq<u8>),
    outer_batch_id: Seq<u8>,
    data: Seq<u8>,
    block_number: Option<u64>,
    ctx: SubmissionContext,
    finalize: FinalizeInputs,
    r: Result<Vec<IndexingEvent>, IndexingError>,
    later: IndexingPallet,
    later_data: Seq<u8>,
    later_block_number: Option<u64>,
    later_ctx: SubmissionContext,
    later_finalize: FinalizeInputs,
    later_r: Result<Vec<IndexingEvent>, IndexingError>,
)
    requires
        submit_outcome(
            pre,
            post,
            perms,
            origin,
            table,
            outer_batch_id,
            data,
            block_number,
            ctx,
            finalize,
            r,
        ),
        r is Ok,
        submit_outcome(
            post,
            later,
            perms,
            origin,
            table,
            outer_batch_id,
            later_data,
            later_block_number,
            later_ctx,
            later_finalize,
            later_r,
        ),
        later_ctx.inner_batch_id@ == ctx.inner_batch_id@,
        later_ctx.insert_quorum == ctx.insert_quorum,
        later_ctx.is_permissionless == ctx.is_permissionless,
        later_ctx.schema_exists == ctx.schema_exists,
    ensures
        later_r is Err,
{
    let b = ctx.inner_batch_id@;
    let (who, scope) = spec_precheck(
        pre.final_data(),
        perms,
        origin,
        table,
        outer_batch_id,
        data,
        ctx,
    )->Ok_0;
    let m2 = spec_submitters(pre.submissions(), b, scope).insert(who, ctx.data_hash);
    if quorum_reached(ctx.insert_quorum, scope, m2, ctx.data_hash) {
        assert(post.final_data().contains_key(b));
    } else {
        assert(post.submissions() == pre.submissions().insert((b, scope), m2));
        assert(spec_submitters(post.submissions(), b, scope).contains_key(who));
        assert(post.final_data() == pre.final_data());
    }
}

/// With a quorum size of zero, the first submission of a batch reaches
/// quorum at once.
pub proof fn lemma_zero_quorum_reached_at_once(
    q: InsertQuorumSize,
    scope: QuorumScope,
    who: AccountId,
    hash: DataHash,
)
    requires
        spec_of_scope(q, scope) == Some(0u8),
    ensures
        quorum_reached(q, scope, Map::<AccountId, DataHash>::empty().insert(who, hash), hash),
{
    let m = Map::<AccountId, DataHash>::empty().insert(who, hash);
    assert(agreeing(m, hash) =~= set![who]);
}

/// The agreements and dissents of a quorum split its submitters: together
/// they are all of them, and no submitter is in both.
pub proof fn lemma_partition_splits_submitters(
    m: SubmittersView,
    h: DataHash,
    agreements: Seq<AccountId>,
    dissents: Seq<AccountId>,
)
    requires
        partitions(m, h, agreements, dissents),
    ensures
        agreements.to_set() + dissents.to_set() == m.dom(),
        agreements.to_set().disjoint(dissents.to_set()),
{
    assert(agreements.to_set() + dissents.to_set() =~= m.dom());
}

} // verus!
