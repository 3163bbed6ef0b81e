use std::collections::BTreeMap;

use sxt_pallets::indexing::{
    refund_errors, refund_quorum_participants, submission_pays_fee, total_refund_exec, FinalizeInputs,
    IndexingConfig, IndexingError, IndexingEvent, IndexingPallet, InsertQuorumSize, Pays,
    ProcessedInsert, QuorumScope, SubmissionContext,
};
use sxt_pallets::permissions::{IndexingPalletPermission, PermissionLevel, PermissionsPallet};
use sxt_pallets::types::{AccountId, DataHash, Origin, TableIdentifier};

/// The quorum of a `CoreBlockchain` table: four agreeing submitters decide.
fn core_blockchain() -> InsertQuorumSize {
    InsertQuorumSize { public: Some(3), privileged: None }
}

fn testing(public: Option<u8>, privileged: Option<u8>) -> InsertQuorumSize {
    InsertQuorumSize { public, privileged }
}

fn table_id() -> TableIdentifier {
    TableIdentifier::new(b"TEST_NAMESPACE".to_vec(), b"TEST_TABLE".to_vec())
}

/// Stands for the runtime's hash of a table and a batch id.
fn inner_batch_id(table: &TableIdentifier, batch: &[u8]) -> Vec<u8> {
    let mut v = table.namespace.clone();
    v.push(b'.');
    v.extend_from_slice(&table.name);
    v.push(b':');
    v.extend_from_slice(batch);
    v
}

/// Stands for the runtime's hash of the data and the block number.
fn data_hash(data: &[u8], block_number: Option<u64>) -> DataHash {
    let mut h = [0u8; 32];
    for (i, b) in data.iter().enumerate() {
        h[i % 32] = h[i % 32].wrapping_mul(31).wrapping_add(*b);
    }
    if let Some(n) = block_number {
        for (i, b) in n.to_le_bytes().iter().enumerate() {
            h[i] ^= *b;
        }
        h[31] ^= 0x5A;
    }
    h
}

/// Row data: its first byte is the number of rows.
fn row_data_with_count(rows: u8) -> Vec<u8> {
    vec![rows, 0, 1, 2, 3]
}

fn row_data() -> Vec<u8> {
    row_data_with_count(4)
}

fn diff_row_data() -> Vec<u8> {
    vec![4, 2, 4, 6, 8]
}

fn empty_row_data() -> Vec<u8> {
    row_data_with_count(0)
}

struct Chain {
    permissions: PermissionsPallet,
    indexing: IndexingPallet,
    block: u64,
    quorum: InsertQuorumSize,
    permissionless: bool,
    schema_exists: bool,
    max_block_number: Option<u64>,
    /// The table's treasury account, if it has one.
    treasury: Option<AccountId>,
    /// Free balances, as the balances pallet holds them.
    ledger: BTreeMap<AccountId, u128>,
    /// The fee of one submission, refunded on quorum.
    fee: u128,
    /// Every event deposited so far.
    events: Vec<IndexingEvent>,
}

impl Chain {
    fn new(quorum: InsertQuorumSize) -> Self {
        Chain {
            permissions: PermissionsPallet::new(32),
            indexing: IndexingPallet::new(IndexingConfig {
                max_submitters: 32,
                max_batches_finding_quorum: 100,
                max_batches_pruned: 10,
            }),
            block: 1,
            quorum,
            permissionless: false,
            schema_exists: true,
            max_block_number: None,
            treasury: None,
            ledger: BTreeMap::new(),
            fee: 1000,
            events: Vec::new(),
        }
    }

    fn balance(&self, who: AccountId) -> u128 {
        self.ledger.get(&who).copied().unwrap_or(0)
    }

    /// Makes the refund transfers that `events` announce from the
    /// treasury, as the balances pallet would, and records the events of
    /// the transfers that fail.
    fn deposit(&mut self, events: &[IndexingEvent]) {
        for e in events {
            self.events.push(e.clone());
            if let IndexingEvent::RefundIssued { treasury, payouts, .. } = e {
                let mut transferred = Vec::new();
                for (who, amount) in payouts {
                    let ok = self.balance(*treasury) >= *amount;
                    if ok {
                        *self.ledger.entry(*treasury).or_insert(0) -= *amount;
                        *self.ledger.entry(*who).or_insert(0) += *amount;
                    }
                    transferred.push(ok);
                }
                let errors = refund_errors(payouts, &transferred);
                self.events.extend(errors);
            }
        }
    }

    fn grant(&mut self, who: AccountId, permissions: Vec<PermissionLevel>) {
        assert!(self.permissions.set_permissions(Origin::Root, who, permissions).is_ok());
    }

    fn grant_public(&mut self, who: AccountId) {
        self.grant(who, vec![PermissionLevel::IndexingPallet(IndexingPalletPermission::SubmitDataForPublicQuorum)]);
    }

    fn grant_privileged(&mut self, who: AccountId, table: TableIdentifier) {
        self.grant(
            who,
            vec![PermissionLevel::IndexingPallet(IndexingPalletPermission::SubmitDataForPrivilegedQuorum(table))],
        );
    }

    fn submit_with(
        &mut self,
        who: AccountId,
        table: &TableIdentifier,
        batch: &[u8],
        data: &[u8],
        block_number: Option<u64>,
    ) -> Result<Vec<IndexingEvent>, IndexingError> {
        let ctx = SubmissionContext {
            current_block: self.block,
            insert_quorum: self.quorum,
            is_permissionless: self.permissionless,
            schema_exists: self.schema_exists,
            is_staking_table: false,
            inner_batch_id: inner_batch_id(table, batch),
            data_hash: data_hash(data, block_number),
        };
        let finalize = FinalizeInputs {
            insert: Ok(ProcessedInsert {
                num_rows: data.first().copied().unwrap_or(0) as u64,
                max_block_number: self.max_block_number,
                data: data.to_vec(),
            }),
            system_table_result: Ok(()),
            base_refund: self.fee,
            treasury: self.treasury.map(|t| (t, self.balance(t))),
        };
        let r = match block_number {
            Some(n) => self.indexing.submit_blockchain_data(
                &self.permissions,
                Origin::Signed(who),
                table.clone(),
                batch.to_vec(),
                &data.to_vec(),
                n,
                &ctx,
                finalize,
            ),
            None => self.indexing.submit_data(
                &self.permissions,
                Origin::Signed(who),
                table.clone(),
                batch.to_vec(),
                &data.to_vec(),
                &ctx,
                finalize,
            ),
        };
        if let Ok(events) = &r {
            let events = events.clone();
            self.deposit(&events);
        }
        r
    }

    fn submit(&mut self, who: AccountId, data: &[u8]) -> Result<Vec<IndexingEvent>, IndexingError> {
        self.submit_with(who, &table_id(), b"test_batch", data, None)
    }

    fn inner(&self) -> Vec<u8> {
        inner_batch_id(&table_id(), b"test_batch")
    }

    fn scope_is_empty(&self, batch: &[u8], scope: QuorumScope) -> bool {
        (0..=255u64).all(|who| self.indexing.submission_of(&batch.to_vec(), scope, who).is_none())
    }
}

#[test]
fn inserting_data_succeeds_when_data_is_good() {
    let mut c = Chain::new(testing(Some(1), None));
    c.grant_public(1);
    assert!(c.submit(1, &row_data()).is_ok());
    let hash = data_hash(&row_data(), None);
    assert_eq!(c.indexing.submission_of(&c.inner(), QuorumScope::Public, 1), Some(hash));
}

#[test]
fn submission_fails_when_data_is_already_submitted() {
    let mut c = Chain::new(core_blockchain());
    c.grant_public(1);
    assert!(c.submit(1, &row_data()).is_ok());
    let hash = data_hash(&row_data(), None);
    assert_eq!(c.indexing.submission_of(&c.inner(), QuorumScope::Public, 1), Some(hash));
    assert_eq!(c.submit(1, &row_data()), Err(IndexingError::AlreadySubmitted));
}

#[test]
fn data_submission_fails_if_no_permissions() {
    let mut c = Chain::new(core_blockchain());
    assert_eq!(c.submit(1, b"some arbitrary row data"), Err(IndexingError::UnauthorizedSubmitter));
    assert!(c.scope_is_empty(&c.inner(), QuorumScope::Public));
}

#[test]
fn data_is_decided_on_after_required_submissions() {
    let mut c = Chain::new(core_blockchain());
    for id in 0..5 {
        c.grant_public(id);
    }
    assert!(c.submit(1, &row_data()).is_ok());
    assert!(c.submit(2, &row_data()).is_ok());
    assert!(c.submit(3, &row_data()).is_ok());
    assert!(!c.indexing.is_decided(&c.inner()));
    assert!(c.submit(4, &row_data()).is_ok());
    let fd = c.indexing.final_data_of(&c.inner()).unwrap();
    assert_eq!(fd.data_hash, data_hash(&row_data(), None));
    assert_eq!(fd.table, table_id());
    assert_eq!(fd.quorum_scope, QuorumScope::Public);
    assert_eq!(fd.agreements.len(), 4);
    assert!(c.scope_is_empty(&c.inner(), QuorumScope::Public));
    assert!(c.scope_is_empty(&c.inner(), QuorumScope::Privileged));
}

#[test]
fn correct_data_is_decided_on_after_required_submissions() {
    let mut c = Chain::new(core_blockchain());
    for id in 1..6 {
        c.grant_public(id);
    }
    assert!(c.submit(1, &row_data()).is_ok());
    assert!(c.submit(2, &row_data()).is_ok());
    assert!(c.submit(3, &row_data()).is_ok());
    assert!(!c.indexing.is_decided(&c.inner()));
    assert!(c.submit(4, &diff_row_data()).is_ok());
    assert!(!c.indexing.is_decided(&c.inner()));
    assert!(c.submit(5, &row_data()).is_ok());
    let fd = c.indexing.final_data_of(&c.inner()).unwrap();
    assert_eq!(fd.data_hash, data_hash(&row_data(), None));
    assert_eq!(fd.dissents, vec![4]);
    assert!(c.scope_is_empty(&c.inner(), QuorumScope::Public));
}

#[test]
fn inserting_data_fails_when_data_is_empty() {
    let mut c = Chain::new(core_blockchain());
    c.grant_public(1);
    assert_eq!(c.submit(1, &[]), Err(IndexingError::NoData));
}

#[test]
fn inserting_data_fails_when_table_name_is_empty() {
    let mut c = Chain::new(core_blockchain());
    c.grant_public(1);
    let t = TableIdentifier::new(b"TEST_NAMESPACE".to_vec(), vec![]);
    assert_eq!(c.submit_with(1, &t, b"test_batch", b"some arbitrary row data", None), Err(IndexingError::InvalidTable));
}

#[test]
fn inserting_data_fails_when_batch_id_is_empty() {
    let mut c = Chain::new(core_blockchain());
    c.grant_public(1);
    assert_eq!(c.submit_with(1, &table_id(), b"", b"some arbitrary row data", None), Err(IndexingError::InvalidBatch));
}

#[test]
fn inserting_data_fails_when_batch_id_has_already_been_decided_on() {
    let mut c = Chain::new(core_blockchain());
    for id in 0..5 {
        c.grant_public(id);
    }
    for i in 0..4 {
        assert!(c.submit(i, &row_data()).is_ok());
    }
    let quorum = c.indexing.final_data_of(&c.inner()).unwrap();
    assert_eq!(quorum.data_hash, data_hash(&row_data(), None));
    assert_eq!(quorum.table, table_id());
    c.grant_public(123);
    assert_eq!(c.submit(123, &row_data()), Err(IndexingError::LateBatch));
}

#[test]
fn submit_data_with_mothership_key_work() {
    let mut c = Chain::new(testing(Some(1), None));
    let signer = 1;
    let admin = 2;
    c.grant(
        admin,
        vec![PermissionLevel::EditSpecificPermission(Box::new(PermissionLevel::IndexingPallet(
            IndexingPalletPermission::SubmitDataForPublicQuorum,
        )))],
    );
    assert!(c
        .permissions
        .add_proxy_permission(
            Origin::Signed(admin),
            signer,
            PermissionLevel::IndexingPallet(IndexingPalletPermission::SubmitDataForPublicQuorum)
        )
        .is_ok());
    assert!(c.submit(signer, &row_data()).is_ok());
    assert_eq!(c.indexing.submission_of(&c.inner(), QuorumScope::Public, signer), Some(data_hash(&row_data(), None)));
}

#[test]
fn we_can_reach_privileged_quorum() {
    let mut c = Chain::new(testing(None, Some(0)));
    c.grant_privileged(1, table_id());
    assert!(c.submit(1, &row_data()).is_ok());
    let fd = c.indexing.final_data_of(&c.inner()).unwrap();
    assert_eq!(fd.data_hash, data_hash(&row_data(), None));
    assert_eq!(fd.table, table_id());
    assert_eq!(fd.quorum_scope, QuorumScope::Privileged);
    assert!(c.scope_is_empty(&c.inner(), QuorumScope::Public));
    assert!(c.scope_is_empty(&c.inner(), QuorumScope::Privileged));
}

#[test]
fn we_can_manage_quorum_state_for_both_scopes() {
    let mut c = Chain::new(testing(Some(2), Some(1)));
    let public = PermissionLevel::IndexingPallet(IndexingPalletPermission::SubmitDataForPublicQuorum);
    let privileged = || PermissionLevel::IndexingPallet(IndexingPalletPermission::SubmitDataForPrivilegedQuorum(table_id()));
    c.grant(1, vec![public]);
    c.grant(2, vec![privileged()]);
    c.grant(
        3,
        vec![PermissionLevel::IndexingPallet(IndexingPalletPermission::SubmitDataForPublicQuorum), privileged()],
    );
    assert!(c.submit(1, &row_data()).is_ok());
    assert!(c.indexing.submission_of(&c.inner(), QuorumScope::Public, 1).is_some());
    assert!(c.scope_is_empty(&c.inner(), QuorumScope::Privileged));
    assert!(!c.indexing.is_decided(&c.inner()));
    // an account with both permissions counts for the privileged quorum
    assert!(c.submit(3, &row_data()).is_ok());
    assert!(c.indexing.submission_of(&c.inner(), QuorumScope::Public, 1).is_some());
    assert!(c.indexing.submission_of(&c.inner(), QuorumScope::Privileged, 3).is_some());
    assert!(!c.indexing.is_decided(&c.inner()));
    let events = c.submit(2, &row_data()).unwrap();
    let fd = c.indexing.final_data_of(&c.inner()).unwrap();
    assert_eq!(fd.data_hash, data_hash(&row_data(), None));
    assert_eq!(fd.quorum_scope, QuorumScope::Privileged);
    assert!(c.scope_is_empty(&c.inner(), QuorumScope::Public));
    assert!(c.scope_is_empty(&c.inner(), QuorumScope::Privileged));
    assert_eq!(events.iter().filter(|e| matches!(e, IndexingEvent::QuorumReached { .. })).count(), 1);
}

#[test]
fn reaching_quorum_for_both_scopes_simultaneously_produces_privileged_quorum_reached_event() {
    let mut c = Chain::new(testing(Some(0), Some(0)));
    c.grant(
        3,
        vec![
            PermissionLevel::IndexingPallet(IndexingPalletPermission::SubmitDataForPublicQuorum),
            PermissionLevel::IndexingPallet(IndexingPalletPermission::SubmitDataForPrivilegedQuorum(table_id())),
        ],
    );
    let events = c.submit(3, &row_data()).unwrap();
    let fd = c.indexing.final_data_of(&c.inner()).unwrap();
    assert_eq!(fd.data_hash, data_hash(&row_data(), None));
    assert_eq!(fd.table, table_id());
    assert_eq!(fd.quorum_scope, QuorumScope::Privileged);
    assert!(c.scope_is_empty(&c.inner(), QuorumScope::Public));
    assert!(c.scope_is_empty(&c.inner(), QuorumScope::Privileged));
    assert_eq!(events.iter().filter(|e| matches!(e, IndexingEvent::QuorumReached { .. })).count(), 1);
}

#[test]
fn we_cannot_submit_for_table_disabled_quorum_scope() {
    let mut c = Chain::new(testing(None, Some(0)));
    c.grant_public(1);
    assert_eq!(c.submit(1, &row_data()), Err(IndexingError::UnauthorizedSubmitter));
    assert!(c.scope_is_empty(&c.inner(), QuorumScope::Public));
    assert!(c.scope_is_empty(&c.inner(), QuorumScope::Privileged));
    assert!(!c.indexing.is_decided(&c.inner()));
}

#[test]
fn we_cannot_submit_with_privilege_to_different_table() {
    let mut c = Chain::new(testing(None, Some(0)));
    c.grant_privileged(1, TableIdentifier::new(vec![], vec![]));
    assert_eq!(c.submit(1, &row_data()), Err(IndexingError::UnauthorizedSubmitter));
    assert!(c.scope_is_empty(&c.inner(), QuorumScope::Public));
    assert!(c.scope_is_empty(&c.inner(), QuorumScope::Privileged));
    assert!(!c.indexing.is_decided(&c.inner()));
}

#[test]
fn blockchain_data_submission_stores_block_number() {
    let mut c = Chain::new(testing(Some(0), None));
    c.grant_public(1);
    assert!(c.submit_with(1, &table_id(), b"blockchain_batch", &row_data(), Some(12345)).is_ok());
    assert_eq!(c.indexing.block_number_of(&table_id()), Some(12345));
}

#[test]
fn empty_blockchain_data_emits_empty_event_with_block_number() {
    let mut c = Chain::new(testing(Some(0), None));
    c.grant_public(1);
    let events = c.submit_with(1, &table_id(), b"empty_block_batch", &empty_row_data(), Some(54321)).unwrap();
    assert!(events.iter().any(|e| matches!(e, IndexingEvent::QuorumEmptyBlock { table, block_number, .. }
        if *table == table_id() && *block_number == 54321)));
}

#[test]
fn fallback_to_oc_table_block_number_when_none_provided() {
    let mut c = Chain::new(testing(Some(0), None));
    c.grant_public(1);
    // the data's block-number column goes up to 12345
    c.max_block_number = Some(12345);
    assert!(c.submit_with(1, &table_id(), b"fallback_batch", &row_data(), None).is_ok());
    assert_eq!(c.indexing.block_number_of(&table_id()), Some(12345));
}

#[test]
fn no_block_number_stored_when_implicit_and_empty_data() {
    let mut c = Chain::new(testing(Some(0), None));
    c.grant_public(1);
    assert!(c.submit_with(1, &table_id(), b"empty_implicit", &row_data(), None).is_ok());
    assert_eq!(c.indexing.block_number_of(&table_id()), None);
}

#[test]
fn we_can_reach_quorum_before_and_after_changing_quorum_size() {
    let mut c = Chain::new(testing(None, Some(0)));
    c.grant_privileged(1, table_id());
    assert!(c.submit(1, &row_data_with_count(1)).is_ok());
    let fd = c.indexing.final_data_of(&c.inner()).unwrap();
    assert_eq!(fd.quorum_scope, QuorumScope::Privileged);
    assert!(c.scope_is_empty(&c.inner(), QuorumScope::Privileged));
    // the table becomes public
    c.quorum = testing(Some(0), None);
    c.grant_public(2);
    assert!(c.submit_with(2, &table_id(), b"test_batch2", &row_data_with_count(1), None).is_ok());
    let inner2 = inner_batch_id(&table_id(), b"test_batch2");
    let fd = c.indexing.final_data_of(&inner2).unwrap();
    assert_eq!(fd.data_hash, data_hash(&row_data_with_count(1), None));
    assert_eq!(fd.table, table_id());
    assert_eq!(fd.quorum_scope, QuorumScope::Public);
    assert!(c.scope_is_empty(&inner2, QuorumScope::Public));
}

#[test]
fn we_can_submit_to_permissionless_table_with_no_permissions() {
    let mut c = Chain::new(testing(Some(0), None));
    c.permissionless = true;
    assert!(c.submit(1, &row_data()).is_ok());
    assert!(c.indexing.is_decided(&c.inner()));
}

#[test]
fn submissions_need_a_schema_and_a_signer() {
    let mut c = Chain::new(core_blockchain());
    c.grant_public(1);
    c.schema_exists = false;
    assert_eq!(c.submit(1, &row_data()), Err(IndexingError::InvalidTable));
    let t = table_id();
    let ctx = SubmissionContext {
        current_block: 1,
        insert_quorum: core_blockchain(),
        is_permissionless: true,
        schema_exists: true,
        is_staking_table: false,
        inner_batch_id: inner_batch_id(&t, b"b"),
        data_hash: [0; 32],
    };
    let finalize = FinalizeInputs {
        insert: Err(1),
        system_table_result: Ok(()),
        base_refund: 0,
        treasury: None,
    };
    assert_eq!(
        c.indexing.submit_data(&c.permissions, Origin::Root, t, b"b".to_vec(), &row_data(), &ctx, finalize),
        Err(IndexingError::BadOrigin)
    );
}

#[test]
fn validate_submission_checks_in_order() {
    let c = Chain::new(core_blockchain());
    let t = table_id();
    assert_eq!(c.indexing.validate_submission(&t, &b"b".to_vec(), &row_data(), true), Ok(()));
    assert_eq!(c.indexing.validate_submission(&t, &b"b".to_vec(), &vec![], true), Err(IndexingError::NoData));
    assert_eq!(c.indexing.validate_submission(&t, &b"b".to_vec(), &row_data(), false), Err(IndexingError::InvalidTable));
    let empty = TableIdentifier::new(vec![], b"T".to_vec());
    assert_eq!(c.indexing.validate_submission(&empty, &b"b".to_vec(), &vec![], true), Err(IndexingError::InvalidTable));
}

// ─── refunds ───

const UNIT: u128 = 1_000_000_000_000_000_000;

const TREASURY: AccountId = 9_999;

/// A table whose treasury holds `balance`, and submitters 1 to 9.
fn funded_chain(balance: u128) -> Chain {
    let mut c = Chain::new(core_blockchain());
    c.treasury = Some(TREASURY);
    c.ledger.insert(TREASURY, balance);
    for id in 1..10 {
        c.grant_public(id);
    }
    c
}

fn refund_issued(c: &Chain) -> Option<u128> {
    c.events.iter().find_map(|e| match e {
        IndexingEvent::RefundIssued { refund, .. } => Some(*refund),
        _ => None,
    })
}

fn insufficient_funds(c: &Chain) -> Option<(TableIdentifier, Vec<u8>, AccountId)> {
    c.events.iter().find_map(|e| match e {
        IndexingEvent::InsufficientTableFunds { table, batch_id, treasury } => {
            Some((table.clone(), batch_id.clone(), *treasury))
        }
        _ => None,
    })
}

#[test]
fn refund_issued_event_emitted_when_treasury_is_funded() {
    let mut c = funded_chain(UNIT);
    for id in 1..=4 {
        assert!(c.submit(id, &row_data()).is_ok());
    }
    assert!(c.indexing.final_data_of(&c.inner()).is_some());
    assert!(refund_issued(&c).is_some(), "Expected RefundIssued event to be emitted");
}

#[test]
fn insufficient_table_funds_event_when_treasury_empty() {
    let mut c = funded_chain(0);
    for id in 1..=4 {
        assert!(c.submit(id, &row_data()).is_ok());
    }
    // refund failure does not block finalization
    assert!(c.indexing.final_data_of(&c.inner()).is_some());
    assert!(insufficient_funds(&c).is_some(), "Expected InsufficientTableFunds event to be emitted");
    assert!(refund_issued(&c).is_none());
}

#[test]
fn refund_transfers_funds_from_treasury_to_participants() {
    let mut c = funded_chain(UNIT);
    let before = c.balance(1);
    for id in 1..=4 {
        assert!(c.submit(id, &row_data()).is_ok());
    }
    assert!(c.balance(1) > before, "Participant balance should increase after refund");
    assert!(c.balance(TREASURY) < UNIT, "Treasury balance should decrease after refunds");
}

#[test]
fn refund_issued_with_correct_cost_amount() {
    let mut c = funded_chain(UNIT);
    for id in 1..=4 {
        assert!(c.submit(id, &row_data()).is_ok());
    }
    let refund = refund_issued(&c).expect("RefundIssued event should exist");
    assert!(refund > 0, "Refund amount should be greater than zero");
    assert_eq!(refund, 4 * c.fee);
    assert_eq!(c.balance(TREASURY), UNIT - 4 * c.fee);
}

#[test]
fn insufficient_funds_when_treasury_has_partial_balance() {
    let mut c = funded_chain(1);
    for id in 1..=4 {
        assert!(c.submit(id, &row_data()).is_ok());
    }
    assert!(c.indexing.final_data_of(&c.inner()).is_some());
    assert!(insufficient_funds(&c).is_some(), "Expected InsufficientTableFunds when treasury balance is too low");
    assert_eq!(c.balance(TREASURY), 1);
}

#[test]
fn all_quorum_participants_receive_refund() {
    let mut c = funded_chain(UNIT);
    let before: Vec<u128> = (1..=4).map(|id| c.balance(id)).collect();
    for id in 1..=4 {
        assert!(c.submit(id, &row_data()).is_ok());
    }
    for (i, id) in (1..=4u64).enumerate() {
        assert!(c.balance(id) > before[i], "Participant {id} should receive a refund");
    }
}

#[test]
fn late_submission_refund_uses_post_info_pays_no() {
    let mut c = funded_chain(0);
    for id in 1..=4 {
        assert!(c.submit(id, &row_data()).is_ok());
    }
    c.events.clear();
    let result = c.submit(5, &row_data());
    assert_eq!(result, Err(IndexingError::LateBatch));
    // the late submitter is not charged
    assert_eq!(submission_pays_fee(&result), Pays::No);
    // and no refund error names the late submitter
    assert!(!c
        .events
        .iter()
        .any(|e| matches!(e, IndexingEvent::RefundError { recipient, .. } if *recipient == 5)));
    // submissions that go through are charged
    let mut d = funded_chain(0);
    assert_eq!(submission_pays_fee(&d.submit(1, &row_data())), Pays::Yes);
}

#[test]
fn dissenters_receive_base_refund_amount() {
    let mut c = funded_chain(UNIT);
    let before = c.balance(5);
    for id in 1..=3 {
        assert!(c.submit(id, &row_data()).is_ok());
    }
    assert!(c.submit(5, &diff_row_data()).is_ok());
    assert!(c.submit(6, &row_data()).is_ok());
    let fd = c.indexing.final_data_of(&c.inner()).unwrap();
    assert!(fd.dissents.contains(&5));
    assert_eq!(c.balance(5), before + c.fee, "Dissenter should receive the base refund");
}

#[test]
fn both_agreements_and_dissents_receive_refunds() {
    let mut c = funded_chain(UNIT);
    let agreers = [1u64, 2, 3, 4];
    let before: Vec<u128> = agreers.iter().map(|id| c.balance(*id)).collect();
    let dissenter_before = c.balance(5);
    for id in 1..=3 {
        assert!(c.submit(id, &row_data()).is_ok());
    }
    assert!(c.submit(5, &diff_row_data()).is_ok());
    assert!(c.submit(4, &row_data()).is_ok());
    for (i, id) in agreers.iter().enumerate() {
        assert!(c.balance(*id) > before[i], "Agreer {id} should receive refund");
    }
    assert!(c.balance(5) > dissenter_before, "Dissenter should receive refund");
}

#[test]
fn refund_error_event_contains_correct_details() {
    let mut c = funded_chain(0);
    for id in 1..=4 {
        assert!(c.submit(id, &row_data()).is_ok());
    }
    let (table, batch_id, treasury) = insufficient_funds(&c).expect("InsufficientTableFunds event should be emitted");
    assert_eq!(table, table_id(), "Event should contain correct table");
    assert_eq!(batch_id, c.inner());
    assert_eq!(treasury, TREASURY, "Event should contain correct treasury account");
}

#[test]
fn refunds_are_the_reward_for_agreements_then_the_base_for_dissents() {
    assert_eq!(
        refund_quorum_participants(&vec![1, 2], &vec![3], 10, Some(30)),
        Ok(vec![(1, 10), (2, 10), (3, 10)])
    );
    assert_eq!(
        refund_quorum_participants(&vec![1, 2], &vec![3], 10, Some(29)),
        Err(IndexingError::InsufficientTableFunds)
    );
    assert_eq!(refund_quorum_participants(&vec![1], &vec![], 10, None), Err(IndexingError::InvalidTable));
    assert_eq!(total_refund_exec(2, 1, 10), 30);
    assert_eq!(total_refund_exec(u128::MAX, 1, 10), u128::MAX);
}

#[test]
fn failed_refund_transfers_are_reported() {
    let payouts = vec![(1, 10), (2, 20), (3, 30)];
    assert_eq!(
        refund_errors(&payouts, &vec![true, false, false]),
        vec![
            IndexingEvent::RefundError { recipient: 2, refund: 20 },
            IndexingEvent::RefundError { recipient: 3, refund: 30 },
        ]
    );
    assert_eq!(refund_errors(&payouts, &vec![true, true, true]), vec![]);
}

#[test]
fn pruning_removes_undecided_batches_beyond_the_limit() {
    let mut c = Chain::new(testing(Some(5), None));
    c.grant_public(1);
    for i in 0..3u8 {
        assert!(c.submit_with(1, &table_id(), &[b'b', i], &row_data(), None).is_ok());
    }
    assert_eq!(c.indexing.on_initialize(), None);
}

#[test]
fn quorum_lists_its_submitters_in_ascending_order() {
    let mut c = Chain::new(core_blockchain());
    for id in 1..10 {
        c.grant_public(id);
    }
    for id in [8u64, 2, 6] {
        assert!(c.submit(id, &row_data()).is_ok());
    }
    for id in [7u64, 3] {
        assert!(c.submit(id, &diff_row_data()).is_ok());
    }
    assert!(c.submit(4, &row_data()).is_ok());
    let fd = c.indexing.final_data_of(&c.inner()).unwrap();
    assert_eq!(fd.agreements, vec![2, 4, 6, 8]);
    assert_eq!(fd.dissents, vec![3, 7]);
}
