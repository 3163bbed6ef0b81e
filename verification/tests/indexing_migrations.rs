use sxt_pallets::commitments::SteppedMigrationError;
use sxt_pallets::indexing::{
    IndexingConfig, IndexingEvent, IndexingPallet, QuorumScope, SubmissionV0, SubmittersByScope,
};
use sxt_pallets::indexing_migrations::{LazyMigrationV1, LazyMigrationV2, SubmissionKey};
use sxt_pallets::types::DataHash;
use sxt_pallets::weights::{Weight, WeightMeter};

fn pallet() -> IndexingPallet {
    IndexingPallet::new(IndexingConfig {
        max_submitters: 32,
        max_batches_finding_quorum: 100,
        max_batches_pruned: 10,
    })
}

/// Stands for the runtime's hash of a seed.
fn seed_hash(seed: u64) -> DataHash {
    let mut h = [0u8; 32];
    h[..8].copy_from_slice(&seed.to_le_bytes());
    h[31] = 0xAB;
    h
}

/// A batch of the old storage with a variety of submitters: `seed % 32`
/// privileged ones and at least one public one.
fn submissions_from_seed(seed: u64) -> SubmissionV0 {
    let num_privileged_submissions = seed % 32;
    let num_public_submissions = ((seed * 2) % 31) + 1;
    SubmissionV0 {
        batch_id: seed.to_le_bytes().to_vec(),
        data_hash: seed_hash(seed),
        submitters: SubmittersByScope {
            public: (0..num_public_submissions).map(|i| seed * 32 + i).collect(),
            privileged: (0..num_privileged_submissions).map(|i| seed * 32 + i).collect(),
        },
    }
}

fn step_weight() -> Weight {
    Weight::from_parts(1_000, 10)
}

/// Runs one step of the first migration with room for `n` entries.
fn run_v1_block(
    pallet: &mut IndexingPallet,
    cursor: Option<(Vec<u8>, DataHash)>,
    n: u64,
) -> Result<Option<(Vec<u8>, DataHash)>, SteppedMigrationError> {
    let mut meter = WeightMeter::with_limit(step_weight().saturating_mul(n));
    LazyMigrationV1::step(pallet, cursor, &mut meter, step_weight())
}

fn is_migrated(pallet: &IndexingPallet, entry: &SubmissionV0) -> bool {
    let first = entry.submitters.iter_scope(QuorumScope::Public)[0];
    pallet.submission_of(&entry.batch_id, QuorumScope::Public, first).is_some()
}

#[test]
fn tests_lazy_migration_works() {
    let mut pallet = pallet();
    for seed in 0..64u64 {
        pallet.insert_submission_v0(submissions_from_seed(seed));
    }

    let mut cursor = None;
    let mut last_num_migrated = 0;
    for _block in 2..=9 {
        cursor = run_v1_block(&mut pallet, cursor, 8).unwrap();
        assert!(cursor.is_some());

        let mut num_migrated = 0;
        for seed in 0..64u64 {
            let entry = submissions_from_seed(seed);
            if is_migrated(&pallet, &entry) {
                for scope in [QuorumScope::Public, QuorumScope::Privileged] {
                    for who in entry.submitters.iter_scope(scope) {
                        assert_eq!(
                            pallet.submission_of(&entry.batch_id, scope, *who),
                            Some(entry.data_hash)
                        );
                    }
                }
                num_migrated += 1;
            }
        }
        assert_eq!(num_migrated, last_num_migrated + 8);
        last_num_migrated = num_migrated;
    }

    // everything moved; one more step finds the old storage empty
    for seed in 0..64u64 {
        let entry = submissions_from_seed(seed);
        for scope in [QuorumScope::Public, QuorumScope::Privileged] {
            for who in entry.submitters.iter_scope(scope) {
                assert_eq!(
                    pallet.submission_of(&entry.batch_id, scope, *who),
                    Some(entry.data_hash)
                );
            }
        }
    }
    assert_eq!(run_v1_block(&mut pallet, cursor, 8), Ok(None));
}

#[test]
fn migration_v1_cursor_names_the_last_moved_entry() {
    let mut pallet = pallet();
    for seed in 0..5u64 {
        pallet.insert_submission_v0(submissions_from_seed(seed));
    }
    let cursor = run_v1_block(&mut pallet, None, 3).unwrap();
    assert_eq!(cursor, Some((2u64.to_le_bytes().to_vec(), seed_hash(2))));
    assert!(is_migrated(&pallet, &submissions_from_seed(2)));
    assert!(!is_migrated(&pallet, &submissions_from_seed(3)));
    // room for the two entries left and the read that finds none
    assert_eq!(run_v1_block(&mut pallet, cursor, 3), Ok(None));
    assert!(is_migrated(&pallet, &submissions_from_seed(4)));
}

#[test]
fn migration_v1_needs_weight_for_one_entry() {
    let mut pallet = pallet();
    pallet.insert_submission_v0(submissions_from_seed(1));
    let mut meter = WeightMeter::with_limit(Weight::from_parts(999, 10));
    assert_eq!(
        LazyMigrationV1::step(&mut pallet, None, &mut meter, step_weight()),
        Err(SteppedMigrationError::InsufficientWeight { required: step_weight() })
    );
    assert_eq!(meter.consumed(), Weight::zero());
    assert!(!is_migrated(&pallet, &submissions_from_seed(1)));
}

#[test]
fn migration_v1_merges_hashes_of_one_batch() {
    let mut pallet = pallet();
    let batch = b"batch".to_vec();
    pallet.insert_submission_v0(SubmissionV0 {
        batch_id: batch.clone(),
        data_hash: [1u8; 32],
        submitters: SubmittersByScope { public: vec![1, 2], privileged: vec![] },
    });
    pallet.insert_submission_v0(SubmissionV0 {
        batch_id: batch.clone(),
        data_hash: [2u8; 32],
        submitters: SubmittersByScope { public: vec![3], privileged: vec![4] },
    });
    assert_eq!(run_v1_block(&mut pallet, None, 10), Ok(None));
    assert_eq!(pallet.submission_of(&batch, QuorumScope::Public, 1), Some([1u8; 32]));
    assert_eq!(pallet.submission_of(&batch, QuorumScope::Public, 2), Some([1u8; 32]));
    assert_eq!(pallet.submission_of(&batch, QuorumScope::Public, 3), Some([2u8; 32]));
    assert_eq!(pallet.submission_of(&batch, QuorumScope::Privileged, 4), Some([2u8; 32]));
    assert_eq!(pallet.submission_of(&batch, QuorumScope::Privileged, 1), None);
}

#[test]
fn inserting_an_old_entry_twice_replaces_it() {
    let mut pallet = pallet();
    let mut entry = submissions_from_seed(7);
    pallet.insert_submission_v0(entry.clone());
    entry.submitters.public = vec![500];
    pallet.insert_submission_v0(entry.clone());
    assert_eq!(run_v1_block(&mut pallet, None, 10), Ok(None));
    assert_eq!(pallet.submission_of(&entry.batch_id, QuorumScope::Public, 500), Some(entry.data_hash));
    assert_eq!(pallet.submission_of(&entry.batch_id, QuorumScope::Public, 7 * 32), None);
}

#[test]
fn the_block_hook_prunes_old_submissions_first() {
    let mut pallet = pallet();
    for seed in 0..15u64 {
        pallet.insert_submission_v0(submissions_from_seed(seed));
    }
    assert_eq!(pallet.on_initialize(), Some(IndexingEvent::BatchQueuePruned { num_pruned: 10 }));
    assert_eq!(pallet.on_initialize(), Some(IndexingEvent::BatchQueuePruned { num_pruned: 5 }));
    assert_eq!(pallet.on_initialize(), None);
    // nothing is left to migrate
    assert_eq!(run_v1_block(&mut pallet, None, 1), Ok(None));
    assert!(!is_migrated(&pallet, &submissions_from_seed(14)));
}

#[test]
fn pruning_old_submissions_returns_the_unused_limit() {
    let mut pallet = pallet();
    for seed in 0..4u64 {
        pallet.insert_submission_v0(submissions_from_seed(seed));
    }
    assert_eq!(pallet.prune_submissions_v0(3), 0);
    // the pruned entries were the first three: only the fourth moves
    assert_eq!(run_v1_block(&mut pallet, None, 5), Ok(None));
    assert!(!is_migrated(&pallet, &submissions_from_seed(2)));
    assert!(is_migrated(&pallet, &submissions_from_seed(3)));
    assert_eq!(pallet.prune_submissions_v0(3), 3);

    let mut pallet = self::pallet();
    pallet.insert_submission_v0(submissions_from_seed(0));
    assert_eq!(pallet.prune_submissions_v0(3), 2);
}

/// The submissions keys of the seeded batches, in the order the storage
/// walks them.
fn seeded_keys(num: u64) -> Vec<SubmissionKey> {
    let mut keys = Vec::new();
    for seed in 0..num {
        let entry = submissions_from_seed(seed);
        for scope in [QuorumScope::Public, QuorumScope::Privileged] {
            for who in entry.submitters.iter_scope(scope) {
                keys.push(SubmissionKey { batch_id: entry.batch_id.clone(), scope, who: *who });
            }
        }
    }
    keys
}

fn keys_after(keys: &[SubmissionKey], cursor: &Option<SubmissionKey>) -> Vec<SubmissionKey> {
    match cursor {
        None => keys.to_vec(),
        Some(c) => {
            let at = keys.iter().position(|k| k == c).unwrap();
            keys[at + 1..].to_vec()
        }
    }
}

fn queued(pallet: &IndexingPallet, seed: u64) -> bool {
    let batch = seed.to_le_bytes().to_vec();
    (0..pallet.batch_queue_len() as u32).any(|i| pallet.batch_queue_get(i) == Some(batch.clone()))
}

#[test]
fn lazy_migration_v2_queues_each_batch_once() {
    let mut pallet = pallet();
    let keys = seeded_keys(64);
    let mut cursor: Option<SubmissionKey> = None;
    let mut last_num_migrated = 0;
    for _block in 2..=9 {
        let rest = keys_after(&keys, &cursor);
        let mut meter = WeightMeter::with_limit(step_weight().saturating_mul(8));
        cursor = LazyMigrationV2::step(&mut pallet, &rest, cursor, &mut meter, step_weight()).unwrap();
        let num_migrated = (0..64u64).filter(|seed| queued(&pallet, *seed)).count();
        assert_eq!(num_migrated, last_num_migrated + 8);
        last_num_migrated = num_migrated;
    }
    for seed in 0..64u64 {
        assert!(queued(&pallet, seed));
    }
    assert_eq!(pallet.batch_queue_len(), 64);
    // in storage order: seed `i` sits at queue position `i`
    assert_eq!(pallet.batch_queue_get(5), Some(5u64.to_le_bytes().to_vec()));

    let rest = keys_after(&keys, &cursor);
    assert!(rest.is_empty());
    let mut meter = WeightMeter::with_limit(step_weight().saturating_mul(8));
    assert_eq!(LazyMigrationV2::step(&mut pallet, &rest, cursor, &mut meter, step_weight()), Ok(None));
    assert_eq!(meter.consumed(), step_weight());
}

#[test]
fn migration_v2_cursor_is_the_last_key_of_the_batch() {
    let mut pallet = pallet();
    let keys = seeded_keys(3);
    let mut meter = WeightMeter::with_limit(step_weight().saturating_mul(2));
    let cursor = LazyMigrationV2::step(&mut pallet, &keys, None, &mut meter, step_weight()).unwrap();
    let last_of_second = keys.iter().filter(|k| k.batch_id == 1u64.to_le_bytes().to_vec()).last().cloned();
    assert_eq!(cursor, last_of_second);
    assert_eq!(pallet.batch_queue_len(), 2);
    assert_eq!(meter.consumed(), step_weight().saturating_mul(2));
}

#[test]
fn migration_v2_needs_weight_for_one_batch() {
    let mut pallet = pallet();
    let keys = seeded_keys(1);
    let mut meter = WeightMeter::with_limit(Weight::from_parts(1_000, 9));
    assert_eq!(
        LazyMigrationV2::step(&mut pallet, &keys, None, &mut meter, step_weight()),
        Err(SteppedMigrationError::InsufficientWeight { required: step_weight() })
    );
    assert_eq!(pallet.batch_queue_len(), 0);
}

#[test]
fn migration_ids_name_the_pallet_and_versions() {
    let v1 = LazyMigrationV1::id();
    assert_eq!(&v1.pallet_id, b"pallet-indexing-migrations");
    assert_eq!((v1.version_from, v1.version_to), (0, 1));
    let v2 = LazyMigrationV2::id();
    assert_eq!(&v2.pallet_id, b"pallet-indexing-migrations");
    assert_eq!((v2.version_from, v2.version_to), (1, 2));
}
