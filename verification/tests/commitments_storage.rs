use sxt_pallets::commitments::{
    AnyTableCommitments, CommitmentKey, CommitmentScheme, CommitmentSchemeFlags, CommitmentsError,
    CommitmentsPallet, DeleteDynamicDoryCommitmentsLazyMigration, KeyExistsError, ProcessInsertError,
    SteppedMigrationError, TableCommitmentBytesPerCommitmentScheme,
};
use sxt_pallets::types::TableIdentifier;
use sxt_pallets::weights::{Weight, WeightMeter};

fn fake_commitment(seed: u8) -> Vec<u8> {
    vec![seed; seed as usize]
}

fn id(ns: &str, name: &str) -> TableIdentifier {
    TableIdentifier::new(ns.as_bytes().to_vec(), name.as_bytes().to_vec())
}

fn pallet() -> CommitmentsPallet {
    CommitmentsPallet::new(CommitmentSchemeFlags { hyper_kzg: true, dynamic_dory: true })
}

fn only(scheme: CommitmentScheme, bytes: Vec<u8>) -> TableCommitmentBytesPerCommitmentScheme {
    match scheme {
        CommitmentScheme::HyperKzg => TableCommitmentBytesPerCommitmentScheme { hyper_kzg: Some(bytes), dynamic_dory: None },
        CommitmentScheme::DynamicDory => TableCommitmentBytesPerCommitmentScheme { hyper_kzg: None, dynamic_dory: Some(bytes) },
    }
}

#[test]
fn we_can_initiate_precomputed_commitments() {
    let mut p = pallet();
    let table_id = id("test", "table");
    let per_scheme = only(CommitmentScheme::DynamicDory, vec![1, 2, 3]);
    p.initiate_precomputed_commitments(table_id.clone(), &per_scheme).unwrap();
    assert_eq!(p.table_commitment(&table_id, CommitmentScheme::HyperKzg), None);
    assert_eq!(p.table_commitment(&table_id, CommitmentScheme::DynamicDory), Some(vec![1, 2, 3]));
}

#[test]
fn we_cannot_initiate_commitments_if_table_already_exists() {
    let mut p = pallet();
    let table_id = id("test", "table");
    let per_scheme = only(CommitmentScheme::DynamicDory, vec![1, 2, 3]);
    p.initiate_precomputed_commitments(table_id.clone(), &per_scheme).unwrap();
    assert_eq!(
        p.initiate_precomputed_commitments(table_id.clone(), &per_scheme),
        Err(KeyExistsError { key: table_id })
    );
}

#[test]
fn we_can_get_table_commitments_of_any_scheme() {
    let mut p = pallet();
    let table_id_0 = id("ANIMAL", "POPULATION");
    let table_id_1 = id("LUMBER", "YARDS");
    let tables = vec![table_id_0.clone(), table_id_1.clone()];

    // no commitments for any scheme
    assert_eq!(p.table_commitments_any_scheme(&tables), None);

    // no commitments for one scheme, incomplete commitments for the other
    p.process_insert_and_update_commitments(&table_id_0, &Ok(only(CommitmentScheme::DynamicDory, fake_commitment(0))))
        .unwrap();
    assert_eq!(p.table_commitments_any_scheme(&tables), None);

    // incomplete commitments for both schemes
    p.process_insert_and_update_commitments(&table_id_1, &Ok(only(CommitmentScheme::HyperKzg, fake_commitment(1))))
        .unwrap();
    assert_eq!(p.table_commitments_any_scheme(&tables), None);

    // incomplete commitments for one scheme, complete commitments for the other
    p.process_insert_and_update_commitments(&table_id_1, &Ok(only(CommitmentScheme::DynamicDory, fake_commitment(2))))
        .unwrap();
    assert_eq!(
        p.table_commitments_any_scheme(&tables),
        Some(AnyTableCommitments::DynamicDory(vec![fake_commitment(0), fake_commitment(2)]))
    );

    // complete commitments for both (variant order determines priority)
    p.process_insert_and_update_commitments(&table_id_0, &Ok(only(CommitmentScheme::HyperKzg, fake_commitment(3))))
        .unwrap();
    assert_eq!(
        p.table_commitments_any_scheme(&tables),
        Some(AnyTableCommitments::HyperKzg(vec![fake_commitment(3), fake_commitment(1)]))
    );
}

#[test]
fn we_can_process_insert() {
    let mut p = pallet();
    let t = id("ANIMAL", "POPULATION");
    p.initiate_precomputed_commitments(
        t.clone(),
        &TableCommitmentBytesPerCommitmentScheme { hyper_kzg: Some(vec![1]), dynamic_dory: Some(vec![2]) },
    )
    .unwrap();
    let previous = p.commitments_of(&t);
    assert_eq!(previous, TableCommitmentBytesPerCommitmentScheme { hyper_kzg: Some(vec![1]), dynamic_dory: Some(vec![2]) });
    let updated = TableCommitmentBytesPerCommitmentScheme { hyper_kzg: Some(vec![1, 1]), dynamic_dory: Some(vec![2, 2]) };
    assert_eq!(p.process_insert_and_update_commitments(&t, &Ok(updated)), Ok(()));
    assert_eq!(p.table_commitment(&t, CommitmentScheme::HyperKzg), Some(vec![1, 1]));
    assert_eq!(p.table_commitment(&t, CommitmentScheme::DynamicDory), Some(vec![2, 2]));
}

#[test]
fn we_cannot_process_inserts_for_nonexistent_table() {
    let mut p = pallet();
    let t = id("ANIMAL", "POPULATION");
    assert_eq!(
        p.process_insert_and_update_commitments(&t, &Err(ProcessInsertError::NoCommitments)),
        Err(CommitmentsError::NoExistingCommitments)
    );
    assert_eq!(p.table_commitment(&t, CommitmentScheme::HyperKzg), None);
}

#[test]
fn we_cannot_process_inserts_for_table_with_out_of_bounds_values() {
    let mut p = pallet();
    let t = id("ANIMAL", "POPULATION");
    p.initiate_precomputed_commitments(t.clone(), &only(CommitmentScheme::HyperKzg, vec![1])).unwrap();
    assert_eq!(
        p.process_insert_and_update_commitments(&t, &Err(ProcessInsertError::OutOfScalarBounds)),
        Err(CommitmentsError::InsertDataOutOfBounds)
    );
    assert_eq!(p.table_commitment(&t, CommitmentScheme::HyperKzg), Some(vec![1]));
}

#[test]
fn we_cannot_process_inserts_that_dont_match_table() {
    let mut p = pallet();
    let t = id("ANIMAL", "POPULATION");
    p.initiate_precomputed_commitments(t.clone(), &only(CommitmentScheme::HyperKzg, vec![1])).unwrap();
    assert_eq!(
        p.process_insert_and_update_commitments(&t, &Err(ProcessInsertError::ColumnCommitmentsMismatch)),
        Err(CommitmentsError::InsertDataDoesntMatchExistingCommitments)
    );
    assert_eq!(
        p.process_insert_and_update_commitments(&t, &Err(ProcessInsertError::TableCommitmentRangeMismatch)),
        Err(CommitmentsError::ExistingCommitmentsRangeMismatch)
    );
    assert_eq!(p.table_commitment(&t, CommitmentScheme::HyperKzg), Some(vec![1]));
}

fn key(t: &TableIdentifier, scheme: CommitmentScheme) -> CommitmentKey {
    CommitmentKey { table: t.clone(), scheme }
}

#[test]
fn dynamic_dory_migration_deletes_in_steps() {
    let mut p = pallet();
    let tables: Vec<TableIdentifier> = (0..4).map(|i| id("NS", &format!("T{i}"))).collect();
    let mut keys = Vec::new();
    for t in &tables {
        p.initiate_precomputed_commitments(
            t.clone(),
            &TableCommitmentBytesPerCommitmentScheme { hyper_kzg: Some(vec![1]), dynamic_dory: Some(vec![2]) },
        )
        .unwrap();
        keys.push(key(t, CommitmentScheme::HyperKzg));
        keys.push(key(t, CommitmentScheme::DynamicDory));
    }
    let required = Weight::from_parts(10, 1);
    // not even one entry fits
    let mut meter = WeightMeter::with_limit(Weight::from_parts(9, 100));
    assert_eq!(
        DeleteDynamicDoryCommitmentsLazyMigration::step(&mut p, &keys, &mut meter, required),
        Err(SteppedMigrationError::InsufficientWeight { required })
    );
    // five entries per step at most
    let mut meter = WeightMeter::with_limit(Weight::from_parts(1000, 1000));
    let cursor = DeleteDynamicDoryCommitmentsLazyMigration::step(&mut p, &keys, &mut meter, required).unwrap();
    assert_eq!(cursor, Some(key(&tables[2], CommitmentScheme::HyperKzg)));
    assert_eq!(meter.consumed(), Weight::from_parts(50, 5));
    assert_eq!(p.table_commitment(&tables[0], CommitmentScheme::DynamicDory), None);
    assert_eq!(p.table_commitment(&tables[1], CommitmentScheme::DynamicDory), None);
    assert_eq!(p.table_commitment(&tables[2], CommitmentScheme::DynamicDory), Some(vec![2]));
    assert_eq!(p.table_commitment(&tables[0], CommitmentScheme::HyperKzg), Some(vec![1]));
    // the rest: fewer than five entries, so the walk ends, counting one more read
    let rest: Vec<CommitmentKey> = keys[5..].iter().map(|k| key(&k.table, k.scheme)).collect();
    let mut meter = WeightMeter::with_limit(Weight::from_parts(1000, 1000));
    assert_eq!(DeleteDynamicDoryCommitmentsLazyMigration::step(&mut p, &rest, &mut meter, required), Ok(None));
    assert_eq!(meter.consumed(), Weight::from_parts(40, 4));
    for t in &tables {
        assert_eq!(p.table_commitment(t, CommitmentScheme::DynamicDory), None);
        assert_eq!(p.table_commitment(t, CommitmentScheme::HyperKzg), Some(vec![1]));
    }
}
