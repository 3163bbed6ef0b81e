use sxt_pallets::end_row_insert_simulation::{
    table_commitment_end_row_insert_simulation_all_schemes, EndRowInsertSimulationAllSchemesError,
    InsertExceedsLimit, PerCommitmentScheme, TableCommitmentEndRowInsertSimulation,
};

fn limits(h: u32, d: u32) -> PerCommitmentScheme<u32> {
    PerCommitmentScheme { hyper_kzg: h, dynamic_dory: d }
}

fn ends(h: Option<u32>, d: Option<u32>) -> PerCommitmentScheme<Option<u32>> {
    PerCommitmentScheme { hyper_kzg: h, dynamic_dory: d }
}

#[test]
fn single_scheme_simulation() {
    let sim = TableCommitmentEndRowInsertSimulation::new(10);
    assert_eq!(sim.call(None, 100), None);
    assert_eq!(sim.call(Some(5), 100), Some(Ok(15)));
    assert_eq!(sim.call(Some(90), 100), Some(Ok(100)));
    assert_eq!(sim.call(Some(91), 100), Some(Err(InsertExceedsLimit { original_end: 91, insert_len: 10 })));
    let sim = TableCommitmentEndRowInsertSimulation::new(u32::MAX);
    assert_eq!(
        sim.call(Some(1), u32::MAX),
        Some(Err(InsertExceedsLimit { original_end: 1, insert_len: u32::MAX }))
    );
}

#[test]
fn all_schemes_simulation() {
    assert_eq!(
        table_commitment_end_row_insert_simulation_all_schemes(3, ends(None, None), limits(10, 10)),
        Err(EndRowInsertSimulationAllSchemesError::NoCommitments)
    );
    assert_eq!(table_commitment_end_row_insert_simulation_all_schemes(3, ends(Some(4), None), limits(10, 0)), Ok(7));
    assert_eq!(table_commitment_end_row_insert_simulation_all_schemes(3, ends(None, Some(4)), limits(0, 10)), Ok(7));
    assert_eq!(table_commitment_end_row_insert_simulation_all_schemes(3, ends(Some(4), Some(4)), limits(7, 7)), Ok(7));
    assert_eq!(
        table_commitment_end_row_insert_simulation_all_schemes(3, ends(Some(4), Some(5)), limits(10, 10)),
        Err(EndRowInsertSimulationAllSchemesError::EndRowMismatch)
    );
    assert_eq!(
        table_commitment_end_row_insert_simulation_all_schemes(3, ends(Some(4), Some(9)), limits(10, 10)),
        Err(EndRowInsertSimulationAllSchemesError::ExceedsLimit {
            source: InsertExceedsLimit { original_end: 9, insert_len: 3 }
        })
    );
    // the first scheme that exceeds its limit is reported
    assert_eq!(
        table_commitment_end_row_insert_simulation_all_schemes(3, ends(Some(8), Some(9)), limits(10, 10)),
        Err(EndRowInsertSimulationAllSchemesError::ExceedsLimit {
            source: InsertExceedsLimit { original_end: 8, insert_len: 3 }
        })
    );
}

#[test]
fn error_messages() {
    let e = InsertExceedsLimit { original_end: 1, insert_len: 2 };
    assert_eq!(e.message(), "the insert cannot be performed as the resulting end row exceeds the limit.");
    assert_eq!(EndRowInsertSimulationAllSchemesError::NoCommitments.message(), "no commitments to simulate insert");
    assert_eq!(
        EndRowInsertSimulationAllSchemesError::EndRowMismatch.message(),
        "table commitments have mismatched end rows"
    );
    assert_eq!(
        EndRowInsertSimulationAllSchemesError::ExceedsLimit { source: e }.message(),
        "the insert cannot be performed as the resulting end row exceeds the limit."
    );
}
