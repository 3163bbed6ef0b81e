//! Simulates an insert into a table's commitments: the end row each
//! commitment would have after it, which must stay within a limit and agree
//! across schemes.

use vstd::prelude::*;

verus! {

/// The insert cannot be performed as the resulting end row exceeds the limit.
#[derive(Debug, Clone, Copy, PartialEq, Eq, Structural)]
pub struct InsertExceedsLimit {
    /// The original end row value before insert.
    pub original_end: u32,
    /// The length of the insert.
    pub insert_len: u32,
}

impl InsertExceedsLimit {
    /// The message this error shows.
    pub fn message(&self) -> (r: &'static str)
        ensures
            r@ == "the insert cannot be performed as the resulting end row exceeds the limit."@,
    {
        "the insert cannot be performed as the resulting end row exceeds the limit."
    }
}

/// Errors that can occur when simulating the end row value after an insert for all commitments.
#[derive(Debug, Clone, Copy, PartialEq, Eq, Structural)]
pub enum EndRowInsertSimulationAllSchemesError {
    /// No commitments to simulate insert.
    NoCommitments,
    /// Table commitments have mismatched rows.
    EndRowMismatch,
    /// The insert cannot be performed as it exceeds the limit.
    ExceedsLimit {
        /// The source limit error.
        source: InsertExceedsLimit,
    },
}

impl EndRowInsertSimulationAllSchemesError {
    /// The message this error shows.
    pub fn message(&self) -> (r: &'static str)
        ensures
            r@ == match self {
                EndRowInsertSimulationAllSchemesError::NoCommitments => "no commitments to simulate insert"@,
                EndRowInsertSimulationAllSchemesError::EndRowMismatch => "table commitments have mismatched end rows"@,
                EndRowInsertSimulationAllSchemesError::ExceedsLimit { .. } => "the insert cannot be performed as the resulting end row exceeds the limit."@,
            },
    {
        match self {
            EndRowInsertSimulationAllSchemesError::NoCommitments => "no commitments to simulate insert",
            EndRowInsertSimulationAllSchemesError::EndRowMismatch => "table commitments have mismatched end rows",
            EndRowInsertSimulationAllSchemesError::ExceedsLimit { source } => source.message(),
        }
    }
}

/// One value per commitment scheme.
#[derive(Debug, PartialEq, Eq)]
pub struct PerCommitmentScheme<T> {
    /// The HyperKZG value.
    pub hyper_kzg: T,
    /// The Dynamic Dory value.
    pub dynamic_dory: T,
}

/// The end row after inserting `insert_len` rows into a commitment ending at
/// `original_end`, if it fits in a `u32` and is at most `end_row_limit`.
pub open spec fn spec_end_row(insert_len: u32, original_end: u32, end_row_limit: u32) -> Result<
    u32,
    InsertExceedsLimit,
> {
    if original_end + insert_len <= u32::MAX && original_end + insert_len <= end_row_limit {
        Ok((original_end + insert_len) as u32)
    } else {
        Err(InsertExceedsLimit { original_end, insert_len })
    }
}

/// The simulation for a commitment that may be absent.
pub open spec fn spec_maybe_end_row(insert_len: u32, end: Option<u32>, end_row_limit: u32) -> Option<
    Result<u32, InsertExceedsLimit>,
> {
    match end {
        Some(e) => Some(spec_end_row(insert_len, e, end_row_limit)),
        None => None,
    }
}

/// The outcome over both schemes: the first scheme that exceeds its limit,
/// else the end row they all agree on, else a mismatch; no commitment at all
/// is an error.
pub open spec fn spec_all_schemes(
    insert_len: u32,
    ends: PerCommitmentScheme<Option<u32>>,
    limits: PerCommitmentScheme<u32>,
) -> Result<u32, EndRowInsertSimulationAllSchemesError> {
    let a = spec_maybe_end_row(insert_len, ends.hyper_kzg, limits.hyper_kzg);
    let b = spec_maybe_end_row(insert_len, ends.dynamic_dory, limits.dynamic_dory);
    match (a, b) {
        (Some(Err(e)), _) => Err(EndRowInsertSimulationAllSchemesError::ExceedsLimit { source: e }),
        (_, Some(Err(e))) => Err(EndRowInsertSimulationAllSchemesError::ExceedsLimit { source: e }),
        (None, None) => Err(EndRowInsertSimulationAllSchemesError::NoCommitments),
        (Some(Ok(x)), None) => Ok(x),
        (None, Some(Ok(y))) => Ok(y),
        (Some(Ok(x)), Some(Ok(y))) => if x == y {
            Ok(x)
        } else {
            Err(EndRowInsertSimulationAllSchemesError::EndRowMismatch)
        },
    }
}

/// Returns the end row value that would result from inserting `insert_len`
/// rows to a commitment ending at `original_end`.
fn table_commitment_end_row_insert_simulation(
    insert_len: u32,
    original_end: u32,
    end_row_limit: u32,
) -> (r: Result<u32, InsertExceedsLimit>)
    ensures
        r == spec_end_row(insert_len, original_end, end_row_limit),
{
    match original_end.checked_add(insert_len) {
        Some(new_end) => if new_end <= end_row_limit {
            Ok(new_end)
        } else {
            Err(InsertExceedsLimit { original_end, insert_len })
        },
        None => Err(InsertExceedsLimit { original_end, insert_len }),
    }
}

/// Simulates an insert of a fixed length into a table commitment.
#[derive(Debug, Clone, Copy, PartialEq, Eq, Structural)]
pub struct TableCommitmentEndRowInsertSimulation {
    insert_len: u32,
}

impl TableCommitmentEndRowInsertSimulation {
    /// The number of rows inserted.
    pub closed spec fn spec_insert_len(self) -> u32 {
        self.insert_len
    }

    /// A simulation of inserting `insert_len` rows.
    pub fn new(insert_len: u32) -> (r: Self)
        ensures
            r.spec_insert_len() == insert_len,
    {
        TableCommitmentEndRowInsertSimulation { insert_len }
    }

    /// The end row after the insert for a commitment ending at
    /// `table_commitment_end`, if there is a commitment.
    pub fn call(&self, table_commitment_end: Option<u32>, end_row_limit: u32) -> (r: Option<
        Result<u32, InsertExceedsLimit>,
    >)
        ensures
            r == spec_maybe_end_row(self.spec_insert_len(), table_commitment_end, end_row_limit),
    {
        match table_commitment_end {
            Some(end) => Some(
                table_commitment_end_row_insert_simulation(self.insert_len, end, end_row_limit),
            ),
            None => None,
        }
    }
}

/// Simulates an insert and returns the resulting end row for all
/// commitments.  `table_commitment_ends` holds, per scheme, the end row of
/// the table's commitment, if it has one.
pub fn table_commitment_end_row_insert_simulation_all_schemes(
    insert_len: u32,
    table_commitment_ends: PerCommitmentScheme<Option<u32>>,
    end_row_limits_per_scheme: PerCommitmentScheme<u32>,
) -> (r: Result<u32, EndRowInsertSimulationAllSchemesError>)
    ensures
        r == spec_all_schemes(insert_len, table_commitment_ends, end_row_limits_per_scheme),
{
    let sim = TableCommitmentEndRowInsertSimulation::new(insert_len);
    let a = sim.call(table_commitment_ends.hyper_kzg, end_row_limits_per_scheme.hyper_kzg);
    let b = sim.call(table_commitment_ends.dynamic_dory, end_row_limits_per_scheme.dynamic_dory);
    match (a, b) {
        (Some(Err(e)), _) => Err(EndRowInsertSimulationAllSchemesError::ExceedsLimit { source: e }),
        (_, Some(Err(e))) => Err(EndRowInsertSimulationAllSchemesError::ExceedsLimit { source: e }),
        (None, None) => Err(EndRowInsertSimulationAllSchemesError::NoCommitments),
        (Some(Ok(x)), None) => Ok(x),
        (None, Some(Ok(y))) => Ok(y),
        (Some(Ok(x)), Some(Ok(y))) => if x == y {
            Ok(x)
        } else {
            Err(EndRowInsertSimulationAllSchemesError::EndRowMismatch)
        },
    }
}

/// A successful simulation never passes a limit, and adds exactly the
/// inserted rows to the original end of every commitment.
pub proof fn lemma_end_row_within_limits(
    insert_len: u32,
    ends: PerCommitmentScheme<Option<u32>>,
    limits: PerCommitmentScheme<u32>,
)
    requires
        spec_all_schemes(insert_len, ends, limits) is Ok,
    ensures
        ({
            let end = spec_all_schemes(insert_len, ends, limits)->Ok_0;
            &&& ends.hyper_kzg matches Some(e) ==> end == e + insert_len && end <= limits.hyper_kzg
            &&& ends.dynamic_dory matches Some(e) ==> end == e + insert_len && end
                <= limits.dynamic_dory
        }),
{
}

} // verus!
