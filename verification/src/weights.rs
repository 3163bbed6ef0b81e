//! Weights: the two-dimensional cost (execution time, proof size) of
//! extrinsics and migration steps, and a meter that spends them.

use vstd::prelude::*;

verus! {

/// A weight: execution time and proof size.
#[derive(Debug, Clone, Copy, PartialEq, Eq, Structural)]
pub struct Weight {
    /// Execution time, in picoseconds.
    pub ref_time: u64,
    /// Proof size, in bytes.
    pub proof_size: u64,
}

/// `a + b`, saturating at `u64::MAX`.
pub open spec fn sat_add(a: u64, b: u64) -> u64 {
    if a + b > u64::MAX {
        u64::MAX
    } else {
        (a + b) as u64
    }
}

/// `a * b`, saturating at `u64::MAX`.
pub open spec fn sat_mul(a: u64, b: u64) -> u64 {
    if a * b > u64::MAX {
        u64::MAX
    } else {
        (a * b) as u64
    }
}

/// `a - b`, saturating at 0.
pub open spec fn sat_sub(a: u64, b: u64) -> u64 {
    if a < b {
        0
    } else {
        (a - b) as u64
    }
}

fn saturating_mul_u64(a: u64, b: u64) -> (r: u64)
    ensures
        r == sat_mul(a, b),
{
    match a.checked_mul(b) {
        Some(v) => v,
        None => u64::MAX,
    }
}

impl Weight {
    /// A weight of its two parts.
    pub fn from_parts(ref_time: u64, proof_size: u64) -> (r: Self)
        ensures
            r == (Weight { ref_time, proof_size }),
    {
        Weight { ref_time, proof_size }
    }

    /// The zero weight.
    pub fn zero() -> (r: Self)
        ensures
            r == (Weight { ref_time: 0, proof_size: 0 }),
    {
        Weight { ref_time: 0, proof_size: 0 }
    }

    /// Component-wise saturating sum.
    pub fn saturating_add(self, other: Self) -> (r: Self)
        ensures
            r.ref_time == sat_add(self.ref_time, other.ref_time),
            r.proof_size == sat_add(self.proof_size, other.proof_size),
    {
        Weight {
            ref_time: self.ref_time.saturating_add(other.ref_time),
            proof_size: self.proof_size.saturating_add(other.proof_size),
        }
    }

    /// Component-wise saturating difference.
    pub fn saturating_sub(self, other: Self) -> (r: Self)
        ensures
            r.ref_time == sat_sub(self.ref_time, other.ref_time),
            r.proof_size == sat_sub(self.proof_size, other.proof_size),
    {
        Weight {
            ref_time: self.ref_time.saturating_sub(other.ref_time),
            proof_size: self.proof_size.saturating_sub(other.proof_size),
        }
    }

    /// Both components multiplied by `n`, saturating.
    pub fn saturating_mul(self, n: u64) -> (r: Self)
        ensures
            r.ref_time == sat_mul(self.ref_time, n),
            r.proof_size == sat_mul(self.proof_size, n),
    {
        Weight { ref_time: saturating_mul_u64(self.ref_time, n), proof_size: saturating_mul_u64(self.proof_size, n) }
    }

    /// Whether both components are at least those of `other`.
    pub fn all_gte(self, other: Self) -> (r: bool)
        ensures
            r == (self.ref_time >= other.ref_time && self.proof_size >= other.proof_size),
    {
        self.ref_time >= other.ref_time && self.proof_size >= other.proof_size
    }

    /// Whether either component is less than that of `other`.
    pub fn any_lt(self, other: Self) -> (r: bool)
        ensures
            r == (self.ref_time < other.ref_time || self.proof_size < other.proof_size),
    {
        self.ref_time < other.ref_time || self.proof_size < other.proof_size
    }

    /// Whether both components are at most those of `other`.
    pub fn all_lte(self, other: Self) -> (r: bool)
        ensures
            r == (self.ref_time <= other.ref_time && self.proof_size <= other.proof_size),
    {
        self.ref_time <= other.ref_time && self.proof_size <= other.proof_size
    }

    /// How many times `other` fits in `self`, taking the smaller count of
    /// the components; a zero component of `other` fits without limit.
    /// `None` when both components of `other` are zero.
    pub fn checked_div_per_component(self, other: Self) -> (r: Option<u64>)
        ensures
            r == spec_div_per_component(self, other),
    {
        if other.ref_time == 0 && other.proof_size == 0 {
            None
        } else {
            let a = if other.ref_time == 0 {
                u64::MAX
            } else {
                self.ref_time / other.ref_time
            };
            let b = if other.proof_size == 0 {
                u64::MAX
            } else {
                self.proof_size / other.proof_size
            };
            Some(if a < b { a } else { b })
        }
    }
}

/// How many times `other` fits in `w`, per component, the smaller count.
pub open spec fn spec_div_per_component(w: Weight, other: Weight) -> Option<u64> {
    if other.ref_time == 0 && other.proof_size == 0 {
        None
    } else {
        let a = if other.ref_time == 0 {
            u64::MAX
        } else {
            (w.ref_time / other.ref_time) as u64
        };
        let b = if other.proof_size == 0 {
            u64::MAX
        } else {
            (w.proof_size / other.proof_size) as u64
        };
        Some(if a < b { a } else { b })
    }
}

/// The weight of a database read and of a database write.
#[derive(Debug, Clone, Copy, PartialEq, Eq, Structural)]
pub struct RuntimeDbWeight {
    /// The execution time of a read.
    pub read: u64,
    /// The execution time of a write.
    pub write: u64,
}

impl RuntimeDbWeight {
    /// The weight of `n` reads.
    pub fn reads(self, n: u64) -> (r: Weight)
        ensures
            r == (Weight { ref_time: sat_mul(self.read, n), proof_size: 0 }),
    {
        Weight { ref_time: saturating_mul_u64(self.read, n), proof_size: 0 }
    }

    /// The weight of `n` writes.
    pub fn writes(self, n: u64) -> (r: Weight)
        ensures
            r == (Weight { ref_time: sat_mul(self.write, n), proof_size: 0 }),
    {
        Weight { ref_time: saturating_mul_u64(self.write, n), proof_size: 0 }
    }
}

/// Spends weight up to a limit.
#[derive(Debug, Clone, Copy, PartialEq, Eq, Structural)]
pub struct WeightMeter {
    consumed: Weight,
    limit: Weight,
}

impl WeightMeter {
    /// The weight spent.
    pub closed spec fn spec_consumed(self) -> Weight {
        self.consumed
    }

    /// The limit.
    pub closed spec fn spec_limit(self) -> Weight {
        self.limit
    }

    /// A meter with nothing spent.
    pub fn with_limit(limit: Weight) -> (r: Self)
        ensures
            r.spec_consumed() == Weight::zero_spec(),
            r.spec_limit() == limit,
    {
        WeightMeter { consumed: Weight::zero(), limit }
    }

    /// The weight spent.
    pub fn consumed(&self) -> (r: Weight)
        ensures
            r == self.spec_consumed(),
    {
        self.consumed
    }

    /// The weight left: the limit less what was spent, per component.
    pub fn remaining(&self) -> (r: Weight)
        ensures
            r.ref_time == sat_sub(self.spec_limit().ref_time, self.spec_consumed().ref_time),
            r.proof_size == sat_sub(self.spec_limit().proof_size, self.spec_consumed().proof_size),
    {
        self.limit.saturating_sub(self.consumed)
    }

    /// Spends `w` if what was spent plus `w` stays within the limit.
    pub fn try_consume(&mut self, w: Weight) -> (r: Result<(), ()>)
        ensures
            final(self).spec_limit() == old(self).spec_limit(),
            r is Ok <==> (old(self).spec_consumed().ref_time + w.ref_time <= old(self).spec_limit().ref_time
                && old(self).spec_consumed().proof_size + w.proof_size <= old(self).spec_limit().proof_size),
            r is Ok ==> final(self).spec_consumed() == (Weight {
                ref_time: (old(self).spec_consumed().ref_time + w.ref_time) as u64,
                proof_size: (old(self).spec_consumed().proof_size + w.proof_size) as u64,
            }),
            r is Err ==> final(self).spec_consumed() == old(self).spec_consumed(),
    {
        match (self.consumed.ref_time.checked_add(w.ref_time), self.consumed.proof_size.checked_add(w.proof_size)) {
            (Some(t), Some(p)) => if t <= self.limit.ref_time && p <= self.limit.proof_size {
                self.consumed = Weight { ref_time: t, proof_size: p };
                Ok(())
            } else {
                Err(())
            },
            _ => Err(()),
        }
    }
}

impl Weight {
    /// The zero weight.
    pub open spec fn zero_spec() -> Weight {
        Weight { ref_time: 0, proof_size: 0 }
    }
}

/// The weights of the keystore pallet's extrinsics.
pub trait WeightInfo {
    /// The weight of registering a key.
    fn register_key(&self) -> Weight;

    /// The weight of unregistering a key.
    fn unregister_key(&self) -> Weight;
}

/// The benchmarked weights of the keystore pallet on a runtime whose
/// database reads and writes weigh `db`.
#[derive(Debug, Clone, Copy, PartialEq, Eq, Structural)]
pub struct SubstrateWeight {
    /// The runtime's database weights.
    pub db: RuntimeDbWeight,
}

/// A benchmarked weight: `base` execution time, 3547 bytes of proof, one
/// read and one write.
pub open spec fn keystore_weight(base: u64, db: RuntimeDbWeight) -> Weight {
    Weight {
        ref_time: sat_add(sat_add(base, db.read), db.write),
        proof_size: 3547,
    }
}

impl SubstrateWeight {
    fn benchmarked(&self, base: u64) -> (r: Weight)
        ensures
            r == keystore_weight(base, self.db),
    {
        Weight::from_parts(base, 0)
            .saturating_add(Weight::from_parts(0, 3547))
            .saturating_add(self.db.reads(1))
            .saturating_add(self.db.writes(1))
    }
}

impl WeightInfo for SubstrateWeight {
    fn register_key(&self) -> (r: Weight)
        ensures
            r == keystore_weight(555_613_000, self.db),
    {
        self.benchmarked(555_613_000)
    }

    fn unregister_key(&self) -> (r: Weight)
        ensures
            r == keystore_weight(8_108_000, self.db),
    {
        self.benchmarked(8_108_000)
    }
}

impl WeightInfo for () {
    fn register_key(&self) -> (r: Weight)
        ensures
            r == (Weight { ref_time: 555_613_000, proof_size: 3547 }),
    {
        Weight::from_parts(555_613_000, 0).saturating_add(Weight::from_parts(0, 3547))
    }

    fn unregister_key(&self) -> (r: Weight)
        ensures
            r == (Weight { ref_time: 8_108_000, proof_size: 3547 }),
    {
        Weight::from_parts(8_108_000, 0).saturating_add(Weight::from_parts(0, 3547))
    }
}

} // verus!
