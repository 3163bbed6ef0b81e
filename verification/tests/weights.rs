use sxt_pallets::weights::{RuntimeDbWeight, SubstrateWeight, Weight, WeightInfo, WeightMeter};

#[test]
fn keystore_weights() {
    let w = SubstrateWeight { db: RuntimeDbWeight { read: 25_000_000, write: 100_000_000 } };
    assert_eq!(w.register_key(), Weight::from_parts(555_613_000 + 125_000_000, 3547));
    assert_eq!(w.unregister_key(), Weight::from_parts(8_108_000 + 125_000_000, 3547));
    assert_eq!(().register_key(), Weight::from_parts(555_613_000, 3547));
    assert_eq!(().unregister_key(), Weight::from_parts(8_108_000, 3547));
    let huge = SubstrateWeight { db: RuntimeDbWeight { read: u64::MAX, write: 1 } };
    assert_eq!(huge.register_key().ref_time, u64::MAX);
}

#[test]
fn weight_arithmetic() {
    let a = Weight::from_parts(10, 4);
    assert_eq!(a.saturating_mul(3), Weight::from_parts(30, 12));
    assert_eq!(a.saturating_sub(Weight::from_parts(20, 1)), Weight::from_parts(0, 3));
    assert_eq!(Weight::from_parts(u64::MAX, 0).saturating_add(a), Weight::from_parts(u64::MAX, 4));
    assert_eq!(Weight::from_parts(100, 9).checked_div_per_component(a), Some(2));
    assert_eq!(Weight::from_parts(100, 9).checked_div_per_component(Weight::from_parts(10, 0)), Some(10));
    assert_eq!(a.checked_div_per_component(Weight::zero()), None);
    assert!(a.all_gte(Weight::from_parts(10, 4)));
    assert!(!a.all_gte(Weight::from_parts(11, 0)));
    assert!(a.all_lte(Weight::from_parts(10, 5)));
}

#[test]
fn meter_spends_within_limit() {
    let mut m = WeightMeter::with_limit(Weight::from_parts(10, 10));
    assert_eq!(m.try_consume(Weight::from_parts(6, 1)), Ok(()));
    assert_eq!(m.remaining(), Weight::from_parts(4, 9));
    assert_eq!(m.try_consume(Weight::from_parts(5, 1)), Err(()));
    assert_eq!(m.consumed(), Weight::from_parts(6, 1));
    assert_eq!(m.try_consume(Weight::from_parts(4, 9)), Ok(()));
    assert_eq!(m.remaining(), Weight::zero());
}
