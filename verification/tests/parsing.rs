use sxt_pallets::parsing::{
    convert_account_id, eth_address_to_substrate_account_id, nominations_of, parse_nominate,
    parse_noderegistered, parse_stake, parse_staking, parse_unstakecancelled,
    parse_unstakeinitiated, stake_balances, unbond_amount, ColumnValues, OnChainTable,
    ParsingError, StakingRequests, U256,
};

#[test]
fn converting_from_eth_address_string_to_substrate_account_id_works() {
    let test_address = "0x67400a78A74f8211A0E15091DB79782e08Afa677";
    let r = eth_address_to_substrate_account_id(test_address);
    assert!(r.is_ok());
}

/// The account of an address: 12 zero bytes, then the address.
fn padded(address: [u8; 20]) -> [u8; 32] {
    let mut data = [0u8; 32];
    data[12..].copy_from_slice(&address);
    data
}

const ADDR_BYTES: [u8; 20] = [
    0x67, 0x40, 0x0a, 0x78, 0xA7, 0x4f, 0x82, 0x11, 0xA0, 0xE1, 0x50, 0x91, 0xDB, 0x79, 0x78, 0x2e, 0x08, 0xAf,
    0xa6, 0x77,
];

#[test]
fn eth_addresses_must_be_forty_hex_digits() {
    let account = padded(ADDR_BYTES);
    assert_eq!(eth_address_to_substrate_account_id("0x67400a78A74f8211A0E15091DB79782e08Afa677"), Ok(account));
    assert_eq!(eth_address_to_substrate_account_id("67400a78A74f8211A0E15091DB79782e08Afa677"), Ok(account));
    // every leading "0x" is stripped
    assert_eq!(eth_address_to_substrate_account_id("0x0x67400a78A74f8211A0E15091DB79782e08Afa677"), Ok(account));
    // different addresses are different accounts
    let mut other = ADDR_BYTES;
    other[0] = 0x68;
    assert_eq!(eth_address_to_substrate_account_id("0x68400a78A74f8211A0E15091DB79782e08Afa677"), Ok(padded(other)));
    assert_eq!(
        eth_address_to_substrate_account_id("0x67400a78A74f8211A0E15091DB79782e08Afa67"),
        Err(ParsingError::InvalidHexAddress)
    );
    assert_eq!(
        eth_address_to_substrate_account_id("0x67400a78A74f8211A0E15091DB79782e08Afa67g"),
        Err(ParsingError::InvalidHexAddress)
    );
    assert_eq!(
        eth_address_to_substrate_account_id("0X67400a78A74f8211A0E15091DB79782e08Afa677"),
        Err(ParsingError::InvalidHexAddress)
    );
    assert_eq!(eth_address_to_substrate_account_id("é"), Err(ParsingError::InvalidHexAddress));
    assert_eq!(eth_address_to_substrate_account_id(""), Err(ParsingError::InvalidHexAddress));
}

#[test]
fn convert_account_id_keeps_all_bytes() {
    let mut data = [0u8; 32];
    data[0] = 1;
    data[1] = 2;
    data[7] = 0x80;
    data[31] = 0xFF;
    assert_eq!(convert_account_id(data), Ok(data));
}

const ADDR: &str = "0x67400a78A74f8211A0E15091DB79782e08Afa677";

#[test]
fn nominations_are_split_on_commas_and_trimmed() {
    let nodes = format!(" {ADDR} ,not-an-address,\u{3000}{ADDR}\t,");
    assert_eq!(nominations_of(&nodes), vec![padded(ADDR_BYTES), padded(ADDR_BYTES)]);
    assert_eq!(nominations_of(&String::new()), Vec::<[u8; 32]>::new());
}

fn strings(v: &[&str]) -> Vec<String> {
    v.iter().map(|s| s.to_string()).collect()
}

fn stake_table() -> OnChainTable {
    OnChainTable {
        columns: vec![
            ("STAKER".to_string(), ColumnValues::VarChar(strings(&[ADDR, "bad", ADDR]))),
            ("NODES".to_string(), ColumnValues::VarChar(strings(&[ADDR, ADDR, &format!("{ADDR},{ADDR}")]))),
            (
                "AMOUNT".to_string(),
                ColumnValues::Decimal(vec![
                    U256 { high: 0, low: 500 },
                    U256 { high: 0, low: 7 },
                    U256 { high: 1, low: 3 },
                ]),
            ),
        ],
        num_rows: 3,
    }
}

#[test]
fn stake_rows_become_requests() {
    let requests = parse_stake(&stake_table());
    assert_eq!(requests.len(), 2);
    assert_eq!(requests[0].staker_id, padded(ADDR_BYTES));
    assert_eq!(requests[0].amount, 500);
    assert_eq!(requests[0].nominations, vec![padded(ADDR_BYTES)]);
    // an amount above u128 is clamped
    assert_eq!(requests[1].amount, u128::MAX);
    assert_eq!(requests[1].nominations, vec![padded(ADDR_BYTES), padded(ADDR_BYTES)]);
}

#[test]
fn stake_needs_all_three_columns() {
    let mut t = stake_table();
    t.columns.pop();
    assert!(parse_stake(&t).is_empty());
}

#[test]
fn other_staking_tables() {
    let t = OnChainTable {
        columns: vec![
            ("NOMINATOR".to_string(), ColumnValues::VarChar(strings(&[ADDR]))),
            ("NODES".to_string(), ColumnValues::VarChar(strings(&[&format!("{ADDR}, x")]))),
            ("STAKER".to_string(), ColumnValues::VarChar(strings(&["x"]))),
            ("NODEPUBLICKEY".to_string(), ColumnValues::VarChar(strings(&["pk1"]))),
            ("OPERATOR".to_string(), ColumnValues::VarChar(strings(&[ADDR]))),
        ],
        num_rows: 1,
    };
    let n = parse_nominate(&t);
    assert_eq!(n.len(), 1);
    assert_eq!(n[0].nominations, vec![padded(ADDR_BYTES)]);
    assert!(parse_unstakeinitiated(&t).is_empty());
    assert!(parse_unstakecancelled(&t).is_empty());
    let r = parse_noderegistered(&t);
    assert_eq!(r.len(), 1);
    assert_eq!(r[0].node_public_key, "pk1");
    assert_eq!(r[0].operator_id, padded(ADDR_BYTES));
    match parse_staking(&b"NOMINATE".to_vec(), &t) {
        StakingRequests::Nominate(v) => assert_eq!(v.len(), 1),
        other => panic!("unexpected {:?}", other),
    }
    assert_eq!(parse_staking(&b"OTHER".to_vec(), &t), StakingRequests::Ignored);
    match parse_staking(&b"STAKED".to_vec(), &stake_table()) {
        StakingRequests::Stake(v) => assert_eq!(v.len(), 2),
        other => panic!("unexpected {:?}", other),
    }
}

#[test]
fn stake_amounts_saturate() {
    assert_eq!(stake_balances(5, 10), (15, 5));
    assert_eq!(stake_balances(u128::MAX, 1), (u128::MAX, u64::MAX));
    assert_eq!(unbond_amount(42), 42);
    assert_eq!(unbond_amount(u64::MAX as u128 + 1), u64::MAX);
}
