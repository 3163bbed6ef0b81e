use sxt_pallets::parsing::{parse_stake, stake_balances, ColumnValues, NominateRequest, OnChainTable, StakeRequest, U256};
use sxt_pallets::staking_steps::{nominate_step, stake_step, NominateAt, StakeAction, StakeAt, StakeStage};

fn acct(n: u8) -> [u8; 32] {
    [n; 32]
}

/// Carries out `requests` against a runtime that fails the calls for
/// which `fails` returns an error code, and returns the calls made.
fn run_stake(requests: &Vec<StakeRequest>, fails: impl Fn(&StakeAction) -> Option<u8>) -> Vec<StakeAction> {
    let mut calls = Vec::new();
    let mut at = StakeAt { index: 0, stage: StakeStage::Begin };
    let mut reply = Ok(());
    loop {
        let (action, next) = stake_step(requests, at, reply);
        match action {
            StakeAction::Done | StakeAction::Stop(_) => {
                calls.push(action);
                return calls;
            }
            _ => {
                reply = match fails(&action) {
                    Some(e) => Err(e),
                    None => Ok(()),
                };
                calls.push(action);
                at = next;
            }
        }
    }
}

fn requests() -> Vec<StakeRequest> {
    vec![
        StakeRequest { staker_id: acct(1), amount: 500, nominations: vec![acct(9)] },
        StakeRequest { staker_id: acct(2), amount: u128::MAX, nominations: vec![acct(8), acct(9)] },
    ]
}

#[test]
fn stake_requests_add_balance_then_bond_then_nominate() {
    let calls = run_stake(&requests(), |_| None);
    assert_eq!(
        calls,
        vec![
            StakeAction::AddToBalance { account: acct(1), amount: 500 },
            StakeAction::Bond { account: acct(1), amount: 500 },
            StakeAction::Nominate { account: acct(1), targets: vec![acct(9)] },
            StakeAction::AddToBalance { account: acct(2), amount: u128::MAX },
            StakeAction::Bond { account: acct(2), amount: u64::MAX },
            StakeAction::Nominate { account: acct(2), targets: vec![acct(8), acct(9)] },
            StakeAction::Done,
        ]
    );
    // the balance a staker is set to
    assert_eq!(stake_balances(500, 1000).0, 1500);
}

#[test]
fn a_failed_bond_stops_the_remaining_requests() {
    let calls = run_stake(&requests(), |a| match a {
        StakeAction::Bond { account, .. } if *account == acct(1) => Some(7),
        _ => None,
    });
    assert_eq!(
        calls,
        vec![
            StakeAction::AddToBalance { account: acct(1), amount: 500 },
            StakeAction::Bond { account: acct(1), amount: 500 },
            StakeAction::Stop(7),
        ]
    );
}

#[test]
fn a_failed_balance_change_stops_before_bonding() {
    let calls = run_stake(&requests(), |a| match a {
        StakeAction::AddToBalance { account, .. } if *account == acct(2) => Some(3),
        _ => None,
    });
    assert_eq!(calls.len(), 5);
    assert_eq!(calls[4], StakeAction::Stop(3));
}

#[test]
fn a_failed_stake_nomination_does_not_stop() {
    let calls = run_stake(&requests(), |a| match a {
        StakeAction::Nominate { .. } => Some(1),
        _ => None,
    });
    assert_eq!(calls.len(), 7);
    assert_eq!(calls[6], StakeAction::Done);
}

#[test]
fn parsed_stake_rows_are_carried_out_in_order() {
    let addr = "0x0000000000000000000000000000000000000001";
    let t = OnChainTable {
        columns: vec![
            ("STAKER".to_string(), ColumnValues::VarChar(vec![addr.to_string()])),
            ("NODES".to_string(), ColumnValues::VarChar(vec![addr.to_string()])),
            ("AMOUNT".to_string(), ColumnValues::Decimal(vec![U256 { high: 0, low: 42 }])),
        ],
        num_rows: 1,
    };
    let mut account = [0u8; 32];
    account[31] = 1;
    let calls = run_stake(&parse_stake(&t), |_| None);
    assert_eq!(calls[0], StakeAction::AddToBalance { account, amount: 42 });
    assert_eq!(calls[1], StakeAction::Bond { account, amount: 42 });
    assert_eq!(calls[2], StakeAction::Nominate { account, targets: vec![account] });
    assert_eq!(calls[3], StakeAction::Done);
}

fn run_nominate(requests: &Vec<NominateRequest>, fail_on: Option<u8>) -> Vec<StakeAction> {
    let mut calls = Vec::new();
    let mut at = NominateAt { index: 0, called: false };
    let mut reply = Ok(());
    loop {
        let (action, next) = nominate_step(requests, at, reply);
        match action {
            StakeAction::Nominate { account, .. } => {
                reply = if Some(account[0]) == fail_on { Err(9) } else { Ok(()) };
                calls.push(action);
                at = next;
            }
            _ => {
                calls.push(action);
                return calls;
            }
        }
    }
}

#[test]
fn nominations_go_in_order_and_the_first_failure_stops() {
    let reqs = vec![
        NominateRequest { nominator_id: acct(1), nominations: vec![acct(5)] },
        NominateRequest { nominator_id: acct(2), nominations: vec![] },
        NominateRequest { nominator_id: acct(3), nominations: vec![acct(6)] },
    ];
    let all = run_nominate(&reqs, None);
    assert_eq!(all.len(), 4);
    assert_eq!(all[3], StakeAction::Done);
    let stopped = run_nominate(&reqs, Some(2));
    assert_eq!(
        stopped,
        vec![
            StakeAction::Nominate { account: acct(1), targets: vec![acct(5)] },
            StakeAction::Nominate { account: acct(2), targets: vec![] },
            StakeAction::Stop(9),
        ]
    );
    assert_eq!(run_nominate(&vec![], None), vec![StakeAction::Done]);
}
