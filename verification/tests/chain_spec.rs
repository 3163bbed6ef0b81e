use sxt_pallets::chain_spec::{
    configure_accounts, genesis_patch, get_env, indexers_or_panic, patch_with_ethereum_system_contracts,
    patch_with_sepolia_system_contracts, session_keys, sudo_key_or_panic, token_properties,
    validator_counts, validators_or_panic, NodeIdSet, SessionKeys, StakerStatus,
};

fn env() -> Vec<(String, String)> {
    let mut e = Vec::new();
    for (k, v) in [
        ("SXT_VALIDATOR_1", "v1"),
        ("SXT_VALIDATOR_2", "v2"),
        ("SXT_VALIDATOR_3", "v3"),
        ("SXT_INDEXER_1", "i1"),
        ("SXT_INDEXER_2", "i2"),
        ("SXT_INDEXER_3", "i3"),
        ("SXT_INDEXER_4", "i4"),
        ("SXT_INDEXER_5", "i5"),
        ("SXT_SUDO_KEY", "sudo"),
    ] {
        e.push((k.to_string(), v.to_string()));
    }
    e
}

#[test]
fn keys_come_from_the_environment() {
    let e = env();
    assert_eq!(validators_or_panic(&e), ("v1".to_string(), "v2".to_string(), "v3".to_string()));
    assert_eq!(
        indexers_or_panic(&e),
        ("i1".to_string(), "i2".to_string(), "i3".to_string(), "i4".to_string(), "i5".to_string())
    );
    assert_eq!(sudo_key_or_panic(&e), "sudo");
    assert_eq!(get_env(&e, "MISSING"), None);
}

fn node(controller: u64, stash: u64) -> NodeIdSet {
    NodeIdSet { controller, stash, grandpa: [1; 32], babe: [2; 32], authority_discovery: [3; 32], im_online: [4; 32] }
}

#[test]
fn genesis_accounts_are_endowed_and_staked() {
    let auths = vec![node(1, 11), node(2, 12)];
    let (a, endowed, stakers) = configure_accounts(auths.clone(), vec![5, 1], vec![9, 2], 1000);
    assert_eq!(a, auths);
    assert_eq!(endowed, vec![9, 2, 1, 5]);
    assert_eq!(stakers.len(), 4);
    assert_eq!(stakers[0], (1, 11, 1000, StakerStatus::Validator));
    assert_eq!(stakers[1], (2, 12, 1000, StakerStatus::Validator));
    assert_eq!(stakers[2], (5, 5, 1000, StakerStatus::Nominator(vec![1, 2])));
    assert_eq!(stakers[3], (1, 1, 1000, StakerStatus::Nominator(vec![1, 2])));
}

#[test]
fn validator_counts_keep_at_least_one() {
    assert_eq!(validator_counts(1), (1, 1));
    assert_eq!(validator_counts(2), (2, 1));
    assert_eq!(validator_counts(3), (3, 2));
}

#[test]
fn genesis_patch_endows_stakes_and_sets_sudo() {
    let patch = genesis_patch(vec![node(1, 11), node(2, 12)], vec![3], 9, vec![9, 1], 1000, 10);
    assert_eq!(patch.balances, vec![(9, 1000), (1, 1000), (2, 1000), (3, 1000)]);
    assert_eq!(
        patch.session_keys,
        vec![
            (1, 11, SessionKeys { babe: [2; 32], grandpa: [1; 32], authority_discovery: [3; 32], im_online: [4; 32] }),
            (2, 12, SessionKeys { babe: [2; 32], grandpa: [1; 32], authority_discovery: [3; 32], im_online: [4; 32] }),
        ]
    );
    assert_eq!(patch.staking.validator_count, 2);
    assert_eq!(patch.staking.minimum_validator_count, 1);
    assert_eq!(patch.staking.min_validator_bond, 1);
    assert_eq!(patch.staking.min_nominator_bond, 1);
    assert_eq!(patch.staking.max_nominator_count, 22_500);
    assert_eq!(patch.staking.max_validator_count, 500);
    assert_eq!(patch.staking.invulnerables, vec![1, 2]);
    assert_eq!(patch.staking.slash_reward_percent, 10);
    assert_eq!(
        patch.staking.stakers,
        vec![
            (1, 11, 10, StakerStatus::Validator),
            (2, 12, 10, StakerStatus::Validator),
            (3, 3, 10, StakerStatus::Nominator(vec![1, 2])),
        ]
    );
    assert_eq!(patch.sudo_key, Some(9));
}

#[test]
fn genesis_patch_with_four_authorities_wants_three() {
    let patch = genesis_patch(vec![node(1, 1), node(2, 2), node(3, 3), node(4, 4)], vec![], 1, vec![], 5, 5);
    assert_eq!(patch.staking.validator_count, 4);
    assert_eq!(patch.staking.minimum_validator_count, 3);
    assert_eq!(patch.balances.len(), 4);
}

#[test]
fn session_keys_gather_the_four_keys() {
    let k = session_keys([1; 32], [2; 32], [3; 32], [4; 32]);
    assert_eq!(k, SessionKeys { babe: [2; 32], grandpa: [1; 32], authority_discovery: [3; 32], im_online: [4; 32] });
}

#[test]
fn token_is_sxt_with_eighteen_decimals() {
    let p = token_properties();
    assert_eq!(p.token_symbol, "SxT");
    assert_eq!(p.token_decimals, 18);
}

#[test]
fn testnet_patch_follows_sepolia_contracts() {
    let patch = genesis_patch(vec![node(1, 1)], vec![], 1, vec![], 5, 5);
    assert_eq!(patch.system_contracts, None);
    let patch = patch_with_sepolia_system_contracts(patch);
    let c = patch.system_contracts.clone().unwrap();
    assert_eq!(c.staking_contract.chain_id, "0xaa36a7");
    assert_eq!(c.staking_contract.address, "0xca755ce69181d2d33097a24ce5ddc030a0b87f2c");
    assert_eq!(c.messaging_contract.chain_id, "0xaa36a7");
    assert_eq!(c.messaging_contract.address, "0x82840556980bfbCc08e3e7c61AA44E1a4EAb5471");
    assert_eq!(patch.sudo_key, Some(1));
}

#[test]
fn mainnet_patch_follows_ethereum_contracts() {
    let patch = patch_with_ethereum_system_contracts(genesis_patch(vec![node(1, 1)], vec![], 1, vec![], 5, 5));
    let c = patch.system_contracts.unwrap();
    assert_eq!(c.staking_contract.chain_id, "0x01");
    assert_eq!(c.staking_contract.address, "0x93d176dd54FF38b08f33b4Fc62573ec80F1da185");
    assert_eq!(c.messaging_contract.chain_id, "0x01");
    assert_eq!(c.messaging_contract.address, "0x70106a3247542069a3ee1AF4D6988a5f34b31cE1");
}
