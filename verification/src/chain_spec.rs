//! Genesis configuration of the node: the accounts that are endowed and
//! staked at genesis, and the keys read from the environment.
//!
//! Reading the process environment is the caller's; it hands in the
//! variables as name and value pairs.

use vstd::prelude::*;

use crate::types::AccountId;

verus! {

/// The environment: each variable's name and value.
pub type Env = Vec<(String, String)>;

/// The value of the first variable named `name`, if any.
pub open spec fn env_lookup(env: Seq<(String, String)>, name: Seq<char>) -> Option<Seq<char>>
    decreases env.len(),
{
    if env.len() == 0 {
        None
    } else if env[0].0@ == name {
        Some(env[0].1@)
    } else {
        env_lookup(env.drop_first(), name)
    }
}

/// The value of the variable named `name`, if it is set.
pub fn get_env(env: &Env, name: &str) -> (r: Option<String>)
    ensures
        match env_lookup(env@, name@) {
            Some(v) => r matches Some(s) && s@ == v,
            None => r is None,
        },
{
    let wanted = name.to_owned();
    let mut i: usize = 0;
    assert(env@.skip(0) =~= env@);
    while i < env.len()
        invariant
            i <= env@.len(),
            wanted@ == name@,
            env_lookup(env@.skip(i as int), name@) == env_lookup(env@, name@),
        decreases env.len() - i,
    {
        proof {
            assert(env@.skip(i as int)[0] == env@[i as int]);
            assert(env@.skip(i as int).drop_first() =~= env@.skip(i + 1));
        }
        if env[i].0 == wanted {
            return Some(env[i].1.clone());
        }
        i += 1;
    }
    None
}

/// The value of a variable that must be set.
pub fn get_env_or_panic(env: &Env, name: &str) -> (r: String)
    requires
        env_lookup(env@, name@) is Some,
    ensures
        env_lookup(env@, name@) == Some(r@),
{
    match get_env(env, name) {
        Some(v) => v,
        None => {
            proof {
                assert(false);
            }
            String::new()
        },
    }
}

/// The variables that `validators_or_panic` reads.
pub open spec fn validator_vars() -> Seq<Seq<char>> {
    seq!["SXT_VALIDATOR_1"@, "SXT_VALIDATOR_2"@, "SXT_VALIDATOR_3"@]
}

/// The variables that `indexers_or_panic` reads.
pub open spec fn indexer_vars() -> Seq<Seq<char>> {
    seq!["SXT_INDEXER_1"@, "SXT_INDEXER_2"@, "SXT_INDEXER_3"@, "SXT_INDEXER_4"@, "SXT_INDEXER_5"@]
}

/// The seed phrases of the three validators.
pub fn validators_or_panic(env: &Env) -> (r: (String, String, String))
    requires
        forall|i: int| 0 <= i < 3 ==> env_lookup(env@, #[trigger] validator_vars()[i]) is Some,
    ensures
        env_lookup(env@, "SXT_VALIDATOR_1"@) == Some(r.0@),
        env_lookup(env@, "SXT_VALIDATOR_2"@) == Some(r.1@),
        env_lookup(env@, "SXT_VALIDATOR_3"@) == Some(r.2@),
{
    assert(env_lookup(env@, validator_vars()[0]) is Some);
    assert(env_lookup(env@, validator_vars()[1]) is Some);
    assert(env_lookup(env@, validator_vars()[2]) is Some);
    (
        get_env_or_panic(env, "SXT_VALIDATOR_1"),
        get_env_or_panic(env, "SXT_VALIDATOR_2"),
        get_env_or_panic(env, "SXT_VALIDATOR_3"),
    )
}

/// The seed phrases of the five indexers.
pub fn indexers_or_panic(env: &Env) -> (r: (String, String, String, String, String))
    requires
        forall|i: int| 0 <= i < 5 ==> env_lookup(env@, #[trigger] indexer_vars()[i]) is Some,
    ensures
        env_lookup(env@, "SXT_INDEXER_1"@) == Some(r.0@),
        env_lookup(env@, "SXT_INDEXER_2"@) == Some(r.1@),
        env_lookup(env@, "SXT_INDEXER_3"@) == Some(r.2@),
        env_lookup(env@, "SXT_INDEXER_4"@) == Some(r.3@),
        env_lookup(env@, "SXT_INDEXER_5"@) == Some(r.4@),
{
    assert(env_lookup(env@, indexer_vars()[0]) is Some);
    assert(env_lookup(env@, indexer_vars()[1]) is Some);
    assert(env_lookup(env@, indexer_vars()[2]) is Some);
    assert(env_lookup(env@, indexer_vars()[3]) is Some);
    assert(env_lookup(env@, indexer_vars()[4]) is Some);
    (
        get_env_or_panic(env, "SXT_INDEXER_1"),
        get_env_or_panic(env, "SXT_INDEXER_2"),
        get_env_or_panic(env, "SXT_INDEXER_3"),
        get_env_or_panic(env, "SXT_INDEXER_4"),
        get_env_or_panic(env, "SXT_INDEXER_5"),
    )
}

/// The seed phrase of the sudo account.
pub fn sudo_key_or_panic(env: &Env) -> (r: String)
    requires
        env_lookup(env@, "SXT_SUDO_KEY"@) is Some,
    ensures
        env_lookup(env@, "SXT_SUDO_KEY"@) == Some(r@),
{
    get_env_or_panic(env, "SXT_SUDO_KEY")
}

/// The accounts and keys of a genesis validator.
#[derive(Debug, Clone, Copy, PartialEq, Eq)]
pub struct NodeIdSet {
    /// The controller account.
    pub controller: AccountId,
    /// The stash account.
    pub stash: AccountId,
    /// The GRANDPA key.
    pub grandpa: [u8; 32],
    /// The BABE key.
    pub babe: [u8; 32],
    /// The authority discovery key.
    pub authority_discovery: [u8; 32],
    /// The I'm-online key.
    pub im_online: [u8; 32],
}

/// How a genesis staker takes part.
#[derive(Debug, PartialEq, Eq)]
pub enum StakerStatus {
    /// A validator.
    Validator,
    /// A nominator of the given validators.
    Nominator(Vec<AccountId>),
}

/// A genesis staker: controller, stash, bonded amount and status.
pub type Staker = (AccountId, AccountId, u128, StakerStatus);

/// `list` with `x` appended unless it is there.
pub open spec fn push_unique(list: Seq<AccountId>, x: AccountId) -> Seq<AccountId> {
    if list.contains(x) {
        list
    } else {
        list.push(x)
    }
}

/// `list` with each of `xs` appended, in order, unless already there.
pub open spec fn extend_unique(list: Seq<AccountId>, xs: Seq<AccountId>) -> Seq<AccountId>
    decreases xs.len(),
{
    if xs.len() == 0 {
        list
    } else {
        push_unique(extend_unique(list, xs.drop_last()), xs.last())
    }
}

/// The controllers of the authorities.
pub open spec fn controllers(auths: Seq<NodeIdSet>) -> Seq<AccountId> {
    auths.map_values(|a: NodeIdSet| a.controller)
}

/// The value of a staker: its accounts, amount, and nominations if a
/// nominator.
pub open spec fn staker_view(s: Staker) -> (AccountId, AccountId, u128, Option<Seq<AccountId>>) {
    (
        s.0,
        s.1,
        s.2,
        match s.3 {
            StakerStatus::Validator => None,
            StakerStatus::Nominator(v) => Some(v@),
        },
    )
}

/// The genesis stakers: each authority as a validator, then each nominator
/// nominating every authority.
pub open spec fn spec_stakers(auths: Seq<NodeIdSet>, nominators: Seq<AccountId>, stash: u128) -> Seq<
    (AccountId, AccountId, u128, Option<Seq<AccountId>>),
> {
    auths.map_values(|a: NodeIdSet| (a.controller, a.stash, stash, None::<Seq<AccountId>>)) + nominators.map_values(
        |n: AccountId| (n, n, stash, Some(controllers(auths))),
    )
}

fn push_unique_exec(list: &mut Vec<AccountId>, x: AccountId)
    ensures
        final(list)@ == push_unique(old(list)@, x),
{
    let mut i: usize = 0;
    while i < list.len()
        invariant
            i <= list@.len(),
            forall|j: int| 0 <= j < i ==> list@[j] != x,
        decreases list.len() - i,
    {
        if list[i] == x {
            assert(list@.contains(x)) by {
                assert(list@[i as int] == x);
            }
            return;
        }
        i += 1;
    }
    list.push(x);
}

/// Endows every authority's controller and every nominator, and lists the
/// genesis stakers, each bonding `stash`.  Returns the authorities, the
/// endowed accounts (the given ones, then each new account once), and the
/// stakers.
pub fn configure_accounts(
    initial_authorities: Vec<NodeIdSet>,
    initial_nominators: Vec<AccountId>,
    endowed_accounts: Vec<AccountId>,
    stash: u128,
) -> (r: (Vec<NodeIdSet>, Vec<AccountId>, Vec<Staker>))
    ensures
        r.0@ == initial_authorities@,
        r.1@ == extend_unique(
            endowed_accounts@,
            controllers(initial_authorities@) + initial_nominators@,
        ),
        r.2@.map_values(|s: Staker| staker_view(s)) == spec_stakers(
            initial_authorities@,
            initial_nominators@,
            stash,
        ),
{
    let ghost all = controllers(initial_authorities@) + initial_nominators@;
    let mut endowed = endowed_accounts;
    let ghost start = endowed@;
    let n = initial_authorities.len();
    let mut i: usize = 0;
    while i < n
        invariant
            n == initial_authorities@.len(),
            all == controllers(initial_authorities@) + initial_nominators@,
            i <= n,
            endowed@ == extend_unique(start, all.take(i as int)),
        decreases n - i,
    {
        let x = initial_authorities[i].controller;
        assert(x == all[i as int]);
        push_unique_exec(&mut endowed, x);
        proof {
            assert(all.take(i + 1).drop_last() =~= all.take(i as int));
            assert(all.take(i + 1).last() == x);
        }
        i += 1;
    }
    let mut j: usize = 0;
    while j < initial_nominators.len()
        invariant
            n == initial_authorities@.len(),
            all == controllers(initial_authorities@) + initial_nominators@,
            j <= initial_nominators@.len(),
            endowed@ == extend_unique(start, all.take(n + j)),
        decreases initial_nominators.len() - j,
    {
        let x = initial_nominators[j];
        assert(x == all[n + j]);
        push_unique_exec(&mut endowed, x);
        proof {
            assert(all.take(n + j + 1).drop_last() =~= all.take(n + j));
            assert(all.take(n + j + 1).last() == x);
        }
        j += 1;
    }
    assert(all.take(all.len() as int) =~= all);
    let mut ctrls: Vec<AccountId> = Vec::new();
    let mut k: usize = 0;
    while k < n
        invariant
            n == initial_authorities@.len(),
            k <= n,
            ctrls@ == controllers(initial_authorities@).take(k as int),
        decreases n - k,
    {
        ctrls.push(initial_authorities[k].controller);
        k += 1;
        assert(ctrls@ =~= controllers(initial_authorities@).take(k as int));
    }
    assert(controllers(initial_authorities@).take(n as int) =~= controllers(initial_authorities@));
    let ghost target = spec_stakers(initial_authorities@, initial_nominators@, stash);
    let mut stakers: Vec<Staker> = Vec::new();
    let mut a: usize = 0;
    while a < n
        invariant
            n == initial_authorities@.len(),
            a <= n,
            ctrls@ == controllers(initial_authorities@),
            target == spec_stakers(initial_authorities@, initial_nominators@, stash),
            stakers@.map_values(|s: Staker| staker_view(s)) == target.take(a as int),
        decreases n - a,
    {
        let ghost prev = stakers@;
        let auth = initial_authorities[a];
        stakers.push((auth.controller, auth.stash, stash, StakerStatus::Validator));
        proof {
            assert(stakers@.map_values(|s: Staker| staker_view(s)) =~= prev.map_values(
                |s: Staker| staker_view(s),
            ).push(staker_view(stakers@.last())));
            assert(target.take(a + 1) =~= target.take(a as int).push(target[a as int]));
        }
        a += 1;
    }
    let mut b: usize = 0;
    while b < initial_nominators.len()
        invariant
            n == initial_authorities@.len(),
            b <= initial_nominators@.len(),
            ctrls@ == controllers(initial_authorities@),
            target == spec_stakers(initial_authorities@, initial_nominators@, stash),
            target.len() == n + initial_nominators@.len(),
            stakers@.map_values(|s: Staker| staker_view(s)) == target.take(n + b),
        decreases initial_nominators.len() - b,
    {
        let ghost prev = stakers@;
        let x = initial_nominators[b];
        let mut noms: Vec<AccountId> = Vec::new();
        let mut c: usize = 0;
        while c < ctrls.len()
            invariant
                c <= ctrls@.len(),
                noms@ == ctrls@.take(c as int),
            decreases ctrls.len() - c,
        {
            noms.push(ctrls[c]);
            c += 1;
            assert(noms@ =~= ctrls@.take(c as int));
        }
        assert(ctrls@.take(ctrls@.len() as int) =~= ctrls@);
        stakers.push((x, x, stash, StakerStatus::Nominator(noms)));
        proof {
            assert(stakers@.map_values(|s: Staker| staker_view(s)) =~= prev.map_values(
                |s: Staker| staker_view(s),
            ).push(staker_view(stakers@.last())));
            assert(target.take(n + b + 1) =~= target.take(n + b).push(target[n + b]));
        }
        b += 1;
    }
    assert(target.take(target.len() as int) =~= target);
    (initial_authorities, endowed, stakers)
}

/// The staking pallet's validator counts at genesis: every authority, and
/// a minimum of one fewer, but at least one.
pub fn validator_counts(num_authorities: usize) -> (r: (u32, u32))
    requires
        1 <= num_authorities <= u32::MAX,
    ensures
        r.0 == num_authorities,
        r.1 == if num_authorities - 1 > 1 {
            num_authorities - 1
        } else {
            1
        },
{
    let min = if num_authorities - 1 > 1 {
        num_authorities - 1
    } else {
        1
    };
    (num_authorities as u32, min as u32)
}

/// Every account that genesis stakes is endowed, and the endowed accounts
/// keep their order with no account added twice.
pub proof fn lemma_stakers_are_endowed(list: Seq<AccountId>, xs: Seq<AccountId>)
    ensures
        forall|i: int| 0 <= i < xs.len() ==> extend_unique(list, xs).contains(#[trigger] xs[i]),
        extend_unique(list, xs).len() >= list.len(),
        extend_unique(list, xs).take(list.len() as int) == list,
        forall|i: int| 0 <= i < list.len() ==> extend_unique(list, xs).contains(#[trigger] list[i]),
    decreases xs.len(),
{
    if xs.len() > 0 {
        let prev = extend_unique(list, xs.drop_last());
        lemma_stakers_are_endowed(list, xs.drop_last());
        let cur = extend_unique(list, xs);
        assert forall|i: int| 0 <= i < xs.len() implies cur.contains(#[trigger] xs[i]) by {
            if i < xs.len() - 1 {
                assert(xs.drop_last()[i] == xs[i]);
                assert(prev.contains(xs[i]));
                if !prev.contains(xs.last()) {
                    let j = choose|j: int| 0 <= j < prev.len() && prev[j] == xs[i];
                    assert(cur[j] == xs[i]);
                }
            } else {
                if !prev.contains(xs.last()) {
                    assert(cur[cur.len() - 1] == xs.last());
                }
            }
        }
        if !prev.contains(xs.last()) {
            assert(cur.take(list.len() as int) =~= prev.take(list.len() as int));
        }
        assert(cur.take(list.len() as int) =~= list);
        assert forall|i: int| 0 <= i < list.len() implies cur.contains(#[trigger] list[i]) by {
            assert(cur.take(list.len() as int)[i] == list[i]);
        }
    } else {
        assert(list.take(list.len() as int) =~= list);
        assert forall|i: int| 0 <= i < list.len() implies list.contains(#[trigger] list[i]) by {}
    }
}

/// The session keys of a validator.
#[derive(Debug, Clone, Copy, PartialEq, Eq)]
pub struct SessionKeys {
    /// The BABE key.
    pub babe: [u8; 32],
    /// The GRANDPA key.
    pub grandpa: [u8; 32],
    /// The authority discovery key.
    pub authority_discovery: [u8; 32],
    /// The I'm-online key.
    pub im_online: [u8; 32],
}

/// Gathers a validator's session keys.
pub fn session_keys(
    grandpa: [u8; 32],
    babe: [u8; 32],
    authority_discovery: [u8; 32],
    im_online: [u8; 32],
) -> (r: SessionKeys)
    ensures
        r == (SessionKeys { babe, grandpa, authority_discovery, im_online }),
{
    SessionKeys { babe, grandpa, authority_discovery, im_online }
}

/// The session keys of an authority.
pub open spec fn keys_of(a: NodeIdSet) -> SessionKeys {
    SessionKeys {
        babe: a.babe,
        grandpa: a.grandpa,
        authority_discovery: a.authority_discovery,
        im_online: a.im_online,
    }
}

/// The most nominators the staking pallet accepts at genesis.
pub const MAX_NOMINATOR_COUNT: u32 = 22_500;

/// The most validators the staking pallet accepts at genesis.
pub const MAX_VALIDATOR_COUNT: u32 = 500;

/// The share of a slash paid to the reporter, in percent.
pub const SLASH_REWARD_PERCENT: u32 = 10;

/// The staking pallet's genesis configuration.
#[derive(Debug, PartialEq, Eq)]
pub struct StakingGenesis {
    /// The number of validators wanted.
    pub validator_count: u32,
    /// The fewest validators the chain runs with.
    pub minimum_validator_count: u32,
    /// The least a validator bonds.
    pub min_validator_bond: u32,
    /// The least a nominator bonds.
    pub min_nominator_bond: u32,
    /// The most nominators.
    pub max_nominator_count: u32,
    /// The most validators.
    pub max_validator_count: u32,
    /// Validators that are never slashed: every genesis authority.
    pub invulnerables: Vec<AccountId>,
    /// The share of a slash paid to the reporter, in percent.
    pub slash_reward_percent: u32,
    /// The genesis stakers.
    pub stakers: Vec<Staker>,
}

/// An Ethereum contract: the chain it lives on and its address, both as
/// hexadecimal text.
#[derive(Debug, Clone, PartialEq, Eq)]
pub struct ContractConfig {
    /// The Ethereum chain id.
    pub chain_id: String,
    /// The contract's address.
    pub address: String,
}

/// The Ethereum contracts that the chain follows.
#[derive(Debug, Clone, PartialEq, Eq)]
pub struct SystemContracts {
    /// The staking contract.
    pub staking_contract: ContractConfig,
    /// The messaging contract.
    pub messaging_contract: ContractConfig,
}

/// The genesis storage of the runtime's pallets, apart from the BABE epoch
/// configuration, which is the runtime's own constant.
#[derive(Debug, PartialEq, Eq)]
pub struct GenesisPatch {
    /// Each endowed account with its balance.
    pub balances: Vec<(AccountId, u128)>,
    /// Each authority's controller, stash and session keys.
    pub session_keys: Vec<(AccountId, AccountId, SessionKeys)>,
    /// The staking configuration.
    pub staking: StakingGenesis,
    /// The sudo key.
    pub sudo_key: Option<AccountId>,
    /// The Ethereum contracts the chain follows, if set.
    pub system_contracts: Option<SystemContracts>,
}

/// The genesis storage: every endowed account (the given ones, then each
/// authority's controller and each nominator not already there) receives
/// `endowment`; every authority is a validator and invulnerable, and gets
/// its session keys; every staker bonds `bond`; `root_key` is the sudo key.
pub fn genesis_patch(
    initial_authorities: Vec<NodeIdSet>,
    initial_nominators: Vec<AccountId>,
    root_key: AccountId,
    endowed_accounts: Vec<AccountId>,
    endowment: u128,
    bond: u128,
) -> (r: GenesisPatch)
    requires
        1 <= initial_authorities@.len() <= u32::MAX,
    ensures
        ({
            let endowed = extend_unique(
                endowed_accounts@,
                controllers(initial_authorities@) + initial_nominators@,
            );
            &&& r.balances@ == endowed.map_values(|a: AccountId| (a, endowment))
            &&& r.session_keys@ == initial_authorities@.map_values(
                |a: NodeIdSet| (a.controller, a.stash, keys_of(a)),
            )
            &&& r.staking.validator_count == initial_authorities@.len()
            &&& r.staking.minimum_validator_count == if initial_authorities@.len() - 1 > 1 {
                initial_authorities@.len() - 1
            } else {
                1
            }
            &&& r.staking.min_validator_bond == 1
            &&& r.staking.min_nominator_bond == 1
            &&& r.staking.max_nominator_count == MAX_NOMINATOR_COUNT
            &&& r.staking.max_validator_count == MAX_VALIDATOR_COUNT
            &&& r.staking.invulnerables@ == controllers(initial_authorities@)
            &&& r.staking.slash_reward_percent == SLASH_REWARD_PERCENT
            &&& r.staking.stakers@.map_values(|s: Staker| staker_view(s)) == spec_stakers(
                initial_authorities@,
                initial_nominators@,
                bond,
            )
            &&& r.sudo_key == Some(root_key)
            &&& r.system_contracts is None
        }),
{
    let (authorities, endowed, stakers) = configure_accounts(
        initial_authorities,
        initial_nominators,
        endowed_accounts,
        bond,
    );
    let mut balances: Vec<(AccountId, u128)> = Vec::new();
    let mut i: usize = 0;
    while i < endowed.len()
        invariant
            i <= endowed@.len(),
            balances@ == endowed@.take(i as int).map_values(|a: AccountId| (a, endowment)),
        decreases endowed.len() - i,
    {
        balances.push((endowed[i], endowment));
        i += 1;
        assert(balances@ =~= endowed@.take(i as int).map_values(|a: AccountId| (a, endowment)));
    }
    assert(endowed@.take(endowed@.len() as int) =~= endowed@);
    let mut keys: Vec<(AccountId, AccountId, SessionKeys)> = Vec::new();
    let mut invulnerables: Vec<AccountId> = Vec::new();
    let mut k: usize = 0;
    while k < authorities.len()
        invariant
            k <= authorities@.len(),
            keys@ == authorities@.take(k as int).map_values(
                |a: NodeIdSet| (a.controller, a.stash, keys_of(a)),
            ),
            invulnerables@ == controllers(authorities@.take(k as int)),
        decreases authorities.len() - k,
    {
        let a = authorities[k];
        keys.push((a.controller, a.stash, session_keys(a.grandpa, a.babe, a.authority_discovery, a.im_online)));
        invulnerables.push(a.controller);
        k += 1;
        assert(keys@ =~= authorities@.take(k as int).map_values(
            |a: NodeIdSet| (a.controller, a.stash, keys_of(a)),
        ));
        assert(invulnerables@ =~= controllers(authorities@.take(k as int)));
    }
    assert(authorities@.take(authorities@.len() as int) =~= authorities@);
    let (validator_count, minimum_validator_count) = validator_counts(authorities.len());
    GenesisPatch {
        balances,
        session_keys: keys,
        staking: StakingGenesis {
            validator_count,
            minimum_validator_count,
            min_validator_bond: 1,
            min_nominator_bond: 1,
            max_nominator_count: MAX_NOMINATOR_COUNT,
            max_validator_count: MAX_VALIDATOR_COUNT,
            invulnerables,
            slash_reward_percent: SLASH_REWARD_PERCENT,
            stakers,
        },
        sudo_key: Some(root_key),
        system_contracts: None,
    }
}

/// Whether `c` holds the given chain id and addresses.
pub open spec fn contracts_are(
    c: SystemContracts,
    chain_id: Seq<char>,
    staking: Seq<char>,
    messaging: Seq<char>,
) -> bool {
    &&& c.staking_contract.chain_id@ == chain_id
    &&& c.staking_contract.address@ == staking
    &&& c.messaging_contract.chain_id@ == chain_id
    &&& c.messaging_contract.address@ == messaging
}

/// `patch` with its system contracts set.
pub open spec fn with_contracts(patch: GenesisPatch, r: GenesisPatch) -> bool {
    &&& r.balances == patch.balances
    &&& r.session_keys == patch.session_keys
    &&& r.staking == patch.staking
    &&& r.sudo_key == patch.sudo_key
    &&& r.system_contracts is Some
}

/// The genesis patch with its system contracts set to those on Sepolia.
pub fn patch_with_sepolia_system_contracts(patch: GenesisPatch) -> (r: GenesisPatch)
    ensures
        with_contracts(patch, r),
        contracts_are(
            r.system_contracts->0,
            "0xaa36a7"@,
            "0xca755ce69181d2d33097a24ce5ddc030a0b87f2c"@,
            "0x82840556980bfbCc08e3e7c61AA44E1a4EAb5471"@,
        ),
{
    let chain_id = "0xaa36a7";
    let contracts = SystemContracts {
        staking_contract: ContractConfig {
            chain_id: chain_id.to_owned(),
            address: "0xca755ce69181d2d33097a24ce5ddc030a0b87f2c".to_owned(),
        },
        messaging_contract: ContractConfig {
            chain_id: chain_id.to_owned(),
            address: "0x82840556980bfbCc08e3e7c61AA44E1a4EAb5471".to_owned(),
        },
    };
    GenesisPatch { system_contracts: Some(contracts), ..patch }
}

/// The genesis patch with its system contracts set to those on Ethereum
/// mainnet.
pub fn patch_with_ethereum_system_contracts(patch: GenesisPatch) -> (r: GenesisPatch)
    ensures
        with_contracts(patch, r),
        contracts_are(
            r.system_contracts->0,
            "0x01"@,
            "0x93d176dd54FF38b08f33b4Fc62573ec80F1da185"@,
            "0x70106a3247542069a3ee1AF4D6988a5f34b31cE1"@,
        ),
{
    let chain_id = "0x01";
    let contracts = SystemContracts {
        staking_contract: ContractConfig {
            chain_id: chain_id.to_owned(),
            address: "0x93d176dd54FF38b08f33b4Fc62573ec80F1da185".to_owned(),
        },
        messaging_contract: ContractConfig {
            chain_id: chain_id.to_owned(),
            address: "0x70106a3247542069a3ee1AF4D6988a5f34b31cE1".to_owned(),
        },
    };
    GenesisPatch { system_contracts: Some(contracts), ..patch }
}

/// The token's properties, as wallets show it.
#[derive(Debug, PartialEq, Eq)]
pub struct TokenProperties {
    /// The token's symbol.
    pub token_symbol: String,
    /// The token's decimal places.
    pub token_decimals: u32,
}

/// The chain's token: `SxT`, with 18 decimal places.
pub fn token_properties() -> (r: TokenProperties)
    ensures
        r.token_symbol@ == "SxT"@,
        r.token_decimals == 18,
{
    TokenProperties { token_symbol: "SxT".to_owned(), token_decimals: 18 }
}

} // verus!
