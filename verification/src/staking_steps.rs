//! Carrying out the staking requests parsed from staking tables, one
//! runtime call at a time.  The caller makes each call the step functions
//! name and hands back its outcome; the step functions decide what comes
//! next.
//!
//! A stake request raises the staker's free balance by the amount, then
//! bonds the amount (saturated to 64 bits), then nominates its nodes; a
//! failed balance change or bond stops the remaining requests, while the
//! outcome of the nomination is not checked.  Nominate requests nominate in
//! order, and the first failed nomination stops the rest.

use vstd::prelude::*;

use crate::parsing::{nominate_view, saturate_u64, stake_view, NominateRequest, StakeRequest};
use crate::types::AccountId32;

verus! {

/// A runtime call that applying staking requests makes, or the end.
#[derive(Debug, PartialEq, Eq)]
pub enum StakeAction {
    /// Raise `account`'s free balance by `amount`, saturating; the new
    /// balance is `stake_balances(amount, free_balance).0`.
    AddToBalance { account: AccountId32, amount: u128 },
    /// Bond `amount` from `account`, rewards staked.
    Bond { account: AccountId32, amount: u64 },
    /// Nominate `targets` from `account`.
    Nominate { account: AccountId32, targets: Vec<AccountId32> },
    /// Every request was carried out.
    Done,
    /// A call failed with this error code; the remaining requests are not
    /// carried out.
    Stop(u8),
}

/// The value of a staking action.
pub enum StakeActionView {
    AddToBalance(AccountId32, u128),
    Bond(AccountId32, u64),
    Nominate(AccountId32, Seq<AccountId32>),
    Done,
    Stop(u8),
}

impl View for StakeAction {
    type V = StakeActionView;

    open spec fn view(&self) -> StakeActionView {
        match self {
            StakeAction::AddToBalance { account, amount } => StakeActionView::AddToBalance(
                *account,
                *amount,
            ),
            StakeAction::Bond { account, amount } => StakeActionView::Bond(*account, *amount),
            StakeAction::Nominate { account, targets } => StakeActionView::Nominate(
                *account,
                targets@,
            ),
            StakeAction::Done => StakeActionView::Done,
            StakeAction::Stop(e) => StakeActionView::Stop(*e),
        }
    }
}

/// The last call made for the current stake request.
#[derive(Debug, Clone, Copy, PartialEq, Eq)]
pub enum StakeStage {
    /// No call yet.
    Begin,
    /// The balance was raised.
    AddedBalance,
    /// The amount was bonded.
    Bonded,
    /// The nodes were nominated.
    Nominated,
}

/// How far applying stake requests got: the current request and the last
/// call made for it.
#[derive(Debug, Clone, Copy, PartialEq, Eq)]
pub struct StakeAt {
    /// The position of the current request.
    pub index: usize,
    /// The last call made for it.
    pub stage: StakeStage,
}

/// Starting request `i`: raise its staker's balance, or finish when no
/// request is left.
pub open spec fn stake_begin(reqs: Seq<(AccountId32, u128, Seq<AccountId32>)>, i: int) -> (
    StakeActionView,
    StakeAt,
) {
    if i >= reqs.len() {
        (StakeActionView::Done, StakeAt { index: i as usize, stage: StakeStage::Begin })
    } else {
        (
            StakeActionView::AddToBalance(reqs[i].0, reqs[i].1),
            StakeAt { index: i as usize, stage: StakeStage::AddedBalance },
        )
    }
}

/// The next call after the call `at.stage` of request `at.index` returned
/// `reply` (ignored at `Begin`).
pub open spec fn stake_next(
    reqs: Seq<(AccountId32, u128, Seq<AccountId32>)>,
    at: StakeAt,
    reply: Result<(), u8>,
) -> (StakeActionView, StakeAt) {
    let i = at.index as int;
    match at.stage {
        StakeStage::Begin => stake_begin(reqs, i),
        StakeStage::AddedBalance => match reply {
            Err(e) => (StakeActionView::Stop(e), at),
            Ok(_) => (
                StakeActionView::Bond(reqs[i].0, saturate_u64(reqs[i].1)),
                StakeAt { index: at.index, stage: StakeStage::Bonded },
            ),
        },
        StakeStage::Bonded => match reply {
            Err(e) => (StakeActionView::Stop(e), at),
            Ok(_) => (
                StakeActionView::Nominate(reqs[i].0, reqs[i].2),
                StakeAt { index: at.index, stage: StakeStage::Nominated },
            ),
        },
        StakeStage::Nominated => stake_begin(reqs, i + 1),
    }
}

fn accounts_clone(v: &Vec<AccountId32>) -> (r: Vec<AccountId32>)
    ensures
        r@ == v@,
{
    let mut r: Vec<AccountId32> = Vec::new();
    let mut i: usize = 0;
    while i < v.len()
        invariant
            i <= v@.len(),
            r@ == v@.take(i as int),
        decreases v.len() - i,
    {
        r.push(v[i]);
        i += 1;
        assert(r@ =~= v@.take(i as int));
    }
    assert(v@.take(v@.len() as int) =~= v@);
    r
}

fn begin_stake(requests: &Vec<StakeRequest>, i: usize) -> (r: (StakeAction, StakeAt))
    requires
        i <= requests@.len(),
    ensures
        (r.0@, r.1) == stake_begin(stake_view(requests@), i as int),
{
    if i >= requests.len() {
        (StakeAction::Done, StakeAt { index: i, stage: StakeStage::Begin })
    } else {
        let req = &requests[i];
        assert(stake_view(requests@)[i as int] == req@);
        (
            StakeAction::AddToBalance { account: req.staker_id, amount: req.amount },
            StakeAt { index: i, stage: StakeStage::AddedBalance },
        )
    }
}

/// Decides the next call in carrying out `requests`, after the call
/// `at.stage` of request `at.index` returned `reply`.  Start with
/// `StakeAt { index: 0, stage: Begin }`; carry out each returned action and
/// pass back the returned position with the call's outcome, until `Done` or
/// `Stop`.
pub fn stake_step(requests: &Vec<StakeRequest>, at: StakeAt, reply: Result<(), u8>) -> (r: (
    StakeAction,
    StakeAt,
))
    requires
        at.index <= requests@.len(),
        at.stage != StakeStage::Begin ==> at.index < requests@.len(),
    ensures
        (r.0@, r.1) == stake_next(stake_view(requests@), at, reply),
{
    let n = requests.len();
    assert(n == requests@.len());
    let i = at.index;
    match at.stage {
        StakeStage::Begin => begin_stake(requests, i),
        StakeStage::AddedBalance => match reply {
            Err(e) => (StakeAction::Stop(e), at),
            Ok(_) => {
                let req = &requests[i];
                assert(stake_view(requests@)[i as int] == req@);
                let amount: u64 = if req.amount > 0xffff_ffff_ffff_ffffu128 {
                    0xffff_ffff_ffff_ffffu64
                } else {
                    req.amount as u64
                };
                (
                    StakeAction::Bond { account: req.staker_id, amount },
                    StakeAt { index: i, stage: StakeStage::Bonded },
                )
            },
        },
        StakeStage::Bonded => match reply {
            Err(e) => (StakeAction::Stop(e), at),
            Ok(_) => {
                let req = &requests[i];
                assert(stake_view(requests@)[i as int] == req@);
                (
                    StakeAction::Nominate {
                        account: req.staker_id,
                        targets: accounts_clone(&req.nominations),
                    },
                    StakeAt { index: i, stage: StakeStage::Nominated },
                )
            },
        },
        StakeStage::Nominated => begin_stake(requests, i + 1),
    }
}

/// How far carrying out nominate requests got: the current request, and
/// whether its nomination was made.
#[derive(Debug, Clone, Copy, PartialEq, Eq)]
pub struct NominateAt {
    /// The position of the current request.
    pub index: usize,
    /// Whether its nomination was made.
    pub called: bool,
}

/// Starting nominate request `i`, or finishing when none is left.
pub open spec fn nominate_begin(reqs: Seq<(AccountId32, Seq<AccountId32>)>, i: int) -> (
    StakeActionView,
    NominateAt,
) {
    if i >= reqs.len() {
        (StakeActionView::Done, NominateAt { index: i as usize, called: false })
    } else {
        (StakeActionView::Nominate(reqs[i].0, reqs[i].1), NominateAt { index: i as usize, called: true })
    }
}

/// The next call after the nomination of request `at.index`, if made,
/// returned `reply`.
pub open spec fn nominate_next(
    reqs: Seq<(AccountId32, Seq<AccountId32>)>,
    at: NominateAt,
    reply: Result<(), u8>,
) -> (StakeActionView, NominateAt) {
    if at.called {
        match reply {
            Err(e) => (StakeActionView::Stop(e), at),
            Ok(_) => nominate_begin(reqs, at.index + 1),
        }
    } else {
        nominate_begin(reqs, at.index as int)
    }
}

/// Decides the next call in carrying out nominate `requests`.  Start with
/// `NominateAt { index: 0, called: false }`; a failed nomination stops the
/// remaining requests.
pub fn nominate_step(requests: &Vec<NominateRequest>, at: NominateAt, reply: Result<(), u8>) -> (r: (
    StakeAction,
    NominateAt,
))
    requires
        at.index <= requests@.len(),
        at.called ==> at.index < requests@.len(),
    ensures
        (r.0@, r.1) == nominate_next(nominate_view(requests@), at, reply),
{
    let n = requests.len();
    assert(n == requests@.len());
    let i: usize = if at.called {
        match reply {
            Err(e) => {
                return (StakeAction::Stop(e), at);
            },
            Ok(_) => at.index + 1,
        }
    } else {
        at.index
    };
    if i >= requests.len() {
        (StakeAction::Done, NominateAt { index: i, called: false })
    } else {
        let req = &requests[i];
        assert(nominate_view(requests@)[i as int] == req@);
        (
            StakeAction::Nominate { account: req.nominator_id, targets: accounts_clone(&req.nominations) },
            NominateAt { index: i, called: true },
        )
    }
}

} // verus!
