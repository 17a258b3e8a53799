use vstd::prelude::*;
use crate::error::ContractError;
use crate::msg::{Coin, CoinView, coins_view};
use crate::state::{Config, ConfigView, StateView};

verus! {

/// The campaign has started: the current time is strictly past `start`.
pub open spec fn has_started(c: ConfigView, time: u64) -> bool {
    c.start < time
}

/// The campaign is still open: the current time is strictly before the
/// deadline.
pub open spec fn not_closed(c: ConfigView, time: u64) -> bool {
    time < c.deadline
}

/// The campaign is closed: the deadline has been reached or passed.
pub open spec fn is_closed(c: ConfigView, time: u64) -> bool {
    time >= c.deadline
}

/// The goal has been reached.
pub open spec fn fully_funded(s: StateView) -> bool {
    s.total_shares >= s.config.goal
}

/// The goal has not been reached.
pub open spec fn not_fully_funded(s: StateView) -> bool {
    s.total_shares < s.config.goal
}

/// The amount of the designated denomination among the attached funds: the
/// first matching coin decides, zero when none matches.
pub open spec fn sent_amount(funds: Seq<CoinView>, denom: Seq<char>) -> u128
    decreases funds.len(),
{
    if funds.len() == 0 {
        0
    } else if funds[0].denom == denom {
        funds[0].amount
    } else {
        sent_amount(funds.drop_first(), denom)
    }
}

proof fn lemma_sent_amount_skip(funds: Seq<CoinView>, denom: Seq<char>, i: int)
    requires
        0 <= i <= funds.len(),
        forall|j: int| 0 <= j < i ==> (#[trigger] funds[j]).denom != denom,
    ensures
        sent_amount(funds, denom) == sent_amount(funds.skip(i), denom),
    decreases i,
{
    if i == 0 {
        assert(funds.skip(0) =~= funds);
    } else {
        assert(funds.drop_first().skip(i - 1) =~= funds.skip(i));
        assert(forall|j: int|
            0 <= j < i - 1 ==> (#[trigger] funds.drop_first()[j]).denom != denom);
        lemma_sent_amount_skip(funds.drop_first(), denom, i - 1);
    }
}

/// Extracts the attached amount of the designated denomination.
pub fn designated_amount(funds: &Vec<Coin>, denom: &String) -> (r: u128)
    ensures
        r == sent_amount(coins_view(funds@), denom@),
{
    let ghost fv = coins_view(funds@);
    let n = funds.len();
    let mut i: usize = 0;
    loop
        invariant
            n == funds.len(),
            fv == coins_view(funds@),
            fv.len() == n,
            0 <= i <= n,
            forall|j: int| 0 <= j < i ==> (#[trigger] fv[j]).denom != denom@,
        decreases n - i,
    {
        if i >= n {
            proof {
                lemma_sent_amount_skip(fv, denom@, i as int);
            }
            return 0;
        }
        if funds[i].denom == *denom {
            proof {
                lemma_sent_amount_skip(fv, denom@, i as int);
                assert(fv.skip(i as int)[0] == fv[i as int]);
            }
            return funds[i].amount;
        }
        i += 1;
    }
}

/// Guard: rejects a contribution before the campaign start.
pub fn check_has_started(config: &Config, time: u64) -> (r: Result<(), ContractError>)
    ensures
        r == if has_started(config@, time) {
            Ok::<(), ContractError>(())
        } else {
            Err::<(), ContractError>(ContractError::NotStarted)
        },
{
    if config.start >= time {
        Err(ContractError::NotStarted)
    } else {
        Ok(())
    }
}

/// Guard: rejects a contribution at or after the deadline.
pub fn check_not_closed(config: &Config, time: u64) -> (r: Result<(), ContractError>)
    ensures
        r == if not_closed(config@, time) {
            Ok::<(), ContractError>(())
        } else {
            Err::<(), ContractError>(ContractError::Closed)
        },
{
    if config.deadline <= time {
        Err(ContractError::Closed)
    } else {
        Ok(())
    }
}

/// Guard: rejects a call that attached no funds of the designated
/// denomination.
pub fn check_sent_funds(config: &Config, funds: &Vec<Coin>) -> (r: Result<(), ContractError>)
    ensures
        r == if sent_amount(coins_view(funds@), config@.denom) != 0 {
            Ok::<(), ContractError>(())
        } else {
            Err::<(), ContractError>(ContractError::NoFunds)
        },
{
    if designated_amount(funds, &config.denom) == 0 {
        Err(ContractError::NoFunds)
    } else {
        Ok(())
    }
}

/// Guard: rejects a settlement call before the deadline.
pub fn check_is_closed(config: &Config, time: u64) -> (r: Result<(), ContractError>)
    ensures
        r == if is_closed(config@, time) {
            Ok::<(), ContractError>(())
        } else {
            Err::<(), ContractError>(ContractError::Open)
        },
{
    if config.deadline > time {
        Err(ContractError::Open)
    } else {
        Ok(())
    }
}

/// Guard: rejects claim and trigger while the goal is unmet.
pub fn check_fully_funded(goal: u128, total_shares: u128) -> (r: Result<(), ContractError>)
    ensures
        r == if total_shares >= goal {
            Ok::<(), ContractError>(())
        } else {
            Err::<(), ContractError>(ContractError::NotFullyFunded)
        },
{
    if total_shares < goal {
        Err(ContractError::NotFullyFunded)
    } else {
        Ok(())
    }
}

/// Guard: rejects refund once the goal is met.
pub fn check_not_fully_funded(goal: u128, total_shares: u128) -> (r: Result<(), ContractError>)
    ensures
        r == if total_shares < goal {
            Ok::<(), ContractError>(())
        } else {
            Err::<(), ContractError>(ContractError::FullyFunded)
        },
{
    if total_shares >= goal {
        Err(ContractError::FullyFunded)
    } else {
        Ok(())
    }
}

} // verus!
