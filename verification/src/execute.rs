use vstd::prelude::*;
use crate::error::ContractError;
use crate::msg::{Coin, CoinView, coins_view, Instruction, InstructionView, msgs_view};
use crate::order::{lex_lt, lemma_lex_lt_trichotomy};
use crate::payout::{payout, pro_rata};
use crate::rules::{has_started, not_closed, is_closed, fully_funded, not_fully_funded,
    sent_amount, check_has_started, check_not_closed, check_sent_funds, check_is_closed,
    check_fully_funded, check_not_fully_funded, designated_amount};
use crate::state::{State, StateView, ActionSlot, lookup, upsert, remove_key, sum_shares,
    ledger_sorted, all_positive, lemma_lookup_at, lemma_lookup_none, lemma_remove_at,
    lemma_upsert_at, lemma_sum_remove, lemma_sum_update, lemma_sum_insert, lemma_sum_split,
    lemma_sum_nonneg, lemma_entry_le_sum, lemma_insert_keeps_inv, lemma_update_keeps_inv,
    lemma_remove_keeps_inv, lemma_skip_keeps_inv};

verus! {

/// How many ledger entries one refund call settles at most; full unwinding
/// takes repeated calls.
pub const REFUND_BATCH_LIMIT: usize = 30;

/// What a contribution does: after the guards pass, the attached amount of
/// the designated denomination joins the sender's entry and the aggregate.
pub open spec fn fund_model(s: StateView, time: u64, sender: Seq<char>, funds: Seq<CoinView>)
    -> Result<StateView, ContractError> {
    let amt = sent_amount(funds, s.config.denom);
    if !has_started(s.config, time) {
        Err(ContractError::NotStarted)
    } else if !not_closed(s.config, time) {
        Err(ContractError::Closed)
    } else if amt == 0 {
        Err(ContractError::NoFunds)
    } else if s.total_shares + amt > u128::MAX {
        Err(ContractError::Overflow)
    } else {
        Ok(StateView {
            ledger: upsert(s.ledger, sender, amt),
            total_shares: (s.total_shares + amt) as u128,
            ..s
        })
    }
}

/// What the trigger does: once the campaign is closed and funded, the pending
/// payload is emitted and the slot is consumed, so a second run cannot happen.
pub open spec fn trigger_model(s: StateView, time: u64) -> Result<
    (StateView, InstructionView),
    ContractError,
> {
    if !is_closed(s.config, time) {
        Err(ContractError::Open)
    } else if !fully_funded(s) {
        Err(ContractError::NotFullyFunded)
    } else {
        match s.action {
            None => Err(ContractError::ActionNotSet),
            Some(p) => Ok(
                (StateView { action: None, ..s }, InstructionView::Action(p)),
            ),
        }
    }
}

/// What a claim does: once the campaign is closed and funded, the caller's
/// entry leaves the ledger and a pro-rata part of the held balance is paid.
pub open spec fn claim_model(s: StateView, time: u64, sender: Seq<char>, balance: u128) -> Result<
    (StateView, InstructionView),
    ContractError,
> {
    if !is_closed(s.config, time) {
        Err(ContractError::Open)
    } else if !fully_funded(s) {
        Err(ContractError::NotFullyFunded)
    } else {
        match lookup(s.ledger, sender) {
            None => Err(ContractError::NoShares),
            Some(share) => Ok(
                (
                    StateView {
                        ledger: remove_key(s.ledger, sender),
                        total_shares: (s.total_shares - share) as u128,
                        ..s
                    },
                    InstructionView::Transfer {
                        to: sender,
                        amount: payout(balance, share, s.total_shares) as u128,
                        denom: s.config.denom,
                    },
                ),
            ),
        }
    }
}

/// The transfer instructions for one refund batch, each a pro-rata part of
/// the balance at the total captured when the batch started.
pub open spec fn refund_msgs(
    batch: Seq<(Seq<char>, u128)>,
    balance: u128,
    total: u128,
    denom: Seq<char>,
) -> Seq<InstructionView> {
    batch.map_values(
        |e: (Seq<char>, u128)| InstructionView::Transfer {
            to: e.0,
            amount: payout(balance, e.1, total) as u128,
            denom: denom,
        },
    )
}

/// What a refund does: once the campaign is closed and unfunded, a leading
/// batch of entries leaves the ledger, the aggregate drops by their shares,
/// and every one of them is paid its pro-rata part of the held balance.
pub open spec fn refund_model(s: StateView, time: u64, balance: u128, batch: int) -> Result<
    (StateView, Seq<InstructionView>),
    ContractError,
> {
    if !is_closed(s.config, time) {
        Err(ContractError::Open)
    } else if !not_fully_funded(s) {
        Err(ContractError::FullyFunded)
    } else {
        let k = if batch < s.ledger.len() {
            batch
        } else {
            s.ledger.len() as int
        };
        Ok(
            (
                StateView {
                    ledger: s.ledger.skip(k),
                    total_shares: (s.total_shares - sum_shares(s.ledger.take(k))) as u128,
                    ..s
                },
                refund_msgs(s.ledger.take(k), balance, s.total_shares, s.config.denom),
            ),
        )
    }
}

/// The first ledger position whose key is not below `k`.
fn lower_bound(shares: &Vec<(String, u128)>, k: &String) -> (i: usize)
    ensures
        0 <= i <= shares@.len(),
        forall|j: int| 0 <= j < i ==> lex_lt((#[trigger] shares@[j]).0@, k@),
        i < shares@.len() ==> !lex_lt(shares@[i as int].0@, k@),
{
    let n = shares.len();
    let mut i: usize = 0;
    loop
        invariant
            n == shares@.len(),
            0 <= i <= n,
            forall|j: int| 0 <= j < i ==> lex_lt((#[trigger] shares@[j]).0@, k@),
        decreases n - i,
    {
        if i >= n {
            return i;
        }
        if !crate::order::str_lt(shares[i].0.as_str(), k.as_str()) {
            return i;
        }
        i += 1;
    }
}

/// The ledger position holding `k`'s entry, if one exists.
pub(crate) fn find_key(shares: &Vec<(String, u128)>, k: &String) -> (r: Option<usize>)
    ensures
        match r {
            Some(i) => i < shares@.len() && shares@[i as int].0@ == k@ && forall|j: int|
                0 <= j < i ==> (#[trigger] shares@[j]).0@ != k@,
            None => forall|j: int| 0 <= j < shares@.len() ==> (#[trigger] shares@[j]).0@ != k@,
        },
{
    let n = shares.len();
    let mut i: usize = 0;
    loop
        invariant
            n == shares@.len(),
            0 <= i <= n,
            forall|j: int| 0 <= j < i ==> (#[trigger] shares@[j]).0@ != k@,
        decreases n - i,
    {
        if i >= n {
            return None;
        }
        if shares[i].0 == *k {
            return Some(i);
        }
        i += 1;
    }
}

/// Contribute the attached funds of the designated denomination to the
/// sender's share. Fails before the start, at or after the deadline, when no
/// designated funds are attached, and when the aggregate would overflow; on
/// failure nothing changes.
pub fn fund(state: &mut State, time: u64, sender: String, funds: &Vec<Coin>) -> (r: Result<
    (),
    ContractError,
>)
    requires
        old(state).wf(),
    ensures
        final(state).wf(),
        match fund_model(old(state)@, time, sender@, coins_view(funds@)) {
            Ok(sv) => r == Ok::<(), ContractError>(()) && final(state)@ == sv,
            Err(e) => r == Err::<(), ContractError>(e) && *final(state) == *old(state),
        },
{
    check_has_started(&state.config, time)?;
    check_not_closed(&state.config, time)?;
    check_sent_funds(&state.config, funds)?;
    let amt = designated_amount(funds, &state.config.denom);
    let new_total = match state.total_shares.checked_add(amt) {
        Some(t) => t,
        None => {
            return Err(ContractError::Overflow);
        },
    };
    let ghost s0 = state.shares@;
    let ghost l0 = state@.ledger;
    proof {
        assert(forall|j: int| 0 <= j < s0.len() ==> l0[j] == ((#[trigger] s0[j]).0@, s0[j].1));
    }
    let i = lower_bound(&state.shares, &sender);
    proof {
        assert(forall|j: int| 0 <= j < i ==> lex_lt((#[trigger] l0[j]).0, sender@));
        assert(i < l0.len() ==> !lex_lt(l0[i as int].0, sender@));
        lemma_upsert_at(l0, sender@, amt, i as int);
    }
    if i < state.shares.len() && state.shares[i].0 == sender {
        let share = state.shares[i].1;
        proof {
            lemma_entry_le_sum(l0, i as int);
        }
        state.shares[i] = (sender, share + amt);
        state.total_shares = new_total;
        proof {
            let lv = (l0[i as int].0, (l0[i as int].1 + amt) as u128);
            assert(state@.ledger =~= l0.update(i as int, lv));
            lemma_sum_update(l0, i as int, lv);
            lemma_update_keeps_inv(l0, i as int, sender@, (share + amt) as u128);
            assert(state@ =~= fund_model(old(state)@, time, sender@, coins_view(
                funds@,
            ))->Ok_0);
        }
        Ok(())
    } else {
        proof {
            if i < l0.len() {
                lemma_lex_lt_trichotomy(sender@, l0[i as int].0);
            }
        }
        state.shares.insert(i, (sender, amt));
        state.total_shares = new_total;
        proof {
            assert(state@.ledger =~= l0.insert(i as int, (sender@, amt)));
            lemma_sum_insert(l0, i as int, (sender@, amt));
            lemma_insert_keeps_inv(l0, i as int, sender@, amt);
            assert(state@ =~= fund_model(old(state)@, time, sender@, coins_view(
                funds@,
            ))->Ok_0);
        }
        Ok(())
    }
}

/// Run the deferred action once the campaign is closed and fully funded. The
/// slot is consumed before the payload is handed out, so a successful run can
/// never repeat; on failure nothing changes.
pub fn execute(state: &mut State, time: u64) -> (r: Result<Instruction, ContractError>)
    requires
        old(state).wf(),
    ensures
        final(state).wf(),
        match trigger_model(old(state)@, time) {
            Ok((sv, iv)) => r matches Ok(ins) && ins@ == iv && final(state)@ == sv,
            Err(e) => r == Err::<Instruction, ContractError>(e) && *final(state) == *old(state),
        },
{
    check_is_closed(&state.config, time)?;
    check_fully_funded(state.config.goal, state.total_shares)?;
    let mut slot = ActionSlot::Consumed;
    core::mem::swap(&mut state.execute_msg, &mut slot);
    match slot {
        ActionSlot::Pending(p) => Ok(Instruction::Action(p)),
        ActionSlot::Consumed => Err(ContractError::ActionNotSet),
    }
}

/// Pay the sender a pro-rata part of the held balance once the campaign is
/// closed and fully funded, removing the sender's entry, so a second claim
/// by the same identity fails. On failure nothing changes.
pub fn claim(state: &mut State, time: u64, sender: String, contract_balance: u128) -> (r: Result<
    Instruction,
    ContractError,
>)
    requires
        old(state).wf(),
    ensures
        final(state).wf(),
        match claim_model(old(state)@, time, sender@, contract_balance) {
            Ok((sv, iv)) => r matches Ok(ins) && ins@ == iv && final(state)@ == sv,
            Err(e) => r == Err::<Instruction, ContractError>(e) && *final(state) == *old(state),
        },
{
    check_is_closed(&state.config, time)?;
    check_fully_funded(state.config.goal, state.total_shares)?;
    let ghost s0 = state.shares@;
    let ghost l0 = state@.ledger;
    proof {
        assert(forall|j: int| 0 <= j < s0.len() ==> l0[j] == ((#[trigger] s0[j]).0@, s0[j].1));
    }
    let i = match find_key(&state.shares, &sender) {
        Some(i) => i,
        None => {
            proof {
                assert(forall|j: int| 0 <= j < l0.len() ==> (#[trigger] l0[j]).0 != sender@);
                lemma_lookup_none(l0, sender@);
            }
            return Err(ContractError::NoShares);
        },
    };
    proof {
        assert(forall|j: int| 0 <= j < i ==> (#[trigger] l0[j]).0 != sender@);
        lemma_lookup_at(l0, sender@, i as int);
        lemma_entry_le_sum(l0, i as int);
    }
    let share = state.shares[i].1;
    let amount = pro_rata(contract_balance, share, state.total_shares);
    let _settled = state.shares.remove(i);
    state.total_shares = state.total_shares - share;
    proof {
        lemma_remove_at(l0, sender@, i as int);
        lemma_sum_remove(l0, i as int);
        lemma_remove_keeps_inv(l0, i as int);
        assert(state@.ledger =~= l0.remove(i as int));
        assert(state@ =~= claim_model(old(state)@, time, sender@, contract_balance)->Ok_0.0);
    }
    Ok(Instruction::Transfer { to_address: sender, amount, denom: state.config.denom.clone() })
}

/// Refund a leading batch of contributors pro rata once the campaign is
/// closed and not fully funded, removing their entries and decrementing the
/// aggregate; every computed transfer is returned. Callers re-invoke until
/// the ledger is empty. On failure nothing changes.
pub fn refund(state: &mut State, time: u64, contract_balance: u128, batch_limit: usize) -> (r:
    Result<Vec<Instruction>, ContractError>)
    requires
        old(state).wf(),
    ensures
        final(state).wf(),
        match refund_model(old(state)@, time, contract_balance, batch_limit as int) {
            Ok((sv, msgs)) => r matches Ok(v) && msgs_view(v@) == msgs && final(state)@ == sv,
            Err(e) => r == Err::<Vec<Instruction>, ContractError>(e) && *final(state) == *old(
                state,
            ),
        },
{
    check_is_closed(&state.config, time)?;
    check_not_fully_funded(state.config.goal, state.total_shares)?;
    let ghost s0 = state.shares@;
    let ghost l0 = state@.ledger;
    let ghost t0 = state.total_shares;
    proof {
        assert(forall|j: int| 0 <= j < s0.len() ==> l0[j] == ((#[trigger] s0[j]).0@, s0[j].1));
    }
    let n = state.shares.len();
    let k = if batch_limit < n {
        batch_limit
    } else {
        n
    };
    let mut msgs: Vec<Instruction> = Vec::new();
    let mut batch_total: u128 = 0;
    let mut j: usize = 0;
    while j < k
        invariant
            old(state).wf(),
            *state == *old(state),
            s0 == state.shares@,
            l0 == state@.ledger,
            t0 == state.total_shares,
            t0 as int == sum_shares(l0),
            all_positive(l0),
            0 <= j <= k <= n,
            n == l0.len(),
            batch_total as int == sum_shares(l0.take(j as int)),
            batch_total <= t0,
            msgs@.len() == j,
            forall|p: int| 0 <= p < j ==> (#[trigger] msgs@[p])@ == (InstructionView::Transfer {
                to: l0[p].0,
                amount: payout(contract_balance, l0[p].1, t0) as u128,
                denom: old(state)@.config.denom,
            }),
        decreases k - j,
    {
        proof {
            lemma_entry_le_sum(l0, j as int);
            lemma_sum_split(l0, j as int + 1);
            lemma_sum_nonneg(l0.skip(j as int + 1));
            assert(l0.take(j as int + 1).take(j as int) =~= l0.take(j as int));
            assert(l0.take(j as int + 1).skip(j as int) =~= seq![l0[j as int]]);
            lemma_sum_split(l0.take(j as int + 1), j as int);
            assert(sum_shares(seq![l0[j as int]]) == l0[j as int].1) by {
                assert(seq![l0[j as int]].drop_first() =~= Seq::<(Seq<char>, u128)>::empty());
                assert(sum_shares(Seq::<(Seq<char>, u128)>::empty()) == 0);
            }
        }
        let share = state.shares[j].1;
        let to = state.shares[j].0.clone();
        let amount = pro_rata(contract_balance, share, state.total_shares);
        msgs.push(Instruction::Transfer { to_address: to, amount, denom: state.config.denom.clone() });
        batch_total = batch_total + share;
        j += 1;
    }
    let mut m: usize = 0;
    while m < k
        invariant
            0 <= m <= k <= s0.len(),
            state.shares@ == s0.skip(m as int),
            state.config == old(state).config,
            state.total_shares == t0,
            state.execute_msg == old(state).execute_msg,
        decreases k - m,
    {
        proof {
            assert(s0.skip(m as int).remove(0) =~= s0.skip(m as int + 1));
        }
        let _settled = state.shares.remove(0);
        m += 1;
    }
    state.total_shares = state.total_shares - batch_total;
    proof {
        let ki = k as int;
        assert(state@.ledger =~= l0.skip(ki)) by {
            assert(forall|p: int|
                0 <= p < s0.skip(ki).len() ==> (#[trigger] s0.skip(ki)[p]) == s0[p + ki]);
        }
        lemma_sum_split(l0, ki);
        lemma_skip_keeps_inv(l0, ki);
        assert(msgs_view(msgs@) =~= refund_msgs(l0.take(ki), contract_balance, t0, old(
            state,
        )@.config.denom));
        assert(state@ =~= refund_model(old(state)@, time, contract_balance, batch_limit as int)
            ->Ok_0.0);
    }
    Ok(msgs)
}

} // verus!
