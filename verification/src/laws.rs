use vstd::prelude::*;
use crate::error::ContractError;
use crate::msg::{CoinView, ExecuteMsg, InstructionView};
use crate::execute::{fund_model, trigger_model, claim_model, refund_model, refund_msgs};
use crate::contract::execute_model;
use crate::payout::{payout, payout_sum, lemma_payout_le_balance, lemma_full_settlement_bounds};
use crate::rules::{is_closed, fully_funded, not_fully_funded, sent_amount};
use crate::state::{StateView, inv, sum_shares, lemma_entry_le_sum, lemma_sum_nonneg, lookup};
use vstd::arithmetic::div_mod::lemma_div_by_multiple;
use vstd::arithmetic::mul::lemma_mul_is_commutative;

verus! {

/// No transition ever alters the configuration: whatever message is
/// dispatched, a successful call leaves every configuration field as it was,
/// and a failed one leaves the whole state as it was.
pub proof fn lemma_config_immutable(
    s: StateView,
    time: u64,
    sender: Seq<char>,
    funds: Seq<CoinView>,
    balance: u128,
    batch: int,
    msg: ExecuteMsg,
)
    ensures
        match execute_model(s, time, sender, funds, balance, batch, msg) {
            Ok((sv, _)) => sv.config == s.config,
            Err(_) => true,
        },
{
}

/// A contribution before the start, at or after the deadline, or with no
/// attached funds of the designated denomination, always fails, with the
/// first failing guard deciding the error.
pub proof fn lemma_contribute_window(s: StateView, time: u64, sender: Seq<char>, funds: Seq<
    CoinView,
>)
    ensures
        time <= s.config.start ==> fund_model(s, time, sender, funds) == Err::<
            StateView,
            ContractError,
        >(ContractError::NotStarted),
        time >= s.config.deadline ==> fund_model(s, time, sender, funds) is Err,
        sent_amount(funds, s.config.denom) == 0 ==> fund_model(s, time, sender, funds) is Err,
{
}

/// No settlement before the deadline: while the campaign is open, claim,
/// refund and trigger all fail with the open-campaign error.
pub proof fn lemma_settlement_needs_deadline(
    s: StateView,
    time: u64,
    sender: Seq<char>,
    balance: u128,
    batch: int,
)
    ensures
        time < s.config.deadline ==> claim_model(s, time, sender, balance) == Err::<
            (StateView, InstructionView),
            ContractError,
        >(ContractError::Open),
        time < s.config.deadline ==> trigger_model(s, time) == Err::<
            (StateView, InstructionView),
            ContractError,
        >(ContractError::Open),
        time < s.config.deadline ==> refund_model(s, time, balance, batch) == Err::<
            (StateView, Seq<InstructionView>),
            ContractError,
        >(ContractError::FullyFunded) || refund_model(s, time, balance, batch) == Err::<
            (StateView, Seq<InstructionView>),
            ContractError,
        >(ContractError::Open),
        time < s.config.deadline ==> refund_model(s, time, balance, batch) is Err,
{
}

/// The deferred action runs at most once: after a successful trigger, a
/// second trigger fails at any later time — the slot is consumed and is
/// never refilled.
pub proof fn lemma_trigger_at_most_once(s: StateView, t1: u64, t2: u64)
    ensures
        trigger_model(s, t1) matches Ok((sv, _)) ==> trigger_model(sv, t2) is Err,
        trigger_model(s, t1) matches Ok((sv, _)) ==> (is_closed(sv.config, t2) ==> trigger_model(
            sv,
            t2,
        ) == Err::<(StateView, InstructionView), ContractError>(ContractError::ActionNotSet)),
{
}

/// The success and failure settlements are mutually exclusive gates on one
/// instance: claim and trigger need the goal reached, refund needs it
/// missed, so no state admits both.
pub proof fn lemma_settlement_gates_exclusive(
    s: StateView,
    time: u64,
    sender: Seq<char>,
    balance: u128,
    batch: int,
)
    ensures
        fully_funded(s) ==> refund_model(s, time, balance, batch) is Err,
        is_closed(s.config, time) && fully_funded(s) ==> refund_model(s, time, balance, batch)
            == Err::<(StateView, Seq<InstructionView>), ContractError>(ContractError::FullyFunded),
        not_fully_funded(s) ==> claim_model(s, time, sender, balance) is Err && trigger_model(
            s,
            time,
        ) is Err,
        is_closed(s.config, time) && not_fully_funded(s) ==> claim_model(s, time, sender, balance)
            == Err::<(StateView, InstructionView), ContractError>(ContractError::NotFullyFunded),
        !(claim_model(s, time, sender, balance) is Ok && refund_model(s, time, balance, batch)
            is Ok),
        !(trigger_model(s, time) is Ok && refund_model(s, time, balance, batch) is Ok),
{
}

/// Sum of the amounts carried by the transfer instructions in a batch.
pub open spec fn transfer_amount_sum(msgs: Seq<InstructionView>) -> int
    decreases msgs.len(),
{
    if msgs.len() == 0 {
        0
    } else {
        (match msgs[0] {
            InstructionView::Transfer { amount, .. } => amount as int,
            InstructionView::Action(_) => 0,
        }) + transfer_amount_sum(msgs.drop_first())
    }
}

proof fn lemma_refund_msgs_amount_sum(
    l: Seq<(Seq<char>, u128)>,
    balance: u128,
    total: u128,
    denom: Seq<char>,
)
    requires
        total > 0,
        sum_shares(l) <= total,
    ensures
        transfer_amount_sum(refund_msgs(l, balance, total, denom)) == payout_sum(
            l,
            balance,
            total,
        ),
    decreases l.len(),
{
    let msgs = refund_msgs(l, balance, total, denom);
    if l.len() > 0 {
        lemma_sum_nonneg(l.drop_first());
        lemma_entry_le_sum(l, 0);
        lemma_payout_le_balance(balance, l[0].1, total);
        assert(msgs.drop_first() =~= refund_msgs(l.drop_first(), balance, total, denom));
        lemma_refund_msgs_amount_sum(l.drop_first(), balance, total, denom);
    }
}

/// Round trip of a failed campaign settled in one batch: every entry leaves
/// the ledger, the aggregate returns to zero, and the transfer amounts sum
/// to the held balance up to a truncation remainder of at most one minor
/// unit per contributor beyond the first.
pub proof fn lemma_refund_settles_whole_ledger(
    s: StateView,
    time: u64,
    balance: u128,
    batch: int,
)
    requires
        inv(s),
        is_closed(s.config, time),
        not_fully_funded(s),
        batch >= s.ledger.len(),
        s.ledger.len() >= 1,
    ensures
        match refund_model(s, time, balance, batch) {
            Ok((sv, msgs)) => {
                &&& sv.ledger.len() == 0
                &&& sv.total_shares == 0
                &&& msgs.len() == s.ledger.len()
                &&& balance - (s.ledger.len() - 1) <= transfer_amount_sum(msgs)
                &&& transfer_amount_sum(msgs) <= balance
            },
            Err(_) => false,
        },
{
    let l = s.ledger;
    let n = l.len() as int;
    lemma_entry_le_sum(l, 0);
    assert(s.total_shares >= 1);
    assert(l.take(n) =~= l);
    assert(l.skip(n) =~= Seq::<(Seq<char>, u128)>::empty());
    lemma_refund_msgs_amount_sum(l, balance, s.total_shares, s.config.denom);
    lemma_full_settlement_bounds(l, balance, s.total_shares);
}

/// A claim never overdraws: a successful claim pays at most the held
/// balance. Since the final claim (`lemma_last_claim_sweeps_balance`) pays
/// the whole remaining balance exactly, a chain of claims that empties the
/// ledger pays out, in total, exactly the balance held when the chain began.
pub proof fn lemma_claim_never_overdraws(s: StateView, time: u64, sender: Seq<char>, balance: u128)
    requires
        inv(s),
    ensures
        match claim_model(s, time, sender, balance) {
            Ok((_, iv)) => iv matches InstructionView::Transfer { amount, .. } && amount
                <= balance,
            Err(_) => true,
        },
{
    if claim_model(s, time, sender, balance) is Ok {
        crate::state::lemma_lookup_le_sum(s.ledger, sender);
        lemma_payout_le_balance(balance, lookup(s.ledger, sender)->Some_0, s.total_shares);
    }
}

/// A refund batch never overdraws: the transfer amounts of one batch sum to
/// at most the held balance, whether or not the batch settles the whole
/// ledger.
pub proof fn lemma_refund_batch_never_overdraws(
    s: StateView,
    time: u64,
    balance: u128,
    batch: int,
)
    requires
        inv(s),
        batch >= 0,
    ensures
        match refund_model(s, time, balance, batch) {
            Ok((_, msgs)) => transfer_amount_sum(msgs) <= balance,
            Err(_) => true,
        },
{
    if refund_model(s, time, balance, batch) is Ok {
        let l = s.ledger;
        let t = s.total_shares;
        let k = if batch < l.len() {
            batch
        } else {
            l.len() as int
        };
        if l.len() == 0 {
            assert(l.take(k) =~= Seq::<(Seq<char>, u128)>::empty());
            assert(refund_msgs(l.take(k), balance, t, s.config.denom) =~= Seq::<
                InstructionView,
            >::empty());
        } else {
            lemma_entry_le_sum(l, 0);
            assert(t >= 1);
            crate::state::lemma_sum_split(l, k);
            lemma_sum_nonneg(l.skip(k));
            lemma_sum_nonneg(l.take(k));
            lemma_refund_msgs_amount_sum(l.take(k), balance, t, s.config.denom);
            crate::payout::lemma_payout_sum_bounds(l.take(k), balance, t);
            assert(balance * sum_shares(l.take(k)) / (t as int) <= balance) by {
                vstd::arithmetic::mul::lemma_mul_inequality(
                    sum_shares(l.take(k)),
                    t as int,
                    balance as int,
                );
                lemma_mul_is_commutative(balance as int, sum_shares(l.take(k)));
                lemma_mul_is_commutative(t as int, balance as int);
                vstd::arithmetic::div_mod::lemma_multiply_divide_le(
                    balance as int * sum_shares(l.take(k)),
                    t as int,
                    balance as int,
                );
            }
        }
    }
}

/// A successful claim preserves the state invariant, settles exactly one
/// entry, and leaves the configuration and the deferred action alone.
pub proof fn lemma_claim_preserves_inv(s: StateView, time: u64, sender: Seq<char>, balance: u128)
    requires
        inv(s),
    ensures
        match claim_model(s, time, sender, balance) {
            Ok((sv, _)) => inv(sv) && sv.ledger.len() == s.ledger.len() - 1 && sv.config
                == s.config && sv.action == s.action,
            Err(_) => true,
        },
{
    if claim_model(s, time, sender, balance) is Ok {
        let l = s.ledger;
        crate::state::lemma_lookup_first_index(l, sender);
        let i = choose|i: int|
            0 <= i < l.len() && (#[trigger] l[i]).0 == sender && l[i].1 == lookup(
                l,
                sender,
            )->Some_0 && forall|j: int| 0 <= j < i ==> (#[trigger] l[j]).0 != sender;
        crate::state::lemma_remove_at(l, sender, i);
        crate::state::lemma_sum_remove(l, i);
        crate::state::lemma_remove_keeps_inv(l, i);
        lemma_entry_le_sum(l, i);
    }
}

/// One claim after another: each successful claim hands the host one
/// transfer, and the host executes it, so the next claim sees the balance
/// less that amount. `None` marks a chain in which some claim failed or
/// would have overdrawn.
pub open spec fn claim_chain(
    s: StateView,
    time: u64,
    senders: Seq<Seq<char>>,
    balance: u128,
) -> Option<(StateView, u128)>
    decreases senders.len(),
{
    if senders.len() == 0 {
        Some((s, balance))
    } else {
        match claim_model(s, time, senders[0], balance) {
            Ok((sv, iv)) => match iv {
                InstructionView::Transfer { amount, .. } => if amount <= balance {
                    claim_chain(sv, time, senders.drop_first(), (balance - amount) as u128)
                } else {
                    None
                },
                InstructionView::Action(_) => None,
            },
            Err(_) => None,
        }
    }
}

/// Round trip of a successful campaign settled by claims: when a chain of
/// claims, each paid out of the balance the earlier ones left, empties the
/// ledger, the payouts together amount to exactly the balance held when the
/// chain began — the final claim sweeps whatever truncation left behind.
pub proof fn lemma_claim_chain_pays_exact_balance(
    s: StateView,
    time: u64,
    senders: Seq<Seq<char>>,
    balance: u128,
)
    requires
        inv(s),
        s.ledger.len() >= 1,
        claim_chain(s, time, senders, balance) matches Some((sv, _)) && sv.ledger.len() == 0,
    ensures
        claim_chain(s, time, senders, balance) matches Some((_, left)) && left == 0,
    decreases senders.len(),
{
    let first = claim_model(s, time, senders[0], balance);
    let (sv, iv) = first->Ok_0;
    let amount = iv->Transfer_amount;
    lemma_claim_preserves_inv(s, time, senders[0], balance);
    if s.ledger.len() == 1 {
        lemma_last_claim_sweeps_balance(s, time, senders[0], balance);
        assert(senders.drop_first().len() == 0) by {
            if senders.drop_first().len() > 0 {
                assert(lookup(sv.ledger, senders.drop_first()[0]) is None);
            }
        }
    } else {
        lemma_claim_never_overdraws(s, time, senders[0], balance);
        lemma_claim_chain_pays_exact_balance(
            sv,
            time,
            senders.drop_first(),
            (balance - amount) as u128,
        );
    }
}

/// A claim by the only remaining contributor sweeps the whole held balance:
/// the share equals the aggregate, so the truncating ratio pays out exactly
/// the balance, and the ledger empties.
pub proof fn lemma_last_claim_sweeps_balance(
    s: StateView,
    time: u64,
    sender: Seq<char>,
    balance: u128,
)
    requires
        inv(s),
        is_closed(s.config, time),
        fully_funded(s),
        s.ledger.len() == 1,
        s.ledger[0].0 == sender,
    ensures
        match claim_model(s, time, sender, balance) {
            Ok((sv, iv)) => {
                &&& sv.ledger.len() == 0
                &&& sv.total_shares == 0
                &&& iv matches InstructionView::Transfer { to, amount, denom } && to == sender
                    && amount == balance && denom == s.config.denom
            },
            Err(_) => false,
        },
{
    let l = s.ledger;
    assert(sum_shares(l.drop_first()) == 0) by {
        assert(l.drop_first() =~= Seq::<(Seq<char>, u128)>::empty());
    }
    assert(lookup(l, sender) == Some(l[0].1));
    assert(l[0].1 == s.total_shares);
    assert(payout(balance, s.total_shares, s.total_shares) == balance) by {
        lemma_mul_is_commutative(balance as int, s.total_shares as int);
        lemma_div_by_multiple(balance as int, s.total_shares as int);
    }
}

} // verus!
