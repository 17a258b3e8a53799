use vstd::prelude::*;
use crate::error::ContractError;
use crate::msg::{Coin, CoinView, coins_view, ExecuteMsg, InstantiateMsg, Instruction,
    InstructionView, msgs_view, QueryMsg, QueryResponse};
use crate::queries::{config_answer, shares_answer, funders_answer, total_funds_answer,
    cursor_view};
use crate::state::{Config, ConfigView, State, StateView, ActionSlot, validate_model};

verus! {

/// What creation does: the configuration is assembled — the creating call's
/// time standing in for a missing start — and validated; a valid one yields
/// the initial state with an empty ledger, a zero aggregate, and the optional
/// deferred action pending.
pub open spec fn instantiate_model(time: u64, owner: Seq<char>, msg: InstantiateMsg) -> Result<
    StateView,
    ContractError,
> {
    let c = ConfigView {
        owner: owner,
        denom: msg.denom@,
        goal: msg.goal,
        start: match msg.start {
            Some(s) => s,
            None => time,
        },
        deadline: msg.deadline,
        name: msg.name@,
        description: msg.description@,
    };
    match validate_model(c) {
        Err(e) => Err(e),
        Ok(_) => Ok(
            StateView {
                config: c,
                ledger: Seq::empty(),
                total_shares: 0,
                action: match msg.execute_msg {
                    Some(p) => Some(p@),
                    None => None,
                },
            },
        ),
    }
}

/// Creates a campaign owned by `contract_address`, rejecting an invalid
/// configuration so that an unusable instance is never produced.
pub fn instantiate(time: u64, contract_address: String, msg: InstantiateMsg) -> (r: Result<
    State,
    ContractError,
>)
    ensures
        match instantiate_model(time, contract_address@, msg) {
            Ok(sv) => r matches Ok(st) && st@ == sv && st.wf(),
            Err(e) => r == Err::<State, ContractError>(e),
        },
{
    let start = match msg.start {
        Some(s) => s,
        None => time,
    };
    let config = Config {
        owner: contract_address,
        denom: msg.denom,
        goal: msg.goal,
        start,
        deadline: msg.deadline,
        name: msg.name,
        description: msg.description,
    };
    config.validate()?;
    let state = State {
        config,
        shares: Vec::new(),
        total_shares: 0,
        execute_msg: match msg.execute_msg {
            Some(p) => ActionSlot::Pending(p),
            None => ActionSlot::Consumed,
        },
    };
    proof {
        assert(state@.ledger =~= Seq::<(Seq<char>, u128)>::empty());
        assert(state@ =~= instantiate_model(time, contract_address@, msg)->Ok_0);
    }
    Ok(state)
}

/// What a transition call does, by message: contribute emits no instruction,
/// trigger and claim emit one, refund emits one per settled entry.
pub open spec fn execute_model(
    s: StateView,
    time: u64,
    sender: Seq<char>,
    funds: Seq<CoinView>,
    balance: u128,
    batch: int,
    msg: ExecuteMsg,
) -> Result<(StateView, Seq<InstructionView>), ContractError> {
    match msg {
        ExecuteMsg::Fund {  } => match crate::execute::fund_model(s, time, sender, funds) {
            Ok(sv) => Ok((sv, Seq::empty())),
            Err(e) => Err(e),
        },
        ExecuteMsg::Execute {  } => match crate::execute::trigger_model(s, time) {
            Ok((sv, iv)) => Ok((sv, seq![iv])),
            Err(e) => Err(e),
        },
        ExecuteMsg::Claim {  } => match crate::execute::claim_model(s, time, sender, balance) {
            Ok((sv, iv)) => Ok((sv, seq![iv])),
            Err(e) => Err(e),
        },
        ExecuteMsg::Refund {  } => crate::execute::refund_model(s, time, balance, batch),
    }
}

/// Dispatches a transition call. The host supplies the current time, the
/// caller, the attached funds and the instance's held balance; the returned
/// instructions are for the host to run atomically with the call.
pub fn execute(
    state: &mut State,
    time: u64,
    sender: String,
    funds: &Vec<Coin>,
    contract_balance: u128,
    msg: ExecuteMsg,
) -> (r: Result<Vec<Instruction>, ContractError>)
    requires
        old(state).wf(),
    ensures
        final(state).wf(),
        match execute_model(
            old(state)@,
            time,
            sender@,
            coins_view(funds@),
            contract_balance,
            crate::execute::REFUND_BATCH_LIMIT as int,
            msg,
        ) {
            Ok((sv, msgs)) => r matches Ok(v) && msgs_view(v@) == msgs && final(state)@ == sv,
            Err(e) => r == Err::<Vec<Instruction>, ContractError>(e) && *final(state) == *old(
                state,
            ),
        },
{
    match msg {
        ExecuteMsg::Fund {  } => {
            crate::execute::fund(state, time, sender, funds)?;
            proof {
                assert(msgs_view(Seq::<Instruction>::empty()) =~= Seq::<InstructionView>::empty());
            }
            Ok(Vec::new())
        },
        ExecuteMsg::Execute {  } => {
            let ins = crate::execute::execute(state, time)?;
            let mut v: Vec<Instruction> = Vec::new();
            v.push(ins);
            proof {
                assert(msgs_view(v@) =~= seq![ins@]);
            }
            Ok(v)
        },
        ExecuteMsg::Claim {  } => {
            let ins = crate::execute::claim(state, time, sender, contract_balance)?;
            let mut v: Vec<Instruction> = Vec::new();
            v.push(ins);
            proof {
                assert(msgs_view(v@) =~= seq![ins@]);
            }
            Ok(v)
        },
        ExecuteMsg::Refund {  } => crate::execute::refund(
            state,
            time,
            contract_balance,
            crate::execute::REFUND_BATCH_LIMIT,
        ),
    }
}

/// Dispatches a read-only call.
pub fn query(state: &State, msg: QueryMsg) -> (r: Result<QueryResponse, ContractError>)
    ensures
        match msg {
            QueryMsg::GetConfig {  } => r matches Ok(q) && config_answer(state@, q),
            QueryMsg::GetShares { user } => shares_answer(state@, user@, r),
            QueryMsg::GetFunders { limit, start_after } => r matches Ok(q) && funders_answer(
                state@,
                limit,
                cursor_view(start_after),
                q,
            ),
            QueryMsg::GetTotalFunds {  } => r matches Ok(q) && total_funds_answer(state@, q),
        },
{
    match msg {
        QueryMsg::GetConfig {  } => Ok(crate::queries::get_config(state)),
        QueryMsg::GetShares { user } => crate::queries::get_shares(state, user),
        QueryMsg::GetFunders { limit, start_after } => Ok(
            crate::queries::get_funders(state, limit, start_after),
        ),
        QueryMsg::GetTotalFunds {  } => Ok(crate::queries::get_funds(state)),
    }
}

} // verus!
