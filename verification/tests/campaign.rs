use cw_kickstarter::contract::{execute, instantiate, query};
use cw_kickstarter::execute::{claim, fund, refund, REFUND_BATCH_LIMIT};
use cw_kickstarter::msg::{Coin, ExecuteMsg, InstantiateMsg, Instruction, QueryMsg, QueryResponse};
use cw_kickstarter::queries::{get_config, get_funders, get_funds, get_shares};
use cw_kickstarter::state::State;
use cw_kickstarter::ContractError;

const START: u64 = 100;
const DEADLINE: u64 = 200;
const OPEN_TIME: u64 = 150;
const CLOSED_TIME: u64 = 250;

fn msg_with(goal: u128, action: Option<Vec<u8>>) -> InstantiateMsg {
    InstantiateMsg {
        denom: "token".to_string(),
        goal,
        start: Some(START),
        deadline: DEADLINE,
        name: "campaign".to_string(),
        description: "a campaign".to_string(),
        execute_msg: action,
    }
}

fn new_state(goal: u128) -> State {
    instantiate(50, "owner".to_string(), msg_with(goal, None)).unwrap()
}

fn coins(amount: u128) -> Vec<Coin> {
    vec![Coin { denom: "token".to_string(), amount }]
}

fn contribute(state: &mut State, who: &str, amount: u128) {
    fund(state, OPEN_TIME, who.to_string(), &coins(amount)).unwrap();
}

#[test]
fn instantiate_rejects_zero_goal() {
    let r = instantiate(50, "owner".to_string(), msg_with(0, None));
    assert_eq!(r.err().unwrap(), ContractError::GoalZero);
}

#[test]
fn instantiate_rejects_start_at_or_after_deadline() {
    let mut m = msg_with(1000, None);
    m.start = Some(DEADLINE);
    let r = instantiate(50, "owner".to_string(), m);
    assert_eq!(r.err().unwrap(), ContractError::StartNotBeforeDeadline);
}

#[test]
fn instantiate_rejects_oversize_texts() {
    let mut m = msg_with(1000, None);
    m.name = "n".repeat(33);
    let r = instantiate(50, "owner".to_string(), m);
    assert_eq!(r.err().unwrap(), ContractError::NameTooLong);

    let mut m = msg_with(1000, None);
    m.description = "d".repeat(257);
    let r = instantiate(50, "owner".to_string(), m);
    assert_eq!(r.err().unwrap(), ContractError::DescriptionTooLong);
}

#[test]
fn instantiate_defaults_start_to_call_time() {
    let mut m = msg_with(1000, None);
    m.start = None;
    let state = instantiate(50, "owner".to_string(), m).unwrap();
    assert_eq!(state.config.start, 50);
}

#[test]
fn config_is_reported_and_never_changes() {
    let mut state = new_state(1000);
    contribute(&mut state, "alice", 1000);
    let _ = execute(
        &mut state,
        CLOSED_TIME,
        "alice".to_string(),
        &vec![],
        1000,
        ExecuteMsg::Claim {},
    )
    .unwrap();
    match get_config(&state) {
        QueryResponse::GetConfigResponse { goal, deadline, name, description } => {
            assert_eq!(goal.denom, "token");
            assert_eq!(goal.amount, 1000);
            assert_eq!(deadline, DEADLINE);
            assert_eq!(name, "campaign");
            assert_eq!(description, "a campaign");
        }
        _ => panic!("wrong response"),
    }
}

#[test]
fn fund_before_start_fails() {
    let mut state = new_state(1000);
    let r = fund(&mut state, START, "alice".to_string(), &coins(10));
    assert_eq!(r.err().unwrap(), ContractError::NotStarted);
}

#[test]
fn fund_at_or_after_deadline_fails() {
    let mut state = new_state(1000);
    let r = fund(&mut state, DEADLINE, "alice".to_string(), &coins(10));
    assert_eq!(r.err().unwrap(), ContractError::Closed);
    let r = fund(&mut state, CLOSED_TIME, "alice".to_string(), &coins(10));
    assert_eq!(r.err().unwrap(), ContractError::Closed);
}

#[test]
fn fund_without_designated_funds_fails() {
    let mut state = new_state(1000);
    let r = fund(&mut state, OPEN_TIME, "alice".to_string(), &vec![]);
    assert_eq!(r.err().unwrap(), ContractError::NoFunds);
    let other = vec![Coin { denom: "other".to_string(), amount: 10 }];
    let r = fund(&mut state, OPEN_TIME, "alice".to_string(), &other);
    assert_eq!(r.err().unwrap(), ContractError::NoFunds);
}

#[test]
fn fund_takes_first_matching_denomination() {
    let mut state = new_state(1000);
    let funds = vec![
        Coin { denom: "other".to_string(), amount: 5 },
        Coin { denom: "token".to_string(), amount: 7 },
        Coin { denom: "token".to_string(), amount: 9 },
    ];
    fund(&mut state, OPEN_TIME, "alice".to_string(), &funds).unwrap();
    assert_eq!(state.total_shares, 7);
}

#[test]
fn fund_accumulates_per_sender() {
    let mut state = new_state(1000);
    contribute(&mut state, "alice", 300);
    contribute(&mut state, "alice", 200);
    match get_shares(&state, "alice".to_string()).unwrap() {
        QueryResponse::GetSharesResponse { address, shares } => {
            assert_eq!(address, "alice");
            assert_eq!(shares, 500);
        }
        _ => panic!("wrong response"),
    }
    match get_funds(&state) {
        QueryResponse::GetTotalFundsResponse { total_funds } => {
            assert_eq!(total_funds.denom, "token");
            assert_eq!(total_funds.amount, 500);
        }
        _ => panic!("wrong response"),
    }
}

#[test]
fn fund_overflow_fails_closed() {
    let mut state = new_state(1000);
    contribute(&mut state, "alice", u128::MAX);
    let r = fund(&mut state, OPEN_TIME, "bob".to_string(), &coins(1));
    assert_eq!(r.err().unwrap(), ContractError::Overflow);
    assert_eq!(state.total_shares, u128::MAX);
}

#[test]
fn settlement_before_deadline_fails() {
    let mut state = new_state(1000);
    contribute(&mut state, "alice", 1000);
    let r = claim(&mut state, OPEN_TIME, "alice".to_string(), 1000);
    assert_eq!(r.err().unwrap(), ContractError::Open);
    let r = refund(&mut state, OPEN_TIME, 1000, REFUND_BATCH_LIMIT);
    assert_eq!(r.err().unwrap(), ContractError::Open);
    let r = cw_kickstarter::execute::execute(&mut state, OPEN_TIME);
    assert_eq!(r.err().unwrap(), ContractError::Open);

    let mut unfunded = new_state(1000);
    contribute(&mut unfunded, "alice", 10);
    let r = refund(&mut unfunded, OPEN_TIME, 10, REFUND_BATCH_LIMIT);
    assert_eq!(r.err().unwrap(), ContractError::Open);
}

#[test]
fn settlement_gates_are_exclusive() {
    let mut funded = instantiate(50, "owner".to_string(), msg_with(1000, Some(vec![1]))).unwrap();
    contribute(&mut funded, "alice", 1000);
    let r = refund(&mut funded, CLOSED_TIME, 1000, REFUND_BATCH_LIMIT);
    assert_eq!(r.err().unwrap(), ContractError::FullyFunded);

    let mut unfunded = instantiate(50, "owner".to_string(), msg_with(1000, Some(vec![1]))).unwrap();
    contribute(&mut unfunded, "alice", 10);
    let r = claim(&mut unfunded, CLOSED_TIME, "alice".to_string(), 10);
    assert_eq!(r.err().unwrap(), ContractError::NotFullyFunded);
    let r = cw_kickstarter::execute::execute(&mut unfunded, CLOSED_TIME);
    assert_eq!(r.err().unwrap(), ContractError::NotFullyFunded);
}

#[test]
fn trigger_runs_exactly_once() {
    let action = vec![1u8, 2, 3];
    let mut state =
        instantiate(50, "owner".to_string(), msg_with(1000, Some(action.clone()))).unwrap();
    contribute(&mut state, "alice", 1000);
    match cw_kickstarter::execute::execute(&mut state, CLOSED_TIME).unwrap() {
        Instruction::Action(p) => assert_eq!(p, action),
        _ => panic!("expected the deferred action"),
    }
    let r = cw_kickstarter::execute::execute(&mut state, CLOSED_TIME);
    assert_eq!(r.err().unwrap(), ContractError::ActionNotSet);
}

#[test]
fn trigger_without_configured_action_fails() {
    let mut state = new_state(1000);
    contribute(&mut state, "alice", 1000);
    let r = cw_kickstarter::execute::execute(&mut state, CLOSED_TIME);
    assert_eq!(r.err().unwrap(), ContractError::ActionNotSet);
}

#[test]
fn single_contributor_claims_full_balance() {
    let mut state = new_state(1000);
    contribute(&mut state, "owner", 1000);
    match claim(&mut state, CLOSED_TIME, "owner".to_string(), 1000).unwrap() {
        Instruction::Transfer { to_address, amount, denom } => {
            assert_eq!(to_address, "owner");
            assert_eq!(amount, 1000);
            assert_eq!(denom, "token");
        }
        _ => panic!("expected a transfer"),
    }
    // The entry is gone; a second claim fails. The aggregate fell below the
    // goal, so the funding gate rejects it before the ledger is consulted.
    let r = claim(&mut state, CLOSED_TIME, "owner".to_string(), 0);
    assert_eq!(r.err().unwrap(), ContractError::NotFullyFunded);
    assert_eq!(state.total_shares, 0);
}

#[test]
fn claim_by_non_contributor_fails() {
    let mut state = new_state(500);
    contribute(&mut state, "alice", 300);
    contribute(&mut state, "bob", 300);
    let r = claim(&mut state, CLOSED_TIME, "carol".to_string(), 600);
    assert_eq!(r.err().unwrap(), ContractError::NoShares);
    assert_eq!(state.total_shares, 600);
}

#[test]
fn claim_chain_pays_out_the_whole_balance() {
    let mut state = new_state(100);
    contribute(&mut state, "alice", 300);
    contribute(&mut state, "bob", 200);
    let mut balance: u128 = 500;
    let mut paid: u128 = 0;
    for who in ["alice", "bob"] {
        match claim(&mut state, CLOSED_TIME, who.to_string(), balance).unwrap() {
            Instruction::Transfer { amount, .. } => {
                paid += amount;
                balance -= amount;
            }
            _ => panic!("expected a transfer"),
        }
    }
    assert_eq!(paid, 500);
    assert_eq!(balance, 0);
    assert_eq!(state.total_shares, 0);
    assert!(state.shares.is_empty());
}

#[test]
fn refund_pays_both_contributors_and_zeroes_ledger() {
    let mut state = new_state(1000);
    contribute(&mut state, "alice", 300);
    contribute(&mut state, "bob", 200);
    let msgs = refund(&mut state, CLOSED_TIME, 500, REFUND_BATCH_LIMIT).unwrap();
    assert_eq!(msgs.len(), 2);
    match &msgs[0] {
        Instruction::Transfer { to_address, amount, denom } => {
            assert_eq!(to_address, "alice");
            assert_eq!(*amount, 300);
            assert_eq!(denom, "token");
        }
        _ => panic!("expected a transfer"),
    }
    match &msgs[1] {
        Instruction::Transfer { to_address, amount, .. } => {
            assert_eq!(to_address, "bob");
            assert_eq!(*amount, 200);
        }
        _ => panic!("expected a transfer"),
    }
    assert_eq!(state.total_shares, 0);
    assert!(state.shares.is_empty());
    let r = get_shares(&state, "alice".to_string());
    assert_eq!(r.err().unwrap(), ContractError::NoShares);
}

#[test]
fn refund_truncates_and_leaves_small_remainder() {
    let mut state = new_state(1000);
    contribute(&mut state, "a", 1);
    contribute(&mut state, "b", 1);
    contribute(&mut state, "c", 1);
    let msgs = refund(&mut state, CLOSED_TIME, 100, REFUND_BATCH_LIMIT).unwrap();
    let mut paid: u128 = 0;
    for m in &msgs {
        match m {
            Instruction::Transfer { amount, .. } => {
                assert_eq!(*amount, 33);
                paid += *amount;
            }
            _ => panic!("expected a transfer"),
        }
    }
    assert_eq!(paid, 99);
}

#[test]
fn refund_respects_batch_limit() {
    let mut state = new_state(1000);
    contribute(&mut state, "a", 10);
    contribute(&mut state, "b", 20);
    contribute(&mut state, "c", 30);
    let msgs = refund(&mut state, CLOSED_TIME, 60, 2).unwrap();
    assert_eq!(msgs.len(), 2);
    assert_eq!(state.shares.len(), 1);
    assert_eq!(state.total_shares, 30);
    let msgs = refund(&mut state, CLOSED_TIME, 30, 2).unwrap();
    assert_eq!(msgs.len(), 1);
    assert_eq!(state.total_shares, 0);
}

#[test]
fn funders_are_listed_in_identity_order() {
    let mut state = new_state(1000);
    contribute(&mut state, "bob", 200);
    contribute(&mut state, "alice", 300);
    contribute(&mut state, "al", 1);
    match get_funders(&state, 10, None) {
        QueryResponse::GetFundersResponse { funders } => {
            let names: Vec<&str> = funders.iter().map(|e| e.0.as_str()).collect();
            assert_eq!(names, vec!["al", "alice", "bob"]);
        }
        _ => panic!("wrong response"),
    }
}

#[test]
fn funders_pagination_resumes_strictly_after_cursor() {
    let mut state = new_state(1000);
    contribute(&mut state, "alice", 300);
    contribute(&mut state, "bob", 200);
    let first = match get_funders(&state, 1, None) {
        QueryResponse::GetFundersResponse { funders } => {
            assert_eq!(funders.len(), 1);
            assert_eq!(funders[0], ("alice".to_string(), 300));
            funders[0].0.clone()
        }
        _ => panic!("wrong response"),
    };
    match get_funders(&state, 10, Some(first)) {
        QueryResponse::GetFundersResponse { funders } => {
            assert_eq!(funders.len(), 1);
            assert_eq!(funders[0], ("bob".to_string(), 200));
        }
        _ => panic!("wrong response"),
    }
}

#[test]
fn dispatch_routes_transitions_and_queries() {
    let mut state = new_state(1000);
    let msgs = execute(
        &mut state,
        OPEN_TIME,
        "alice".to_string(),
        &coins(1000),
        0,
        ExecuteMsg::Fund {},
    )
    .unwrap();
    assert!(msgs.is_empty());
    let msgs = execute(
        &mut state,
        CLOSED_TIME,
        "alice".to_string(),
        &vec![],
        1000,
        ExecuteMsg::Claim {},
    )
    .unwrap();
    assert_eq!(msgs.len(), 1);
    match query(&state, QueryMsg::GetTotalFunds {}).unwrap() {
        QueryResponse::GetTotalFundsResponse { total_funds } => {
            assert_eq!(total_funds.amount, 0);
        }
        _ => panic!("wrong response"),
    }
    let r = query(&state, QueryMsg::GetShares { user: "alice".to_string() });
    assert_eq!(r.err().unwrap(), ContractError::NoShares);
}

#[test]
fn settlement_opens_exactly_at_deadline() {
    let mut state = new_state(1000);
    contribute(&mut state, "alice", 1000);
    let msg = claim(&mut state, DEADLINE, "alice".to_string(), 1000).unwrap();
    match msg {
        Instruction::Transfer { amount, .. } => assert_eq!(amount, 1000),
        _ => panic!("expected a transfer"),
    }
}

#[test]
fn funders_with_zero_limit_returns_nothing() {
    let mut state = new_state(1000);
    contribute(&mut state, "alice", 300);
    match get_funders(&state, 0, None) {
        QueryResponse::GetFundersResponse { funders } => assert!(funders.is_empty()),
        _ => panic!("wrong response"),
    }
}

#[test]
fn refund_on_empty_ledger_succeeds_with_no_transfers() {
    let mut state = new_state(1000);
    let msgs = refund(&mut state, CLOSED_TIME, 0, REFUND_BATCH_LIMIT).unwrap();
    assert!(msgs.is_empty());
    assert_eq!(state.total_shares, 0);
}
