use vstd::prelude::*;
use crate::error::ContractError;
use crate::msg::{Coin, QueryResponse};
use crate::order::lex_lt;
use crate::state::{State, StateView, entries_view, lookup, lemma_lookup_at, lemma_lookup_none};

verus! {

/// Number of leading entries whose key is not past `cursor`: the resume
/// point for pagination, counted from the front of the sorted ledger.
pub open spec fn count_through(l: Seq<(Seq<char>, u128)>, cursor: Seq<char>) -> int
    decreases l.len(),
{
    if l.len() == 0 {
        0
    } else if !lex_lt(cursor, l[0].0) {
        1 + count_through(l.drop_first(), cursor)
    } else {
        0
    }
}

proof fn lemma_count_through_at(l: Seq<(Seq<char>, u128)>, cursor: Seq<char>, i: int)
    requires
        0 <= i <= l.len(),
        forall|j: int| 0 <= j < i ==> !lex_lt(cursor, (#[trigger] l[j]).0),
        i < l.len() ==> lex_lt(cursor, l[i].0),
    ensures
        count_through(l, cursor) == i,
    decreases i,
{
    if i > 0 {
        assert(forall|j: int|
            0 <= j < i - 1 ==> !lex_lt(cursor, (#[trigger] l.drop_first()[j]).0));
        lemma_count_through_at(l.drop_first(), cursor, i - 1);
    }
}

/// The page of funders that a listing call returns: entries strictly after
/// the cursor, in ascending identity order, at most `limit` of them.
pub open spec fn funders_model(
    l: Seq<(Seq<char>, u128)>,
    limit: u128,
    start_after: Option<Seq<char>>,
) -> Seq<(Seq<char>, u128)> {
    let start = match start_after {
        Some(c) => count_through(l, c),
        None => 0,
    };
    let rest = l.skip(start);
    rest.take(
        if (limit as int) < rest.len() {
            limit as int
        } else {
            rest.len() as int
        },
    )
}

/// The answer a configuration query owes: the goal as an asset amount of the
/// designated denomination, the deadline and the descriptive fields.
pub open spec fn config_answer(s: StateView, q: QueryResponse) -> bool {
    q matches QueryResponse::GetConfigResponse { goal, deadline, name, description }
        && goal@.denom == s.config.denom && goal@.amount == s.config.goal && deadline
        == s.config.deadline && name@ == s.config.name && description@ == s.config.description
}

/// The answer a shares query owes: the recorded share when one exists, and
/// the missing-share error otherwise — a settled entry answers like one that
/// never contributed.
pub open spec fn shares_answer(
    s: StateView,
    user: Seq<char>,
    r: Result<QueryResponse, ContractError>,
) -> bool {
    match lookup(s.ledger, user) {
        Some(v) => r matches Ok(q) && (q matches QueryResponse::GetSharesResponse {
            address,
            shares,
        } && address@ == user && shares == v),
        None => r == Err::<QueryResponse, ContractError>(ContractError::NoShares),
    }
}

/// The answer a funders listing owes.
pub open spec fn funders_answer(
    s: StateView,
    limit: u128,
    start_after: Option<Seq<char>>,
    q: QueryResponse,
) -> bool {
    q matches QueryResponse::GetFundersResponse { funders } && entries_view(funders@)
        == funders_model(s.ledger, limit, start_after)
}

/// The answer a total-funds query owes: the maintained aggregate as an asset
/// amount, read from the running total rather than recomputed.
pub open spec fn total_funds_answer(s: StateView, q: QueryResponse) -> bool {
    q matches QueryResponse::GetTotalFundsResponse { total_funds } && total_funds@.denom
        == s.config.denom && total_funds@.amount == s.total_shares
}

/// The view of an optional pagination cursor.
pub open spec fn cursor_view(c: Option<String>) -> Option<Seq<char>> {
    match c {
        Some(s) => Some(s@),
        None => None,
    }
}

/// Reports the campaign's goal, deadline, name and description.
pub fn get_config(state: &State) -> (r: QueryResponse)
    ensures
        config_answer(state@, r),
{
    QueryResponse::GetConfigResponse {
        goal: Coin { denom: state.config.denom.clone(), amount: state.config.goal },
        deadline: state.config.deadline,
        name: state.config.name.clone(),
        description: state.config.description.clone(),
    }
}

/// Reports the share recorded for `address`, failing when none is recorded.
pub fn get_shares(state: &State, address: String) -> (r: Result<QueryResponse, ContractError>)
    ensures
        shares_answer(state@, address@, r),
{
    let ghost s0 = state.shares@;
    let ghost l0 = state@.ledger;
    proof {
        assert(forall|j: int| 0 <= j < s0.len() ==> l0[j] == ((#[trigger] s0[j]).0@, s0[j].1));
    }
    match crate::execute::find_key(&state.shares, &address) {
        Some(i) => {
            proof {
                assert(forall|j: int| 0 <= j < i ==> (#[trigger] l0[j]).0 != address@);
                lemma_lookup_at(l0, address@, i as int);
            }
            let shares = state.shares[i].1;
            Ok(QueryResponse::GetSharesResponse { address, shares })
        },
        None => {
            proof {
                assert(forall|j: int| 0 <= j < l0.len() ==> (#[trigger] l0[j]).0 != address@);
                lemma_lookup_none(l0, address@);
            }
            Err(ContractError::NoShares)
        },
    }
}

/// Lists up to `limit` funders in ascending identity order, resuming
/// strictly after `start_after` when given.
pub fn get_funders(state: &State, limit: u128, start_after: Option<String>) -> (r: QueryResponse)
    ensures
        funders_answer(state@, limit, cursor_view(start_after), r),
{
    let ghost s0 = state.shares@;
    let ghost l0 = state@.ledger;
    proof {
        assert(forall|j: int| 0 <= j < s0.len() ==> l0[j] == ((#[trigger] s0[j]).0@, s0[j].1));
    }
    let n = state.shares.len();
    let mut i: usize = 0;
    if let Some(cursor) = &start_after {
        loop
            invariant
                n == state.shares@.len(),
                s0 == state.shares@,
                l0 == entries_view(s0),
                forall|j: int| 0 <= j < s0.len() ==> l0[j] == ((#[trigger] s0[j]).0@, s0[j].1),
                0 <= i <= n,
                forall|j: int| 0 <= j < i ==> !lex_lt(cursor@, (#[trigger] l0[j]).0),
            ensures
                0 <= i <= n,
                forall|j: int| 0 <= j < i ==> !lex_lt(cursor@, (#[trigger] l0[j]).0),
                i < n ==> lex_lt(cursor@, l0[i as int].0),
            decreases n - i,
        {
            if i >= n {
                break;
            }
            if crate::order::str_lt(cursor.as_str(), state.shares[i].0.as_str()) {
                break;
            }
            i += 1;
        }
        proof {
            lemma_count_through_at(l0, cursor@, i as int);
        }
    }
    let ghost start = i as int;
    let mut funders: Vec<(String, u128)> = Vec::new();
    loop
        invariant
            n == state.shares@.len(),
            s0 == state.shares@,
            l0 == entries_view(s0),
            forall|j: int| 0 <= j < s0.len() ==> l0[j] == ((#[trigger] s0[j]).0@, s0[j].1),
            start <= i as int <= n,
            funders@.len() == i as int - start,
            funders@.len() <= limit,
            forall|p: int| 0 <= p < funders@.len() ==> (#[trigger] funders@[p]).0@ == l0[
                start + p].0 && funders@[p].1 == l0[start + p].1,
        ensures
            start <= i as int <= n,
            funders@.len() == i as int - start,
            funders@.len() <= limit,
            i as int == n || funders@.len() == limit,
            forall|p: int| 0 <= p < funders@.len() ==> (#[trigger] funders@[p]).0@ == l0[
                start + p].0 && funders@[p].1 == l0[start + p].1,
        decreases n - i,
    {
        if i >= n {
            break;
        }
        if funders.len() as u128 >= limit {
            break;
        }
        let entry = (state.shares[i].0.clone(), state.shares[i].1);
        funders.push(entry);
        i += 1;
    }
    proof {
        assert(entries_view(funders@) =~= funders_model(l0, limit, cursor_view(start_after)));
    }
    QueryResponse::GetFundersResponse { funders }
}

/// Reports the aggregate of all recorded shares as an asset amount, read
/// from the maintained running total.
pub fn get_funds(state: &State) -> (r: QueryResponse)
    ensures
        total_funds_answer(state@, r),
{
    QueryResponse::GetTotalFundsResponse {
        total_funds: Coin { denom: state.config.denom.clone(), amount: state.total_shares },
    }
}

} // verus!
