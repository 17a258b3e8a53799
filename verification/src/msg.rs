use vstd::prelude::*;

verus! {

/// Mathematical image of an attached coin.
pub ghost struct CoinView {
    pub denom: Seq<char>,
    pub amount: u128,
}

/// An amount of one asset denomination, as attached to a call or carried by a
/// transfer instruction.
#[derive(Clone, Debug)]
pub struct Coin {
    pub denom: String,
    pub amount: u128,
}

impl View for Coin {
    type V = CoinView;

    open spec fn view(&self) -> CoinView {
        CoinView { denom: self.denom@, amount: self.amount }
    }
}

/// The views of a list of coins.
pub open spec fn coins_view(s: Seq<Coin>) -> Seq<CoinView> {
    s.map_values(|c: Coin| c@)
}

/// Creation parameters for a campaign.
pub struct InstantiateMsg {
    pub denom: String,
    pub goal: u128,
    /// Campaign start; defaults to the time of the creating call.
    pub start: Option<u64>,
    pub deadline: u64,
    pub name: String,
    pub description: String,
    /// Optional deferred action payload, run at most once on success.
    pub execute_msg: Option<Vec<u8>>,
}

/// The four state-changing calls.
pub enum ExecuteMsg {
    /// Contribute the attached funds of the designated denomination.
    Fund {},
    /// Run the deferred action once the campaign succeeded.
    Execute {},
    /// Return deposits, in batches, once the campaign failed.
    Refund {},
    /// Withdraw the caller's pro-rata part once the campaign succeeded.
    Claim {},
}

/// The read-only calls.
pub enum QueryMsg {
    GetConfig {},
    /// A contributor's current share.
    GetShares { user: String },
    /// Up to `limit` contributors in ascending identity order, resuming
    /// strictly after `start_after` when given.
    GetFunders { limit: u128, start_after: Option<String> },
    /// The aggregate of all recorded shares.
    GetTotalFunds {},
}

/// Answers to the read-only calls.
pub enum QueryResponse {
    GetConfigResponse { goal: Coin, deadline: u64, name: String, description: String },
    GetSharesResponse { address: String, shares: u128 },
    GetFundersResponse { funders: Vec<(String, u128)> },
    GetTotalFundsResponse { total_funds: Coin },
}

/// Mathematical image of an outgoing instruction.
pub ghost enum InstructionView {
    Transfer { to: Seq<char>, amount: u128, denom: Seq<char> },
    Action(Seq<u8>),
}

/// An outgoing instruction for the host to run atomically with the call that
/// produced it.
pub enum Instruction {
    /// Transfer `amount` of `denom` to `to_address`.
    Transfer { to_address: String, amount: u128, denom: String },
    /// Run the opaque deferred action payload.
    Action(Vec<u8>),
}

impl View for Instruction {
    type V = InstructionView;

    open spec fn view(&self) -> InstructionView {
        match self {
            Instruction::Transfer { to_address, amount, denom } => InstructionView::Transfer {
                to: to_address@,
                amount: *amount,
                denom: denom@,
            },
            Instruction::Action(p) => InstructionView::Action(p@),
        }
    }
}

/// The views of a list of instructions.
pub open spec fn msgs_view(s: Seq<Instruction>) -> Seq<InstructionView> {
    s.map_values(|m: Instruction| m@)
}

} // verus!
