//! The externally visible messages: initialization input, lifecycle
//! commands, queries, and the environment each call runs in.

use crate::state::Coin;
use crate::state::CoinV;
use crate::state::DealStatus;
use crate::state::Id;
use vstd::prelude::*;

verus! {

/// The block context a call runs in. The time is in seconds.
#[derive(Clone, Copy, Debug, PartialEq, Eq, Structural)]
pub struct BlockInfo {
    pub height: u64,
    pub time: u64,
}

/// The environment a call runs in.
#[derive(Clone, Copy, Debug, PartialEq, Eq, Structural)]
pub struct Env {
    pub block: BlockInfo,
}

/// The caller of a lifecycle command: its pre-verified principal
/// identity, and the funds attached to the message.
#[derive(Debug)]
pub struct MessageInfo {
    pub sender: String,
    pub funds: Vec<Coin>,
}

/// Mathematical value of a [`MessageInfo`].
pub struct MessageInfoV {
    pub sender: Seq<char>,
    pub funds: Seq<CoinV>,
}

impl View for MessageInfo {
    type V = MessageInfoV;

    open spec fn view(&self) -> MessageInfoV {
        MessageInfoV {
            sender: self.sender@,
            funds: crate::state::coins_view(self.funds@),
        }
    }
}

/// Initialization input: the configuration owner and the allowed range
/// of deal durations.
#[derive(Debug)]
pub struct InstantiateMsg {
    pub owner: String,
    pub duration_range: Vec<u64>,
}

/// Input of a migration; it carries nothing.
#[derive(Debug)]
pub struct MigrateMsg {}

/// The request to create a deal: the escrowed offer, the asked asset,
/// and how long (in seconds) the deal stays open.
#[derive(Debug)]
pub struct CreateDealMsg {
    pub offer: Coin,
    pub ask: Coin,
    pub duration: u64,
}

/// Mathematical value of a [`CreateDealMsg`].
pub struct CreateDealMsgV {
    pub offer: CoinV,
    pub ask: CoinV,
    pub duration: u64,
}

impl View for CreateDealMsg {
    type V = CreateDealMsgV;

    open spec fn view(&self) -> CreateDealMsgV {
        CreateDealMsgV { offer: self.offer@, ask: self.ask@, duration: self.duration }
    }
}

/// Every lifecycle command.
#[derive(Debug)]
pub enum ExecuteMsg {
    Claim(Id),
    Withdraw(Id),
    CreateDeal(CreateDealMsg),
    ExecuteDeal(Id),
    CancelDeal(Id),
    UpdateConfig { owner: Option<String>, duration_range: Option<Vec<u64>> },
}

/// Mathematical value of an [`ExecuteMsg`].
pub enum ExecuteMsgV {
    Claim(Id),
    Withdraw(Id),
    CreateDeal(CreateDealMsgV),
    ExecuteDeal(Id),
    CancelDeal(Id),
    UpdateConfig { owner: Option<Seq<char>>, duration_range: Option<Seq<u64>> },
}

impl View for ExecuteMsg {
    type V = ExecuteMsgV;

    open spec fn view(&self) -> ExecuteMsgV {
        match self {
            ExecuteMsg::Claim(id) => ExecuteMsgV::Claim(*id),
            ExecuteMsg::Withdraw(id) => ExecuteMsgV::Withdraw(*id),
            ExecuteMsg::CreateDeal(m) => ExecuteMsgV::CreateDeal(m@),
            ExecuteMsg::ExecuteDeal(id) => ExecuteMsgV::ExecuteDeal(*id),
            ExecuteMsg::CancelDeal(id) => ExecuteMsgV::CancelDeal(*id),
            ExecuteMsg::UpdateConfig { owner, duration_range } => ExecuteMsgV::UpdateConfig {
                owner: match owner {
                    Some(o) => Some(o@),
                    None => None,
                },
                duration_range: match duration_range {
                    Some(r) => Some(r@),
                    None => None,
                },
            },
        }
    }
}

/// Pagination and ordering of a query: descending order (ascending when
/// absent), an exclusive cursor, and the number of items to return.
#[derive(Clone, Copy, Debug, PartialEq, Eq, Structural)]
pub struct QueryOptions {
    /// Whether to sort items in ascending or descending order.
    pub descending: Option<bool>,
    /// The id to start the query after.
    pub start_after: Option<u64>,
    /// The number of items that will be returned.
    pub limit: Option<u32>,
}

impl Default for QueryOptions {
    fn default() -> (r: Self)
        ensures
            r.descending is None,
            r.start_after is None,
            r.limit is None,
    {
        QueryOptions { descending: None, start_after: None, limit: None }
    }
}

/// The optional seller and status filters of a deal query.
#[derive(Debug)]
pub struct QueryFilter {
    pub seller: Option<String>,
    pub status: Option<DealStatus>,
}

/// Mathematical value of a [`QueryFilter`].
pub struct QueryFilterV {
    pub seller: Option<Seq<char>>,
    pub status: Option<DealStatus>,
}

impl View for QueryFilter {
    type V = QueryFilterV;

    open spec fn view(&self) -> QueryFilterV {
        QueryFilterV {
            seller: match &self.seller {
                Some(s) => Some(s@),
                None => None,
            },
            status: self.status,
        }
    }
}

/// Every query.
#[derive(Debug)]
pub enum QueryMsg {
    DealById(u64),
    DealsByExpiration { options: Option<QueryOptions>, show_expired: bool },
    DealsByFilters { filters: QueryFilter, options: Option<QueryOptions> },
}

/// Mathematical value of a [`QueryMsg`].
pub enum QueryMsgV {
    DealById(u64),
    DealsByExpiration { options: Option<QueryOptions>, show_expired: bool },
    DealsByFilters { filters: QueryFilterV, options: Option<QueryOptions> },
}

impl View for QueryMsg {
    type V = QueryMsgV;

    open spec fn view(&self) -> QueryMsgV {
        match self {
            QueryMsg::DealById(id) => QueryMsgV::DealById(*id),
            QueryMsg::DealsByExpiration { options, show_expired } => {
                QueryMsgV::DealsByExpiration { options: *options, show_expired: *show_expired }
            },
            QueryMsg::DealsByFilters { filters, options } => {
                QueryMsgV::DealsByFilters { filters: filters@, options: *options }
            },
        }
    }
}

} // verus!
