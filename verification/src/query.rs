//! The query engine: point lookup by identifier, filtered scans over the
//! seller, status and composite indexes, and range scans over the
//! expiration index, all paginated and orderable.

use crate::error::StdError;
use crate::error::StdErrorV;
use crate::msg::Env;
use crate::msg::QueryFilter;
use crate::msg::QueryMsg;
use crate::msg::QueryMsgV;
use crate::msg::QueryOptions;
use crate::state::Config;
use crate::state::Deal;
use crate::state::DealV;
use crate::state::State;
use crate::state::deals_view;
use crate::state::end_page;
use crate::state::filter_page;
use crate::state::get_deal;
use crate::state::has_id;
use vstd::prelude::*;

verus! {

/// How many deals a query returns when no limit is given.
pub const DEFAULT_QUERY_LIMIT: u32 = 10;

/// The hard ceiling on how many deals one query may return.
pub const MAX_QUERY_LIMIT: u32 = 100;

/// The scan direction the options ask for; ascending when unspecified.
pub open spec fn opt_descending(o: Option<QueryOptions>) -> bool {
    match o {
        Some(q) => match q.descending {
            Some(d) => d,
            None => false,
        },
        None => false,
    }
}

/// The exclusive cursor the options ask for, if any.
pub open spec fn opt_start_after(o: Option<QueryOptions>) -> Option<u64> {
    match o {
        Some(q) => q.start_after,
        None => None,
    }
}

/// The page size the options ask for: the given limit capped at the
/// ceiling, or the default.
pub open spec fn opt_limit(o: Option<QueryOptions>) -> int {
    let l = match o {
        Some(q) => match q.limit {
            Some(l) => l,
            None => DEFAULT_QUERY_LIMIT,
        },
        None => DEFAULT_QUERY_LIMIT,
    };
    if l <= MAX_QUERY_LIMIT {
        l as int
    } else {
        MAX_QUERY_LIMIT as int
    }
}

/// Resolves the pagination options to direction, cursor and page size.
fn resolve_options(options: &Option<QueryOptions>) -> (r: (bool, Option<u64>, usize))
    ensures
        r.0 == opt_descending(*options),
        r.1 == opt_start_after(*options),
        r.2 == opt_limit(*options),
{
    let descending: bool = match options {
        Some(q) => match q.descending {
            Some(d) => d,
            None => false,
        },
        None => false,
    };
    let start_after: Option<u64> = match options {
        Some(q) => q.start_after,
        None => None,
    };
    let given: u32 = match options {
        Some(q) => match q.limit {
            Some(l) => l,
            None => DEFAULT_QUERY_LIMIT,
        },
        None => DEFAULT_QUERY_LIMIT,
    };
    let limit: u32 = if given <= MAX_QUERY_LIMIT {
        given
    } else {
        MAX_QUERY_LIMIT
    };
    (descending, start_after, limit as usize)
}

/// Point lookup: the deal stored under `id`; absence is an error.
pub fn query_deal_by_id(state: &State, id: u64) -> (r: Result<Deal, StdError>)
    requires
        state.wf(),
    ensures
        match r {
            Ok(d) => has_id(state@.deals, id) && d@ == get_deal(state@.deals, id),
            Err(e) => !has_id(state@.deals, id) && e@ == (StdErrorV::NotFound {}),
        },
{
    state.store.load(id)
}

/// The current configuration; absence is an error.
pub fn query_config(state: &State) -> (r: Result<Config, StdError>)
    ensures
        match state@.config {
            Some(c) => r matches Ok(cfg) && cfg@ == c,
            None => r matches Err(e) && e@ == (StdErrorV::NotFound {}),
        },
{
    match &state.config {
        Some(c) => Ok(c.clone()),
        None => Err(StdError::not_found()),
    }
}

/// Deals matching the optional seller and status filters, in identifier
/// order (the index order of each of those scans), paginated. With no
/// filter at all the query is rejected rather than scanning the whole
/// store.
pub fn query_deals_by_filters(
    state: &State,
    filter: QueryFilter,
    query_options: Option<QueryOptions>,
) -> (r: Result<Vec<Deal>, StdError>)
    requires
        state.wf(),
    ensures
        match (filter@.seller, filter@.status) {
            (None, None) => r matches Err(e) && e@ == (StdErrorV::GenericErr {
                msg: "No filters provided"@,
            }),
            _ => r matches Ok(v) && deals_view(v@) == filter_page(
                state@.deals,
                filter@.seller,
                filter@.status,
                opt_descending(query_options),
                opt_start_after(query_options),
                opt_limit(query_options),
            ),
        },
{
    let (descending, start_after, limit) = resolve_options(&query_options);
    match (&filter.seller, filter.status) {
        (Some(seller), None) => Ok(
            state.store.deals_by_seller(seller, descending, start_after, limit),
        ),
        (None, Some(status)) => Ok(
            state.store.deals_by_status(status, descending, start_after, limit),
        ),
        (Some(seller), Some(status)) => Ok(
            state.store.deals_by_seller_status(seller, status, descending, start_after, limit),
        ),
        (None, None) => Err(StdError::generic_err("No filters provided")),
    }
}

/// Deals selected by expiration: all of them when expired deals are
/// shown, else only those expiring strictly after the current block
/// time; in (expiration time, identifier) order, scanned in the given
/// direction and truncated to the limit. The cursor option does not
/// apply to this index.
pub fn query_deals_by_expiration(
    state: &State,
    env: Env,
    show_expired: bool,
    options: Option<QueryOptions>,
) -> (r: Result<Vec<Deal>, StdError>)
    requires
        state.wf(),
    ensures
        r matches Ok(v) && deals_view(v@) == end_page(
            state.store.end_ordered(),
            if show_expired {
                None
            } else {
                Some(env.block.time)
            },
            opt_descending(options),
            opt_limit(options),
        ),
{
    let (descending, _, limit) = resolve_options(&options);
    let after_time: Option<u64> = if show_expired {
        None
    } else {
        Some(env.block.time)
    };
    Ok(state.store.deals_by_end(after_time, descending, limit))
}

/// What a query returns: one deal or a page of deals.
#[derive(Debug)]
pub enum QueryAnswer {
    Deal(Deal),
    Deals(Vec<Deal>),
}

/// Mathematical value of a [`QueryAnswer`].
pub enum QueryAnswerV {
    Deal(DealV),
    Deals(Seq<DealV>),
}

impl View for QueryAnswer {
    type V = QueryAnswerV;

    open spec fn view(&self) -> QueryAnswerV {
        match self {
            QueryAnswer::Deal(d) => QueryAnswerV::Deal(d@),
            QueryAnswer::Deals(v) => QueryAnswerV::Deals(deals_view(v@)),
        }
    }
}

/// Runs one query against the state.
pub fn query(state: &State, env: Env, msg: QueryMsg) -> (r: Result<QueryAnswer, StdError>)
    requires
        state.wf(),
    ensures
        match msg@ {
            QueryMsgV::DealById(id) => match r {
                Ok(a) => has_id(state@.deals, id) && a@ == QueryAnswerV::Deal(
                    get_deal(state@.deals, id),
                ),
                Err(e) => !has_id(state@.deals, id) && e@ == (StdErrorV::NotFound {}),
            },
            QueryMsgV::DealsByExpiration { options, show_expired } => r matches Ok(a)
                && a@ == QueryAnswerV::Deals(
                end_page(
                    state.store.end_ordered(),
                    if show_expired {
                        None
                    } else {
                        Some(env.block.time)
                    },
                    opt_descending(options),
                    opt_limit(options),
                ),
            ),
            QueryMsgV::DealsByFilters { filters, options } => match (
                filters.seller,
                filters.status,
            ) {
                (None, None) => r matches Err(e) && e@ == (StdErrorV::GenericErr {
                    msg: "No filters provided"@,
                }),
                _ => r matches Ok(a) && a@ == QueryAnswerV::Deals(
                    filter_page(
                        state@.deals,
                        filters.seller,
                        filters.status,
                        opt_descending(options),
                        opt_start_after(options),
                        opt_limit(options),
                    ),
                ),
            },
        },
{
    match msg {
        QueryMsg::DealById(id) => match query_deal_by_id(state, id) {
            Ok(d) => Ok(QueryAnswer::Deal(d)),
            Err(e) => Err(e),
        },
        QueryMsg::DealsByExpiration { options, show_expired } => match query_deals_by_expiration(
            state,
            env,
            show_expired,
            options,
        ) {
            Ok(v) => Ok(QueryAnswer::Deals(v)),
            Err(e) => Err(e),
        },
        QueryMsg::DealsByFilters { filters, options } => match query_deals_by_filters(
            state,
            filters,
            options,
        ) {
            Ok(v) => Ok(QueryAnswer::Deals(v)),
            Err(e) => Err(e),
        },
    }
}

} // verus!
