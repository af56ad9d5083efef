use otc_wasm::error::StdError;
use otc_wasm::execute::create_deal;
use otc_wasm::instantiate::instantiate;
use otc_wasm::msg::BlockInfo;
use otc_wasm::msg::CreateDealMsg;
use otc_wasm::msg::Env;
use otc_wasm::msg::InstantiateMsg;
use otc_wasm::msg::MessageInfo;
use otc_wasm::msg::QueryFilter;
use otc_wasm::msg::QueryOptions;
use otc_wasm::query::query_deal_by_id;
use otc_wasm::query::query_deals_by_expiration;
use otc_wasm::query::query_deals_by_filters;
use otc_wasm::state::coin;
use otc_wasm::state::Coin;
use otc_wasm::state::Deal;
use otc_wasm::state::DealStatus;
use otc_wasm::state::State;

const SELLER: &str = "seller";
const BUYER: &str = "buyer";
const DENOM_1: &str = "ucosm";
const DENOM_2: &str = "ustake";

fn mock_env() -> Env {
    Env { block: BlockInfo { height: 12345, time: 1571797419 } }
}

fn mock_info(sender: &str, funds: &[Coin]) -> MessageInfo {
    MessageInfo { sender: sender.to_string(), funds: funds.to_vec() }
}

fn mock_data(env: &Env, state: &mut State) {
    let seller = SELLER.to_string();
    let buyer = BUYER.to_string();

    state.store.save(
        1,
        Deal {
            id: 1,
            seller: seller.clone(),
            creation_time: env.block.time,
            end_time: env.block.time + 3600,
            buyer: Some(buyer.clone()),
            ask: coin(12, "ucosm"),
            offer: coin(100, "ustake"),
            status: DealStatus::Closed,
        },
    );

    state.store.save(
        2,
        Deal {
            id: 2,
            seller: seller.clone(),
            creation_time: env.block.time,
            end_time: env.block.time + 3600,
            buyer: Some("another_buyer".to_string()),
            ask: coin(12, "ucosm"),
            offer: coin(100, "ustake"),
            status: DealStatus::Open,
        },
    );

    state.store.save(
        3,
        Deal {
            id: 3,
            seller: "another_seller".to_string(),
            creation_time: env.block.time,
            end_time: env.block.time - 86400,
            buyer: Some("another_buyer".to_string()),
            ask: coin(12, "ucosm"),
            offer: coin(100, "ustake"),
            status: DealStatus::Open,
        },
    );

    state.store.save(
        4,
        Deal {
            id: 4,
            seller: seller.clone(),
            creation_time: env.block.time,
            end_time: env.block.time - 86400,
            buyer: Some("another_buyer".to_string()),
            ask: coin(12, "ucosm"),
            offer: coin(100, "ustake"),
            status: DealStatus::Open,
        },
    );
}

#[test]
fn test_query_deal_by_id() {
    let mut state = State::new();
    let env = mock_env();
    mock_data(&env, &mut state);

    let res = query_deal_by_id(&state, 1);
    assert_eq!(res.unwrap().id, 1);
}

#[test]
fn test_query_deals_by_filters() {
    let mut state = State::new();
    let env = mock_env();
    mock_data(&env, &mut state);

    // If not filter is provided should throw an error.
    let filters = QueryFilter { seller: None, status: None };
    let res = query_deals_by_filters(&state, filters, None);
    assert_eq!(res.unwrap_err(), StdError::generic_err("No filters provided"));

    // filter by seller should return 3 deals
    let filters = QueryFilter { seller: Some(SELLER.to_string()), status: None };
    let res = query_deals_by_filters(&state, filters, None);
    assert_eq!(res.unwrap().len(), 3);

    // filter by seller and status open should return 2 deals
    let filters = QueryFilter { seller: Some(SELLER.to_string()), status: Some(DealStatus::Open) };
    let res = query_deals_by_filters(&state, filters, None);
    assert_eq!(res.unwrap().len(), 2);

    // filter by seller and status closed should return 1 deal
    let filters = QueryFilter {
        seller: Some(SELLER.to_string()),
        status: Some(DealStatus::Closed),
    };
    let res = query_deals_by_filters(&state, filters, None);
    assert_eq!(res.unwrap().len(), 1);

    // filter by seller and status open but providing query option with limit 1 should return 1
    let filters = QueryFilter { seller: Some(SELLER.to_string()), status: Some(DealStatus::Open) };
    let query_options = QueryOptions { start_after: None, limit: Some(1), descending: None };

    let res = query_deals_by_filters(&state, filters, Some(query_options));
    assert_eq!(res.unwrap().len(), 1);

    // providing order descending should return a different order than no providing anyhting
    let filters = QueryFilter { seller: Some(SELLER.to_string()), status: None };

    let query_options = QueryOptions { start_after: None, limit: None, descending: Some(true) };

    let res = query_deals_by_filters(&state, filters, Some(query_options));
    assert_eq!(res.unwrap()[0].id, 4);

    let filters = QueryFilter { seller: Some(SELLER.to_string()), status: None };
    let res_two = query_deals_by_filters(&state, filters, None);
    assert_eq!(res_two.unwrap()[0].id, 1);
}

#[test]
pub fn test_query_deals_by_expiration() {
    let mut state = State::new();
    let env = mock_env();
    mock_data(&env, &mut state);

    // It should only show 2 since the other 2 are expired
    let res = query_deals_by_expiration(&state, env, false, None);
    assert_eq!(res.unwrap().len(), 2);

    // It should show 4 since we are showing expired
    let res = query_deals_by_expiration(&state, env, true, None);
    assert_eq!(res.unwrap().len(), 4);

    // It should show 2 since we are showing expired and providing a limit of 2
    let query_options = QueryOptions { start_after: None, limit: Some(2), descending: None };

    let res = query_deals_by_expiration(&state, env, true, Some(query_options));
    assert_eq!(res.unwrap().len(), 2);
}

#[test]
fn should_create_a_deal() {
    let mut state = State::new();
    let env = mock_env();
    let res = instantiate(
        &mut state,
        env,
        mock_info("executor", &[]),
        InstantiateMsg {
            owner: "executor".to_string(),
            duration_range: [20000, 40000, 60000].to_vec(),
        },
    );
    assert!(res.is_ok());

    let msg = CreateDealMsg {
        ask: coin(100, DENOM_1),
        offer: coin(1000, DENOM_2),
        duration: 20000,
    };
    let offer = coin(1000, DENOM_2);
    create_deal(&mut state, env, mock_info(SELLER, &[offer]), msg).unwrap();

    let deal = query_deal_by_id(&state, 1).unwrap();
    assert_eq!(deal.ask, coin(100, DENOM_1));
    assert_eq!(deal.offer, coin(1000, DENOM_2));
    assert_eq!(deal.seller, SELLER.to_string());
}

#[test]
fn query_expiration_orders_by_end_time_then_id() {
    let mut state = State::new();
    let env = mock_env();
    mock_data(&env, &mut state);

    // Ascending over all four deals: the two expired ones (same end time,
    // tie-broken by identifier) come before the two unexpired ones.
    let res = query_deals_by_expiration(&state, env, true, None).unwrap();
    let ids: Vec<u64> = res.iter().map(|d| d.id).collect();
    assert_eq!(ids, vec![3, 4, 1, 2]);

    // Descending reverses that order.
    let query_options = QueryOptions { start_after: None, limit: None, descending: Some(true) };
    let res = query_deals_by_expiration(&state, env, true, Some(query_options)).unwrap();
    let ids: Vec<u64> = res.iter().map(|d| d.id).collect();
    assert_eq!(ids, vec![2, 1, 4, 3]);
}

#[test]
fn query_filters_cursor_is_exclusive() {
    let mut state = State::new();
    let env = mock_env();
    mock_data(&env, &mut state);

    // Ascending after id 1: ids 2 and 4 of this seller remain.
    let filters = QueryFilter { seller: Some(SELLER.to_string()), status: None };
    let query_options = QueryOptions { start_after: Some(1), limit: None, descending: None };
    let res = query_deals_by_filters(&state, filters, Some(query_options)).unwrap();
    let ids: Vec<u64> = res.iter().map(|d| d.id).collect();
    assert_eq!(ids, vec![2, 4]);

    // Descending before id 4: ids 2 and 1 of this seller remain, largest
    // first.
    let filters = QueryFilter { seller: Some(SELLER.to_string()), status: None };
    let query_options = QueryOptions { start_after: Some(4), limit: None, descending: Some(true) };
    let res = query_deals_by_filters(&state, filters, Some(query_options)).unwrap();
    let ids: Vec<u64> = res.iter().map(|d| d.id).collect();
    assert_eq!(ids, vec![2, 1]);
}

#[test]
fn query_by_status_only_scans_the_status_index() {
    let mut state = State::new();
    let env = mock_env();
    mock_data(&env, &mut state);

    let filters = QueryFilter { seller: None, status: Some(DealStatus::Open) };
    let res = query_deals_by_filters(&state, filters, None).unwrap();
    let ids: Vec<u64> = res.iter().map(|d| d.id).collect();
    assert_eq!(ids, vec![2, 3, 4]);

    let filters = QueryFilter { seller: None, status: Some(DealStatus::Cancelled) };
    let res = query_deals_by_filters(&state, filters, None).unwrap();
    assert_eq!(res.len(), 0);
}

#[test]
fn query_missing_deal_is_not_found() {
    let state = State::new();
    let res = query_deal_by_id(&state, 7);
    assert_eq!(res.unwrap_err(), StdError::not_found());
}

#[test]
fn query_limit_defaults_to_ten() {
    let mut state = State::new();
    let env = mock_env();
    let mut i: u64 = 1;
    while i <= 12 {
        let deal = Deal {
            id: i,
            seller: SELLER.to_string(),
            buyer: None,
            offer: coin(100, "ustake"),
            ask: coin(12, "ucosm"),
            status: DealStatus::Open,
            creation_time: env.block.time,
            end_time: env.block.time + i,
        };
        state.store.save(i, deal);
        i += 1;
    }

    let filters = QueryFilter { seller: Some(SELLER.to_string()), status: None };
    let res = query_deals_by_filters(&state, filters, None).unwrap();
    assert_eq!(res.len(), 10);

    let res = query_deals_by_expiration(&state, env, true, None).unwrap();
    assert_eq!(res.len(), 10);
}

#[test]
fn status_tokens_are_fixed() {
    assert_eq!(DealStatus::Open.as_string(), "open".to_string());
    assert_eq!(DealStatus::Claimable.as_string(), "claimable".to_string());
    assert_eq!(DealStatus::Cancelled.as_string(), "cancelled".to_string());
    assert_eq!(DealStatus::Closed.as_string(), "closed".to_string());
    assert_eq!(DealStatus::Expired.as_string(), "expired".to_string());
}
