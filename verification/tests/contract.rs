use otc_wasm::error::ContractError;
use otc_wasm::error::DenomError;
use otc_wasm::error::PaymentError;
use otc_wasm::execute::cancel_deal;
use otc_wasm::execute::claim;
use otc_wasm::execute::create_deal;
use otc_wasm::execute::execute_deal;
use otc_wasm::execute::update_config;
use otc_wasm::execute::withdraw;
use otc_wasm::instantiate::instantiate;
use otc_wasm::msg::BlockInfo;
use otc_wasm::msg::CreateDealMsg;
use otc_wasm::msg::Env;
use otc_wasm::msg::InstantiateMsg;
use otc_wasm::msg::MessageInfo;
use otc_wasm::query::query_config;
use otc_wasm::state::coin;
use otc_wasm::state::Coin;
use otc_wasm::state::Config;
use otc_wasm::state::Deal;
use otc_wasm::state::DealStatus;
use otc_wasm::state::State;

const SELLER: &str = "seller";
const BUYER: &str = "buyer";

fn mock_env() -> Env {
    Env { block: BlockInfo { height: 12345, time: 1571797419 } }
}

fn mock_info(sender: &str, funds: &[Coin]) -> MessageInfo {
    MessageInfo { sender: sender.to_string(), funds: funds.to_vec() }
}

fn do_instantiate() -> (State, Env, MessageInfo) {
    let mut state = State::new();
    let env = mock_env();
    let info = mock_info("owner", &[]);

    let msg = InstantiateMsg { owner: "owner".to_string(), duration_range: vec![500, 300] };

    let res = instantiate(&mut state, env, mock_info("owner", &[]), msg);
    assert!(res.is_ok());

    let cfg = query_config(&state).unwrap();

    // Verify config is right
    assert_eq!(cfg.owner, "owner".to_string());
    assert_eq!(cfg.duration_range, vec![500, 300]);

    (state, env, info)
}

#[test]
pub fn test_query_config() {
    let (state, _, _) = do_instantiate();

    let res = query_config(&state);
    assert!(res.is_ok());

    let cfg = res.unwrap();
    assert_eq!(cfg.owner, "owner".to_string());
    assert_eq!(cfg.duration_range, vec![500, 300]);
}

#[test]
pub fn test_update_config() {
    let (mut state, _env, info) = do_instantiate();

    let res = update_config(&mut state, mock_info("owner", &[]), None, Some(vec![100, 200]));
    assert!(res.is_ok());

    // Config should have changed
    let cfg = query_config(&state).unwrap();
    assert_eq!(cfg.duration_range, vec![100, 200]);
    assert_eq!(cfg.owner, "owner".to_string());

    let res = update_config(&mut state, mock_info("owner", &[]), Some("new_owner".to_string()), None);
    assert!(res.is_ok());

    // owner should have changed
    let cfg = query_config(&state).unwrap();
    assert_eq!(cfg.owner, "new_owner".to_string());

    // should fail since the sender is not the owner
    let res = update_config(&mut state, info, Some("test_new_owner".to_string()), None);
    assert!(res.is_err())
}

#[test]
pub fn test_create_deal() {
    let mut state = State::new();
    let env = mock_env();
    let offer = coin(100, "ustake");
    let info = mock_info(SELLER, &[offer.clone()]);

    state.config = Some(Config { owner: "owner".to_string(), duration_range: vec![500, 300] });

    let msg = CreateDealMsg { offer: offer.clone(), ask: coin(12, "ucosm"), duration: 500 };

    let res = create_deal(&mut state, env, mock_info(SELLER, &[offer.clone()]), msg);
    assert!(res.is_ok());

    let deal = state.store.load(1).unwrap();

    // Verify deal is right
    assert_eq!(deal.creation_time, env.block.time);
    assert_eq!(deal.end_time, env.block.time + 500);
    assert_eq!(deal.status, DealStatus::Open);
    assert_eq!(deal.buyer, None);
    assert_eq!(deal.seller, info.sender);
    assert_eq!(deal.ask, coin(12, "ucosm"));
    assert_eq!(deal.offer, offer);

    // Should fail if the denom is invalid or not native
    let msg = CreateDealMsg { offer: offer.clone(), ask: coin(12, "ba"), duration: 500 };

    let res = create_deal(&mut state, env, mock_info(SELLER, &[offer.clone()]), msg);
    assert!(res.is_err());
    assert_eq!(
        res.unwrap_err(),
        ContractError::Denom(DenomError::NativeDenomLength { len: 2 })
    );

    // Should fail if the duration is not in the range
    let msg = CreateDealMsg { offer: offer.clone(), ask: coin(12, "ucosm"), duration: 100 };

    let res = create_deal(&mut state, env, mock_info(SELLER, &[offer.clone()]), msg);
    assert!(res.is_err());
    assert_eq!(res.unwrap_err(), ContractError::InvalidDuration(500, 300));
}

#[test]
pub fn test_cancel_deal() {
    let mut state = State::new();
    let env = mock_env();
    let offer = coin(100, "ustake");
    let info = mock_info(SELLER, &[offer.clone()]);

    state.store.save(
        1,
        Deal {
            id: 1,
            seller: info.sender.clone(),
            creation_time: env.block.time,
            end_time: env.block.time + 3600,
            buyer: None,
            ask: coin(12, "ucosm"),
            offer: offer.clone(),
            status: DealStatus::Open,
        },
    );

    let deal = state.store.load(1).unwrap();
    assert_eq!(deal.id, 1);
    assert_eq!(deal.status, DealStatus::Open);

    let res = cancel_deal(&mut state, env, mock_info(SELLER, &[offer.clone()]), 1);
    assert!(res.is_ok());
    assert_eq!(res.unwrap().messages.len(), 1);

    let deal = state.store.load(1).unwrap();
    assert_eq!(deal.status, DealStatus::Cancelled);

    state.store.save(
        2,
        Deal {
            id: 2,
            seller: info.sender.clone(),
            creation_time: env.block.time,
            end_time: env.block.time - 3600,
            buyer: None,
            ask: coin(12, "ucosm"),
            offer,
            status: DealStatus::Open,
        },
    );

    // It shouldn't be possible to cancel a deal that has expired
    let deal = state.store.load(2).unwrap();
    assert_eq!(deal.id, 2);
    assert_eq!(deal.status, DealStatus::Open);

    let res = cancel_deal(&mut state, env, mock_info(SELLER, &[]), 2);
    assert!(res.is_err());
    assert_eq!(res.unwrap_err(), ContractError::DealExpired);
}

#[test]
pub fn test_execute_deal() {
    let mut state = State::new();
    let env = mock_env();
    let offer = coin(100, "ustake");
    let ask = coin(12, "ucosm");
    let seller_info = mock_info(SELLER, &[offer.clone()]);
    let buyer_info = mock_info(BUYER, &[ask.clone()]);

    state.store.save(
        1,
        Deal {
            id: 1,
            seller: seller_info.sender.clone(),
            creation_time: env.block.time,
            end_time: env.block.time + 3600,
            buyer: None,
            ask: ask.clone(),
            offer: offer.clone(),
            status: DealStatus::Open,
        },
    );

    let deal = state.store.load(1).unwrap();
    assert_eq!(deal.id, 1);
    assert_eq!(deal.status, DealStatus::Open);

    // it shouldn't be possible to execute a deal without sending the right ask
    let res = execute_deal(&mut state, env, mock_info(BUYER, &[]), 1);
    assert!(res.is_err());
    assert_eq!(res.unwrap_err(), ContractError::Payment(PaymentError::NoFunds {}));

    // paying less than the ask reports the amount actually paid
    let res = execute_deal(&mut state, env, mock_info(BUYER, &[coin(1, "ucosm")]), 1);
    assert!(res.is_err());
    assert_eq!(res.unwrap_err(), ContractError::InsufficientAmount(1));

    // It should be possible to execute the deal
    let res = execute_deal(&mut state, env, mock_info(BUYER, &[ask.clone()]), 1);
    assert!(res.is_ok());
    assert_eq!(res.unwrap().messages.len(), 1);

    let deal = state.store.load(1).unwrap();
    assert_eq!(deal.status, DealStatus::Claimable);
    assert_eq!(deal.buyer, Some(buyer_info.sender.clone()));

    state.store.save(
        2,
        Deal {
            id: 2,
            seller: seller_info.sender.clone(),
            creation_time: env.block.time,
            end_time: env.block.time + 3600,
            buyer: None,
            ask: ask.clone(),
            offer: offer.clone(),
            status: DealStatus::Expired,
        },
    );

    let deal = state.store.load(2).unwrap();
    assert_eq!(deal.id, 2);
    assert_eq!(deal.status, DealStatus::Expired);

    // It shouldn't be possible to execute a deal that hasn't open
    let res = execute_deal(&mut state, env, mock_info(BUYER, &[ask.clone()]), 2);
    assert!(res.is_err());
    assert_eq!(res.unwrap_err(), ContractError::Unauthorized);

    state.store.save(
        3,
        Deal {
            id: 3,
            seller: seller_info.sender.clone(),
            creation_time: env.block.time,
            end_time: env.block.time - 3600,
            buyer: None,
            ask: ask.clone(),
            offer,
            status: DealStatus::Open,
        },
    );

    let deal = state.store.load(3).unwrap();
    assert_eq!(deal.id, 3);
    assert_eq!(deal.status, DealStatus::Open);

    // It shouldn't be possible to execute a deal that has expired
    let res = execute_deal(&mut state, env, mock_info(BUYER, &[ask]), 3);
    assert!(res.is_err());
    assert_eq!(res.unwrap_err(), ContractError::DealExpired);
}

#[test]
pub fn test_claim() {
    let mut state = State::new();
    let env = mock_env();
    let offer = coin(100, "ustake");
    let ask = coin(12, "ucosm");
    let seller_info = mock_info(SELLER, &[offer.clone()]);
    let buyer_info = mock_info(BUYER, &[ask.clone()]);

    state.store.save(
        1,
        Deal {
            id: 1,
            seller: seller_info.sender.clone(),
            creation_time: env.block.time,
            end_time: env.block.time + 3600,
            buyer: Some(buyer_info.sender.clone()),
            ask: ask.clone(),
            offer: offer.clone(),
            status: DealStatus::Open,
        },
    );

    let deal = state.store.load(1).unwrap();
    assert_eq!(deal.id, 1);
    assert_eq!(deal.status, DealStatus::Open);

    // It shouldn't be possible to claim a open deal
    let res = claim(&mut state, mock_info(SELLER, &[]), 1);
    assert!(res.is_err());
    assert_eq!(res.unwrap_err(), ContractError::Unauthorized);

    let mut deal = state.store.load(1).unwrap();
    deal.status = DealStatus::Claimable;
    state.store.save(1, deal);

    let deal = state.store.load(1).unwrap();
    assert_eq!(deal.status, DealStatus::Claimable);

    // It shouldn't be possible to claim a deal without being the seller
    let res = claim(&mut state, mock_info(BUYER, &[]), 1);
    assert!(res.is_err());
    assert_eq!(res.unwrap_err(), ContractError::Unauthorized);

    // It should be possible to claim the deal
    let res = claim(&mut state, mock_info(SELLER, &[]), 1);
    assert!(res.is_ok());
    assert_eq!(res.unwrap().messages.len(), 1);

    let deal = state.store.load(1).unwrap();
    assert_eq!(deal.status, DealStatus::Closed);
    assert_eq!(deal.buyer, Some(buyer_info.sender.clone()));
}

#[test]
pub fn test_withdraw() {
    let mut state = State::new();
    let env = mock_env();
    let offer = coin(100, "ustake");
    let ask = coin(12, "ucosm");
    let seller_info = mock_info(SELLER, &[offer.clone()]);
    let buyer_info = mock_info(BUYER, &[ask.clone()]);

    state.store.save(
        1,
        Deal {
            id: 1,
            seller: seller_info.sender.clone(),
            creation_time: env.block.time,
            end_time: env.block.time + 3600,
            buyer: Some(buyer_info.sender.clone()),
            ask: ask.clone(),
            offer: offer.clone(),
            status: DealStatus::Closed,
        },
    );

    let deal = state.store.load(1).unwrap();
    assert_eq!(deal.id, 1);
    assert_eq!(deal.status, DealStatus::Closed);

    // It shouldn't be possible to withdraw a deal that is not open
    let res = withdraw(&mut state, env, mock_info(SELLER, &[]), 1);
    assert!(res.is_err());
    assert_eq!(res.unwrap_err(), ContractError::Unauthorized);

    let mut deal = state.store.load(1).unwrap();
    deal.status = DealStatus::Open;
    state.store.save(1, deal);

    let deal = state.store.load(1).unwrap();
    assert_eq!(deal.status, DealStatus::Open);

    // It shouldn't be possible to withdraw a deal without being the seller
    let res = withdraw(&mut state, env, mock_info(SELLER, &[]), 1);
    assert!(res.is_err());
    assert_eq!(res.unwrap_err(), ContractError::Unauthorized);

    // it shouldn't be possible to withdraw if the deal is not expired
    let res = withdraw(&mut state, env, mock_info(SELLER, &[]), 1);
    assert!(res.is_err());
    assert_eq!(res.unwrap_err(), ContractError::Unauthorized);

    let mut deal = state.store.load(1).unwrap();
    deal.end_time = env.block.time - 3600;
    state.store.save(1, deal);

    let deal = state.store.load(1).unwrap();
    assert!(env.block.time >= deal.end_time);

    // It should be possible to withdraw the deal
    let res = withdraw(&mut state, env, mock_info(SELLER, &[]), 1);
    assert!(res.is_ok());
    assert_eq!(res.unwrap().messages.len(), 1);
}
