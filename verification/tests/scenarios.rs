use otc_wasm::error::ContractError;
use otc_wasm::error::DenomError;
use otc_wasm::error::PaymentError;
use otc_wasm::execute::cancel_deal;
use otc_wasm::execute::claim;
use otc_wasm::execute::create_deal;
use otc_wasm::execute::execute;
use otc_wasm::execute::execute_deal;
use otc_wasm::execute::withdraw;
use otc_wasm::instantiate::instantiate;
use otc_wasm::msg::BlockInfo;
use otc_wasm::msg::CreateDealMsg;
use otc_wasm::msg::Env;
use otc_wasm::msg::ExecuteMsg;
use otc_wasm::msg::InstantiateMsg;
use otc_wasm::msg::MessageInfo;
use otc_wasm::response::BankMsg;
use otc_wasm::state::coin;
use otc_wasm::state::Coin;
use otc_wasm::state::Deal;
use otc_wasm::state::DealStatus;
use otc_wasm::state::State;

const SELLER: &str = "seller";
const BUYER: &str = "buyer";

fn mock_env() -> Env {
    Env { block: BlockInfo { height: 12345, time: 1571797419 } }
}

fn mock_info(sender: &str, funds: &[Coin]) -> MessageInfo {
    MessageInfo { sender: sender.to_string(), funds: funds.to_vec() }
}

fn open_deal(env: &Env, id: u64, seller: &str) -> Deal {
    Deal {
        id,
        seller: seller.to_string(),
        buyer: None,
        offer: coin(100, "ustake"),
        ask: coin(12, "ucosm"),
        status: DealStatus::Open,
        creation_time: env.block.time,
        end_time: env.block.time + 500,
    }
}

// A seller creates a deal offering 100 of one denomination against 12 of
// another with duration 500 under a configured range whose bounds are 300
// and 500: the deal gets identifier 1, opens, and ends 500 seconds after
// the creation time.
#[test]
fn scenario_create_deal_within_range() {
    let mut state = State::new();
    let env = mock_env();
    instantiate(
        &mut state,
        env,
        mock_info("owner", &[]),
        InstantiateMsg { owner: "owner".to_string(), duration_range: vec![500, 300] },
    )
    .unwrap();

    let offer = coin(100, "ustake");
    let msg = CreateDealMsg { offer: offer.clone(), ask: coin(12, "ucosm"), duration: 500 };
    let res = create_deal(&mut state, env, mock_info(SELLER, &[offer]), msg);
    assert!(res.is_ok());

    let deal = state.store.load(1).unwrap();
    assert_eq!(deal.id, 1);
    assert_eq!(deal.status, DealStatus::Open);
    assert_eq!(deal.end_time, env.block.time + 500);
}

// The same configuration rejects duration 100, reporting the configured
// bounds in their stored order.
#[test]
fn scenario_create_deal_duration_out_of_range() {
    let mut state = State::new();
    let env = mock_env();
    instantiate(
        &mut state,
        env,
        mock_info("owner", &[]),
        InstantiateMsg { owner: "owner".to_string(), duration_range: vec![500, 300] },
    )
    .unwrap();

    let offer = coin(100, "ustake");
    let msg = CreateDealMsg { offer: offer.clone(), ask: coin(12, "ucosm"), duration: 100 };
    let res = create_deal(&mut state, env, mock_info(SELLER, &[offer]), msg);
    assert_eq!(res.unwrap_err(), ContractError::InvalidDuration(500, 300));

    // Nothing was stored.
    assert_eq!(state.store.len(), 0);
}

#[test]
fn create_deal_event_names_seller_and_id() {
    let mut state = State::new();
    let env = mock_env();
    instantiate(
        &mut state,
        env,
        mock_info("owner", &[]),
        InstantiateMsg { owner: "owner".to_string(), duration_range: vec![500, 300] },
    )
    .unwrap();

    let offer = coin(100, "ustake");
    let msg = CreateDealMsg { offer: offer.clone(), ask: coin(12, "ucosm"), duration: 500 };
    let res = create_deal(&mut state, env, mock_info(SELLER, &[offer]), msg).unwrap();

    assert_eq!(res.messages.len(), 0);
    assert_eq!(res.events.len(), 1);
    assert_eq!(res.events[0].ty, "OtcWasm.v1.MsgCreateDeal".to_string());
    assert_eq!(res.events[0].attributes.len(), 2);
    assert_eq!(res.events[0].attributes[0].key, "seller".to_string());
    assert_eq!(res.events[0].attributes[0].value, SELLER.to_string());
    assert_eq!(res.events[0].attributes[1].key, "id".to_string());
    assert_eq!(res.events[0].attributes[1].value, "1".to_string());
}

// The escrowed offer goes back to the buyer on execution; the ask payment
// stays with the contract until the seller claims it. This mirrors the
// deployed behaviour of this escrow.
#[test]
fn execute_sends_offer_to_buyer() {
    let mut state = State::new();
    let env = mock_env();
    state.store.save(1, open_deal(&env, 1, SELLER));

    let res = execute_deal(&mut state, env, mock_info(BUYER, &[coin(12, "ucosm")]), 1).unwrap();
    assert_eq!(res.messages.len(), 1);
    let BankMsg::Send { to_address, amount } = &res.messages[0];
    assert_eq!(to_address, &BUYER.to_string());
    assert_eq!(amount.len(), 1);
    assert_eq!(amount[0], coin(100, "ustake"));
}

#[test]
fn execute_rejects_overpayment_and_wrong_denom() {
    let mut state = State::new();
    let env = mock_env();
    state.store.save(1, open_deal(&env, 1, SELLER));

    // more than the ask: the error reports the amount actually paid
    let res = execute_deal(&mut state, env, mock_info(BUYER, &[coin(13, "ucosm")]), 1);
    assert_eq!(res.unwrap_err(), ContractError::InsufficientAmount(13));

    // wrong denomination
    let res = execute_deal(&mut state, env, mock_info(BUYER, &[coin(12, "ustake")]), 1);
    assert_eq!(
        res.unwrap_err(),
        ContractError::Payment(PaymentError::MissingDenom("ucosm".to_string()))
    );

    // two coins attached
    let res = execute_deal(
        &mut state,
        env,
        mock_info(BUYER, &[coin(12, "ucosm"), coin(1, "ustake")]),
        1,
    );
    assert_eq!(res.unwrap_err(), ContractError::Payment(PaymentError::MultipleDenoms {}));

    // none of those attempts changed the deal
    let deal = state.store.load(1).unwrap();
    assert_eq!(deal.status, DealStatus::Open);
    assert_eq!(deal.buyer, None);
}

#[test]
fn create_rejects_malformed_denominations() {
    let mut state = State::new();
    let env = mock_env();
    instantiate(
        &mut state,
        env,
        mock_info("owner", &[]),
        InstantiateMsg { owner: "owner".to_string(), duration_range: vec![500, 300] },
    )
    .unwrap();
    let offer = coin(100, "ustake");

    // a character outside the allowed set
    let msg = CreateDealMsg { offer: offer.clone(), ask: coin(12, "uco!sm"), duration: 500 };
    let res = create_deal(&mut state, env, mock_info(SELLER, &[offer.clone()]), msg);
    assert_eq!(
        res.unwrap_err(),
        ContractError::Denom(DenomError::InvalidCharacter { c: '!' })
    );

    // a leading character that is not an ASCII letter
    let msg = CreateDealMsg { offer: offer.clone(), ask: coin(12, "1cosm"), duration: 500 };
    let res = create_deal(&mut state, env, mock_info(SELLER, &[offer.clone()]), msg);
    assert_eq!(res.unwrap_err(), ContractError::Denom(DenomError::NonAlphabeticAscii));

    // no funds attached at all
    let msg = CreateDealMsg { offer: offer.clone(), ask: coin(12, "ucosm"), duration: 500 };
    let res = create_deal(&mut state, env, mock_info(SELLER, &[]), msg);
    assert_eq!(res.unwrap_err(), ContractError::Payment(PaymentError::NoFunds {}));

    assert_eq!(state.store.len(), 0);
}

// Only the original seller may cancel or withdraw.
#[test]
fn cancel_and_withdraw_require_the_seller() {
    let mut state = State::new();
    let env = mock_env();
    state.store.save(1, open_deal(&env, 1, SELLER));

    let res = cancel_deal(&mut state, env, mock_info("someone_else", &[]), 1);
    assert_eq!(res.unwrap_err(), ContractError::Unauthorized);

    let res = withdraw(&mut state, env, mock_info("someone_else", &[]), 1);
    assert_eq!(res.unwrap_err(), ContractError::Unauthorized);

    let mut expired = state.store.load(1).unwrap();
    expired.end_time = env.block.time - 1;
    state.store.save(1, expired);

    let res = withdraw(&mut state, env, mock_info(BUYER, &[]), 1);
    assert_eq!(res.unwrap_err(), ContractError::Unauthorized);

    let deal = state.store.load(1).unwrap();
    assert_eq!(deal.status, DealStatus::Open);
}

#[test]
fn cancel_missing_deal_is_deal_not_found() {
    let mut state = State::new();
    let env = mock_env();
    let res = cancel_deal(&mut state, env, mock_info(SELLER, &[]), 9);
    assert_eq!(res.unwrap_err(), ContractError::DealNotFound);
}

// Once a deal is Cancelled, Closed or Expired, no lifecycle call moves it;
// in particular nothing reaches Closed from Cancelled or Expired.
#[test]
fn terminal_statuses_never_move() {
    let env = mock_env();
    let statuses = [DealStatus::Cancelled, DealStatus::Expired, DealStatus::Closed];
    for (i, status) in statuses.iter().enumerate() {
        let id = (i + 1) as u64;
        let mut state = State::new();
        let mut deal = open_deal(&env, id, SELLER);
        deal.status = *status;
        state.store.save(id, deal);

        let res = execute_deal(&mut state, env, mock_info(BUYER, &[coin(12, "ucosm")]), id);
        assert_eq!(res.unwrap_err(), ContractError::Unauthorized);
        let res = claim(&mut state, mock_info(SELLER, &[]), id);
        assert_eq!(res.unwrap_err(), ContractError::Unauthorized);
        let res = cancel_deal(&mut state, env, mock_info(SELLER, &[]), id);
        assert_eq!(res.unwrap_err(), ContractError::Unauthorized);
        let res = withdraw(&mut state, env, mock_info(SELLER, &[]), id);
        assert_eq!(res.unwrap_err(), ContractError::Unauthorized);

        assert_eq!(state.store.load(id).unwrap().status, *status);
    }
}

// The full life of one deal through the command dispatcher: create,
// execute, claim.
#[test]
fn dispatcher_runs_a_whole_deal() {
    let mut state = State::new();
    let env = mock_env();
    instantiate(
        &mut state,
        env,
        mock_info("owner", &[]),
        InstantiateMsg { owner: "owner".to_string(), duration_range: vec![500, 300] },
    )
    .unwrap();

    let offer = coin(100, "ustake");
    let res = execute(
        &mut state,
        env,
        mock_info(SELLER, &[offer.clone()]),
        ExecuteMsg::CreateDeal(CreateDealMsg {
            offer,
            ask: coin(12, "ucosm"),
            duration: 400,
        }),
    );
    assert!(res.is_ok());
    assert_eq!(state.store.load(1).unwrap().status, DealStatus::Open);

    let res = execute(
        &mut state,
        env,
        mock_info(BUYER, &[coin(12, "ucosm")]),
        ExecuteMsg::ExecuteDeal(1),
    );
    assert!(res.is_ok());
    assert_eq!(state.store.load(1).unwrap().status, DealStatus::Claimable);

    let res = execute(&mut state, env, mock_info(SELLER, &[]), ExecuteMsg::Claim(1));
    let res = res.unwrap();
    assert_eq!(res.messages.len(), 1);
    let BankMsg::Send { to_address, amount } = &res.messages[0];
    assert_eq!(to_address, &SELLER.to_string());
    assert_eq!(amount[0], coin(12, "ucosm"));
    assert_eq!(state.store.load(1).unwrap().status, DealStatus::Closed);
}

// Withdrawing an expired open deal is observed as one transition to
// Closed, and returns the escrowed offer to the seller.
#[test]
fn withdraw_closes_and_returns_the_offer() {
    let mut state = State::new();
    let env = mock_env();
    let mut deal = open_deal(&env, 1, SELLER);
    deal.end_time = env.block.time;
    state.store.save(1, deal);

    let res = withdraw(&mut state, env, mock_info(SELLER, &[]), 1).unwrap();
    let BankMsg::Send { to_address, amount } = &res.messages[0];
    assert_eq!(to_address, &SELLER.to_string());
    assert_eq!(amount[0], coin(100, "ustake"));
    assert_eq!(state.store.load(1).unwrap().status, DealStatus::Closed);
}

// Identifiers are issued in increasing order, one per creation.
#[test]
fn identifiers_increase_one_per_creation() {
    let mut state = State::new();
    let env = mock_env();
    instantiate(
        &mut state,
        env,
        mock_info("owner", &[]),
        InstantiateMsg { owner: "owner".to_string(), duration_range: vec![500, 300] },
    )
    .unwrap();

    let offer = coin(100, "ustake");
    for expected in 1u64..4 {
        let msg = CreateDealMsg { offer: offer.clone(), ask: coin(12, "ucosm"), duration: 300 };
        create_deal(&mut state, env, mock_info(SELLER, &[offer.clone()]), msg).unwrap();
        let deal = state.store.load(expected).unwrap();
        assert_eq!(deal.id, expected);
    }
    assert_eq!(state.store.len(), 3);
}

// The single attached coin must match the declared offer: a different
// denomination or amount is rejected before anything is stored.
#[test]
fn create_requires_attached_coin_to_match_offer() {
    let mut state = State::new();
    let env = mock_env();
    instantiate(
        &mut state,
        env,
        mock_info("owner", &[]),
        InstantiateMsg { owner: "owner".to_string(), duration_range: vec![500, 300] },
    )
    .unwrap();

    // declared offer in one denomination, attached coin in another
    let msg = CreateDealMsg { offer: coin(7, "uother"), ask: coin(12, "ucosm"), duration: 500 };
    let res = create_deal(&mut state, env, mock_info(SELLER, &[coin(100, "ustake")]), msg);
    assert_eq!(
        res.unwrap_err(),
        ContractError::Payment(PaymentError::MissingDenom("uother".to_string()))
    );

    // right denomination, wrong amount: the error reports the amount
    // actually attached
    let msg = CreateDealMsg { offer: coin(100, "ustake"), ask: coin(12, "ucosm"), duration: 500 };
    let res = create_deal(&mut state, env, mock_info(SELLER, &[coin(99, "ustake")]), msg);
    assert_eq!(res.unwrap_err(), ContractError::InsufficientAmount(99));

    // nothing was stored by the failed attempts
    assert_eq!(state.store.len(), 0);

    // a matching attachment succeeds and stores the declared offer
    let msg = CreateDealMsg { offer: coin(100, "ustake"), ask: coin(12, "ucosm"), duration: 500 };
    let res = create_deal(&mut state, env, mock_info(SELLER, &[coin(100, "ustake")]), msg);
    assert!(res.is_ok());
    let deal = state.store.load(1).unwrap();
    assert_eq!(deal.offer, coin(100, "ustake"));
}
