//! The deal lifecycle state machine: create, execute, claim, cancel and
//! withdraw, with their authorization and timing checks, and the
//! configuration update.
//!
//! Each transition reads the current state, validates, and only then
//! writes; a failed transition leaves the state unchanged.

use crate::denom::denom_check;
use crate::denom::validate_native_denom;
use crate::error::ContractError;
use crate::error::ContractErrorV;
use crate::error::StdError;
use crate::error::StdErrorV;
use crate::msg::CreateDealMsg;
use crate::msg::CreateDealMsgV;
use crate::msg::Env;
use crate::msg::ExecuteMsg;
use crate::msg::ExecuteMsgV;
use crate::msg::MessageInfo;
use crate::msg::MessageInfoV;
use crate::payment::must_pay;
use crate::payment::must_pay_spec;
use crate::response::BankMsg;
use crate::response::BankMsgV;
use crate::response::Event;
use crate::response::EventV;
use crate::response::Response;
use crate::response::ResponseV;
use crate::response::dec_digits;
use crate::response::u64_to_string;
use crate::state::CoinV;
use crate::state::ConfigV;
use crate::state::Deal;
use crate::state::DealStatus;
use crate::state::DealV;
use crate::state::Id;
use crate::state::State;
use crate::state::StateV;
use crate::state::get_deal;
use crate::state::has_id;
use crate::state::idx_of;
use crate::state::insert_deal;
use crate::state::lemma_get_deal_unique;
use crate::state::lemma_insert_deal_props;
use crate::state::lemma_insert_existing;
use crate::state::lemma_update_preserves_lookup;
use crate::state::next_id;
use vstd::prelude::*;

verus! {

/// Has the moment `end_time` already been reached at time `now`?
pub open spec fn is_expired(now: u64, end_time: u64) -> bool {
    now >= end_time
}

/// One lifecycle edge at call granularity: a call leaves a deal's status
/// unchanged, or moves Open to Claimable (execute), to Cancelled
/// (cancel) or to Closed (withdraw, passing through Expired), or
/// Claimable to Closed (claim). Closed, Cancelled and Expired have no
/// outgoing edges.
pub open spec fn status_edge_ok(pre: DealStatus, post: DealStatus) -> bool {
    ||| post == pre
    ||| (pre == DealStatus::Open && (post == DealStatus::Claimable || post
        == DealStatus::Cancelled || post == DealStatus::Closed))
    ||| (pre == DealStatus::Claimable && post == DealStatus::Closed)
}

/// Every deal stored before a call is still stored after it, and its
/// status followed a lifecycle edge.
pub open spec fn deals_edges_ok(pre: Seq<DealV>, post: Seq<DealV>) -> bool {
    forall|x: Id|
        #[trigger] has_id(pre, x) ==> has_id(post, x) && status_edge_ok(
            get_deal(pre, x).status,
            get_deal(post, x).status,
        )
}

/// The table with the record of `d.id` replaced by `d`.
pub open spec fn update_deal_seq(s: Seq<DealV>, d: DealV) -> Seq<DealV> {
    s.update(idx_of(s, d.id), d)
}

/// What `claim` decides: the seller of a claimable deal closes it; any
/// other caller or status is unauthorized, a missing deal is a store
/// error.
pub open spec fn claim_outcome(deals: Seq<DealV>, sender: Seq<char>, id: Id) -> Result<
    DealV,
    ContractErrorV,
> {
    if !has_id(deals, id) {
        Err(ContractErrorV::Std(StdErrorV::NotFound {}))
    } else {
        let d = get_deal(deals, id);
        if sender != d.seller {
            Err(ContractErrorV::Unauthorized)
        } else if d.status != DealStatus::Claimable {
            Err(ContractErrorV::Unauthorized)
        } else {
            Ok(DealV { status: DealStatus::Closed, ..d })
        }
    }
}

/// The response of a successful claim: the asked asset goes to the
/// seller.
pub open spec fn claim_response(d: DealV, sender: Seq<char>) -> ResponseV {
    ResponseV {
        messages: seq![BankMsgV::Send { to_address: sender, amount: seq![d.ask] }],
        events: seq![
            EventV {
                ty: "OtcWasm.v1.MsgClaim"@,
                attributes: seq![("claimer"@, sender), ("id"@, dec_digits(d.id as nat))],
            },
        ],
    }
}

/// Claims the payment of an executed deal: the seller of a claimable
/// deal closes it and receives the asked asset.
pub fn claim(state: &mut State, info: MessageInfo, id: Id) -> (r: Result<Response, ContractError>)
    requires
        old(state).wf(),
    ensures
        final(state).wf(),
        final(state)@.config == old(state)@.config,
        final(state)@.id_count == old(state)@.id_count,
        deals_edges_ok(old(state)@.deals, final(state)@.deals),
        match claim_outcome(old(state)@.deals, info.sender@, id) {
            Ok(d2) => r matches Ok(resp) && resp@ == claim_response(d2, info.sender@)
                && final(state)@.deals == update_deal_seq(old(state)@.deals, d2),
            Err(e) => r matches Err(err) && err@ == e && final(state)@.deals == old(state)@.deals,
        },
{
    let ghost deals0 = state@.deals;
    proof {
        state.store.lemma_wf_sorted();
    }
    let deal = match state.store.load(id) {
        Ok(d) => d,
        Err(e) => {
            return Err(ContractError::Std(e));
        },
    };
    proof {
        lemma_get_deal_unique(deals0, id);
        assert(deal@.id == id);
    }
    if !(info.sender == deal.seller) {
        return Err(ContractError::Unauthorized);
    }
    if !(deal.status == DealStatus::Claimable) {
        return Err(ContractError::Unauthorized);
    }
    let msg = BankMsg::Send { to_address: info.sender.clone(), amount: vec![deal.ask.clone()] };
    proof {
        assert(msg@ matches BankMsgV::Send { to_address, amount } && to_address == info.sender@
            && amount =~= seq![deal@.ask]);
    }
    let ghost mv = msg@;
    let event = Event::new("OtcWasm.v1.MsgClaim").add_attribute(
        "claimer",
        info.sender.clone(),
    ).add_attribute("id", u64_to_string(id));
    proof {
        assert(event@.attributes =~= seq![
            ("claimer"@, info.sender@),
            ("id"@, dec_digits(id as nat)),
        ]);
    }
    let ghost ev = event@;
    let mut updated = deal;
    updated.status = DealStatus::Closed;
    let ghost d2 = updated@;
    state.store.save(id, updated);
    proof {
        lemma_insert_existing(deals0, d2);
        lemma_update_preserves_lookup(deals0, idx_of(deals0, id), d2);
        assert(deals_edges_ok(deals0, state@.deals)) by {
            assert forall|x: Id| #[trigger] has_id(deals0, x) implies has_id(state@.deals, x)
                && status_edge_ok(
                get_deal(deals0, x).status,
                get_deal(state@.deals, x).status,
            ) by {
                if x != id {
                    assert(get_deal(state@.deals, x) == get_deal(deals0, x));
                }
            }
        }
    }
    let r = Response::new().add_event(event).add_message(msg);
    proof {
        assert(r@.messages =~= seq![mv]);
        assert(r@.events =~= seq![ev]);
        assert(r@ == claim_response(d2, info.sender@)) by {
            assert(claim_response(d2, info.sender@).messages =~= r@.messages);
            assert(claim_response(d2, info.sender@).events =~= r@.events);
        }
    }
    Ok(r)
}


/// What `withdraw` decides: the seller of an open deal whose end time
/// has passed takes the escrow back; the record passes through Expired
/// and is observed Closed. Any other caller, status or timing is
/// unauthorized; a missing deal is a store error.
pub open spec fn withdraw_outcome(deals: Seq<DealV>, now: u64, sender: Seq<char>, id: Id) -> Result<
    DealV,
    ContractErrorV,
> {
    if !has_id(deals, id) {
        Err(ContractErrorV::Std(StdErrorV::NotFound {}))
    } else {
        let d = get_deal(deals, id);
        if sender != d.seller {
            Err(ContractErrorV::Unauthorized)
        } else if d.status != DealStatus::Open {
            Err(ContractErrorV::Unauthorized)
        } else if !is_expired(now, d.end_time) {
            Err(ContractErrorV::Unauthorized)
        } else {
            Ok(DealV { status: DealStatus::Closed, ..d })
        }
    }
}

/// The response of a successful withdrawal: the escrowed offer returns
/// to the seller.
pub open spec fn withdraw_response(d: DealV, sender: Seq<char>) -> ResponseV {
    ResponseV {
        messages: seq![BankMsgV::Send { to_address: sender, amount: seq![d.offer] }],
        events: seq![
            EventV {
                ty: "OtcWasm.v1.MsgWithdraw"@,
                attributes: seq![("seller"@, sender), ("id"@, dec_digits(d.id as nat))],
            },
        ],
    }
}

/// Withdraws an expired open deal: the seller takes the escrowed offer
/// back. The record transitions through Expired and immediately on to
/// Closed; both writes happen inside this one call, so callers observe a
/// single transition to Closed.
pub fn withdraw(state: &mut State, env: Env, info: MessageInfo, id: Id) -> (r: Result<
    Response,
    ContractError,
>)
    requires
        old(state).wf(),
    ensures
        final(state).wf(),
        final(state)@.config == old(state)@.config,
        final(state)@.id_count == old(state)@.id_count,
        deals_edges_ok(old(state)@.deals, final(state)@.deals),
        match withdraw_outcome(old(state)@.deals, env.block.time, info.sender@, id) {
            Ok(d2) => r matches Ok(resp) && resp@ == withdraw_response(d2, info.sender@)
                && final(state)@.deals == update_deal_seq(old(state)@.deals, d2),
            Err(e) => r matches Err(err) && err@ == e && final(state)@.deals == old(state)@.deals,
        },
{
    let ghost deals0 = state@.deals;
    proof {
        state.store.lemma_wf_sorted();
    }
    let deal = match state.store.load(id) {
        Ok(d) => d,
        Err(e) => {
            return Err(ContractError::Std(e));
        },
    };
    proof {
        lemma_get_deal_unique(deals0, id);
        assert(deal@.id == id);
    }
    if !(info.sender == deal.seller) {
        return Err(ContractError::Unauthorized);
    }
    if !(deal.status == DealStatus::Open) {
        return Err(ContractError::Unauthorized);
    }
    if env.block.time < deal.end_time {
        return Err(ContractError::Unauthorized);
    }
    let mut expired = deal.clone();
    expired.status = DealStatus::Expired;
    let ghost d1 = expired@;
    state.store.save(id, expired);
    proof {
        lemma_insert_existing(deals0, d1);
        lemma_update_preserves_lookup(deals0, idx_of(deals0, id), d1);
        state.store.lemma_wf_sorted();
    }
    let ghost deals1 = state@.deals;
    let msg = BankMsg::Send { to_address: info.sender.clone(), amount: vec![deal.offer.clone()] };
    proof {
        assert(msg@ matches BankMsgV::Send { to_address, amount } && to_address == info.sender@
            && amount =~= seq![deal@.offer]);
    }
    let ghost mv = msg@;
    let event = Event::new("OtcWasm.v1.MsgWithdraw").add_attribute(
        "seller",
        info.sender.clone(),
    ).add_attribute("id", u64_to_string(id));
    proof {
        assert(event@.attributes =~= seq![
            ("seller"@, info.sender@),
            ("id"@, dec_digits(id as nat)),
        ]);
    }
    let ghost ev = event@;
    let mut closed = deal;
    closed.status = DealStatus::Closed;
    let ghost d2 = closed@;
    state.store.save(id, closed);
    proof {
        assert(has_id(deals1, id) && get_deal(deals1, id) == d1) by {
            lemma_update_preserves_lookup(deals0, idx_of(deals0, id), d1);
        }
        lemma_insert_existing(deals1, d2);
        lemma_get_deal_unique(deals1, id);
        assert(idx_of(deals1, id) == idx_of(deals0, id)) by {
            assert(deals1[idx_of(deals0, id)].id == id);
        }
        assert(state@.deals =~= update_deal_seq(deals0, d2));
        lemma_update_preserves_lookup(deals0, idx_of(deals0, id), d2);
        assert(deals_edges_ok(deals0, state@.deals)) by {
            assert forall|x: Id| #[trigger] has_id(deals0, x) implies has_id(state@.deals, x)
                && status_edge_ok(
                get_deal(deals0, x).status,
                get_deal(state@.deals, x).status,
            ) by {
                if x != id {
                    assert(get_deal(state@.deals, x) == get_deal(deals0, x));
                }
            }
        }
    }
    let r = Response::new().add_event(event).add_message(msg);
    proof {
        assert(r@.messages =~= seq![mv]);
        assert(r@.events =~= seq![ev]);
        assert(r@ == withdraw_response(d2, info.sender@)) by {
            assert(withdraw_response(d2, info.sender@).messages =~= r@.messages);
            assert(withdraw_response(d2, info.sender@).events =~= r@.events);
        }
    }
    Ok(r)
}

/// What `execute` decides: any caller may take an open, unexpired deal
/// by attaching exactly the asked amount in the asked denomination; the
/// deal becomes claimable and records the buyer. A wrong status is
/// unauthorized, a passed end time is reported as expired, malformed
/// funds as a payment fault, and a wrong amount reports the amount
/// actually paid.
pub open spec fn execute_deal_outcome(
    deals: Seq<DealV>,
    now: u64,
    sender: Seq<char>,
    funds: Seq<CoinV>,
    id: Id,
) -> Result<DealV, ContractErrorV> {
    if !has_id(deals, id) {
        Err(ContractErrorV::Std(StdErrorV::NotFound {}))
    } else {
        let d = get_deal(deals, id);
        if d.status != DealStatus::Open {
            Err(ContractErrorV::Unauthorized)
        } else if is_expired(now, d.end_time) {
            Err(ContractErrorV::DealExpired)
        } else {
            match must_pay_spec(funds, d.ask.denom) {
                Err(p) => Err(ContractErrorV::Payment(p)),
                Ok(paid) => if paid != d.ask.amount {
                    Err(ContractErrorV::InsufficientAmount(paid))
                } else {
                    Ok(DealV { status: DealStatus::Claimable, buyer: Some(sender), ..d })
                },
            }
        }
    }
}

/// The response of a successful execution: the escrowed offer is sent to
/// the buyer, mirroring the deployed behaviour of this escrow (the ask
/// payment stays with the contract until the seller claims it).
pub open spec fn execute_response(d: DealV, sender: Seq<char>) -> ResponseV {
    ResponseV {
        messages: seq![BankMsgV::Send { to_address: sender, amount: seq![d.offer] }],
        events: seq![
            EventV {
                ty: "OtcWasm.v1.MsgExecuteDeal"@,
                attributes: seq![("buyer"@, sender), ("id"@, dec_digits(d.id as nat))],
            },
        ],
    }
}

/// Executes an open deal: the caller pays exactly the asked amount and
/// becomes the buyer; the deal turns claimable.
pub fn execute_deal(state: &mut State, env: Env, info: MessageInfo, id: Id) -> (r: Result<
    Response,
    ContractError,
>)
    requires
        old(state).wf(),
    ensures
        final(state).wf(),
        final(state)@.config == old(state)@.config,
        final(state)@.id_count == old(state)@.id_count,
        deals_edges_ok(old(state)@.deals, final(state)@.deals),
        match execute_deal_outcome(old(state)@.deals, env.block.time, info.sender@, info@.funds, id) {
            Ok(d2) => r matches Ok(resp) && resp@ == execute_response(d2, info.sender@)
                && final(state)@.deals == update_deal_seq(old(state)@.deals, d2),
            Err(e) => r matches Err(err) && err@ == e && final(state)@.deals == old(state)@.deals,
        },
{
    let ghost deals0 = state@.deals;
    proof {
        state.store.lemma_wf_sorted();
    }
    let deal = match state.store.load(id) {
        Ok(d) => d,
        Err(e) => {
            return Err(ContractError::Std(e));
        },
    };
    proof {
        lemma_get_deal_unique(deals0, id);
        assert(deal@.id == id);
    }
    if !(deal.status == DealStatus::Open) {
        return Err(ContractError::Unauthorized);
    }
    if env.block.time >= deal.end_time {
        return Err(ContractError::DealExpired);
    }
    let paid = match must_pay(&info.funds, deal.ask.denom.as_str()) {
        Ok(a) => a,
        Err(p) => {
            return Err(ContractError::Payment(p));
        },
    };
    if paid != deal.ask.amount {
        return Err(ContractError::InsufficientAmount(paid));
    }
    let msg = BankMsg::Send { to_address: info.sender.clone(), amount: vec![deal.offer.clone()] };
    proof {
        assert(msg@ matches BankMsgV::Send { to_address, amount } && to_address == info.sender@
            && amount =~= seq![deal@.offer]);
    }
    let ghost mv = msg@;
    let event = Event::new("OtcWasm.v1.MsgExecuteDeal").add_attribute(
        "buyer",
        info.sender.clone(),
    ).add_attribute("id", u64_to_string(id));
    proof {
        assert(event@.attributes =~= seq![
            ("buyer"@, info.sender@),
            ("id"@, dec_digits(id as nat)),
        ]);
    }
    let ghost ev = event@;
    let mut updated = deal;
    updated.status = DealStatus::Claimable;
    updated.buyer = Some(info.sender.clone());
    let ghost d2 = updated@;
    state.store.save(id, updated);
    proof {
        lemma_insert_existing(deals0, d2);
        lemma_update_preserves_lookup(deals0, idx_of(deals0, id), d2);
        assert(deals_edges_ok(deals0, state@.deals)) by {
            assert forall|x: Id| #[trigger] has_id(deals0, x) implies has_id(state@.deals, x)
                && status_edge_ok(
                get_deal(deals0, x).status,
                get_deal(state@.deals, x).status,
            ) by {
                if x != id {
                    assert(get_deal(state@.deals, x) == get_deal(deals0, x));
                }
            }
        }
    }
    let r = Response::new().add_event(event).add_message(msg);
    proof {
        assert(r@.messages =~= seq![mv]);
        assert(r@.events =~= seq![ev]);
        assert(r@ == execute_response(d2, info.sender@)) by {
            assert(execute_response(d2, info.sender@).messages =~= r@.messages);
            assert(execute_response(d2, info.sender@).events =~= r@.events);
        }
    }
    Ok(r)
}

/// What `cancel` decides: the seller of an open, unexpired deal calls it
/// off and takes the escrow back. A missing deal is reported as not
/// found, a wrong caller or status is unauthorized, a passed end time is
/// reported as expired.
pub open spec fn cancel_outcome(deals: Seq<DealV>, now: u64, sender: Seq<char>, id: Id) -> Result<
    DealV,
    ContractErrorV,
> {
    if !has_id(deals, id) {
        Err(ContractErrorV::DealNotFound)
    } else {
        let d = get_deal(deals, id);
        if sender != d.seller {
            Err(ContractErrorV::Unauthorized)
        } else if d.status != DealStatus::Open {
            Err(ContractErrorV::Unauthorized)
        } else if is_expired(now, d.end_time) {
            Err(ContractErrorV::DealExpired)
        } else {
            Ok(DealV { status: DealStatus::Cancelled, ..d })
        }
    }
}

/// The response of a successful cancellation: the escrowed offer returns
/// to the seller.
pub open spec fn cancel_response(d: DealV, sender: Seq<char>) -> ResponseV {
    ResponseV {
        messages: seq![BankMsgV::Send { to_address: sender, amount: seq![d.offer] }],
        events: seq![
            EventV {
                ty: "OtcWasm.v1.MsgCancelDeal"@,
                attributes: seq![("id"@, dec_digits(d.id as nat))],
            },
        ],
    }
}

/// Cancels an open, unexpired deal: the seller takes the escrowed offer
/// back. The checks and the write form one read-modify-write over the
/// store.
pub fn cancel_deal(state: &mut State, env: Env, info: MessageInfo, id: Id) -> (r: Result<
    Response,
    ContractError,
>)
    requires
        old(state).wf(),
    ensures
        final(state).wf(),
        final(state)@.config == old(state)@.config,
        final(state)@.id_count == old(state)@.id_count,
        deals_edges_ok(old(state)@.deals, final(state)@.deals),
        match cancel_outcome(old(state)@.deals, env.block.time, info.sender@, id) {
            Ok(d2) => r matches Ok(resp) && resp@ == cancel_response(d2, info.sender@)
                && final(state)@.deals == update_deal_seq(old(state)@.deals, d2),
            Err(e) => r matches Err(err) && err@ == e && final(state)@.deals == old(state)@.deals,
        },
{
    let ghost deals0 = state@.deals;
    proof {
        state.store.lemma_wf_sorted();
    }
    let deal = match state.store.load(id) {
        Ok(d) => d,
        Err(_) => {
            return Err(ContractError::DealNotFound);
        },
    };
    proof {
        lemma_get_deal_unique(deals0, id);
        assert(deal@.id == id);
    }
    if !(info.sender == deal.seller) {
        return Err(ContractError::Unauthorized);
    }
    if !(deal.status == DealStatus::Open) {
        return Err(ContractError::Unauthorized);
    }
    if env.block.time >= deal.end_time {
        return Err(ContractError::DealExpired);
    }
    let msg = BankMsg::Send { to_address: info.sender.clone(), amount: vec![deal.offer.clone()] };
    proof {
        assert(msg@ matches BankMsgV::Send { to_address, amount } && to_address == info.sender@
            && amount =~= seq![deal@.offer]);
    }
    let ghost mv = msg@;
    let event = Event::new("OtcWasm.v1.MsgCancelDeal").add_attribute("id", u64_to_string(id));
    proof {
        assert(event@.attributes =~= seq![("id"@, dec_digits(id as nat))]);
    }
    let ghost ev = event@;
    let mut updated = deal;
    updated.status = DealStatus::Cancelled;
    let ghost d2 = updated@;
    state.store.save(id, updated);
    proof {
        lemma_insert_existing(deals0, d2);
        lemma_update_preserves_lookup(deals0, idx_of(deals0, id), d2);
        assert(deals_edges_ok(deals0, state@.deals)) by {
            assert forall|x: Id| #[trigger] has_id(deals0, x) implies has_id(state@.deals, x)
                && status_edge_ok(
                get_deal(deals0, x).status,
                get_deal(state@.deals, x).status,
            ) by {
                if x != id {
                    assert(get_deal(state@.deals, x) == get_deal(deals0, x));
                }
            }
        }
    }
    let r = Response::new().add_event(event).add_message(msg);
    proof {
        assert(r@.messages =~= seq![mv]);
        assert(r@.events =~= seq![ev]);
        assert(r@ == cancel_response(d2, info.sender@)) by {
            assert(cancel_response(d2, info.sender@).messages =~= r@.messages);
            assert(cancel_response(d2, info.sender@).events =~= r@.events);
        }
    }
    Ok(r)
}

/// The least element of a nonempty sequence.
pub open spec fn seq_min(s: Seq<u64>) -> u64
    decreases s.len(),
{
    if s.len() <= 1 {
        s[0]
    } else if s.last() <= seq_min(s.drop_last()) {
        s.last()
    } else {
        seq_min(s.drop_last())
    }
}

/// The greatest element of a nonempty sequence.
pub open spec fn seq_max(s: Seq<u64>) -> u64
    decreases s.len(),
{
    if s.len() <= 1 {
        s[0]
    } else if s.last() >= seq_max(s.drop_last()) {
        s.last()
    } else {
        seq_max(s.drop_last())
    }
}

/// The least element of a nonempty list of bounds.
fn range_min(v: &Vec<u64>) -> (r: u64)
    requires
        v@.len() > 0,
    ensures
        r == seq_min(v@),
{
    let mut m = v[0];
    let mut i: usize = 1;
    proof {
        assert(v@.take(1).len() == 1);
        assert(v@.take(1)[0] == v@[0]);
    }
    while i < v.len()
        invariant
            1 <= i <= v@.len(),
            m == seq_min(v@.take(i as int)),
        decreases v@.len() - i,
    {
        proof {
            assert(v@.take(i as int + 1).drop_last() =~= v@.take(i as int));
            assert(v@.take(i as int + 1).last() == v@[i as int]);
        }
        if v[i] < m {
            m = v[i];
        }
        i = i + 1;
    }
    proof {
        assert(v@.take(v@.len() as int) =~= v@);
    }
    m
}

/// The greatest element of a nonempty list of bounds.
fn range_max(v: &Vec<u64>) -> (r: u64)
    requires
        v@.len() > 0,
    ensures
        r == seq_max(v@),
{
    let mut m = v[0];
    let mut i: usize = 1;
    proof {
        assert(v@.take(1).len() == 1);
        assert(v@.take(1)[0] == v@[0]);
    }
    while i < v.len()
        invariant
            1 <= i <= v@.len(),
            m == seq_max(v@.take(i as int)),
        decreases v@.len() - i,
    {
        proof {
            assert(v@.take(i as int + 1).drop_last() =~= v@.take(i as int));
            assert(v@.take(i as int + 1).last() == v@[i as int]);
        }
        if v[i] > m {
            m = v[i];
        }
        i = i + 1;
    }
    proof {
        assert(v@.take(v@.len() as int) =~= v@);
    }
    m
}

/// What `create` decides: the caller escrows exactly one attached coin
/// that must match the declared offer, names a syntactically valid
/// native denomination to ask for, and picks a duration between the
/// configured minimum and maximum bound (inclusive); the new deal opens
/// under the next identifier and runs from `now` for `duration` seconds.
/// Missing, surplus or wrong-denomination funds are a payment fault, an
/// attached amount differing from the declared offer reports the amount
/// actually attached, a bad denomination a denomination fault, a missing
/// configuration a store error, and a duration out of range reports the
/// configured bounds in their stored order.
pub open spec fn create_deal_outcome(
    cfg: Option<ConfigV>,
    next: Id,
    now: u64,
    info: MessageInfoV,
    msg: CreateDealMsgV,
) -> Result<DealV, ContractErrorV> {
    match must_pay_spec(info.funds, msg.offer.denom) {
        Err(p) => Err(ContractErrorV::Payment(p)),
        Ok(paid) => if paid != msg.offer.amount {
            Err(ContractErrorV::InsufficientAmount(paid))
        } else {
            match denom_check(msg.ask.denom) {
                Some(e) => Err(ContractErrorV::Denom(e)),
                None => match cfg {
                    None => Err(ContractErrorV::Std(StdErrorV::NotFound {})),
                    Some(c) => if !(seq_min(c.duration_range) <= msg.duration && msg.duration
                        <= seq_max(c.duration_range)) {
                        Err(
                            ContractErrorV::InvalidDuration(
                                c.duration_range[0],
                                c.duration_range[c.duration_range.len() - 1],
                            ),
                        )
                    } else {
                        Ok(
                            DealV {
                                id: next,
                                seller: info.sender,
                                buyer: None,
                                offer: msg.offer,
                                ask: msg.ask,
                                status: DealStatus::Open,
                                creation_time: now,
                                end_time: (now + msg.duration) as u64,
                            },
                        )
                    },
                },
            }
        },
    }
}

/// The response of a successful creation: an event naming the seller and
/// the new identifier. No asset moves; the offer is already escrowed by
/// the attached payment.
pub open spec fn create_response(id: Id, sender: Seq<char>) -> ResponseV {
    ResponseV {
        messages: Seq::empty(),
        events: seq![
            EventV {
                ty: "OtcWasm.v1.MsgCreateDeal"@,
                attributes: seq![("seller"@, sender), ("id"@, dec_digits(id as nat))],
            },
        ],
    }
}

/// Creates a new deal: the caller escrows exactly one attached coin,
/// which must match the declared offer, and names the asset asked in
/// return; the deal opens for the requested duration.
pub fn create_deal(state: &mut State, env: Env, info: MessageInfo, msg: CreateDealMsg) -> (r:
    Result<Response, ContractError>)
    requires
        old(state).wf(),
        create_deal_outcome(
            old(state)@.config,
            old(state)@.id_count,
            env.block.time,
            info@,
            msg@,
        ) is Ok ==> old(state)@.id_count < u64::MAX && env.block.time + msg@.duration
            <= u64::MAX,
    ensures
        final(state).wf(),
        final(state)@.config == old(state)@.config,
        match create_deal_outcome(
            old(state)@.config,
            old(state)@.id_count,
            env.block.time,
            info@,
            msg@,
        ) {
            Ok(d) => r matches Ok(resp) && resp@ == create_response(d.id, info.sender@)
                && final(state)@.deals == insert_deal(old(state)@.deals, d)
                && final(state)@.id_count == old(state)@.id_count + 1,
            Err(e) => r matches Err(err) && err@ == e && final(state)@.deals == old(state)@.deals
                && final(state)@.id_count == old(state)@.id_count,
        },
        forall|x: Id|
            #[trigger] has_id(old(state)@.deals, x) && x != old(state)@.id_count ==> has_id(
                final(state)@.deals,
                x,
            ) && get_deal(final(state)@.deals, x) == get_deal(old(state)@.deals, x),
{
    let ghost deals0 = state@.deals;
    proof {
        state.store.lemma_wf_sorted();
    }
    let paid = match must_pay(&info.funds, msg.offer.denom.as_str()) {
        Ok(a) => a,
        Err(p) => {
            return Err(ContractError::Payment(p));
        },
    };
    if paid != msg.offer.amount {
        return Err(ContractError::InsufficientAmount(paid));
    }
    match validate_native_denom(&msg.ask.denom) {
        Some(e) => {
            return Err(ContractError::Denom(e));
        },
        None => {},
    }
    let lo: u64;
    let hi: u64;
    let first: u64;
    let last: u64;
    match &state.config {
        Some(config) => {
            lo = range_min(&config.duration_range);
            hi = range_max(&config.duration_range);
            first = config.duration_range[0];
            last = config.duration_range[config.duration_range.len() - 1];
        },
        None => {
            return Err(ContractError::Std(StdError::not_found()));
        },
    }
    if !(lo <= msg.duration && msg.duration <= hi) {
        return Err(ContractError::InvalidDuration(first, last));
    }
    let id = next_id(state);
    let deal = Deal {
        id,
        offer: msg.offer,
        seller: info.sender.clone(),
        buyer: None,
        ask: msg.ask,
        status: DealStatus::Open,
        creation_time: env.block.time,
        end_time: env.block.time + msg.duration,
    };
    let ghost dv = deal@;
    state.store.save(id, deal);
    proof {
        lemma_insert_deal_props(deals0, dv);
    }
    let event = Event::new("OtcWasm.v1.MsgCreateDeal").add_attribute(
        "seller",
        info.sender.clone(),
    ).add_attribute("id", u64_to_string(id));
    proof {
        assert(event@.attributes =~= seq![
            ("seller"@, info.sender@),
            ("id"@, dec_digits(id as nat)),
        ]);
    }
    let ghost ev = event@;
    let r = Response::new().add_event(event);
    proof {
        assert(r@.events =~= seq![ev]);
        assert(r@ == create_response(dv.id, info.sender@)) by {
            assert(create_response(dv.id, info.sender@).messages =~= r@.messages);
            assert(create_response(dv.id, info.sender@).events =~= r@.events);
        }
    }
    Ok(r)
}

/// What `update_config` decides: only the configured owner may replace
/// the owner or the duration range; whichever is supplied replaces the
/// stored value. Without a configuration there is nothing to update.
pub open spec fn update_config_outcome(
    cfg: Option<ConfigV>,
    sender: Seq<char>,
    owner: Option<Seq<char>>,
    duration_range: Option<Seq<u64>>,
) -> Result<ConfigV, ContractErrorV> {
    match cfg {
        None => Err(ContractErrorV::Std(StdErrorV::NotFound {})),
        Some(c) => if sender != c.owner {
            Err(ContractErrorV::Unauthorized)
        } else {
            Ok(
                ConfigV {
                    owner: match owner {
                        Some(o) => o,
                        None => c.owner,
                    },
                    duration_range: match duration_range {
                        Some(r) => r,
                        None => c.duration_range,
                    },
                },
            )
        },
    }
}

/// The response of a successful configuration update: one event, no
/// asset movement.
pub open spec fn update_config_response() -> ResponseV {
    ResponseV {
        messages: Seq::empty(),
        events: seq![EventV { ty: "OtcWasm.v1.MsgUpdateConfig"@, attributes: Seq::empty() }],
    }
}

/// Replaces the configuration owner and/or duration range; only the
/// current owner may do so.
pub fn update_config(
    state: &mut State,
    info: MessageInfo,
    owner: Option<String>,
    duration_range: Option<Vec<u64>>,
) -> (r: Result<Response, ContractError>)
    requires
        old(state).wf(),
        update_config_outcome(
            old(state)@.config,
            info.sender@,
            match owner {
                Some(o) => Some(o@),
                None => None,
            },
            match duration_range {
                Some(v) => Some(v@),
                None => None,
            },
        ) is Ok ==> match duration_range {
            Some(v) => v@.len() > 0,
            None => true,
        },
    ensures
        final(state).wf(),
        final(state)@.deals == old(state)@.deals,
        final(state)@.id_count == old(state)@.id_count,
        match update_config_outcome(
            old(state)@.config,
            info.sender@,
            match owner {
                Some(o) => Some(o@),
                None => None,
            },
            match duration_range {
                Some(v) => Some(v@),
                None => None,
            },
        ) {
            Ok(c2) => r matches Ok(resp) && resp@ == update_config_response()
                && final(state)@.config == Some(c2),
            Err(e) => r matches Err(err) && err@ == e
                && final(state)@.config == old(state)@.config,
        },
{
    let authorized: bool = match &state.config {
        Some(c) => info.sender == c.owner,
        None => {
            return Err(ContractError::Std(StdError::not_found()));
        },
    };
    if !authorized {
        return Err(ContractError::Unauthorized);
    }
    if let Some(o) = owner {
        match &mut state.config {
            Some(c) => {
                c.owner = o;
            },
            None => {},
        }
    }
    if let Some(dr) = duration_range {
        match &mut state.config {
            Some(c) => {
                c.duration_range = dr;
            },
            None => {},
        }
    }
    let event = Event::new("OtcWasm.v1.MsgUpdateConfig");
    let ghost ev = event@;
    let r = Response::new().add_event(event);
    proof {
        assert(ev.attributes =~= Seq::<(Seq<char>, Seq<char>)>::empty());
        assert(ev == (EventV {
            ty: "OtcWasm.v1.MsgUpdateConfig"@,
            attributes: Seq::<(Seq<char>, Seq<char>)>::empty(),
        }));
        assert(r@.events =~= seq![ev]);
        assert(r@ == update_config_response()) by {
            assert(update_config_response().messages =~= r@.messages);
            assert(update_config_response().events =~= r@.events);
        }
    }
    Ok(r)
}


/// What a whole lifecycle command decides: the next state and the
/// response on success, or the error, for every command.
pub open spec fn execute_outcome(
    st: StateV,
    now: u64,
    info: MessageInfoV,
    msg: ExecuteMsgV,
) -> Result<(StateV, ResponseV), ContractErrorV> {
    match msg {
        ExecuteMsgV::Claim(id) => match claim_outcome(st.deals, info.sender, id) {
            Ok(d2) => Ok(
                (
                    StateV { deals: update_deal_seq(st.deals, d2), ..st },
                    claim_response(d2, info.sender),
                ),
            ),
            Err(e) => Err(e),
        },
        ExecuteMsgV::Withdraw(id) => match withdraw_outcome(st.deals, now, info.sender, id) {
            Ok(d2) => Ok(
                (
                    StateV { deals: update_deal_seq(st.deals, d2), ..st },
                    withdraw_response(d2, info.sender),
                ),
            ),
            Err(e) => Err(e),
        },
        ExecuteMsgV::CreateDeal(m) => match create_deal_outcome(
            st.config,
            st.id_count,
            now,
            info,
            m,
        ) {
            Ok(d) => Ok(
                (
                    StateV {
                        deals: insert_deal(st.deals, d),
                        id_count: (st.id_count + 1) as u64,
                        config: st.config,
                    },
                    create_response(d.id, info.sender),
                ),
            ),
            Err(e) => Err(e),
        },
        ExecuteMsgV::ExecuteDeal(id) => match execute_deal_outcome(
            st.deals,
            now,
            info.sender,
            info.funds,
            id,
        ) {
            Ok(d2) => Ok(
                (
                    StateV { deals: update_deal_seq(st.deals, d2), ..st },
                    execute_response(d2, info.sender),
                ),
            ),
            Err(e) => Err(e),
        },
        ExecuteMsgV::CancelDeal(id) => match cancel_outcome(st.deals, now, info.sender, id) {
            Ok(d2) => Ok(
                (
                    StateV { deals: update_deal_seq(st.deals, d2), ..st },
                    cancel_response(d2, info.sender),
                ),
            ),
            Err(e) => Err(e),
        },
        ExecuteMsgV::UpdateConfig { owner, duration_range } => match update_config_outcome(
            st.config,
            info.sender,
            owner,
            duration_range,
        ) {
            Ok(c2) => Ok((StateV { config: Some(c2), ..st }, update_config_response())),
            Err(e) => Err(e),
        },
    }
}

/// The machine limits a successful command must respect: a creation
/// needs room in the identifier counter and in the end-time arithmetic,
/// and a configuration update may not install an empty duration range.
pub open spec fn execute_bounds(st: StateV, now: u64, msg: ExecuteMsgV) -> bool {
    match msg {
        ExecuteMsgV::CreateDeal(m) => st.id_count < u64::MAX && now + m.duration <= u64::MAX,
        ExecuteMsgV::UpdateConfig { duration_range, .. } => match duration_range {
            Some(r) => r.len() > 0,
            None => true,
        },
        _ => true,
    }
}

/// Runs one lifecycle command against the state: validates, applies the
/// transition, and returns the transfer instructions and events it
/// implies; on failure the state is left unchanged.
pub fn execute(state: &mut State, env: Env, info: MessageInfo, msg: ExecuteMsg) -> (r: Result<
    Response,
    ContractError,
>)
    requires
        old(state).wf(),
        execute_outcome(old(state)@, env.block.time, info@, msg@) is Ok ==> execute_bounds(
            old(state)@,
            env.block.time,
            msg@,
        ),
    ensures
        final(state).wf(),
        match execute_outcome(old(state)@, env.block.time, info@, msg@) {
            Ok(next) => r matches Ok(resp) && final(state)@ == next.0 && resp@ == next.1,
            Err(e) => r matches Err(err) && err@ == e && final(state)@ == old(state)@,
        },
{
    let ghost st0 = state@;
    match msg {
        ExecuteMsg::Claim(id) => {
            let r = claim(state, info, id);
            proof {
                assert(state@ =~= match execute_outcome(st0, env.block.time, info@, msg@) {
                    Ok(next) => next.0,
                    Err(_) => st0,
                });
            }
            r
        },
        ExecuteMsg::Withdraw(id) => {
            let r = withdraw(state, env, info, id);
            proof {
                assert(state@ =~= match execute_outcome(st0, env.block.time, info@, msg@) {
                    Ok(next) => next.0,
                    Err(_) => st0,
                });
            }
            r
        },
        ExecuteMsg::CreateDeal(created_deal_msg) => {
            let r = create_deal(state, env, info, created_deal_msg);
            proof {
                assert(state@ =~= match execute_outcome(st0, env.block.time, info@, msg@) {
                    Ok(next) => next.0,
                    Err(_) => st0,
                });
            }
            r
        },
        ExecuteMsg::ExecuteDeal(id) => {
            let r = execute_deal(state, env, info, id);
            proof {
                assert(state@ =~= match execute_outcome(st0, env.block.time, info@, msg@) {
                    Ok(next) => next.0,
                    Err(_) => st0,
                });
            }
            r
        },
        ExecuteMsg::CancelDeal(id) => {
            let r = cancel_deal(state, env, info, id);
            proof {
                assert(state@ =~= match execute_outcome(st0, env.block.time, info@, msg@) {
                    Ok(next) => next.0,
                    Err(_) => st0,
                });
            }
            r
        },
        ExecuteMsg::UpdateConfig { owner, duration_range } => {
            let r = update_config(state, info, owner, duration_range);
            proof {
                assert(state@ =~= match execute_outcome(st0, env.block.time, info@, msg@) {
                    Ok(next) => next.0,
                    Err(_) => st0,
                });
            }
            r
        },
    }
}

} // verus!
