//! Lifecycle and query-order laws: what holds of every sequence of
//! transitions and of every page a query returns.

use crate::execute::cancel_outcome;
use crate::execute::claim_outcome;
use crate::execute::create_deal_outcome;
use crate::execute::execute_deal_outcome;
use crate::execute::execute_outcome;
use crate::execute::status_edge_ok;
use crate::execute::withdraw_outcome;
use crate::msg::ExecuteMsgV;
use crate::msg::MessageInfoV;
use crate::response::ResponseV;
use crate::state::DealStatus;
use crate::state::DealV;
use crate::state::Id;
use crate::state::StateV;
use crate::state::after_time_ok;
use crate::state::cursor_ok;
use crate::state::end_key;
use crate::state::end_key_lt;
use crate::state::end_page;
use crate::state::end_pred;
use crate::state::filter_page;
use crate::state::matches_filter;
use crate::state::scan_pred;
use crate::state::get_deal;
use crate::state::has_id;
use crate::state::idx_of;
use crate::state::ids_strictly_sorted;
use crate::state::lemma_get_deal_unique;
use crate::state::lemma_insert_deal_props;
use crate::state::lemma_update_preserves_lookup;
use vstd::prelude::*;

verus! {

/// A history of one deal's status in which every step follows a
/// lifecycle edge.
pub open spec fn edge_path(statuses: Seq<DealStatus>) -> bool {
    forall|k: int|
        0 <= k < statuses.len() - 1 ==> #[trigger] status_edge_ok(statuses[k], statuses[k + 1])
}

/// From a terminal status — Cancelled, Expired or Closed — no sequence
/// of lifecycle steps moves a deal at all. In particular, no sequence of
/// calls reaches Closed from Cancelled or from Expired.
pub proof fn lemma_terminal_status_stays(statuses: Seq<DealStatus>)
    requires
        statuses.len() > 0,
        edge_path(statuses),
        statuses[0] == DealStatus::Cancelled || statuses[0] == DealStatus::Expired || statuses[0]
            == DealStatus::Closed,
    ensures
        forall|k: int| 0 <= k < statuses.len() ==> #[trigger] statuses[k] == statuses[0],
    decreases statuses.len(),
{
    if statuses.len() > 1 {
        let prefix = statuses.drop_last();
        assert(edge_path(prefix)) by {
            assert(forall|k: int| 0 <= k < prefix.len() ==> prefix[k] == statuses[k]);
        }
        lemma_terminal_status_stays(prefix);
        let n = statuses.len() - 1;
        assert(prefix[0] == statuses[0]);
        assert(prefix[n - 1] == statuses[n - 1]);
        assert(prefix[n - 1] == prefix[0]);
        assert(statuses[n - 1] == statuses[0]);
        assert(status_edge_ok(statuses[n - 1], statuses[n - 1 + 1]));
        assert(statuses[n - 1 + 1] == statuses[n]);
        assert(statuses[n] == statuses[0]);
        assert forall|k: int| 0 <= k < statuses.len() implies #[trigger] statuses[k]
            == statuses[0] by {
            if k < n {
                assert(prefix[k] == statuses[k]);
                assert(prefix[k] == prefix[0]);
            }
        }
    }
}

/// One successful lifecycle command moves every stored deal along a
/// lifecycle edge. The one record a creation may rewrite is the one
/// under the identifier it allocates, which is fresh whenever the
/// counter stands above all stored identifiers.
pub proof fn lemma_execute_follows_edges(
    st: StateV,
    now: u64,
    info: MessageInfoV,
    msg: ExecuteMsgV,
    next: (StateV, ResponseV),
)
    requires
        ids_strictly_sorted(st.deals),
        execute_outcome(st, now, info, msg) == Ok::<(StateV, ResponseV), crate::error::ContractErrorV>(next),
    ensures
        forall|x: Id|
            #[trigger] has_id(st.deals, x) && !(msg matches ExecuteMsgV::CreateDeal(_) && x
                == st.id_count) ==> has_id(next.0.deals, x) && status_edge_ok(
                get_deal(st.deals, x).status,
                get_deal(next.0.deals, x).status,
            ),
{
    match msg {
        ExecuteMsgV::Claim(id) => {
            let d2 = claim_outcome(st.deals, info.sender, id)->Ok_0;
            lemma_get_deal_unique(st.deals, id);
            lemma_update_preserves_lookup(st.deals, idx_of(st.deals, id), d2);
            assert forall|x: Id| #[trigger] has_id(st.deals, x) implies has_id(next.0.deals, x)
                && status_edge_ok(
                get_deal(st.deals, x).status,
                get_deal(next.0.deals, x).status,
            ) by {
                if x != id {
                    assert(get_deal(next.0.deals, x) == get_deal(st.deals, x));
                }
            }
        },
        ExecuteMsgV::Withdraw(id) => {
            let d2 = withdraw_outcome(st.deals, now, info.sender, id)->Ok_0;
            lemma_get_deal_unique(st.deals, id);
            lemma_update_preserves_lookup(st.deals, idx_of(st.deals, id), d2);
            assert forall|x: Id| #[trigger] has_id(st.deals, x) implies has_id(next.0.deals, x)
                && status_edge_ok(
                get_deal(st.deals, x).status,
                get_deal(next.0.deals, x).status,
            ) by {
                if x != id {
                    assert(get_deal(next.0.deals, x) == get_deal(st.deals, x));
                }
            }
        },
        ExecuteMsgV::ExecuteDeal(id) => {
            let d2 = execute_deal_outcome(st.deals, now, info.sender, info.funds, id)->Ok_0;
            lemma_get_deal_unique(st.deals, id);
            lemma_update_preserves_lookup(st.deals, idx_of(st.deals, id), d2);
            assert forall|x: Id| #[trigger] has_id(st.deals, x) implies has_id(next.0.deals, x)
                && status_edge_ok(
                get_deal(st.deals, x).status,
                get_deal(next.0.deals, x).status,
            ) by {
                if x != id {
                    assert(get_deal(next.0.deals, x) == get_deal(st.deals, x));
                }
            }
        },
        ExecuteMsgV::CancelDeal(id) => {
            let d2 = cancel_outcome(st.deals, now, info.sender, id)->Ok_0;
            lemma_get_deal_unique(st.deals, id);
            lemma_update_preserves_lookup(st.deals, idx_of(st.deals, id), d2);
            assert forall|x: Id| #[trigger] has_id(st.deals, x) implies has_id(next.0.deals, x)
                && status_edge_ok(
                get_deal(st.deals, x).status,
                get_deal(next.0.deals, x).status,
            ) by {
                if x != id {
                    assert(get_deal(next.0.deals, x) == get_deal(st.deals, x));
                }
            }
        },
        ExecuteMsgV::CreateDeal(m) => {
            let d = create_deal_outcome(st.config, st.id_count, now, info, m)->Ok_0;
            lemma_insert_deal_props(st.deals, d);
            assert forall|x: Id| #[trigger] has_id(st.deals, x) && x != st.id_count implies has_id(
                next.0.deals,
                x,
            ) && status_edge_ok(
                get_deal(st.deals, x).status,
                get_deal(next.0.deals, x).status,
            ) by {
                assert(d.id == st.id_count);
                assert(get_deal(next.0.deals, x) == get_deal(st.deals, x));
            }
        },
        ExecuteMsgV::UpdateConfig { .. } => {
            assert(next.0.deals == st.deals);
        },
    }
}


/// Filtering keeps any strict pairwise order of the sequence, and keeps
/// only elements of the sequence.
proof fn lemma_filter_keeps_order(
    s: Seq<DealV>,
    pred: spec_fn(DealV) -> bool,
    lt: spec_fn(DealV, DealV) -> bool,
)
    requires
        forall|i: int, j: int| 0 <= i < j < s.len() ==> #[trigger] lt(s[i], s[j]),
    ensures
        forall|i: int, j: int|
            0 <= i < j < s.filter(pred).len() ==> #[trigger] lt(
                s.filter(pred)[i],
                s.filter(pred)[j],
            ),
        forall|i: int| 0 <= i < s.filter(pred).len() ==> s.contains(#[trigger] s.filter(pred)[i]),
    decreases s.len(),
{
    reveal(Seq::filter);
    if s.len() > 0 {
        let pre = s.drop_last();
        assert(forall|i: int, j: int| 0 <= i < j < pre.len() ==> #[trigger] lt(pre[i], pre[j]));
        lemma_filter_keeps_order(pre, pred, lt);
        let m0 = pre.filter(pred);
        assert forall|i: int| 0 <= i < m0.len() implies s.contains(#[trigger] m0[i]) by {
            assert(pre.contains(m0[i]));
            let k = choose|k: int| 0 <= k < pre.len() && pre[k] == m0[i];
            assert(s[k] == m0[i]);
        }
        if pred(s.last()) {
            let m = m0.push(s.last());
            assert(s.filter(pred) == m);
            assert forall|i: int, j: int| 0 <= i < j < m.len() implies #[trigger] lt(
                m[i],
                m[j],
            ) by {
                if j == m.len() - 1 {
                    assert(pre.contains(m0[i]));
                    let k = choose|k: int| 0 <= k < pre.len() && pre[k] == m0[i];
                    assert(lt(s[k], s[s.len() - 1]));
                }
            }
            assert forall|i: int| 0 <= i < m.len() implies s.contains(#[trigger] m[i]) by {
                if i < m.len() - 1 {
                    assert(s.contains(m0[i]));
                } else {
                    assert(s[s.len() - 1] == m[i]);
                }
            }
        }
    }
}

/// The page of a filtered query over an ordered table is correctly
/// scoped, ordered and paginated: it holds at most `limit` deals, each a
/// stored deal matching the filters and past the cursor, in strictly
/// increasing identifier order when scanning ascending and strictly
/// decreasing order when scanning descending.
pub proof fn lemma_filter_page_ordered(
    s: Seq<DealV>,
    seller: Option<Seq<char>>,
    status: Option<DealStatus>,
    descending: bool,
    start_after: Option<Id>,
    limit: int,
)
    requires
        ids_strictly_sorted(s),
        0 <= limit,
    ensures
        filter_page(s, seller, status, descending, start_after, limit).len() <= limit,
        forall|k: int|
            0 <= k < filter_page(s, seller, status, descending, start_after, limit).len()
                ==> s.contains(
                #[trigger] filter_page(s, seller, status, descending, start_after, limit)[k],
            ) && matches_filter(
                filter_page(s, seller, status, descending, start_after, limit)[k],
                seller,
                status,
            ) && cursor_ok(
                filter_page(s, seller, status, descending, start_after, limit)[k],
                descending,
                start_after,
            ),
        !descending ==> forall|i: int, j: int|
            0 <= i < j < filter_page(s, seller, status, descending, start_after, limit).len()
                ==> (#[trigger] filter_page(s, seller, status, descending, start_after, limit)[i]).id
                < (#[trigger] filter_page(s, seller, status, descending, start_after, limit)[j]).id,
        descending ==> forall|i: int, j: int|
            0 <= i < j < filter_page(s, seller, status, descending, start_after, limit).len()
                ==> (#[trigger] filter_page(s, seller, status, descending, start_after, limit)[i]).id
                > (#[trigger] filter_page(s, seller, status, descending, start_after, limit)[j]).id,
{
    let pred = scan_pred(seller, status, descending, start_after);
    let idlt = |a: DealV, b: DealV| a.id < b.id;
    assert(forall|i: int, j: int| 0 <= i < j < s.len() ==> #[trigger] idlt(s[i], s[j]));
    lemma_filter_keeps_order(s, pred, idlt);
    let m = s.filter(pred);
    broadcast use Seq::lemma_filter_pred;

    let page = filter_page(s, seller, status, descending, start_after, limit);
    if descending {
        let o = m.reverse();
        assert(forall|k: int| 0 <= k < o.len() ==> #[trigger] o[k] == m[m.len() - 1 - k]);
        assert(forall|k: int| 0 <= k < page.len() ==> #[trigger] page[k] == o[k]);
        assert forall|k: int| 0 <= k < page.len() implies s.contains(#[trigger] page[k])
            && matches_filter(page[k], seller, status) && cursor_ok(
            page[k],
            descending,
            start_after,
        ) by {
            assert(page[k] == m[m.len() - 1 - k]);
            assert(pred(m[m.len() - 1 - k]));
        }
        assert forall|i: int, j: int| 0 <= i < j < page.len() implies (#[trigger] page[i]).id
            > (#[trigger] page[j]).id by {
            assert(idlt(m[m.len() - 1 - j], m[m.len() - 1 - i]));
        }
    } else {
        assert(forall|k: int| 0 <= k < page.len() ==> #[trigger] page[k] == m[k]);
        assert forall|k: int| 0 <= k < page.len() implies s.contains(#[trigger] page[k])
            && matches_filter(page[k], seller, status) && cursor_ok(
            page[k],
            descending,
            start_after,
        ) by {
            assert(pred(m[k]));
        }
        assert forall|i: int, j: int| 0 <= i < j < page.len() implies (#[trigger] page[i]).id
            < (#[trigger] page[j]).id by {
            assert(idlt(m[i], m[j]));
        }
    }
}

/// The page of an expiration query over a consistent store is correctly
/// scoped, ordered and paginated: it holds at most `limit` stored deals,
/// each past the time bound when one is given, in strictly increasing
/// (expiration time, identifier) order when scanning ascending and
/// strictly decreasing order when scanning descending.
pub proof fn lemma_end_page_ordered(
    store: &crate::state::DealStore,
    after_time: Option<u64>,
    descending: bool,
    limit: int,
)
    requires
        store.wf(),
        0 <= limit,
    ensures
        end_page(store.end_ordered(), after_time, descending, limit).len() <= limit,
        forall|k: int|
            0 <= k < end_page(store.end_ordered(), after_time, descending, limit).len()
                ==> store@.contains(
                #[trigger] end_page(store.end_ordered(), after_time, descending, limit)[k],
            ) && after_time_ok(
                end_page(store.end_ordered(), after_time, descending, limit)[k],
                after_time,
            ),
        !descending ==> forall|i: int, j: int|
            0 <= i < j < end_page(store.end_ordered(), after_time, descending, limit).len()
                ==> end_key_lt(
                end_key(#[trigger] end_page(store.end_ordered(), after_time, descending, limit)[i]),
                end_key(#[trigger] end_page(store.end_ordered(), after_time, descending, limit)[j]),
            ),
        descending ==> forall|i: int, j: int|
            0 <= i < j < end_page(store.end_ordered(), after_time, descending, limit).len()
                ==> end_key_lt(
                end_key(#[trigger] end_page(store.end_ordered(), after_time, descending, limit)[j]),
                end_key(#[trigger] end_page(store.end_ordered(), after_time, descending, limit)[i]),
            ),
{
    let eo = store.end_ordered();
    store.lemma_end_ordered();
    let pred = end_pred(after_time);
    let keylt = |a: DealV, b: DealV| end_key_lt(end_key(a), end_key(b));
    assert(forall|i: int, j: int| 0 <= i < j < eo.len() ==> #[trigger] keylt(eo[i], eo[j]));
    lemma_filter_keeps_order(eo, pred, keylt);
    let m = eo.filter(pred);
    let page = end_page(eo, after_time, descending, limit);
    assert forall|k: int| 0 <= k < m.len() implies store@.contains(#[trigger] m[k]) by {
        assert(eo.contains(m[k]));
        let i = choose|i: int| 0 <= i < eo.len() && eo[i] == m[k];
        assert(has_id(store@, eo[i].id) && get_deal(store@, eo[i].id) == eo[i]);
        let j = idx_of(store@, eo[i].id);
        assert(store@[j] == eo[i]);
    }
    broadcast use Seq::lemma_filter_pred;

    if descending {
        let o = m.reverse();
        assert(forall|k: int| 0 <= k < o.len() ==> #[trigger] o[k] == m[m.len() - 1 - k]);
        assert(forall|k: int| 0 <= k < page.len() ==> #[trigger] page[k] == o[k]);
        assert forall|k: int| 0 <= k < page.len() implies store@.contains(#[trigger] page[k])
            && after_time_ok(page[k], after_time) by {
            assert(page[k] == m[m.len() - 1 - k]);
            assert(pred(m[m.len() - 1 - k]));
        }
        assert forall|i: int, j: int| 0 <= i < j < page.len() implies end_key_lt(
            end_key(#[trigger] page[j]),
            end_key(#[trigger] page[i]),
        ) by {
            assert(keylt(m[m.len() - 1 - j], m[m.len() - 1 - i]));
        }
    } else {
        assert(forall|k: int| 0 <= k < page.len() ==> #[trigger] page[k] == m[k]);
        assert forall|k: int| 0 <= k < page.len() implies store@.contains(#[trigger] page[k])
            && after_time_ok(page[k], after_time) by {
            assert(pred(m[k]));
        }
        assert forall|i: int, j: int| 0 <= i < j < page.len() implies end_key_lt(
            end_key(#[trigger] page[i]),
            end_key(#[trigger] page[j]),
        ) by {
            assert(keylt(m[i], m[j]));
        }
    }
}

} // verus!
