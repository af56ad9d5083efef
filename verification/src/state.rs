//! Core data model: coins, deals, configuration, and the deal store.
//!
//! The store owns the primary table of deals (kept sorted by identifier)
//! together with a secondary index ordered by expiration time, and keeps
//! the two consistent on every mutation.

use crate::error::StdError;
use crate::error::StdErrorV;
use vstd::pervasive::unreached;
use vstd::prelude::*;

verus! {

/// A deal identifier: a positive integer, issued in increasing order.
pub type Id = u64;

/// Lifecycle status of a deal.
#[derive(Clone, Copy, Debug, PartialEq, Eq, Structural)]
pub enum DealStatus {
    Open,
    Claimable,
    Cancelled,
    Closed,
    Expired,
}

impl DealStatus {
    /// The fixed string token used to index deals by status.
    pub open spec fn token(self) -> Seq<char> {
        match self {
            DealStatus::Open => "open"@,
            DealStatus::Closed => "closed"@,
            DealStatus::Claimable => "claimable"@,
            DealStatus::Cancelled => "cancelled"@,
            DealStatus::Expired => "expired"@,
        }
    }

    /// Renders the status as its index token.
    pub fn as_string(&self) -> (r: String)
        ensures
            r@ == self.token(),
    {
        match self {
            DealStatus::Open => "open".to_owned(),
            DealStatus::Closed => "closed".to_owned(),
            DealStatus::Claimable => "claimable".to_owned(),
            DealStatus::Cancelled => "cancelled".to_owned(),
            DealStatus::Expired => "expired".to_owned(),
        }
    }
}

/// An asset amount together with its denomination.
#[derive(Debug, PartialEq, Eq)]
pub struct Coin {
    pub denom: String,
    pub amount: u128,
}

/// Mathematical value of a [`Coin`].
pub struct CoinV {
    pub denom: Seq<char>,
    pub amount: u128,
}

impl View for Coin {
    type V = CoinV;

    open spec fn view(&self) -> CoinV {
        CoinV { denom: self.denom@, amount: self.amount }
    }
}

impl Clone for Coin {
    fn clone(&self) -> (r: Self)
        ensures
            r == *self,
    {
        Coin { denom: self.denom.clone(), amount: self.amount }
    }
}

/// Builds a coin from an amount and a denomination.
pub fn coin(amount: u128, denom: &str) -> (r: Coin)
    ensures
        r@.amount == amount,
        r@.denom == denom@,
{
    Coin { denom: denom.to_owned(), amount }
}

/// One escrow agreement between a seller's offered asset and a buyer's
/// asked asset. Times are in seconds.
#[derive(Debug)]
pub struct Deal {
    pub id: Id,
    pub seller: String,
    pub buyer: Option<String>,
    pub offer: Coin,
    pub ask: Coin,
    pub status: DealStatus,
    pub creation_time: u64,
    pub end_time: u64,
}

/// Mathematical value of a [`Deal`].
pub struct DealV {
    pub id: Id,
    pub seller: Seq<char>,
    pub buyer: Option<Seq<char>>,
    pub offer: CoinV,
    pub ask: CoinV,
    pub status: DealStatus,
    pub creation_time: u64,
    pub end_time: u64,
}

impl View for Deal {
    type V = DealV;

    open spec fn view(&self) -> DealV {
        DealV {
            id: self.id,
            seller: self.seller@,
            buyer: match self.buyer {
                Some(b) => Some(b@),
                None => None,
            },
            offer: self.offer@,
            ask: self.ask@,
            status: self.status,
            creation_time: self.creation_time,
            end_time: self.end_time,
        }
    }
}

impl Clone for Deal {
    fn clone(&self) -> (r: Self)
        ensures
            r@ == self@,
    {
        Deal {
            id: self.id,
            seller: self.seller.clone(),
            buyer: match &self.buyer {
                Some(b) => Some(b.clone()),
                None => None,
            },
            offer: self.offer.clone(),
            ask: self.ask.clone(),
            status: self.status,
            creation_time: self.creation_time,
            end_time: self.end_time,
        }
    }
}

/// Process-wide configuration: the owner allowed to change it, and the
/// range of durations (in seconds) a deal may be open for.
#[derive(Debug)]
pub struct Config {
    pub owner: String,
    /// Range of time in seconds that a deal can be open.
    pub duration_range: Vec<u64>,
}

/// Mathematical value of a [`Config`].
pub struct ConfigV {
    pub owner: Seq<char>,
    pub duration_range: Seq<u64>,
}

impl View for Config {
    type V = ConfigV;

    open spec fn view(&self) -> ConfigV {
        ConfigV { owner: self.owner@, duration_range: self.duration_range@ }
    }
}

impl Clone for Config {
    fn clone(&self) -> (r: Self)
        ensures
            r@ == self@,
    {
        Config { owner: self.owner.clone(), duration_range: self.duration_range.clone() }
    }
}

impl ConfigV {
    /// A configuration is well formed when its duration range names at
    /// least one bound; with an empty range no deal could ever be created
    /// and the reported bounds would be meaningless.
    pub open spec fn wf(self) -> bool {
        self.duration_range.len() > 0
    }
}

/// The mathematical values of a sequence of stored deals.
pub open spec fn deals_view(s: Seq<Deal>) -> Seq<DealV> {
    s.map_values(|d: Deal| d@)
}

/// The mathematical values of a sequence of coins.
pub open spec fn coins_view(s: Seq<Coin>) -> Seq<CoinV> {
    s.map_values(|c: Coin| c@)
}

/// Is a deal with this identifier present?
pub open spec fn has_id(s: Seq<DealV>, id: Id) -> bool {
    exists|j: int| 0 <= j < s.len() && s[j].id == id
}

/// Position of the deal with this identifier (meaningful under `has_id`).
pub open spec fn idx_of(s: Seq<DealV>, id: Id) -> int {
    choose|j: int| 0 <= j < s.len() && s[j].id == id
}

/// The deal with this identifier (meaningful under `has_id`).
pub open spec fn get_deal(s: Seq<DealV>, id: Id) -> DealV {
    s[idx_of(s, id)]
}

/// The primary table is ordered by strictly increasing identifier, which
/// also makes identifiers unique.
pub open spec fn ids_strictly_sorted(s: Seq<DealV>) -> bool {
    forall|i: int, j: int| 0 <= i < j < s.len() ==> s[i].id < s[j].id
}

/// The table after storing `d` under its identifier: an existing record
/// with the same identifier is replaced, otherwise `d` is inserted at its
/// ordered position.
pub open spec fn insert_deal(s: Seq<DealV>, d: DealV) -> Seq<DealV>
    decreases s.len(),
{
    if s.len() == 0 {
        seq![d]
    } else if d.id < s[0].id {
        seq![d] + s
    } else if d.id == s[0].id {
        seq![d] + s.drop_first()
    } else {
        seq![s[0]] + insert_deal(s.drop_first(), d)
    }
}

/// The ordered position a fresh identifier would take in the table.
pub open spec fn pos_of(s: Seq<DealV>, id: Id) -> int
    decreases s.len(),
{
    if s.len() == 0 {
        0
    } else if s[0].id >= id {
        0
    } else {
        1 + pos_of(s.drop_first(), id)
    }
}

/// `pos_of` splits an ordered table at the given identifier.
pub proof fn lemma_pos_of(s: Seq<DealV>, id: Id)
    requires
        ids_strictly_sorted(s),
    ensures
        0 <= pos_of(s, id) <= s.len(),
        forall|k: int| 0 <= k < pos_of(s, id) ==> s[k].id < id,
        pos_of(s, id) < s.len() ==> s[pos_of(s, id)].id >= id,
    decreases s.len(),
{
    if s.len() == 0 {
    } else if s[0].id >= id {
    } else {
        let rest = s.drop_first();
        assert(ids_strictly_sorted(rest));
        lemma_pos_of(rest, id);
        assert forall|k: int| 0 <= k < pos_of(s, id) implies s[k].id < id by {
            if k > 0 {
                assert(rest[k - 1].id < id);
            }
        }
    }
}

/// How storing a record changes lookups: the stored identifier now
/// denotes the new record, every other identifier is untouched, and the
/// table stays ordered.
pub proof fn lemma_insert_deal_props(s: Seq<DealV>, d: DealV)
    requires
        ids_strictly_sorted(s),
    ensures
        ids_strictly_sorted(insert_deal(s, d)),
        has_id(insert_deal(s, d), d.id),
        get_deal(insert_deal(s, d), d.id) == d,
        forall|x: Id| #[trigger] has_id(s, x) && x != d.id ==> has_id(insert_deal(s, d), x),
        forall|x: Id|
            #[trigger] has_id(s, x) && x != d.id ==> get_deal(insert_deal(s, d), x) == get_deal(
                s,
                x,
            ),
        forall|x: Id| x != d.id && #[trigger] has_id(insert_deal(s, d), x) ==> has_id(s, x),
{
    if has_id(s, d.id) {
        lemma_insert_existing(s, d);
        let p = idx_of(s, d.id);
        lemma_get_deal_unique(s, d.id);
        lemma_update_preserves_lookup(s, p, d);
    } else {
        let p = pos_of(s, d.id);
        lemma_pos_of(s, d.id);
        assert(p < s.len() ==> s[p].id != d.id);
        lemma_insert_deal_shape(s, d, p);
        assert(insert_deal(s, d) == s.insert(p, d));
        lemma_insert_preserves_lookup(s, p, d);
    }
}

/// Key of the expiration index: expiration time, tie-broken by identifier.
pub open spec fn end_key(d: DealV) -> (u64, u64) {
    (d.end_time, d.id)
}

/// Strict lexicographic order on expiration-index keys.
pub open spec fn end_key_lt(a: (u64, u64), b: (u64, u64)) -> bool {
    a.0 < b.0 || (a.0 == b.0 && a.1 < b.1)
}

/// Strict ordering of a whole expiration index.
pub open spec fn end_keys_sorted(s: Seq<(u64, u64)>) -> bool {
    forall|i: int, j: int| 0 <= i < j < s.len() ==> end_key_lt(s[i], s[j])
}

/// In a table with unique identifiers, any position holding `id` holds
/// the deal `get_deal` denotes.
pub proof fn lemma_get_deal_unique(s: Seq<DealV>, id: Id)
    requires
        ids_strictly_sorted(s),
        has_id(s, id),
    ensures
        forall|j: int|
            0 <= j < s.len() && s[j].id == id ==> s[j] == get_deal(s, id) && j == idx_of(s, id),
{
    let k = idx_of(s, id);
    assert(0 <= k < s.len() && s[k].id == id);
    assert forall|j: int|
        0 <= j < s.len() && s[j].id == id implies s[j] == get_deal(s, id) && j == idx_of(
        s,
        id,
    ) by {
        if j < k {
            assert(s[j].id < s[k].id);
        } else if k < j {
            assert(s[k].id < s[j].id);
        }
    }
}

/// Saving a record whose identifier is already present is a positional
/// update of the table.
pub proof fn lemma_insert_existing(s: Seq<DealV>, d: DealV)
    requires
        ids_strictly_sorted(s),
        has_id(s, d.id),
    ensures
        insert_deal(s, d) == s.update(idx_of(s, d.id), d),
{
    let p = idx_of(s, d.id);
    lemma_get_deal_unique(s, d.id);
    assert(0 <= p < s.len() && s[p].id == d.id);
    assert(forall|k: int| 0 <= k < p ==> s[k].id < s[p].id);
    lemma_insert_deal_shape(s, d, p);
}

/// Relates `insert_deal` to a positional update or insertion once the
/// ordered position of the identifier is known.
proof fn lemma_insert_deal_shape(s: Seq<DealV>, d: DealV, p: int)
    requires
        ids_strictly_sorted(s),
        0 <= p <= s.len(),
        forall|k: int| 0 <= k < p ==> s[k].id < d.id,
        p < s.len() ==> d.id <= s[p].id,
    ensures
        p < s.len() && s[p].id == d.id ==> insert_deal(s, d) == s.update(p, d),
        (p == s.len() || d.id < s[p].id) ==> insert_deal(s, d) == s.insert(p, d),
    decreases s.len(),
{
    if s.len() == 0 {
        assert(insert_deal(s, d) =~= s.insert(0, d));
    } else if p == 0 {
        if s[0].id == d.id {
            assert(insert_deal(s, d) =~= s.update(0, d));
        } else {
            assert(insert_deal(s, d) =~= s.insert(0, d));
        }
    } else {
        let rest = s.drop_first();
        assert(ids_strictly_sorted(rest));
        assert(forall|k: int| 0 <= k < p - 1 ==> rest[k].id < d.id);
        lemma_insert_deal_shape(rest, d, p - 1);
        assert(s[0].id < d.id);
        if p < s.len() && s[p].id == d.id {
            assert(insert_deal(s, d) =~= s.update(p, d));
        } else {
            assert(insert_deal(s, d) =~= s.insert(p, d));
        }
    }
}
/// The consistency contract between a primary table and an expiration
/// index: the table is ordered by identifier and the index holds exactly
/// one ordered (end time, identifier) key per record.
pub open spec fn store_inv(table: Seq<DealV>, index: Seq<(u64, u64)>) -> bool {
    &&& ids_strictly_sorted(table)
    &&& index.len() == table.len()
    &&& end_keys_sorted(index)
    &&& forall|i: int|
        0 <= i < index.len() ==> has_id(table, (#[trigger] index[i]).1) && get_deal(
            table,
            index[i].1,
        ).end_time == index[i].0
    &&& forall|j: int|
        0 <= j < table.len() ==> exists|i: int|
            0 <= i < index.len() && index[i] == end_key(#[trigger] table[j])
}

/// The halfway point of a save: the table already holds `d`, the index
/// still lacks its key but matches every other record.
spec fn mid_inv(table: Seq<DealV>, index: Seq<(u64, u64)>, d: DealV) -> bool {
    &&& ids_strictly_sorted(table)
    &&& index.len() == table.len() - 1
    &&& end_keys_sorted(index)
    &&& forall|i: int|
        0 <= i < index.len() ==> (#[trigger] index[i]).1 != d.id && has_id(table, index[i].1)
            && get_deal(table, index[i].1).end_time == index[i].0
    &&& forall|j: int|
        0 <= j < table.len() && (#[trigger] table[j]).id != d.id ==> exists|i: int|
            0 <= i < index.len() && index[i] == end_key(table[j])
    &&& has_id(table, d.id)
    &&& get_deal(table, d.id) == d
}

/// The durable deal store: the primary table of deals ordered by
/// identifier, plus a secondary index ordered by (expiration time,
/// identifier). Every mutation maintains both together.
#[derive(Debug)]
pub struct DealStore {
    deals: Vec<Deal>,
    by_end: Vec<(u64, u64)>,
}

impl View for DealStore {
    type V = Seq<DealV>;

    closed spec fn view(&self) -> Seq<DealV> {
        deals_view(self.deals@)
    }
}

impl DealStore {
    /// The expiration index: one key per stored deal, in strict
    /// lexicographic order.
    pub closed spec fn end_index(&self) -> Seq<(u64, u64)> {
        self.by_end@
    }

    /// Internal consistency of the store.
    pub closed spec fn wf(&self) -> bool {
        store_inv(self@, self.by_end@)
    }

    /// A consistent store keeps its primary table in strictly increasing
    /// identifier order.
    pub proof fn lemma_wf_sorted(&self)
        requires
            self.wf(),
        ensures
            ids_strictly_sorted(self@),
    {
    }

    /// An empty store.
    pub fn new() -> (r: DealStore)
        ensures
            r.wf(),
            r@ == Seq::<DealV>::empty(),
    {
        let r = DealStore { deals: Vec::new(), by_end: Vec::new() };
        proof {
            assert(r@ =~= Seq::<DealV>::empty());
        }
        r
    }

    /// Number of stored deals.
    pub fn len(&self) -> (n: usize)
        ensures
            n == self@.len(),
    {
        self.deals.len()
    }

    /// First position in the primary table whose identifier is not below
    /// `id`.
    fn find_pos(&self, id: Id) -> (p: usize)
        requires
            ids_strictly_sorted(self@),
        ensures
            p <= self@.len(),
            forall|k: int| 0 <= k < p ==> self@[k].id < id,
            p < self@.len() ==> self@[p as int].id >= id,
    {
        proof {
            assert(forall|k: int|
                0 <= k < self.deals@.len() ==> (#[trigger] self@[k]).id == self.deals@[k].id);
        }
        let mut i: usize = 0;
        while i < self.deals.len() && self.deals[i].id < id
            invariant
                i <= self@.len(),
                forall|k: int| 0 <= k < i ==> self@[k].id < id,
                forall|k: int|
                    0 <= k < self.deals@.len() ==> (#[trigger] self@[k]).id == self.deals@[k].id,
            decreases self@.len() - i,
        {
            i = i + 1;
        }
        i
    }

    /// The deal at a position of the identifier-ordered table.
    pub fn deal_at(&self, i: usize) -> (r: &Deal)
        requires
            i < self@.len(),
        ensures
            r@ == self@[i as int],
    {
        proof {
            assert(self@[i as int] == self.deals@[i as int]@);
        }
        &self.deals[i]
    }

    /// Reads the deal stored under `id`; absence is an error.
    pub fn load(&self, id: Id) -> (r: Result<Deal, StdError>)
        requires
            self.wf(),
        ensures
            match r {
                Ok(d) => has_id(self@, id) && d@ == get_deal(self@, id),
                Err(e) => !has_id(self@, id) && e@ == (StdErrorV::NotFound {}),
            },
    {
        let p = self.find_pos(id);
        if p < self.deals.len() && self.deals[p].id == id {
            proof {
                assert(self@[p as int].id == id);
                assert(has_id(self@, id));
                lemma_get_deal_unique(self@, id);
            }
            Ok(self.deals[p].clone())
        } else {
            proof {
                assert forall|j: int| 0 <= j < self@.len() implies self@[j].id != id by {
                    if j < p as int {
                        assert(self@[j].id < id);
                    } else if (p as int) < self@.len() && j > p as int {
                        assert(self@[p as int].id < self@[j].id);
                    }
                }
            }
            Err(StdError::not_found())
        }
    }

    /// Stores `deal` under `id`, replacing any record with the same
    /// identifier, and maintains the expiration index in the same step.
    #[verifier::rlimit(50)]
    pub fn save(&mut self, id: Id, deal: Deal)
        requires
            old(self).wf(),
            deal.id == id,
        ensures
            final(self).wf(),
            final(self)@ == insert_deal(old(self)@, deal@),
    {
        let ghost s0 = self@;
        let ghost index0 = self.by_end@;
        let ghost dv = deal@;
        let d_end = deal.end_time;
        proof {
            assert(forall|k: int|
                0 <= k < self.deals@.len() ==> #[trigger] s0[k] == self.deals@[k]@);
        }
        let p = self.find_pos(id);
        proof {
            lemma_insert_deal_shape(s0, dv, p as int);
        }
        if p < self.deals.len() && self.deals[p].id == id {
            let old_end = self.deals[p].end_time;
            proof {
                assert(s0[p as int].id == id);
                assert(has_id(s0, id));
                lemma_get_deal_unique(s0, id);
                assert(get_deal(s0, id) == s0[p as int]);
                assert(s0[p as int].end_time == old_end);
            }
            let q = find_end_pos(&self.by_end, (old_end, id));
            proof {
                lemma_end_key_present(index0, s0, (old_end, id), q as int);
            }
            self.by_end.remove(q);
            self.deals.remove(p);
            self.deals.insert(p, deal);
            proof {
                assert(self@ =~= s0.update(p as int, dv));
                lemma_replace_mid(s0, index0, p as int, q as int, dv);
            }
        } else {
            self.deals.insert(p, deal);
            proof {
                assert(p < s0.len() ==> s0[p as int].id > id);
                assert(self@ =~= s0.insert(p as int, dv));
                lemma_insert_mid(s0, index0, p as int, dv);
            }
        }
        let r = find_end_pos(&self.by_end, (d_end, id));
        proof {
            assert((d_end, id) == end_key(dv));
            lemma_index_insert_wf(self@, self.by_end@, dv, r as int);
        }
        self.by_end.insert(r, (d_end, id));
    }
}

/// First position in an ordered expiration index whose key is not below
/// `key`.
fn find_end_pos(v: &Vec<(u64, u64)>, key: (u64, u64)) -> (p: usize)
    requires
        end_keys_sorted(v@),
    ensures
        p <= v@.len(),
        forall|k: int| 0 <= k < p ==> end_key_lt(#[trigger] v@[k], key),
        p < v@.len() ==> !end_key_lt(v@[p as int], key),
{
    let mut i: usize = 0;
    while i < v.len() && (v[i].0 < key.0 || (v[i].0 == key.0 && v[i].1 < key.1))
        invariant
            i <= v@.len(),
            forall|k: int| 0 <= k < i ==> end_key_lt(#[trigger] v@[k], key),
        decreases v@.len() - i,
    {
        i = i + 1;
    }
    i
}

/// In a consistent store, the key of a stored deal sits exactly at the
/// position `find_end_pos` reports for it.
proof fn lemma_end_key_present(index: Seq<(u64, u64)>, table: Seq<DealV>, key: (u64, u64), q: int)
    requires
        store_inv(table, index),
        has_id(table, key.1),
        get_deal(table, key.1).end_time == key.0,
        0 <= q <= index.len(),
        forall|k: int| 0 <= k < q ==> end_key_lt(#[trigger] index[k], key),
        q < index.len() ==> !end_key_lt(index[q], key),
    ensures
        q < index.len(),
        index[q] == key,
{
    let j = idx_of(table, key.1);
    lemma_get_deal_unique(table, key.1);
    assert(0 <= j < table.len() && table[j].id == key.1);
    assert(end_key(table[j]) == key);
    let i = choose|i: int| 0 <= i < index.len() && index[i] == end_key(table[j]);
    assert(index[i] == key);
    if i < q {
        assert(end_key_lt(index[i], key));
        assert(false);
    } else if q < i {
        assert(end_key_lt(index[q], index[i]));
        assert(false);
    }
}

/// After replacing the record at `p` (same identifier) and removing its
/// old key at `q`, the table and the remaining index are at the halfway
/// point of a save.
proof fn lemma_replace_mid(s0: Seq<DealV>, index0: Seq<(u64, u64)>, p: int, q: int, d: DealV)
    requires
        store_inv(s0, index0),
        0 <= p < s0.len(),
        s0[p].id == d.id,
        0 <= q < index0.len(),
        index0[q] == end_key(s0[p]),
    ensures
        mid_inv(s0.update(p, d), index0.remove(q), d),
{
    let table = s0.update(p, d);
    let index1 = index0.remove(q);
    lemma_update_preserves_lookup(s0, p, d);
    assert(index1.len() == index0.len() - 1);
    assert(forall|k: int| 0 <= k < q ==> index1[k] == index0[k]);
    assert(forall|k: int| q <= k < index1.len() ==> index1[k] == index0[k + 1]);
    assert(end_keys_sorted(index1)) by {
        assert forall|i: int, j: int| 0 <= i < j < index1.len() implies end_key_lt(
            index1[i],
            index1[j],
        ) by {
            let i0 = if i < q { i } else { i + 1 };
            let j0 = if j < q { j } else { j + 1 };
            assert(end_key_lt(index0[i0], index0[j0]));
        }
    }
    lemma_get_deal_unique(s0, d.id);
    assert(get_deal(s0, d.id) == s0[p]);
    assert forall|i: int| 0 <= i < index1.len() implies (#[trigger] index1[i]).1 != d.id && has_id(
        table,
        index1[i].1,
    ) && get_deal(table, index1[i].1).end_time == index1[i].0 by {
        let i0 = if i < q { i } else { i + 1 };
        assert(index1[i] == index0[i0]);
        let e = index0[i0];
        assert(has_id(s0, e.1) && get_deal(s0, e.1).end_time == e.0);
        if e.1 == d.id {
            assert(e.0 == s0[p].end_time);
            assert(e == index0[q]);
            if i0 < q {
                assert(end_key_lt(index0[i0], index0[q]));
            } else {
                assert(end_key_lt(index0[q], index0[i0]));
            }
            assert(false);
        }
        assert(get_deal(table, e.1) == get_deal(s0, e.1));
    }
    assert forall|j: int| 0 <= j < table.len() && (#[trigger] table[j]).id != d.id implies exists|
        i: int,
    | 0 <= i < index1.len() && index1[i] == end_key(table[j]) by {
        assert(j != p);
        assert(table[j] == s0[j]);
        let i0 = choose|i: int| 0 <= i < index0.len() && index0[i] == end_key(s0[j]);
        assert(index0[i0].1 == s0[j].id);
        assert(i0 != q);
        if i0 < q {
            assert(index1[i0] == end_key(table[j]));
        } else {
            assert(index1[i0 - 1] == end_key(table[j]));
        }
    }
}

/// After inserting a record with a fresh identifier at `p`, the table and
/// the untouched index are at the halfway point of a save.
#[verifier::rlimit(50)]
proof fn lemma_insert_mid(s0: Seq<DealV>, index0: Seq<(u64, u64)>, p: int, d: DealV)
    requires
        store_inv(s0, index0),
        0 <= p <= s0.len(),
        forall|k: int| 0 <= k < p ==> s0[k].id < d.id,
        p < s0.len() ==> s0[p].id > d.id,
    ensures
        mid_inv(s0.insert(p, d), index0, d),
{
    let table = s0.insert(p, d);
    lemma_insert_preserves_lookup(s0, p, d);
    assert forall|i: int| 0 <= i < index0.len() implies (#[trigger] index0[i]).1 != d.id && has_id(
        table,
        index0[i].1,
    ) && get_deal(table, index0[i].1).end_time == index0[i].0 by {
        let e = index0[i];
        assert(has_id(s0, e.1) && get_deal(s0, e.1).end_time == e.0);
        assert(e.1 != d.id);
        assert(get_deal(table, e.1) == get_deal(s0, e.1));
    }
    assert forall|j: int| 0 <= j < table.len() && (#[trigger] table[j]).id != d.id implies exists|
        i: int,
    | 0 <= i < index0.len() && index0[i] == end_key(table[j]) by {
        assert(j != p);
        let j0 = if j < p { j } else { j - 1 };
        assert(table[j] == s0[j0]);
        let i0 = choose|i: int| 0 <= i < index0.len() && index0[i] == end_key(s0[j0]);
        assert(index0[i0] == end_key(table[j]));
    }
}

/// Inserting the key of the saved record at its ordered position takes
/// the halfway point back to a consistent store.
proof fn lemma_index_insert_wf(table: Seq<DealV>, index1: Seq<(u64, u64)>, d: DealV, r: int)
    requires
        mid_inv(table, index1, d),
        0 <= r <= index1.len(),
        forall|k: int| 0 <= k < r ==> end_key_lt(#[trigger] index1[k], end_key(d)),
        r < index1.len() ==> !end_key_lt(index1[r], end_key(d)),
    ensures
        store_inv(table, index1.insert(r, end_key(d))),
{
    let key = end_key(d);
    let index2 = index1.insert(r, key);
    assert(index2.len() == index1.len() + 1 == table.len());
    assert(forall|k: int| 0 <= k < r ==> index2[k] == index1[k]);
    assert(index2[r] == key);
    assert(forall|k: int| r < k < index2.len() ==> index2[k] == index1[k - 1]);
    // Every key at or past the insertion point is strictly above the new
    // key: it is not below it, and it belongs to another identifier.
    assert forall|k: int| r <= k < index1.len() implies end_key_lt(key, #[trigger] index1[k]) by {
        assert(index1[k].1 != d.id);
        assert(index1[k] != key);
        if k == r {
            assert(!end_key_lt(index1[r], key));
        } else {
            assert(!end_key_lt(index1[r], key));
            assert(end_key_lt(index1[r], index1[k]));
        }
    }
    assert(end_keys_sorted(index2)) by {
        assert forall|i: int, j: int| 0 <= i < j < index2.len() implies end_key_lt(
            index2[i],
            index2[j],
        ) by {
            if j < r {
                assert(end_key_lt(index1[i], index1[j]));
            } else if j == r {
                assert(end_key_lt(index1[i], key));
            } else if i < r {
                assert(end_key_lt(index1[i], key));
                assert(end_key_lt(key, index1[j - 1]));
            } else if i == r {
                assert(end_key_lt(key, index1[j - 1]));
            } else {
                assert(end_key_lt(index1[i - 1], index1[j - 1]));
            }
        }
    }
    assert forall|i: int| 0 <= i < index2.len() implies has_id(
        table,
        (#[trigger] index2[i]).1,
    ) && get_deal(table, index2[i].1).end_time == index2[i].0 by {
        if i == r {
            assert(index2[i] == key);
        } else {
            let i0 = if i < r { i } else { i - 1 };
            assert(index2[i] == index1[i0]);
        }
    }
    assert forall|j: int| 0 <= j < table.len() implies exists|i: int|
        0 <= i < index2.len() && index2[i] == end_key(#[trigger] table[j]) by {
        if table[j].id == d.id {
            lemma_get_deal_unique(table, d.id);
            assert(table[j] == d);
            assert(index2[r] == end_key(table[j]));
        } else {
            let i0 = choose|i: int| 0 <= i < index1.len() && index1[i] == end_key(table[j]);
            if i0 < r {
                assert(index2[i0] == end_key(table[j]));
            } else {
                assert(index2[i0 + 1] == end_key(table[j]));
            }
        }
    }
}

/// After a positional update that keeps the identifier, lookups of every
/// identifier are unchanged, and the updated identifier denotes the new
/// record.
pub proof fn lemma_update_preserves_lookup(s0: Seq<DealV>, p: int, d: DealV)
    requires
        ids_strictly_sorted(s0),
        0 <= p < s0.len(),
        s0[p].id == d.id,
    ensures
        ids_strictly_sorted(s0.update(p, d)),
        forall|x: Id| has_id(s0.update(p, d), x) <==> has_id(s0, x),
        forall|x: Id|
            x != d.id && #[trigger] has_id(s0, x) ==> get_deal(s0.update(p, d), x) == get_deal(
                s0,
                x,
            ),
        has_id(s0.update(p, d), d.id),
        get_deal(s0.update(p, d), d.id) == d,
{
    let t = s0.update(p, d);
    assert(forall|k: int| 0 <= k < s0.len() && k != p ==> t[k] == s0[k]);
    assert(t[p] == d);
    assert(forall|k: int| 0 <= k < s0.len() ==> t[k].id == s0[k].id);
    assert forall|x: Id| has_id(t, x) <==> has_id(s0, x) by {
        if has_id(t, x) {
            let j = choose|j: int| 0 <= j < t.len() && t[j].id == x;
            assert(s0[j].id == x);
        }
        if has_id(s0, x) {
            let j = choose|j: int| 0 <= j < s0.len() && s0[j].id == x;
            assert(t[j].id == x);
        }
    }
    assert forall|x: Id| x != d.id && #[trigger] has_id(s0, x) implies get_deal(t, x) == get_deal(
        s0,
        x,
    ) by {
        let j = idx_of(s0, x);
        assert(0 <= j < s0.len() && s0[j].id == x);
        assert(j != p);
        assert(t[j] == s0[j]);
        assert(has_id(t, x));
        lemma_get_deal_unique(t, x);
        lemma_get_deal_unique(s0, x);
    }
    assert(t[p].id == d.id);
    assert(has_id(t, d.id));
    lemma_get_deal_unique(t, d.id);
}

/// After inserting a record with a fresh identifier at its ordered
/// position, lookups of the old identifiers are unchanged, and the fresh
/// identifier denotes the new record.
pub proof fn lemma_insert_preserves_lookup(s0: Seq<DealV>, p: int, d: DealV)
    requires
        ids_strictly_sorted(s0),
        0 <= p <= s0.len(),
        forall|k: int| 0 <= k < p ==> s0[k].id < d.id,
        p < s0.len() ==> s0[p].id > d.id,
    ensures
        ids_strictly_sorted(s0.insert(p, d)),
        !has_id(s0, d.id),
        forall|x: Id| #[trigger] has_id(s0, x) ==> has_id(s0.insert(p, d), x),
        forall|x: Id| x != d.id && #[trigger] has_id(s0.insert(p, d), x) ==> has_id(s0, x),
        forall|x: Id|
            x != d.id && #[trigger] has_id(s0, x) ==> get_deal(s0.insert(p, d), x) == get_deal(
                s0,
                x,
            ),
        has_id(s0.insert(p, d), d.id),
        get_deal(s0.insert(p, d), d.id) == d,
{
    let t = s0.insert(p, d);
    assert(t.len() == s0.len() + 1);
    assert(forall|k: int| 0 <= k < p ==> t[k] == s0[k]);
    assert(t[p] == d);
    assert(forall|k: int| p < k < t.len() ==> t[k] == s0[k - 1]);
    assert forall|x: Id| #[trigger] has_id(s0, x) implies has_id(t, x) by {
        let j = choose|j: int| 0 <= j < s0.len() && s0[j].id == x;
        if j < p {
            assert(t[j].id == x);
        } else {
            assert(t[j + 1].id == x);
        }
    }
    assert(ids_strictly_sorted(t)) by {
        assert forall|i: int, j: int| 0 <= i < j < t.len() implies t[i].id < t[j].id by {
            if i < p && j == p {
                assert(s0[i].id < d.id);
            } else if i == p && j > p {
                assert(s0[j - 1].id > d.id);
            } else if i < p && j > p {
                assert(s0[i].id < d.id);
                assert(s0[j - 1].id > d.id);
            }
        }
    }
    assert(!has_id(s0, d.id)) by {
        if has_id(s0, d.id) {
            let j = choose|j: int| 0 <= j < s0.len() && s0[j].id == d.id;
            if j < p {
                assert(s0[j].id < d.id);
            } else {
                assert(p < s0.len());
                if j > p {
                    assert(s0[p].id < s0[j].id);
                }
            }
            assert(false);
        }
    }
    assert forall|x: Id| x != d.id && #[trigger] has_id(t, x) implies has_id(s0, x) by {
        let j = choose|j: int| 0 <= j < t.len() && t[j].id == x;
        assert(j != p);
        if j < p {
            assert(s0[j].id == x);
        } else {
            assert(s0[j - 1].id == x);
        }
    }
    assert forall|x: Id| x != d.id && #[trigger] has_id(s0, x) implies get_deal(t, x) == get_deal(
        s0,
        x,
    ) by {
        let j = idx_of(s0, x);
        assert(0 <= j < s0.len() && s0[j].id == x);
        lemma_get_deal_unique(s0, x);
        if j < p {
            assert(t[j].id == x);
            assert(has_id(t, x));
            lemma_get_deal_unique(t, x);
            assert(get_deal(t, x) == t[j]);
        } else {
            assert(t[j + 1].id == x);
            assert(has_id(t, x));
            lemma_get_deal_unique(t, x);
            assert(get_deal(t, x) == t[j + 1]);
        }
    }
    assert(has_id(t, d.id));
    lemma_get_deal_unique(t, d.id);
}


/// The whole persisted state: the configuration, the identifier counter,
/// and the deal store.
#[derive(Debug)]
pub struct State {
    pub config: Option<Config>,
    pub id_count: Id,
    pub store: DealStore,
}

/// Mathematical value of a [`State`].
pub struct StateV {
    pub config: Option<ConfigV>,
    pub id_count: Id,
    pub deals: Seq<DealV>,
}

impl View for State {
    type V = StateV;

    open spec fn view(&self) -> StateV {
        StateV {
            config: match &self.config {
                Some(c) => Some(c@),
                None => None,
            },
            id_count: self.id_count,
            deals: self.store@,
        }
    }
}

impl State {
    /// Validity of the whole state: the store is internally consistent
    /// and the configuration, if present, is well formed.
    pub open spec fn wf(&self) -> bool {
        &&& self.store.wf()
        &&& match self@.config {
            Some(c) => c.wf(),
            None => true,
        }
    }

    /// Fresh state: no configuration, an empty store, and the identifier
    /// counter at its starting value.
    pub fn new() -> (r: State)
        ensures
            r.wf(),
            r@.config is None,
            r@.id_count == 1,
            r@.deals.len() == 0,
    {
        State { config: None, id_count: 1, store: DealStore::new() }
    }
}

/// Issues the next deal identifier: returns the counter and advances it.
/// Identifiers are therefore unique and increase monotonically.
pub fn next_id(state: &mut State) -> (id: Id)
    requires
        old(state).id_count < u64::MAX,
    ensures
        id == old(state).id_count,
        final(state).id_count == old(state).id_count + 1,
        final(state).config == old(state).config,
        final(state).store == old(state).store,
{
    let id = state.id_count;
    state.id_count = id + 1;
    id
}


/// Does a deal match the optional seller and status filters?
pub open spec fn matches_filter(d: DealV, seller: Option<Seq<char>>, status: Option<
    DealStatus,
>) -> bool {
    &&& match seller {
        Some(s) => d.seller == s,
        None => true,
    }
    &&& match status {
        Some(st) => d.status == st,
        None => true,
    }
}

/// Is a deal past the exclusive pagination cursor for the given scan
/// direction?
pub open spec fn cursor_ok(d: DealV, descending: bool, start_after: Option<Id>) -> bool {
    match start_after {
        Some(sa) => if descending {
            d.id < sa
        } else {
            d.id > sa
        },
        None => true,
    }
}

/// The predicate a filtered scan keeps deals by.
pub open spec fn scan_pred(
    seller: Option<Seq<char>>,
    status: Option<DealStatus>,
    descending: bool,
    start_after: Option<Id>,
) -> spec_fn(DealV) -> bool {
    |d: DealV| matches_filter(d, seller, status) && cursor_ok(d, descending, start_after)
}

/// Does a deal expire strictly after the given time (if one is given)?
pub open spec fn after_time_ok(d: DealV, after_time: Option<u64>) -> bool {
    match after_time {
        Some(t) => d.end_time > t,
        None => true,
    }
}

/// The predicate an expiration scan keeps deals by.
pub open spec fn end_pred(after_time: Option<u64>) -> spec_fn(DealV) -> bool {
    |d: DealV| after_time_ok(d, after_time)
}

/// The first `limit` elements, or all of them when there are fewer.
pub open spec fn take_up_to(s: Seq<DealV>, limit: int) -> Seq<DealV> {
    if limit <= s.len() {
        s.take(limit)
    } else {
        s
    }
}

/// The page a filtered scan of an identifier-ordered table returns:
/// matching deals past the cursor, in scan direction, truncated to the
/// limit.
pub open spec fn filter_page(
    s: Seq<DealV>,
    seller: Option<Seq<char>>,
    status: Option<DealStatus>,
    descending: bool,
    start_after: Option<Id>,
    limit: int,
) -> Seq<DealV> {
    let m = s.filter(scan_pred(seller, status, descending, start_after));
    take_up_to(
        if descending {
            m.reverse()
        } else {
            m
        },
        limit,
    )
}

/// The page an expiration scan returns: deals expiring after the bound
/// (when one is given), in scan direction over the expiration order,
/// truncated to the limit.
pub open spec fn end_page(
    s: Seq<DealV>,
    after_time: Option<u64>,
    descending: bool,
    limit: int,
) -> Seq<DealV> {
    let m = s.filter(end_pred(after_time));
    take_up_to(
        if descending {
            m.reverse()
        } else {
            m
        },
        limit,
    )
}

/// Extending a scanned prefix by one element extends its filtered image
/// exactly when the element matches.
proof fn lemma_filter_take_step(s: Seq<DealV>, pred: spec_fn(DealV) -> bool, i: int)
    requires
        0 <= i < s.len(),
    ensures
        s.take(i + 1).filter(pred) == if pred(s[i]) {
            s.take(i).filter(pred).push(s[i])
        } else {
            s.take(i).filter(pred)
        },
{
    reveal(Seq::filter);
    let t = s.take(i + 1);
    assert(t.drop_last() =~= s.take(i));
    assert(t.last() == s[i]);
}

/// Extending a scanned suffix by one element at the front prepends to its
/// filtered image exactly when the element matches.
proof fn lemma_filter_skip_step(s: Seq<DealV>, pred: spec_fn(DealV) -> bool, i: int)
    requires
        0 <= i < s.len(),
    ensures
        s.skip(i).filter(pred) == if pred(s[i]) {
            seq![s[i]] + s.skip(i + 1).filter(pred)
        } else {
            s.skip(i + 1).filter(pred)
        },
{
    assert(s.skip(i) =~= seq![s[i]] + s.skip(i + 1));
    broadcast use Seq::lemma_filter_prepend;

    assert((seq![s[i]] + s.skip(i + 1)).filter(pred) == (if pred(s[i]) {
        seq![s[i]]
    } else {
        Seq::<DealV>::empty()
    }) + s.skip(i + 1).filter(pred));
    if pred(s[i]) {
    } else {
        assert(Seq::<DealV>::empty() + s.skip(i + 1).filter(pred) =~= s.skip(i + 1).filter(pred));
    }
}

impl DealStore {
    /// The deals in expiration-index order.
    pub open spec fn end_ordered(&self) -> Seq<DealV> {
        self.end_index().map_values(|e: (u64, u64)| get_deal(self@, e.1))
    }

    /// In a consistent store, the expiration order is a permutation of the
    /// stored deals, strictly sorted by (expiration time, identifier).
    pub proof fn lemma_end_ordered(&self)
        requires
            self.wf(),
        ensures
            self.end_ordered().len() == self@.len(),
            forall|i: int, j: int|
                0 <= i < j < self.end_ordered().len() ==> end_key_lt(
                    end_key(#[trigger] self.end_ordered()[i]),
                    end_key(#[trigger] self.end_ordered()[j]),
                ),
            forall|i: int|
                0 <= i < self.end_ordered().len() ==> has_id(
                    self@,
                    (#[trigger] self.end_ordered()[i]).id,
                ) && get_deal(self@, self.end_ordered()[i].id) == self.end_ordered()[i],
            forall|j: int| 0 <= j < self@.len() ==> self.end_ordered().contains(#[trigger] self@[j]),
    {
        let eo = self.end_ordered();
        assert forall|i: int| 0 <= i < eo.len() implies has_id(self@, (#[trigger] eo[i]).id)
            && get_deal(self@, eo[i].id) == eo[i] && end_key(eo[i]) == self.by_end@[i] by {
            let e = self.by_end@[i];
            assert(eo[i] == get_deal(self@, e.1));
            lemma_get_deal_unique(self@, e.1);
            assert(get_deal(self@, e.1).id == e.1);
        }
        assert forall|i: int, j: int| 0 <= i < j < eo.len() implies end_key_lt(
            end_key(eo[i]),
            end_key(eo[j]),
        ) by {
            assert(end_key_lt(self.by_end@[i], self.by_end@[j]));
        }
        assert(eo.len() == self.by_end@.len());
        assert forall|j: int| 0 <= j < self@.len() implies self.end_ordered().contains(
            #[trigger] self@[j],
        ) by {
            let i = choose|i: int|
                0 <= i < self.by_end@.len() && self.by_end@[i] == end_key(self@[j]);
            assert(self.by_end@[i].1 == self@[j].id);
            lemma_get_deal_unique(self@, self@[j].id);
            assert(self.end_ordered()[i] == get_deal(self@, self.by_end@[i].1));
            assert(self.end_ordered()[i] == self@[j]);
            assert(self.end_ordered().contains(self@[j]));
        }
    }

    /// Range reader over the seller, status and composite indexes: deals
    /// matching the given filters, in identifier order (each of those
    /// indexes orders the deals of one key by identifier), paginated by an
    /// exclusive cursor and a limit.
    pub fn deals_by_filter(
        &self,
        seller: Option<&String>,
        status: Option<DealStatus>,
        descending: bool,
        start_after: Option<Id>,
        limit: usize,
    ) -> (r: Vec<Deal>)
        requires
            self.wf(),
        ensures
            deals_view(r@) == filter_page(
                self@,
                match seller {
                    Some(s) => Some(s@),
                    None => None,
                },
                status,
                descending,
                start_after,
                limit as int,
            ),
    {
        if descending {
            self.scan_desc(seller, status, start_after, limit)
        } else {
            self.scan_asc(seller, status, start_after, limit)
        }
    }

    /// Range reader over the seller index: this seller's deals in
    /// identifier order.
    pub fn deals_by_seller(
        &self,
        seller: &String,
        descending: bool,
        start_after: Option<Id>,
        limit: usize,
    ) -> (r: Vec<Deal>)
        requires
            self.wf(),
        ensures
            deals_view(r@) == filter_page(
                self@,
                Some(seller@),
                None,
                descending,
                start_after,
                limit as int,
            ),
    {
        self.deals_by_filter(Some(seller), None, descending, start_after, limit)
    }

    /// Range reader over the status index: the deals of one status token
    /// in identifier order.
    pub fn deals_by_status(
        &self,
        status: DealStatus,
        descending: bool,
        start_after: Option<Id>,
        limit: usize,
    ) -> (r: Vec<Deal>)
        requires
            self.wf(),
        ensures
            deals_view(r@) == filter_page(
                self@,
                None,
                Some(status),
                descending,
                start_after,
                limit as int,
            ),
    {
        self.deals_by_filter(None, Some(status), descending, start_after, limit)
    }

    /// Range reader over the composite (seller, status) index: the deals
    /// of one seller in one status, in identifier order.
    pub fn deals_by_seller_status(
        &self,
        seller: &String,
        status: DealStatus,
        descending: bool,
        start_after: Option<Id>,
        limit: usize,
    ) -> (r: Vec<Deal>)
        requires
            self.wf(),
        ensures
            deals_view(r@) == filter_page(
                self@,
                Some(seller@),
                Some(status),
                descending,
                start_after,
                limit as int,
            ),
    {
        self.deals_by_filter(Some(seller), Some(status), descending, start_after, limit)
    }

    /// Forward scan of the primary table, keeping matches up to the limit.
    #[verifier::loop_isolation(false)]
    #[verifier::rlimit(50)]
    fn scan_asc(
        &self,
        seller: Option<&String>,
        status: Option<DealStatus>,
        start_after: Option<Id>,
        limit: usize,
    ) -> (r: Vec<Deal>)
        requires
            self.wf(),
        ensures
            deals_view(r@) == take_up_to(
                self@.filter(
                    scan_pred(
                        match seller {
                            Some(s) => Some(s@),
                            None => None,
                        },
                        status,
                        false,
                        start_after,
                    ),
                ),
                limit as int,
            ),
    {
        let ghost sv = self@;
        let ghost sellerv: Option<Seq<char>> = match seller {
            Some(s) => Some(s@),
            None => None,
        };
        let ghost pred = scan_pred(sellerv, status, false, start_after);
        proof {
            assert(forall|k: int| 0 <= k < sv.len() ==> #[trigger] sv[k] == self.deals@[k]@);
            lemma_filter_empty(pred);
            assert(sv.take(0) =~= Seq::<DealV>::empty());
        }
        let mut r: Vec<Deal> = Vec::new();
        let mut i: usize = 0;
        while i < self.deals.len()
            invariant
                i <= sv.len(),
                deals_view(r@) == take_up_to(
                    sv.take(i as int).filter(pred),
                    limit as int,
                ),
            decreases sv.len() - i,
        {
            let ghost rv0 = deals_view(r@);
            let keep = scan_keep(&self.deals[i], seller, status, false, start_after);
            proof {
                assert(sv[i as int] == self.deals@[i as int]@);
                assert(keep == pred(sv[i as int]));
                lemma_asc_step(sv, pred, i as int, limit as int, rv0);
            }
            if keep && r.len() < limit {
                r.push(self.deals[i].clone());
                proof {
                    assert(deals_view(r@) =~= rv0.push(sv[i as int]));
                }
            }
            i = i + 1;
        }
        proof {
            assert(sv.take(sv.len() as int) =~= sv);
        }
        r
    }

    /// Backward scan of the primary table, keeping matches up to the
    /// limit; the page comes out in reversed identifier order.
    #[verifier::loop_isolation(false)]
    #[verifier::rlimit(50)]
    fn scan_desc(
        &self,
        seller: Option<&String>,
        status: Option<DealStatus>,
        start_after: Option<Id>,
        limit: usize,
    ) -> (r: Vec<Deal>)
        requires
            self.wf(),
        ensures
            deals_view(r@) == take_up_to(
                self@.filter(
                    scan_pred(
                        match seller {
                            Some(s) => Some(s@),
                            None => None,
                        },
                        status,
                        true,
                        start_after,
                    ),
                ).reverse(),
                limit as int,
            ),
    {
        let ghost sv = self@;
        let ghost sellerv: Option<Seq<char>> = match seller {
            Some(s) => Some(s@),
            None => None,
        };
        let ghost pred = scan_pred(sellerv, status, true, start_after);
        proof {
            assert(forall|k: int| 0 <= k < sv.len() ==> #[trigger] sv[k] == self.deals@[k]@);
            lemma_filter_empty(pred);
            assert(sv.skip(sv.len() as int) =~= Seq::<DealV>::empty());
            assert(Seq::<DealV>::empty().reverse() =~= Seq::<DealV>::empty());
        }
        let mut r: Vec<Deal> = Vec::new();
        let mut i: usize = self.deals.len();
        while i > 0
            invariant
                i <= sv.len(),
                deals_view(r@) == take_up_to(
                    sv.skip(i as int).filter(pred).reverse(),
                    limit as int,
                ),
            decreases i,
        {
            i = i - 1;
            let ghost rv0 = deals_view(r@);
            let keep = scan_keep(&self.deals[i], seller, status, true, start_after);
            proof {
                assert(sv[i as int] == self.deals@[i as int]@);
                assert(keep == pred(sv[i as int]));
                lemma_desc_step(sv, pred, i as int, limit as int, rv0);
            }
            if keep && r.len() < limit {
                r.push(self.deals[i].clone());
                proof {
                    assert(deals_view(r@) =~= rv0.push(sv[i as int]));
                }
            }
        }
        proof {
            assert(sv.skip(0) =~= sv);
        }
        r
    }
}

impl DealStore {
    /// Range reader over the expiration index: deals expiring strictly
    /// after `after_time` (all deals when `None`), in (expiration time,
    /// identifier) order, scanned in the given direction and truncated to
    /// the limit.
    pub fn deals_by_end(&self, after_time: Option<u64>, descending: bool, limit: usize) -> (r: Vec<
        Deal,
    >)
        requires
            self.wf(),
        ensures
            deals_view(r@) == end_page(
                self.end_ordered(),
                after_time,
                descending,
                limit as int,
            ),
    {
        if descending {
            self.end_scan_desc(after_time, limit)
        } else {
            self.end_scan_asc(after_time, limit)
        }
    }

    /// Forward scan of the expiration index.
    #[verifier::loop_isolation(false)]
    #[verifier::rlimit(50)]
    fn end_scan_asc(&self, after_time: Option<u64>, limit: usize) -> (r: Vec<Deal>)
        requires
            self.wf(),
        ensures
            deals_view(r@) == take_up_to(
                self.end_ordered().filter(end_pred(after_time)),
                limit as int,
            ),
    {
        let ghost eo = self.end_ordered();
        let ghost pred = end_pred(after_time);
        proof {
            self.lemma_end_ordered();
            lemma_filter_empty(pred);
            assert(eo.take(0) =~= Seq::<DealV>::empty());
        }
        let mut r: Vec<Deal> = Vec::new();
        let mut i: usize = 0;
        while i < self.by_end.len()
            invariant
                i <= eo.len(),
                deals_view(r@) == take_up_to(
                    eo.take(i as int).filter(pred),
                    limit as int,
                ),
            decreases eo.len() - i,
        {
            let ghost rv0 = deals_view(r@);
            let entry = self.by_end[i];
            let keep = match after_time {
                Some(t) => entry.0 > t,
                None => true,
            };
            proof {
                assert(eo[i as int] == get_deal(self@, entry.1));
                assert(eo[i as int].end_time == entry.0);
                assert(keep == pred(eo[i as int]));
                lemma_asc_step(eo, pred, i as int, limit as int, rv0);
            }
            if keep && r.len() < limit {
                let d = match self.load(entry.1) {
                    Ok(d) => d,
                    Err(_) => unreached(),
                };
                proof {
                    assert(d@ == eo[i as int]);
                }
                r.push(d);
                proof {
                    assert(deals_view(r@) =~= rv0.push(eo[i as int]));
                }
            }
            i = i + 1;
        }
        proof {
            assert(eo.take(eo.len() as int) =~= eo);
        }
        r
    }

    /// Backward scan of the expiration index.
    #[verifier::loop_isolation(false)]
    #[verifier::rlimit(50)]
    fn end_scan_desc(&self, after_time: Option<u64>, limit: usize) -> (r: Vec<Deal>)
        requires
            self.wf(),
        ensures
            deals_view(r@) == take_up_to(
                self.end_ordered().filter(end_pred(after_time)).reverse(),
                limit as int,
            ),
    {
        let ghost eo = self.end_ordered();
        let ghost pred = end_pred(after_time);
        proof {
            self.lemma_end_ordered();
            lemma_filter_empty(pred);
            assert(eo.skip(eo.len() as int) =~= Seq::<DealV>::empty());
            assert(Seq::<DealV>::empty().reverse() =~= Seq::<DealV>::empty());
        }
        let mut r: Vec<Deal> = Vec::new();
        let mut i: usize = self.by_end.len();
        while i > 0
            invariant
                i <= eo.len(),
                deals_view(r@) == take_up_to(
                    eo.skip(i as int).filter(pred).reverse(),
                    limit as int,
                ),
            decreases i,
        {
            i = i - 1;
            let ghost rv0 = deals_view(r@);
            let entry = self.by_end[i];
            let keep = match after_time {
                Some(t) => entry.0 > t,
                None => true,
            };
            proof {
                assert(eo[i as int] == get_deal(self@, entry.1));
                assert(eo[i as int].end_time == entry.0);
                assert(keep == pred(eo[i as int]));
                lemma_desc_step(eo, pred, i as int, limit as int, rv0);
            }
            if keep && r.len() < limit {
                let d = match self.load(entry.1) {
                    Ok(d) => d,
                    Err(_) => unreached(),
                };
                proof {
                    assert(d@ == eo[i as int]);
                }
                r.push(d);
                proof {
                    assert(deals_view(r@) =~= rv0.push(eo[i as int]));
                }
            }
        }
        proof {
            assert(eo.skip(0) =~= eo);
        }
        r
    }
}

/// Filtering the empty sequence yields the empty sequence.
proof fn lemma_filter_empty(pred: spec_fn(DealV) -> bool)
    ensures
        Seq::<DealV>::empty().filter(pred) == Seq::<DealV>::empty(),
{
    reveal(Seq::filter);
}

/// How one forward scan step changes the page collected so far.
proof fn lemma_asc_step(s: Seq<DealV>, pred: spec_fn(DealV) -> bool, i: int, limit: int, rv0: Seq<
    DealV,
>)
    requires
        0 <= i < s.len(),
        0 <= limit,
        rv0 == take_up_to(s.take(i).filter(pred), limit),
    ensures
        pred(s[i]) && rv0.len() < limit ==> take_up_to(s.take(i + 1).filter(pred), limit)
            == rv0.push(s[i]),
        !(pred(s[i]) && rv0.len() < limit) ==> take_up_to(s.take(i + 1).filter(pred), limit)
            == rv0,
{
    let m0 = s.take(i).filter(pred);
    lemma_filter_take_step(s, pred, i);
    if pred(s[i]) {
        if rv0.len() < limit {
            assert(m0.len() < limit);
            assert(rv0 == m0);
            assert(take_up_to(m0.push(s[i]), limit) == m0.push(s[i]));
        } else {
            assert(m0.len() >= limit);
            assert(rv0 == m0.take(limit));
            assert(m0.push(s[i]).take(limit) =~= m0.take(limit));
        }
    }
}

/// How one backward scan step changes the page collected so far.
proof fn lemma_desc_step(s: Seq<DealV>, pred: spec_fn(DealV) -> bool, i: int, limit: int, rv0: Seq<
    DealV,
>)
    requires
        0 <= i < s.len(),
        0 <= limit,
        rv0 == take_up_to(s.skip(i + 1).filter(pred).reverse(), limit),
    ensures
        pred(s[i]) && rv0.len() < limit ==> take_up_to(s.skip(i).filter(pred).reverse(), limit)
            == rv0.push(s[i]),
        !(pred(s[i]) && rv0.len() < limit) ==> take_up_to(s.skip(i).filter(pred).reverse(), limit)
            == rv0,
{
    let m0 = s.skip(i + 1).filter(pred).reverse();
    lemma_filter_skip_step(s, pred, i);
    if pred(s[i]) {
        assert((seq![s[i]] + s.skip(i + 1).filter(pred)).reverse() =~= m0.push(s[i]));
        if rv0.len() < limit {
            assert(m0.len() < limit);
            assert(rv0 == m0);
            assert(take_up_to(m0.push(s[i]), limit) == m0.push(s[i]));
        } else {
            assert(m0.len() >= limit);
            assert(rv0 == m0.take(limit));
            assert(m0.push(s[i]).take(limit) =~= m0.take(limit));
        }
    }
}

/// Does this deal pass the filter and cursor checks of a scan?
fn scan_keep(
    d: &Deal,
    seller: Option<&String>,
    status: Option<DealStatus>,
    descending: bool,
    start_after: Option<Id>,
) -> (keep: bool)
    ensures
        keep == scan_pred(
            match seller {
                Some(s) => Some(s@),
                None => None,
            },
            status,
            descending,
            start_after,
        )(d@),
{
    let mut keep = true;
    if let Some(s) = seller {
        if !(*s == d.seller) {
            keep = false;
        }
    }
    if let Some(st) = status {
        if !(d.status == st) {
            keep = false;
        }
    }
    if let Some(sa) = start_after {
        if descending {
            if !(d.id < sa) {
                keep = false;
            }
        } else {
            if !(d.id > sa) {
                keep = false;
            }
        }
    }
    keep
}

} // verus!
