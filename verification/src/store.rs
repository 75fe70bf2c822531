use vstd::prelude::*;

use crate::order::{order_wf, AccountId, Order, OrderStatus, Side};

verus! {

/// One owner's order ids, in placement order. Ids are never removed, even
/// after the order becomes terminal: the index exists purely for enumeration.
pub struct OwnerOrders {
    pub owner_id: AccountId,
    pub order_ids: Vec<u64>,
}

/// Sum of base funds reserved by the orders (nonzero only on sell orders).
pub open spec fn locked_base_total(s: Seq<Order>) -> int
    decreases s.len(),
{
    if s.len() == 0 {
        0
    } else {
        locked_base_total(s.drop_last()) + s.last().locked_base_remaining as int
    }
}

/// Sum of quote funds reserved by the orders (nonzero only on buy orders).
pub open spec fn locked_quote_total(s: Seq<Order>) -> int
    decreases s.len(),
{
    if s.len() == 0 {
        0
    } else {
        locked_quote_total(s.drop_last()) + s.last().locked_quote_remaining as int
    }
}

pub proof fn lemma_locked_base_nonneg(s: Seq<Order>)
    ensures
        locked_base_total(s) >= 0,
    decreases s.len(),
{
    if s.len() > 0 {
        lemma_locked_base_nonneg(s.drop_last());
    }
}

pub proof fn lemma_locked_quote_nonneg(s: Seq<Order>)
    ensures
        locked_quote_total(s) >= 0,
    decreases s.len(),
{
    if s.len() > 0 {
        lemma_locked_quote_nonneg(s.drop_last());
    }
}

/// No single order's base lock exceeds the store-wide sum.
pub proof fn lemma_locked_base_elem(s: Seq<Order>, i: int)
    requires
        0 <= i < s.len(),
    ensures
        s[i].locked_base_remaining as int <= locked_base_total(s),
    decreases s.len(),
{
    lemma_locked_base_nonneg(s.drop_last());
    if i < s.len() - 1 {
        lemma_locked_base_elem(s.drop_last(), i);
    }
}

/// No single order's quote lock exceeds the store-wide sum.
pub proof fn lemma_locked_quote_elem(s: Seq<Order>, i: int)
    requires
        0 <= i < s.len(),
    ensures
        s[i].locked_quote_remaining as int <= locked_quote_total(s),
    decreases s.len(),
{
    lemma_locked_quote_nonneg(s.drop_last());
    if i < s.len() - 1 {
        lemma_locked_quote_elem(s.drop_last(), i);
    }
}

pub proof fn lemma_locked_update(s: Seq<Order>, i: int, o: Order)
    requires
        0 <= i < s.len(),
    ensures
        locked_base_total(s.update(i, o)) == locked_base_total(s) - s[i].locked_base_remaining
            + o.locked_base_remaining,
        locked_quote_total(s.update(i, o)) == locked_quote_total(s) - s[i].locked_quote_remaining
            + o.locked_quote_remaining,
    decreases s.len(),
{
    let s2 = s.update(i, o);
    if i == s.len() - 1 {
        assert(s2.drop_last() =~= s.drop_last());
    } else {
        assert(s2.last() == s.last());
        assert(s2.drop_last() =~= s.drop_last().update(i, o));
        lemma_locked_update(s.drop_last(), i, o);
    }
}

pub proof fn lemma_locked_push(s: Seq<Order>, o: Order)
    ensures
        locked_base_total(s.push(o)) == locked_base_total(s) + o.locked_base_remaining,
        locked_quote_total(s.push(o)) == locked_quote_total(s) + o.locked_quote_remaining,
{
    assert(s.push(o).drop_last() =~= s);
    assert(s.push(o).last() == o);
}

/// A prefix of the order book never locks more than the whole.
pub proof fn lemma_locked_prefix(s: Seq<Order>, j: int)
    requires
        0 <= j <= s.len(),
    ensures
        locked_base_total(s.subrange(0, j)) <= locked_base_total(s),
        locked_quote_total(s.subrange(0, j)) <= locked_quote_total(s),
    decreases s.len() - j,
{
    if j == s.len() {
        assert(s.subrange(0, j) =~= s);
    } else {
        lemma_locked_prefix(s, j + 1);
        assert(s.subrange(0, j + 1).drop_last() =~= s.subrange(0, j));
        assert(s.subrange(0, j + 1).last() == s[j]);
    }
}

/// The order ids recorded for one owner, empty when the owner has none.
pub open spec fn owner_list(idx: Seq<OwnerOrders>, owner_id: AccountId) -> Seq<u64>
    decreases idx.len(),
{
    if idx.len() == 0 {
        Seq::empty()
    } else if idx.last().owner_id == owner_id {
        idx.last().order_ids@
    } else {
        owner_list(idx.drop_last(), owner_id)
    }
}

pub open spec fn index_unique(idx: Seq<OwnerOrders>) -> bool {
    forall|i: int, j: int|
        #![trigger idx[i], idx[j]]
        0 <= i < j < idx.len() ==> idx[i].owner_id != idx[j].owner_id
}

/// Every indexed id names a stored order of that owner.
pub open spec fn index_valid(idx: Seq<OwnerOrders>, orders: Seq<Order>) -> bool {
    forall|i: int, k: int|
        #![trigger idx[i].order_ids@[k]]
        0 <= i < idx.len() && 0 <= k < idx[i].order_ids@.len() ==> idx[i].order_ids@[k]
            < orders.len() && orders[idx[i].order_ids@[k] as int].owner_id == idx[i].owner_id
}

pub proof fn lemma_owner_list_absent(idx: Seq<OwnerOrders>, owner_id: AccountId)
    requires
        forall|j: int| 0 <= j < idx.len() ==> idx[j].owner_id != owner_id,
    ensures
        owner_list(idx, owner_id) == Seq::<u64>::empty(),
    decreases idx.len(),
{
    if idx.len() > 0 {
        lemma_owner_list_absent(idx.drop_last(), owner_id);
    }
}

pub proof fn lemma_owner_list_found(idx: Seq<OwnerOrders>, owner_id: AccountId, i: int)
    requires
        0 <= i < idx.len(),
        idx[i].owner_id == owner_id,
        forall|j: int| 0 <= j < idx.len() && j != i ==> idx[j].owner_id != owner_id,
    ensures
        owner_list(idx, owner_id) == idx[i].order_ids@,
    decreases idx.len(),
{
    if i < idx.len() - 1 {
        lemma_owner_list_found(idx.drop_last(), owner_id, i);
    }
}

/// A unique index holds at most one slot per owner.
pub proof fn lemma_index_unique_at(idx: Seq<OwnerOrders>, owner_id: AccountId, i: int)
    requires
        index_unique(idx),
        0 <= i < idx.len(),
        idx[i].owner_id == owner_id,
    ensures
        forall|j: int| 0 <= j < idx.len() && j != i ==> idx[j].owner_id != owner_id,
{
    assert forall|j: int| 0 <= j < idx.len() && j != i implies idx[j].owner_id != owner_id by {
        if j < i {
            assert(idx[j].owner_id != idx[i].owner_id);
        } else {
            assert(idx[i].owner_id != idx[j].owner_id);
        }
    }
}

pub proof fn lemma_owner_list_update_other(
    idx: Seq<OwnerOrders>,
    i: int,
    e: OwnerOrders,
    owner_id: AccountId,
)
    requires
        0 <= i < idx.len(),
        idx[i].owner_id != owner_id,
        e.owner_id != owner_id,
    ensures
        owner_list(idx.update(i, e), owner_id) == owner_list(idx, owner_id),
    decreases idx.len(),
{
    let s2 = idx.update(i, e);
    if i == idx.len() - 1 {
        assert(s2.drop_last() =~= idx.drop_last());
    } else {
        assert(s2.last() == idx.last());
        assert(s2.drop_last() =~= idx.drop_last().update(i, e));
        lemma_owner_list_update_other(idx.drop_last(), i, e, owner_id);
    }
}

pub proof fn lemma_owner_list_push(idx: Seq<OwnerOrders>, e: OwnerOrders, owner_id: AccountId)
    ensures
        owner_list(idx.push(e), owner_id) == if e.owner_id == owner_id {
            e.order_ids@
        } else {
            owner_list(idx, owner_id)
        },
{
    assert(idx.push(e).drop_last() =~= idx);
    assert(idx.push(e).last() == e);
}

/// Durable collection of orders keyed by sequentially assigned id (the id is
/// the position; orders are never deleted), with a secondary owner index.
pub struct OrderStore {
    orders: Vec<Order>,
    owner_index: Vec<OwnerOrders>,
}

impl OrderStore {
    pub closed spec fn orders_seq(&self) -> Seq<Order> {
        self.orders@
    }

    pub closed spec fn index_seq(&self) -> Seq<OwnerOrders> {
        self.owner_index@
    }

    pub open spec fn n_orders(&self) -> nat {
        self.orders_seq().len()
    }

    pub open spec fn wf(&self) -> bool {
        &&& (forall|i: int|
            0 <= i < self.orders_seq().len() ==> (#[trigger] self.orders_seq()[i]).id == i
                && order_wf(self.orders_seq()[i]))
        &&& index_unique(self.index_seq())
        &&& index_valid(self.index_seq(), self.orders_seq())
    }

    pub fn new() -> (r: OrderStore)
        ensures
            r.wf(),
            r.n_orders() == 0,
            forall|a: AccountId| owner_list(r.index_seq(), a) == Seq::<u64>::empty(),
            locked_base_total(r.orders_seq()) == 0,
            locked_quote_total(r.orders_seq()) == 0,
    {
        let r = OrderStore { orders: Vec::new(), owner_index: Vec::new() };
        proof {
            assert forall|a: AccountId| owner_list(r.index_seq(), a) == Seq::<u64>::empty() by {
                lemma_owner_list_absent(r.index_seq(), a);
            }
        }
        r
    }

    pub fn len(&self) -> (r: usize)
        ensures
            r == self.n_orders(),
    {
        self.orders.len()
    }

    /// A copy of the stored order, or `None` when no order has that id.
    pub fn get(&self, order_id: u64) -> (r: Option<Order>)
        ensures
            r == if order_id < self.n_orders() {
                Some(self.orders_seq()[order_id as int])
            } else {
                None::<Order>
            },
    {
        if order_id < self.orders.len() as u64 {
            Some(self.orders[order_id as usize])
        } else {
            None
        }
    }

    fn find_owner(&self, owner_id: AccountId) -> (r: Option<usize>)
        ensures
            match r {
                Some(i) => i < self.index_seq().len() && self.index_seq()[i as int].owner_id
                    == owner_id,
                None => forall|j: int|
                    0 <= j < self.index_seq().len() ==> self.index_seq()[j].owner_id != owner_id,
            },
    {
        let mut i: usize = 0;
        while i < self.owner_index.len()
            invariant
                i <= self.owner_index.len(),
                forall|j: int| 0 <= j < i ==> self.owner_index@[j].owner_id != owner_id,
            decreases self.owner_index.len() - i,
        {
            if self.owner_index[i].owner_id == owner_id {
                return Some(i);
            }
            i = i + 1;
        }
        None
    }

    fn copy_ids(v: &Vec<u64>) -> (r: Vec<u64>)
        ensures
            r@ == v@,
    {
        let mut r: Vec<u64> = Vec::new();
        let mut i: usize = 0;
        while i < v.len()
            invariant
                i <= v.len(),
                r@ == v@.subrange(0, i as int),
            decreases v.len() - i,
        {
            r.push(v[i]);
            proof {
                assert(r@ =~= v@.subrange(0, i + 1 as int));
            }
            i = i + 1;
        }
        proof {
            assert(r@ =~= v@);
        }
        r
    }

    /// Sums the base funds reserved by all stored orders.
    pub fn locked_base_sum(&self) -> (r: u128)
        requires
            locked_base_total(self.orders_seq()) <= u128::MAX,
        ensures
            r == locked_base_total(self.orders_seq()),
    {
        let mut sum: u128 = 0;
        let mut i: usize = 0;
        proof {
            assert(self.orders@.subrange(0, 0) =~= Seq::<Order>::empty());
        }
        while i < self.orders.len()
            invariant
                i <= self.orders@.len(),
                locked_base_total(self.orders@) <= u128::MAX,
                sum == locked_base_total(self.orders@.subrange(0, i as int)),
            decreases self.orders@.len() - i,
        {
            proof {
                lemma_locked_prefix(self.orders@, i as int + 1);
                assert(self.orders@.subrange(0, i as int + 1).drop_last() =~= self.orders@.subrange(
                    0,
                    i as int,
                ));
                assert(self.orders@.subrange(0, i as int + 1).last() == self.orders@[i as int]);
            }
            sum = sum + self.orders[i].locked_base_remaining;
            i = i + 1;
        }
        proof {
            assert(self.orders@.subrange(0, i as int) =~= self.orders@);
        }
        sum
    }

    /// Sums the quote funds reserved by all stored orders.
    pub fn locked_quote_sum(&self) -> (r: u128)
        requires
            locked_quote_total(self.orders_seq()) <= u128::MAX,
        ensures
            r == locked_quote_total(self.orders_seq()),
    {
        let mut sum: u128 = 0;
        let mut i: usize = 0;
        proof {
            assert(self.orders@.subrange(0, 0) =~= Seq::<Order>::empty());
        }
        while i < self.orders.len()
            invariant
                i <= self.orders@.len(),
                locked_quote_total(self.orders@) <= u128::MAX,
                sum == locked_quote_total(self.orders@.subrange(0, i as int)),
            decreases self.orders@.len() - i,
        {
            proof {
                lemma_locked_prefix(self.orders@, i as int + 1);
                assert(self.orders@.subrange(0, i as int + 1).drop_last() =~= self.orders@.subrange(
                    0,
                    i as int,
                ));
                assert(self.orders@.subrange(0, i as int + 1).last() == self.orders@[i as int]);
            }
            sum = sum + self.orders[i].locked_quote_remaining;
            i = i + 1;
        }
        proof {
            assert(self.orders@.subrange(0, i as int) =~= self.orders@);
        }
        sum
    }

    /// Assigns the next sequential id, stores the new open order, and records
    /// the id under its owner in the index.
    pub fn create(
        &mut self,
        owner_id: AccountId,
        side: Side,
        amount_base: u128,
        locked_quote: u128,
        locked_base: u128,
        price_num: u128,
        price_den: u128,
        created_at: u64,
    ) -> (r: u64)
        requires
            old(self).wf(),
            amount_base > 0,
            price_num > 0,
            price_den > 0,
            side is Buy ==> locked_base == 0,
            side is Sell ==> locked_quote == 0 && locked_base == amount_base,
        ensures
            final(self).wf(),
            r == old(self).n_orders(),
            final(self).orders_seq() == old(self).orders_seq().push(
                (Order {
                    id: r,
                    owner_id,
                    side,
                    price_num,
                    price_den,
                    amount_base,
                    remaining_base: amount_base,
                    locked_quote_remaining: locked_quote,
                    locked_base_remaining: locked_base,
                    status: OrderStatus::Open,
                    created_at,
                }),
            ),
            owner_list(final(self).index_seq(), owner_id) == owner_list(
                old(self).index_seq(),
                owner_id,
            ).push(r),
            forall|a: AccountId|
                a != owner_id ==> owner_list(final(self).index_seq(), a) == owner_list(
                    old(self).index_seq(),
                    a,
                ),
            locked_base_total(final(self).orders_seq()) == locked_base_total(
                old(self).orders_seq(),
            ) + locked_base,
            locked_quote_total(final(self).orders_seq()) == locked_quote_total(
                old(self).orders_seq(),
            ) + locked_quote,
    {
        let ghost orders0 = self.orders@;
        let ghost idx0 = self.owner_index@;
        proof {
            assert(index_unique(idx0));
            assert(index_valid(idx0, orders0));
        }
        let slot = self.find_owner(owner_id);
        let id = self.orders.len() as u64;
        let o = Order {
            id,
            owner_id,
            side,
            price_num,
            price_den,
            amount_base,
            remaining_base: amount_base,
            locked_quote_remaining: locked_quote,
            locked_base_remaining: locked_base,
            status: OrderStatus::Open,
            created_at,
        };
        self.orders.push(o);
        proof {
            lemma_locked_push(orders0, o);
        }
        match slot {
            Some(i) => {
                proof {
                    assert(idx0[i as int].owner_id == owner_id);
                    lemma_index_unique_at(idx0, owner_id, i as int);
                    lemma_owner_list_found(idx0, owner_id, i as int);
                }
                let mut ids = Self::copy_ids(&self.owner_index[i].order_ids);
                ids.push(id);
                let e = OwnerOrders { owner_id, order_ids: ids };
                self.owner_index.set(i, e);
                proof {
                    let idx1 = self.owner_index@;
                    assert forall|p: int, q: int|
                        #![trigger idx1[p], idx1[q]]
                        0 <= p < q < idx1.len() implies idx1[p].owner_id != idx1[q].owner_id by {
                        assert(idx0[p].owner_id != idx0[q].owner_id);
                    }
                    lemma_index_unique_at(idx1, owner_id, i as int);
                    lemma_owner_list_found(idx1, owner_id, i as int);
                    assert forall|a: AccountId| a != owner_id implies owner_list(idx1, a)
                        == owner_list(idx0, a) by {
                        lemma_owner_list_update_other(idx0, i as int, idx1[i as int], a);
                    }
                    assert forall|p: int, k: int|
                        #![trigger idx1[p].order_ids@[k]]
                        0 <= p < idx1.len() && 0 <= k < idx1[p].order_ids@.len() implies
                        idx1[p].order_ids@[k] < self.orders@.len()
                            && self.orders@[idx1[p].order_ids@[k] as int].owner_id
                            == idx1[p].owner_id by {
                        if p == i as int {
                            if k < idx0[p].order_ids@.len() {
                                assert(idx1[p].order_ids@[k] == idx0[p].order_ids@[k]);
                                assert(idx0[p].order_ids@[k] < orders0.len());
                            } else {
                                assert(idx1[p].order_ids@[k] == id);
                            }
                        } else {
                            assert(idx1[p] == idx0[p]);
                            assert(idx0[p].order_ids@[k] < orders0.len());
                        }
                    }
                }
            },
            None => {
                let mut ids: Vec<u64> = Vec::new();
                ids.push(id);
                let e = OwnerOrders { owner_id, order_ids: ids };
                self.owner_index.push(e);
                proof {
                    assert(forall|j: int| 0 <= j < idx0.len() ==> idx0[j].owner_id != owner_id);
                    let idx1 = self.owner_index@;
                    assert forall|a: AccountId| true implies owner_list(idx1, a) == if a == owner_id
                        {
                        idx1.last().order_ids@
                    } else {
                        owner_list(idx0, a)
                    } by {
                        lemma_owner_list_push(idx0, idx1.last(), a);
                    }
                    lemma_owner_list_absent(idx0, owner_id);
                    assert(owner_list(idx1, owner_id) =~= owner_list(idx0, owner_id).push(id));
                    assert forall|p: int, q: int|
                        #![trigger idx1[p], idx1[q]]
                        0 <= p < q < idx1.len() implies idx1[p].owner_id != idx1[q].owner_id by {
                        if q == idx1.len() - 1 {
                            assert(idx1[p] == idx0[p]);
                        } else {
                            assert(idx1[p] == idx0[p]);
                            assert(idx1[q] == idx0[q]);
                        }
                    }
                    assert forall|p: int, k: int|
                        #![trigger idx1[p].order_ids@[k]]
                        0 <= p < idx1.len() && 0 <= k < idx1[p].order_ids@.len() implies
                        idx1[p].order_ids@[k] < self.orders@.len()
                            && self.orders@[idx1[p].order_ids@[k] as int].owner_id
                            == idx1[p].owner_id by {
                        if p == idx1.len() - 1 {
                            assert(idx1[p].order_ids@[k] == id);
                        } else {
                            assert(idx1[p] == idx0[p]);
                            assert(idx0[p].order_ids@[k] < orders0.len());
                        }
                    }
                }
            },
        }
        id
    }

    /// Full overwrite of one stored record; the id and the owner never change.
    pub fn put(&mut self, o: Order)
        requires
            old(self).wf(),
            o.id < old(self).n_orders(),
            order_wf(o),
            o.owner_id == old(self).orders_seq()[o.id as int].owner_id,
        ensures
            final(self).wf(),
            final(self).orders_seq() == old(self).orders_seq().update(o.id as int, o),
            final(self).index_seq() == old(self).index_seq(),
            locked_base_total(final(self).orders_seq()) == locked_base_total(
                old(self).orders_seq(),
            ) - old(self).orders_seq()[o.id as int].locked_base_remaining
                + o.locked_base_remaining,
            locked_quote_total(final(self).orders_seq()) == locked_quote_total(
                old(self).orders_seq(),
            ) - old(self).orders_seq()[o.id as int].locked_quote_remaining
                + o.locked_quote_remaining,
    {
        let ghost orders0 = self.orders@;
        let n = self.orders.len();
        proof {
            assert(o.id < n as u64);
        }
        let i = o.id as usize;
        self.orders.set(i, o);
        proof {
            lemma_locked_update(orders0, i as int, o);
            let idx = self.owner_index@;
            assert forall|p: int, k: int|
                #![trigger idx[p].order_ids@[k]]
                0 <= p < idx.len() && 0 <= k < idx[p].order_ids@.len() implies idx[p].order_ids@[k]
                < self.orders@.len() && self.orders@[idx[p].order_ids@[k] as int].owner_id
                == idx[p].owner_id by {
                assert(idx[p].order_ids@[k] < orders0.len());
                assert(orders0[idx[p].order_ids@[k] as int].owner_id == idx[p].owner_id);
            }
        }
    }

    /// A snapshot of the stored orders in ascending id order, sliced to
    /// `[offset, offset + limit)` and clipped to the total count.
    pub fn list(&self, offset: u64, limit: u64) -> (r: Vec<Order>)
        ensures
            r@.len() == clip_to(offset as int + limit as int, self.n_orders() as int) - clip_to(
                offset as int,
                self.n_orders() as int,
            ),
            forall|k: int|
                0 <= k < r@.len() ==> r@[k] == self.orders_seq()[clip_to(
                    offset as int,
                    self.n_orders() as int,
                ) + k],
    {
        let n = self.orders.len();
        let n64 = n as u64;
        let start64 = if offset <= n64 {
            offset
        } else {
            n64
        };
        let remaining = n64 - start64;
        let take = if limit <= remaining {
            limit
        } else {
            remaining
        };
        let start = start64 as usize;
        let mut r: Vec<Order> = Vec::new();
        let mut i: usize = 0;
        while i < take as usize
            invariant
                self.orders@.len() == n,
                n == n64,
                start == start64,
                start64 + take <= n64,
                i <= take,
                r@.len() == i,
                forall|k: int| 0 <= k < i ==> r@[k] == self.orders@[start + k],
            decreases take - i,
        {
            r.push(self.orders[start + i]);
            i = i + 1;
        }
        r
    }

    /// The stored orders of one owner, in the index's placement order; every
    /// returned order belongs to that owner.
    pub fn list_by_owner(&self, owner_id: AccountId) -> (r: Vec<Order>)
        requires
            self.wf(),
        ensures
            r@.len() == owner_list(self.index_seq(), owner_id).len(),
            forall|k: int|
                0 <= k < r@.len() ==> owner_list(self.index_seq(), owner_id)[k]
                    < self.n_orders() && r@[k] == self.orders_seq()[owner_list(
                    self.index_seq(),
                    owner_id,
                )[k] as int] && r@[k].owner_id == owner_id,
    {
        match self.find_owner(owner_id) {
            Some(i) => {
                proof {
                    lemma_index_unique_at(self.index_seq(), owner_id, i as int);
                    lemma_owner_list_found(self.index_seq(), owner_id, i as int);
                }
                let ids = &self.owner_index[i].order_ids;
                let n = self.orders.len();
                let mut r: Vec<Order> = Vec::new();
                let mut k: usize = 0;
                while k < ids.len()
                    invariant
                        self.wf(),
                        i < self.owner_index@.len(),
                        self.owner_index@[i as int].owner_id == owner_id,
                        ids == &self.owner_index@[i as int].order_ids,
                        owner_list(self.index_seq(), owner_id) == ids@,
                        n == self.orders@.len(),
                        k <= ids@.len(),
                        r@.len() == k,
                        forall|p: int|
                            0 <= p < k ==> ids@[p] < self.orders@.len() && r@[p]
                                == self.orders@[ids@[p] as int] && r@[p].owner_id == owner_id,
                    decreases ids@.len() - k,
                {
                    let id = ids[k];
                    proof {
                        assert(self.index_seq()[i as int].order_ids@[k as int] == id);
                        assert(id < self.orders@.len());
                        assert(id < n as u64);
                        assert(self.orders@[id as int].owner_id == self.index_seq()[i as int].owner_id);
                    }
                    r.push(self.orders[id as usize]);
                    k = k + 1;
                }
                r
            },
            None => {
                proof {
                    lemma_owner_list_absent(self.index_seq(), owner_id);
                }
                Vec::new()
            },
        }
    }
}

/// `x`, clipped from above to `n`.
pub open spec fn clip_to(x: int, n: int) -> int {
    if x <= n {
        x
    } else {
        n
    }
}

} // verus!
