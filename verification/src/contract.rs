use vstd::prelude::*;

use crate::errors::ObError;
use crate::ledger::{
    balance_in, lemma_balance_le_total, lemma_total_nonneg, total_in, BalanceEntry, BalanceLedger,
};
use crate::order::{
    order_to_view, order_wf, parse_side, side_of_str, view_matches, AccountId, Order, OrderStatus,
    OrderView, Side, TokenId,
};
use crate::store::{
    clip_to, lemma_locked_base_elem, lemma_locked_base_nonneg, lemma_locked_quote_elem,
    lemma_locked_quote_nonneg, locked_base_total, locked_quote_total, owner_list, OrderStore,
    OwnerOrders,
};

verus! {

/// Description of the outbound transfer that a withdrawal asks the asset's
/// home ledger to perform. The debit has already been applied when this is
/// handed out; the host issues the transfer and does not roll the debit back
/// if the outbound leg later fails.
#[derive(PartialEq, Eq, Debug)]
pub struct WithdrawRequest {
    pub token_id: TokenId,
    pub receiver_id: AccountId,
    pub amount: u128,
    /// Forwarding payload; when present, the host selects the
    /// transfer-with-callback variant of the outbound request.
    pub msg: Option<String>,
}

/// The caller's spend cap on a buy placement, 0 when absent.
pub open spec fn buy_spend(max_spend_quote: Option<u128>) -> u128 {
    match max_spend_quote {
        Some(s) => s,
        None => 0,
    }
}

/// A placement request is acceptable when the quantity and both price parts
/// are positive, the side names "buy" or "sell" (any ASCII casing), and a buy
/// carries a positive spend cap.
pub open spec fn place_valid(
    side: Seq<char>,
    amount_base: u128,
    max_spend_quote: Option<u128>,
    price_num: u128,
    price_den: u128,
) -> bool {
    &&& amount_base > 0
    &&& price_num > 0
    &&& price_den > 0
    &&& side_of_str(side) is Some
    &&& (side_of_str(side) == Some(Side::Buy) ==> buy_spend(max_spend_quote) > 0)
}

/// Price-limit check by cross-multiplication, avoiding rational division:
/// a seller never receives below its floor rate, a buyer never pays above
/// its ceiling rate. A product that does not fit the integer width is
/// rejected, never clamped.
pub open spec fn price_check_ok(o: Order, base_fill: u128, quote_paid: u128) -> bool {
    &&& quote_paid * o.price_den <= u128::MAX
    &&& base_fill * o.price_num <= u128::MAX
    &&& (o.side is Sell ==> quote_paid * o.price_den >= base_fill * o.price_num)
    &&& (o.side is Buy ==> quote_paid * o.price_den <= base_fill * o.price_num)
}

/// The order's reserved funds (and, for a buy, its unfilled quantity) cover
/// the proposed fill.
pub open spec fn lock_ok(o: Order, base_fill: u128, quote_paid: u128) -> bool {
    if o.side is Sell {
        o.locked_base_remaining >= base_fill
    } else {
        o.locked_quote_remaining >= quote_paid && o.remaining_base >= base_fill
    }
}

/// The order after absorbing a fill of `base_fill` base units against
/// `quote_paid` quote units. An order whose unfilled quantity reaches zero
/// becomes `Filled`; a buy order's surplus quote lock stays with the order.
pub open spec fn filled_order(o: Order, base_fill: u128, quote_paid: u128) -> Order {
    Order {
        remaining_base: (o.remaining_base - base_fill) as u128,
        locked_base_remaining: if o.side is Sell {
            (o.locked_base_remaining - base_fill) as u128
        } else {
            o.locked_base_remaining
        },
        locked_quote_remaining: if o.side is Buy {
            (o.locked_quote_remaining - quote_paid) as u128
        } else {
            o.locked_quote_remaining
        },
        status: if o.remaining_base == base_fill {
            OrderStatus::Filled
        } else {
            o.status
        },
        ..o
    }
}

/// The order after cancellation: terminal, with both locks and the unfilled
/// quantity forced to zero; everything else is kept for audit.
pub open spec fn cancelled_order(o: Order) -> Order {
    Order {
        remaining_base: 0,
        locked_base_remaining: 0,
        locked_quote_remaining: 0,
        status: OrderStatus::Cancelled,
        ..o
    }
}

fn price_check(o: &Order, base_fill: u128, quote_paid: u128) -> (r: bool)
    ensures
        r == price_check_ok(*o, base_fill, quote_paid),
{
    match quote_paid.checked_mul(o.price_den) {
        Some(lhs) => match base_fill.checked_mul(o.price_num) {
            Some(rhs) => match o.side {
                Side::Sell => lhs >= rhs,
                Side::Buy => lhs <= rhs,
            },
            None => false,
        },
        None => false,
    }
}

fn lock_check(o: &Order, base_fill: u128, quote_paid: u128) -> (r: bool)
    ensures
        r == lock_ok(*o, base_fill, quote_paid),
{
    match o.side {
        Side::Sell => o.locked_base_remaining >= base_fill,
        Side::Buy => o.locked_quote_remaining >= quote_paid && o.remaining_base >= base_fill,
    }
}

fn apply_fill(o: Order, base_fill: u128, quote_paid: u128) -> (r: Order)
    requires
        order_wf(o),
        o.status is Open,
        lock_ok(o, base_fill, quote_paid),
    ensures
        r == filled_order(o, base_fill, quote_paid),
{
    let mut r = o;
    r.remaining_base = o.remaining_base - base_fill;
    match o.side {
        Side::Sell => {
            r.locked_base_remaining = o.locked_base_remaining - base_fill;
        },
        Side::Buy => {
            r.locked_quote_remaining = o.locked_quote_remaining - quote_paid;
        },
    }
    if r.remaining_base == 0 {
        r.status = OrderStatus::Filled;
    }
    r
}

/// One exchange instance: the two configured assets, the available-balance
/// ledger, and the order store. Owned exclusively by its host; every public
/// operation runs to completion against the whole state.
pub struct Contract {
    base_token_id: TokenId,
    quote_token_id: TokenId,
    balances: BalanceLedger,
    orders: OrderStore,
}

impl Contract {
    pub closed spec fn spec_base_token(&self) -> TokenId {
        self.base_token_id
    }

    pub closed spec fn spec_quote_token(&self) -> TokenId {
        self.quote_token_id
    }

    pub closed spec fn balances_seq(&self) -> Seq<BalanceEntry> {
        self.balances@
    }

    pub closed spec fn orders_seq(&self) -> Seq<Order> {
        self.orders.orders_seq()
    }

    pub closed spec fn index_seq(&self) -> Seq<OwnerOrders> {
        self.orders.index_seq()
    }

    /// Available (unlocked) balance of one account in one asset.
    pub open spec fn balance_of(&self, account_id: AccountId, token_id: TokenId) -> u128 {
        balance_in(self.balances_seq(), account_id, token_id)
    }

    pub open spec fn n_orders(&self) -> nat {
        self.orders_seq().len()
    }

    pub open spec fn order_exists(&self, order_id: u64) -> bool {
        order_id < self.orders_seq().len()
    }

    pub open spec fn order_at(&self, order_id: u64) -> Order {
        self.orders_seq()[order_id as int]
    }

    /// The ids of one owner's orders, in placement order.
    pub open spec fn owner_ids(&self, owner_id: AccountId) -> Seq<u64> {
        owner_list(self.index_seq(), owner_id)
    }

    /// Everything the exchange holds of the base asset: available balances
    /// plus the base locks of all orders.
    pub open spec fn base_supply(&self) -> int {
        total_in(self.balances_seq(), self.spec_base_token()) + locked_base_total(self.orders_seq())
    }

    /// Everything the exchange holds of the quote asset: available balances
    /// plus the quote locks of all orders.
    pub open spec fn quote_supply(&self) -> int {
        total_in(self.balances_seq(), self.spec_quote_token()) + locked_quote_total(
            self.orders_seq(),
        )
    }

    pub closed spec fn components_wf(&self) -> bool {
        &&& self.balances.wf()
        &&& self.orders.wf()
    }

    /// Well-formedness of the whole exchange state: the two assets are
    /// distinct, both components hold their invariants, and neither asset's
    /// supply exceeds the integer width (so releasing locked funds back to a
    /// balance can never overflow).
    pub open spec fn wf(&self) -> bool {
        &&& self.spec_base_token() != self.spec_quote_token()
        &&& self.components_wf()
        &&& self.base_supply() <= u128::MAX
        &&& self.quote_supply() <= u128::MAX
    }

    /// Creates an exchange for two distinct assets, with no balances and no
    /// orders.
    pub fn new(base_token_id: TokenId, quote_token_id: TokenId) -> (r: Contract)
        requires
            base_token_id != quote_token_id,
        ensures
            r.wf(),
            r.spec_base_token() == base_token_id,
            r.spec_quote_token() == quote_token_id,
            r.n_orders() == 0,
            forall|a: AccountId, t: TokenId| r.balance_of(a, t) == 0,
            r.base_supply() == 0,
            r.quote_supply() == 0,
    {
        Contract {
            base_token_id,
            quote_token_id,
            balances: BalanceLedger::new(),
            orders: OrderStore::new(),
        }
    }

    pub fn get_config(&self) -> (r: (TokenId, TokenId))
        ensures
            r.0 == self.spec_base_token(),
            r.1 == self.spec_quote_token(),
    {
        (self.base_token_id, self.quote_token_id)
    }

    pub fn get_balance(&self, account_id: AccountId, token_id: TokenId) -> (r: u128)
        requires
            self.wf(),
        ensures
            r == self.balance_of(account_id, token_id),
    {
        self.balances.get(account_id, token_id)
    }

    /// Everything the exchange holds of one configured asset: available
    /// balances plus order locks. This is the quantity the mutating
    /// operations conserve, and what a host checks before accepting a
    /// deposit (the credit must not overflow this total).
    pub fn supply(&self, token_id: TokenId) -> (r: u128)
        requires
            self.wf(),
            token_id == self.spec_base_token() || token_id == self.spec_quote_token(),
        ensures
            token_id == self.spec_base_token() ==> r == self.base_supply(),
            token_id == self.spec_quote_token() ==> r == self.quote_supply(),
    {
        proof {
            lemma_locked_base_nonneg(self.orders.orders_seq());
            lemma_locked_quote_nonneg(self.orders.orders_seq());
            lemma_total_nonneg(self.balances@, token_id);
        }
        let avail = self.balances.total_of(token_id);
        let locked = if token_id == self.base_token_id {
            self.orders.locked_base_sum()
        } else {
            self.orders.locked_quote_sum()
        };
        avail + locked
    }

    /// Deposit notification from an asset's home ledger. An asset that is not
    /// one of the two configured tokens is declined in full (the whole amount
    /// is returned for refund); otherwise the full amount is credited to the
    /// depositor and 0 is returned.
    pub fn ft_on_transfer(
        &mut self,
        sender_id: AccountId,
        amount: u128,
        token_contract: TokenId,
    ) -> (r: u128)
        requires
            old(self).wf(),
            token_contract == old(self).spec_base_token() ==> old(self).base_supply() + amount
                <= u128::MAX,
            token_contract == old(self).spec_quote_token() ==> old(self).quote_supply() + amount
                <= u128::MAX,
        ensures
            final(self).wf(),
            final(self).spec_base_token() == old(self).spec_base_token(),
            final(self).spec_quote_token() == old(self).spec_quote_token(),
            final(self).orders_seq() == old(self).orders_seq(),
            final(self).index_seq() == old(self).index_seq(),
            token_contract != old(self).spec_base_token() && token_contract != old(
                self,
            ).spec_quote_token() ==> r == amount && *final(self) == *old(self),
            token_contract == old(self).spec_base_token() || token_contract == old(
                self,
            ).spec_quote_token() ==> {
                &&& r == 0
                &&& final(self).balance_of(sender_id, token_contract) == old(self).balance_of(
                    sender_id,
                    token_contract,
                ) + amount
                &&& forall|a: AccountId, t: TokenId|
                    !(a == sender_id && t == token_contract) ==> final(self).balance_of(a, t)
                        == old(self).balance_of(a, t)
                &&& final(self).base_supply() == old(self).base_supply() + (
                if token_contract == old(self).spec_base_token() {
                    amount as int
                } else {
                    0
                })
                &&& final(self).quote_supply() == old(self).quote_supply() + (
                if token_contract == old(self).spec_quote_token() {
                    amount as int
                } else {
                    0
                })
            },
    {
        if token_contract != self.base_token_id && token_contract != self.quote_token_id {
            return amount;
        }
        proof {
            lemma_balance_le_total(self.balances@, sender_id, token_contract);
            lemma_locked_base_nonneg(self.orders.orders_seq());
            lemma_locked_quote_nonneg(self.orders.orders_seq());
        }
        self.balances.credit(sender_id, token_contract, amount);
        proof {
            let t_base = self.base_token_id;
            let t_quote = self.quote_token_id;
            if token_contract == t_base {
                assert(self.balances.total(t_base) == old(self).balances.total(t_base) + amount);
                assert(self.balances.total(t_quote) == old(self).balances.total(t_quote));
            } else {
                assert(self.balances.total(t_quote) == old(self).balances.total(t_quote) + amount);
                assert(self.balances.total(t_base) == old(self).balances.total(t_base));
            }
            assert forall|a: AccountId, t: TokenId| !(a == sender_id && t == token_contract)
                implies self.balance_of(a, t) == old(self).balance_of(a, t) by {
                assert(self.balances.spec_get(a, t) == old(self).balances.spec_get(a, t));
            }
        }
        0
    }

    /// Places a limit order for the caller, atomically moving the reserved
    /// funds (the spend cap for a buy, the full base quantity for a sell) out
    /// of the caller's available balance and into the new order's lock.
    /// Nothing changes when the request is rejected.
    pub fn place_order(
        &mut self,
        caller: AccountId,
        side: String,
        amount_base: u128,
        max_spend_quote: Option<u128>,
        price_num: u128,
        price_den: u128,
        now_ns: u64,
    ) -> (r: Result<u64, ObError>)
        requires
            old(self).wf(),
        ensures
            final(self).wf(),
            final(self).spec_base_token() == old(self).spec_base_token(),
            final(self).spec_quote_token() == old(self).spec_quote_token(),
            final(self).base_supply() == old(self).base_supply(),
            final(self).quote_supply() == old(self).quote_supply(),
            r is Err ==> *final(self) == *old(self),
            !place_valid(side@, amount_base, max_spend_quote, price_num, price_den) ==> r
                == Err::<u64, ObError>(ObError::ValidationError),
            place_valid(side@, amount_base, max_spend_quote, price_num, price_den)
                && side_of_str(side@) == Some(Side::Buy) ==> ({
                let spend = buy_spend(max_spend_quote);
                let qt = old(self).spec_quote_token();
                &&& (spend > old(self).balance_of(caller, qt) ==> r == Err::<u64, ObError>(
                    ObError::InsufficientFundsError,
                ))
                &&& (spend <= old(self).balance_of(caller, qt) ==> {
                    &&& r == Ok::<u64, ObError>(old(self).n_orders() as u64)
                    &&& final(self).orders_seq() == old(self).orders_seq().push(
                        (Order {
                            id: (old(self).n_orders() as u64),
                            owner_id: caller,
                            side: Side::Buy,
                            price_num,
                            price_den,
                            amount_base,
                            remaining_base: amount_base,
                            locked_quote_remaining: spend,
                            locked_base_remaining: 0,
                            status: OrderStatus::Open,
                            created_at: ((now_ns / 1_000_000) as u64),
                        }),
                    )
                    &&& final(self).balance_of(caller, qt) == old(self).balance_of(caller, qt)
                        - spend
                    &&& (forall|a: AccountId, t: TokenId|
                        !(a == caller && t == qt) ==> final(self).balance_of(a, t) == old(
                            self,
                        ).balance_of(a, t))
                    &&& final(self).owner_ids(caller) == old(self).owner_ids(caller).push(
                        (old(self).n_orders() as u64),
                    )
                    &&& (forall|a: AccountId|
                        a != caller ==> final(self).owner_ids(a) == old(self).owner_ids(a))
                })
            }),
            place_valid(side@, amount_base, max_spend_quote, price_num, price_den)
                && side_of_str(side@) == Some(Side::Sell) ==> ({
                let bt = old(self).spec_base_token();
                &&& (amount_base > old(self).balance_of(caller, bt) ==> r == Err::<u64, ObError>(
                    ObError::InsufficientFundsError,
                ))
                &&& (amount_base <= old(self).balance_of(caller, bt) ==> {
                    &&& r == Ok::<u64, ObError>(old(self).n_orders() as u64)
                    &&& final(self).orders_seq() == old(self).orders_seq().push(
                        (Order {
                            id: (old(self).n_orders() as u64),
                            owner_id: caller,
                            side: Side::Sell,
                            price_num,
                            price_den,
                            amount_base,
                            remaining_base: amount_base,
                            locked_quote_remaining: 0,
                            locked_base_remaining: amount_base,
                            status: OrderStatus::Open,
                            created_at: ((now_ns / 1_000_000) as u64),
                        }),
                    )
                    &&& final(self).balance_of(caller, bt) == old(self).balance_of(caller, bt)
                        - amount_base
                    &&& (forall|a: AccountId, t: TokenId|
                        !(a == caller && t == bt) ==> final(self).balance_of(a, t) == old(
                            self,
                        ).balance_of(a, t))
                    &&& final(self).owner_ids(caller) == old(self).owner_ids(caller).push(
                        (old(self).n_orders() as u64),
                    )
                    &&& (forall|a: AccountId|
                        a != caller ==> final(self).owner_ids(a) == old(self).owner_ids(a))
                })
            }),
    {
        let parsed = parse_side(side.as_str());
        if amount_base == 0 || price_num == 0 || price_den == 0 {
            return Err(ObError::ValidationError);
        }
        let side_e = match parsed {
            Some(s) => s,
            None => {
                return Err(ObError::ValidationError);
            },
        };
        let created = now_ns / 1_000_000;
        match side_e {
            Side::Buy => {
                let spend = match max_spend_quote {
                    Some(s) => s,
                    None => {
                        return Err(ObError::ValidationError);
                    },
                };
                if spend == 0 {
                    return Err(ObError::ValidationError);
                }
                let quote_id = self.quote_token_id;
                match self.balances.debit(caller, quote_id, spend) {
                    Err(e) => {
                        return Err(e);
                    },
                    Ok(()) => {},
                }
                proof {
                    assert(self.balances.total(quote_id) == old(self).balances.total(quote_id)
                        - spend);
                    assert(self.balances.total(self.base_token_id) == old(self).balances.total(
                        self.base_token_id,
                    ));
                    assert forall|a: AccountId, t: TokenId| !(a == caller && t == quote_id)
                        implies self.balance_of(a, t) == old(self).balance_of(a, t) by {
                        assert(self.balances.spec_get(a, t) == old(self).balances.spec_get(a, t));
                    }
                }
                let id = self.orders.create(
                    caller,
                    Side::Buy,
                    amount_base,
                    spend,
                    0,
                    price_num,
                    price_den,
                    created,
                );
                Ok(id)
            },
            Side::Sell => {
                let base_id = self.base_token_id;
                match self.balances.debit(caller, base_id, amount_base) {
                    Err(e) => {
                        return Err(e);
                    },
                    Ok(()) => {},
                }
                proof {
                    assert(self.balances.total(base_id) == old(self).balances.total(base_id)
                        - amount_base);
                    assert(self.balances.total(self.quote_token_id) == old(self).balances.total(
                        self.quote_token_id,
                    ));
                    assert forall|a: AccountId, t: TokenId| !(a == caller && t == base_id)
                        implies self.balance_of(a, t) == old(self).balance_of(a, t) by {
                        assert(self.balances.spec_get(a, t) == old(self).balances.spec_get(a, t));
                    }
                }
                let id = self.orders.create(
                    caller,
                    Side::Sell,
                    amount_base,
                    0,
                    amount_base,
                    price_num,
                    price_den,
                    created,
                );
                Ok(id)
            },
        }
    }

    /// The outcome a cancellation request would have against this state:
    /// the order must exist, belong to the caller, and still be open.
    pub open spec fn cancel_check(&self, caller: AccountId, order_id: u64) -> Result<(), ObError> {
        if !self.order_exists(order_id) {
            Err(ObError::StateError)
        } else if self.order_at(order_id).owner_id != caller {
            Err(ObError::AuthorizationError)
        } else if !(self.order_at(order_id).status is Open) {
            Err(ObError::StateError)
        } else {
            Ok(())
        }
    }

    /// Cancels the caller's open order: exactly the funds still locked by the
    /// order at this moment are credited back to the owner's available
    /// balance, both locks and the unfilled quantity drop to zero, and the
    /// order becomes `Cancelled` (terminal, so a repeated cancellation is
    /// refused with a state error and changes nothing).
    pub fn cancel_order(&mut self, caller: AccountId, order_id: u64) -> (r: Result<(), ObError>)
        requires
            old(self).wf(),
        ensures
            final(self).wf(),
            final(self).spec_base_token() == old(self).spec_base_token(),
            final(self).spec_quote_token() == old(self).spec_quote_token(),
            final(self).base_supply() == old(self).base_supply(),
            final(self).quote_supply() == old(self).quote_supply(),
            r == old(self).cancel_check(caller, order_id),
            r is Err ==> *final(self) == *old(self),
            r is Ok ==> ({
                let o = old(self).order_at(order_id);
                let refund_token = if o.side is Sell {
                    old(self).spec_base_token()
                } else {
                    old(self).spec_quote_token()
                };
                let refund = if o.side is Sell {
                    o.locked_base_remaining
                } else {
                    o.locked_quote_remaining
                };
                &&& final(self).orders_seq() == old(self).orders_seq().update(
                    order_id as int,
                    cancelled_order(o),
                )
                &&& final(self).index_seq() == old(self).index_seq()
                &&& final(self).balance_of(o.owner_id, refund_token) == old(self).balance_of(
                    o.owner_id,
                    refund_token,
                ) + refund
                &&& (forall|a: AccountId, t: TokenId|
                    !(a == o.owner_id && t == refund_token) ==> final(self).balance_of(a, t) == old(
                        self,
                    ).balance_of(a, t))
            }),
    {
        let o = match self.orders.get(order_id) {
            Some(o) => o,
            None => {
                return Err(ObError::StateError);
            },
        };
        if o.owner_id != caller {
            return Err(ObError::AuthorizationError);
        }
        if o.status != OrderStatus::Open {
            return Err(ObError::StateError);
        }
        let refund: u128;
        let token: TokenId;
        match o.side {
            Side::Buy => {
                refund = o.locked_quote_remaining;
                token = self.quote_token_id;
            },
            Side::Sell => {
                refund = o.locked_base_remaining;
                token = self.base_token_id;
            },
        }
        proof {
            lemma_balance_le_total(self.balances@, o.owner_id, token);
            if o.side is Sell {
                lemma_locked_base_elem(self.orders.orders_seq(), order_id as int);
                lemma_locked_quote_nonneg(self.orders.orders_seq());
            } else {
                lemma_locked_quote_elem(self.orders.orders_seq(), order_id as int);
                lemma_locked_base_nonneg(self.orders.orders_seq());
            }
        }
        self.balances.credit(o.owner_id, token, refund);
        proof {
            let other: TokenId = if token == self.base_token_id {
                self.quote_token_id
            } else {
                self.base_token_id
            };
            assert(self.balances.total(token) == old(self).balances.total(token) + refund);
            assert(self.balances.total(other) == old(self).balances.total(other));
            assert forall|a: AccountId, t: TokenId| !(a == o.owner_id && t == token)
                implies self.balance_of(a, t) == old(self).balance_of(a, t) by {
                assert(self.balances.spec_get(a, t) == old(self).balances.spec_get(a, t));
            }
        }
        let mut o2 = o;
        o2.status = OrderStatus::Cancelled;
        o2.locked_base_remaining = 0;
        o2.locked_quote_remaining = 0;
        o2.remaining_base = 0;
        proof {
            assert(o2 == cancelled_order(o));
        }
        self.orders.put(o2);
        Ok(())
    }

    /// The outcome a settlement request would have against this state, in the
    /// order the checks are made: the two ids must differ and the fill be
    /// positive (validation), both orders must exist, be open, and be of
    /// opposite sides, the fill must respect both orders' price limits
    /// (state), and then each order's reserved funds must cover its leg
    /// (insufficient funds). Both price limits are tested before either lock,
    /// so which error comes back never depends on the maker/taker labels (see
    /// `lemma_execute_check_symmetric`).
    pub open spec fn execute_check(
        &self,
        maker_order_id: u64,
        taker_order_id: u64,
        base_fill: u128,
        quote_paid: u128,
    ) -> Result<(), ObError> {
        if maker_order_id == taker_order_id || base_fill == 0 || quote_paid == 0 {
            Err(ObError::ValidationError)
        } else if !self.order_exists(maker_order_id) || !self.order_exists(taker_order_id) {
            Err(ObError::StateError)
        } else {
            let m = self.order_at(maker_order_id);
            let t = self.order_at(taker_order_id);
            if !(m.status is Open) || !(t.status is Open) {
                Err(ObError::StateError)
            } else if m.side == t.side {
                Err(ObError::StateError)
            } else if !price_check_ok(m, base_fill, quote_paid) || !price_check_ok(
                t,
                base_fill,
                quote_paid,
            ) {
                Err(ObError::StateError)
            } else if !lock_ok(m, base_fill, quote_paid) || !lock_ok(t, base_fill, quote_paid) {
                Err(ObError::InsufficientFundsError)
            } else {
                Ok(())
            }
        }
    }

    /// Atomically applies a caller-selected fill between two opposite open
    /// orders: the seller's base lock and both orders' unfilled quantities
    /// shrink by `base_fill`, the buyer's quote lock shrinks by `quote_paid`,
    /// the seller's available quote balance grows by `quote_paid`, and the
    /// buyer's available base balance grows by `base_fill`. An order whose
    /// unfilled quantity reaches zero becomes `Filled`. On any rejection,
    /// nothing changes.
    pub fn execute(
        &mut self,
        maker_order_id: u64,
        taker_order_id: u64,
        base_fill: u128,
        quote_paid: u128,
    ) -> (r: Result<(), ObError>)
        requires
            old(self).wf(),
        ensures
            final(self).wf(),
            final(self).spec_base_token() == old(self).spec_base_token(),
            final(self).spec_quote_token() == old(self).spec_quote_token(),
            final(self).base_supply() == old(self).base_supply(),
            final(self).quote_supply() == old(self).quote_supply(),
            r == old(self).execute_check(maker_order_id, taker_order_id, base_fill, quote_paid),
            r is Err ==> *final(self) == *old(self),
            r is Ok ==> ({
                let m0 = old(self).order_at(maker_order_id);
                let t0 = old(self).order_at(taker_order_id);
                let seller0 = if m0.side is Sell {
                    m0
                } else {
                    t0
                };
                let buyer0 = if m0.side is Sell {
                    t0
                } else {
                    m0
                };
                let bt = old(self).spec_base_token();
                let qt = old(self).spec_quote_token();
                &&& final(self).orders_seq() == old(self).orders_seq().update(
                    maker_order_id as int,
                    filled_order(m0, base_fill, quote_paid),
                ).update(taker_order_id as int, filled_order(t0, base_fill, quote_paid))
                &&& final(self).index_seq() == old(self).index_seq()
                &&& final(self).balance_of(seller0.owner_id, qt) == old(self).balance_of(
                    seller0.owner_id,
                    qt,
                ) + quote_paid
                &&& final(self).balance_of(buyer0.owner_id, bt) == old(self).balance_of(
                    buyer0.owner_id,
                    bt,
                ) + base_fill
                &&& (forall|a: AccountId, t: TokenId|
                    !(a == seller0.owner_id && t == qt) && !(a == buyer0.owner_id && t == bt)
                        ==> final(self).balance_of(a, t) == old(self).balance_of(a, t))
            }),
    {
        if maker_order_id == taker_order_id || base_fill == 0 || quote_paid == 0 {
            return Err(ObError::ValidationError);
        }
        let m = match self.orders.get(maker_order_id) {
            Some(o) => o,
            None => {
                return Err(ObError::StateError);
            },
        };
        let t = match self.orders.get(taker_order_id) {
            Some(o) => o,
            None => {
                return Err(ObError::StateError);
            },
        };
        if m.status != OrderStatus::Open || t.status != OrderStatus::Open {
            return Err(ObError::StateError);
        }
        if m.side == t.side {
            return Err(ObError::StateError);
        }
        if !price_check(&m, base_fill, quote_paid) || !price_check(&t, base_fill, quote_paid) {
            return Err(ObError::StateError);
        }
        if !lock_check(&m, base_fill, quote_paid) || !lock_check(&t, base_fill, quote_paid) {
            return Err(ObError::InsufficientFundsError);
        }
        let ghost orders0 = self.orders.orders_seq();
        let m2 = apply_fill(m, base_fill, quote_paid);
        let t2 = apply_fill(t, base_fill, quote_paid);
        proof {
            lemma_locked_base_elem(orders0, maker_order_id as int);
            lemma_locked_base_elem(orders0, taker_order_id as int);
            lemma_locked_quote_elem(orders0, maker_order_id as int);
            lemma_locked_quote_elem(orders0, taker_order_id as int);
        }
        self.orders.put(m2);
        self.orders.put(t2);
        let seller_owner: AccountId;
        let buyer_owner: AccountId;
        match m.side {
            Side::Sell => {
                seller_owner = m.owner_id;
                buyer_owner = t.owner_id;
            },
            Side::Buy => {
                seller_owner = t.owner_id;
                buyer_owner = m.owner_id;
            },
        }
        let quote_id = self.quote_token_id;
        let base_id = self.base_token_id;
        proof {
            lemma_balance_le_total(self.balances@, seller_owner, quote_id);
            assert(locked_quote_total(self.orders.orders_seq()) == locked_quote_total(orders0)
                - quote_paid);
            assert(locked_base_total(self.orders.orders_seq()) == locked_base_total(orders0)
                - base_fill);
            lemma_locked_base_nonneg(self.orders.orders_seq());
            lemma_locked_quote_nonneg(self.orders.orders_seq());
        }
        self.balances.credit(seller_owner, quote_id, quote_paid);
        proof {
            lemma_balance_le_total(self.balances@, buyer_owner, base_id);
            assert(self.balances.total(base_id) == old(self).balances.total(base_id));
            assert(self.balances.total(quote_id) == old(self).balances.total(quote_id)
                + quote_paid);
        }
        self.balances.credit(buyer_owner, base_id, base_fill);
        proof {
            assert(self.balances.total(base_id) == old(self).balances.total(base_id) + base_fill);
            assert(self.balances.total(quote_id) == old(self).balances.total(quote_id)
                + quote_paid);
            assert forall|a: AccountId, tk: TokenId|
                !(a == seller_owner && tk == quote_id) && !(a == buyer_owner && tk == base_id)
                implies self.balance_of(a, tk) == old(self).balance_of(a, tk) by {
                assert(self.balances.spec_get(a, tk) == old(self).balances.spec_get(a, tk));
            }
            assert(self.balances.spec_get(seller_owner, quote_id) == old(self).balances.spec_get(
                seller_owner,
                quote_id,
            ) + quote_paid);
        }
        Ok(())
    }

    /// Debits the amount from the caller's available balance and hands back
    /// the outbound transfer request for the host to issue; the receiver
    /// defaults to the caller.
    pub fn withdraw(
        &mut self,
        caller: AccountId,
        token_id: TokenId,
        amount: u128,
        receiver_id: Option<AccountId>,
        msg: Option<String>,
    ) -> (r: Result<WithdrawRequest, ObError>)
        requires
            old(self).wf(),
        ensures
            final(self).wf(),
            final(self).spec_base_token() == old(self).spec_base_token(),
            final(self).spec_quote_token() == old(self).spec_quote_token(),
            final(self).orders_seq() == old(self).orders_seq(),
            final(self).index_seq() == old(self).index_seq(),
            amount == 0 ==> r == Err::<WithdrawRequest, ObError>(ObError::ValidationError),
            amount > 0 && amount > old(self).balance_of(caller, token_id) ==> r == Err::<
                WithdrawRequest,
                ObError,
            >(ObError::InsufficientFundsError),
            r is Err ==> *final(self) == *old(self),
            r is Ok <==> amount > 0 && amount <= old(self).balance_of(caller, token_id),
            r matches Ok(req) ==> {
                &&& req.token_id == token_id
                &&& req.amount == amount
                &&& req.receiver_id == (match receiver_id {
                    Some(a) => a,
                    None => caller,
                })
                &&& req.msg == msg
                &&& final(self).balance_of(caller, token_id) == old(self).balance_of(
                    caller,
                    token_id,
                ) - amount
                &&& (forall|a: AccountId, t: TokenId|
                    !(a == caller && t == token_id) ==> final(self).balance_of(a, t) == old(
                        self,
                    ).balance_of(a, t))
                &&& final(self).base_supply() == old(self).base_supply() - (
                if token_id == old(self).spec_base_token() {
                    amount as int
                } else {
                    0
                })
                &&& final(self).quote_supply() == old(self).quote_supply() - (
                if token_id == old(self).spec_quote_token() {
                    amount as int
                } else {
                    0
                })
            },
    {
        if amount == 0 {
            return Err(ObError::ValidationError);
        }
        match self.balances.debit(caller, token_id, amount) {
            Err(e) => {
                return Err(e);
            },
            Ok(()) => {},
        }
        proof {
            assert(self.balances.total(token_id) == old(self).balances.total(token_id) - amount);
            if token_id != self.base_token_id {
                assert(self.balances.total(self.base_token_id) == old(self).balances.total(
                    self.base_token_id,
                ));
            }
            if token_id != self.quote_token_id {
                assert(self.balances.total(self.quote_token_id) == old(self).balances.total(
                    self.quote_token_id,
                ));
            }
            assert forall|a: AccountId, t: TokenId| !(a == caller && t == token_id)
                implies self.balance_of(a, t) == old(self).balance_of(a, t) by {
                assert(self.balances.spec_get(a, t) == old(self).balances.spec_get(a, t));
            }
        }
        let to = match receiver_id {
            Some(a) => a,
            None => caller,
        };
        Ok(WithdrawRequest { token_id, receiver_id: to, amount, msg })
    }

    /// A rendering of the stored order, or `None` when no order has that id.
    /// A cancelled order still shows its original `amount_base`, with the
    /// unfilled quantity and both locks at zero.
    pub fn get_order(&self, order_id: u64) -> (r: Option<OrderView>)
        ensures
            r is Some <==> self.order_exists(order_id),
            r matches Some(v) ==> view_matches(v, self.order_at(order_id)),
    {
        match self.orders.get(order_id) {
            Some(o) => Some(order_to_view(&o)),
            None => None,
        }
    }

    /// A snapshot of the stored orders in ascending id order, sliced to
    /// `[from_index, from_index + limit)` and clipped to the total count.
    pub fn get_orders(&self, from_index: u64, limit: u64) -> (r: Vec<OrderView>)
        ensures
            r@.len() == clip_to(from_index as int + limit as int, self.n_orders() as int) - clip_to(
                from_index as int,
                self.n_orders() as int,
            ),
            forall|k: int|
                0 <= k < r@.len() ==> view_matches(
                    r@[k],
                    self.orders_seq()[clip_to(from_index as int, self.n_orders() as int) + k],
                ),
    {
        let os = self.orders.list(from_index, limit);
        let mut r: Vec<OrderView> = Vec::new();
        let mut i: usize = 0;
        while i < os.len()
            invariant
                i <= os@.len(),
                r@.len() == i,
                forall|k: int| 0 <= k < i ==> view_matches(r@[k], os@[k]),
            decreases os@.len() - i,
        {
            r.push(order_to_view(&os[i]));
            i = i + 1;
        }
        r
    }

    /// The stored orders of one owner, in placement order; empty when the
    /// owner has never placed an order. Every listed order belongs to the
    /// queried owner.
    pub fn get_orders_by_owner(&self, owner_id: AccountId) -> (r: Vec<OrderView>)
        requires
            self.wf(),
        ensures
            r@.len() == self.owner_ids(owner_id).len(),
            forall|k: int|
                0 <= k < r@.len() ==> self.owner_ids(owner_id)[k] < self.n_orders()
                    && view_matches(r@[k], self.orders_seq()[self.owner_ids(owner_id)[k] as int])
                    && self.orders_seq()[self.owner_ids(owner_id)[k] as int].owner_id == owner_id,
    {
        let os = self.orders.list_by_owner(owner_id);
        let mut r: Vec<OrderView> = Vec::new();
        let mut i: usize = 0;
        while i < os.len()
            invariant
                i <= os@.len(),
                r@.len() == i,
                forall|k: int| 0 <= k < i ==> view_matches(r@[k], os@[k]),
            decreases os@.len() - i,
        {
            r.push(order_to_view(&os[i]));
            i = i + 1;
        }
        proof {
            assert forall|k: int|
                #![trigger r@[k]]
                #![trigger self.owner_ids(owner_id)[k]]
                0 <= k < r@.len() implies self.owner_ids(owner_id)[k] < self.n_orders()
                && view_matches(
                r@[k],
                self.orders_seq()[self.owner_ids(owner_id)[k] as int],
            ) && self.orders_seq()[self.owner_ids(owner_id)[k] as int].owner_id == owner_id by {
                let o = os@[k];
                let oid = owner_list(self.orders.index_seq(), owner_id)[k];
                assert(oid < self.orders.orders_seq().len() && o == self.orders.orders_seq()[oid as int]
                    && o.owner_id == owner_id);
                assert(view_matches(r@[k], o));
            }
        }
        r
    }
}

/// Audit invariants of every stored order of a well-formed exchange: the
/// unfilled quantity never exceeds the requested quantity; among orders that
/// were not cancelled, `Filled` holds exactly when the unfilled quantity is
/// zero; a sell order's base lock equals its unfilled quantity and its quote
/// lock is zero; a buy order's base lock is zero; a cancelled order holds no
/// locks and no unfilled quantity.
pub proof fn lemma_order_invariants(c: Contract, order_id: u64)
    requires
        c.wf(),
        c.order_exists(order_id),
    ensures
        ({
            let o = c.order_at(order_id);
            &&& o.remaining_base <= o.amount_base
            &&& (o.status is Filled <==> o.remaining_base == 0 && !(o.status is Cancelled))
            &&& (o.side is Sell ==> o.locked_quote_remaining == 0 && o.locked_base_remaining
                == o.remaining_base)
            &&& (o.side is Buy ==> o.locked_base_remaining == 0)
            &&& (o.status is Cancelled ==> o.remaining_base == 0 && o.locked_base_remaining == 0
                && o.locked_quote_remaining == 0)
        }),
{
    assert(order_wf(c.order_at(order_id)));
}

/// The maker/taker labels carry no priority semantics inside the engine:
/// swapping them gives the same settlement outcome — the identical `Result`
/// (both calls succeed, or both fail with the same error), and, on success,
/// the identical stored order records (the balance effects of `execute` are
/// already stated per seller and buyer, which the sides determine, not the
/// labels).
pub proof fn lemma_execute_check_symmetric(
    c: Contract,
    a: u64,
    b: u64,
    base_fill: u128,
    quote_paid: u128,
)
    ensures
        c.execute_check(a, b, base_fill, quote_paid) == c.execute_check(
            b,
            a,
            base_fill,
            quote_paid,
        ),
        a != b && c.order_exists(a) && c.order_exists(b) ==> c.orders_seq().update(
            a as int,
            filled_order(c.order_at(a), base_fill, quote_paid),
        ).update(b as int, filled_order(c.order_at(b), base_fill, quote_paid)) == c.orders_seq()
            .update(b as int, filled_order(c.order_at(b), base_fill, quote_paid)).update(
            a as int,
            filled_order(c.order_at(a), base_fill, quote_paid),
        ),
{
    if a != b && c.order_exists(a) && c.order_exists(b) {
        let fa = filled_order(c.order_at(a), base_fill, quote_paid);
        let fb = filled_order(c.order_at(b), base_fill, quote_paid);
        assert(c.orders_seq().update(a as int, fa).update(b as int, fb) =~= c.orders_seq().update(
            b as int,
            fb,
        ).update(a as int, fa));
    }
}

/// A cancelled order is terminal: a further cancellation by its owner is
/// refused with a state error, one by anyone else with an authorization
/// error, and by `cancel_order`'s contract a refused cancellation changes
/// nothing.
pub proof fn lemma_cancel_terminal(c: Contract, order_id: u64)
    requires
        c.wf(),
        c.order_exists(order_id),
        c.order_at(order_id).status is Cancelled,
    ensures
        c.cancel_check(c.order_at(order_id).owner_id, order_id) == Err::<(), ObError>(
            ObError::StateError,
        ),
        forall|a: AccountId| (#[trigger] c.cancel_check(a, order_id)) is Err,
{
}

} // verus!
