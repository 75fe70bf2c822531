use vstd::prelude::*;

verus! {

/// Opaque account identity, compared only for equality.
pub type AccountId = u64;

/// Opaque asset identity; an exchange instance configures exactly two.
pub type TokenId = u64;

#[derive(Clone, Copy, PartialEq, Eq, Structural, Debug)]
pub enum Side {
    Buy,
    Sell,
}

#[derive(Clone, Copy, PartialEq, Eq, Structural, Debug)]
pub enum OrderStatus {
    Open,
    Filled,
    Cancelled,
}

/// A limit order. Funds reserved for the order live in its lock field, not in
/// the owner's available balance, until released by a fill or a cancellation.
#[derive(Clone, Copy, PartialEq, Eq, Structural, Debug)]
pub struct Order {
    /// Assigned sequentially starting at 0; never reused.
    pub id: u64,
    pub owner_id: AccountId,
    pub side: Side,
    /// Price floor (sell) or ceiling (buy), `price_num / price_den` quote
    /// units per base unit; both parts positive.
    pub price_num: u128,
    pub price_den: u128,
    /// Originally requested base quantity; immutable after creation.
    pub amount_base: u128,
    /// Unfilled base quantity; non-increasing over the order's life.
    pub remaining_base: u128,
    /// Reserved quote funds; nonzero only for buy orders.
    pub locked_quote_remaining: u128,
    /// Reserved base funds; nonzero only for sell orders.
    pub locked_base_remaining: u128,
    pub status: OrderStatus,
    /// Milliseconds, as given by the host at placement.
    pub created_at: u64,
}

/// Structural invariant of every stored order.
///
/// A sell order's base lock always equals its unfilled quantity. A buy order
/// that fills below its reserved spend keeps the surplus in its lock (it is
/// not refunded on fill), so a filled buy order may retain a nonzero quote
/// lock. Among never-cancelled orders, `Filled` holds exactly when
/// `remaining_base` is zero.
pub open spec fn order_wf(o: Order) -> bool {
    &&& o.price_num > 0
    &&& o.price_den > 0
    &&& o.amount_base > 0
    &&& o.remaining_base <= o.amount_base
    &&& (o.side is Buy ==> o.locked_base_remaining == 0)
    &&& (o.side is Sell ==> o.locked_quote_remaining == 0
        && o.locked_base_remaining == o.remaining_base)
    &&& (o.status is Open ==> o.remaining_base > 0)
    &&& (o.status is Filled ==> o.remaining_base == 0)
    &&& (o.status is Cancelled ==> o.remaining_base == 0
        && o.locked_base_remaining == 0 && o.locked_quote_remaining == 0)
}

pub open spec fn spec_side_str(side: Side) -> Seq<char> {
    match side {
        Side::Buy => "buy"@,
        Side::Sell => "sell"@,
    }
}

pub fn side_str(side: &Side) -> (r: &'static str)
    ensures
        r@ == spec_side_str(*side),
{
    match side {
        Side::Buy => "buy",
        Side::Sell => "sell",
    }
}

pub open spec fn spec_status_str(st: OrderStatus) -> Seq<char> {
    match st {
        OrderStatus::Open => "open"@,
        OrderStatus::Filled => "filled"@,
        OrderStatus::Cancelled => "cancelled"@,
    }
}

pub fn status_str(st: &OrderStatus) -> (r: &'static str)
    ensures
        r@ == spec_status_str(*st),
{
    match st {
        OrderStatus::Open => "open",
        OrderStatus::Filled => "filled",
        OrderStatus::Cancelled => "cancelled",
    }
}

/// Presentation record returned by the queries: one stored order with its
/// side and status rendered as text.
pub struct OrderView {
    pub id: u64,
    pub owner_id: AccountId,
    pub side: String,
    pub price_num: u128,
    pub price_den: u128,
    pub amount_base: u128,
    pub remaining_base: u128,
    pub locked_quote_remaining: u128,
    pub locked_base_remaining: u128,
    pub status: String,
    pub created_at: u64,
}

/// `v` renders exactly the stored order `o`.
pub open spec fn view_matches(v: OrderView, o: Order) -> bool {
    &&& v.id == o.id
    &&& v.owner_id == o.owner_id
    &&& v.side@ == spec_side_str(o.side)
    &&& v.price_num == o.price_num
    &&& v.price_den == o.price_den
    &&& v.amount_base == o.amount_base
    &&& v.remaining_base == o.remaining_base
    &&& v.locked_quote_remaining == o.locked_quote_remaining
    &&& v.locked_base_remaining == o.locked_base_remaining
    &&& v.status@ == spec_status_str(o.status)
    &&& v.created_at == o.created_at
}

pub fn order_to_view(o: &Order) -> (v: OrderView)
    ensures
        view_matches(v, *o),
{
    OrderView {
        id: o.id,
        owner_id: o.owner_id,
        side: side_str(&o.side).to_owned(),
        price_num: o.price_num,
        price_den: o.price_den,
        amount_base: o.amount_base,
        remaining_base: o.remaining_base,
        locked_quote_remaining: o.locked_quote_remaining,
        locked_base_remaining: o.locked_base_remaining,
        status: status_str(&o.status).to_owned(),
        created_at: o.created_at,
    }
}

/// ASCII upper-case letters fold to lower case; every other byte is kept.
pub open spec fn ascii_lower(b: u8) -> u8 {
    if 65 <= b && b <= 90 {
        (b + 32) as u8
    } else {
        b
    }
}

fn lower_byte(b: u8) -> (r: u8)
    ensures
        r == ascii_lower(b),
{
    if b >= 65 && b <= 90 {
        b + 32
    } else {
        b
    }
}

/// Which side, if any, a byte string names, matched case-insensitively.
pub open spec fn side_of_bytes(s: Seq<u8>) -> Option<Side> {
    if s.len() == 3 && ascii_lower(s[0]) == 98 && ascii_lower(s[1]) == 117 && ascii_lower(
        s[2],
    ) == 121 {
        Some(Side::Buy)
    } else if s.len() == 4 && ascii_lower(s[0]) == 115 && ascii_lower(s[1]) == 101 && ascii_lower(
        s[2],
    ) == 108 && ascii_lower(s[3]) == 108 {
        Some(Side::Sell)
    } else {
        None
    }
}

/// Which side, if any, a string names: "buy" or "sell" in any ASCII casing.
pub open spec fn side_of_str(s: Seq<char>) -> Option<Side> {
    side_of_bytes(vstd::utf8::encode_utf8(s))
}

pub fn parse_side(s: &str) -> (r: Option<Side>)
    ensures
        r == side_of_str(s@),
{
    let b = s.as_bytes();
    if b.len() == 3 {
        if lower_byte(b[0]) == 98 && lower_byte(b[1]) == 117 && lower_byte(b[2]) == 121 {
            Some(Side::Buy)
        } else {
            None
        }
    } else if b.len() == 4 {
        if lower_byte(b[0]) == 115 && lower_byte(b[1]) == 101 && lower_byte(b[2]) == 108
            && lower_byte(b[3]) == 108 {
            Some(Side::Sell)
        } else {
            None
        }
    } else {
        None
    }
}

} // verus!
