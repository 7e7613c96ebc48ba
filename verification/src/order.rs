//! Orders and trades: the records the matching engine works on.

use vstd::prelude::*;
use vstd::string::StringExecFns;

verus! {

#[derive(Clone, Copy, PartialEq, Eq, Structural, Debug)]
pub enum OrderSide {
    Buy,
    Sell,
}

#[derive(Clone, Copy, PartialEq, Eq, Structural, Debug)]
pub enum OrderType {
    Market,
    Limit,
}

#[derive(Clone, Copy, PartialEq, Eq, Structural, Debug)]
pub enum TimeInForce {
    GTC,
    IOC,
    FOK,
}

#[derive(Clone, Copy, PartialEq, Eq, Structural, Debug)]
pub enum OrderStatus {
    Pending,
    PartiallyFilled,
    Filled,
    Cancelled,
    Rejected,
}

/// An order as the engine sees it. Prices are fixed-point integers
/// (`crate::PRICE_SCALE` units per whole), quantities are whole shares,
/// timestamps are milliseconds since the Unix epoch.
#[derive(Clone, Copy, PartialEq, Eq, Structural, Debug)]
pub struct Order {
    pub id: u128,
    pub user_id: i32,
    pub event_id: i32,
    pub option_id: i32,
    pub side: OrderSide,
    pub order_type: OrderType,
    pub time_in_force: TimeInForce,
    pub price: u64,
    pub quantity: u64,
    pub filled_quantity: u64,
    pub status: OrderStatus,
    pub created_at: i64,
    pub updated_at: i64,
}

/// Basic well-formedness of an order: a positive quantity, a positive price,
/// and a filled amount that never exceeds the ordered amount.
pub open spec fn order_wf(o: Order) -> bool {
    &&& 1 <= o.quantity
    &&& o.filled_quantity <= o.quantity
    &&& 1 <= o.price
}

/// Shares of the order that are still unfilled.
pub open spec fn spec_remaining(o: Order) -> int {
    o.quantity - o.filled_quantity
}

/// The order after `q` more shares fill: the filled amount grows and the
/// status moves to `Filled` or `PartiallyFilled`.
pub open spec fn spec_fill(o: Order, q: int, now: i64) -> Order {
    Order {
        filled_quantity: (o.filled_quantity + q) as u64,
        status: if o.filled_quantity + q >= o.quantity {
            OrderStatus::Filled
        } else {
            OrderStatus::PartiallyFilled
        },
        updated_at: now,
        ..o
    }
}

impl Order {
    /// Build a new pending order with a fresh random identifier and the
    /// current time on both timestamps.
    pub fn new(
        user_id: i32,
        event_id: i32,
        option_id: i32,
        side: OrderSide,
        order_type: OrderType,
        time_in_force: TimeInForce,
        price: u64,
        quantity: u64,
    ) -> (r: Order)
        ensures
            r == (Order {
                id: r.id,
                user_id,
                event_id,
                option_id,
                side,
                order_type,
                time_in_force,
                price,
                quantity,
                filled_quantity: 0,
                status: OrderStatus::Pending,
                created_at: r.created_at,
                updated_at: r.created_at,
            }),
    {
        let id = crate::ids::fresh_id();
        let now = crate::clock::now_millis();
        Order {
            id,
            user_id,
            event_id,
            option_id,
            side,
            order_type,
            time_in_force,
            price,
            quantity,
            filled_quantity: 0,
            status: OrderStatus::Pending,
            created_at: now,
            updated_at: now,
        }
    }

    /// Shares still unfilled.
    pub fn remaining_quantity(&self) -> (r: u64)
        requires
            self.filled_quantity <= self.quantity,
        ensures
            r == spec_remaining(*self),
    {
        self.quantity - self.filled_quantity
    }

    /// Whether the order is completely filled.
    pub fn is_filled(&self) -> (r: bool)
        ensures
            r == (self.filled_quantity >= self.quantity),
    {
        self.filled_quantity >= self.quantity
    }

    /// Record `quantity` more filled shares at time `now`.
    pub fn fill(&mut self, quantity: u64, now: i64)
        requires
            quantity <= spec_remaining(*old(self)),
        ensures
            *final(self) == spec_fill(*old(self), quantity as int, now),
    {
        self.filled_quantity = self.filled_quantity + quantity;
        if self.filled_quantity >= self.quantity {
            self.status = OrderStatus::Filled;
        } else {
            self.status = OrderStatus::PartiallyFilled;
        }
        self.updated_at = now;
    }

    /// Mark the order cancelled at time `now`.
    pub fn cancel(&mut self, now: i64)
        ensures
            *final(self) == (Order { status: OrderStatus::Cancelled, updated_at: now, ..*old(self) }),
    {
        self.status = OrderStatus::Cancelled;
        self.updated_at = now;
    }

    /// Mark the order rejected at time `now`.
    pub fn reject(&mut self, now: i64)
        ensures
            *final(self) == (Order { status: OrderStatus::Rejected, updated_at: now, ..*old(self) }),
    {
        self.status = OrderStatus::Rejected;
        self.updated_at = now;
    }
}

/// The stored name of an order side.
pub open spec fn spec_order_side_str(v: OrderSide) -> Seq<char> {
    match v {
        OrderSide::Buy => "Buy"@,
        OrderSide::Sell => "Sell"@,
    }
}

/// The stored name of an order type.
pub open spec fn spec_order_type_str(v: OrderType) -> Seq<char> {
    match v {
        OrderType::Market => "Market"@,
        OrderType::Limit => "Limit"@,
    }
}

/// The stored name of a time-in-force policy.
pub open spec fn spec_time_in_force_str(v: TimeInForce) -> Seq<char> {
    match v {
        TimeInForce::GTC => "GTC"@,
        TimeInForce::IOC => "IOC"@,
        TimeInForce::FOK => "FOK"@,
    }
}

/// The stored name of an order status.
pub open spec fn spec_order_status_str(v: OrderStatus) -> Seq<char> {
    match v {
        OrderStatus::Pending => "Pending"@,
        OrderStatus::PartiallyFilled => "PartiallyFilled"@,
        OrderStatus::Filled => "Filled"@,
        OrderStatus::Cancelled => "Cancelled"@,
        OrderStatus::Rejected => "Rejected"@,
    }
}

impl OrderSide {
    /// The side's stored name.
    pub fn to_string(&self) -> (r: String)
        ensures
            r@ == spec_order_side_str(*self),
    {
        match self {
            OrderSide::Buy => String::from_str("Buy"),
            OrderSide::Sell => String::from_str("Sell"),
        }
    }
}

impl OrderType {
    /// The type's stored name.
    pub fn to_string(&self) -> (r: String)
        ensures
            r@ == spec_order_type_str(*self),
    {
        match self {
            OrderType::Market => String::from_str("Market"),
            OrderType::Limit => String::from_str("Limit"),
        }
    }
}

impl TimeInForce {
    /// The policy's stored name.
    pub fn to_string(&self) -> (r: String)
        ensures
            r@ == spec_time_in_force_str(*self),
    {
        match self {
            TimeInForce::GTC => String::from_str("GTC"),
            TimeInForce::IOC => String::from_str("IOC"),
            TimeInForce::FOK => String::from_str("FOK"),
        }
    }
}

impl OrderStatus {
    /// The status's stored name.
    pub fn to_string(&self) -> (r: String)
        ensures
            r@ == spec_order_status_str(*self),
    {
        match self {
            OrderStatus::Pending => String::from_str("Pending"),
            OrderStatus::PartiallyFilled => String::from_str("PartiallyFilled"),
            OrderStatus::Filled => String::from_str("Filled"),
            OrderStatus::Cancelled => String::from_str("Cancelled"),
            OrderStatus::Rejected => String::from_str("Rejected"),
        }
    }
}

/// Read a stored side name back; unknown names fall back to `Buy`.
pub open spec fn spec_parse_order_side(s: Seq<char>) -> OrderSide {
    if s == "Sell"@ {
        OrderSide::Sell
    } else {
        OrderSide::Buy
    }
}

/// Read a stored side name back; unknown names fall back to `Buy`.
pub fn parse_order_side(s: &str) -> (r: OrderSide)
    ensures
        r == spec_parse_order_side(s@),
{
    if crate::text::str_eq(s, "Sell") {
        OrderSide::Sell
    } else {
        OrderSide::Buy
    }
}

/// Read a stored order type back; unknown names fall back to `Limit`.
pub open spec fn spec_parse_order_type(s: Seq<char>) -> OrderType {
    if s == "Market"@ {
        OrderType::Market
    } else {
        OrderType::Limit
    }
}

/// Read a stored order type back; unknown names fall back to `Limit`.
pub fn parse_order_type(s: &str) -> (r: OrderType)
    ensures
        r == spec_parse_order_type(s@),
{
    if crate::text::str_eq(s, "Market") {
        OrderType::Market
    } else {
        OrderType::Limit
    }
}

/// Read a stored time-in-force back; unknown names fall back to `GTC`.
pub open spec fn spec_parse_time_in_force(s: Seq<char>) -> TimeInForce {
    if s == "IOC"@ {
        TimeInForce::IOC
    } else if s == "FOK"@ {
        TimeInForce::FOK
    } else {
        TimeInForce::GTC
    }
}

/// Read a stored time-in-force back; unknown names fall back to `GTC`.
pub fn parse_time_in_force(s: &str) -> (r: TimeInForce)
    ensures
        r == spec_parse_time_in_force(s@),
{
    if crate::text::str_eq(s, "IOC") {
        TimeInForce::IOC
    } else if crate::text::str_eq(s, "FOK") {
        TimeInForce::FOK
    } else {
        TimeInForce::GTC
    }
}

/// Read a stored status back; unknown names fall back to `Pending`.
pub open spec fn spec_parse_order_status(s: Seq<char>) -> OrderStatus {
    if s == "PartiallyFilled"@ {
        OrderStatus::PartiallyFilled
    } else if s == "Filled"@ {
        OrderStatus::Filled
    } else if s == "Cancelled"@ {
        OrderStatus::Cancelled
    } else if s == "Rejected"@ {
        OrderStatus::Rejected
    } else {
        OrderStatus::Pending
    }
}

/// Read a stored status back; unknown names fall back to `Pending`.
pub fn parse_order_status(s: &str) -> (r: OrderStatus)
    ensures
        r == spec_parse_order_status(s@),
{
    if crate::text::str_eq(s, "PartiallyFilled") {
        OrderStatus::PartiallyFilled
    } else if crate::text::str_eq(s, "Filled") {
        OrderStatus::Filled
    } else if crate::text::str_eq(s, "Cancelled") {
        OrderStatus::Cancelled
    } else if crate::text::str_eq(s, "Rejected") {
        OrderStatus::Rejected
    } else {
        OrderStatus::Pending
    }
}

/// A trade produced by one match. `total_amount` is always
/// `price * quantity`, held in a wide integer so it cannot overflow.
#[derive(Clone, Copy, PartialEq, Eq, Structural, Debug)]
pub struct Trade {
    pub id: u128,
    pub event_id: i32,
    pub option_id: i32,
    pub buyer_id: i32,
    pub seller_id: i32,
    pub buy_order_id: u128,
    pub sell_order_id: u128,
    pub price: u64,
    pub quantity: u64,
    pub total_amount: u128,
    pub timestamp: i64,
}

/// Well-formedness of a trade: a positive quantity and a consistent total.
pub open spec fn trade_wf(t: Trade) -> bool {
    &&& 1 <= t.quantity
    &&& 1 <= t.price
    &&& t.total_amount == t.price * t.quantity
}

/// The same trade with its random identifier normalised away; two matching
/// runs agree on everything except the identifiers drawn for the trades.
pub open spec fn trade_core(t: Trade) -> Trade {
    Trade { id: 0, ..t }
}

} // verus!
