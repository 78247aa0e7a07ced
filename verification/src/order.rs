//! Orders: an entry intent plus an optional exit rule.

use vstd::prelude::*;

use crate::errors::Error;
use crate::money::{PCT_MAX, PRICE_MAX, QTY_MAX};

verus! {

/// The side of an order.
#[derive(Clone, Copy, PartialEq, Eq, Structural, Debug)]
pub enum OrderSide {
    Buy,
    Sell,
}

/// The kind of an order. `Market` and `Limit` carry an entry price;
/// `TakeProfitAndStopLoss` and `TrailingStop` describe exit rules.
///
/// In `TakeProfitAndStopLoss(tp, sl)` a zero in either slot means the rule
/// is not set on that side. In `TrailingStop(price, percent)` the first
/// field is the anchor price while the rule sits on an order, and the
/// ratcheting stop level once it sits on a position; `percent` is a whole
/// percent value.
#[derive(Clone, Copy, PartialEq, Eq, Structural, Debug)]
pub enum OrderType {
    Market(u64),
    Limit(u64),
    TakeProfitAndStopLoss(u64, u64),
    TrailingStop(u64, u64),
}

impl OrderType {
    /// True for the kinds that can open a position.
    pub open spec fn is_entry(self) -> bool {
        self is Market || self is Limit
    }

    /// The price carried by a `Market` or `Limit` order type; zero for the
    /// exit kinds, which carry no single entry price.
    pub open spec fn entry_price_spec(self) -> u64 {
        match self {
            OrderType::Market(p) => p,
            OrderType::Limit(p) => p,
            _ => 0,
        }
    }

    /// Every price or percent carried is inside the supported range.
    pub open spec fn bounded(self) -> bool {
        match self {
            OrderType::Market(p) => p <= PRICE_MAX,
            OrderType::Limit(p) => p <= PRICE_MAX,
            OrderType::TakeProfitAndStopLoss(tp, sl) => tp <= PRICE_MAX && sl <= PRICE_MAX,
            OrderType::TrailingStop(price, pct) => price <= PRICE_MAX && pct <= PCT_MAX,
        }
    }

    /// The price carried by a `Market` or `Limit` order type.
    pub fn inner(&self) -> (r: u64)
        requires
            self.is_entry(),
        ensures
            r == self.entry_price_spec(),
    {
        match self {
            OrderType::Market(p) => *p,
            OrderType::Limit(p) => *p,
            OrderType::TakeProfitAndStopLoss(tp, _) => *tp,
            OrderType::TrailingStop(p, _) => *p,
        }
    }
}

/// An order: how to enter, how much, on which side, and optionally how to
/// exit once the entry fills.
#[derive(Clone, Copy, PartialEq, Eq, Structural, Debug)]
pub struct Order {
    pub entry_type: OrderType,
    pub quantity: u64,
    pub side: OrderSide,
    pub exit_type: Option<OrderType>,
}

impl Order {
    /// Prices, percents and the quantity are inside the supported range,
    /// and the quantity is positive.
    pub open spec fn bounded(self) -> bool {
        &&& self.entry_type.bounded()
        &&& 1 <= self.quantity <= QTY_MAX
        &&& match self.exit_type {
            Some(t) => t.bounded(),
            None => true,
        }
    }

    /// The shape the engine stores after validation: a market or limit
    /// entry, and an exit rule that is absent, a take-profit/stop-loss, or
    /// a trailing stop with positive anchor and percent.
    pub open spec fn valid(self) -> bool {
        &&& self.bounded()
        &&& self.entry_type.is_entry()
        &&& match self.exit_type {
            None => true,
            Some(OrderType::TakeProfitAndStopLoss(_, _)) => true,
            Some(OrderType::TrailingStop(price, pct)) => price >= 1 && pct >= 1,
            Some(_) => false,
        }
    }

    pub open spec fn cost_spec(self) -> int {
        self.entry_type.entry_price_spec() * self.quantity
    }

    /// Builds an order, validating the rule shapes the way the engine
    /// does: the entry must be a market or limit type, and the exit — if
    /// any — a take-profit/stop-loss or a trailing stop with a positive
    /// anchor and percent. Range bounds are a machine limit checked at
    /// placement, not a property of the order itself.
    pub fn new(entry_type: OrderType, exit_type: Option<OrderType>, quantity: u64, side: OrderSide) -> (r: Result<
        Order,
        Error,
    >)
        ensures
            r matches Ok(o) ==> o == (Order { entry_type, quantity, side, exit_type }),
            r is Ok <==> entry_type.is_entry() && (match exit_type {
                None => true,
                Some(OrderType::TakeProfitAndStopLoss(_, _)) => true,
                Some(OrderType::TrailingStop(anchor, pct)) => anchor >= 1 && pct >= 1,
                Some(_) => false,
            }),
            !entry_type.is_entry() ==> (r matches Err(Error::MismatchedOrderType)),
            entry_type.is_entry() && (exit_type matches Some(t) && t.is_entry()) ==> (r matches Err(
                Error::MismatchedOrderType,
            )),
            entry_type.is_entry() && (exit_type matches Some(OrderType::TrailingStop(anchor, pct))
                && (anchor == 0 || pct == 0)) ==> (r matches Err(Error::NegZeroTrailingStop)),
            r matches Ok(o) ==> (o.bounded() ==> o.valid()),
    {
        match entry_type {
            OrderType::Market(_) => (),
            OrderType::Limit(_) => (),
            _ => {
                return Err(Error::MismatchedOrderType);
            },
        }
        match exit_type {
            None => (),
            Some(OrderType::TakeProfitAndStopLoss(_, _)) => (),
            Some(OrderType::TrailingStop(anchor, pct)) => {
                if anchor == 0 || pct == 0 {
                    return Err(Error::NegZeroTrailingStop);
                }
            },
            Some(_) => {
                return Err(Error::MismatchedOrderType);
            },
        }
        Ok(Order { entry_type, quantity, side, exit_type })
    }

    /// Checks at run time that the order is inside the supported ranges.
    pub fn is_bounded(&self) -> (r: bool)
        ensures
            r == self.bounded(),
    {
        let entry_ok = match self.entry_type {
            OrderType::Market(p) => p <= PRICE_MAX,
            OrderType::Limit(p) => p <= PRICE_MAX,
            OrderType::TakeProfitAndStopLoss(tp, sl) => tp <= PRICE_MAX && sl <= PRICE_MAX,
            OrderType::TrailingStop(price, pct) => price <= PRICE_MAX && pct <= PCT_MAX,
        };
        let exit_ok = match self.exit_type {
            None => true,
            Some(OrderType::Market(p)) => p <= PRICE_MAX,
            Some(OrderType::Limit(p)) => p <= PRICE_MAX,
            Some(OrderType::TakeProfitAndStopLoss(tp, sl)) => tp <= PRICE_MAX && sl <= PRICE_MAX,
            Some(OrderType::TrailingStop(price, pct)) => price <= PRICE_MAX && pct <= PCT_MAX,
        };
        entry_ok && exit_ok && 1 <= self.quantity && self.quantity <= QTY_MAX
    }

    /// The entry price of the order.
    pub fn entry_price(&self) -> (r: u64)
        requires
            self.entry_type.is_entry(),
        ensures
            r == self.entry_type.entry_price_spec(),
    {
        self.entry_type.inner()
    }

    /// The funds the order reserves: entry price times quantity.
    pub fn cost(&self) -> (r: u64)
        requires
            self.entry_type.is_entry(),
            self.bounded(),
        ensures
            r == self.cost_spec(),
            r <= PRICE_MAX * QTY_MAX,
    {
        proof {
            assert(self.entry_type.entry_price_spec() * self.quantity <= PRICE_MAX * QTY_MAX)
                by (nonlinear_arith)
                requires
                    self.entry_type.entry_price_spec() <= PRICE_MAX,
                    self.quantity <= QTY_MAX,
            ;
        }
        self.entry_type.inner() * self.quantity
    }

    /// The entry type of the order.
    pub fn entry_type(&self) -> (r: &OrderType)
        ensures
            r == self.entry_type,
    {
        &self.entry_type
    }

    /// The exit rule of the order, if any.
    pub fn exit_rule(&self) -> (r: &Option<OrderType>)
        ensures
            r == self.exit_type,
    {
        &self.exit_type
    }

    /// The exit rule after a trailing-stop update to `new_price`: the stop
    /// only moves in the position's favor — up for `Buy`, down for `Sell` —
    /// and every other rule is left alone.
    pub open spec fn with_trailingstop(self, new_price: u64) -> Order {
        match self.exit_type {
            Some(OrderType::TrailingStop(current, pct)) => {
                let moved = match self.side {
                    OrderSide::Buy => new_price > current,
                    OrderSide::Sell => new_price < current,
                };
                if moved {
                    Order {
                        exit_type: Some(OrderType::TrailingStop(new_price, pct)),
                        ..self
                    }
                } else {
                    self
                }
            },
            _ => self,
        }
    }

    /// Moves the trailing-stop level to `new_price` when that tightens the
    /// rule; a stop never loosens, and orders without a trailing stop are
    /// unchanged.
    pub fn set_trailingstop(&mut self, new_price: u64)
        ensures
            *final(self) == old(self).with_trailingstop(new_price),
    {
        if let Some(OrderType::TrailingStop(current, pct)) = self.exit_type {
            let moved = match self.side {
                OrderSide::Buy => new_price > current,
                OrderSide::Sell => new_price < current,
            };
            if moved {
                self.exit_type = Some(OrderType::TrailingStop(new_price, pct));
            }
        }
    }
}

impl From<(OrderType, u64, OrderSide)> for Order {
    /// Builds an order from `(entry_type, quantity, side)`, with no exit
    /// rule. Performs no validation; the engine validates when the order
    /// is placed, and `Order::new` validates up front.
    fn from(t: (OrderType, u64, OrderSide)) -> (r: Order) {
        Order { entry_type: t.0, quantity: t.1, side: t.2, exit_type: None }
    }
}

impl vstd::std_specs::convert::FromSpecImpl<(OrderType, u64, OrderSide)> for Order {
    open spec fn obeys_from_spec() -> bool {
        true
    }

    open spec fn from_spec(t: (OrderType, u64, OrderSide)) -> Order {
        Order { entry_type: t.0, quantity: t.1, side: t.2, exit_type: None }
    }
}

impl From<(OrderType, OrderType, u64, OrderSide)> for Order {
    /// Builds an order from `(entry_type, exit_type, quantity, side)`.
    /// Performs no validation; the engine validates when the order is
    /// placed, and `Order::new` validates up front.
    fn from(t: (OrderType, OrderType, u64, OrderSide)) -> (r: Order) {
        Order { entry_type: t.0, quantity: t.2, side: t.3, exit_type: Some(t.1) }
    }
}

impl vstd::std_specs::convert::FromSpecImpl<(OrderType, OrderType, u64, OrderSide)> for Order {
    open spec fn obeys_from_spec() -> bool {
        true
    }

    open spec fn from_spec(t: (OrderType, OrderType, u64, OrderSide)) -> Order {
        Order { entry_type: t.0, quantity: t.2, side: t.3, exit_type: Some(t.1) }
    }
}

} // verus!
