//! Orders, executions and the events of an order book.
use vstd::prelude::*;

verus! {

pub type OrderId = u64;

pub type AccountId = u64;

pub type Quantity = u64;

pub type Sequence = u64;

pub type InstrumentId = u32;

/// A price in integer ticks.
#[derive(Debug, Clone, Copy, PartialEq, Eq, PartialOrd, Ord, Hash, Structural)]
pub struct Price(pub u64);

#[derive(Debug, Clone, Copy, PartialEq, Eq, Structural)]
pub enum Side {
    Buy,
    Sell,
}

impl Side {
    /// The other side.
    pub open spec fn other(self) -> Side {
        match self {
            Side::Buy => Side::Sell,
            Side::Sell => Side::Buy,
        }
    }

    pub fn opposite(self) -> (side: Self)
        ensures
            side == self.other(),
    {
        match self {
            Side::Buy => Side::Sell,
            Side::Sell => Side::Buy,
        }
    }
}

/// An incoming limit order.
#[derive(Debug, Clone, Copy, PartialEq, Eq)]
pub struct NewOrder {
    pub order_id: OrderId,
    pub account_id: AccountId,
    pub side: Side,
    pub price: Price,
    pub quantity: Quantity,
}

/// An order that waits in the book; its price is that of its level.
#[derive(Debug, Clone, Copy, PartialEq, Eq)]
pub struct RestingOrder {
    pub order_id: OrderId,
    pub account_id: AccountId,
    pub quantity: Quantity,
}

/// A trade between a resting order and the order that arrived.
#[derive(Debug, Clone, Copy, PartialEq, Eq)]
pub struct Execution {
    pub resting_order_id: OrderId,
    pub aggressing_order_id: OrderId,
    pub price: Price,
    pub quantity: Quantity,
}

#[derive(Debug, Clone, Copy, PartialEq, Eq)]
pub enum BookEvent {
    Accepted { seq: Sequence, order_id: OrderId },
    Executed { seq: Sequence, execution: Execution },
    Rested { seq: Sequence, order_id: OrderId, side: Side, price: Price, quantity: Quantity },
    Canceled { seq: Sequence, order_id: OrderId, side: Side, price: Price, quantity: Quantity },
    Rejected { seq: Sequence, order_id: OrderId, reason: RejectReason },
}

impl BookEvent {
    /// The sequence number that the event carries.
    pub open spec fn number(self) -> Sequence {
        match self {
            BookEvent::Accepted { seq, .. } => seq,
            BookEvent::Executed { seq, .. } => seq,
            BookEvent::Rested { seq, .. } => seq,
            BookEvent::Canceled { seq, .. } => seq,
            BookEvent::Rejected { seq, .. } => seq,
        }
    }

    /// Whether the event changes the visible book, and so belongs on the public feed.
    pub open spec fn is_public(self) -> bool {
        !(self is Accepted) && !(self is Rejected)
    }
}

/// Why an order or a cancellation was refused. The first three are the book's own reasons, the
/// others those of a venue's instrument and balance checks.
#[derive(Debug, Clone, Copy, PartialEq, Eq, Structural)]
pub enum RejectReason {
    DuplicateOrderId,
    UnknownOrderId,
    ZeroQuantity,
    InvalidPriceTick,
    InvalidQuantityStep,
    BelowMinNotional,
    InsufficientBalance,
}

/// The total quantity that rests at one price.
#[derive(Debug, Clone, Copy, PartialEq, Eq)]
pub struct Level {
    pub price: Price,
    pub quantity: Quantity,
}

/// The best levels of both sides of a book, best first, with a checksum over them.
#[derive(Debug, Clone, PartialEq, Eq)]
pub struct BookSnapshot {
    pub seq: Sequence,
    pub bids: Vec<Level>,
    pub asks: Vec<Level>,
    pub checksum: u32,
}

} // verus!
