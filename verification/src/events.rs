//! Events and book levels as text.
use vstd::prelude::*;

use crate::text;
use crate::types::{BookEvent, Level, OrderId, Price, Quantity, RejectReason, Sequence, Side};

verus! {

pub open spec fn side_text(side: Side) -> Seq<char> {
    match side {
        Side::Buy => "buy"@,
        Side::Sell => "sell"@,
    }
}

pub open spec fn reason_text(reason: RejectReason) -> Seq<char> {
    match reason {
        RejectReason::DuplicateOrderId => "DuplicateOrderId"@,
        RejectReason::UnknownOrderId => "UnknownOrderId"@,
        RejectReason::ZeroQuantity => "ZeroQuantity"@,
        RejectReason::InvalidPriceTick => "InvalidPriceTick"@,
        RejectReason::InvalidQuantityStep => "InvalidQuantityStep"@,
        RejectReason::BelowMinNotional => "BelowMinNotional"@,
        RejectReason::InsufficientBalance => "InsufficientBalance"@,
    }
}

/// What stands behind the kind and the number of an event about a resting order.
pub open spec fn resting_text(order_id: OrderId, side: Side, price: Price, quantity: Quantity) -> Seq<char> {
    ":order="@ + text::dec(order_id as nat) + ":side="@ + side_text(side) + ":qty="@ + text::dec(
        quantity as nat,
    ) + ":price="@ + text::dec(price.0 as nat)
}

/// An event as one word, its parts separated by colons.
pub open spec fn event_text(event: BookEvent) -> Seq<char> {
    match event {
        BookEvent::Accepted { seq, order_id } => "accepted:"@ + text::dec(seq as nat) + ":order="@
            + text::dec(order_id as nat),
        BookEvent::Executed { seq, execution } => "executed:"@ + text::dec(seq as nat) + ":resting="@
            + text::dec(execution.resting_order_id as nat) + ":aggressing="@ + text::dec(
            execution.aggressing_order_id as nat,
        ) + ":qty="@ + text::dec(execution.quantity as nat) + ":price="@ + text::dec(
            execution.price.0 as nat,
        ),
        BookEvent::Rested { seq, order_id, side, price, quantity } => "rested:"@ + text::dec(seq as nat)
            + resting_text(order_id, side, price, quantity),
        BookEvent::Canceled { seq, order_id, side, price, quantity } => "canceled:"@ + text::dec(
            seq as nat,
        ) + resting_text(order_id, side, price, quantity),
        BookEvent::Rejected { seq, order_id, reason } => "rejected:"@ + text::dec(seq as nat) + ":order="@
            + text::dec(order_id as nat) + ":reason="@ + reason_text(reason),
    }
}

pub open spec fn level_text(level: Level) -> Seq<char> {
    text::dec(level.quantity as nat) + "@"@ + text::dec(level.price.0 as nat)
}

/// Levels as a list of quantities at prices; a dash where there are none.
pub open spec fn levels_text(levels: Seq<Level>) -> Seq<char> {
    if levels.len() == 0 {
        "-"@
    } else {
        text::joined(Seq::new(levels.len(), |i: int| level_text(levels[i])), ","@)
    }
}

pub fn side_name(side: Side) -> (name: &'static str)
    ensures
        name@ == side_text(side),
{
    match side {
        Side::Buy => "buy",
        Side::Sell => "sell",
    }
}

/// The side with this name.
pub open spec fn side_named(name: Seq<char>) -> Option<Side> {
    if name == side_text(Side::Buy) {
        Some(Side::Buy)
    } else if name == side_text(Side::Sell) {
        Some(Side::Sell)
    } else {
        None
    }
}

/// The side with this name.
pub fn parse_side(name: &str) -> (side: Option<Side>)
    ensures
        side == side_named(name@),
{
    if text::same(name, "buy") {
        Some(Side::Buy)
    } else if text::same(name, "sell") {
        Some(Side::Sell)
    } else {
        None
    }
}

pub fn reason_name(reason: RejectReason) -> (name: &'static str)
    ensures
        name@ == reason_text(reason),
{
    match reason {
        RejectReason::DuplicateOrderId => "DuplicateOrderId",
        RejectReason::UnknownOrderId => "UnknownOrderId",
        RejectReason::ZeroQuantity => "ZeroQuantity",
        RejectReason::InvalidPriceTick => "InvalidPriceTick",
        RejectReason::InvalidQuantityStep => "InvalidQuantityStep",
        RejectReason::BelowMinNotional => "BelowMinNotional",
        RejectReason::InsufficientBalance => "InsufficientBalance",
    }
}

pub fn price(value: u64) -> (price: Price)
    ensures
        price == Price(value),
{
    Price(value)
}

/// Whether the event changes the visible book, and so belongs on the public feed.
pub fn is_public_event(event: &BookEvent) -> (result: bool)
    ensures
        result == event.is_public(),
{
    match event {
        BookEvent::Accepted { .. } => false,
        BookEvent::Rejected { .. } => false,
        BookEvent::Executed { .. } => true,
        BookEvent::Rested { .. } => true,
        BookEvent::Canceled { .. } => true,
    }
}

/// The sequence number that the event carries.
pub fn event_seq(event: &BookEvent) -> (seq: u64)
    ensures
        seq == event.number(),
{
    match event {
        BookEvent::Accepted { seq, .. } => *seq,
        BookEvent::Executed { seq, .. } => *seq,
        BookEvent::Rested { seq, .. } => *seq,
        BookEvent::Canceled { seq, .. } => *seq,
        BookEvent::Rejected { seq, .. } => *seq,
    }
}

/// A text that starts with `kind` and the number of an event.
fn numbered(kind: &str, seq: Sequence) -> (line: String)
    ensures
        line@ == kind@ + text::dec(seq as nat),
{
    let mut line = kind.to_owned();
    text::append_decimal(&mut line, seq as u128);
    line
}

fn append_resting(line: &mut String, order_id: OrderId, side: Side, price: Price, quantity: Quantity)
    ensures
        final(line)@ == old(line)@ + resting_text(order_id, side, price, quantity),
{
    let ghost before = line@;
    let mut rest = ":order=".to_owned();
    text::append_decimal(&mut rest, order_id as u128);
    rest.append(":side=");
    rest.append(side_name(side));
    rest.append(":qty=");
    text::append_decimal(&mut rest, quantity as u128);
    rest.append(":price=");
    text::append_decimal(&mut rest, price.0 as u128);
    line.append(rest.as_str());
}

/// The event as its owner sees it.
pub fn private_event(event: &BookEvent) -> (line: String)
    ensures
        line@ == event_text(*event),
{
    event_line(event)
}

/// The event as one word.
pub fn event_line(event: &BookEvent) -> (line: String)
    ensures
        line@ == event_text(*event),
{
    match event {
        BookEvent::Accepted { seq, order_id } => {
            let mut line = numbered("accepted:", *seq);
            line.append(":order=");
            text::append_decimal(&mut line, *order_id as u128);
            line
        },
        BookEvent::Executed { seq, execution } => {
            let mut line = numbered("executed:", *seq);
            line.append(":resting=");
            text::append_decimal(&mut line, execution.resting_order_id as u128);
            line.append(":aggressing=");
            text::append_decimal(&mut line, execution.aggressing_order_id as u128);
            line.append(":qty=");
            text::append_decimal(&mut line, execution.quantity as u128);
            line.append(":price=");
            text::append_decimal(&mut line, execution.price.0 as u128);
            line
        },
        BookEvent::Rested { seq, order_id, side, price, quantity } => {
            let mut line = numbered("rested:", *seq);
            append_resting(&mut line, *order_id, *side, *price, *quantity);
            line
        },
        BookEvent::Canceled { seq, order_id, side, price, quantity } => {
            let mut line = numbered("canceled:", *seq);
            append_resting(&mut line, *order_id, *side, *price, *quantity);
            line
        },
        BookEvent::Rejected { seq, order_id, reason } => {
            let mut line = numbered("rejected:", *seq);
            line.append(":order=");
            text::append_decimal(&mut line, *order_id as u128);
            line.append(":reason=");
            line.append(reason_name(*reason));
            line
        },
    }
}

/// The event as the public feed shows it; nothing where it is not public.
pub fn format_public_event(event: &BookEvent) -> (line: String)
    ensures
        line@ == (if event.is_public() {
            event_text(*event)
        } else {
            seq![]
        }),
{
    if is_public_event(event) {
        event_line(event)
    } else {
        let line = String::new();
        assert(line@ =~= seq![]);
        line
    }
}

/// Levels as a list of quantities at prices; a dash where there are none.
pub fn levels(list: &[Level]) -> (line: String)
    ensures
        line@ == levels_text(list@),
{
    let n: usize = list.len();
    if n == 0 {
        return "-".to_owned();
    }
    let mut parts: Vec<String> = Vec::new();
    let mut i: usize = 0;
    while i < n
        invariant
            i <= n,
            n == list@.len(),
            parts@.len() == i,
            forall|j: int| 0 <= j < i ==> (#[trigger] parts@[j])@ == level_text(list@[j]),
        decreases n - i,
    {
        let level = &list[i];
        let mut part = String::new();
        text::append_decimal(&mut part, level.quantity as u128);
        assert(part@ =~= text::dec(level.quantity as nat));
        part.append("@");
        text::append_decimal(&mut part, level.price.0 as u128);
        parts.push(part);
        i = i + 1;
    }
    assert(text::texts(parts@) =~= Seq::new(list@.len(), |i: int| level_text(list@[i])));
    text::join(&parts, ",")
}

/// The texts of `events`, with `separator` between them.
pub open spec fn events_text(events: Seq<BookEvent>, separator: Seq<char>) -> Seq<char> {
    text::joined(Seq::new(events.len(), |i: int| event_text(events[i])), separator)
}

/// Events as their owner sees them, separated by bars.
pub fn private_events(events: &Vec<BookEvent>) -> (line: String)
    ensures
        line@ == events_text(events@, "|"@),
{
    let n: usize = events.len();
    let mut parts: Vec<String> = Vec::new();
    let mut i: usize = 0;
    while i < n
        invariant
            i <= n,
            n == events@.len(),
            parts@.len() == i,
            forall|j: int| 0 <= j < i ==> (#[trigger] parts@[j])@ == event_text(events@[j]),
        decreases n - i,
    {
        parts.push(private_event(&events[i]));
        i = i + 1;
    }
    assert(text::texts(parts@) =~= Seq::new(events@.len(), |i: int| event_text(events@[i])));
    text::join(&parts, "|")
}

} // verus!
