use exch::book::OrderBook;
use exch::checksum::checksum;
use exch::types::{
    BookEvent, BookSnapshot, Execution, Level, NewOrder, OrderId, Price, Quantity, RejectReason, Side,
};

fn order(order_id: OrderId, side: Side, price: u64, quantity: Quantity) -> NewOrder {
    NewOrder { order_id, account_id: 1, side, price: Price(price), quantity }
}

fn level(price: u64, quantity: u64) -> Level {
    Level { price: Price(price), quantity }
}

fn seq_of(event: &BookEvent) -> u64 {
    match event {
        BookEvent::Accepted { seq, .. } => *seq,
        BookEvent::Executed { seq, .. } => *seq,
        BookEvent::Rested { seq, .. } => *seq,
        BookEvent::Canceled { seq, .. } => *seq,
        BookEvent::Rejected { seq, .. } => *seq,
    }
}

#[test]
fn rests_non_marketable_limit_order() {
    let mut book = OrderBook::new();

    let events = book.submit_limit(NewOrder {
        order_id: 1,
        account_id: 10,
        side: Side::Buy,
        price: Price(100),
        quantity: 25,
    });

    assert_eq!(events.len(), 2);
    assert!(matches!(events[0], BookEvent::Accepted { order_id: 1, .. }));
    assert!(matches!(events[1], BookEvent::Rested { order_id: 1, quantity: 25, .. }));
    assert_eq!(book.snapshot(10).bids, vec![Level { price: Price(100), quantity: 25 }]);
}

#[test]
fn matches_price_time_priority_and_reports_executions_on_book_feed() {
    let mut book = OrderBook::new();
    book.submit_limit(order(1, Side::Sell, 101, 10));
    book.submit_limit(order(2, Side::Sell, 101, 15));

    let events = book.submit_limit(order(3, Side::Buy, 101, 20));

    assert!(matches!(
        &events[1],
        BookEvent::Executed {
            execution: Execution {
                resting_order_id: 1,
                aggressing_order_id: 3,
                price: Price(101),
                quantity: 10,
            },
            ..
        }
    ));
    assert!(matches!(
        &events[2],
        BookEvent::Executed {
            execution: Execution {
                resting_order_id: 2,
                aggressing_order_id: 3,
                price: Price(101),
                quantity: 10,
            },
            ..
        }
    ));
    assert_eq!(book.snapshot(10).asks, vec![Level { price: Price(101), quantity: 5 }]);
}

#[test]
fn cancels_resting_order() {
    let mut book = OrderBook::new();
    book.submit_limit(order(1, Side::Buy, 99, 7));

    let event = book.cancel(1);

    assert!(matches!(
        event,
        BookEvent::Canceled { order_id: 1, side: Side::Buy, price: Price(99), quantity: 7, .. }
    ));
    assert!(book.snapshot(10).bids.is_empty());
}

#[test]
fn cancellation_searches_sell_side_after_buy_side() {
    let mut book = OrderBook::new();
    book.submit_limit(order(1, Side::Sell, 101, 7));

    let event = book.cancel(1);

    assert!(matches!(
        event,
        BookEvent::Canceled { order_id: 1, side: Side::Sell, price: Price(101), quantity: 7, .. }
    ));
    assert!(book.snapshot(10).asks.is_empty());
}

#[test]
fn zero_quantity_and_duplicate_ids_are_rejected() {
    let mut book = OrderBook::new();
    assert_eq!(
        book.submit_limit(order(1, Side::Buy, 10, 0)),
        vec![BookEvent::Rejected { seq: 1, order_id: 1, reason: RejectReason::ZeroQuantity }]
    );
    book.submit_limit(order(1, Side::Buy, 10, 5));
    assert_eq!(
        book.submit_limit(order(1, Side::Sell, 10, 5)),
        vec![BookEvent::Rejected { seq: 4, order_id: 1, reason: RejectReason::DuplicateOrderId }]
    );
    // Without quantity comes before the duplicate id.
    assert_eq!(
        book.submit_limit(order(1, Side::Sell, 10, 0)),
        vec![BookEvent::Rejected { seq: 5, order_id: 1, reason: RejectReason::ZeroQuantity }]
    );
    assert_eq!(
        book.cancel(9),
        BookEvent::Rejected { seq: 6, order_id: 9, reason: RejectReason::UnknownOrderId }
    );
    assert_eq!(book.last_seq(), 6);
}

#[test]
fn sweeps_levels_from_the_best_price_and_rests_the_remainder() {
    let mut book = OrderBook::default();
    book.submit_limit(order(1, Side::Sell, 103, 4));
    book.submit_limit(order(2, Side::Sell, 101, 3));
    book.submit_limit(order(3, Side::Sell, 102, 2));
    book.submit_limit(order(4, Side::Sell, 101, 1));

    let events = book.submit_limit(order(5, Side::Buy, 102, 10));

    let traded: Vec<(u64, u64, u64)> = events
        .iter()
        .filter_map(|event| match event {
            BookEvent::Executed { execution, .. } => {
                Some((execution.resting_order_id, execution.price.0, execution.quantity))
            }
            _ => None,
        })
        .collect();
    assert_eq!(traded, vec![(2, 101, 3), (4, 101, 1), (3, 102, 2)]);
    assert_eq!(
        *events.last().unwrap(),
        BookEvent::Rested { seq: 13, order_id: 5, side: Side::Buy, price: Price(102), quantity: 4 }
    );
    let numbers: Vec<u64> = events.iter().map(seq_of).collect();
    assert_eq!(numbers, vec![9, 10, 11, 12, 13]);
    let snapshot = book.snapshot(10);
    assert_eq!(snapshot.bids, vec![level(102, 4)]);
    assert_eq!(snapshot.asks, vec![level(103, 4)]);
}

#[test]
fn sells_meet_the_highest_bid_first() {
    let mut book = OrderBook::new();
    book.submit_limit(order(1, Side::Buy, 99, 5));
    book.submit_limit(order(2, Side::Buy, 100, 5));

    let events = book.submit_limit(order(3, Side::Sell, 99, 7));

    assert!(matches!(
        events[1],
        BookEvent::Executed {
            execution: Execution { resting_order_id: 2, price: Price(100), quantity: 5, .. },
            ..
        }
    ));
    assert!(matches!(
        events[2],
        BookEvent::Executed {
            execution: Execution { resting_order_id: 1, price: Price(99), quantity: 2, .. },
            ..
        }
    ));
    assert_eq!(events.len(), 3);
    assert_eq!(book.snapshot(10).bids, vec![level(99, 3)]);
}

#[test]
fn snapshots_show_the_best_levels_with_their_totals() {
    let mut book = OrderBook::new();
    book.submit_limit(order(1, Side::Buy, 97, 1));
    book.submit_limit(order(2, Side::Buy, 99, 2));
    book.submit_limit(order(3, Side::Buy, 98, 3));
    book.submit_limit(order(4, Side::Buy, 99, 4));
    book.submit_limit(order(5, Side::Sell, 105, 5));
    book.submit_limit(order(6, Side::Sell, 101, 6));

    let two = book.snapshot(2);
    assert_eq!(two.bids, vec![level(99, 6), level(98, 3)]);
    assert_eq!(two.asks, vec![level(101, 6), level(105, 5)]);
    assert_eq!(two.seq, 12);
    assert_eq!(two.checksum, checksum(&two.bids, &two.asks));
    let none = book.snapshot(0);
    assert_eq!(none, BookSnapshot { seq: 12, bids: vec![], asks: vec![], checksum: checksum(&[], &[]) });
}

#[test]
fn checksum_is_crc32_over_the_decimal_digits_asks_first() {
    // The standard check value of CRC-32 belongs to the digits 1 to 9.
    assert_eq!(checksum(&[], &[level(12345, 6789)]), 0xcbf4_3926);
    assert_eq!(checksum(&[level(12345, 6789)], &[]), 0xcbf4_3926);
    assert_eq!(checksum(&[level(5678, 9)], &[level(12, 34)]), 0xcbf4_3926);
    assert_eq!(checksum(&[], &[]), 0);
    assert_ne!(checksum(&[level(1, 2)], &[level(3, 4)]), checksum(&[level(3, 4)], &[level(1, 2)]));
}

#[test]
fn a_changed_digit_changes_the_checksum() {
    let base = checksum(&[level(1000, 25)], &[level(1001, 30)]);
    for quantity in 10..99u64 {
        if quantity != 30 {
            assert_ne!(checksum(&[level(1000, 25)], &[level(1001, quantity)]), base);
        }
    }
}

#[test]
fn cancelling_undoes_resting_and_keeps_the_others_in_order() {
    let mut book = OrderBook::new();
    for id in 1..=3 {
        book.submit_limit(order(id, Side::Sell, 101, 10));
    }
    book.cancel(2);
    let events = book.submit_limit(order(4, Side::Buy, 101, 15));
    assert!(matches!(
        events[1],
        BookEvent::Executed { execution: Execution { resting_order_id: 1, quantity: 10, .. }, .. }
    ));
    assert!(matches!(
        events[2],
        BookEvent::Executed { execution: Execution { resting_order_id: 3, quantity: 5, .. }, .. }
    ));

    let mut empty = OrderBook::new();
    empty.submit_limit(order(1, Side::Buy, 50, 1));
    empty.cancel(1);
    let snapshot = empty.snapshot(5);
    assert!(snapshot.bids.is_empty() && snapshot.asks.is_empty());
    assert_eq!(snapshot.seq, 3);
}

#[test]
fn quantity_is_conserved() {
    let mut book = OrderBook::new();
    book.submit_limit(order(1, Side::Sell, 100, 30));
    book.submit_limit(order(2, Side::Sell, 101, 20));
    let events = book.submit_limit(order(3, Side::Buy, 101, 45));
    let executed: u64 = events
        .iter()
        .map(|event| match event {
            BookEvent::Executed { execution, .. } => execution.quantity,
            _ => 0,
        })
        .sum();
    let resting: u64 = book.snapshot(10).asks.iter().map(|l| l.quantity).sum();
    assert_eq!(executed, 45);
    assert_eq!(resting, 30 + 20 - 45);
}

#[test]
fn a_book_with_few_resting_orders_has_room() {
    let mut book = OrderBook::new();
    assert!(book.has_room());
    assert!(book.levels_fit());
    book.submit_limit(order(1, Side::Sell, 7, u64::MAX));
    assert!(book.levels_fit());
    book.submit_limit(order(2, Side::Sell, 7, 1));
    assert!(!book.levels_fit());
}

#[test]
fn a_level_shrinks_or_goes_and_the_others_stay() {
    let mut book = OrderBook::new();
    for (id, price, quantity) in [(1, 101, 10), (2, 101, 15), (3, 102, 5), (4, 103, 7)] {
        book.submit_limit(order(id, Side::Sell, price, quantity));
    }
    book.submit_limit(order(5, Side::Buy, 99, 4));

    let events = book.submit_limit(order(6, Side::Buy, 103, 12));
    let fills: Vec<(u64, u64)> = events
        .iter()
        .filter_map(|event| match event {
            BookEvent::Executed { execution, .. } => Some((execution.resting_order_id, execution.quantity)),
            _ => None,
        })
        .collect();
    assert_eq!(fills, vec![(1, 10), (2, 2)]);
    assert_eq!(book.snapshot(10).asks, vec![level(101, 13), level(102, 5), level(103, 7)]);

    book.submit_limit(order(7, Side::Buy, 101, 13));
    assert_eq!(book.snapshot(10).asks, vec![level(102, 5), level(103, 7)]);
    assert_eq!(book.snapshot(10).bids, vec![level(99, 4)]);
}
