use exch::events::{
    event_line, event_seq, format_public_event, is_public_event, levels, parse_side, price,
    private_event, side_name,
};
use exch::feed_log::{line_of, parse_entry, FeedLogError, PublicFeedEntry, PublicFeedLog};
use exch::instrument::VenueConfig;
use exch::runtime::{Command, ExchangeRuntime, RuntimeError};
use exch::types::{BookEvent, Execution, Level, NewOrder, Price, RejectReason, Side};
use exch::venue::{Venue, VenueError};

fn sell(order_id: u64, quantity: u64) -> NewOrder {
    NewOrder { order_id, account_id: 1, side: Side::Sell, price: Price(10), quantity }
}

fn runtime(log: PublicFeedLog) -> ExchangeRuntime {
    let mut venue = Venue::new(VenueConfig::star("test", "USD", &vec!["AAA".to_string()]));
    venue.credit(1, "AAA", 10);
    venue.credit(2, "USD", 1_000);
    ExchangeRuntime::new(venue, log)
}

fn file_of(entries: &[PublicFeedEntry]) -> String {
    entries.iter().map(|entry| line_of(entry) + "\n").collect()
}

#[test]
fn durable_feed_log_replays_after_restart() {
    let mut runtime = runtime(PublicFeedLog::from_text(""));
    let result = runtime.submit_limit(0, sell(1, 5)).unwrap();
    assert_eq!(result.feed_entries.len(), 1);

    let reopened = PublicFeedLog::from_text(&file_of(&result.feed_entries));
    assert_eq!(reopened.replay(0, 0).len(), 1);
    assert_eq!(reopened.replay(0, 0), runtime.replay(0, 0));
}

#[test]
fn events_as_text() {
    let executed = BookEvent::Executed {
        seq: 4,
        execution: Execution { resting_order_id: 1, aggressing_order_id: 2, price: Price(10_000), quantity: 10 },
    };
    let rested = BookEvent::Rested { seq: 2, order_id: 1, side: Side::Sell, price: Price(10_000), quantity: 25 };
    let canceled = BookEvent::Canceled { seq: 5, order_id: 1, side: Side::Buy, price: Price(7), quantity: 15 };
    let accepted = BookEvent::Accepted { seq: 1, order_id: 1 };
    let rejected = BookEvent::Rejected { seq: 9, order_id: 3, reason: RejectReason::DuplicateOrderId };
    assert_eq!(event_line(&executed), "executed:4:resting=1:aggressing=2:qty=10:price=10000");
    assert_eq!(event_line(&rested), "rested:2:order=1:side=sell:qty=25:price=10000");
    assert_eq!(event_line(&canceled), "canceled:5:order=1:side=buy:qty=15:price=7");
    assert_eq!(event_line(&accepted), "accepted:1:order=1");
    assert_eq!(private_event(&rejected), "rejected:9:order=3:reason=DuplicateOrderId");
    for event in [&executed, &rested, &canceled] {
        assert!(is_public_event(event));
        assert_eq!(format_public_event(event), event_line(event));
        assert_eq!(private_event(event), event_line(event));
    }
    for event in [&accepted, &rejected] {
        assert!(!is_public_event(event));
        assert_eq!(format_public_event(event), "");
    }
    assert_eq!(event_seq(&canceled), 5);
    assert_eq!(event_seq(&rejected), 9);
}

#[test]
fn reasons_are_named_as_they_are_written() {
    for reason in [
        RejectReason::DuplicateOrderId,
        RejectReason::UnknownOrderId,
        RejectReason::ZeroQuantity,
        RejectReason::InvalidPriceTick,
        RejectReason::InvalidQuantityStep,
        RejectReason::BelowMinNotional,
        RejectReason::InsufficientBalance,
    ] {
        let event = BookEvent::Rejected { seq: 1, order_id: 2, reason };
        assert_eq!(private_event(&event), format!("rejected:1:order=2:reason={reason:?}"));
    }
}

#[test]
fn levels_and_sides_as_text() {
    assert_eq!(levels(&[]), "-");
    let list = [Level { price: Price(100), quantity: 25 }, Level { price: Price(99), quantity: 1 }];
    assert_eq!(levels(&list), "25@100,1@99");
    assert_eq!((side_name(Side::Buy), side_name(Side::Sell)), ("buy", "sell"));
    assert_eq!((parse_side("buy"), parse_side("sell"), parse_side("Buy")), (Some(Side::Buy), Some(Side::Sell), None));
    assert_eq!(price(7), Price(7));
}

#[test]
fn a_log_keeps_public_events_per_instrument() {
    let mut log = PublicFeedLog::in_memory();
    let events = vec![
        BookEvent::Accepted { seq: 1, order_id: 1 },
        BookEvent::Rested { seq: 2, order_id: 1, side: Side::Buy, price: Price(5), quantity: 3 },
        BookEvent::Canceled { seq: 3, order_id: 1, side: Side::Buy, price: Price(5), quantity: 3 },
    ];
    let entries = log.record(4, &events).unwrap();
    assert_eq!(entries.len(), 2);
    assert_eq!(entries[0].message, "event instrument=4 rested:2:order=1:side=buy:qty=3:price=5");
    assert_eq!((entries[1].instrument_id, entries[1].seq), (4, 3));
    assert_eq!(log.replay(4, 0), entries);
    assert_eq!(log.replay(4, 2), entries[1..]);
    assert!(log.replay(4, 3).is_empty());
    assert!(log.replay(5, 0).is_empty());
    assert!(log.record(4, &events[..1].to_vec()).unwrap().is_empty());
}

#[test]
fn a_log_that_cannot_be_written_records_nothing() {
    let mut log = PublicFeedLog::in_memory();
    let public = vec![BookEvent::Rested { seq: 2, order_id: 1, side: Side::Buy, price: Price(5), quantity: 3 }];
    let failure = || Err(FeedLogError { message: "disk full".to_string() });
    assert_eq!(
        log.record_written(0, &public, failure()),
        Err(FeedLogError { message: "disk full".to_string() })
    );
    assert!(log.replay(0, 0).is_empty());
    let private = vec![BookEvent::Accepted { seq: 1, order_id: 1 }];
    assert_eq!(log.record_written(0, &private, failure()), Ok(vec![]));
}

#[test]
fn log_lines_read_back() {
    let entry = PublicFeedEntry { instrument_id: 3, seq: 17, message: "event\twith tab".to_string() };
    assert_eq!(line_of(&entry), "3\t17\tevent\twith tab");
    assert_eq!(parse_entry(&line_of(&entry)), Some(entry.clone()));
    for line in ["", "3", "3\t17", "x\t17\tm", "3\tx\tm", "4294967296\t1\tm", "3 17 m"] {
        assert_eq!(parse_entry(line), None, "{line:?}");
    }
    let log = PublicFeedLog::from_text("3\t17\ta\r\nbroken\n3\t18\tb\n5\t1\tc");
    let messages: Vec<String> = log.replay(3, 0).into_iter().map(|e| e.message).collect();
    assert_eq!(messages, vec!["a", "b"]);
    assert_eq!(log.replay(5, 0).len(), 1);
}

#[test]
fn commands_return_their_events_and_log_the_public_ones() {
    let mut runtime = runtime(PublicFeedLog::in_memory());
    runtime.submit_limit(0, sell(1, 5)).unwrap();
    let buy = NewOrder { order_id: 2, account_id: 2, side: Side::Buy, price: Price(10), quantity: 3 };
    let done = runtime.submit_limit(0, buy).unwrap();
    assert_eq!(done.book_events.len(), 2);
    assert_eq!(done.feed_entries.len(), 1);
    let done = runtime.replace_limit(0, 1, sell(3, 4)).unwrap();
    assert_eq!(done.feed_entries.len(), 2);
    let done = runtime.cancel(0, 3).unwrap();
    assert_eq!(done.feed_entries.len(), 1);
    let numbers: Vec<u64> = runtime.replay(0, 0).iter().map(|e| e.seq).collect();
    assert_eq!(numbers, vec![2, 4, 5, 7, 8]);
    assert_eq!(runtime.balance(2, "AAA"), 3);
    assert_eq!(runtime.reserved(1, "AAA"), 0);
    assert_eq!(runtime.revenue("USD"), 0);
    assert_eq!(runtime.config().name, "test");
    assert!(runtime.snapshot(0, 3).unwrap().asks.is_empty());
    assert!(runtime.venue().is_ready());
}

#[test]
fn failures_are_told_apart() {
    let mut runtime = runtime(PublicFeedLog::in_memory());
    assert!(matches!(
        runtime.submit_limit(3, sell(1, 5)),
        Err(RuntimeError::Venue(VenueError::UnknownInstrument))
    ));
    assert!(matches!(runtime.cancel(3, 1), Err(RuntimeError::Venue(_))));
    // The venue carries the command out although its events cannot be logged.
    let events = runtime.execute(0, Command::Submit { order: sell(1, 5) }).unwrap();
    let failure = Err(FeedLogError { message: "disk full".to_string() });
    assert!(matches!(
        runtime.record_public_events(0, events, failure),
        Err(RuntimeError::FeedLog(_))
    ));
    assert_eq!(runtime.reserved(1, "AAA"), 5);
    assert!(runtime.replay(0, 0).is_empty());
    assert!(matches!(RuntimeError::from(VenueError::UnknownInstrument), RuntimeError::Venue(_)));
}

/// What a client knows of a book from the public feed: orders in the order of their arrival.
struct Client {
    orders: Vec<(u64, Side, u64, u64)>,
}

impl Client {
    fn apply(&mut self, event: &BookEvent) {
        match event {
            BookEvent::Rested { order_id, side, price, quantity, .. } => {
                self.orders.push((*order_id, *side, price.0, *quantity));
            }
            BookEvent::Canceled { order_id, .. } => self.orders.retain(|o| o.0 != *order_id),
            BookEvent::Executed { execution, .. } => {
                for order in &mut self.orders {
                    if order.0 == execution.resting_order_id {
                        order.3 -= execution.quantity;
                    }
                }
                self.orders.retain(|o| o.3 > 0);
            }
            _ => {}
        }
    }

    fn levels(&self, side: Side) -> Vec<Level> {
        let mut prices: Vec<u64> = self.orders.iter().filter(|o| o.1 == side).map(|o| o.2).collect();
        prices.sort();
        prices.dedup();
        if side == Side::Buy {
            prices.reverse();
        }
        prices
            .into_iter()
            .map(|price| Level {
                price: Price(price),
                quantity: self.orders.iter().filter(|o| o.1 == side && o.2 == price).map(|o| o.3).sum(),
            })
            .collect()
    }
}

#[test]
fn the_public_feed_suffices_to_follow_the_book() {
    let mut venue = Venue::new(VenueConfig::star("test", "USD", &vec!["AAA".to_string()]));
    for account in 1..=4 {
        venue.credit(account, "AAA", 1_000_000);
        venue.credit(account, "USD", 1_000_000_000);
    }
    let mut runtime = ExchangeRuntime::new(venue, PublicFeedLog::in_memory());
    let mut client = Client { orders: vec![] };
    let mut state: u64 = 7;
    let mut draw = |n: u64| {
        state = state.wrapping_mul(6_364_136_223_846_793_005).wrapping_add(1);
        (state >> 33) % n
    };
    let mut last_seq = 0;
    for id in 1..=400u64 {
        let side = if draw(2) == 0 { Side::Buy } else { Side::Sell };
        let order = NewOrder {
            order_id: id,
            account_id: draw(5),
            side,
            price: Price(95 + draw(11)),
            quantity: draw(20),
        };
        let done = match draw(6) {
            0 => runtime.cancel(0, draw(id) + 1),
            1 => runtime.replace_limit(0, draw(id) + 1, order),
            _ => runtime.submit_limit(0, order),
        }
        .unwrap();
        for event in &done.book_events {
            assert_eq!(event_seq(event), last_seq + 1);
            last_seq += 1;
            let before = (client.levels(Side::Buy), client.levels(Side::Sell));
            if is_public_event(event) {
                client.apply(event);
                assert_ne!((client.levels(Side::Buy), client.levels(Side::Sell)), before);
            }
        }
        let snapshot = runtime.snapshot(0, 100).unwrap();
        assert_eq!(snapshot.bids, client.levels(Side::Buy));
        assert_eq!(snapshot.asks, client.levels(Side::Sell));
        assert_eq!(snapshot.seq, last_seq);
        // Nothing is created or lost, and reservations belong to resting orders.
        assert_eq!(runtime.venue().supply("AAA"), 4_000_000);
        assert_eq!(runtime.venue().supply("USD"), 4_000_000_000);
        let selling: u64 = snapshot.asks.iter().map(|l| l.quantity).sum();
        let reserved: u128 = (0..=4).map(|account| runtime.reserved(account, "AAA")).sum();
        assert_eq!(reserved, selling as u128);
    }
    assert!(runtime.revenue("USD") > 0);
}

#[test]
fn a_log_file_goes_on_after_a_restart() {
    let mut first = runtime(PublicFeedLog::from_text(""));
    let mut file = file_of(&first.submit_limit(0, sell(1, 5)).unwrap().feed_entries);
    let mut second = runtime(PublicFeedLog::from_text(&file));
    file += &file_of(&second.submit_limit(0, sell(2, 3)).unwrap().feed_entries);
    assert_eq!(PublicFeedLog::from_text(&file).replay(0, 0), second.replay(0, 0));
    assert_eq!(second.replay(0, 0).len(), 2);
}
