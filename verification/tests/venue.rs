use exch::fees::{fee_of, hold_of, notional_of};
use exch::instrument::{Instrument, VenueConfig};
use exch::ledger::Ledger;
use exch::types::{BookEvent, Level, NewOrder, Price, RejectReason, Side};
use exch::venue::{Venue, VenueError};

fn venue() -> Venue {
    let mut venue = Venue::new(VenueConfig::star("test", "USD", &vec!["AAA".to_string(), "BBB".to_string()]));
    for account in 1..=3 {
        venue.credit(account, "USD", 1_000_000);
        venue.credit(account, "AAA", 1_000);
    }
    venue
}

fn order(order_id: u64, account_id: u64, side: Side, price: u64, quantity: u64) -> NewOrder {
    NewOrder { order_id, account_id, side, price: Price(price), quantity }
}

fn reason(events: &[BookEvent]) -> Option<RejectReason> {
    match events {
        [BookEvent::Rejected { reason, .. }] => Some(*reason),
        _ => None,
    }
}

#[test]
fn fees_are_basis_points_rounded_down() {
    assert_eq!(fee_of(100_000, 10), 100);
    assert_eq!(fee_of(999, 10), 0);
    assert_eq!(fee_of(1_000, 10), 1);
    assert_eq!(fee_of(u128::MAX, 10_000), u128::MAX);
    assert_eq!(fee_of(12_345, 0), 0);
    assert_eq!(notional_of(u64::MAX, u64::MAX), u64::MAX as u128 * u64::MAX as u128);
    assert_eq!(hold_of(10_001, 10, 10), Some(100_110));
    assert_eq!(hold_of(u64::MAX, u64::MAX, 10_000), None);
}

#[test]
fn star_configurations_list_every_base_against_the_quote() {
    let config = VenueConfig::star("v", "USD", &vec!["AAA".to_string(), "BBB".to_string()]);
    assert!(config.is_valid());
    assert_eq!(config.default_snapshot_depth, 10);
    let symbols: Vec<String> = config.instruments.iter().map(|i| i.symbol()).collect();
    assert_eq!(symbols, vec!["AAA/USD", "BBB/USD"]);
    let second = &config.instruments[1];
    assert_eq!((second.id, second.price_tick, second.quantity_step, second.min_notional), (1, 1, 1, 1));
    assert_eq!((second.maker_fee_bps, second.taker_fee_bps), (0, 10));
    let copy = config.clone();
    assert_eq!(copy.name, "v");
    assert_eq!(copy.instruments.len(), 2);
}

#[test]
fn configurations_with_impossible_terms_are_not_valid() {
    let good = || Instrument::plain(0, "AAA", "USD");
    let config = |instrument: Instrument| VenueConfig {
        name: "v".to_string(),
        instruments: vec![instrument],
        default_snapshot_depth: 10,
    };
    assert!(config(good()).is_valid());
    assert!(!config(Instrument { price_tick: 0, ..good() }).is_valid());
    assert!(!config(Instrument { quantity_step: 0, ..good() }).is_valid());
    assert!(!config(Instrument { maker_fee_bps: 11, ..good() }).is_valid());
    assert!(!config(Instrument { taker_fee_bps: 10_001, ..good() }).is_valid());
    assert!(!config(Instrument { id: 1, ..good() }).is_valid());
}

#[test]
fn resting_orders_set_their_obligation_aside() {
    let mut venue = venue();
    venue.submit_limit(0, order(1, 1, Side::Sell, 1_000, 40)).unwrap();
    assert_eq!((venue.balance(1, "AAA"), venue.reserved(1, "AAA")), (960, 40));
    venue.submit_limit(0, order(2, 2, Side::Buy, 900, 100)).unwrap();
    // 90,000 at the limit, and ten basis points of it.
    assert_eq!((venue.balance(2, "USD"), venue.reserved(2, "USD")), (909_910, 90_090));

    assert!(matches!(venue.cancel(0, 2), Ok(BookEvent::Canceled { order_id: 2, quantity: 100, .. })));
    assert_eq!((venue.balance(2, "USD"), venue.reserved(2, "USD")), (1_000_000, 0));
    venue.cancel(0, 1).unwrap();
    assert_eq!((venue.balance(1, "AAA"), venue.reserved(1, "AAA")), (1_000, 0));
    assert_eq!(venue.revenue("USD"), 0);
}

#[test]
fn trades_move_what_they_cost_and_conserve_every_asset() {
    let mut venue = venue();
    venue.submit_limit(0, order(1, 1, Side::Sell, 1_000, 40)).unwrap();
    // Bought below the limit: the taker pays the resting price and ten basis points.
    let events = venue.submit_limit(0, order(2, 2, Side::Buy, 1_100, 50)).unwrap();
    assert_eq!(events.len(), 3);
    assert_eq!(venue.balance(1, "USD"), 1_040_000);
    assert_eq!((venue.balance(1, "AAA"), venue.reserved(1, "AAA")), (960, 0));
    assert_eq!(venue.balance(2, "AAA"), 1_040);
    // Ten are left at the limit of 1,100: 11,000 and a fee of 11.
    assert_eq!(venue.reserved(2, "USD"), 11_011);
    assert_eq!(venue.balance(2, "USD"), 1_000_000 - 40_040 - 11_011);
    assert_eq!(venue.revenue("USD"), 40);
    assert_eq!(venue.supply("USD"), 3_000_000);
    assert_eq!(venue.supply("AAA"), 3_000);

    // The seller as taker pays its fee out of the proceeds; the maker pays none.
    venue.submit_limit(0, order(3, 3, Side::Sell, 1_000, 10)).unwrap();
    assert_eq!(venue.balance(3, "USD"), 1_000_000 + 11_000 - 11);
    assert_eq!(venue.reserved(2, "USD"), 0);
    assert_eq!(venue.balance(2, "USD"), 1_000_000 - 40_040 - 11_000);
    assert_eq!(venue.revenue("USD"), 51);
    assert_eq!(venue.supply("USD"), 3_000_000);
}

#[test]
fn an_account_can_trade_with_itself() {
    let mut venue = venue();
    venue.submit_limit(0, order(1, 1, Side::Sell, 1_000, 10)).unwrap();
    venue.submit_limit(0, order(2, 1, Side::Buy, 1_000, 10)).unwrap();
    assert_eq!((venue.balance(1, "AAA"), venue.reserved(1, "AAA")), (1_000, 0));
    assert_eq!((venue.balance(1, "USD"), venue.reserved(1, "USD")), (999_990, 0));
    assert_eq!(venue.revenue("USD"), 10);
}

#[test]
fn orders_are_checked_before_matching() {
    let mut config = VenueConfig::star("test", "USD", &vec!["AAA".to_string()]);
    config.instruments[0].price_tick = 5;
    config.instruments[0].quantity_step = 10;
    config.instruments[0].min_notional = 1_000;
    let mut venue = Venue::new(config);
    venue.credit(1, "USD", 10_010);

    let mut submit = |o: NewOrder| reason(&venue.submit_limit(0, o).unwrap());
    assert_eq!(submit(order(1, 1, Side::Buy, 7, 0)), Some(RejectReason::ZeroQuantity));
    assert_eq!(submit(order(1, 1, Side::Buy, 7, 15)), Some(RejectReason::InvalidPriceTick));
    assert_eq!(submit(order(1, 1, Side::Buy, 10, 15)), Some(RejectReason::InvalidQuantityStep));
    assert_eq!(submit(order(1, 1, Side::Buy, 10, 90)), Some(RejectReason::BelowMinNotional));
    assert_eq!(submit(order(1, 1, Side::Buy, 10, 1_010)), Some(RejectReason::InsufficientBalance));
    assert_eq!(submit(order(1, 1, Side::Sell, 10, 100)), Some(RejectReason::InsufficientBalance));
    assert_eq!(submit(order(1, 1, Side::Buy, u64::MAX - u64::MAX % 5, 100)), Some(RejectReason::InsufficientBalance));
    // Exactly what the account has.
    assert_eq!(submit(order(1, 1, Side::Buy, 10, 1_000)), None);
    assert_eq!(submit(order(1, 1, Side::Buy, 10, 1_000)), Some(RejectReason::DuplicateOrderId));
    assert_eq!(venue.balance(1, "USD"), 0);
    assert_eq!(venue.reserved(1, "USD"), 10_010);
    assert_eq!(venue.snapshot(0, 5).unwrap().seq, 10);
}

#[test]
fn replacing_cancels_and_submits() {
    let mut venue = venue();
    venue.submit_limit(0, order(1, 1, Side::Sell, 1_000, 40)).unwrap();
    let events = venue.replace_limit(0, 1, order(2, 1, Side::Sell, 1_010, 30)).unwrap();
    assert!(matches!(
        events[..],
        [
            BookEvent::Canceled { order_id: 1, .. },
            BookEvent::Accepted { order_id: 2, .. },
            BookEvent::Rested { order_id: 2, quantity: 30, .. }
        ]
    ));
    assert_eq!(venue.reserved(1, "AAA"), 30);
    assert_eq!(
        venue.snapshot(0, 5).unwrap().asks,
        vec![Level { price: Price(1_010), quantity: 30 }]
    );
    let events = venue.replace_limit(0, 77, order(3, 1, Side::Sell, 1_010, 30)).unwrap();
    assert_eq!(reason(&events), Some(RejectReason::UnknownOrderId));
}

#[test]
fn unknown_instruments_are_errors() {
    let mut venue = venue();
    assert_eq!(venue.submit_limit(2, order(1, 1, Side::Buy, 1, 1)), Err(VenueError::UnknownInstrument));
    assert_eq!(venue.cancel(9, 1), Err(VenueError::UnknownInstrument));
    assert_eq!(venue.replace_limit(9, 1, order(1, 1, Side::Buy, 1, 1)), Err(VenueError::UnknownInstrument));
    assert_eq!(venue.snapshot(2, 1), Err(VenueError::UnknownInstrument));
    assert!(venue.lists(1) && !venue.lists(2));
    assert!(venue.has_room(0) && venue.has_room(9));
    assert!(venue.is_ready());
}

#[test]
fn ledgers_tell_assets_and_accounts_apart() {
    let mut ledger = Ledger::new();
    ledger.deposit(1, "USD", 10);
    ledger.deposit(2, "USD", 5);
    ledger.deposit(1, "EUR", 7);
    ledger.set_aside(1, "USD", 4);
    ledger.release(1, "USD", 1);
    ledger.spend(1, "USD", 2);
    ledger.earn("USD", 2);
    assert_eq!((ledger.available(1, "USD"), ledger.reserved(1, "USD")), (7, 1));
    assert_eq!(ledger.funds(2, "USD").available, 5);
    assert_eq!((ledger.available(1, "EUR"), ledger.available(3, "EUR")), (7, 0));
    assert_eq!((ledger.revenue("USD"), ledger.revenue("EUR"), ledger.revenue("GBP")), (2, 0, 0));
    assert_eq!((ledger.supply("USD"), ledger.supply("EUR"), ledger.supply("GBP")), (15, 7, 0));
}

#[test]
fn an_order_takes_no_more_than_it_sets_aside() {
    let mut venue = venue();
    venue.submit_limit(0, order(1, 1, Side::Sell, 100, 10)).unwrap();
    assert_eq!(venue.balance(1, "AAA"), 990);
    venue.submit_limit(0, order(2, 2, Side::Buy, 110, 4)).unwrap();
    assert_eq!(venue.balance(2, "USD"), 1_000_000 - 400);
    assert!(venue.balance(2, "USD") >= 1_000_000 - hold_of(110, 4, 10).unwrap());
    assert_eq!(venue.balance(1, "USD"), 1_000_400);
    assert_eq!((venue.balance(3, "USD"), venue.balance(3, "AAA")), (1_000_000, 1_000));
}
