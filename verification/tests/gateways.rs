use exch::feed_log::{line_of, PublicFeedEntry, PublicFeedLog};
use exch::market_data;
use exch::market_data::{handle_feed_command, FeedRegistry, FeedState};
use exch::order_entry;
use exch::order_entry::{handle_order_command, ORDER_COMMANDS_PER_SECOND};
use exch::rate_limit::RateLimit;
use exch::runtime::ExchangeRuntime;
use exch::seeding;
use exch::sessions;
use exch::sessions::{answer_outcome, feed_step, ApiKeys, Incoming, OrderSession, SessionStep};
use exch::instrument::VenueConfig;
use exch::protocol;
use exch::types::{BookEvent, NewOrder, Price, Side};
use exch::venue::Venue;

fn text(line: &str) -> Incoming {
    Incoming::Text { line: line.to_string() }
}

/// An order session and the exchange behind it; returns the answer and what goes to the feed.
fn send(
    session: &mut OrderSession,
    exchange: &mut ExchangeRuntime,
    line: &str,
) -> (String, Vec<PublicFeedEntry>) {
    let keys = ApiKeys::development();
    match session.step(&text(line), 0, &keys, exchange.venue()) {
        SessionStep::Close => panic!("closed"),
        SessionStep::Reply { line } => (line, vec![]),
        SessionStep::Run { instrument_id, command } => {
            let outcome = match exchange.execute(instrument_id, command) {
                Ok(events) => exchange.record_public_events(instrument_id, events, Ok(())),
                Err(error) => Err(error.into()),
            };
            let answer = answer_outcome(&outcome);
            (answer, outcome.map(|done| done.feed_entries).unwrap_or_default())
        }
    }
}

fn feed(exchange: &ExchangeRuntime, line: &str) -> Vec<String> {
    feed_step(&text(line), exchange).lines
}

#[test]
fn websocket_order_and_feed_cycle() {
    let mut exchange = ExchangeRuntime::new(seeding::demo_venue(), PublicFeedLog::in_memory());
    assert!(sessions::feed_hello().contains("exch-ws-feed"));
    let subscription = feed_step(&text("subscribe 0 10"), &exchange);
    assert!(subscription.lines[0].contains("ok subscribed"));
    assert!(subscription.lines[1].contains("snapshot instrument=0"));
    assert_eq!(subscription.state, FeedState::Streaming { instrument_id: 0 });

    assert!(sessions::order_hello().contains("exch-ws-order"));
    let mut session = OrderSession::new(0);
    assert!(send(&mut session, &mut exchange, "auth dev-key-100").0.contains("ok auth account=100"));
    let (sell_ack, feed_1) = send(&mut session, &mut exchange, "order 0 1 sell 10000 25");
    assert!(send(&mut session, &mut exchange, "auth dev-key-101").0.contains("ok auth account=101"));
    let (buy_ack, feed_2) = send(&mut session, &mut exchange, "order 0 2 buy 10000 10");

    assert!(sell_ack.contains("accepted:1:order=1"));
    assert!(sell_ack.contains("rested:2:order=1"));
    assert!(feed_1[0].message.contains("rested:2:order=1"));
    assert!(buy_ack.contains("accepted:3:order=2"));
    assert!(buy_ack.contains("executed:4:resting=1:aggressing=2"));
    assert!(feed_2[0].message.contains("executed:4:resting=1:aggressing=2"));

    let replay = feed(&exchange, "replay 0 0");
    assert!(replay[0].contains("ok replay"));
    assert!(replay[1].contains("rested:2:order=1"));
    assert!(replay[2].contains("executed:4:resting=1:aggressing=2"));
    let revenue = send(&mut session, &mut exchange, "revenue USD").0;
    assert!(revenue.contains("ok revenue asset=USD amount=10"));
    assert_eq!(revenue, "ok revenue asset=USD amount=100");
}

#[test]
fn durable_feed_log_replays_after_gateway_restart() {
    let mut exchange = ExchangeRuntime::new(seeding::demo_venue(), PublicFeedLog::from_text(""));
    let mut session = OrderSession::new(0);
    send(&mut session, &mut exchange, "auth dev-key-100");
    let (ack, entries) = send(&mut session, &mut exchange, "order 0 11 sell 10000 25");
    assert!(ack.contains("rested:2:order=11"));
    let file: String = entries.iter().map(|entry| line_of(entry) + "\n").collect();

    let restarted = ExchangeRuntime::new(seeding::demo_venue(), PublicFeedLog::from_text(&file));
    let replay = feed(&restarted, "replay 0 0");
    assert!(replay[0].contains("ok replay"));
    assert!(replay[1].contains("rested:2:order=11"));
}

#[test]
fn demo_accounts_start_with_their_balances() {
    let venue = seeding::demo_venue();
    for account in [1, 500, 1_000] {
        assert_eq!(venue.balance(account, "USD"), 1_000_000_000);
        for asset in ["AAA", "BBB", "CCC", "DDD", "EEE", "FFF"] {
            assert_eq!(venue.balance(account, asset), 1_000_000);
        }
        assert_eq!(venue.reserved(account, "USD"), 0);
    }
    assert_eq!(venue.balance(0, "USD"), 0);
    assert_eq!(venue.balance(1_001, "USD"), 0);
    assert_eq!(venue.supply("USD"), 1_000_000_000_000);
}

fn ask(venue: &mut Venue, line: &str) -> String {
    handle_order_command(line, venue).response
}

#[test]
fn order_entry_answers_every_command() {
    let mut venue = seeding::demo_venue();
    assert_eq!(
        ask(&mut venue, "instruments"),
        "ok instruments venue=local-equities 0:AAA/USD,1:BBB/USD,2:CCC/USD,3:DDD/USD,4:EEE/USD,5:FFF/USD"
    );
    assert_eq!(ask(&mut venue, "book 0 10"), "ok book seq=0 checksum=0 bids=- asks=-");
    assert_eq!(
        ask(&mut venue, "order 0 1 100 buy 10000 25"),
        "ok events accepted:1:order=1|rested:2:order=1:side=buy:qty=25:price=10000"
    );
    let reply = handle_order_command("order 0 2 101 sell 10000 10", &mut venue);
    assert_eq!(
        reply.response,
        "ok events accepted:3:order=2|executed:4:resting=1:aggressing=2:qty=10:price=10000"
    );
    assert_eq!((reply.instrument_id, reply.events.len()), (0, 2));
    let snapshot = venue.snapshot(0, 10).unwrap();
    assert_eq!(
        ask(&mut venue, "book 0"),
        format!("ok book seq=4 checksum={} bids=15@10000 asks=-", snapshot.checksum)
    );
    assert_eq!(
        ask(&mut venue, "replace 0 1 3 100 buy 9999 5"),
        "ok events canceled:5:order=1:side=buy:qty=15:price=10000|accepted:6:order=3|rested:7:order=3:side=buy:qty=5:price=9999"
    );
    assert_eq!(ask(&mut venue, "cancel 0 3"), "ok events canceled:8:order=3:side=buy:qty=5:price=9999");
    assert_eq!(ask(&mut venue, "cancel 0 3"), "ok events rejected:9:order=3:reason=UnknownOrderId");
    assert_eq!(
        ask(&mut venue, "account 101 USD"),
        "ok account account=101 asset=USD available=1000099900 reserved=0"
    );
    assert_eq!(ask(&mut venue, "revenue USD"), "ok revenue asset=USD amount=100");
    assert!(ask(&mut venue, "help").starts_with("ok help instruments | book"));
    assert_eq!(ask(&mut venue, "help"), order_entry::help());
    assert!(order_entry::hello().contains("protocol=exch-order-entry"));
}

#[test]
fn order_entry_answers_mistakes() {
    let mut venue = seeding::demo_venue();
    for (line, answer) in [
        ("", "error empty-command"),
        ("   ", "error empty-command"),
        ("dance now", "error unknown-command command=dance"),
        ("book", "error usage book <instrument_id> [depth]"),
        ("book 0 1 2", "error usage book <instrument_id> [depth]"),
        ("book x", "error invalid-instrument-id"),
        ("book 0 x", "error invalid-depth"),
        ("book 6", "error unknown-instrument"),
        ("order 0 1 100 buy 1", "error usage order <instrument_id> <order_id> <account_id> <buy|sell> <price> <quantity>"),
        ("order x 1 100 buy 1 1", "error invalid-instrument-id"),
        ("order 0 x 100 buy 1 1", "error invalid-order-id"),
        ("order 0 1 x buy 1 1", "error invalid-account-id"),
        ("order 0 1 100 hold 1 1", "error invalid-side"),
        ("order 0 1 100 buy -1 1", "error invalid-price"),
        ("order 0 1 100 buy 1 1.5", "error invalid-quantity"),
        ("order 9 1 100 buy 1 1", "error unknown-instrument"),
        ("order 0 1 100 buy 1 0", "ok events rejected:1:order=1:reason=ZeroQuantity"),
        ("replace 0 1 2 100 buy 1", "error usage replace <instrument_id> <old_order_id> <new_order_id> <account_id> <buy|sell> <price> <quantity>"),
        ("replace x 1 2 100 buy 1 1", "error invalid-instrument-id"),
        ("replace 0 x 2 100 buy 1 1", "error invalid-old-order-id"),
        ("replace 0 1 x 100 buy 1 1", "error invalid-new-order-id"),
        ("replace 0 1 2 x buy 1 1", "error invalid-account-id"),
        ("replace 0 1 2 100 x 1 1", "error invalid-side"),
        ("replace 0 1 2 100 buy x 1", "error invalid-price"),
        ("replace 0 1 2 100 buy 1 x", "error invalid-quantity"),
        ("replace 9 1 2 100 buy 1 1", "error unknown-instrument"),
        ("cancel 0", "error usage cancel <instrument_id> <order_id>"),
        ("cancel x 1", "error invalid-instrument-id"),
        ("cancel 0 x", "error invalid-order-id"),
        ("cancel 9 1", "error unknown-instrument"),
        ("account 1", "error usage account <account_id> <asset>"),
        ("account x USD", "error invalid-account-id"),
        ("revenue", "error usage revenue <asset>"),
    ] {
        assert_eq!(ask(&mut venue, line), answer, "{line}");
    }
    assert_eq!(venue.snapshot(0, 1).unwrap().seq, 1);
}

#[test]
fn feed_lines_are_answered() {
    let mut venue = seeding::demo_venue();
    ask(&mut venue, "order 2 1 100 sell 7 3");
    let checksum = venue.snapshot(2, 4).unwrap().checksum;
    let step = handle_feed_command(" subscribe 2 4 ", &venue);
    assert_eq!(step.state, FeedState::Streaming { instrument_id: 2 });
    assert_eq!(
        step.lines,
        vec![
            "ok subscribed instrument=2 depth=4".to_string(),
            format!("snapshot instrument=2 seq=2 checksum={checksum} bids=- asks=3@7"),
        ]
    );
    assert_eq!(handle_feed_command("subscribe 0", &venue).lines[0], "ok subscribed instrument=0 depth=10");
    for (line, answer, state) in [
        ("help", "ok help subscribe <instrument_id> [depth]", FeedState::Open),
        ("", "error usage subscribe <instrument_id> [depth]", FeedState::Open),
        ("help me", "error usage subscribe <instrument_id> [depth]", FeedState::Open),
        ("subscribe", "error usage subscribe <instrument_id> [depth]", FeedState::Open),
        ("subscribe x", "error invalid-instrument-id", FeedState::Closed),
        ("subscribe 0 x", "error invalid-depth", FeedState::Closed),
        ("subscribe 6", "error unknown-instrument", FeedState::Closed),
    ] {
        let step = handle_feed_command(line, &venue);
        assert_eq!((step.lines, step.state), (vec![answer.to_string()], state), "{line}");
    }
    assert!(market_data::hello().contains("protocol=exch-market-data"));
    assert_eq!(market_data::FEED_CLIENT_QUEUE_CAPACITY, 1024);
}

#[test]
fn subscribers_get_the_public_events_of_their_instrument() {
    let mut registry = FeedRegistry::new();
    let a = registry.subscribe(0).unwrap();
    let b = registry.subscribe(1).unwrap();
    let c = registry.subscribe(0).unwrap();
    let events = vec![
        BookEvent::Accepted { seq: 1, order_id: 1 },
        BookEvent::Rested { seq: 2, order_id: 1, side: Side::Buy, price: Price(5), quantity: 3 },
    ];
    let publication = registry.publish(0, &events);
    assert_eq!(publication.messages, vec!["event instrument=0 rested:2:order=1:side=buy:qty=3:price=5"]);
    assert_eq!(publication.recipients, vec![a, c]);
    assert!(registry.publish(0, &events[..1].to_vec()).recipients.is_empty());

    registry.drop_failed(&vec![a]);
    assert_eq!(registry.publish(0, &events).recipients, vec![c]);
    assert_eq!(registry.publish(1, &events).recipients, vec![b]);
}

#[test]
fn a_window_lets_the_limit_through() {
    let mut limit = RateLimit::per_second(3, 1_000);
    let allowed: Vec<bool> = (0..5).map(|i| limit.allow(1_000 + i)).collect();
    assert_eq!(allowed, vec![true, true, true, false, false]);
    assert!(!limit.allow(1_000_000_999));
    assert!(limit.allow(1_000_001_000));
    assert!(limit.allow(1_999_999_999));
    assert!(limit.allow(2_000_000_000));
    assert!(!limit.allow(2_000_000_999));
    assert!(limit.allow(2_000_001_000));
}

#[test]
fn order_lines_are_limited_per_second() {
    let mut venue = seeding::demo_venue();
    let mut rate = RateLimit::per_second(1, 0);
    let first = order_entry::handle_order_line("order 0 1 100 sell 10 5", 1, &mut rate, &mut venue);
    assert_eq!(first.events.len(), 2);
    let second = order_entry::handle_order_line("order 0 2 100 sell 10 5", 2, &mut rate, &mut venue);
    assert_eq!((second.response.as_str(), second.events.len()), ("error rate-limit-exceeded", 0));
    assert_eq!(venue.snapshot(0, 1).unwrap().seq, 2);
}

#[test]
fn sessions_are_limited_per_second() {
    let venue = seeding::demo_venue();
    let keys = ApiKeys::development();
    let mut session = OrderSession::new(0);
    for _ in 0..ORDER_COMMANDS_PER_SECOND {
        assert!(matches!(
            session.step(&text("help"), 5, &keys, &venue),
            SessionStep::Reply { line } if line.starts_with("ok help")
        ));
    }
    assert!(matches!(
        session.step(&text("auth dev-key-100"), 6, &keys, &venue),
        SessionStep::Reply { line } if line == "error rate-limit-exceeded"
    ));
    assert_eq!(session.account(), None);
    assert!(matches!(session.step(&Incoming::Close, 6, &keys, &venue), SessionStep::Close));
    assert!(matches!(
        session.step(&Incoming::Other, 6, &keys, &venue),
        SessionStep::Reply { line } if line == "error text-messages-only"
    ));
    assert!(matches!(
        session.step(&text("auth dev-key-100"), 1_000_000_000, &keys, &venue),
        SessionStep::Reply { line } if line == "ok auth account=100"
    ));
    assert_eq!(session.account(), Some(100));
}

#[test]
fn sessions_trade_after_authentication_only() {
    let mut exchange = ExchangeRuntime::new(seeding::demo_venue(), PublicFeedLog::in_memory());
    let mut session = OrderSession::new(0);
    for (line, answer) in [
        ("", "error empty-command"),
        ("order 0 1 buy 1 1", "error auth-required"),
        ("cancel 0 1", "error auth-required"),
        ("auth", "error usage auth <api_key>"),
        ("auth nothing", "error invalid-api-key"),
        ("order", "error auth-required"),
        ("book 0", "ok book seq=0 checksum=0 bids=- asks=-"),
        ("jump", "error unknown-command command=jump"),
        ("auth dev-key-101", "ok auth account=101"),
        ("order 0 1 101 buy 1 1", "error usage order <instrument_id> <order_id> <buy|sell> <price> <quantity>"),
        ("order x 1 buy 1 1", "error invalid-instrument-id"),
        ("order 0 x buy 1 1", "error invalid-order-id"),
        ("order 0 1 x 1 1", "error invalid-side"),
        ("order 9 1 buy 1 1", "error unknown-instrument"),
        ("order 0 1 buy 10 10", "ok events accepted:1:order=1|rested:2:order=1:side=buy:qty=10:price=10"),
        ("cancel 0 1", "ok events canceled:3:order=1:side=buy:qty=10:price=10"),
        ("auth wrong", "error invalid-api-key"),
        ("revenue", "error usage revenue <asset>"),
        ("instruments", "ok instruments venue=local-equities 0:AAA/USD,1:BBB/USD,2:CCC/USD,3:DDD/USD,4:EEE/USD,5:FFF/USD"),
    ] {
        assert_eq!(send(&mut session, &mut exchange, line).0, answer, "{line}");
    }
    assert_eq!(session.account(), Some(101));
}

#[test]
fn key_files_name_keys_accounts_and_labels() {
    let keys = ApiKeys::from_text("dev-key-100 100 demo-account-100\n\nbroken\nother x y\nkey2\t7\nkey2 8 again\n");
    assert_eq!(keys.account("dev-key-100"), Some(100));
    assert_eq!(keys.account("key2"), Some(7));
    assert_eq!(keys.account("other"), None);
    assert_eq!(keys.account("broken"), None);
}

#[test]
fn replay_requests_are_answered() {
    let mut exchange = ExchangeRuntime::new(seeding::demo_venue(), PublicFeedLog::in_memory());
    let mut session = OrderSession::new(0);
    send(&mut session, &mut exchange, "auth dev-key-100");
    send(&mut session, &mut exchange, "order 1 1 sell 10 5");
    send(&mut session, &mut exchange, "cancel 1 1");
    assert_eq!(
        feed(&exchange, "replay 1 2"),
        vec![
            "ok replay instrument=1 after_seq=2 events=1",
            "event instrument=1 canceled:3:order=1:side=sell:qty=5:price=10",
        ]
    );
    assert_eq!(feed(&exchange, "replay 0 0"), vec!["ok replay instrument=0 after_seq=0 events=0"]);
    assert_eq!(feed(&exchange, "replay x 0"), vec!["error invalid-instrument-id"]);
    assert_eq!(feed(&exchange, "replay 0 x"), vec!["error invalid-seq"]);
    assert_eq!(feed(&exchange, "replay 6 0"), vec!["error unknown-instrument"]);
    assert_eq!(
        feed(&exchange, "help"),
        vec!["ok help subscribe <instrument_id> [depth] | replay <instrument_id> <after_seq>"]
    );
    assert_eq!(
        feed(&exchange, "replay 0"),
        vec!["error usage subscribe <instrument_id> [depth] | replay <instrument_id> <after_seq>"]
    );
    let closed = feed_step(&Incoming::Close, &exchange);
    assert_eq!((closed.lines.len(), closed.state), (0, FeedState::Closed));
    assert_eq!(feed_step(&Incoming::Other, &exchange).lines, vec!["error text-messages-only"]);
}

#[test]
fn every_answer_is_one_line() {
    let mut venue = seeding::demo_venue();
    for line in [
        "",
        "help",
        "instruments",
        "book",
        "book 0",
        "book 0 3",
        "book x",
        "book 0 x",
        "book 99",
        "order 0 1 100 sell 10000 25",
        "order 0 2 101 buy 10000 10",
        "order 0 2 101 hold 10000 10",
        "order 0 2",
        "order 99 3 101 buy 10000 10",
        "replace 0 1 4 100 sell 10001 5",
        "replace 0 1 x 100 sell 10001 5",
        "cancel 0 4",
        "cancel 0 77",
        "account 100 AAA",
        "account 100\tA\u{85}B",
        "account x AAA",
        "revenue USD",
        "revenue\u{2028}no\u{b}such",
        "dance\r\nagain",
    ] {
        let response = handle_order_command(line, &mut venue).response;
        assert!(!response.is_empty(), "{line}");
        assert!(!response.contains('\n') && !response.contains('\r'), "{line}: {response}");
    }
    assert_eq!(handle_order_command("dance\r\nagain", &mut venue).response, "error unknown-command command=dance");
    for line in ["help", "subscribe 0", "subscribe 0 2", "subscribe x", "subscribe 0 x", "subscribe 99", "sing"] {
        let lines = handle_feed_command(line, &venue).lines;
        assert!(!lines.is_empty());
        assert!(lines.iter().all(|answer| answer.lines().count() == 1), "{line}");
    }
}

#[test]
fn a_level_that_cannot_be_shown_stops_only_the_lines_that_show_it() {
    let mut venue = Venue::new(VenueConfig::star("big", "USD", &vec!["AAA".to_string(), "BBB".to_string()]));
    venue.credit(1, "AAA", 1 << 66);
    for order_id in [1, 2] {
        let order = NewOrder { order_id, account_id: 1, side: Side::Sell, price: Price(7), quantity: u64::MAX };
        assert_eq!(venue.submit_limit(0, order).unwrap().len(), 2);
    }
    assert!(!venue.levels_fit(0) && venue.levels_fit(1) && venue.levels_fit(2));
    assert!(!venue.is_ready());
    assert!(!order_entry::is_safe_to_serve("book 0 1", &venue));
    assert!(!protocol::can_show("book 0", "book", &venue));
    assert!(!market_data::is_safe_to_subscribe("subscribe 0", &venue));
    for line in ["book 1", "book 9", "book", "help", "cancel 0 1", "order 0 3 1 sell 8 1", "subscribe 0"] {
        assert!(order_entry::is_safe_to_serve(line, &venue), "{line}");
    }
    assert!(market_data::is_safe_to_subscribe("subscribe 1", &venue));
    assert!(market_data::is_safe_to_subscribe("book 0", &venue));

    let mut spent = RateLimit::per_second(1, 0);
    assert!(spent.would_allow(0) && spent.allow(0) && !spent.would_allow(0));
    assert!(spent.would_allow(1_000_000_000));
    let reply = order_entry::handle_order_line("book 0", 0, &mut spent, &mut venue);
    assert_eq!(reply.response, "error rate-limit-exceeded");

    let keys = ApiKeys::development();
    let mut session = OrderSession::new(0);
    for _ in 0..ORDER_COMMANDS_PER_SECOND {
        assert!(session.would_read(0));
        session.step(&text("help"), 0, &keys, &venue);
    }
    assert!(!session.would_read(0));
    let step = session.step(&text("book 0"), 0, &keys, &venue);
    assert!(matches!(step, SessionStep::Reply { line } if line == "error rate-limit-exceeded"));
}
