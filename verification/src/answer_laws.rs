//! How the gateways answer the lines that change nothing, and those that are wrong.
use vstd::prelude::*;

use crate::checksum;
use crate::events;
use crate::instrument::{ConfigView, InstrumentView};
use crate::level_laws;
use crate::model;
use crate::model::BookView;
use crate::order_entry;
use crate::protocol;
use crate::protocol::RequestView;
use crate::request_laws;
use crate::text;
use crate::types::{BookEvent, Level, OrderId, Side};
use crate::venue_model::VenueView;

verus! {

/// The state of a book as text, with these levels.
pub open spec fn state_text(seq: u64, bids: Seq<Level>, asks: Seq<Level>) -> Seq<char> {
    "seq="@ + text::dec(seq as nat) + " checksum="@ + text::dec(checksum::checksum_of(bids, asks) as nat)
        + " bids="@ + events::levels_text(bids) + " asks="@ + events::levels_text(asks)
}

/// Whether a text shows a book to a depth: its sequence number, the best levels of both sides, and
/// the checksum over these.
pub open spec fn shows_book(shown: Seq<char>, book: BookView, depth: nat) -> bool {
    exists|bids: Seq<Level>, asks: Seq<Level>|
        {
            &&& level_laws::best_levels(bids, book.bids, Side::Buy, depth)
            &&& level_laws::best_levels(asks, book.asks, Side::Sell, depth)
            &&& shown == #[trigger] state_text(book.seq, bids, asks)
        }
}

/// The text of a book shows it.
pub proof fn lemma_shows_book(book: BookView, depth: nat)
    requires
        book.valid(),
        model::visible_fit(book.bids, depth),
        model::visible_fit(book.asks, depth),
    ensures
        shows_book(protocol::book_text(book, depth), book, depth),
{
    let bids = model::shown_levels(book.bids, depth);
    let asks = model::shown_levels(book.asks, depth);
    level_laws::law_best_levels_are_shown(book.bids, Side::Buy, depth);
    level_laws::law_best_levels_are_shown(book.asks, Side::Sell, depth);
    assert(protocol::book_text(book, depth) == state_text(book.seq, bids, asks));
}

/// The depth that a line names in its third word, or the venue's own where it has two words.
pub open spec fn depth_asked(config: ConfigView, w: Seq<Seq<char>>) -> Option<nat> {
    if w.len() == 2 {
        Some(config.default_snapshot_depth as nat)
    } else {
        text::parsed(w[2], usize::MAX as nat)
    }
}

/// Whether the totals of the levels that a line asks for fit a `Quantity`, if it names an instrument
/// and a depth.
pub open spec fn can_be_shown(venue: VenueView, w: Seq<Seq<char>>) -> bool {
    let id = text::parsed(w[1], 0xffff_ffff);
    let depth = depth_asked(venue.config, w);
    id is Some && depth is Some && id->0 < venue.books.len() ==> model::visible_fit(
        venue.books[id->0 as int].bids,
        depth->0,
    ) && model::visible_fit(venue.books[id->0 as int].asks, depth->0)
}

/// `book <instrument_id> [depth]` shows the book of the instrument to the depth that was asked for,
/// or names what is wrong with the line: the number of its words, the instrument, the depth, or that
/// there is no such instrument.
pub proof fn law_book_line_shows_the_book(venue: VenueView, w: Seq<Seq<char>>)
    requires
        venue.valid(),
        w.len() > 0,
        w[0] == "book"@,
        can_be_shown(venue, w),
    ensures
        ({
            let id = text::parsed(w[1], 0xffff_ffff);
            let depth = depth_asked(venue.config, w);
            let answer = order_entry::request_of(venue, w);
            if w.len() != 2 && w.len() != 3 {
                answer == (RequestView::Respond { line: "error usage book <instrument_id> [depth]"@ })
            } else if id is None {
                answer == (RequestView::Respond { line: "error invalid-instrument-id"@ })
            } else if depth is None {
                answer == (RequestView::Respond { line: "error invalid-depth"@ })
            } else if id->0 >= venue.books.len() {
                answer == (RequestView::Respond { line: "error unknown-instrument"@ })
            } else {
                exists|shown: Seq<char>|
                    #![trigger ("ok book "@ + shown)]
                    shows_book(shown, venue.books[id->0 as int], depth->0) && answer
                        == (RequestView::Respond { line: "ok book "@ + shown })
            }
        }),
{
    request_laws::lemma_command_words();
    let id = text::parsed(w[1], 0xffff_ffff);
    let depth = depth_asked(venue.config, w);
    if (w.len() == 2 || w.len() == 3) && id is Some && depth is Some && id->0 < venue.books.len() {
        let book = venue.books[id->0 as int];
        assert(book.valid());
        lemma_shows_book(book, depth->0);
        let shown = protocol::book_text(book, depth->0);
        assert(order_entry::request_of(venue, w) == (RequestView::Respond { line: "ok book "@ + shown }));
    }
}

/// `account <account_id> <asset>` tells what is available to the account and what it has set aside.
pub proof fn law_account_line_tells_the_balance(venue: VenueView, w: Seq<Seq<char>>)
    requires
        w.len() > 0,
        w[0] == "account"@,
    ensures
        ({
            let account = text::parsed(w[1], 0xffff_ffff_ffff_ffff);
            let answer = order_entry::request_of(venue, w);
            if w.len() != 3 {
                answer == (RequestView::Respond { line: "error usage account <account_id> <asset>"@ })
            } else if account is None {
                answer == (RequestView::Respond { line: "error invalid-account-id"@ })
            } else {
                answer == (RequestView::Respond {
                    line: "ok account account="@ + text::dec(account->0) + " asset="@ + w[2] + " available="@
                        + text::dec(venue.ledger.available(account->0 as u64, w[2])) + " reserved="@
                        + text::dec(venue.ledger.reserved(account->0 as u64, w[2])),
                })
            }
        }),
{
    request_laws::lemma_command_words();
}

/// `revenue <asset>` tells what the exchange earned in the asset.
pub proof fn law_revenue_line_tells_the_revenue(venue: VenueView, w: Seq<Seq<char>>)
    requires
        w.len() > 0,
        w[0] == "revenue"@,
    ensures
        order_entry::request_of(venue, w) == (RequestView::Respond {
            line: if w.len() != 2 {
                "error usage revenue <asset>"@
            } else {
                "ok revenue asset="@ + w[1] + " amount="@ + text::dec(venue.ledger.revenue(w[1]))
            },
        }),
{
    request_laws::lemma_command_words();
}

/// `instruments` tells the name of the venue and then each of its instruments, in their order, by
/// number and by the two assets, with commas between them.
pub proof fn law_instruments_are_listed_in_turn(config: ConfigView, instrument: InstrumentView)
    ensures
        ({
            let entry = text::dec(instrument.id as nat) + ":"@ + (instrument.base + "/"@ + instrument.quote);
            let more = ConfigView { instruments: config.instruments.push(instrument), ..config };
            &&& config.instruments.len() == 0 ==> protocol::instruments_text(config)
                == "ok instruments venue="@ + config.name + " "@
            &&& protocol::instruments_text(more) == protocol::instruments_text(config) + (
            if config.instruments.len() == 0 {
                entry
            } else {
                ","@ + entry
            })
        }),
{
    let more = ConfigView { instruments: config.instruments.push(instrument), ..config };
    let few = Seq::new(
        config.instruments.len(),
        |i: int| protocol::listing_text(config.instruments[i]),
    );
    let parts = Seq::new(
        more.instruments.len(),
        |i: int| protocol::listing_text(more.instruments[i]),
    );
    let entry = protocol::listing_text(instrument);
    let head = "ok instruments venue="@ + config.name + " "@;
    assert(parts.drop_last() =~= few);
    assert(parts.last() == entry);
    if config.instruments.len() == 0 {
        assert(few =~= seq![]);
        assert(text::joined(few, ","@) =~= seq![]);
        assert(head + text::joined(few, ","@) =~= head);
        assert(parts[0] == entry);
    } else {
        assert(head + (text::joined(few, ","@) + ","@ + entry) =~= head + text::joined(few, ","@) + (","@
            + entry));
    }
}

/// A line without words, `help`, `instruments`, and a line that starts with no known word.
pub proof fn law_other_lines_are_answered(venue: VenueView, w: Seq<Seq<char>>)
    ensures
        w.len() == 0 ==> order_entry::request_of(venue, w) == (RequestView::Respond {
            line: "error empty-command"@,
        }),
        w.len() > 0 && w[0] == "instruments"@ ==> order_entry::request_of(venue, w) == (
        RequestView::Respond { line: protocol::instruments_text(venue.config) }),
        w.len() > 0 && w[0] == "help"@ ==> order_entry::request_of(venue, w) == (RequestView::Respond {
            line:
                "ok help instruments | book <instrument_id> [depth] | order <instrument_id> <order_id> <account_id> <buy|sell> <price> <quantity> | replace <instrument_id> <old_order_id> <new_order_id> <account_id> <buy|sell> <price> <quantity> | cancel <instrument_id> <order_id> | account <account_id> <asset> | revenue <asset>"@,
        }),
        w.len() > 0 && w[0] != "help"@ && w[0] != "instruments"@ && w[0] != "book"@ && w[0] != "order"@ && w[0]
            != "replace"@ && w[0] != "cancel"@ && w[0] != "account"@ && w[0] != "revenue"@
            ==> order_entry::request_of(venue, w) == (RequestView::Respond {
            line: "error unknown-command command="@ + w[0],
        }),
{
    request_laws::lemma_command_words();
}

/// What is wrong with the side, the price and the quantity of an order, in this order.
pub open spec fn terms_error(side: Seq<char>, price: Seq<char>, quantity: Seq<char>) -> Option<Seq<char>> {
    if side != "buy"@ && side != "sell"@ {
        Some("error invalid-side"@)
    } else if text::parsed(price, 0xffff_ffff_ffff_ffff) is None {
        Some("error invalid-price"@)
    } else if text::parsed(quantity, 0xffff_ffff_ffff_ffff) is None {
        Some("error invalid-quantity"@)
    } else {
        None
    }
}

/// A line that names an order, a replacement or a cancellation and does not run one is answered with
/// the first thing that is wrong with it: the number of its words, or else the first word that is not
/// what it should be.
pub proof fn law_first_wrong_word_is_named(venue: VenueView, w: Seq<Seq<char>>)
    requires
        w.len() > 0,
    ensures
        ({
            let answer = order_entry::request_of(venue, w);
            let wrong = |i: int| text::parsed(w[i], 0xffff_ffff_ffff_ffff) is None;
            let no_instrument = text::parsed(w[1], 0xffff_ffff) is None;
            &&& w[0] == "order"@ && answer is Respond ==> answer->line == (if w.len() != 7 {
                "error usage order <instrument_id> <order_id> <account_id> <buy|sell> <price> <quantity>"@
            } else if no_instrument {
                "error invalid-instrument-id"@
            } else if wrong(2) {
                "error invalid-order-id"@
            } else if wrong(3) {
                "error invalid-account-id"@
            } else {
                terms_error(w[4], w[5], w[6])->0
            })
            &&& w[0] == "replace"@ && answer is Respond ==> answer->line == (if w.len() != 8 {
                "error usage replace <instrument_id> <old_order_id> <new_order_id> <account_id> <buy|sell> <price> <quantity>"@
            } else if no_instrument {
                "error invalid-instrument-id"@
            } else if wrong(2) {
                "error invalid-old-order-id"@
            } else if wrong(3) {
                "error invalid-new-order-id"@
            } else if wrong(4) {
                "error invalid-account-id"@
            } else {
                terms_error(w[5], w[6], w[7])->0
            })
            &&& w[0] == "cancel"@ && answer is Respond ==> answer->line == (if w.len() != 3 {
                "error usage cancel <instrument_id> <order_id>"@
            } else if no_instrument {
                "error invalid-instrument-id"@
            } else {
                "error invalid-order-id"@
            })
        }),
{
    request_laws::lemma_command_words();
}

/// The answer to a command lists its events in turn, with bars between them.
pub proof fn law_events_are_answered_in_turn(list: Seq<BookEvent>, event: BookEvent)
    ensures
        order_entry::events_answer(seq![event]) == "ok events "@ + events::event_text(event),
        list.len() > 0 ==> order_entry::events_answer(list.push(event)) == order_entry::events_answer(list)
            + "|"@ + events::event_text(event),
{
    let one = Seq::new(1, |i: int| events::event_text(seq![event][i]));
    assert(one[0] == events::event_text(event));
    if list.len() > 0 {
        let more = list.push(event);
        let parts = Seq::new(more.len(), |i: int| events::event_text(more[i]));
        let few = Seq::new(list.len(), |i: int| events::event_text(list[i]));
        assert(parts.drop_last() =~= few);
        assert(parts.last() == events::event_text(event));
        let head = "ok events "@;
        let body = text::joined(few, "|"@);
        assert(head + (body + "|"@ + events::event_text(event)) =~= head + body + "|"@ + events::event_text(
            event,
        ));
    }
}

/// An event as text is made of its kind, its number and its fields, with colons between them.
pub proof fn law_event_text_gives_every_field(event: BookEvent)
    ensures
        ({
            let field = |name: Seq<char>, n: u64| name + text::dec(n as nat);
            let words = match event {
                BookEvent::Accepted { seq, order_id } => seq![
                    "accepted"@,
                    text::dec(seq as nat),
                    field("order="@, order_id),
                ],
                BookEvent::Executed { seq, execution } => seq![
                    "executed"@,
                    text::dec(seq as nat),
                    field("resting="@, execution.resting_order_id),
                    field("aggressing="@, execution.aggressing_order_id),
                    field("qty="@, execution.quantity),
                    field("price="@, execution.price.0),
                ],
                BookEvent::Rested { seq, order_id, side, price, quantity } => seq![
                    "rested"@,
                    text::dec(seq as nat),
                    field("order="@, order_id),
                    "side="@ + request_laws::side_word(side),
                    field("qty="@, quantity),
                    field("price="@, price.0),
                ],
                BookEvent::Canceled { seq, order_id, side, price, quantity } => seq![
                    "canceled"@,
                    text::dec(seq as nat),
                    field("order="@, order_id),
                    "side="@ + request_laws::side_word(side),
                    field("qty="@, quantity),
                    field("price="@, price.0),
                ],
                BookEvent::Rejected { seq, order_id, reason } => seq![
                    "rejected"@,
                    text::dec(seq as nat),
                    field("order="@, order_id),
                    "reason="@ + events::reason_text(reason),
                ],
            };
            events::event_text(event) == colons(words)
        }),
{
    lemma_event_literals();
    let start = |kind: Seq<char>| kind + seq![':'] + text::dec(event.number() as nat);
    match event {
        BookEvent::Accepted { seq, order_id } => {
            lemma_field(start("accepted"@), ":order="@, "order="@, text::dec(order_id as nat));
            lemma_three(
                seq!["accepted"@, text::dec(seq as nat), "order="@ + text::dec(order_id as nat)],
            );
        },
        BookEvent::Executed { seq, execution } => {
            let a = start("executed"@);
            let resting = text::dec(execution.resting_order_id as nat);
            let aggressing = text::dec(execution.aggressing_order_id as nat);
            let quantity = text::dec(execution.quantity as nat);
            let price = text::dec(execution.price.0 as nat);
            let b = a + ":resting="@ + resting;
            let c = b + ":aggressing="@ + aggressing;
            let d = c + ":qty="@ + quantity;
            lemma_field(a, ":resting="@, "resting="@, resting);
            lemma_field(b, ":aggressing="@, "aggressing="@, aggressing);
            lemma_field(c, ":qty="@, "qty="@, quantity);
            lemma_field(d, ":price="@, "price="@, price);
            lemma_six(
                seq![
                    "executed"@,
                    text::dec(seq as nat),
                    "resting="@ + resting,
                    "aggressing="@ + aggressing,
                    "qty="@ + quantity,
                    "price="@ + price,
                ],
            );
        },
        BookEvent::Rested { seq, order_id, side, price, quantity } => {
            lemma_resting_fields("rested"@, seq, order_id, side, price, quantity);
        },
        BookEvent::Canceled { seq, order_id, side, price, quantity } => {
            lemma_resting_fields("canceled"@, seq, order_id, side, price, quantity);
        },
        BookEvent::Rejected { seq, order_id, reason } => {
            let a = start("rejected"@);
            let order = text::dec(order_id as nat);
            lemma_field(a, ":order="@, "order="@, order);
            lemma_field(a + ":order="@ + order, ":reason="@, "reason="@, events::reason_text(reason));
            lemma_four(
                seq![
                    "rejected"@,
                    text::dec(seq as nat),
                    "order="@ + order,
                    "reason="@ + events::reason_text(reason),
                ],
            );
        },
    }
}

proof fn lemma_assoc(a: Seq<char>, b: Seq<char>, c: Seq<char>)
    ensures
        a + (b + c) == a + b + c,
{
    assert(a + (b + c) =~= a + b + c);
}

/// A field behind a colon is a part of its own.
proof fn lemma_field(before: Seq<char>, marked: Seq<char>, name: Seq<char>, value: Seq<char>)
    requires
        marked == seq![':'] + name,
    ensures
        before + marked + value == before + seq![':'] + (name + value),
{
    lemma_assoc(before, seq![':'], name);
    lemma_assoc(before + seq![':'], name, value);
}

proof fn lemma_resting_fields(
    kind: Seq<char>,
    seq: u64,
    order_id: OrderId,
    side: Side,
    price: crate::types::Price,
    quantity: u64,
)
    ensures
        kind + seq![':'] + text::dec(seq as nat) + events::resting_text(order_id, side, price, quantity)
            == colons(
            seq![
                kind,
                text::dec(seq as nat),
                "order="@ + text::dec(order_id as nat),
                "side="@ + request_laws::side_word(side),
                "qty="@ + text::dec(quantity as nat),
                "price="@ + text::dec(price.0 as nat),
            ],
        ),
{
    lemma_event_literals();
    let a = kind + seq![':'] + text::dec(seq as nat);
    let order = text::dec(order_id as nat);
    let name = request_laws::side_word(side);
    let q = text::dec(quantity as nat);
    let p = text::dec(price.0 as nat);
    let r1 = ":order="@ + order;
    let r2 = r1 + ":side="@;
    let r3 = r2 + name;
    let r4 = r3 + ":qty="@;
    let r5 = r4 + q;
    let r6 = r5 + ":price="@;
    assert(events::resting_text(order_id, side, price, quantity) == r6 + p);
    lemma_assoc(a, r6, p);
    lemma_assoc(a, r5, ":price="@);
    lemma_assoc(a, r4, q);
    lemma_assoc(a, r3, ":qty="@);
    lemma_assoc(a, r2, name);
    lemma_assoc(a, r1, ":side="@);
    lemma_assoc(a, ":order="@, order);
    let b = a + ":order="@ + order;
    let c = b + ":side="@ + name;
    let d = c + ":qty="@ + q;
    lemma_field(a, ":order="@, "order="@, order);
    lemma_field(b, ":side="@, "side="@, name);
    lemma_field(c, ":qty="@, "qty="@, q);
    lemma_field(d, ":price="@, "price="@, p);
    lemma_six(seq![kind, text::dec(seq as nat), "order="@ + order, "side="@ + name, "qty="@ + q, "price="@ + p]);
}

/// Parts with a colon between each two of them.
pub open spec fn colons(parts: Seq<Seq<char>>) -> Seq<char>
    decreases parts.len(),
{
    if parts.len() == 0 {
        seq![]
    } else if parts.len() == 1 {
        parts[0]
    } else {
        colons(parts.drop_last()) + seq![':'] + parts.last()
    }
}

proof fn lemma_three(w: Seq<Seq<char>>)
    requires
        w.len() == 3,
    ensures
        colons(w) == w[0] + seq![':'] + w[1] + seq![':'] + w[2],
{
    assert(w.drop_last().drop_last() =~= seq![w[0]]);
    reveal_with_fuel(colons, 4);
}

proof fn lemma_four(w: Seq<Seq<char>>)
    requires
        w.len() == 4,
    ensures
        colons(w) == w[0] + seq![':'] + w[1] + seq![':'] + w[2] + seq![':'] + w[3],
{
    lemma_three(w.drop_last());
}

proof fn lemma_six(w: Seq<Seq<char>>)
    requires
        w.len() == 6,
    ensures
        colons(w) == w[0] + seq![':'] + w[1] + seq![':'] + w[2] + seq![':'] + w[3] + seq![':'] + w[4]
            + seq![':'] + w[5],
{
    let five = w.drop_last();
    lemma_four(five.drop_last());
    assert(colons(five) == colons(five.drop_last()) + seq![':'] + five.last());
}

/// The literals of an event's text, taken apart at their colons.
proof fn lemma_event_literals()
    ensures
        "accepted:"@ == "accepted"@ + seq![':'],
        "executed:"@ == "executed"@ + seq![':'],
        "rested:"@ == "rested"@ + seq![':'],
        "canceled:"@ == "canceled"@ + seq![':'],
        "rejected:"@ == "rejected"@ + seq![':'],
        ":order="@ == seq![':'] + "order="@,
        ":resting="@ == seq![':'] + "resting="@,
        ":aggressing="@ == seq![':'] + "aggressing="@,
        ":qty="@ == seq![':'] + "qty="@,
        ":price="@ == seq![':'] + "price="@,
        ":side="@ == seq![':'] + "side="@,
        ":reason="@ == seq![':'] + "reason="@,
{
    reveal_strlit("accepted:");
    reveal_strlit("accepted");
    reveal_strlit("executed:");
    reveal_strlit("executed");
    reveal_strlit("rested:");
    reveal_strlit("rested");
    reveal_strlit("canceled:");
    reveal_strlit("canceled");
    reveal_strlit("rejected:");
    reveal_strlit("rejected");
    reveal_strlit(":order=");
    reveal_strlit("order=");
    reveal_strlit(":resting=");
    reveal_strlit("resting=");
    reveal_strlit(":aggressing=");
    reveal_strlit("aggressing=");
    reveal_strlit(":qty=");
    reveal_strlit("qty=");
    reveal_strlit(":price=");
    reveal_strlit("price=");
    reveal_strlit(":side=");
    reveal_strlit("side=");
    reveal_strlit(":reason=");
    reveal_strlit("reason=");
    assert("accepted:"@ =~= "accepted"@ + seq![':']);
    assert("executed:"@ =~= "executed"@ + seq![':']);
    assert("rested:"@ =~= "rested"@ + seq![':']);
    assert("canceled:"@ =~= "canceled"@ + seq![':']);
    assert("rejected:"@ =~= "rejected"@ + seq![':']);
    assert(":order="@ =~= seq![':'] + "order="@);
    assert(":resting="@ =~= seq![':'] + "resting="@);
    assert(":aggressing="@ =~= seq![':'] + "aggressing="@);
    assert(":qty="@ =~= seq![':'] + "qty="@);
    assert(":price="@ =~= seq![':'] + "price="@);
    assert(":side="@ =~= seq![':'] + "side="@);
    assert(":reason="@ =~= seq![':'] + "reason="@);
}

} // verus!
