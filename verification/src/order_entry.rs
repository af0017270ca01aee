//! The order-entry gateway on which every line names the account it acts for.
use vstd::prelude::*;

use crate::events;
use crate::protocol;
use crate::protocol::{Request, RequestView};
use crate::rate_limit::RateLimit;
use crate::runtime;
use crate::runtime::Command;
use crate::text;
use crate::types::{AccountId, BookEvent, InstrumentId, NewOrder, OrderId, Price};
use crate::venue::Venue;
use crate::venue_model::VenueView;

verus! {

/// How many commands a connection may send per second.
pub const ORDER_COMMANDS_PER_SECOND: u32 = 100;

/// The line with which the gateway greets a client.
pub fn hello() -> (line: &'static str)
    ensures
        line@ == "ok hello protocol=exch-order-entry commands=instruments,book,order,replace,cancel,account,revenue,help"@,
{
    "ok hello protocol=exch-order-entry commands=instruments,book,order,replace,cancel,account,revenue,help"
}

/// The answer to `help`.
pub open spec fn help_text() -> Seq<char> {
    "ok help instruments | book <instrument_id> [depth] | order <instrument_id> <order_id> <account_id> <buy|sell> <price> <quantity> | replace <instrument_id> <old_order_id> <new_order_id> <account_id> <buy|sell> <price> <quantity> | cancel <instrument_id> <order_id> | account <account_id> <asset> | revenue <asset>"@
}

/// The answer to `help`.
pub fn help() -> (line: &'static str)
    ensures
        line@ == help_text(),
{
    "ok help instruments | book <instrument_id> [depth] | order <instrument_id> <order_id> <account_id> <buy|sell> <price> <quantity> | replace <instrument_id> <old_order_id> <new_order_id> <account_id> <buy|sell> <price> <quantity> | cancel <instrument_id> <order_id> | account <account_id> <asset> | revenue <asset>"
}

/// The answer to a command that came too early.
pub fn rate_limit_exceeded() -> (line: &'static str)
    ensures
        line@ == "error rate-limit-exceeded"@,
{
    "error rate-limit-exceeded"
}

/// What `order <instrument_id> <order_id> <account_id> <buy|sell> <price> <quantity>` asks for.
pub open spec fn order_request(w: Seq<Seq<char>>) -> RequestView {
    let id = protocol::instrument_number(w[1]);
    let order_id = protocol::number(w[2]);
    let account_id = protocol::number(w[3]);
    if w.len() != 7 {
        RequestView::Respond {
            line:
                "error usage order <instrument_id> <order_id> <account_id> <buy|sell> <price> <quantity>"@,
        }
    } else if id is None {
        RequestView::Respond { line: "error invalid-instrument-id"@ }
    } else if order_id is None {
        RequestView::Respond { line: "error invalid-order-id"@ }
    } else if account_id is None {
        RequestView::Respond { line: "error invalid-account-id"@ }
    } else {
        match protocol::terms_named(w[4], w[5], w[6]) {
            Err(line) => RequestView::Respond { line },
            Ok(terms) => RequestView::Run {
                instrument_id: id->0 as u32,
                command: Command::Submit {
                    order: protocol::order_on(order_id->0, account_id->0 as u64, terms),
                },
            },
        }
    }
}

/// Reads `order <instrument_id> <order_id> <account_id> <buy|sell> <price> <quantity>`.
pub fn order(w: &Vec<String>) -> (request: Request)
    ensures
        request@ == order_request(text::texts(w@)),
{
    let ghost words = text::texts(w@);
    if w.len() != 7 {
        return protocol::respond(
            "error usage order <instrument_id> <order_id> <account_id> <buy|sell> <price> <quantity>",
        );
    }
    assert(forall|i: int| 0 <= i < 7 ==> #[trigger] words[i] == w@[i]@);
    let instrument_id: InstrumentId = match protocol::parse_instrument(w[1].as_str()) {
        Some(id) => id,
        None => {
            return protocol::respond("error invalid-instrument-id");
        },
    };
    let order_id: OrderId = match protocol::parse_number(w[2].as_str()) {
        Some(id) => id,
        None => {
            return protocol::respond("error invalid-order-id");
        },
    };
    let account_id: AccountId = match protocol::parse_number(w[3].as_str()) {
        Some(id) => id,
        None => {
            return protocol::respond("error invalid-account-id");
        },
    };
    match protocol::parse_terms(w[4].as_str(), w[5].as_str(), w[6].as_str()) {
        Err(line) => protocol::respond(line),
        Ok(terms) => {
            let order = NewOrder {
                order_id,
                account_id,
                side: terms.side,
                price: Price(terms.price),
                quantity: terms.quantity,
            };
            Request::Run { instrument_id, command: Command::Submit { order } }
        },
    }
}

/// What `replace <instrument_id> <old_order_id> <new_order_id> <account_id> <buy|sell> <price>
/// <quantity>` asks for.
pub open spec fn replace_request(w: Seq<Seq<char>>) -> RequestView {
    let id = protocol::instrument_number(w[1]);
    let old_order_id = protocol::number(w[2]);
    let new_order_id = protocol::number(w[3]);
    let account_id = protocol::number(w[4]);
    if w.len() != 8 {
        RequestView::Respond {
            line:
                "error usage replace <instrument_id> <old_order_id> <new_order_id> <account_id> <buy|sell> <price> <quantity>"@,
        }
    } else if id is None {
        RequestView::Respond { line: "error invalid-instrument-id"@ }
    } else if old_order_id is None {
        RequestView::Respond { line: "error invalid-old-order-id"@ }
    } else if new_order_id is None {
        RequestView::Respond { line: "error invalid-new-order-id"@ }
    } else if account_id is None {
        RequestView::Respond { line: "error invalid-account-id"@ }
    } else {
        match protocol::terms_named(w[5], w[6], w[7]) {
            Err(line) => RequestView::Respond { line },
            Ok(terms) => RequestView::Run {
                instrument_id: id->0 as u32,
                command: Command::Replace {
                    old_order_id: old_order_id->0 as u64,
                    order: protocol::order_on(new_order_id->0, account_id->0 as u64, terms),
                },
            },
        }
    }
}

/// Reads `replace <instrument_id> <old_order_id> <new_order_id> <account_id> <buy|sell> <price>
/// <quantity>`.
pub fn replace(w: &Vec<String>) -> (request: Request)
    ensures
        request@ == replace_request(text::texts(w@)),
{
    let ghost words = text::texts(w@);
    if w.len() != 8 {
        return protocol::respond(
            "error usage replace <instrument_id> <old_order_id> <new_order_id> <account_id> <buy|sell> <price> <quantity>",
        );
    }
    assert(forall|i: int| 0 <= i < 8 ==> #[trigger] words[i] == w@[i]@);
    let instrument_id: InstrumentId = match protocol::parse_instrument(w[1].as_str()) {
        Some(id) => id,
        None => {
            return protocol::respond("error invalid-instrument-id");
        },
    };
    let old_order_id: OrderId = match protocol::parse_number(w[2].as_str()) {
        Some(id) => id,
        None => {
            return protocol::respond("error invalid-old-order-id");
        },
    };
    let new_order_id: OrderId = match protocol::parse_number(w[3].as_str()) {
        Some(id) => id,
        None => {
            return protocol::respond("error invalid-new-order-id");
        },
    };
    let account_id: AccountId = match protocol::parse_number(w[4].as_str()) {
        Some(id) => id,
        None => {
            return protocol::respond("error invalid-account-id");
        },
    };
    match protocol::parse_terms(w[5].as_str(), w[6].as_str(), w[7].as_str()) {
        Err(line) => protocol::respond(line),
        Ok(terms) => {
            let order = NewOrder {
                order_id: new_order_id,
                account_id,
                side: terms.side,
                price: Price(terms.price),
                quantity: terms.quantity,
            };
            Request::Run { instrument_id, command: Command::Replace { old_order_id, order } }
        },
    }
}

/// What a line of words asks for.
pub open spec fn request_of(venue: VenueView, w: Seq<Seq<char>>) -> RequestView {
    if w.len() == 0 {
        RequestView::Respond { line: "error empty-command"@ }
    } else if w[0] == "help"@ {
        RequestView::Respond { line: help_text() }
    } else if w[0] == "instruments"@ {
        RequestView::Respond { line: protocol::instruments_text(venue.config) }
    } else if w[0] == "book"@ {
        RequestView::Respond { line: protocol::book_answer(venue, w) }
    } else if w[0] == "order"@ {
        order_request(w)
    } else if w[0] == "replace"@ {
        replace_request(w)
    } else if w[0] == "cancel"@ {
        protocol::cancel_request(w)
    } else if w[0] == "account"@ {
        RequestView::Respond { line: protocol::account_answer(venue, w) }
    } else if w[0] == "revenue"@ {
        RequestView::Respond { line: protocol::revenue_answer(venue, w) }
    } else {
        RequestView::Respond { line: "error unknown-command command="@ + w[0] }
    }
}

/// Reads a line.
pub fn read_request(line: &str, venue: &Venue) -> (request: Request)
    requires
        venue.wf(),
        protocol::line_fits(venue@, text::words(line@)),
    ensures
        request@ == request_of(venue@, text::words(line@)),
{
    let w = text::split_words(line);
    let ghost words = text::texts(w@);
    if w.len() == 0 {
        return protocol::respond("error empty-command");
    }
    assert(words[0] == w@[0]@);
    let command = w[0].as_str();
    if text::same(command, "help") {
        protocol::respond(help())
    } else if text::same(command, "instruments") {
        Request::Respond { line: protocol::instruments(venue) }
    } else if text::same(command, "book") {
        Request::Respond { line: protocol::book(&w, venue) }
    } else if text::same(command, "order") {
        order(&w)
    } else if text::same(command, "replace") {
        replace(&w)
    } else if text::same(command, "cancel") {
        protocol::cancel(&w)
    } else if text::same(command, "account") {
        Request::Respond { line: protocol::account(&w, venue) }
    } else if text::same(command, "revenue") {
        Request::Respond { line: protocol::revenue(&w, venue) }
    } else {
        let mut line = "error unknown-command command=".to_owned();
        line.append(command);
        Request::Respond { line }
    }
}

/// Whether a line can be carried out within the limits of the machine: the levels that it asks for
/// can be shown, and sequence numbers are left for its command.
pub open spec fn can_serve(venue: VenueView, w: Seq<Seq<char>>) -> bool {
    &&& protocol::line_fits(venue, w)
    &&& match request_of(venue, w) {
        RequestView::Respond { .. } => true,
        RequestView::Run { instrument_id, command } => runtime::room_for(venue, instrument_id, command),
    }
}

/// A ready venue can carry out every line.
pub proof fn law_ready_venue_serves_every_line(venue: VenueView, w: Seq<Seq<char>>)
    requires
        venue.valid(),
        venue.ready(),
    ensures
        can_serve(venue, w),
{
    protocol::lemma_ready_books_fit(venue, w);
    match request_of(venue, w) {
        RequestView::Respond { .. } => {},
        RequestView::Run { instrument_id, command } => {
            if venue.lists(instrument_id) {
                assert(venue.books[instrument_id as int].has_room());
            }
            runtime::law_ready_venue_has_room(venue, instrument_id, command);
        },
    }
}

/// Whether a line can be carried out however many orders it meets: a book that it names can be
/// shown, or the book that its command goes to has room for any command.
pub open spec fn safe_to_serve(venue: VenueView, w: Seq<Seq<char>>) -> bool {
    &&& protocol::named_book_fits(venue, w, "book"@)
    &&& match request_of(venue, w) {
        RequestView::Respond { .. } => true,
        RequestView::Run { instrument_id, .. } => venue.lists(instrument_id) ==> venue.book(
            instrument_id,
        ).has_room(),
    }
}

/// Tells whether a line can be carried out however many orders it meets.
pub fn is_safe_to_serve(line: &str, venue: &Venue) -> (result: bool)
    requires
        venue.wf(),
    ensures
        result == safe_to_serve(venue@, text::words(line@)),
        result ==> can_serve(venue@, text::words(line@)),
{
    if !protocol::can_show(line, "book", venue) {
        return false;
    }
    match read_request(line, venue) {
        Request::Respond { .. } => true,
        Request::Run { instrument_id, command } => {
            proof {
                venue.lemma_wf_valid();
                if venue@.lists(instrument_id) ==> venue@.book(instrument_id).has_room() {
                    runtime::law_ready_venue_has_room(venue@, instrument_id, command);
                }
            }
            venue.has_room(instrument_id)
        },
    }
}

/// The answer to a line, and what it did: `events` happened on `instrument_id`.
pub struct OrderReply {
    pub response: String,
    pub instrument_id: InstrumentId,
    pub events: Vec<BookEvent>,
}

/// The answer to a command whose events are `events`.
pub open spec fn events_answer(events: Seq<BookEvent>) -> Seq<char> {
    "ok events "@ + events::events_text(events, "|"@)
}

/// The answer to a command whose events are `events`.
pub fn answer_events(list: &Vec<BookEvent>) -> (line: String)
    ensures
        line@ == events_answer(list@),
{
    let mut line = "ok events ".to_owned();
    line.append(events::private_events(list).as_str());
    line
}

/// Whether `reply` answers the words of a line on the venue `before`, and `after` is the venue that
/// the line leaves.
pub open spec fn served(before: VenueView, w: Seq<Seq<char>>, reply: OrderReply, after: VenueView) -> bool {
    match request_of(before, w) {
        RequestView::Respond { line } => {
            &&& reply.response@ == line
            &&& reply.events@.len() == 0
            &&& after == before
        },
        RequestView::Run { instrument_id, command } => if before.lists(instrument_id) {
            &&& reply.events@ == runtime::command_events(before, instrument_id, command)
            &&& reply.response@ == events_answer(reply.events@)
            &&& reply.instrument_id == instrument_id
            &&& after == runtime::after_command(before, instrument_id, command)
        } else {
            &&& reply.response@ == "error unknown-instrument"@
            &&& reply.events@.len() == 0
            &&& after == before
        },
    }
}

/// An answer to which nothing happened.
fn only(response: String) -> (reply: OrderReply)
    ensures
        reply.response == response,
        reply.events@.len() == 0,
{
    OrderReply { response, instrument_id: 0, events: Vec::new() }
}

/// Carries out what a line asks for and answers it.
pub fn handle_order_command(line: &str, venue: &mut Venue) -> (reply: OrderReply)
    requires
        old(venue).wf(),
        can_serve(old(venue)@, text::words(line@)),
    ensures
        final(venue).wf(),
        served(old(venue)@, text::words(line@), reply, final(venue)@),
{
    match read_request(line, venue) {
        Request::Respond { line } => only(line),
        Request::Run { instrument_id, command } => match runtime::execute_on(venue, instrument_id, command) {
            Ok(events) => OrderReply { response: answer_events(&events), instrument_id, events },
            Err(_) => only("error unknown-instrument".to_owned()),
        },
    }
}

/// Answers a line that came at `now`: where the connection has used up its commands for the second,
/// the line is not read.
pub fn handle_order_line(line: &str, now: u128, rate: &mut RateLimit, venue: &mut Venue) -> (reply: OrderReply)
    requires
        old(rate).wf(),
        old(venue).wf(),
        old(rate).allows(now) ==> can_serve(old(venue)@, text::words(line@)),
    ensures
        final(rate).wf(),
        final(venue).wf(),
        *final(rate) == old(rate).after(now),
        if old(rate).allows(now) {
            served(old(venue)@, text::words(line@), reply, final(venue)@)
        } else {
            &&& reply.response@ == "error rate-limit-exceeded"@
            &&& reply.events@.len() == 0
            &&& final(venue)@ == old(venue)@
        },
{
    if rate.allow(now) {
        handle_order_command(line, venue)
    } else {
        only(rate_limit_exceeded().to_owned())
    }
}

} // verus!
