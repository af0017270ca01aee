//! The line protocol of order entry: what requests mean and how they are answered.
use vstd::prelude::*;

use crate::checksum;
use crate::events;
use crate::instrument::{ConfigView, InstrumentView};
use crate::model;
use crate::model::BookView;
use crate::runtime::Command;
use crate::text;
use crate::types::{AccountId, BookSnapshot, InstrumentId, NewOrder, OrderId, Price, Side};
use crate::venue::Venue;
use crate::venue_model::VenueView;

verus! {

/// What a line asks for: an answer that changes nothing, or a command on a book.
pub enum Request {
    Respond { line: String },
    Run { instrument_id: InstrumentId, command: Command },
}

/// A request as contracts speak of it.
pub enum RequestView {
    Respond { line: Seq<char> },
    Run { instrument_id: InstrumentId, command: Command },
}

impl View for Request {
    type V = RequestView;

    open spec fn view(&self) -> RequestView {
        match self {
            Request::Respond { line } => RequestView::Respond { line: line@ },
            Request::Run { instrument_id, command } => RequestView::Run {
                instrument_id: *instrument_id,
                command: *command,
            },
        }
    }
}

/// An answer that changes nothing.
pub fn respond(line: &str) -> (request: Request)
    ensures
        request@ == (RequestView::Respond { line: line@ }),
{
    Request::Respond { line: line.to_owned() }
}

pub open spec fn instrument_number(word: Seq<char>) -> Option<nat> {
    text::parsed(word, u32::MAX as nat)
}

pub open spec fn number(word: Seq<char>) -> Option<nat> {
    text::parsed(word, u64::MAX as nat)
}

pub open spec fn depth_number(word: Seq<char>) -> Option<nat> {
    text::parsed(word, usize::MAX as nat)
}

pub fn parse_instrument(word: &str) -> (result: Option<InstrumentId>)
    ensures
        match result {
            Some(n) => instrument_number(word@) == Some(n as nat),
            None => instrument_number(word@) is None,
        },
{
    match text::parse_unsigned(word, 0xffff_ffff) {
        Some(n) => Some(n as u32),
        None => None,
    }
}

pub fn parse_number(word: &str) -> (result: Option<u64>)
    ensures
        match result {
            Some(n) => number(word@) == Some(n as nat),
            None => number(word@) is None,
        },
{
    text::parse_unsigned(word, u64::MAX)
}

pub fn parse_depth(word: &str) -> (result: Option<usize>)
    ensures
        match result {
            Some(n) => depth_number(word@) == Some(n as nat),
            None => depth_number(word@) is None,
        },
{
    match text::parse_unsigned(word, usize::MAX as u64) {
        Some(n) => Some(n as usize),
        None => None,
    }
}

/// One instrument in the list of instruments.
pub open spec fn listing_text(instrument: InstrumentView) -> Seq<char> {
    text::dec(instrument.id as nat) + ":"@ + (instrument.base + "/"@ + instrument.quote)
}

/// The answer to `instruments`.
pub open spec fn instruments_text(config: ConfigView) -> Seq<char> {
    "ok instruments venue="@ + config.name + " "@ + text::joined(
        Seq::new(config.instruments.len(), |i: int| listing_text(config.instruments[i])),
        ","@,
    )
}

/// The answer to `instruments`: the name of the venue and its instruments.
pub fn instruments(venue: &Venue) -> (line: String)
    ensures
        line@ == instruments_text(venue@.config),
{
    let config = venue.config();
    let n: usize = config.instruments.len();
    let mut parts: Vec<String> = Vec::new();
    let mut i: usize = 0;
    while i < n
        invariant
            i <= n,
            n == config.instruments@.len(),
            config@ == venue@.config,
            parts@.len() == i,
            forall|j: int|
                0 <= j < i ==> (#[trigger] parts@[j])@ == listing_text(config@.instruments[j]),
        decreases n - i,
    {
        let instrument = &config.instruments[i];
        assert(instrument@ == config@.instruments[i as int]);
        let mut part = String::new();
        text::append_decimal(&mut part, instrument.id as u128);
        assert(part@ =~= text::dec(instrument.id as nat));
        part.append(":");
        part.append(instrument.symbol().as_str());
        parts.push(part);
        i = i + 1;
    }
    assert(text::texts(parts@) =~= Seq::new(
        config@.instruments.len(),
        |i: int| listing_text(config@.instruments[i]),
    ));
    let mut line = "ok instruments venue=".to_owned();
    line.append(config.name.as_str());
    line.append(" ");
    line.append(text::join(&parts, ",").as_str());
    line
}

/// The state of a book as text: sequence number, checksum, and the best levels of both sides.
pub open spec fn book_text(book: BookView, depth: nat) -> Seq<char> {
    let bids = model::shown_levels(book.bids, depth);
    let asks = model::shown_levels(book.asks, depth);
    "seq="@ + text::dec(book.seq as nat) + " checksum="@ + text::dec(
        checksum::checksum_of(bids, asks) as nat,
    ) + " bids="@ + events::levels_text(bids) + " asks="@ + events::levels_text(asks)
}

/// A snapshot as text.
pub fn snapshot_text(snapshot: &BookSnapshot) -> (line: String)
    ensures
        line@ == "seq="@ + text::dec(snapshot.seq as nat) + " checksum="@ + text::dec(
            snapshot.checksum as nat,
        ) + " bids="@ + events::levels_text(snapshot.bids@) + " asks="@ + events::levels_text(
            snapshot.asks@,
        ),
{
    let mut line = "seq=".to_owned();
    text::append_decimal(&mut line, snapshot.seq as u128);
    line.append(" checksum=");
    text::append_decimal(&mut line, snapshot.checksum as u128);
    line.append(" bids=");
    line.append(events::levels(snapshot.bids.as_slice()).as_str());
    line.append(" asks=");
    line.append(events::levels(snapshot.asks.as_slice()).as_str());
    line
}

/// The depth that a request names, or the venue's default where it names none.
pub open spec fn depth_or_default(config: ConfigView, word: Option<Seq<char>>) -> Option<nat> {
    match word {
        Some(word) => depth_number(word),
        None => Some(config.default_snapshot_depth as nat),
    }
}

/// The answer to `book <instrument_id> [depth]`.
pub open spec fn book_answer(venue: VenueView, w: Seq<Seq<char>>) -> Seq<char> {
    let id = instrument_number(w[1]);
    let depth = depth_or_default(venue.config, if w.len() == 3 { Some(w[2]) } else { None });
    if w.len() < 2 || w.len() > 3 {
        "error usage book <instrument_id> [depth]"@
    } else if id is None {
        "error invalid-instrument-id"@
    } else if depth is None {
        "error invalid-depth"@
    } else if !venue.lists(id->0 as u32) {
        "error unknown-instrument"@
    } else {
        "ok book "@ + book_text(venue.book(id->0 as u32), depth->0)
    }
}

/// Whether the totals of the best levels of a listed instrument fit a `Quantity`.
pub open spec fn levels_shown_fit(venue: VenueView, id: Option<nat>, depth: Option<nat>) -> bool {
    id is Some && depth is Some && venue.lists(id->0 as u32) ==> model::visible_fit(
        venue.book(id->0 as u32).bids,
        depth->0,
    ) && model::visible_fit(venue.book(id->0 as u32).asks, depth->0)
}

/// On a ready venue all levels can be shown.
pub proof fn lemma_ready_shows(venue: VenueView, id: Option<nat>, depth: Option<nat>)
    requires
        venue.ready(),
        id is Some ==> id->0 <= u32::MAX,
    ensures
        levels_shown_fit(venue, id, depth),
{
    if id is Some && depth is Some && venue.lists(id->0 as u32) {
        assert(venue.books[id->0 as int].has_room());
        model::lemma_visible_fit(venue.book(id->0 as u32).bids, depth->0);
        model::lemma_visible_fit(venue.book(id->0 as u32).asks, depth->0);
    }
}

/// Whether the levels that `book <instrument_id> [depth]` asks for can be shown.
pub open spec fn book_fits(venue: VenueView, w: Seq<Seq<char>>) -> bool {
    2 <= w.len() <= 3 ==> levels_shown_fit(
        venue,
        instrument_number(w[1]),
        depth_or_default(venue.config, if w.len() == 3 { Some(w[2]) } else { None }),
    )
}

/// Whether the levels that a line asks for, if it asks for a book, can be shown.
pub open spec fn line_fits(venue: VenueView, w: Seq<Seq<char>>) -> bool {
    w.len() > 0 && w[0] == "book"@ ==> book_fits(venue, w)
}

/// Whether the words of a line, if they are `command` and then an instrument, name a book of which
/// all levels can be shown.
pub open spec fn named_book_fits(venue: VenueView, w: Seq<Seq<char>>, command: Seq<char>) -> bool {
    let id = instrument_number(w[1]);
    w.len() >= 2 && w[0] == command && id is Some && venue.lists(id->0 as u32) ==> model::levels_fit(
        venue.book(id->0 as u32).bids,
    ) && model::levels_fit(venue.book(id->0 as u32).asks)
}

/// Where all levels of a named book can be shown, so can any number of its best levels.
pub proof fn lemma_named_book_fits(venue: VenueView, w: Seq<Seq<char>>, command: Seq<char>, depth: Option<nat>)
    requires
        named_book_fits(venue, w, command),
        w.len() >= 2,
        w[0] == command,
    ensures
        levels_shown_fit(venue, instrument_number(w[1]), depth),
{
    let id = instrument_number(w[1]);
    if id is Some && depth is Some && venue.lists(id->0 as u32) {
        model::lemma_visible_fit(venue.book(id->0 as u32).bids, depth->0);
        model::lemma_visible_fit(venue.book(id->0 as u32).asks, depth->0);
    }
}

/// Whether a line, if it is `command` and then an instrument, names a book of which all levels can
/// be shown.
pub fn can_show(line: &str, command: &str, venue: &Venue) -> (result: bool)
    requires
        venue.wf(),
    ensures
        result == named_book_fits(venue@, text::words(line@), command@),
        result && command@ == "book"@ ==> line_fits(venue@, text::words(line@)),
{
    let w = text::split_words(line);
    let ghost words = text::texts(w@);
    let mut fits: bool = true;
    if w.len() >= 2 {
        assert(words[0] == w@[0]@ && words[1] == w@[1]@);
        if text::same(w[0].as_str(), command) {
            if let Some(id) = parse_instrument(w[1].as_str()) {
                fits = venue.levels_fit(id);
            }
        }
    }
    proof {
        if fits && words.len() >= 2 && words[0] == command@ {
            lemma_named_book_fits(
                venue@,
                words,
                command@,
                depth_or_default(venue@.config, if words.len() == 3 { Some(words[2]) } else { None }),
            );
        }
    }
    fits
}

/// On a ready venue every book can be shown.
pub proof fn lemma_ready_books_fit(venue: VenueView, w: Seq<Seq<char>>)
    requires
        venue.ready(),
    ensures
        book_fits(venue, w),
{
    if 2 <= w.len() <= 3 {
        lemma_ready_shows(
            venue,
            instrument_number(w[1]),
            depth_or_default(venue.config, if w.len() == 3 { Some(w[2]) } else { None }),
        );
    }
}

/// Answers `book <instrument_id> [depth]`.
pub fn book(w: &Vec<String>, venue: &Venue) -> (line: String)
    requires
        venue.wf(),
        book_fits(venue@, text::texts(w@)),
    ensures
        line@ == book_answer(venue@, text::texts(w@)),
{
    let ghost words = text::texts(w@);
    if w.len() < 2 || w.len() > 3 {
        return "error usage book <instrument_id> [depth]".to_owned();
    }
    assert(words[0] == w@[0]@ && words[1] == w@[1]@);
    let instrument_id: InstrumentId = match parse_instrument(w[1].as_str()) {
        Some(id) => id,
        None => {
            return "error invalid-instrument-id".to_owned();
        },
    };
    let depth: usize = if w.len() == 3 {
        assert(words[2] == w@[2]@);
        match parse_depth(w[2].as_str()) {
            Some(depth) => depth,
            None => {
                return "error invalid-depth".to_owned();
            },
        }
    } else {
        venue.config().default_snapshot_depth
    };
    match venue.snapshot(instrument_id, depth) {
        Ok(snapshot) => {
            let mut line = "ok book ".to_owned();
            line.append(snapshot_text(&snapshot).as_str());
            line
        },
        Err(_) => "error unknown-instrument".to_owned(),
    }
}

/// The answer to `account <account_id> <asset>`.
pub open spec fn account_answer(venue: VenueView, w: Seq<Seq<char>>) -> Seq<char> {
    let account = number(w[1]);
    if w.len() != 3 {
        "error usage account <account_id> <asset>"@
    } else if account is None {
        "error invalid-account-id"@
    } else {
        "ok account account="@ + text::dec(account->0) + " asset="@ + w[2] + " available="@ + text::dec(
            venue.ledger.available(account->0 as u64, w[2]),
        ) + " reserved="@ + text::dec(venue.ledger.reserved(account->0 as u64, w[2]))
    }
}

/// Answers `account <account_id> <asset>`.
pub fn account(w: &Vec<String>, venue: &Venue) -> (line: String)
    requires
        venue.wf(),
    ensures
        line@ == account_answer(venue@, text::texts(w@)),
{
    let ghost words = text::texts(w@);
    if w.len() != 3 {
        return "error usage account <account_id> <asset>".to_owned();
    }
    assert(words[1] == w@[1]@ && words[2] == w@[2]@);
    let account_id: AccountId = match parse_number(w[1].as_str()) {
        Some(id) => id,
        None => {
            return "error invalid-account-id".to_owned();
        },
    };
    let asset = w[2].as_str();
    let mut line = "ok account account=".to_owned();
    text::append_decimal(&mut line, account_id as u128);
    line.append(" asset=");
    line.append(asset);
    line.append(" available=");
    text::append_decimal(&mut line, venue.balance(account_id, asset));
    line.append(" reserved=");
    text::append_decimal(&mut line, venue.reserved(account_id, asset));
    line
}

/// The answer to `revenue <asset>`.
pub open spec fn revenue_answer(venue: VenueView, w: Seq<Seq<char>>) -> Seq<char> {
    if w.len() != 2 {
        "error usage revenue <asset>"@
    } else {
        "ok revenue asset="@ + w[1] + " amount="@ + text::dec(venue.ledger.revenue(w[1]))
    }
}

/// Answers `revenue <asset>`.
pub fn revenue(w: &Vec<String>, venue: &Venue) -> (line: String)
    requires
        venue.wf(),
    ensures
        line@ == revenue_answer(venue@, text::texts(w@)),
{
    let ghost words = text::texts(w@);
    if w.len() != 2 {
        return "error usage revenue <asset>".to_owned();
    }
    assert(words[1] == w@[1]@);
    let asset = w[1].as_str();
    let mut line = "ok revenue asset=".to_owned();
    line.append(asset);
    line.append(" amount=");
    text::append_decimal(&mut line, venue.revenue(asset));
    line
}

/// What `cancel <instrument_id> <order_id>` asks for.
pub open spec fn cancel_request(w: Seq<Seq<char>>) -> RequestView {
    let id = instrument_number(w[1]);
    let order_id = number(w[2]);
    if w.len() != 3 {
        RequestView::Respond { line: "error usage cancel <instrument_id> <order_id>"@ }
    } else if id is None {
        RequestView::Respond { line: "error invalid-instrument-id"@ }
    } else if order_id is None {
        RequestView::Respond { line: "error invalid-order-id"@ }
    } else {
        RequestView::Run {
            instrument_id: id->0 as u32,
            command: Command::Cancel { order_id: order_id->0 as u64 },
        }
    }
}

/// Reads `cancel <instrument_id> <order_id>`.
pub fn cancel(w: &Vec<String>) -> (request: Request)
    ensures
        request@ == cancel_request(text::texts(w@)),
{
    let ghost words = text::texts(w@);
    if w.len() != 3 {
        return respond("error usage cancel <instrument_id> <order_id>");
    }
    assert(words[1] == w@[1]@ && words[2] == w@[2]@);
    let instrument_id: InstrumentId = match parse_instrument(w[1].as_str()) {
        Some(id) => id,
        None => {
            return respond("error invalid-instrument-id");
        },
    };
    let order_id: OrderId = match parse_number(w[2].as_str()) {
        Some(id) => id,
        None => {
            return respond("error invalid-order-id");
        },
    };
    Request::Run { instrument_id, command: Command::Cancel { order_id } }
}

/// What the words of an order say: side, price and quantity.
pub struct Terms {
    pub side: Side,
    pub price: u64,
    pub quantity: u64,
}

/// The terms that three words name, or the error that they are answered with.
pub open spec fn terms_named(side: Seq<char>, price: Seq<char>, quantity: Seq<char>) -> Result<Terms, Seq<char>> {
    if events::side_named(side) is None {
        Err("error invalid-side"@)
    } else if number(price) is None {
        Err("error invalid-price"@)
    } else if number(quantity) is None {
        Err("error invalid-quantity"@)
    } else {
        Ok(
            Terms {
                side: events::side_named(side)->0,
                price: number(price)->0 as u64,
                quantity: number(quantity)->0 as u64,
            },
        )
    }
}

/// Reads side, price and quantity.
pub fn parse_terms(side: &str, price: &str, quantity: &str) -> (result: Result<Terms, &'static str>)
    ensures
        match result {
            Ok(terms) => terms_named(side@, price@, quantity@) == Ok::<Terms, Seq<char>>(terms),
            Err(line) => terms_named(side@, price@, quantity@) == Err::<Terms, Seq<char>>(line@),
        },
{
    let side: Side = match events::parse_side(side) {
        Some(side) => side,
        None => {
            return Err("error invalid-side");
        },
    };
    let price: u64 = match parse_number(price) {
        Some(price) => price,
        None => {
            return Err("error invalid-price");
        },
    };
    let quantity: u64 = match parse_number(quantity) {
        Some(quantity) => quantity,
        None => {
            return Err("error invalid-quantity");
        },
    };
    Ok(Terms { side, price, quantity })
}

/// The order that an account places on these terms.
pub open spec fn order_on(order_id: nat, account_id: AccountId, terms: Terms) -> NewOrder {
    NewOrder {
        order_id: order_id as u64,
        account_id,
        side: terms.side,
        price: Price(terms.price),
        quantity: terms.quantity,
    }
}

} // verus!
