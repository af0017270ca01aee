//! How sessions and feeds answer, told by how the line gateway answers and by what the log holds.
use vstd::prelude::*;

use crate::answer_laws;
use crate::events;
use crate::feed_laws;
use crate::feed_log;
use crate::feed_log::{EntryView, LogView};
use crate::market_data;
use crate::market_data::{FeedState, FeedStepView, FeedSubscriber};
use crate::model;
use crate::order_entry;
use crate::order_entry::OrderReply;
use crate::protocol;
use crate::protocol::RequestView;
use crate::request_laws;
use crate::runtime;
use crate::runtime::{Command, RuntimeCommandResult, RuntimeError, RuntimeView};
use crate::sessions;
use crate::sessions::{Incoming, KeyView, SessionStep};
use crate::text;
use crate::types::{AccountId, BookEvent, InstrumentId, RejectReason};
use crate::venue::VenueError;
use crate::venue_model::VenueView;

verus! {

/// An order of a session is the order that the line gateway reads when the line also names the
/// session's account; it is answered in the same way where a word is wrong.
pub proof fn law_session_order_is_for_its_account(
    venue: VenueView,
    keys: Seq<KeyView>,
    account: AccountId,
    w: Seq<Seq<char>>,
)
    requires
        w.len() > 0,
        w[0] == "order"@,
    ensures
        ({
            let asked = sessions::session_request(venue, keys, Some(account), w);
            &&& asked.account == Some(account)
            &&& w.len() == 6 ==> asked.request == order_entry::request_of(
                venue,
                seq![w[0], w[1], w[2], text::dec(account as nat), w[3], w[4], w[5]],
            )
            &&& w.len() != 6 ==> asked.request == (RequestView::Respond {
                line: "error usage order <instrument_id> <order_id> <buy|sell> <price> <quantity>"@,
            })
        }),
{
    request_laws::lemma_command_words();
    text::law_decimal_reads_back(account as nat, 0xffff_ffff_ffff_ffff);
}

/// What needs no account in its words a session answers, or runs, as the line gateway does; a
/// cancellation only for an account.
pub proof fn law_session_answers_as_the_line_gateway(
    venue: VenueView,
    keys: Seq<KeyView>,
    account: Option<AccountId>,
    w: Seq<Seq<char>>,
)
    requires
        w.len() > 0,
        w[0] == "book"@ || w[0] == "instruments"@ || w[0] == "revenue"@ || (w[0] == "cancel"@ && account is Some),
    ensures
        ({
            let asked = sessions::session_request(venue, keys, account, w);
            asked.account == account && asked.request == order_entry::request_of(venue, w)
        }),
{
    request_laws::lemma_command_words();
}

/// A session without an account runs nothing: orders and cancellations are refused.
pub proof fn law_session_without_account_is_refused(venue: VenueView, keys: Seq<KeyView>, w: Seq<Seq<char>>)
    requires
        w.len() > 0,
        w[0] == "order"@ || w[0] == "cancel"@,
    ensures
        ({
            let asked = sessions::session_request(venue, keys, None, w);
            asked.account is None && asked.request == (RequestView::Respond { line: "error auth-required"@ })
        }),
{
    request_laws::lemma_command_words();
}

/// What a session answers to a line without words, to `help`, and to a line that starts with no word
/// that it knows.
pub proof fn law_session_answers_other_lines(
    venue: VenueView,
    keys: Seq<KeyView>,
    account: Option<AccountId>,
    w: Seq<Seq<char>>,
)
    requires
        w.len() == 0 || (w[0] != "auth"@ && w[0] != "instruments"@ && w[0] != "book"@ && w[0] != "revenue"@ && w[0]
            != "order"@ && w[0] != "cancel"@),
    ensures
        ({
            let asked = sessions::session_request(venue, keys, account, w);
            &&& asked.account == account
            &&& asked.request == (RequestView::Respond {
                line: if w.len() == 0 {
                    "error empty-command"@
                } else if w[0] == "help"@ {
                    "ok help auth <api_key> | instruments | book <instrument_id> [depth] | order <instrument_id> <order_id> <buy|sell> <price> <quantity> | cancel <instrument_id> <order_id> | revenue <asset>"@
                } else {
                    "error unknown-command command="@ + w[0]
                },
            })
        }),
{
}

/// `auth <api_key>` makes the session act for the account of the first key that is the one given;
/// any other key leaves the session as it was.
pub proof fn law_key_authenticates_for_its_account(
    venue: VenueView,
    keys: Seq<KeyView>,
    account: Option<AccountId>,
    key: Seq<char>,
    i: int,
)
    requires
        0 <= i <= keys.len(),
        forall|j: int| 0 <= j < i ==> (#[trigger] keys[j]).key != key,
        i < keys.len() ==> keys[i].key == key,
    ensures
        ({
            let asked = sessions::session_request(venue, keys, account, seq!["auth"@, key]);
            &&& i < keys.len() ==> asked.account == Some(keys[i].account_id)
            &&& i < keys.len() ==> asked.request == (RequestView::Respond {
                line: "ok auth account="@ + text::dec(keys[i].account_id as nat),
            })
            &&& i == keys.len() ==> asked.account == account
            &&& i == keys.len() ==> asked.request == (RequestView::Respond { line: "error invalid-api-key"@ })
        }),
{
    lemma_account_of(keys, key, i);
}

proof fn lemma_account_of(keys: Seq<KeyView>, key: Seq<char>, i: int)
    requires
        0 <= i <= keys.len(),
        forall|j: int| 0 <= j < i ==> (#[trigger] keys[j]).key != key,
        i < keys.len() ==> keys[i].key == key,
    ensures
        sessions::account_of(keys, key) == (if i < keys.len() {
            Some(keys[i].account_id)
        } else {
            None
        }),
    decreases keys.len(),
{
    if i > 0 {
        assert(keys[0].key != key);
        let tail = keys.skip(1);
        assert forall|j: int| 0 <= j < i - 1 implies (#[trigger] tail[j]).key != key by {
            assert(keys[j + 1].key != key);
        }
        lemma_account_of(tail, key, i - 1);
    }
}

/// `auth` with any other number of words is answered with its usage.
pub proof fn law_auth_takes_one_key(
    venue: VenueView,
    keys: Seq<KeyView>,
    account: Option<AccountId>,
    w: Seq<Seq<char>>,
)
    requires
        w.len() > 0,
        w[0] == "auth"@,
        w.len() != 2,
    ensures
        ({
            let asked = sessions::session_request(venue, keys, account, w);
            asked.account == account && asked.request == (RequestView::Respond {
                line: "error usage auth <api_key>"@,
            })
        }),
{
}

/// A line `<key> <account> ...` of a key file issues the key for the account; a line with fewer words
/// or without a number in the second place issues nothing; the lines before it count as they did.
pub proof fn law_key_file_is_read_line_by_line(lines: Seq<Seq<char>>, words: Seq<Seq<char>>)
    requires
        forall|i: int| 0 <= i < words.len() ==> request_laws::is_word(#[trigger] words[i]),
    ensures
        ({
            let account = text::parsed(words[1], 0xffff_ffff_ffff_ffff);
            let more = sessions::keys_named(lines.push(request_laws::spaced(words)));
            more == sessions::keys_named(lines) + (if words.len() >= 2 && account is Some {
                seq![KeyView { key: words[0], account_id: account->0 as u64 }]
            } else {
                seq![]
            })
        }),
        sessions::keys_named(seq![]) == Seq::<KeyView>::empty(),
{
    request_laws::law_spaced_words_read_back(words);
    let line = request_laws::spaced(words);
    assert(lines.push(line).drop_last() =~= lines);
    let before = sessions::keys_named(lines);
    let none = Seq::<KeyView>::empty();
    assert(before + none =~= before);
    if words.len() >= 2 && text::parsed(words[1], 0xffff_ffff_ffff_ffff) is Some {
        let key = KeyView {
            key: words[0],
            account_id: text::parsed(words[1], 0xffff_ffff_ffff_ffff)->0 as u64,
        };
        assert(before.push(key) =~= before + seq![key]);
    }
}

/// What the outcome of a command is answered: with all its events, or with what went wrong.
pub proof fn law_outcome_is_answered(outcome: Result<RuntimeCommandResult, RuntimeError>)
    ensures
        match outcome {
            Ok(done) => sessions::outcome_text(outcome) == order_entry::events_answer(done.book_events@),
            Err(RuntimeError::Venue(_)) => sessions::outcome_text(outcome) == "error unknown-instrument"@,
            Err(RuntimeError::FeedLog(_)) => sessions::outcome_text(outcome) == "error feed-log-unavailable"@,
        },
{
}

/// Every reason is named as it is.
pub proof fn law_reasons_have_their_names()
    ensures
        events::reason_text(RejectReason::DuplicateOrderId) == "DuplicateOrderId"@,
        events::reason_text(RejectReason::UnknownOrderId) == "UnknownOrderId"@,
        events::reason_text(RejectReason::ZeroQuantity) == "ZeroQuantity"@,
        events::reason_text(RejectReason::InvalidPriceTick) == "InvalidPriceTick"@,
        events::reason_text(RejectReason::InvalidQuantityStep) == "InvalidQuantityStep"@,
        events::reason_text(RejectReason::BelowMinNotional) == "BelowMinNotional"@,
        events::reason_text(RejectReason::InsufficientBalance) == "InsufficientBalance"@,
{
}

/// Whether a step of a feed starts the stream of an instrument: the depth that the client gets, then
/// the book to that depth, and from there on the events of this instrument.
pub open spec fn starts_stream(step: FeedStepView, venue: VenueView, id: nat, depth: nat) -> bool {
    &&& step.lines.len() == 2
    &&& step.lines[0] == "ok subscribed instrument="@ + text::dec(id) + " depth="@ + text::dec(depth)
    &&& exists|shown: Seq<char>|
        #![trigger answer_laws::shows_book(shown, venue.books[id as int], depth)]
        answer_laws::shows_book(shown, venue.books[id as int], depth) && step.lines[1]
            == "snapshot instrument="@ + text::dec(id) + " "@ + shown
    &&& step.state == (FeedState::Streaming { instrument_id: id as u32 })
}

/// `subscribe <instrument_id> [depth]` starts the stream of the instrument, or names what is wrong
/// and ends the connection.
pub proof fn law_subscription_starts_the_stream(venue: VenueView, w: Seq<Seq<char>>)
    requires
        venue.valid(),
        answer_laws::can_be_shown(venue, w),
        w.len() == 2 || w.len() == 3,
        w[0] == "subscribe"@,
    ensures
        ({
            let id = text::parsed(w[1], 0xffff_ffff);
            let depth = answer_laws::depth_asked(venue.config, w);
            let step = market_data::feed_answer(venue, w);
            let ends = |line: Seq<char>|
                step == (FeedStepView { lines: seq![line], state: FeedState::Closed });
            if id is None {
                ends("error invalid-instrument-id"@)
            } else if depth is None {
                ends("error invalid-depth"@)
            } else if id->0 >= venue.books.len() {
                ends("error unknown-instrument"@)
            } else {
                starts_stream(step, venue, id->0, depth->0)
            }
        }),
{
    let id = text::parsed(w[1], 0xffff_ffff);
    let depth = answer_laws::depth_asked(venue.config, w);
    if id is Some && depth is Some && id->0 < venue.books.len() {
        let book = venue.books[id->0 as int];
        assert(book.valid());
        answer_laws::lemma_shows_book(book, depth->0);
        assert(answer_laws::shows_book(protocol::book_text(book, depth->0), book, depth->0));
    }
}

/// Every other line on the market-data gateway is answered with one line, and the connection stays
/// open.
pub proof fn law_feed_answers_other_lines(venue: VenueView, w: Seq<Seq<char>>)
    requires
        !((w.len() == 2 || w.len() == 3) && w[0] == "subscribe"@),
    ensures
        market_data::feed_answer(venue, w) == (FeedStepView {
            lines: seq![
                if w.len() == 1 && w[0] == "help"@ {
                    "ok help subscribe <instrument_id> [depth]"@
                } else {
                    "error usage subscribe <instrument_id> [depth]"@
                },
            ],
            state: FeedState::Open,
        }),
{
}

/// A feed session answers a subscription as the market-data gateway does.
pub proof fn law_session_subscribes_as_the_gateway(exchange: RuntimeView, w: Seq<Seq<char>>)
    requires
        w.len() == 2 || w.len() == 3,
        w[0] == "subscribe"@,
    ensures
        sessions::feed_answer(exchange, w) == market_data::feed_answer(exchange.venue, w),
{
    reveal_strlit("subscribe");
    reveal_strlit("replay");
    assert("subscribe"@.len() != "replay"@.len());
}

/// `replay <instrument_id> <after_seq>` gives the number of events after the sequence number and then
/// the message of each; or names what is wrong. The connection stays open.
pub proof fn law_replay_answers_with_the_log(exchange: RuntimeView, w: Seq<Seq<char>>)
    requires
        w.len() == 3,
        w[0] == "replay"@,
    ensures
        ({
            let id = text::parsed(w[1], 0xffff_ffff);
            let after = text::parsed(w[2], 0xffff_ffff_ffff_ffff);
            let step = sessions::feed_answer(exchange, w);
            &&& step.state == FeedState::Open
            &&& if id is None {
                step.lines == seq!["error invalid-instrument-id"@]
            } else if after is None {
                step.lines == seq!["error invalid-seq"@]
            } else if id->0 >= exchange.venue.books.len() {
                step.lines == seq!["error unknown-instrument"@]
            } else {
                let entries = feed_log::entries_after(exchange.log, id->0 as u32, after->0 as u64);
                &&& step.lines.len() == 1 + entries.len()
                &&& step.lines[0] == "ok replay instrument="@ + text::dec(id->0) + " after_seq="@ + text::dec(
                    after->0,
                ) + " events="@ + text::dec(entries.len())
                &&& forall|i: int|
                    0 <= i < entries.len() ==> #[trigger] step.lines[1 + i] == entries[i].message
            }
        }),
{
    reveal_strlit("subscribe");
    reveal_strlit("replay");
    assert("subscribe"@.len() != "replay"@.len());
}

/// Every other line of a feed session.
pub proof fn law_feed_session_answers_other_lines(exchange: RuntimeView, w: Seq<Seq<char>>)
    requires
        !((w.len() == 2 || w.len() == 3) && w[0] == "subscribe"@),
        !(w.len() == 3 && w[0] == "replay"@),
    ensures
        sessions::feed_answer(exchange, w) == (FeedStepView {
            lines: seq![
                if w.len() == 1 && w[0] == "help"@ {
                    "ok help subscribe <instrument_id> [depth] | replay <instrument_id> <after_seq>"@
                } else {
                    "error usage subscribe <instrument_id> [depth] | replay <instrument_id> <after_seq>"@
                },
            ],
            state: FeedState::Open,
        }),
{
}

/// A replay gives the entries of the instrument that are later than the sequence number, all of them
/// and in their order: it goes through the log entry by entry.
pub proof fn law_replay_gives_the_later_entries(
    log: LogView,
    id: InstrumentId,
    entries: Seq<EntryView>,
    entry: EntryView,
    after: u64,
)
    ensures
        feed_log::entries_after(log.insert(id, seq![]), id, after) == Seq::<EntryView>::empty(),
        feed_log::entries_after(log.insert(id, entries.push(entry)), id, after) == feed_log::entries_after(
            log.insert(id, entries),
            id,
            after,
        ) + (if entry.seq > after {
            seq![entry]
        } else {
            seq![]
        }),
{
    assert(entries.push(entry).drop_last() =~= entries);
    let before = feed_log::entries_after(log.insert(id, entries), id, after);
    assert(before + Seq::<EntryView>::empty() =~= before);
    assert(before.push(entry) =~= before + seq![entry]);
}

/// The entries of events are one for each execution, each order that rests and each cancellation,
/// with the number of the event and a message that tells the instrument and the event.
pub proof fn law_entries_tell_the_public_events(id: InstrumentId, list: Seq<BookEvent>, event: BookEvent)
    ensures
        feed_log::entries_of(id, seq![]) == Seq::<EntryView>::empty(),
        feed_log::entries_of(id, list.push(event)) == feed_log::entries_of(id, list) + (match event {
            BookEvent::Accepted { .. } => seq![],
            BookEvent::Rejected { .. } => seq![],
            BookEvent::Executed { seq, .. } => seq![told(id, seq, event)],
            BookEvent::Rested { seq, .. } => seq![told(id, seq, event)],
            BookEvent::Canceled { seq, .. } => seq![told(id, seq, event)],
        }),
{
    assert(list.push(event).drop_last() =~= list);
    let before = feed_log::entries_of(id, list);
    let after = feed_log::entries_of(id, list.push(event));
    assert(feed_log::entries_of(id, seq![]) =~= Seq::<EntryView>::empty());
    if event is Accepted || event is Rejected {
        assert(after =~= before + Seq::<EntryView>::empty());
    } else {
        assert(after =~= before + seq![told(id, event.number(), event)]);
    }
}

/// The entry that tells of an event.
pub open spec fn told(id: InstrumentId, seq: u64, event: BookEvent) -> EntryView {
    EntryView {
        instrument_id: id,
        seq,
        message: "event instrument="@ + text::dec(id as nat) + " "@ + events::event_text(event),
    }
}

/// Subscribers hear the messages that the log keeps.
pub proof fn law_subscribers_hear_what_is_logged(id: InstrumentId, list: Seq<BookEvent>)
    ensures
        market_data::messages_of(id, list).len() == feed_log::entries_of(id, list).len(),
        forall|i: int|
            0 <= i < feed_log::entries_of(id, list).len() ==> #[trigger] market_data::messages_of(id, list)[i]
                == feed_log::entries_of(id, list)[i].message,
{
}

/// What is published for an instrument goes to each subscriber of this instrument, in the order in
/// which they came, and to nobody else.
pub proof fn law_followers_are_those_of_the_instrument(
    subscribers: Seq<FeedSubscriber>,
    subscriber: FeedSubscriber,
    id: InstrumentId,
)
    ensures
        market_data::tokens(model::those(seq![], market_data::follows(id))) == Seq::<u64>::empty(),
        market_data::tokens(model::those(subscribers.push(subscriber), market_data::follows(id)))
            == market_data::tokens(model::those(subscribers, market_data::follows(id))) + (
        if subscriber.instrument_id == id {
            seq![subscriber.token]
        } else {
            seq![]
        }),
{
    assert(subscribers.push(subscriber).drop_last() =~= subscribers);
    let kept = model::those(subscribers, market_data::follows(id));
    let before = market_data::tokens(kept);
    assert(market_data::tokens(model::those(seq![], market_data::follows(id))) =~= Seq::<u64>::empty());
    assert(before + Seq::<u64>::empty() =~= before);
    assert(market_data::tokens(kept.push(subscriber)) =~= before + seq![subscriber.token]);
}

/// The subscribers that stay are those whose tokens are not among the failed ones, in their order.
pub proof fn law_only_failed_subscribers_go(
    subscribers: Seq<FeedSubscriber>,
    subscriber: FeedSubscriber,
    failed: Seq<u64>,
)
    ensures
        model::those(seq![], market_data::not_among(failed)) == Seq::<FeedSubscriber>::empty(),
        model::those(subscribers.push(subscriber), market_data::not_among(failed)) == model::those(
            subscribers,
            market_data::not_among(failed),
        ) + (if failed.contains(subscriber.token) {
            seq![]
        } else {
            seq![subscriber]
        }),
{
    assert(subscribers.push(subscriber).drop_last() =~= subscribers);
    let kept = model::those(subscribers, market_data::not_among(failed));
    assert(kept + Seq::<FeedSubscriber>::empty() =~= kept);
    assert(kept.push(subscriber) =~= kept + seq![subscriber]);
}

/// A line that the gateway served was answered: what asks for an answer only, with that answer and
/// without changing anything; a command on a listed instrument, with its events; a command on any
/// other instrument, with an error and without changing anything.
pub proof fn law_served_line_was_answered(
    before: VenueView,
    w: Seq<Seq<char>>,
    reply: OrderReply,
    after: VenueView,
    id: InstrumentId,
    command: Command,
)
    requires
        order_entry::served(before, w, reply, after),
    ensures
        order_entry::request_of(before, w) matches RequestView::Respond { line } ==> reply.response@ == line
            && reply.events@.len() == 0 && after == before,
        order_entry::request_of(before, w) == (RequestView::Run { instrument_id: id, command }) && id
            < before.books.len() ==> {
            &&& reply.events@ == runtime::command_events(before, id, command)
            &&& reply.response@ == order_entry::events_answer(reply.events@)
            &&& reply.instrument_id == id
            &&& after == runtime::after_command(before, id, command)
        },
        order_entry::request_of(before, w) == (RequestView::Run { instrument_id: id, command }) && id
            >= before.books.len() ==> {
            &&& reply.response@ == "error unknown-instrument"@
            &&& reply.events@.len() == 0
            &&& after == before
        },
{
}

/// A session does what a request asks for: it replies with the answer, or runs the command.
pub proof fn law_session_does_what_is_asked(step: SessionStep, line: Seq<char>, id: InstrumentId, command: Command)
    ensures
        sessions::does(step, RequestView::Respond { line }) <==> (step is Reply && step->line@ == line),
        sessions::does(step, RequestView::Run { instrument_id: id, command }) <==> step == (SessionStep::Run {
            instrument_id: id,
            command,
        }),
{
}

/// A feed session ends when it is closed, takes only text, and answers text line by line.
pub proof fn law_feed_session_takes_text(exchange: RuntimeView, line: String)
    ensures
        sessions::feed_step_of(exchange, Incoming::Close) == (FeedStepView {
            lines: seq![],
            state: FeedState::Closed,
        }),
        sessions::feed_step_of(exchange, Incoming::Other) == (FeedStepView {
            lines: seq!["error text-messages-only"@],
            state: FeedState::Open,
        }),
        sessions::feed_step_of(exchange, Incoming::Text { line }) == sessions::feed_answer(
            exchange,
            text::words(line@),
        ),
{
}

/// A venue lists as many instruments as it has books, numbered from zero.
pub proof fn law_instruments_are_numbered_from_zero(venue: VenueView, id: InstrumentId)
    ensures
        venue.lists(id) <==> id < venue.books.len(),
        venue.lists(id) ==> venue.book(id) == venue.books[id as int],
        venue.lists(id) ==> venue.instrument(id) == venue.config.instruments[id as int],
{
}

/// A command that the exchange carried out was carried out on its venue, and its public events stand
/// behind the earlier ones of the instrument in the log; on an instrument that is not listed nothing
/// happens.
pub proof fn law_exchange_logs_what_it_carries_out(
    before: RuntimeView,
    id: InstrumentId,
    command: Command,
    result: Result<RuntimeCommandResult, RuntimeError>,
    after: RuntimeView,
    other: InstrumentId,
)
    requires
        runtime::command_done(before, id, command, result, after),
    ensures
        result is Ok <==> id < before.venue.books.len(),
        result matches Ok(done) ==> {
            let list = runtime::command_events(before.venue, id, command);
            &&& done.book_events@ == list
            &&& feed_log::entry_views(done.feed_entries@) == feed_log::entries_of(id, list)
            &&& after.venue == runtime::after_command(before.venue, id, command)
            &&& after.log[id] == before.log[id] + feed_log::entries_of(id, list)
            &&& other != id ==> after.log[other] == before.log[other]
        },
        result matches Err(error) ==> after == before && error == RuntimeError::Venue(
            VenueError::UnknownInstrument,
        ),
{
    feed_laws::law_recorded_events_come_last(
        before.log,
        id,
        runtime::command_events(before.venue, id, command),
    );
}

/// A line is safe to serve but where the book that it asks for has a level whose total does not fit
/// a `Quantity`, or the book that its command goes to has fewer sequence numbers left than an order
/// can take.
pub proof fn law_line_is_safe_to_serve(venue: VenueView, w: Seq<Seq<char>>, id: InstrumentId, command: Command)
    requires
        id < venue.books.len(),
    ensures
        ({
            let book = venue.books[id as int];
            let fits = model::levels_fit(book.bids) && model::levels_fit(book.asks);
            &&& w.len() >= 2 && w[0] == "book"@ && text::parsed(w[1], 0xffff_ffff) == Some(id as nat)
                ==> order_entry::safe_to_serve(venue, w) == fits
            &&& w.len() >= 2 && w[0] == "subscribe"@ && text::parsed(w[1], 0xffff_ffff) == Some(id as nat)
                ==> protocol::named_book_fits(venue, w, "subscribe"@) == fits
            &&& order_entry::request_of(venue, w) == (RequestView::Run { instrument_id: id, command })
                ==> order_entry::safe_to_serve(venue, w) == (book.seq + book.bids.len() + book.asks.len() + 3
                <= 0xffff_ffff_ffff_ffff)
        }),
        w.len() < 2 || text::parsed(w[1], 0xffff_ffff) is None || text::parsed(w[1], 0xffff_ffff)->0
            >= venue.books.len() ==> protocol::named_book_fits(venue, w, "subscribe"@)
            && protocol::named_book_fits(venue, w, "book"@),
{
}

} // verus!
