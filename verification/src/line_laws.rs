//! Every answer of the gateways is a single line.
use vstd::prelude::*;

use crate::events;
use crate::feed_laws;
use crate::feed_log;
use crate::feed_log::EntryView;
use crate::instrument::ConfigView;
use crate::market_data;
use crate::model;
use crate::model::BookView;
use crate::order_entry;
use crate::order_entry::OrderReply;
use crate::protocol;
use crate::protocol::RequestView;
use crate::runtime::{RuntimeCommandResult, RuntimeError, RuntimeView};
use crate::sessions;
use crate::sessions::KeyView;
use crate::text;
use crate::types::{AccountId, BookEvent, InstrumentId, Level};
use crate::venue_model::VenueView;

verus! {

/// No name in the configuration of a venue has a line break in it.
pub open spec fn plain_names(config: ConfigView) -> bool {
    &&& text::unbroken(config.name)
    &&& forall|i: int|
        0 <= i < config.instruments.len() ==> text::unbroken((#[trigger] config.instruments[i]).base)
            && text::unbroken(config.instruments[i].quote)
}

/// Texts without line breaks put together have none, and numbers have none.
proof fn lemma_parts()
    ensures
        forall|a: Seq<char>, b: Seq<char>|
            text::unbroken(a) && text::unbroken(b) ==> #[trigger] text::unbroken(a + b),
        forall|n: nat| text::unbroken(#[trigger] text::dec(n)),
{
    assert forall|a: Seq<char>, b: Seq<char>| text::unbroken(a) && text::unbroken(b) implies
        #[trigger] text::unbroken(a + b) by {
        text::lemma_unbroken_concat(a, b);
    }
    assert forall|n: nat| text::unbroken(#[trigger] text::dec(n)) by {
        text::lemma_unbroken_dec(n);
    }
}

/// The words of any text have no line break in them.
proof fn lemma_words_unbroken(s: Seq<char>)
    ensures
        forall|i: int| 0 <= i < text::words(s).len() ==> text::unbroken(#[trigger] text::words(s)[i]),
    decreases s.len(),
{
    if s.len() > 0 {
        if text::is_white(s[0]) {
            lemma_words_unbroken(s.skip(1));
            assert(text::words(s) == text::words(s.skip(1)));
        } else {
            text::lemma_word_len(s);
            let n = text::word_len(s) as int;
            lemma_words_unbroken(s.skip(n));
            assert(text::unbroken(s.take(n)));
            let rest = text::words(s.skip(n));
            assert forall|i: int| 0 <= i < text::words(s).len() implies text::unbroken(
                #[trigger] text::words(s)[i],
            ) by {
                if i > 0 {
                    assert(text::words(s)[i] == rest[i - 1]);
                }
            }
        }
    }
}

proof fn lemma_joined_unbroken(parts: Seq<Seq<char>>, separator: Seq<char>)
    requires
        text::unbroken(separator),
        forall|i: int| 0 <= i < parts.len() ==> text::unbroken(#[trigger] parts[i]),
    ensures
        text::unbroken(text::joined(parts, separator)),
    decreases parts.len(),
{
    if parts.len() > 1 {
        lemma_joined_unbroken(parts.drop_last(), separator);
        lemma_parts();
    }
}

proof fn lemma_instruments_unbroken(config: ConfigView)
    requires
        plain_names(config),
    ensures
        text::unbroken(protocol::instruments_text(config)),
{
    lemma_parts();
    reveal_strlit("ok instruments venue=");
    reveal_strlit(" ");
    reveal_strlit(":");
    reveal_strlit("/");
    reveal_strlit(",");
    let parts = Seq::new(
        config.instruments.len(),
        |i: int| protocol::listing_text(config.instruments[i]),
    );
    assert forall|i: int| 0 <= i < parts.len() implies text::unbroken(#[trigger] parts[i]) by {
        assert(text::unbroken(config.instruments[i].base));
        assert(text::unbroken(config.instruments[i].base + "/"@));
        assert(text::unbroken(config.instruments[i].base + "/"@ + config.instruments[i].quote));
    }
    lemma_joined_unbroken(parts, ","@);
}

proof fn lemma_levels_unbroken(levels: Seq<Level>)
    ensures
        text::unbroken(events::levels_text(levels)),
{
    lemma_parts();
    reveal_strlit("-");
    reveal_strlit("@");
    reveal_strlit(",");
    let parts = Seq::new(levels.len(), |i: int| events::level_text(levels[i]));
    assert forall|i: int| 0 <= i < parts.len() implies text::unbroken(#[trigger] parts[i]) by {
        assert(parts[i] == text::dec(levels[i].quantity as nat) + "@"@ + text::dec(levels[i].price.0 as nat));
    }
    lemma_joined_unbroken(parts, ","@);
}

proof fn lemma_book_text_unbroken(book: BookView, depth: nat)
    ensures
        text::unbroken(protocol::book_text(book, depth)),
{
    lemma_parts();
    reveal_strlit("seq=");
    reveal_strlit(" checksum=");
    reveal_strlit(" bids=");
    reveal_strlit(" asks=");
    lemma_levels_unbroken(model::shown_levels(book.bids, depth));
    lemma_levels_unbroken(model::shown_levels(book.asks, depth));
}

proof fn lemma_events_answer_unbroken(list: Seq<BookEvent>)
    ensures
        text::unbroken(order_entry::events_answer(list)),
{
    lemma_parts();
    reveal_strlit("ok events ");
    reveal_strlit("|");
    let parts = Seq::new(list.len(), |i: int| events::event_text(list[i]));
    assert forall|i: int| 0 <= i < parts.len() implies text::unbroken(#[trigger] parts[i]) by {
        feed_laws::lemma_event_unbroken(list[i]);
    }
    lemma_joined_unbroken(parts, "|"@);
}

proof fn lemma_common_errors_unbroken()
    ensures
        text::unbroken("error empty-command"@),
        text::unbroken("error invalid-instrument-id"@),
        text::unbroken("error invalid-order-id"@),
        text::unbroken("error invalid-account-id"@),
        text::unbroken("error unknown-instrument"@),
        text::unbroken("error unknown-command command="@),
        text::unbroken("error invalid-depth"@),
{
    reveal_strlit("error empty-command");
    reveal_strlit("error invalid-instrument-id");
    reveal_strlit("error invalid-order-id");
    reveal_strlit("error invalid-account-id");
    reveal_strlit("error unknown-instrument");
    reveal_strlit("error unknown-command command=");
    reveal_strlit("error invalid-depth");
}

proof fn lemma_terms_unbroken(side: Seq<char>, price: Seq<char>, quantity: Seq<char>)
    ensures
        protocol::terms_named(side, price, quantity) matches Err(line) ==> text::unbroken(line),
{
    reveal_strlit("error invalid-side");
    reveal_strlit("error invalid-price");
    reveal_strlit("error invalid-quantity");
}

proof fn lemma_book_answer_unbroken(venue: VenueView, w: Seq<Seq<char>>)
    ensures
        text::unbroken(protocol::book_answer(venue, w)),
{
    lemma_parts();
    lemma_common_errors_unbroken();
    reveal_strlit("error usage book <instrument_id> [depth]");
    reveal_strlit("ok book ");
    let id = protocol::instrument_number(w[1]);
    let depth = protocol::depth_or_default(venue.config, if w.len() == 3 { Some(w[2]) } else { None });
    lemma_book_text_unbroken(venue.book(id->0 as u32), depth->0);
}

proof fn lemma_account_answer_unbroken(venue: VenueView, w: Seq<Seq<char>>)
    requires
        forall|i: int| 0 <= i < w.len() ==> text::unbroken(#[trigger] w[i]),
    ensures
        text::unbroken(protocol::account_answer(venue, w)),
{
    lemma_parts();
    lemma_common_errors_unbroken();
    reveal_strlit("error usage account <account_id> <asset>");
    reveal_strlit("ok account account=");
    reveal_strlit(" asset=");
    reveal_strlit(" available=");
    reveal_strlit(" reserved=");
}

proof fn lemma_revenue_answer_unbroken(venue: VenueView, w: Seq<Seq<char>>)
    requires
        forall|i: int| 0 <= i < w.len() ==> text::unbroken(#[trigger] w[i]),
    ensures
        text::unbroken(protocol::revenue_answer(venue, w)),
{
    lemma_parts();
    reveal_strlit("error usage revenue <asset>");
    reveal_strlit("ok revenue asset=");
    reveal_strlit(" amount=");
}

/// What a request answers has no line break in it.
spec fn answers_plainly(request: RequestView) -> bool {
    request matches RequestView::Respond { line } ==> text::unbroken(line)
}

proof fn lemma_order_request_unbroken(w: Seq<Seq<char>>)
    ensures
        answers_plainly(order_entry::order_request(w)),
{
    lemma_common_errors_unbroken();
    lemma_terms_unbroken(w[4], w[5], w[6]);
    reveal_strlit(
        "error usage order <instrument_id> <order_id> <account_id> <buy|sell> <price> <quantity>",
    );
}

proof fn lemma_replace_request_unbroken(w: Seq<Seq<char>>)
    ensures
        answers_plainly(order_entry::replace_request(w)),
{
    lemma_common_errors_unbroken();
    lemma_terms_unbroken(w[5], w[6], w[7]);
    reveal_strlit("error invalid-old-order-id");
    reveal_strlit("error invalid-new-order-id");
    reveal_strlit(
        "error usage replace <instrument_id> <old_order_id> <new_order_id> <account_id> <buy|sell> <price> <quantity>",
    );
}

proof fn lemma_cancel_request_unbroken(w: Seq<Seq<char>>)
    ensures
        answers_plainly(protocol::cancel_request(w)),
{
    lemma_common_errors_unbroken();
    reveal_strlit("error usage cancel <instrument_id> <order_id>");
}

proof fn lemma_help_unbroken()
    ensures
        text::unbroken(order_entry::help_text()),
{
    reveal_strlit(
        "ok help instruments | book <instrument_id> [depth] | order <instrument_id> <order_id> <account_id> <buy|sell> <price> <quantity> | replace <instrument_id> <old_order_id> <new_order_id> <account_id> <buy|sell> <price> <quantity> | cancel <instrument_id> <order_id> | account <account_id> <asset> | revenue <asset>",
    );
}

/// Every answer of the order-entry gateway is a single line, whatever the line was that it answers;
/// and so is the answer to a line that came too early.
pub proof fn law_order_answer_is_one_line(before: VenueView, line: Seq<char>, reply: OrderReply, after: VenueView)
    requires
        plain_names(before.config),
        order_entry::served(before, text::words(line), reply, after),
    ensures
        text::unbroken(reply.response@),
        text::unbroken("error rate-limit-exceeded"@),
{
    reveal_strlit("error rate-limit-exceeded");
    let w = text::words(line);
    lemma_words_unbroken(line);
    lemma_parts();
    lemma_common_errors_unbroken();
    lemma_help_unbroken();
    lemma_instruments_unbroken(before.config);
    lemma_book_answer_unbroken(before, w);
    lemma_account_answer_unbroken(before, w);
    lemma_revenue_answer_unbroken(before, w);
    lemma_order_request_unbroken(w);
    lemma_replace_request_unbroken(w);
    lemma_cancel_request_unbroken(w);
    lemma_events_answer_unbroken(reply.events@);
    assert(answers_plainly(order_entry::request_of(before, w)));
}

proof fn lemma_session_order_unbroken(account: AccountId, w: Seq<Seq<char>>)
    ensures
        answers_plainly(sessions::order_request(account, w)),
{
    lemma_common_errors_unbroken();
    lemma_terms_unbroken(w[3], w[4], w[5]);
    reveal_strlit("error usage order <instrument_id> <order_id> <buy|sell> <price> <quantity>");
}

proof fn lemma_session_help_unbroken()
    ensures
        text::unbroken(sessions::help_text()),
{
    reveal_strlit(
        "ok help auth <api_key> | instruments | book <instrument_id> [depth] | order <instrument_id> <order_id> <buy|sell> <price> <quantity> | cancel <instrument_id> <order_id> | revenue <asset>",
    );
}

/// Every answer of an order session is a single line: what it answers at once, and what it answers
/// to the outcome of a command.
pub proof fn law_session_answer_is_one_line(
    venue: VenueView,
    keys: Seq<KeyView>,
    account: Option<AccountId>,
    line: Seq<char>,
    outcome: Result<RuntimeCommandResult, RuntimeError>,
)
    requires
        plain_names(venue.config),
    ensures
        sessions::session_request(venue, keys, account, text::words(line)).request
            matches RequestView::Respond { line: answer } ==> text::unbroken(answer),
        text::unbroken(sessions::outcome_text(outcome)),
{
    let w = text::words(line);
    lemma_words_unbroken(line);
    lemma_parts();
    lemma_common_errors_unbroken();
    lemma_session_help_unbroken();
    lemma_instruments_unbroken(venue.config);
    lemma_book_answer_unbroken(venue, w);
    lemma_revenue_answer_unbroken(venue, w);
    if account is Some {
        lemma_session_order_unbroken(account->0, w);
    }
    lemma_cancel_request_unbroken(w);
    reveal_strlit("error auth-required");
    reveal_strlit("error usage auth <api_key>");
    reveal_strlit("ok auth account=");
    reveal_strlit("error invalid-api-key");
    reveal_strlit("error feed-log-unavailable");
    if outcome is Ok {
        lemma_events_answer_unbroken(outcome->Ok_0.book_events@);
    }
}

/// None of these texts has a line break in it.
pub open spec fn all_unbroken(lines: Seq<Seq<char>>) -> bool {
    forall|i: int| 0 <= i < lines.len() ==> text::unbroken(#[trigger] lines[i])
}

proof fn lemma_subscribed_unbroken(venue: VenueView, instrument: Seq<char>, depth: Option<Seq<char>>)
    ensures
        all_unbroken(market_data::subscribed(venue, instrument, depth).lines),
{
    lemma_parts();
    lemma_common_errors_unbroken();
    reveal_strlit("ok subscribed instrument=");
    reveal_strlit(" depth=");
    reveal_strlit("snapshot instrument=");
    reveal_strlit(" ");
    let id = protocol::instrument_number(instrument);
    let levels = protocol::depth_or_default(venue.config, depth);
    lemma_book_text_unbroken(venue.book(id->0 as u32), levels->0);
}

/// Every line with which the market-data gateway answers a line is a single one.
pub proof fn law_feed_answer_is_in_lines(venue: VenueView, line: Seq<char>)
    ensures
        all_unbroken(market_data::feed_answer(venue, text::words(line)).lines),
{
    let w = text::words(line);
    lemma_subscribed_unbroken(venue, w[1], None);
    lemma_subscribed_unbroken(venue, w[1], Some(w[2]));
    reveal_strlit("ok help subscribe <instrument_id> [depth]");
    reveal_strlit("error usage subscribe <instrument_id> [depth]");
}

proof fn lemma_those_unbroken(entries: Seq<EntryView>, p: spec_fn(EntryView) -> bool)
    requires
        forall|i: int| 0 <= i < entries.len() ==> text::unbroken((#[trigger] entries[i]).message),
    ensures
        forall|i: int|
            0 <= i < model::those(entries, p).len() ==> text::unbroken(
                (#[trigger] model::those(entries, p)[i]).message,
            ),
    decreases entries.len(),
{
    if entries.len() > 0 {
        let rest = entries.drop_last();
        assert forall|i: int| 0 <= i < rest.len() implies text::unbroken((#[trigger] rest[i]).message) by {
            assert(rest[i] == entries[i]);
        }
        lemma_those_unbroken(rest, p);
        let kept = model::those(entries, p);
        assert(text::unbroken(entries[entries.len() - 1].message));
        assert forall|i: int| 0 <= i < kept.len() implies text::unbroken((#[trigger] kept[i]).message) by {
            if i < model::those(rest, p).len() {
                assert(kept[i] == model::those(rest, p)[i]);
            }
        }
    }
}

/// The messages of a log have no line breaks in them.
pub open spec fn plain_log(log: feed_log::LogView) -> bool {
    forall|id: InstrumentId, i: int|
        0 <= i < log[id].len() ==> text::unbroken((#[trigger] log[id][i]).message)
}

proof fn lemma_replay_head_unbroken(id: nat, seq: nat, count: nat)
    ensures
        text::unbroken(
            "ok replay instrument="@ + text::dec(id) + " after_seq="@ + text::dec(seq) + " events="@
                + text::dec(count),
        ),
{
    lemma_parts();
    reveal_strlit("ok replay instrument=");
    reveal_strlit(" after_seq=");
    reveal_strlit(" events=");
}

proof fn lemma_replay_unbroken(exchange: RuntimeView, instrument: Seq<char>, after: Seq<char>)
    requires
        plain_log(exchange.log),
    ensures
        all_unbroken(sessions::replay_answer(exchange, instrument, after).lines),
{
    let id = protocol::instrument_number(instrument);
    let seq = protocol::number(after);
    let lines = sessions::replay_answer(exchange, instrument, after).lines;
    lemma_common_errors_unbroken();
    assert(text::unbroken("error invalid-seq"@)) by {
        reveal_strlit("error invalid-seq");
    }
    if id is Some && seq is Some && exchange.venue.lists(id->0 as u32) {
        let bound = seq->0 as u64;
        let entries = feed_log::entries_after(exchange.log, id->0 as u32, bound);
        let log = exchange.log[id->0 as u32];
        assert forall|i: int| 0 <= i < log.len() implies text::unbroken((#[trigger] log[i]).message) by {
            assert(exchange.log[id->0 as u32][i] == log[i]);
        }
        lemma_those_unbroken(log, |e: EntryView| e.seq > bound);
        lemma_replay_head_unbroken(id->0, seq->0, entries.len());
        assert forall|i: int| 0 <= i < lines.len() implies text::unbroken(#[trigger] lines[i]) by {
            if i > 0 {
                assert(lines[i] == entries[i - 1].message);
            }
        }
    }
}

/// Every line with which a feed session answers a line is a single one, where the messages of the
/// log are.
pub proof fn law_feed_session_answer_is_in_lines(exchange: RuntimeView, line: Seq<char>)
    requires
        plain_log(exchange.log),
    ensures
        all_unbroken(sessions::feed_answer(exchange, text::words(line)).lines),
{
    let w = text::words(line);
    lemma_subscribed_unbroken(exchange.venue, w[1], None);
    lemma_subscribed_unbroken(exchange.venue, w[1], Some(w[2]));
    lemma_replay_unbroken(exchange, w[1], w[2]);
    reveal_strlit("ok help subscribe <instrument_id> [depth] | replay <instrument_id> <after_seq>");
    reveal_strlit("error usage subscribe <instrument_id> [depth] | replay <instrument_id> <after_seq>");
}

} // verus!
