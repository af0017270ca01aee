//! Laws that hold of every command, and of every series of commands.
use vstd::prelude::*;

use crate::book_laws;
use crate::model;
use crate::rebuild;
use crate::runtime;
use crate::runtime::Command;
use crate::types::{BookEvent, InstrumentId, NewOrder};
use crate::venue_laws;
use crate::venue_model;
use crate::venue_model::VenueView;

verus! {

/// Every command keeps the venue valid: the books in order, and every reservation exactly what the
/// resting orders call for.
pub proof fn law_command_keeps_venue_valid(venue: VenueView, id: InstrumentId, command: Command)
    requires
        venue.valid(),
        venue.lists(id),
    ensures
        runtime::after_command(venue, id, command).valid(),
        runtime::after_command(venue, id, command).books.len() == venue.books.len(),
{
    match command {
        Command::Submit { order } => venue_model::law_submit_keeps_venue_valid(venue, id, order),
        Command::Replace { old_order_id, order } => venue_laws::law_replace_keeps_venue_valid(
            venue,
            id,
            old_order_id,
            order,
        ),
        Command::Cancel { order_id } => venue_model::law_cancel_keeps_venue_valid(venue, id, order_id),
    }
}

/// No command makes any asset more or less.
pub proof fn law_command_conserves_assets(venue: VenueView, id: InstrumentId, command: Command, asset: Seq<char>)
    requires
        venue.valid(),
        venue.lists(id),
    ensures
        runtime::after_command(venue, id, command).ledger.supply(asset) == venue.ledger.supply(asset),
{
    match command {
        Command::Submit { order } => venue_model::law_submit_conserves_assets(venue, id, order, asset),
        Command::Replace { old_order_id, order } => venue_laws::law_replace_conserves_assets(
            venue,
            id,
            old_order_id,
            order,
            asset,
        ),
        Command::Cancel { order_id } => venue_model::law_cancel_conserves_assets(
            venue,
            id,
            order_id,
            asset,
        ),
    }
}

/// The events of a command carry the sequence numbers that follow the last one given out, without a
/// gap, and the next command goes on from there.
pub proof fn law_command_numbers_are_consecutive(venue: VenueView, id: InstrumentId, command: Command)
    requires
        venue.valid(),
        venue.lists(id),
        runtime::room_for(venue, id, command),
    ensures
        ({
            let events = runtime::command_events(venue, id, command);
            let seq = venue.book(id).seq;
            &&& forall|i: int| 0 <= i < events.len() ==> (#[trigger] events[i]).number() == seq + 1 + i
            &&& runtime::after_command(venue, id, command).book(id).seq == seq + events.len()
        }),
{
    assert(venue.books[id as int].valid());
    match command {
        Command::Submit { order } => lemma_submit_numbers(venue, id, order),
        Command::Cancel { order_id } => book_laws::law_cancel_number_is_next(venue.book(id), order_id),
        Command::Replace { old_order_id, order } => {
            book_laws::law_cancel_number_is_next(venue.book(id), old_order_id);
            if venue.book(id).contains(old_order_id) {
                let between = venue.cancelled(id, old_order_id);
                venue_model::law_cancel_keeps_venue_valid(venue, id, old_order_id);
                lemma_submit_numbers(between, id, order);
                let events = venue.replace_events(id, old_order_id, order);
                let later = between.submit_events(id, order);
                assert forall|i: int| 0 <= i < events.len() implies (#[trigger] events[i]).number()
                    == venue.book(id).seq + 1 + i by {
                    if i > 0 {
                        assert(events[i] == later[i - 1]);
                    }
                }
            }
        },
    }
}

proof fn lemma_submit_numbers(venue: VenueView, id: InstrumentId, order: NewOrder)
    requires
        venue.valid(),
        venue.lists(id),
        venue.book(id).seq + venue.submit_events(id, order).len() <= u64::MAX,
    ensures
        forall|i: int|
            0 <= i < venue.submit_events(id, order).len() ==> (
            #[trigger] venue.submit_events(id, order)[i]).number() == venue.book(id).seq + 1 + i,
        venue.submitted(id, order).book(id).seq == venue.book(id).seq + venue.submit_events(id, order).len(),
{
    assert(venue.books[id as int].valid());
    if venue.refusal(id, order) is None {
        book_laws::law_submit_numbers_are_consecutive(venue.book(id), order);
    }
}

/// A command on one instrument leaves the books of all others as they are.
pub proof fn law_command_leaves_other_books(
    venue: VenueView,
    id: InstrumentId,
    command: Command,
    other: InstrumentId,
)
    requires
        venue.valid(),
        venue.lists(id),
        venue.lists(other),
        other != id,
    ensures
        runtime::after_command(venue, id, command).book(other) == venue.book(other),
{
}

proof fn lemma_submit_rebuilds(venue: VenueView, id: InstrumentId, order: NewOrder)
    requires
        venue.valid(),
        venue.lists(id),
    ensures
        rebuild::replayed(
            rebuild::public_book(venue.book(id)),
            rebuild::public_events(venue.submit_events(id, order)),
        ) == rebuild::public_book(venue.submitted(id, order).book(id)),
{
    assert(venue.books[id as int].valid());
    if venue.refusal(id, order) is None {
        rebuild::law_feed_rebuilds_book_after_submit(venue.book(id), order);
    } else {
        let events = venue.submit_events(id, order);
        assert(rebuild::public_events(events) =~= seq![]) by {
            model::lemma_those_none(events, |e: BookEvent| e.is_public());
        }
    }
}

/// A client that applies the public events of a command to its copy of the visible book has the
/// visible book that the command left.
pub proof fn law_feed_rebuilds_book_after_command(venue: VenueView, id: InstrumentId, command: Command)
    requires
        venue.valid(),
        venue.lists(id),
    ensures
        rebuild::replayed(
            rebuild::public_book(venue.book(id)),
            rebuild::public_events(runtime::command_events(venue, id, command)),
        ) == rebuild::public_book(runtime::after_command(venue, id, command).book(id)),
{
    assert(venue.books[id as int].valid());
    match command {
        Command::Submit { order } => lemma_submit_rebuilds(venue, id, order),
        Command::Cancel { order_id } => {
            rebuild::law_feed_rebuilds_book_after_cancel(venue.book(id), order_id);
        },
        Command::Replace { old_order_id, order } => {
            let first = seq![venue.cancel_event(id, old_order_id)];
            rebuild::law_feed_rebuilds_book_after_cancel(venue.book(id), old_order_id);
            if venue.book(id).contains(old_order_id) {
                let between = venue.cancelled(id, old_order_id);
                let second = between.submit_events(id, order);
                venue_model::law_cancel_keeps_venue_valid(venue, id, old_order_id);
                lemma_submit_rebuilds(between, id, order);
                model::lemma_those_concat(first, second, |e: BookEvent| e.is_public());
                rebuild::lemma_replayed_concat(
                    rebuild::public_book(venue.book(id)),
                    rebuild::public_events(first),
                    rebuild::public_events(second),
                );
            }
        },
    }
}

/// The venue after a series of commands, each on an instrument.
pub open spec fn after_series(venue: VenueView, series: Seq<(InstrumentId, Command)>) -> VenueView
    decreases series.len(),
{
    if series.len() == 0 {
        venue
    } else {
        runtime::after_command(
            after_series(venue, series.drop_last()),
            series.last().0,
            series.last().1,
        )
    }
}

/// The public events of one instrument in a series of commands.
pub open spec fn series_feed(venue: VenueView, series: Seq<(InstrumentId, Command)>, id: InstrumentId) -> Seq<
    BookEvent,
>
    decreases series.len(),
{
    if series.len() == 0 {
        seq![]
    } else {
        let before = series_feed(venue, series.drop_last(), id);
        if series.last().0 == id {
            before + rebuild::public_events(
                runtime::command_events(
                    after_series(venue, series.drop_last()),
                    series.last().0,
                    series.last().1,
                ),
            )
        } else {
            before
        }
    }
}

/// Every command of a series is on a listed instrument.
pub open spec fn all_listed(venue: VenueView, series: Seq<(InstrumentId, Command)>) -> bool {
    forall|i: int| 0 <= i < series.len() ==> venue.lists((#[trigger] series[i]).0)
}

/// A venue stays valid and every asset what it is, whatever series of commands comes in.
pub proof fn law_series_keeps_venue_valid_and_conserves_assets(
    venue: VenueView,
    series: Seq<(InstrumentId, Command)>,
    asset: Seq<char>,
)
    requires
        venue.valid(),
        all_listed(venue, series),
    ensures
        after_series(venue, series).valid(),
        after_series(venue, series).books.len() == venue.books.len(),
        after_series(venue, series).ledger.supply(asset) == venue.ledger.supply(asset),
    decreases series.len(),
{
    if series.len() > 0 {
        let rest = series.drop_last();
        assert forall|i: int| 0 <= i < rest.len() implies venue.lists((#[trigger] rest[i]).0) by {
            assert(venue.lists(series[i].0));
        }
        law_series_keeps_venue_valid_and_conserves_assets(venue, rest, asset);
        assert(venue.lists(series[series.len() - 1].0));
        let before = after_series(venue, rest);
        law_command_keeps_venue_valid(before, series.last().0, series.last().1);
        law_command_conserves_assets(before, series.last().0, series.last().1, asset);
    }
}

/// A client that follows the public feed of an instrument always has its visible book, whatever
/// commands come in on this and on other instruments.
pub proof fn law_feed_follows_the_book(
    venue: VenueView,
    series: Seq<(InstrumentId, Command)>,
    id: InstrumentId,
)
    requires
        venue.valid(),
        all_listed(venue, series),
        venue.lists(id),
    ensures
        rebuild::replayed(rebuild::public_book(venue.book(id)), series_feed(venue, series, id))
            == rebuild::public_book(after_series(venue, series).book(id)),
    decreases series.len(),
{
    if series.len() > 0 {
        let rest = series.drop_last();
        let (at, command) = series.last();
        assert forall|i: int| 0 <= i < rest.len() implies venue.lists((#[trigger] rest[i]).0) by {
            assert(venue.lists(series[i].0));
        }
        assert(venue.lists(series[series.len() - 1].0));
        law_feed_follows_the_book(venue, rest, id);
        law_series_keeps_venue_valid_and_conserves_assets(venue, rest, seq![]);
        let before = after_series(venue, rest);
        if at == id {
            law_feed_rebuilds_book_after_command(before, id, command);
            rebuild::lemma_replayed_concat(
                rebuild::public_book(venue.book(id)),
                series_feed(venue, rest, id),
                rebuild::public_events(runtime::command_events(before, id, command)),
            );
        } else {
            law_command_leaves_other_books(before, at, command, id);
        }
    }
}

} // verus!
