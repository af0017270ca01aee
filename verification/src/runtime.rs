//! A venue together with the log of its public events.
use vstd::prelude::*;
use vstd::std_specs::convert::FromSpecImpl;

use crate::book;
use crate::feed_log;
use crate::feed_log::{FeedLogError, LogView, PublicFeedEntry, PublicFeedLog};
use crate::instrument::VenueConfig;
use crate::model;
use crate::types::{AccountId, BookEvent, BookSnapshot, InstrumentId, NewOrder, OrderId};
use crate::venue::{Venue, VenueError};
use crate::venue_laws;
use crate::venue_model::VenueView;

verus! {

/// A request that changes a book.
#[derive(Debug, Clone, Copy)]
pub enum Command {
    Submit { order: NewOrder },
    Replace { old_order_id: OrderId, order: NewOrder },
    Cancel { order_id: OrderId },
}

/// The events of a command on a listed instrument.
pub open spec fn command_events(venue: VenueView, id: InstrumentId, command: Command) -> Seq<BookEvent> {
    match command {
        Command::Submit { order } => venue.submit_events(id, order),
        Command::Replace { old_order_id, order } => venue.replace_events(id, old_order_id, order),
        Command::Cancel { order_id } => seq![venue.cancel_event(id, order_id)],
    }
}

/// The venue after a command on a listed instrument.
pub open spec fn after_command(venue: VenueView, id: InstrumentId, command: Command) -> VenueView {
    match command {
        Command::Submit { order } => venue.submitted(id, order),
        Command::Replace { old_order_id, order } => venue.replaced(id, old_order_id, order),
        Command::Cancel { order_id } => venue.cancelled(id, order_id),
    }
}

/// Whether the sequence numbers that are left suffice for a command; on an instrument that is not
/// listed none are needed.
pub open spec fn room_for(venue: VenueView, id: InstrumentId, command: Command) -> bool {
    venue.lists(id) ==> venue.book(id).seq + command_events(venue, id, command).len() <= u64::MAX
}

/// A ready venue has room for every command.
pub proof fn law_ready_venue_has_room(venue: VenueView, id: InstrumentId, command: Command)
    requires
        venue.valid(),
        venue.lists(id) ==> venue.book(id).has_room(),
    ensures
        room_for(venue, id, command),
{
    if venue.lists(id) {
        match command {
            Command::Submit { order } => venue_laws::law_room_suffices(venue, id, order.order_id, order),
            Command::Replace { old_order_id, order } => venue_laws::law_room_suffices(
                venue,
                id,
                old_order_id,
                order,
            ),
            Command::Cancel { .. } => {},
        }
    }
}

/// What a command did: all its events, and the log entries of the public ones.
#[derive(Debug, Clone)]
pub struct RuntimeCommandResult {
    pub book_events: Vec<BookEvent>,
    pub feed_entries: Vec<PublicFeedEntry>,
}

/// Why a command failed: the venue could not serve it, or its events could not be logged.
#[derive(Debug)]
pub enum RuntimeError {
    Venue(VenueError),
    FeedLog(FeedLogError),
}

impl From<VenueError> for RuntimeError {
    fn from(error: VenueError) -> (result: Self) {
        RuntimeError::Venue(error)
    }
}

impl FromSpecImpl<VenueError> for RuntimeError {
    open spec fn obeys_from_spec() -> bool {
        true
    }

    open spec fn from_spec(error: VenueError) -> Self {
        RuntimeError::Venue(error)
    }
}

impl From<FeedLogError> for RuntimeError {
    fn from(error: FeedLogError) -> (result: Self) {
        RuntimeError::FeedLog(error)
    }
}

impl FromSpecImpl<FeedLogError> for RuntimeError {
    open spec fn obeys_from_spec() -> bool {
        true
    }

    open spec fn from_spec(error: FeedLogError) -> Self {
        RuntimeError::FeedLog(error)
    }
}

/// Carries out a command on a venue.
pub fn execute_on(venue: &mut Venue, instrument_id: InstrumentId, command: Command) -> (result: Result<
    Vec<BookEvent>,
    VenueError,
>)
    requires
        old(venue).wf(),
        room_for(old(venue)@, instrument_id, command),
    ensures
        final(venue).wf(),
        match result {
            Ok(events) => {
                &&& old(venue)@.lists(instrument_id)
                &&& events@ == command_events(old(venue)@, instrument_id, command)
                &&& final(venue)@ == after_command(old(venue)@, instrument_id, command)
            },
            Err(error) => {
                &&& !old(venue)@.lists(instrument_id)
                &&& error == VenueError::UnknownInstrument
                &&& final(venue)@ == old(venue)@
            },
        },
{
    let ghost before = venue@;
    match command {
        Command::Submit { order } => venue.submit_limit(instrument_id, order),
        Command::Replace { old_order_id, order } => venue.replace_limit(instrument_id, old_order_id, order),
        Command::Cancel { order_id } => match venue.cancel(instrument_id, order_id) {
            Ok(event) => {
                let mut events: Vec<BookEvent> = Vec::new();
                events.push(event);
                assert(events@ =~= command_events(before, instrument_id, command));
                Ok(events)
            },
            Err(error) => Err(error),
        },
    }
}

/// A running exchange as contracts speak of it.
pub struct RuntimeView {
    pub venue: VenueView,
    pub log: LogView,
}

impl RuntimeView {
    /// The exchange after a command on a listed instrument, whose public events were logged.
    pub open spec fn after(self, id: InstrumentId, command: Command) -> RuntimeView {
        RuntimeView {
            venue: after_command(self.venue, id, command),
            log: feed_log::all_logged(
                self.log,
                feed_log::entries_of(id, command_events(self.venue, id, command)),
            ),
        }
    }
}

/// Whether `result` is what a command on the exchange `before` returns, and `after` what it leaves.
pub open spec fn command_done(
    before: RuntimeView,
    id: InstrumentId,
    command: Command,
    result: Result<RuntimeCommandResult, RuntimeError>,
    after: RuntimeView,
) -> bool {
    match result {
        Ok(done) => {
            &&& before.venue.lists(id)
            &&& done.book_events@ == command_events(before.venue, id, command)
            &&& feed_log::entry_views(done.feed_entries@) == feed_log::entries_of(
                id,
                command_events(before.venue, id, command),
            )
            &&& after == before.after(id, command)
        },
        Err(error) => {
            &&& !before.venue.lists(id)
            &&& error == RuntimeError::Venue(VenueError::UnknownInstrument)
            &&& after == before
        },
    }
}

/// A running exchange.
pub struct ExchangeRuntime {
    venue: Venue,
    feed_log: PublicFeedLog,
}

impl View for ExchangeRuntime {
    type V = RuntimeView;

    closed spec fn view(&self) -> RuntimeView {
        RuntimeView { venue: self.venue@, log: self.feed_log@ }
    }
}

impl ExchangeRuntime {
    pub closed spec fn wf(self) -> bool {
        self.venue.wf()
    }

    /// A well-formed exchange has a valid venue.
    pub proof fn lemma_wf_valid(self)
        requires
            self.wf(),
        ensures
            self@.venue.valid(),
    {
        self.venue.lemma_wf_valid();
    }

    pub fn new(venue: Venue, feed_log: PublicFeedLog) -> (runtime: Self)
        requires
            venue.wf(),
        ensures
            runtime.wf(),
            runtime@ == (RuntimeView { venue: venue@, log: feed_log@ }),
    {
        ExchangeRuntime { venue, feed_log }
    }

    /// Submits a limit order and logs its public events.
    pub fn submit_limit(&mut self, instrument_id: InstrumentId, order: NewOrder) -> (result: Result<
        RuntimeCommandResult,
        RuntimeError,
    >)
        requires
            old(self).wf(),
            room_for(old(self)@.venue, instrument_id, Command::Submit { order }),
        ensures
            final(self).wf(),
            command_done(
                old(self)@,
                instrument_id,
                Command::Submit { order },
                result,
                final(self)@,
            ),
    {
        self.carry_out(instrument_id, Command::Submit { order })
    }

    /// Replaces an order by another and logs the public events.
    pub fn replace_limit(
        &mut self,
        instrument_id: InstrumentId,
        old_order_id: OrderId,
        new_order: NewOrder,
    ) -> (result: Result<RuntimeCommandResult, RuntimeError>)
        requires
            old(self).wf(),
            room_for(old(self)@.venue, instrument_id, Command::Replace { old_order_id, order: new_order }),
        ensures
            final(self).wf(),
            command_done(
                old(self)@,
                instrument_id,
                Command::Replace { old_order_id, order: new_order },
                result,
                final(self)@,
            ),
    {
        self.carry_out(instrument_id, Command::Replace { old_order_id, order: new_order })
    }

    /// Cancels an order and logs the event.
    pub fn cancel(&mut self, instrument_id: InstrumentId, order_id: OrderId) -> (result: Result<
        RuntimeCommandResult,
        RuntimeError,
    >)
        requires
            old(self).wf(),
            room_for(old(self)@.venue, instrument_id, Command::Cancel { order_id }),
        ensures
            final(self).wf(),
            command_done(
                old(self)@,
                instrument_id,
                Command::Cancel { order_id },
                result,
                final(self)@,
            ),
    {
        self.carry_out(instrument_id, Command::Cancel { order_id })
    }

    /// Carries out a command and logs its public events in memory.
    fn carry_out(&mut self, instrument_id: InstrumentId, command: Command) -> (result: Result<
        RuntimeCommandResult,
        RuntimeError,
    >)
        requires
            old(self).wf(),
            room_for(old(self)@.venue, instrument_id, command),
        ensures
            final(self).wf(),
            command_done(old(self)@, instrument_id, command, result, final(self)@),
    {
        match self.execute(instrument_id, command) {
            Ok(events) => self.record_public_events(instrument_id, events, Ok(())),
            Err(error) => Err(RuntimeError::from(error)),
        }
    }

    /// Carries out a command on the venue. Its events are still to be recorded.
    pub fn execute(&mut self, instrument_id: InstrumentId, command: Command) -> (result: Result<
        Vec<BookEvent>,
        VenueError,
    >)
        requires
            old(self).wf(),
            room_for(old(self)@.venue, instrument_id, command),
        ensures
            final(self).wf(),
            final(self)@.log == old(self)@.log,
            match result {
                Ok(events) => {
                    &&& old(self)@.venue.lists(instrument_id)
                    &&& events@ == command_events(old(self)@.venue, instrument_id, command)
                    &&& final(self)@.venue == after_command(old(self)@.venue, instrument_id, command)
                },
                Err(error) => {
                    &&& !old(self)@.venue.lists(instrument_id)
                    &&& error == VenueError::UnknownInstrument
                    &&& final(self)@.venue == old(self)@.venue
                },
            },
    {
        execute_on(&mut self.venue, instrument_id, command)
    }

    /// Records the public ones among the events of a command. `written` tells whether their entries
    /// could be written to where the log is kept; where they could not, the command fails although
    /// the venue has carried it out.
    pub fn record_public_events(
        &mut self,
        instrument_id: InstrumentId,
        book_events: Vec<BookEvent>,
        written: Result<(), FeedLogError>,
    ) -> (result: Result<RuntimeCommandResult, RuntimeError>)
        requires
            old(self).wf(),
        ensures
            final(self).wf(),
            final(self)@.venue == old(self)@.venue,
            ({
                let entries = feed_log::entries_of(instrument_id, book_events@);
                match result {
                    Ok(done) => {
                        &&& written is Ok || entries.len() == 0
                        &&& done.book_events@ == book_events@
                        &&& feed_log::entry_views(done.feed_entries@) == entries
                        &&& final(self)@.log == feed_log::all_logged(old(self)@.log, entries)
                    },
                    Err(error) => {
                        &&& entries.len() > 0
                        &&& written is Err
                        &&& error == RuntimeError::FeedLog(written->Err_0)
                        &&& final(self)@.log == old(self)@.log
                    },
                }
            }),
    {
        match self.feed_log.record_written(instrument_id, &book_events, written) {
            Ok(feed_entries) => Ok(RuntimeCommandResult { book_events, feed_entries }),
            Err(error) => Err(RuntimeError::from(error)),
        }
    }

    pub fn venue(&self) -> (venue: &Venue)
        ensures
            venue@ == self@.venue,
            self.wf() ==> venue.wf(),
    {
        &self.venue
    }

    /// The best `depth` levels of an instrument's book, with their checksum.
    pub fn snapshot(&self, instrument_id: InstrumentId, depth: usize) -> (result: Result<
        BookSnapshot,
        VenueError,
    >)
        requires
            self.wf(),
            self@.venue.lists(instrument_id) ==> model::visible_fit(
                self@.venue.book(instrument_id).bids,
                depth as nat,
            ) && model::visible_fit(self@.venue.book(instrument_id).asks, depth as nat),
        ensures
            match result {
                Ok(snapshot) => self@.venue.lists(instrument_id) && book::is_snapshot(
                    snapshot,
                    self@.venue.book(instrument_id),
                    depth as nat,
                ),
                Err(error) => !self@.venue.lists(instrument_id) && error == VenueError::UnknownInstrument,
            },
    {
        self.venue.snapshot(instrument_id, depth)
    }

    /// A copy of the venue's configuration.
    pub fn config(&self) -> (config: VenueConfig)
        ensures
            config@ == self@.venue.config,
    {
        self.venue.config().clone()
    }

    /// What an account may use of an asset.
    pub fn balance(&self, account_id: AccountId, asset: &str) -> (amount: u128)
        requires
            self.wf(),
        ensures
            amount == self@.venue.ledger.available(account_id, asset@),
    {
        self.venue.balance(account_id, asset)
    }

    /// What the resting orders of an account have set aside of an asset.
    pub fn reserved(&self, account_id: AccountId, asset: &str) -> (amount: u128)
        requires
            self.wf(),
        ensures
            amount == self@.venue.ledger.reserved(account_id, asset@),
    {
        self.venue.reserved(account_id, asset)
    }

    /// What the exchange earned in an asset.
    pub fn revenue(&self, asset: &str) -> (amount: u128)
        requires
            self.wf(),
        ensures
            amount == self@.venue.ledger.revenue(asset@),
    {
        self.venue.revenue(asset)
    }

    /// The logged events of an instrument after a sequence number, oldest first.
    pub fn replay(&self, instrument_id: InstrumentId, after_seq: u64) -> (entries: Vec<PublicFeedEntry>)
        ensures
            feed_log::entry_views(entries@) == feed_log::entries_after(
                self@.log,
                instrument_id,
                after_seq,
            ),
    {
        self.feed_log.replay(instrument_id, after_seq)
    }
}

} // verus!
