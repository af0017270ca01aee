//! The log of public events, from which a client that missed some can have them again.
use std::collections::BTreeMap;

use vstd::prelude::*;

use crate::events;
use crate::model;
use crate::rebuild;
use crate::text;
use crate::types::{BookEvent, InstrumentId};

verus! {

/// A public event as it was sent to the feed.
#[derive(Debug, PartialEq, Eq)]
pub struct PublicFeedEntry {
    pub instrument_id: InstrumentId,
    pub seq: u64,
    pub message: String,
}

/// A log entry as contracts speak of it.
pub struct EntryView {
    pub instrument_id: InstrumentId,
    pub seq: u64,
    pub message: Seq<char>,
}

impl View for PublicFeedEntry {
    type V = EntryView;

    open spec fn view(&self) -> EntryView {
        EntryView { instrument_id: self.instrument_id, seq: self.seq, message: self.message@ }
    }
}

impl Clone for PublicFeedEntry {
    fn clone(&self) -> (copy: Self)
        ensures
            copy@ == self@,
    {
        PublicFeedEntry {
            instrument_id: self.instrument_id,
            seq: self.seq,
            message: self.message.clone(),
        }
    }
}

pub open spec fn entry_views(entries: Seq<PublicFeedEntry>) -> Seq<EntryView> {
    Seq::new(entries.len(), |i: int| entries[i]@)
}

/// The message that tells the feed of an event.
pub open spec fn message_text(instrument_id: InstrumentId, event: BookEvent) -> Seq<char> {
    "event instrument="@ + text::dec(instrument_id as nat) + " "@ + events::event_text(event)
}

pub open spec fn entry_of(instrument_id: InstrumentId, event: BookEvent) -> EntryView {
    EntryView { instrument_id, seq: event.number(), message: message_text(instrument_id, event) }
}

/// The log entries of the public ones among `events`, in their order.
pub open spec fn entries_of(instrument_id: InstrumentId, events: Seq<BookEvent>) -> Seq<EntryView> {
    let public = rebuild::public_events(events);
    Seq::new(public.len(), |i: int| entry_of(instrument_id, public[i]))
}

/// A log: for every instrument its entries, oldest first.
pub type LogView = Map<InstrumentId, Seq<EntryView>>;

pub open spec fn empty_log() -> LogView {
    Map::new(|id: InstrumentId| true, |id: InstrumentId| seq![])
}

/// The log after one more entry.
pub open spec fn logged(log: LogView, entry: EntryView) -> LogView {
    log.insert(entry.instrument_id, log[entry.instrument_id].push(entry))
}

/// The log after more entries, in their order.
pub open spec fn all_logged(log: LogView, entries: Seq<EntryView>) -> LogView
    decreases entries.len(),
{
    if entries.len() == 0 {
        log
    } else {
        logged(all_logged(log, entries.drop_last()), entries.last())
    }
}

/// The entries of an instrument after a sequence number.
pub open spec fn entries_after(log: LogView, instrument_id: InstrumentId, after_seq: u64) -> Seq<EntryView> {
    model::those(log[instrument_id], |e: EntryView| e.seq > after_seq)
}

/// An entry as a line of the log file: instrument, sequence number and message, with tabs between.
pub open spec fn entry_line(entry: EntryView) -> Seq<char> {
    text::dec(entry.instrument_id as nat) + "\t"@ + text::dec(entry.seq as nat) + "\t"@ + entry.message
}

/// What a line of the log file says; nothing where it is not an entry.
pub open spec fn read_entry(line: Seq<char>) -> Option<EntryView> {
    let first = text::upto(line, '\t') as int;
    let rest = line.skip(first + 1);
    let second = text::upto(rest, '\t') as int;
    let instrument_id = text::parsed(line.take(first), u32::MAX as nat);
    let seq = text::parsed(rest.take(second), u64::MAX as nat);
    if instrument_id is Some && first < line.len() && seq is Some && second < rest.len() {
        Some(
            EntryView {
                instrument_id: instrument_id->0 as u32,
                seq: seq->0 as u64,
                message: rest.skip(second + 1),
            },
        )
    } else {
        None
    }
}

/// The log after the entries among `lines`; other lines are passed over.
pub open spec fn read_lines(log: LogView, lines: Seq<Seq<char>>) -> LogView
    decreases lines.len(),
{
    if lines.len() == 0 {
        log
    } else {
        let before = read_lines(log, lines.drop_last());
        match read_entry(lines.last()) {
            Some(entry) => logged(before, entry),
            None => before,
        }
    }
}

/// Why a log could not be written.
#[derive(Debug, PartialEq, Eq)]
pub struct FeedLogError {
    pub message: String,
}

/// The public events of all instruments, oldest first.
#[derive(Debug)]
pub struct PublicFeedLog {
    entries: BTreeMap<InstrumentId, Vec<PublicFeedEntry>>,
}

impl View for PublicFeedLog {
    type V = LogView;

    closed spec fn view(&self) -> LogView {
        Map::new(
            |id: InstrumentId| true,
            |id: InstrumentId|
                if self.entries@.contains_key(id) {
                    entry_views(self.entries@[id]@)
                } else {
                    seq![]
                },
        )
    }
}

/// The public ones among `events` as log entries, in their order.
pub fn public_entries(instrument_id: InstrumentId, events: &Vec<BookEvent>) -> (entries: Vec<PublicFeedEntry>)
    ensures
        entry_views(entries@) == entries_of(instrument_id, events@),
{
    let n: usize = events.len();
    let mut entries: Vec<PublicFeedEntry> = Vec::new();
    let mut i: usize = 0;
    assert(entry_views(entries@) =~= entries_of(instrument_id, events@.take(0)));
    while i < n
        invariant
            i <= n,
            n == events@.len(),
            entry_views(entries@) == entries_of(instrument_id, events@.take(i as int)),
        decreases n - i,
    {
        let event = &events[i];
        let ghost before = entries@;
        proof {
            assert(events@.take(i + 1).drop_last() =~= events@.take(i as int));
            assert(events@.take(i + 1).last() == *event);
        }
        if events::is_public_event(event) {
            let message = message_of(instrument_id, event);
            entries.push(PublicFeedEntry { instrument_id, seq: events::event_seq(event), message });
            assert(entry_views(entries@) =~= entry_views(before).push(entry_of(instrument_id, *event)));
        }
        i = i + 1;
        assert(entry_views(entries@) =~= entries_of(instrument_id, events@.take(i as int)));
    }
    assert(events@.take(n as int) =~= events@);
    entries
}

/// The message that tells the feed of an event.
pub fn message_of(instrument_id: InstrumentId, event: &BookEvent) -> (message: String)
    ensures
        message@ == message_text(instrument_id, *event),
{
    let mut message = "event instrument=".to_owned();
    text::append_decimal(&mut message, instrument_id as u128);
    message.append(" ");
    message.append(events::event_line(event).as_str());
    message
}

/// An entry as a line of the log file.
pub fn line_of(entry: &PublicFeedEntry) -> (line: String)
    ensures
        line@ == entry_line(entry@),
{
    let mut line = String::new();
    text::append_decimal(&mut line, entry.instrument_id as u128);
    assert(line@ =~= text::dec(entry.instrument_id as nat));
    line.append("\t");
    text::append_decimal(&mut line, entry.seq as u128);
    line.append("\t");
    line.append(entry.message.as_str());
    line
}

/// What a line of the log file says; nothing where it is not an entry.
pub fn parse_entry(line: &str) -> (entry: Option<PublicFeedEntry>)
    ensures
        match entry {
            Some(entry) => read_entry(line@) == Some(entry@),
            None => read_entry(line@) is None,
        },
{
    let chars = text::chars_of(line);
    let n: usize = chars.len();
    assert(line@.skip(0) =~= line@);
    let first: usize = text::find(&chars, 0, '\t');
    assert(line@.subrange(0, first as int) =~= line@.take(first as int));
    let instrument_id: InstrumentId = match text::parse_unsigned(line.substring_char(0, first), 0xffff_ffff) {
        Some(value) => value as u32,
        None => {
            return None;
        },
    };
    if first == n {
        return None;
    }
    let ghost rest = line@.skip(first + 1);
    let second: usize = text::find(&chars, first + 1, '\t');
    assert(line@.subrange(first + 1, second as int) =~= rest.take(second - first - 1));
    let seq: u64 = match text::parse_unsigned(line.substring_char(first + 1, second), u64::MAX) {
        Some(value) => value,
        None => {
            return None;
        },
    };
    if second == n {
        return None;
    }
    assert(line@.subrange(second + 1, n as int) =~= rest.skip(second - first));
    let message = line.substring_char(second + 1, n).to_owned();
    Some(PublicFeedEntry { instrument_id, seq, message })
}

impl PublicFeedLog {
    /// An empty log.
    pub fn in_memory() -> (log: Self)
        ensures
            log@ == empty_log(),
    {
        let log = PublicFeedLog { entries: BTreeMap::new() };
        assert(log@ =~= empty_log());
        log
    }

    /// The log that the text of a log file holds.
    pub fn from_text(source: &str) -> (log: Self)
        ensures
            log@ == read_lines(empty_log(), text::lines(source@)),
    {
        let lines = text::split_lines(source);
        let ghost all = text::texts(lines@);
        let n: usize = lines.len();
        let mut log = PublicFeedLog::in_memory();
        let mut i: usize = 0;
        assert(all.take(0) =~= seq![]);
        while i < n
            invariant
                i <= n,
                n == lines@.len(),
                all == text::texts(lines@),
                log@ == read_lines(empty_log(), all.take(i as int)),
            decreases n - i,
        {
            proof {
                assert(all.take(i + 1).drop_last() =~= all.take(i as int));
                assert(all.take(i + 1).last() == lines@[i as int]@);
            }
            if let Some(entry) = parse_entry(lines[i].as_str()) {
                log.push(entry);
            }
            i = i + 1;
        }
        assert(all.take(n as int) =~= all);
        log
    }

    /// Adds one entry.
    fn push(&mut self, entry: PublicFeedEntry)
        ensures
            final(self)@ == logged(old(self)@, entry@),
    {
        broadcast use vstd::std_specs::btree::group_btree_axioms;
        let ghost before = self@;
        let ghost view = entry@;
        let id: InstrumentId = entry.instrument_id;
        let mut list: Vec<PublicFeedEntry> = match self.entries.remove(&id) {
            Some(list) => list,
            None => Vec::new(),
        };
        assert(entry_views(list@) =~= before[id]);
        list.push(entry);
        assert(entry_views(list@) =~= before[id].push(view));
        self.entries.insert(id, list);
        assert(self@ =~= logged(before, view));
    }

    /// Records the public ones among `events` and returns their entries.
    pub fn record(&mut self, instrument_id: InstrumentId, events: &Vec<BookEvent>) -> (result: Result<
        Vec<PublicFeedEntry>,
        FeedLogError,
    >)
        ensures
            result is Ok,
            entry_views(result->Ok_0@) == entries_of(instrument_id, events@),
            final(self)@ == all_logged(old(self)@, entries_of(instrument_id, events@)),
    {
        self.record_written(instrument_id, events, Ok(()))
    }

    /// Records the public ones among `events`, whose entries a file was to take: where it could not,
    /// nothing is recorded. Without public events nothing was to be written.
    pub fn record_written(
        &mut self,
        instrument_id: InstrumentId,
        events: &Vec<BookEvent>,
        written: Result<(), FeedLogError>,
    ) -> (result: Result<Vec<PublicFeedEntry>, FeedLogError>)
        ensures
            ({
                let entries = entries_of(instrument_id, events@);
                match result {
                    Ok(list) => {
                        &&& written is Ok || entries.len() == 0
                        &&& entry_views(list@) == entries
                        &&& final(self)@ == all_logged(old(self)@, entries)
                    },
                    Err(error) => {
                        &&& entries.len() > 0
                        &&& written == Err::<(), FeedLogError>(error)
                        &&& final(self)@ == old(self)@
                    },
                }
            }),
    {
        let entries = public_entries(instrument_id, events);
        let ghost views = entry_views(entries@);
        assert(views.len() == entries@.len());
        if entries.len() == 0 {
            return Ok(entries);
        }
        if let Err(error) = written {
            return Err(error);
        }
        let ghost before = self@;
        let n: usize = entries.len();
        let mut i: usize = 0;
        while i < n
            invariant
                i <= n,
                n == entries@.len(),
                views == entry_views(entries@),
                self@ == all_logged(before, views.take(i as int)),
            decreases n - i,
        {
            self.push(entries[i].clone());
            i = i + 1;
            assert(views.take(i as int).drop_last() =~= views.take(i - 1));
            assert(views.take(i as int).last() == entries@[i - 1]@);
        }
        assert(views.take(n as int) =~= views);
        Ok(entries)
    }

    /// The entries of an instrument after a sequence number, oldest first.
    pub fn replay(&self, instrument_id: InstrumentId, after_seq: u64) -> (result: Vec<PublicFeedEntry>)
        ensures
            entry_views(result@) == entries_after(self@, instrument_id, after_seq),
    {
        broadcast use vstd::std_specs::btree::group_btree_axioms;
        let mut result: Vec<PublicFeedEntry> = Vec::new();
        let ghost all = self@[instrument_id];
        let ghost later = |e: EntryView| e.seq > after_seq;
        assert(entry_views(result@) =~= model::those(all.take(0), later));
        match self.entries.get(&instrument_id) {
            None => {
                assert(all.take(0) =~= all);
            },
            Some(list) => {
                let n: usize = list.len();
                let mut i: usize = 0;
                while i < n
                    invariant
                        i <= n,
                        n == list@.len(),
                        all == entry_views(list@),
                        later == (|e: EntryView| e.seq > after_seq),
                        entry_views(result@) == model::those(all.take(i as int), later),
                    decreases n - i,
                {
                    let ghost before = result@;
                    proof {
                        assert(all.take(i + 1).drop_last() =~= all.take(i as int));
                        assert(all.take(i + 1).last() == list@[i as int]@);
                    }
                    if list[i].seq > after_seq {
                        result.push(list[i].clone());
                        assert(entry_views(result@) =~= entry_views(before).push(list@[i as int]@));
                    }
                    i = i + 1;
                }
                assert(all.take(n as int) =~= all);
            },
        }
        result
    }
}

} // verus!
