//! Laws of the feed log: what was recorded is replayed, also after the log was read from its file.
use vstd::prelude::*;

use crate::events;
use crate::feed_log;
use crate::feed_log::{EntryView, LogView};
use crate::model;
use crate::rebuild;
use crate::text;
use crate::types::{BookEvent, InstrumentId, OrderId, Price, Quantity, RejectReason, Side};

verus! {

/// The line that was written for an entry is read as that entry.
pub proof fn law_entry_line_reads_back(entry: EntryView)
    ensures
        feed_log::read_entry(feed_log::entry_line(entry)) == Some(entry),
{
    let line = feed_log::entry_line(entry);
    let id = text::dec(entry.instrument_id as nat);
    let seq = text::dec(entry.seq as nat);
    reveal_strlit("\t");
    text::lemma_dec(entry.instrument_id as nat);
    text::lemma_dec(entry.seq as nat);
    text::law_decimal_reads_back(entry.instrument_id as nat, u32::MAX as nat);
    text::law_decimal_reads_back(entry.seq as nat, u64::MAX as nat);
    let tail = "\t"@ + entry.message;
    let rest = seq + tail;
    assert(line =~= id + ("\t"@ + rest));
    assert forall|i: int| 0 <= i < id.len() implies #[trigger] id[i] != '\t' by {
        assert(text::is_digit(id[i]));
    }
    assert forall|i: int| 0 <= i < seq.len() implies #[trigger] seq[i] != '\t' by {
        assert(text::is_digit(seq[i]));
    }
    text::lemma_upto_concat(id, "\t"@ + rest, '\t');
    text::lemma_upto_concat(seq, tail, '\t');
    assert(line.take(id.len() as int) =~= id);
    assert(line.skip(id.len() as int + 1) =~= rest);
    assert(rest.take(seq.len() as int) =~= seq);
    assert(rest.skip(seq.len() as int + 1) =~= entry.message);
}

proof fn lemma_side_unbroken(side: Side)
    ensures
        text::unbroken(events::side_text(side)),
{
    reveal_strlit("buy");
    reveal_strlit("sell");
}

proof fn lemma_reason_unbroken(reason: RejectReason)
    ensures
        text::unbroken(events::reason_text(reason)),
{
    match reason {
        RejectReason::DuplicateOrderId => reveal_strlit("DuplicateOrderId"),
        RejectReason::UnknownOrderId => reveal_strlit("UnknownOrderId"),
        RejectReason::ZeroQuantity => reveal_strlit("ZeroQuantity"),
        RejectReason::InvalidPriceTick => reveal_strlit("InvalidPriceTick"),
        RejectReason::InvalidQuantityStep => reveal_strlit("InvalidQuantityStep"),
        RejectReason::BelowMinNotional => reveal_strlit("BelowMinNotional"),
        RejectReason::InsufficientBalance => reveal_strlit("InsufficientBalance"),
    }
}

/// `a`, a word and a number are unbroken together where `a` and the word are.
proof fn lemma_unbroken_number(a: Seq<char>, word: Seq<char>, n: nat)
    requires
        text::unbroken(a),
        text::unbroken(word),
    ensures
        text::unbroken(a + word + text::dec(n)),
{
    text::lemma_unbroken_dec(n);
    text::lemma_unbroken_concat(a, word);
    text::lemma_unbroken_concat(a + word, text::dec(n));
}

proof fn lemma_resting_unbroken(order_id: OrderId, side: Side, price: Price, quantity: Quantity)
    ensures
        text::unbroken(events::resting_text(order_id, side, price, quantity)),
{
    reveal_strlit(":order=");
    reveal_strlit(":side=");
    reveal_strlit(":qty=");
    reveal_strlit(":price=");
    let order = ":order="@ + text::dec(order_id as nat);
    text::lemma_unbroken_dec(order_id as nat);
    text::lemma_unbroken_concat(":order="@, text::dec(order_id as nat));
    text::lemma_unbroken_concat(order, ":side="@);
    lemma_side_unbroken(side);
    let sided = order + ":side="@ + events::side_text(side);
    text::lemma_unbroken_concat(order + ":side="@, events::side_text(side));
    lemma_unbroken_number(sided, ":qty="@, quantity as nat);
    lemma_unbroken_number(sided + ":qty="@ + text::dec(quantity as nat), ":price="@, price.0 as nat);
}

/// The message of any event is a single line.
pub proof fn law_message_is_one_line(instrument_id: InstrumentId, event: BookEvent)
    ensures
        text::unbroken(feed_log::message_text(instrument_id, event)),
{
    assert(text::unbroken(events::event_text(event))) by {
        lemma_event_unbroken(event);
    }
    reveal_strlit("event instrument=");
    reveal_strlit(" ");
    text::lemma_unbroken_dec(instrument_id as nat);
    let head = "event instrument="@ + text::dec(instrument_id as nat);
    text::lemma_unbroken_concat("event instrument="@, text::dec(instrument_id as nat));
    text::lemma_unbroken_concat(head, " "@);
    text::lemma_unbroken_concat(head + " "@, events::event_text(event));
}

pub proof fn lemma_event_unbroken(event: BookEvent)
    ensures
        text::unbroken(events::event_text(event)),
{
    text::lemma_unbroken_dec(event.number() as nat);
    let seq = text::dec(event.number() as nat);
    match event {
        BookEvent::Accepted { order_id, .. } => {
            reveal_strlit("accepted:");
            reveal_strlit(":order=");
            text::lemma_unbroken_concat("accepted:"@, seq);
            lemma_unbroken_number("accepted:"@ + seq, ":order="@, order_id as nat);
        },
        BookEvent::Executed { execution, .. } => {
            reveal_strlit("executed:");
            reveal_strlit(":resting=");
            reveal_strlit(":aggressing=");
            reveal_strlit(":qty=");
            reveal_strlit(":price=");
            let a = "executed:"@ + seq;
            text::lemma_unbroken_concat("executed:"@, seq);
            lemma_unbroken_number(a, ":resting="@, execution.resting_order_id as nat);
            let b = a + ":resting="@ + text::dec(execution.resting_order_id as nat);
            lemma_unbroken_number(b, ":aggressing="@, execution.aggressing_order_id as nat);
            let c = b + ":aggressing="@ + text::dec(execution.aggressing_order_id as nat);
            lemma_unbroken_number(c, ":qty="@, execution.quantity as nat);
            let d = c + ":qty="@ + text::dec(execution.quantity as nat);
            lemma_unbroken_number(d, ":price="@, execution.price.0 as nat);
        },
        BookEvent::Rested { order_id, side, price, quantity, .. } => {
            reveal_strlit("rested:");
            text::lemma_unbroken_concat("rested:"@, seq);
            lemma_resting_unbroken(order_id, side, price, quantity);
            text::lemma_unbroken_concat(
                "rested:"@ + seq,
                events::resting_text(order_id, side, price, quantity),
            );
        },
        BookEvent::Canceled { order_id, side, price, quantity, .. } => {
            reveal_strlit("canceled:");
            text::lemma_unbroken_concat("canceled:"@, seq);
            lemma_resting_unbroken(order_id, side, price, quantity);
            text::lemma_unbroken_concat(
                "canceled:"@ + seq,
                events::resting_text(order_id, side, price, quantity),
            );
        },
        BookEvent::Rejected { order_id, reason, .. } => {
            reveal_strlit("rejected:");
            reveal_strlit(":order=");
            reveal_strlit(":reason=");
            let a = "rejected:"@ + seq;
            text::lemma_unbroken_concat("rejected:"@, seq);
            lemma_unbroken_number(a, ":order="@, order_id as nat);
            let b = a + ":order="@ + text::dec(order_id as nat);
            text::lemma_unbroken_concat(b, ":reason="@);
            lemma_reason_unbroken(reason);
            text::lemma_unbroken_concat(b + ":reason="@, events::reason_text(reason));
        },
    }
}

/// The contents of a log file to which `entries` were written, one after the other.
pub open spec fn file_text(entries: Seq<EntryView>) -> Seq<char> {
    text::as_lines(Seq::new(entries.len(), |i: int| feed_log::entry_line(entries[i])))
}

proof fn lemma_read_written(log: LogView, entries: Seq<EntryView>)
    ensures
        feed_log::read_lines(log, Seq::new(entries.len(), |i: int| feed_log::entry_line(entries[i])))
            == feed_log::all_logged(log, entries),
    decreases entries.len(),
{
    let lines = Seq::new(entries.len(), |i: int| feed_log::entry_line(entries[i]));
    if entries.len() > 0 {
        let rest = entries.drop_last();
        lemma_read_written(log, rest);
        assert(lines.drop_last() =~= Seq::new(rest.len(), |i: int| feed_log::entry_line(rest[i])));
        law_entry_line_reads_back(entries.last());
    }
}

/// The lines of entries whose messages are unbroken are unbroken.
proof fn lemma_lines_unbroken(entries: Seq<EntryView>)
    requires
        forall|i: int| 0 <= i < entries.len() ==> text::unbroken((#[trigger] entries[i]).message),
    ensures
        ({
            let lines = Seq::new(entries.len(), |i: int| feed_log::entry_line(entries[i]));
            forall|i: int| 0 <= i < lines.len() ==> text::unbroken(#[trigger] lines[i])
        }),
{
    let lines = Seq::new(entries.len(), |i: int| feed_log::entry_line(entries[i]));
    assert forall|i: int| 0 <= i < lines.len() implies text::unbroken(#[trigger] lines[i]) by {
        let entry = entries[i];
        reveal_strlit("\t");
        let id = text::dec(entry.instrument_id as nat);
        text::lemma_unbroken_dec(entry.instrument_id as nat);
        text::lemma_unbroken_concat(id, "\t"@);
        text::lemma_unbroken_dec(entry.seq as nat);
        let numbers = id + "\t"@ + text::dec(entry.seq as nat);
        text::lemma_unbroken_concat(id + "\t"@, text::dec(entry.seq as nat));
        text::lemma_unbroken_concat(numbers, "\t"@);
        text::lemma_unbroken_concat(numbers + "\t"@, entry.message);
    }
}

/// A log that is read from its file is the log that was written: whatever was recorded since the
/// file was begun is replayed as if there had been no restart.
pub proof fn law_log_survives_restart(entries: Seq<EntryView>)
    requires
        forall|i: int| 0 <= i < entries.len() ==> text::unbroken((#[trigger] entries[i]).message),
    ensures
        feed_log::read_lines(feed_log::empty_log(), text::lines(file_text(entries)))
            == feed_log::all_logged(feed_log::empty_log(), entries),
{
    let lines = Seq::new(entries.len(), |i: int| feed_log::entry_line(entries[i]));
    lemma_lines_unbroken(entries);
    text::law_lines_read_back(lines);
    lemma_read_written(feed_log::empty_log(), entries);
}

/// What was written to a log file for a series of commands, each with its instrument and events.
pub open spec fn written(commands: Seq<(InstrumentId, Seq<BookEvent>)>) -> Seq<EntryView>
    decreases commands.len(),
{
    if commands.len() == 0 {
        seq![]
    } else {
        written(commands.drop_last()) + feed_log::entries_of(commands.last().0, commands.last().1)
    }
}

/// The log after a series of commands was recorded.
pub open spec fn recorded(log: LogView, commands: Seq<(InstrumentId, Seq<BookEvent>)>) -> LogView
    decreases commands.len(),
{
    if commands.len() == 0 {
        log
    } else {
        feed_log::all_logged(
            recorded(log, commands.drop_last()),
            feed_log::entries_of(commands.last().0, commands.last().1),
        )
    }
}

proof fn lemma_written_unbroken(commands: Seq<(InstrumentId, Seq<BookEvent>)>)
    ensures
        forall|i: int|
            0 <= i < written(commands).len() ==> text::unbroken((#[trigger] written(commands)[i]).message),
    decreases commands.len(),
{
    if commands.len() > 0 {
        let before = written(commands.drop_last());
        let (id, events) = commands.last();
        let last = feed_log::entries_of(id, events);
        lemma_written_unbroken(commands.drop_last());
        assert forall|i: int| 0 <= i < written(commands).len() implies text::unbroken(
            (#[trigger] written(commands)[i]).message,
        ) by {
            if i < before.len() {
                assert(written(commands)[i] == before[i]);
            } else {
                assert(written(commands)[i] == last[i - before.len()]);
                law_message_is_one_line(id, rebuild::public_events(events)[i - before.len()]);
            }
        }
    }
}

proof fn lemma_recorded(log: LogView, commands: Seq<(InstrumentId, Seq<BookEvent>)>)
    ensures
        recorded(log, commands) == feed_log::all_logged(log, written(commands)),
    decreases commands.len(),
{
    if commands.len() > 0 {
        lemma_recorded(log, commands.drop_last());
        law_recording_continues(
            log,
            written(commands.drop_last()),
            feed_log::entries_of(commands.last().0, commands.last().1),
        );
    }
}

/// Whatever commands were recorded and written to a fresh file, the log that is read from the file
/// after a restart is the log before the restart.
pub proof fn law_recorded_commands_survive_restart(commands: Seq<(InstrumentId, Seq<BookEvent>)>)
    ensures
        feed_log::read_lines(feed_log::empty_log(), text::lines(file_text(written(commands)))) == recorded(
            feed_log::empty_log(),
            commands,
        ),
{
    lemma_written_unbroken(commands);
    lemma_recorded(feed_log::empty_log(), commands);
    law_log_survives_restart(written(commands));
}

/// A log file of whole lines to which entries are appended is read as the log that the file held,
/// with the entries behind it.
pub proof fn law_appended_entries_come_after_the_file(file: Seq<char>, entries: Seq<EntryView>)
    requires
        file.len() > 0 ==> file.last() == '\n',
        forall|i: int| 0 <= i < entries.len() ==> text::unbroken((#[trigger] entries[i]).message),
    ensures
        feed_log::read_lines(feed_log::empty_log(), text::lines(file + file_text(entries)))
            == feed_log::all_logged(
            feed_log::read_lines(feed_log::empty_log(), text::lines(file)),
            entries,
        ),
{
    let lines = Seq::new(entries.len(), |i: int| feed_log::entry_line(entries[i]));
    let before = feed_log::read_lines(feed_log::empty_log(), text::lines(file));
    lemma_lines_unbroken(entries);
    text::law_lines_read_back(lines);
    text::lemma_lines_concat(file, file_text(entries));
    lemma_read_concat(feed_log::empty_log(), text::lines(file), lines);
    lemma_read_written(before, entries);
}

proof fn lemma_read_concat(log: LogView, a: Seq<Seq<char>>, b: Seq<Seq<char>>)
    ensures
        feed_log::read_lines(log, a + b) == feed_log::read_lines(feed_log::read_lines(log, a), b),
    decreases b.len(),
{
    if b.len() == 0 {
        assert(a + b =~= a);
    } else {
        lemma_read_concat(log, a, b.drop_last());
        assert((a + b).drop_last() =~= a + b.drop_last());
    }
}

/// Recording events in two goes is recording them in one.
pub proof fn law_recording_continues(log: LogView, a: Seq<EntryView>, b: Seq<EntryView>)
    ensures
        feed_log::all_logged(feed_log::all_logged(log, a), b) == feed_log::all_logged(log, a + b),
    decreases b.len(),
{
    if b.len() == 0 {
        assert(a + b =~= a);
    } else {
        law_recording_continues(log, a, b.drop_last());
        assert((a + b).drop_last() =~= a + b.drop_last());
    }
}

/// Recorded events stand behind the earlier ones of their instrument, and in no other's log.
pub proof fn law_recorded_events_come_last(log: LogView, instrument_id: InstrumentId, events: Seq<BookEvent>)
    ensures
        ({
            let after = feed_log::all_logged(log, feed_log::entries_of(instrument_id, events));
            &&& after[instrument_id] == log[instrument_id] + feed_log::entries_of(instrument_id, events)
            &&& forall|id: InstrumentId| id != instrument_id ==> #[trigger] after[id] == log[id]
        }),
{
    lemma_all_logged(log, instrument_id, feed_log::entries_of(instrument_id, events));
}

proof fn lemma_all_logged(log: LogView, instrument_id: InstrumentId, entries: Seq<EntryView>)
    requires
        forall|i: int| 0 <= i < entries.len() ==> (#[trigger] entries[i]).instrument_id == instrument_id,
    ensures
        feed_log::all_logged(log, entries)[instrument_id] == log[instrument_id] + entries,
        forall|id: InstrumentId|
            id != instrument_id ==> #[trigger] feed_log::all_logged(log, entries)[id] == log[id],
    decreases entries.len(),
{
    if entries.len() == 0 {
        assert(log[instrument_id] + entries =~= log[instrument_id]);
    } else {
        let rest = entries.drop_last();
        assert forall|i: int| 0 <= i < rest.len() implies (#[trigger] rest[i]).instrument_id
            == instrument_id by {
            assert(entries[i].instrument_id == instrument_id);
        }
        lemma_all_logged(log, instrument_id, rest);
        assert(entries[entries.len() - 1].instrument_id == instrument_id);
        assert(log[instrument_id] + entries =~= (log[instrument_id] + rest).push(entries.last()));
    }
}

/// A client that has everything up to `after_seq` gets exactly what it misses: where the log holds
/// nothing later and the new events are all later, a replay gives the new public events.
pub proof fn law_replay_gives_what_is_missing(
    log: LogView,
    instrument_id: InstrumentId,
    events: Seq<BookEvent>,
    after_seq: u64,
)
    requires
        forall|i: int| 0 <= i < log[instrument_id].len() ==> (#[trigger] log[instrument_id][i]).seq <= after_seq,
        forall|i: int| 0 <= i < events.len() ==> (#[trigger] events[i]).number() > after_seq,
    ensures
        feed_log::entries_after(
            feed_log::all_logged(log, feed_log::entries_of(instrument_id, events)),
            instrument_id,
            after_seq,
        ) == feed_log::entries_of(instrument_id, events),
{
    let entries = feed_log::entries_of(instrument_id, events);
    let later = |e: EntryView| e.seq > after_seq;
    law_recorded_events_come_last(log, instrument_id, events);
    model::lemma_those_concat(log[instrument_id], entries, later);
    model::lemma_those_none(log[instrument_id], later);
    assert forall|i: int| 0 <= i < entries.len() implies later(#[trigger] entries[i]) by {
        lemma_those_member(events, |e: BookEvent| e.is_public(), i);
        let j = choose|j: int| 0 <= j < events.len() && #[trigger] events[j] == rebuild::public_events(events)[i];
        assert(events[j].number() > after_seq);
    }
    model::lemma_those_all(entries, later);
    assert(Seq::<EntryView>::empty() + entries =~= entries);
}

proof fn lemma_those_member(events: Seq<BookEvent>, p: spec_fn(BookEvent) -> bool, i: int)
    requires
        0 <= i < model::those(events, p).len(),
    ensures
        exists|j: int| 0 <= j < events.len() && #[trigger] events[j] == model::those(events, p)[i],
    decreases events.len(),
{
    let rest = events.drop_last();
    let kept = model::those(rest, p);
    if i < kept.len() {
        lemma_those_member(rest, p, i);
        let j = choose|j: int| 0 <= j < rest.len() && #[trigger] rest[j] == kept[i];
        assert(events[j] == model::those(events, p)[i]);
    } else {
        assert(events[events.len() - 1] == model::those(events, p)[i]);
    }
}

/// A line of a log file is an entry if and only if it is two numbers and a message with tabs between
/// them; the message may hold further tabs.
pub proof fn law_log_line_is_read_by_its_tabs(a: Seq<char>, b: Seq<char>, message: Seq<char>)
    requires
        forall|i: int| 0 <= i < a.len() ==> #[trigger] a[i] != '\t',
        forall|i: int| 0 <= i < b.len() ==> #[trigger] b[i] != '\t',
    ensures
        ({
            let id = text::parsed(a, 0xffff_ffff);
            let seq = text::parsed(b, 0xffff_ffff_ffff_ffff);
            feed_log::read_entry(a + seq!['\t'] + b + seq!['\t'] + message) == (if id is Some && seq is Some {
                Some(EntryView { instrument_id: id->0 as u32, seq: seq->0 as u64, message })
            } else {
                None
            })
        }),
        feed_log::read_entry(a) is None,
        feed_log::read_entry(a + seq!['\t'] + b) is None,
{
    let tail = b + seq!['\t'] + message;
    let line = a + seq!['\t'] + b + seq!['\t'] + message;
    assert(line =~= a + (seq!['\t'] + tail));
    text::lemma_upto_concat(a, seq!['\t'] + tail, '\t');
    assert(line.take(a.len() as int) =~= a);
    assert(line.skip(a.len() as int + 1) =~= tail);
    assert(tail =~= b + (seq!['\t'] + message));
    text::lemma_upto_concat(b, seq!['\t'] + message, '\t');
    assert(tail.take(b.len() as int) =~= b);
    assert(tail.skip(b.len() as int + 1) =~= message);
    text::lemma_upto(a, '\t');
    if text::upto(a, '\t') < a.len() {
        assert(a[text::upto(a, '\t') as int] != '\t');
    }
    let short = a + seq!['\t'] + b;
    assert(short =~= a + (seq!['\t'] + b));
    text::lemma_upto_concat(a, seq!['\t'] + b, '\t');
    assert(short.skip(a.len() as int + 1) =~= b);
    text::lemma_upto(b, '\t');
    if text::upto(b, '\t') < b.len() {
        assert(b[text::upto(b, '\t') as int] != '\t');
    }
}

/// A log file is read line by line: an entry goes to the end of its instrument's log, and a line that
/// is no entry is passed over.
pub proof fn law_log_file_is_read_line_by_line(log: LogView, lines: Seq<Seq<char>>, line: Seq<char>, id: InstrumentId)
    ensures
        feed_log::read_lines(log, seq![]) == log,
        ({
            let before = feed_log::read_lines(log, lines);
            let after = feed_log::read_lines(log, lines.push(line));
            match feed_log::read_entry(line) {
                Some(entry) => after[id] == (if entry.instrument_id == id {
                    before[id].push(entry)
                } else {
                    before[id]
                }),
                None => after == before,
            }
        }),
{
    assert(lines.push(line).drop_last() =~= lines);
}

} // verus!
