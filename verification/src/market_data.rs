//! The market-data gateway: snapshots, subscriptions and the distribution of public events.
use vstd::prelude::*;

use crate::events;
use crate::feed_log;
use crate::model;
use crate::protocol;
use crate::rebuild;
use crate::text;
use crate::types::{BookEvent, InstrumentId};
use crate::venue::Venue;
use crate::venue_model::VenueView;

verus! {

/// How many messages may wait for a subscriber before it is dropped.
pub const FEED_CLIENT_QUEUE_CAPACITY: usize = 1024;

/// What happens to a feed connection after a line.
#[derive(Debug, Clone, Copy, PartialEq, Eq, Structural)]
pub enum FeedState {
    /// It waits for the next line.
    Open,
    /// It ends.
    Closed,
    /// It receives the public events of an instrument from now on.
    Streaming { instrument_id: InstrumentId },
}

/// The answer to a line of a feed connection.
pub struct FeedStep {
    pub lines: Vec<String>,
    pub state: FeedState,
}

/// The answer to a line as contracts speak of it.
pub struct FeedStepView {
    pub lines: Seq<Seq<char>>,
    pub state: FeedState,
}

impl View for FeedStep {
    type V = FeedStepView;

    open spec fn view(&self) -> FeedStepView {
        FeedStepView { lines: text::texts(self.lines@), state: self.state }
    }
}

/// The line with which the gateway greets a client.
pub fn hello() -> (line: &'static str)
    ensures
        line@ == "ok hello protocol=exch-market-data commands=subscribe,help"@,
{
    "ok hello protocol=exch-market-data commands=subscribe,help"
}

/// An answer of one line.
pub fn answer(line: &str, state: FeedState) -> (step: FeedStep)
    ensures
        step@ == (FeedStepView { lines: seq![line@], state }),
{
    let mut lines: Vec<String> = Vec::new();
    lines.push(line.to_owned());
    let step = FeedStep { lines, state };
    assert(step@.lines =~= seq![line@]);
    step
}

/// The answer to a subscription.
pub open spec fn subscribed(venue: VenueView, instrument: Seq<char>, depth: Option<Seq<char>>) -> FeedStepView {
    let id = protocol::instrument_number(instrument);
    let levels = protocol::depth_or_default(venue.config, depth);
    if id is None {
        FeedStepView { lines: seq!["error invalid-instrument-id"@], state: FeedState::Closed }
    } else if levels is None {
        FeedStepView { lines: seq!["error invalid-depth"@], state: FeedState::Closed }
    } else if !venue.lists(id->0 as u32) {
        FeedStepView { lines: seq!["error unknown-instrument"@], state: FeedState::Closed }
    } else {
        FeedStepView {
            lines: seq![
                "ok subscribed instrument="@ + text::dec(id->0) + " depth="@ + text::dec(levels->0),
                "snapshot instrument="@ + text::dec(id->0) + " "@ + protocol::book_text(
                    venue.book(id->0 as u32),
                    levels->0,
                ),
            ],
            state: FeedState::Streaming { instrument_id: id->0 as u32 },
        }
    }
}

pub open spec fn opt_view(word: Option<&str>) -> Option<Seq<char>> {
    match word {
        Some(word) => Some(word@),
        None => None,
    }
}

/// Whether the levels that a subscription starts with can be shown.
pub open spec fn subscription_fits(venue: VenueView, instrument: Seq<char>, depth: Option<Seq<char>>) -> bool {
    protocol::levels_shown_fit(
        venue,
        protocol::instrument_number(instrument),
        protocol::depth_or_default(venue.config, depth),
    )
}

/// Whether the levels that the words of a line on the feed ask for can be shown.
pub open spec fn feed_fits(venue: VenueView, w: Seq<Seq<char>>) -> bool {
    &&& w.len() == 2 && w[0] == "subscribe"@ ==> subscription_fits(venue, w[1], None)
    &&& w.len() == 3 && w[0] == "subscribe"@ ==> subscription_fits(venue, w[1], Some(w[2]))
}

/// Tells whether all levels of the book that a line on the feed subscribes to can be shown.
pub fn is_safe_to_subscribe(line: &str, venue: &Venue) -> (result: bool)
    requires
        venue.wf(),
    ensures
        result == protocol::named_book_fits(venue@, text::words(line@), "subscribe"@),
        result ==> feed_fits(venue@, text::words(line@)),
{
    let result: bool = protocol::can_show(line, "subscribe", venue);
    proof {
        let w = text::words(line@);
        if result && w.len() >= 2 && w[0] == "subscribe"@ {
            let config = venue@.config;
            protocol::lemma_named_book_fits(
                venue@,
                w,
                "subscribe"@,
                protocol::depth_or_default(config, None),
            );
            protocol::lemma_named_book_fits(
                venue@,
                w,
                "subscribe"@,
                protocol::depth_or_default(config, Some(w[2])),
            );
        }
    }
    result
}

/// A ready venue can answer every line on the feed.
pub proof fn law_ready_venue_answers_every_feed_line(venue: VenueView, w: Seq<Seq<char>>)
    requires
        venue.ready(),
    ensures
        feed_fits(venue, w),
{
    if w.len() == 2 || w.len() == 3 {
        let id = protocol::instrument_number(w[1]);
        protocol::lemma_ready_shows(venue, id, protocol::depth_or_default(venue.config, None));
        protocol::lemma_ready_shows(venue, id, protocol::depth_or_default(venue.config, Some(w[2])));
    }
}

/// Answers a subscription: with an error, or with a snapshot from which the stream of events goes
/// on.
pub fn subscribe_feed(instrument_id: &str, depth: Option<&str>, venue: &Venue) -> (step: FeedStep)
    requires
        venue.wf(),
        subscription_fits(venue@, instrument_id@, opt_view(depth)),
    ensures
        step@ == subscribed(venue@, instrument_id@, opt_view(depth)),
{
    let instrument_id: InstrumentId = match protocol::parse_instrument(instrument_id) {
        Some(id) => id,
        None => {
            return answer("error invalid-instrument-id", FeedState::Closed);
        },
    };
    let depth: usize = match depth {
        Some(depth) => match protocol::parse_depth(depth) {
            Some(depth) => depth,
            None => {
                return answer("error invalid-depth", FeedState::Closed);
            },
        },
        None => venue.config().default_snapshot_depth,
    };
    let snapshot = match venue.snapshot(instrument_id, depth) {
        Ok(snapshot) => snapshot,
        Err(_) => {
            return answer("error unknown-instrument", FeedState::Closed);
        },
    };
    let mut first = "ok subscribed instrument=".to_owned();
    text::append_decimal(&mut first, instrument_id as u128);
    first.append(" depth=");
    text::append_decimal(&mut first, depth as u128);
    let mut second = "snapshot instrument=".to_owned();
    text::append_decimal(&mut second, instrument_id as u128);
    second.append(" ");
    second.append(protocol::snapshot_text(&snapshot).as_str());
    let ghost a = first@;
    let ghost b = second@;
    let mut lines: Vec<String> = Vec::new();
    lines.push(first);
    lines.push(second);
    let step = FeedStep { lines, state: FeedState::Streaming { instrument_id } };
    assert(step@.lines =~= seq![a, b]);
    step
}

/// The answer to the words of a line on the feed.
pub open spec fn feed_answer(venue: VenueView, w: Seq<Seq<char>>) -> FeedStepView {
    if w.len() == 1 && w[0] == "help"@ {
        FeedStepView { lines: seq!["ok help subscribe <instrument_id> [depth]"@], state: FeedState::Open }
    } else if w.len() == 2 && w[0] == "subscribe"@ {
        subscribed(venue, w[1], None)
    } else if w.len() == 3 && w[0] == "subscribe"@ {
        subscribed(venue, w[1], Some(w[2]))
    } else {
        FeedStepView {
            lines: seq!["error usage subscribe <instrument_id> [depth]"@],
            state: FeedState::Open,
        }
    }
}

/// Answers a line on the feed.
pub fn handle_feed_command(line: &str, venue: &Venue) -> (step: FeedStep)
    requires
        venue.wf(),
        feed_fits(venue@, text::words(line@)),
    ensures
        step@ == feed_answer(venue@, text::words(line@)),
{
    let w = text::split_words(line);
    let ghost words = text::texts(w@);
    let n: usize = w.len();
    assert(forall|i: int| 0 <= i < n ==> #[trigger] words[i] == w@[i]@);
    if n == 1 && text::same(w[0].as_str(), "help") {
        answer("ok help subscribe <instrument_id> [depth]", FeedState::Open)
    } else if n == 2 && text::same(w[0].as_str(), "subscribe") {
        subscribe_feed(w[1].as_str(), None, venue)
    } else if n == 3 && text::same(w[0].as_str(), "subscribe") {
        subscribe_feed(w[1].as_str(), Some(w[2].as_str()), venue)
    } else {
        answer("error usage subscribe <instrument_id> [depth]", FeedState::Open)
    }
}

/// A client that receives the public events of an instrument. The token tells it from all others.
#[derive(Debug, Clone, Copy, PartialEq, Eq)]
pub struct FeedSubscriber {
    pub token: u64,
    pub instrument_id: InstrumentId,
}

/// The messages of some events, and the tokens of the subscribers who are to get them.
pub struct Publication {
    pub messages: Vec<String>,
    pub recipients: Vec<u64>,
}

/// The messages of the public ones among `events`.
pub open spec fn messages_of(instrument_id: InstrumentId, events: Seq<BookEvent>) -> Seq<Seq<char>> {
    let public = rebuild::public_events(events);
    Seq::new(public.len(), |i: int| feed_log::message_text(instrument_id, public[i]))
}

/// The messages of the public ones among `events`.
pub fn public_messages(instrument_id: InstrumentId, events: &Vec<BookEvent>) -> (messages: Vec<String>)
    ensures
        text::texts(messages@) == messages_of(instrument_id, events@),
{
    let n: usize = events.len();
    let mut messages: Vec<String> = Vec::new();
    let mut i: usize = 0;
    assert(text::texts(messages@) =~= messages_of(instrument_id, events@.take(0)));
    while i < n
        invariant
            i <= n,
            n == events@.len(),
            text::texts(messages@) == messages_of(instrument_id, events@.take(i as int)),
        decreases n - i,
    {
        let event = &events[i];
        let ghost before = messages@;
        proof {
            assert(events@.take(i + 1).drop_last() =~= events@.take(i as int));
            assert(events@.take(i + 1).last() == *event);
        }
        if events::is_public_event(event) {
            messages.push(feed_log::message_of(instrument_id, event));
            assert(text::texts(messages@) =~= text::texts(before).push(
                feed_log::message_text(instrument_id, *event),
            ));
        }
        i = i + 1;
        assert(text::texts(messages@) =~= messages_of(instrument_id, events@.take(i as int)));
    }
    assert(events@.take(n as int) =~= events@);
    messages
}

pub open spec fn follows(instrument_id: InstrumentId) -> spec_fn(FeedSubscriber) -> bool {
    |s: FeedSubscriber| s.instrument_id == instrument_id
}

pub open spec fn not_among(failed: Seq<u64>) -> spec_fn(FeedSubscriber) -> bool {
    |s: FeedSubscriber| !failed.contains(s.token)
}

pub open spec fn tokens(subscribers: Seq<FeedSubscriber>) -> Seq<u64> {
    Seq::new(subscribers.len(), |i: int| subscribers[i].token)
}

/// The subscribers of a feed, in the order in which they came.
#[derive(Debug)]
pub struct FeedRegistry {
    next: u64,
    subscribers: Vec<FeedSubscriber>,
}

impl View for FeedRegistry {
    type V = Seq<FeedSubscriber>;

    closed spec fn view(&self) -> Seq<FeedSubscriber> {
        self.subscribers@
    }
}

impl FeedRegistry {
    /// The token that the next subscriber gets.
    pub closed spec fn next_token(self) -> u64 {
        self.next
    }

    /// Every token was given out once.
    pub open spec fn wf(self) -> bool {
        &&& forall|i: int| 0 <= i < self@.len() ==> (#[trigger] self@[i]).token < self.next_token()
        &&& forall|i: int, j: int|
            0 <= i < j < self@.len() ==> (#[trigger] self@[i]).token < (#[trigger] self@[j]).token
    }

    pub fn new() -> (registry: Self)
        ensures
            registry.wf(),
            registry@ == Seq::<FeedSubscriber>::empty(),
            registry.next_token() == 0,
    {
        FeedRegistry { next: 0, subscribers: Vec::new() }
    }

    /// Adds a subscriber and returns its token; `None` when all tokens are used up.
    pub fn subscribe(&mut self, instrument_id: InstrumentId) -> (token: Option<u64>)
        requires
            old(self).wf(),
        ensures
            final(self).wf(),
            match token {
                Some(token) => {
                    &&& token == old(self).next_token()
                    &&& old(self).next_token() < u64::MAX
                    &&& final(self).next_token() == token + 1
                    &&& final(self)@ == old(self)@.push(FeedSubscriber { token, instrument_id })
                },
                None => {
                    &&& old(self).next_token() == u64::MAX
                    &&& *final(self) == *old(self)
                },
            },
    {
        if self.next == u64::MAX {
            return None;
        }
        let ghost before = self@;
        let token: u64 = self.next;
        self.subscribers.push(FeedSubscriber { token, instrument_id });
        self.next = token + 1;
        proof {
            let now = self@;
            assert(forall|i: int| 0 <= i < before.len() ==> #[trigger] now[i] == before[i]);
        }
        Some(token)
    }

    /// The messages of the public ones among `events`, and who is to get them: every subscriber of
    /// the instrument, where there is a message at all.
    pub fn publish(&self, instrument_id: InstrumentId, events: &Vec<BookEvent>) -> (publication: Publication)
        ensures
            text::texts(publication.messages@) == messages_of(instrument_id, events@),
            publication.recipients@ == (if messages_of(instrument_id, events@).len() == 0 {
                seq![]
            } else {
                tokens(model::those(self@, follows(instrument_id)))
            }),
    {
        let messages = public_messages(instrument_id, events);
        let mut recipients: Vec<u64> = Vec::new();
        assert(text::texts(messages@).len() == messages@.len());
        if messages.len() == 0 {
            assert(recipients@ =~= seq![]);
            return Publication { messages, recipients };
        }
        let ghost all = self@;
        let n: usize = self.subscribers.len();
        let mut i: usize = 0;
        assert(recipients@ =~= tokens(model::those(all.take(0), follows(instrument_id))));
        while i < n
            invariant
                i <= n,
                n == self.subscribers@.len(),
                all == self.subscribers@,
                recipients@ == tokens(model::those(all.take(i as int), follows(instrument_id))),
            decreases n - i,
        {
            proof {
                assert(all.take(i + 1).drop_last() =~= all.take(i as int));
                assert(all.take(i + 1).last() == all[i as int]);
            }
            if self.subscribers[i].instrument_id == instrument_id {
                recipients.push(self.subscribers[i].token);
            }
            i = i + 1;
            assert(recipients@ =~= tokens(model::those(all.take(i as int), follows(instrument_id))));
        }
        assert(all.take(n as int) =~= all);
        Publication { messages, recipients }
    }

    /// Drops the subscribers to whom a message could not be delivered.
    pub fn drop_failed(&mut self, failed: &Vec<u64>)
        requires
            old(self).wf(),
        ensures
            final(self).wf(),
            final(self)@ == model::those(old(self)@, not_among(failed@)),
            final(self).next_token() == old(self).next_token(),
    {
        let ghost all = self@;
        let ghost next = self.next;
        let n: usize = self.subscribers.len();
        let mut kept: Vec<FeedSubscriber> = Vec::new();
        let mut i: usize = 0;
        assert(kept@ =~= model::those(all.take(0), not_among(failed@)));
        while i < n
            invariant
                i <= n,
                n == self.subscribers@.len(),
                all == self.subscribers@,
                self.next == next,
                kept@ == model::those(all.take(i as int), not_among(failed@)),
                forall|k: int| 0 <= k < all.len() ==> (#[trigger] all[k]).token < next,
                forall|k: int, l: int|
                    0 <= k < l < all.len() ==> (#[trigger] all[k]).token < (#[trigger] all[l]).token,
                forall|k: int|
                    0 <= k < kept@.len() ==> (#[trigger] kept@[k]).token < next && (i < n ==> kept@[k].token
                        < all[i as int].token),
                forall|k: int, l: int|
                    0 <= k < l < kept@.len() ==> (#[trigger] kept@[k]).token < (#[trigger] kept@[l]).token,
            decreases n - i,
        {
            proof {
                assert(all.take(i + 1).drop_last() =~= all.take(i as int));
                assert(all.take(i + 1).last() == all[i as int]);
                if i + 1 < n {
                    assert(all[i as int].token < all[i + 1].token);
                }
            }
            if !contains(failed, self.subscribers[i].token) {
                kept.push(self.subscribers[i]);
            }
            i = i + 1;
        }
        assert(all.take(n as int) =~= all);
        self.subscribers = kept;
    }
}

fn contains(list: &Vec<u64>, token: u64) -> (result: bool)
    ensures
        result == list@.contains(token),
{
    let n: usize = list.len();
    let mut i: usize = 0;
    while i < n
        invariant
            i <= n,
            n == list@.len(),
            forall|j: int| 0 <= j < i ==> #[trigger] list@[j] != token,
        decreases n - i,
    {
        if list[i] == token {
            assert(list@[i as int] == token);
            return true;
        }
        i = i + 1;
    }
    false
}

/// Dropping the subscribers of one instrument to whom nothing could be delivered leaves everyone
/// else: the subscribers of other instruments, and those who got everything.
pub proof fn law_others_stay_subscribed(
    subscribers: Seq<FeedSubscriber>,
    instrument_id: InstrumentId,
    failed: Seq<u64>,
    other: FeedSubscriber,
)
    requires
        forall|i: int, j: int|
            0 <= i < j < subscribers.len() ==> (#[trigger] subscribers[i]).token < (
            #[trigger] subscribers[j]).token,
        forall|i: int|
            0 <= i < failed.len() ==> tokens(model::those(subscribers, follows(instrument_id))).contains(
                #[trigger] failed[i],
            ),
        subscribers.contains(other),
        other.instrument_id != instrument_id || !failed.contains(other.token),
    ensures
        model::those(subscribers, not_among(failed)).contains(other),
{
    if failed.contains(other.token) {
        let i = choose|i: int| 0 <= i < failed.len() && failed[i] == other.token;
        let followers = model::those(subscribers, follows(instrument_id));
        assert(tokens(followers).contains(failed[i]));
        let k = choose|k: int| 0 <= k < tokens(followers).len() && tokens(followers)[k] == failed[i];
        lemma_chosen(subscribers, follows(instrument_id), k);
        let a = choose|a: int| 0 <= a < subscribers.len() && #[trigger] subscribers[a] == followers[k];
        let b = choose|b: int| 0 <= b < subscribers.len() && subscribers[b] == other;
        if a < b {
            assert(subscribers[a].token < subscribers[b].token);
        } else if b < a {
            assert(subscribers[b].token < subscribers[a].token);
        }
        assert(follows(instrument_id)(followers[k]));
    }
    let b = choose|b: int| 0 <= b < subscribers.len() && subscribers[b] == other;
    lemma_kept(subscribers, not_among(failed), b);
}

proof fn lemma_chosen(s: Seq<FeedSubscriber>, p: spec_fn(FeedSubscriber) -> bool, k: int)
    requires
        0 <= k < model::those(s, p).len(),
    ensures
        exists|a: int| 0 <= a < s.len() && #[trigger] s[a] == model::those(s, p)[k],
        p(model::those(s, p)[k]),
    decreases s.len(),
{
    let rest = s.drop_last();
    let below = model::those(rest, p);
    if k < below.len() {
        lemma_chosen(rest, p, k);
        let a = choose|a: int| 0 <= a < rest.len() && #[trigger] rest[a] == below[k];
        assert(s[a] == model::those(s, p)[k]);
    } else {
        assert(s[s.len() - 1] == model::those(s, p)[k]);
    }
}

proof fn lemma_kept(s: Seq<FeedSubscriber>, p: spec_fn(FeedSubscriber) -> bool, b: int)
    requires
        0 <= b < s.len(),
        p(s[b]),
    ensures
        model::those(s, p).contains(s[b]),
    decreases s.len(),
{
    let all = model::those(s, p);
    if b == s.len() - 1 {
        assert(all[all.len() - 1] == s[b]);
    } else {
        let rest = s.drop_last();
        let below = model::those(rest, p);
        lemma_kept(rest, p, b);
        let k = choose|k: int| 0 <= k < below.len() && below[k] == rest[b];
        assert(all[k] == s[b]);
    }
}

} // verus!
