//! Sessions over a message connection: authenticated order entry, and a feed with replay.
use vstd::prelude::*;

use crate::feed_log;
use crate::market_data;
use crate::market_data::{FeedState, FeedStep, FeedStepView};
use crate::order_entry;
use crate::protocol;
use crate::protocol::{Request, RequestView};
use crate::rate_limit::RateLimit;
use crate::runtime::{Command, ExchangeRuntime, RuntimeCommandResult, RuntimeError, RuntimeView};
use crate::text;
use crate::types::{AccountId, InstrumentId, NewOrder, OrderId, Price};
use crate::venue::Venue;
use crate::venue_model::VenueView;

verus! {

/// A message that came over a connection.
#[derive(Debug)]
pub enum Incoming {
    Close,
    Text { line: String },
    Other,
}

/// An API key and the account that it stands for.
#[derive(Debug)]
pub struct ApiKey {
    pub key: String,
    pub account_id: AccountId,
}

/// A key as contracts speak of it.
pub struct KeyView {
    pub key: Seq<char>,
    pub account_id: AccountId,
}

impl View for ApiKey {
    type V = KeyView;

    open spec fn view(&self) -> KeyView {
        KeyView { key: self.key@, account_id: self.account_id }
    }
}

/// What a line of a key file says: a key, an account, and a label that means nothing here.
pub open spec fn read_key(line: Seq<char>) -> Option<KeyView> {
    let w = text::words(line);
    if w.len() >= 2 && protocol::number(w[1]) is Some {
        Some(KeyView { key: w[0], account_id: protocol::number(w[1])->0 as u64 })
    } else {
        None
    }
}

/// The keys that `lines` name; other lines are passed over.
pub open spec fn keys_named(lines: Seq<Seq<char>>) -> Seq<KeyView>
    decreases lines.len(),
{
    if lines.len() == 0 {
        seq![]
    } else {
        let before = keys_named(lines.drop_last());
        match read_key(lines.last()) {
            Some(key) => before.push(key),
            None => before,
        }
    }
}

/// The account of the first of `keys` that is `key`.
pub open spec fn account_of(keys: Seq<KeyView>, key: Seq<char>) -> Option<AccountId>
    decreases keys.len(),
{
    if keys.len() == 0 {
        None
    } else if keys[0].key == key {
        Some(keys[0].account_id)
    } else {
        account_of(keys.skip(1), key)
    }
}

/// The API keys that an operator has issued.
#[derive(Debug)]
pub struct ApiKeys {
    keys: Vec<ApiKey>,
}

impl View for ApiKeys {
    type V = Seq<KeyView>;

    closed spec fn view(&self) -> Seq<KeyView> {
        Seq::new(self.keys@.len(), |i: int| self.keys@[i]@)
    }
}

impl ApiKeys {
    /// The keys that the text of a key file names.
    pub fn from_text(source: &str) -> (result: Self)
        ensures
            result@ == keys_named(text::lines(source@)),
    {
        let lines = text::split_lines(source);
        let ghost all = text::texts(lines@);
        let n: usize = lines.len();
        let mut result = ApiKeys { keys: Vec::new() };
        let mut i: usize = 0;
        assert(result@ =~= keys_named(all.take(0)));
        while i < n
            invariant
                i <= n,
                n == lines@.len(),
                all == text::texts(lines@),
                result@ == keys_named(all.take(i as int)),
            decreases n - i,
        {
            proof {
                assert(all.take(i + 1).drop_last() =~= all.take(i as int));
                assert(all.take(i + 1).last() == lines@[i as int]@);
            }
            let w = text::split_words(lines[i].as_str());
            let ghost words = text::texts(w@);
            let ghost before = result@;
            if w.len() >= 2 {
                assert(words[0] == w@[0]@ && words[1] == w@[1]@);
                if let Some(account_id) = protocol::parse_number(w[1].as_str()) {
                    result.keys.push(ApiKey { key: w[0].clone(), account_id });
                    assert(result@ =~= before.push(KeyView { key: words[0], account_id }));
                }
            }
            i = i + 1;
        }
        assert(all.take(n as int) =~= all);
        result
    }

    /// The keys for local development.
    pub fn development() -> (result: Self)
        ensures
            result@ == seq![
                KeyView { key: "dev-key-100"@, account_id: 100 },
                KeyView { key: "dev-key-101"@, account_id: 101 },
            ],
    {
        let mut keys: Vec<ApiKey> = Vec::new();
        keys.push(ApiKey { key: "dev-key-100".to_owned(), account_id: 100 });
        keys.push(ApiKey { key: "dev-key-101".to_owned(), account_id: 101 });
        let result = ApiKeys { keys };
        assert(result@ =~= seq![
            KeyView { key: "dev-key-100"@, account_id: 100 },
            KeyView { key: "dev-key-101"@, account_id: 101 },
        ]);
        result
    }

    /// The account that a key stands for.
    pub fn account(&self, key: &str) -> (account: Option<AccountId>)
        ensures
            account == account_of(self@, key@),
    {
        let n: usize = self.keys.len();
        let mut i: usize = 0;
        assert(self@.skip(0) =~= self@);
        while i < n
            invariant
                i <= n,
                n == self.keys@.len(),
                account_of(self@, key@) == account_of(self@.skip(i as int), key@),
            decreases n - i,
        {
            assert(self@.skip(i as int)[0] == self.keys@[i as int]@);
            assert(self@.skip(i as int).skip(1) =~= self@.skip(i + 1));
            if text::same(self.keys[i].key.as_str(), key) {
                return Some(self.keys[i].account_id);
            }
            i = i + 1;
        }
        None
    }
}

/// The line with which the order session greets a client.
pub fn order_hello() -> (line: &'static str)
    ensures
        line@ == "ok hello protocol=exch-ws-order commands=auth,instruments,book,order,cancel,revenue,help"@,
{
    "ok hello protocol=exch-ws-order commands=auth,instruments,book,order,cancel,revenue,help"
}

/// The line with which the feed session greets a client.
pub fn feed_hello() -> (line: &'static str)
    ensures
        line@ == "ok hello protocol=exch-ws-feed commands=subscribe,replay,help"@,
{
    "ok hello protocol=exch-ws-feed commands=subscribe,replay,help"
}

/// What `order <instrument_id> <order_id> <buy|sell> <price> <quantity>` asks for, in the name of
/// an account.
pub open spec fn order_request(account_id: AccountId, w: Seq<Seq<char>>) -> RequestView {
    let id = protocol::instrument_number(w[1]);
    let order_id = protocol::number(w[2]);
    if w.len() != 6 {
        RequestView::Respond {
            line: "error usage order <instrument_id> <order_id> <buy|sell> <price> <quantity>"@,
        }
    } else if id is None {
        RequestView::Respond { line: "error invalid-instrument-id"@ }
    } else if order_id is None {
        RequestView::Respond { line: "error invalid-order-id"@ }
    } else {
        match protocol::terms_named(w[3], w[4], w[5]) {
            Err(line) => RequestView::Respond { line },
            Ok(terms) => RequestView::Run {
                instrument_id: id->0 as u32,
                command: Command::Submit { order: protocol::order_on(order_id->0, account_id, terms) },
            },
        }
    }
}

/// Reads `order <instrument_id> <order_id> <buy|sell> <price> <quantity>` in the name of an account.
pub fn order(account_id: AccountId, w: &Vec<String>) -> (request: Request)
    ensures
        request@ == order_request(account_id, text::texts(w@)),
{
    let ghost words = text::texts(w@);
    if w.len() != 6 {
        return protocol::respond(
            "error usage order <instrument_id> <order_id> <buy|sell> <price> <quantity>",
        );
    }
    assert(forall|i: int| 0 <= i < 6 ==> #[trigger] words[i] == w@[i]@);
    let instrument_id: InstrumentId = match protocol::parse_instrument(w[1].as_str()) {
        Some(id) => id,
        None => {
            return protocol::respond("error invalid-instrument-id");
        },
    };
    let order_id: OrderId = match protocol::parse_number(w[2].as_str()) {
        Some(id) => id,
        None => {
            return protocol::respond("error invalid-order-id");
        },
    };
    match protocol::parse_terms(w[3].as_str(), w[4].as_str(), w[5].as_str()) {
        Err(line) => protocol::respond(line),
        Ok(terms) => {
            let order = NewOrder {
                order_id,
                account_id,
                side: terms.side,
                price: Price(terms.price),
                quantity: terms.quantity,
            };
            Request::Run { instrument_id, command: Command::Submit { order } }
        },
    }
}

/// What a session is after a line, and what the line asks for.
pub struct SessionRequest {
    pub account: Option<AccountId>,
    pub request: RequestView,
}

/// The answer to `auth <api_key>`.
pub open spec fn auth_request(keys: Seq<KeyView>, account: Option<AccountId>, w: Seq<Seq<char>>) -> SessionRequest {
    if w.len() != 2 {
        SessionRequest { account, request: RequestView::Respond { line: "error usage auth <api_key>"@ } }
    } else {
        match account_of(keys, w[1]) {
            Some(id) => SessionRequest {
                account: Some(id),
                request: RequestView::Respond { line: "ok auth account="@ + text::dec(id as nat) },
            },
            None => SessionRequest {
                account,
                request: RequestView::Respond { line: "error invalid-api-key"@ },
            },
        }
    }
}

/// The answer to `help`.
pub open spec fn help_text() -> Seq<char> {
    "ok help auth <api_key> | instruments | book <instrument_id> [depth] | order <instrument_id> <order_id> <buy|sell> <price> <quantity> | cancel <instrument_id> <order_id> | revenue <asset>"@
}

/// What the words of a line ask for in a session of `account`. Orders and cancellations take an
/// account.
pub open spec fn session_request(
    venue: VenueView,
    keys: Seq<KeyView>,
    account: Option<AccountId>,
    w: Seq<Seq<char>>,
) -> SessionRequest {
    if w.len() > 0 && w[0] == "auth"@ {
        auth_request(keys, account, w)
    } else {
        let request = if w.len() == 0 {
            RequestView::Respond { line: "error empty-command"@ }
        } else if w[0] == "help"@ {
            RequestView::Respond { line: help_text() }
        } else if w[0] == "instruments"@ {
            RequestView::Respond { line: protocol::instruments_text(venue.config) }
        } else if w[0] == "book"@ {
            RequestView::Respond { line: protocol::book_answer(venue, w) }
        } else if w[0] == "revenue"@ {
            RequestView::Respond { line: protocol::revenue_answer(venue, w) }
        } else if w[0] != "order"@ && w[0] != "cancel"@ {
            RequestView::Respond { line: "error unknown-command command="@ + w[0] }
        } else if account is None {
            RequestView::Respond { line: "error auth-required"@ }
        } else if w[0] == "order"@ {
            order_request(account->0, w)
        } else {
            protocol::cancel_request(w)
        };
        SessionRequest { account, request }
    }
}

/// What is to be done about a message.
pub enum SessionStep {
    /// End the session.
    Close,
    /// Answer, and wait for the next message.
    Reply { line: String },
    /// Carry out a command and answer with its outcome.
    Run { instrument_id: InstrumentId, command: Command },
}

/// Whether `step` does what a request asks for.
pub open spec fn does(step: SessionStep, request: RequestView) -> bool {
    match request {
        RequestView::Respond { line } => step matches SessionStep::Reply { line: reply } && reply@ == line,
        RequestView::Run { instrument_id, command } => step == (SessionStep::Run { instrument_id, command }),
    }
}

/// An order-entry session: the account that it was authenticated for, and its rate limit.
#[derive(Debug)]
pub struct OrderSession {
    account: Option<AccountId>,
    rate: RateLimit,
}

impl OrderSession {
    pub closed spec fn wf(self) -> bool {
        self.rate.wf()
    }

    /// The account that the session acts for.
    pub closed spec fn acts_for(self) -> Option<AccountId> {
        self.account
    }

    pub closed spec fn rate_limit(self) -> RateLimit {
        self.rate
    }

    /// A session that begins at `now`, in nanoseconds, and is not authenticated yet.
    pub fn new(now: u128) -> (session: Self)
        ensures
            session.wf(),
            session.acts_for() is None,
            session.rate_limit() == (RateLimit {
                limit: order_entry::ORDER_COMMANDS_PER_SECOND,
                window_started: now,
                used: 0,
            }),
    {
        OrderSession {
            account: None,
            rate: RateLimit::per_second(order_entry::ORDER_COMMANDS_PER_SECOND, now),
        }
    }

    /// The account that the session acts for.
    pub fn account(&self) -> (account: Option<AccountId>)
        ensures
            account == self.acts_for(),
    {
        self.account
    }

    /// Whether a line at `now` would be read.
    pub fn would_read(&self, now: u128) -> (result: bool)
        requires
            self.wf(),
        ensures
            result == self.rate_limit().allows(now),
    {
        self.rate.would_allow(now)
    }

    /// Decides what is to be done about a message that came at `now`. Only lines of text count
    /// against the rate limit, and a line that it does not let through is not read.
    pub fn step(&mut self, incoming: &Incoming, now: u128, keys: &ApiKeys, venue: &Venue) -> (step: SessionStep)
        requires
            old(self).wf(),
            venue.wf(),
            incoming matches Incoming::Text { line } ==> old(self).rate_limit().allows(now)
                ==> protocol::line_fits(venue@, text::words(line@)),
        ensures
            final(self).wf(),
            match incoming {
                Incoming::Close => step is Close && *final(self) == *old(self),
                Incoming::Other => {
                    &&& step matches SessionStep::Reply { line } && line@ == "error text-messages-only"@
                    &&& *final(self) == *old(self)
                },
                Incoming::Text { line } => {
                    let asked = session_request(venue@, keys@, old(self).acts_for(), text::words(line@));
                    &&& final(self).rate_limit() == old(self).rate_limit().after(now)
                    &&& if old(self).rate_limit().allows(now) {
                        &&& does(step, asked.request)
                        &&& final(self).acts_for() == asked.account
                    } else {
                        &&& step matches SessionStep::Reply { line } && line@
                            == "error rate-limit-exceeded"@
                        &&& final(self).acts_for() == old(self).acts_for()
                    }
                },
            },
    {
        match incoming {
            Incoming::Close => SessionStep::Close,
            Incoming::Other => SessionStep::Reply { line: "error text-messages-only".to_owned() },
            Incoming::Text { line } => {
                if !self.rate.allow(now) {
                    return SessionStep::Reply { line: order_entry::rate_limit_exceeded().to_owned() };
                }
                match self.read(line.as_str(), keys, venue) {
                    Request::Respond { line } => SessionStep::Reply { line },
                    Request::Run { instrument_id, command } => SessionStep::Run { instrument_id, command },
                }
            },
        }
    }

    /// Reads a line, and authenticates the session where the line asks for it.
    fn read(&mut self, line: &str, keys: &ApiKeys, venue: &Venue) -> (request: Request)
        requires
            venue.wf(),
            protocol::line_fits(venue@, text::words(line@)),
        ensures
            final(self).rate_limit() == old(self).rate_limit(),
            ({
                let asked = session_request(venue@, keys@, old(self).acts_for(), text::words(line@));
                request@ == asked.request && final(self).acts_for() == asked.account
            }),
    {
        let w = text::split_words(line);
        let ghost words = text::texts(w@);
        if w.len() == 0 {
            return protocol::respond("error empty-command");
        }
        assert(words[0] == w@[0]@);
        let command = w[0].as_str();
        if text::same(command, "auth") {
            if w.len() != 2 {
                return protocol::respond("error usage auth <api_key>");
            }
            assert(words[1] == w@[1]@);
            return match keys.account(w[1].as_str()) {
                Some(id) => {
                    self.account = Some(id);
                    let mut line = "ok auth account=".to_owned();
                    text::append_decimal(&mut line, id as u128);
                    Request::Respond { line }
                },
                None => protocol::respond("error invalid-api-key"),
            };
        }
        if text::same(command, "help") {
            return protocol::respond(
                "ok help auth <api_key> | instruments | book <instrument_id> [depth] | order <instrument_id> <order_id> <buy|sell> <price> <quantity> | cancel <instrument_id> <order_id> | revenue <asset>",
            );
        }
        if text::same(command, "instruments") {
            return Request::Respond { line: protocol::instruments(venue) };
        }
        if text::same(command, "book") {
            return Request::Respond { line: protocol::book(&w, venue) };
        }
        if text::same(command, "revenue") {
            return Request::Respond { line: protocol::revenue(&w, venue) };
        }
        let ordering: bool = text::same(command, "order");
        if !ordering && !text::same(command, "cancel") {
            let mut line = "error unknown-command command=".to_owned();
            line.append(command);
            return Request::Respond { line };
        }
        match self.account {
            None => protocol::respond("error auth-required"),
            Some(account_id) => if ordering {
                order(account_id, &w)
            } else {
                protocol::cancel(&w)
            },
        }
    }
}

/// The answer to a command with this outcome.
pub open spec fn outcome_text(outcome: Result<RuntimeCommandResult, RuntimeError>) -> Seq<char> {
    match outcome {
        Ok(done) => order_entry::events_answer(done.book_events@),
        Err(RuntimeError::Venue(_)) => "error unknown-instrument"@,
        Err(RuntimeError::FeedLog(_)) => "error feed-log-unavailable"@,
    }
}

/// The answer to a command with this outcome.
pub fn answer_outcome(outcome: &Result<RuntimeCommandResult, RuntimeError>) -> (line: String)
    ensures
        line@ == outcome_text(*outcome),
{
    match outcome {
        Ok(done) => order_entry::answer_events(&done.book_events),
        Err(RuntimeError::Venue(_)) => "error unknown-instrument".to_owned(),
        Err(RuntimeError::FeedLog(_)) => "error feed-log-unavailable".to_owned(),
    }
}

/// The answer to `replay <instrument_id> <after_seq>`: how many events there are after the sequence
/// number, and then each of them.
pub open spec fn replay_answer(exchange: RuntimeView, instrument: Seq<char>, after: Seq<char>) -> FeedStepView {
    let id = protocol::instrument_number(instrument);
    let seq = protocol::number(after);
    if id is None {
        FeedStepView { lines: seq!["error invalid-instrument-id"@], state: FeedState::Open }
    } else if seq is None {
        FeedStepView { lines: seq!["error invalid-seq"@], state: FeedState::Open }
    } else if !exchange.venue.lists(id->0 as u32) {
        FeedStepView { lines: seq!["error unknown-instrument"@], state: FeedState::Open }
    } else {
        let entries = feed_log::entries_after(exchange.log, id->0 as u32, seq->0 as u64);
        FeedStepView {
            lines: seq![
                "ok replay instrument="@ + text::dec(id->0) + " after_seq="@ + text::dec(seq->0) + " events="@
                    + text::dec(entries.len()),
            ] + Seq::new(entries.len(), |i: int| entries[i].message),
            state: FeedState::Open,
        }
    }
}

/// Answers `replay <instrument_id> <after_seq>`.
pub fn replay(instrument: &str, after: &str, exchange: &ExchangeRuntime) -> (step: FeedStep)
    requires
        exchange.wf(),
    ensures
        step@ == replay_answer(exchange@, instrument@, after@),
{
    let instrument_id: InstrumentId = match protocol::parse_instrument(instrument) {
        Some(id) => id,
        None => {
            return market_data::answer("error invalid-instrument-id", FeedState::Open);
        },
    };
    let after_seq: u64 = match protocol::parse_number(after) {
        Some(seq) => seq,
        None => {
            return market_data::answer("error invalid-seq", FeedState::Open);
        },
    };
    if !exchange.venue().lists(instrument_id) {
        return market_data::answer("error unknown-instrument", FeedState::Open);
    }
    let entries = exchange.replay(instrument_id, after_seq);
    let ghost views = feed_log::entry_views(entries@);
    assert(views.len() == entries@.len());
    let n: usize = entries.len();
    let mut first = "ok replay instrument=".to_owned();
    text::append_decimal(&mut first, instrument_id as u128);
    first.append(" after_seq=");
    text::append_decimal(&mut first, after_seq as u128);
    first.append(" events=");
    text::append_decimal(&mut first, n as u128);
    let ghost head = first@;
    let mut lines: Vec<String> = Vec::new();
    lines.push(first);
    let mut i: usize = 0;
    assert(text::texts(lines@) =~= seq![head] + Seq::new(0, |j: int| views[j].message));
    while i < n
        invariant
            i <= n,
            n == entries@.len(),
            views == feed_log::entry_views(entries@),
            text::texts(lines@) == seq![head] + Seq::new(i as nat, |j: int| views[j].message),
        decreases n - i,
    {
        let ghost before = lines@;
        lines.push(entries[i].message.clone());
        i = i + 1;
        assert(text::texts(lines@) =~= text::texts(before).push(views[i - 1].message));
        assert(text::texts(lines@) =~= seq![head] + Seq::new(i as nat, |j: int| views[j].message));
    }
    FeedStep { lines, state: FeedState::Open }
}

/// The answer to the words of a line in a feed session.
pub open spec fn feed_answer(exchange: RuntimeView, w: Seq<Seq<char>>) -> FeedStepView {
    if w.len() == 1 && w[0] == "help"@ {
        FeedStepView {
            lines: seq!["ok help subscribe <instrument_id> [depth] | replay <instrument_id> <after_seq>"@],
            state: FeedState::Open,
        }
    } else if w.len() == 2 && w[0] == "subscribe"@ {
        market_data::subscribed(exchange.venue, w[1], None)
    } else if w.len() == 3 && w[0] == "subscribe"@ {
        market_data::subscribed(exchange.venue, w[1], Some(w[2]))
    } else if w.len() == 3 && w[0] == "replay"@ {
        replay_answer(exchange, w[1], w[2])
    } else {
        FeedStepView {
            lines: seq!["error usage subscribe <instrument_id> [depth] | replay <instrument_id> <after_seq>"@],
            state: FeedState::Open,
        }
    }
}

/// The answer to a message in a feed session.
pub open spec fn feed_step_of(exchange: RuntimeView, incoming: Incoming) -> FeedStepView {
    match incoming {
        Incoming::Close => FeedStepView { lines: seq![], state: FeedState::Closed },
        Incoming::Other => FeedStepView {
            lines: seq!["error text-messages-only"@],
            state: FeedState::Open,
        },
        Incoming::Text { line } => feed_answer(exchange, text::words(line@)),
    }
}

/// Answers a message in a feed session.
pub fn feed_step(incoming: &Incoming, exchange: &ExchangeRuntime) -> (step: FeedStep)
    requires
        exchange.wf(),
        incoming matches Incoming::Text { line } ==> market_data::feed_fits(
            exchange@.venue,
            text::words(line@),
        ),
    ensures
        step@ == feed_step_of(exchange@, *incoming),
{
    match incoming {
        Incoming::Close => {
            let step = FeedStep { lines: Vec::new(), state: FeedState::Closed };
            assert(step@.lines =~= seq![]);
            step
        },
        Incoming::Other => market_data::answer("error text-messages-only", FeedState::Open),
        Incoming::Text { line } => {
            let w = text::split_words(line.as_str());
            let ghost words = text::texts(w@);
            let n: usize = w.len();
            assert(forall|i: int| 0 <= i < n ==> #[trigger] words[i] == w@[i]@);
            let venue = exchange.venue();
            if n == 1 && text::same(w[0].as_str(), "help") {
                market_data::answer(
                    "ok help subscribe <instrument_id> [depth] | replay <instrument_id> <after_seq>",
                    FeedState::Open,
                )
            } else if n == 2 && text::same(w[0].as_str(), "subscribe") {
                market_data::subscribe_feed(w[1].as_str(), None, venue)
            } else if n == 3 && text::same(w[0].as_str(), "subscribe") {
                market_data::subscribe_feed(w[1].as_str(), Some(w[2].as_str()), venue)
            } else if n == 3 && text::same(w[0].as_str(), "replay") {
                replay(w[1].as_str(), w[2].as_str(), exchange)
            } else {
                market_data::answer(
                    "error usage subscribe <instrument_id> [depth] | replay <instrument_id> <after_seq>",
                    FeedState::Open,
                )
            }
        },
    }
}

/// A session trades for the account that it was authenticated for, and for no other; before it was
/// authenticated it runs no command.
pub proof fn law_session_trades_for_its_account(
    venue: VenueView,
    keys: Seq<KeyView>,
    account: Option<AccountId>,
    w: Seq<Seq<char>>,
)
    requires
        session_request(venue, keys, account, w).request is Run,
    ensures
        account is Some,
        session_request(venue, keys, account, w).account == account,
        match session_request(venue, keys, account, w).request->command {
            Command::Submit { order } => order.account_id == account->0,
            Command::Cancel { .. } => true,
            Command::Replace { .. } => false,
        },
{
}

/// Only a key that was issued authenticates a session.
pub proof fn law_only_issued_keys_authenticate(
    venue: VenueView,
    keys: Seq<KeyView>,
    account: Option<AccountId>,
    w: Seq<Seq<char>>,
)
    requires
        session_request(venue, keys, account, w).account != account,
    ensures
        exists|i: int|
            0 <= i < keys.len() && (#[trigger] keys[i]).key == w[1]
                && session_request(venue, keys, account, w).account == Some(keys[i].account_id),
{
    lemma_account_of(keys, w[1]);
}

proof fn lemma_account_of(keys: Seq<KeyView>, key: Seq<char>)
    ensures
        account_of(keys, key) is Some ==> exists|i: int|
            0 <= i < keys.len() && (#[trigger] keys[i]).key == key && account_of(keys, key) == Some(
                keys[i].account_id,
            ),
    decreases keys.len(),
{
    if keys.len() > 0 {
        if keys[0].key != key {
            lemma_account_of(keys.skip(1), key);
            if account_of(keys, key) is Some {
                let rest = keys.skip(1);
                let i = choose|i: int|
                    0 <= i < rest.len() && (#[trigger] rest[i]).key == key && account_of(rest, key) == Some(
                        rest[i].account_id,
                    );
                assert(keys[i + 1].key == key);
            }
        }
    }
}

} // verus!
