//! Sources of market-structure data, and the shape of the global world.
use vstd::prelude::*;

use crate::text;

verus! {

/// A public source of reference data.
#[derive(Debug, Clone, Copy)]
pub struct Source {
    pub id: &'static str,
    pub url: &'static str,
    pub note: &'static str,
}

/// A source as contracts speak of it.
pub struct SourceView {
    pub id: Seq<char>,
    pub url: Seq<char>,
    pub note: Seq<char>,
}

impl View for Source {
    type V = SourceView;

    open spec fn view(&self) -> SourceView {
        SourceView { id: self.id@, url: self.url@, note: self.note@ }
    }
}

/// The known sources.
pub open spec fn known_sources() -> Seq<SourceView> {
    seq![
        SourceView {
            id: "bis-fx-2025"@,
            url: "https://www.bis.org/statistics/rpfx25_fx.htm"@,
            note: "BIS 2025 Triennial Survey summary for global OTC FX turnover and currency shares"@,
        },
        SourceView {
            id: "bis-fx-2025-annex"@,
            url: "https://www.bis.org/statistics/rpfx25_fx_annex.pdf"@,
            note: "BIS 2025 Triennial Survey annex tables; useful for FX graph weights"@,
        },
        SourceView {
            id: "cmc-spot-exchanges"@,
            url: "https://coinmarketcap.com/rankings/exchanges/"@,
            note:
                "CoinMarketCap spot exchange ranking; useful for crypto venue long-tail shape"@,
        },
        SourceView {
            id: "marketcap-exchanges"@,
            url: "https://marketcap.company/stock-exchanges-by-market-cap/"@,
            note:
                "Current public stock-exchange market-cap ranking; useful as a rough equity venue count seed"@,
        },
    ]
}

pub open spec fn source_views(sources: Seq<Source>) -> Seq<SourceView> {
    Seq::new(sources.len(), |i: int| sources[i]@)
}

/// The known sources.
pub fn sources() -> (list: Vec<Source>)
    ensures
        source_views(list@) == known_sources(),
{
    let mut list: Vec<Source> = Vec::new();
    list.push(
        Source {
            id: "bis-fx-2025",
            url: "https://www.bis.org/statistics/rpfx25_fx.htm",
            note: "BIS 2025 Triennial Survey summary for global OTC FX turnover and currency shares",
        },
    );
    list.push(
        Source {
            id: "bis-fx-2025-annex",
            url: "https://www.bis.org/statistics/rpfx25_fx_annex.pdf",
            note: "BIS 2025 Triennial Survey annex tables; useful for FX graph weights",
        },
    );
    list.push(
        Source {
            id: "cmc-spot-exchanges",
            url: "https://coinmarketcap.com/rankings/exchanges/",
            note: "CoinMarketCap spot exchange ranking; useful for crypto venue long-tail shape",
        },
    );
    list.push(
        Source {
            id: "marketcap-exchanges",
            url: "https://marketcap.company/stock-exchanges-by-market-cap/",
            note: "Current public stock-exchange market-cap ranking; useful as a rough equity venue count seed",
        },
    );
    assert(source_views(list@) =~= known_sources());
    list
}

/// The lines that list `sources`: two for each.
pub open spec fn source_lines(sources: Seq<SourceView>) -> Seq<Seq<char>>
    decreases sources.len(),
{
    if sources.len() == 0 {
        seq![]
    } else {
        let last = sources.last();
        source_lines(sources.drop_last()).push(last.id + " "@ + last.url).push("  "@ + last.note)
    }
}

/// The lines that list the known sources.
pub fn list_sources() -> (lines: Vec<String>)
    ensures
        text::texts(lines@) == source_lines(known_sources()),
{
    let list = sources();
    let ghost all = source_views(list@);
    let n: usize = list.len();
    let mut lines: Vec<String> = Vec::new();
    let mut i: usize = 0;
    assert(text::texts(lines@) =~= source_lines(all.take(0)));
    while i < n
        invariant
            i <= n,
            n == list@.len(),
            all == source_views(list@),
            text::texts(lines@) == source_lines(all.take(i as int)),
        decreases n - i,
    {
        let source = &list[i];
        let ghost before = lines@;
        proof {
            assert(all.take(i + 1).drop_last() =~= all.take(i as int));
            assert(all.take(i + 1).last() == source@);
        }
        let mut first = source.id.to_owned();
        first.append(" ");
        first.append(source.url);
        let mut second = "  ".to_owned();
        second.append(source.note);
        let ghost a = first@;
        let ghost b = second@;
        lines.push(first);
        lines.push(second);
        assert(text::texts(lines@) =~= text::texts(before).push(a).push(b));
        i = i + 1;
    }
    assert(all.take(n as int) =~= all);
    lines
}

/// The first of `sources` with this id.
pub open spec fn source_with(sources: Seq<SourceView>, id: Seq<char>) -> Option<SourceView>
    decreases sources.len(),
{
    if sources.len() == 0 {
        None
    } else if sources[0].id == id {
        Some(sources[0])
    } else {
        source_with(sources.skip(1), id)
    }
}

/// The known source with this id.
pub fn find_source(id: &str) -> (source: Option<Source>)
    ensures
        match source {
            Some(source) => source_with(known_sources(), id@) == Some(source@),
            None => source_with(known_sources(), id@) is None,
        },
{
    let list = sources();
    let ghost all = source_views(list@);
    let n: usize = list.len();
    let mut i: usize = 0;
    assert(all.skip(0) =~= all);
    while i < n
        invariant
            i <= n,
            n == list@.len(),
            all == source_views(list@),
            all == known_sources(),
            source_with(all, id@) == source_with(all.skip(i as int), id@),
        decreases n - i,
    {
        assert(all.skip(i as int)[0] == list@[i as int]@);
        assert(all.skip(i as int).skip(1) =~= all.skip(i + 1));
        if text::same(list[i].id, id) {
            return Some(list[i]);
        }
        i = i + 1;
    }
    None
}

/// What is to be fetched, and where to.
pub struct FetchPlan {
    pub source: Source,
    pub output_path: String,
}

/// What is wrong with a request to fetch, if anything.
pub open spec fn fetch_error(source_id: Option<Seq<char>>, output_path: Option<Seq<char>>) -> Option<Seq<char>> {
    if source_id is None {
        Some("fetch requires a source id"@)
    } else if output_path is None {
        Some("fetch requires an output path"@)
    } else if source_with(known_sources(), source_id->0) is None {
        Some("unknown source: "@ + source_id->0)
    } else {
        None
    }
}

pub open spec fn opt_text(value: Option<String>) -> Option<Seq<char>> {
    match value {
        Some(value) => Some(value@),
        None => None,
    }
}

/// Checks a request to fetch a source.
pub fn plan_fetch(source_id: Option<String>, output_path: Option<String>) -> (plan: Result<FetchPlan, String>)
    ensures
        match plan {
            Ok(plan) => {
                &&& fetch_error(opt_text(source_id), opt_text(output_path)) is None
                &&& Some(plan.source@) == source_with(known_sources(), source_id->0@)
                &&& plan.output_path@ == output_path->0@
            },
            Err(message) => fetch_error(opt_text(source_id), opt_text(output_path)) == Some(message@),
        },
{
    let source_id = match source_id {
        Some(id) => id,
        None => {
            return Err("fetch requires a source id".to_owned());
        },
    };
    let output_path = match output_path {
        Some(path) => path,
        None => {
            return Err("fetch requires an output path".to_owned());
        },
    };
    match find_source(source_id.as_str()) {
        Some(source) => Ok(FetchPlan { source, output_path }),
        None => {
            let mut message = "unknown source: ".to_owned();
            message.append(source_id.as_str());
            Err(message)
        },
    }
}

impl FetchPlan {
    /// What is reported when the fetch succeeded.
    pub fn done_line(&self) -> (line: String)
        ensures
            line@ == "ok fetched source="@ + self.source@.id + " output="@ + self.output_path@,
    {
        let mut line = "ok fetched source=".to_owned();
        line.append(self.source.id);
        line.append(" output=");
        line.append(self.output_path.as_str());
        line
    }

    /// What is reported when the fetch failed.
    pub fn failed_line(&self) -> (line: String)
        ensures
            line@ == "fetch failed for "@ + self.source@.id + " from "@ + self.source@.url,
    {
        let mut line = "fetch failed for ".to_owned();
        line.append(self.source.id);
        line.append(" from ");
        line.append(self.source.url);
        line
    }
}

/// A tier of the global world.
#[derive(Debug, Clone, Copy)]
pub struct ProfileTier {
    pub name: &'static str,
    pub venues: u64,
    pub symbols: u64,
    pub weight: u64,
}

/// A tier as contracts speak of it.
pub struct TierView {
    pub name: Seq<char>,
    pub venues: u64,
    pub symbols: u64,
    pub weight: u64,
}

impl View for ProfileTier {
    type V = TierView;

    open spec fn view(&self) -> TierView {
        TierView { name: self.name@, venues: self.venues, symbols: self.symbols, weight: self.weight }
    }
}

/// The tiers of the global world.
pub open spec fn global_tiers() -> Seq<TierView> {
    seq![
        TierView { name: "equity-global"@, venues: 4, symbols: 500, weight: 900 },
        TierView { name: "equity-regional"@, venues: 16, symbols: 120, weight: 180 },
        TierView { name: "equity-local"@, venues: 32, symbols: 25, weight: 35 },
        TierView { name: "crypto-major"@, venues: 12, symbols: 350, weight: 260 },
        TierView { name: "crypto-tail"@, venues: 32, symbols: 40, weight: 25 },
    ]
}

pub open spec fn tier_views(tiers: Seq<ProfileTier>) -> Seq<TierView> {
    Seq::new(tiers.len(), |i: int| tiers[i]@)
}

fn tiers() -> (list: Vec<ProfileTier>)
    ensures
        tier_views(list@) == global_tiers(),
{
    let mut list: Vec<ProfileTier> = Vec::new();
    list.push(ProfileTier { name: "equity-global", venues: 4, symbols: 500, weight: 900 });
    list.push(ProfileTier { name: "equity-regional", venues: 16, symbols: 120, weight: 180 });
    list.push(ProfileTier { name: "equity-local", venues: 32, symbols: 25, weight: 35 });
    list.push(ProfileTier { name: "crypto-major", venues: 12, symbols: 350, weight: 260 });
    list.push(ProfileTier { name: "crypto-tail", venues: 32, symbols: 40, weight: 25 });
    assert(tier_views(list@) =~= global_tiers());
    list
}

pub open spec fn tier_line(tier: TierView) -> Seq<char> {
    "tier="@ + tier.name + " venues="@ + text::dec(tier.venues as nat) + " instruments_per_venue="@
        + text::dec(tier.symbols as nat) + " command_weight="@ + text::dec(tier.weight as nat)
}

/// The profile of the global world.
pub open spec fn profile_lines() -> Seq<Seq<char>> {
    seq!["profile=global-lob"@, "venues="@ + text::dec(96), "instruments="@ + text::dec(10_200)]
        + Seq::new(5, |i: int| tier_line(global_tiers()[i])) + seq![
        "notes=shape model only; derive future revisions from research snapshots and scenario configs"@,
    ]
}

/// All venues and all instruments of the first `n` tiers.
pub open spec fn tier_sums(tiers: Seq<TierView>, n: nat) -> (nat, nat)
    decreases n,
{
    if n == 0 {
        (0, 0)
    } else {
        let below = tier_sums(tiers, (n - 1) as nat);
        (
            below.0 + tiers[n - 1].venues as nat,
            below.1 + tiers[n - 1].venues as nat * tiers[n - 1].symbols as nat,
        )
    }
}

proof fn lemma_global_sums()
    ensures
        tier_sums(global_tiers(), 0) == (0nat, 0nat),
        tier_sums(global_tiers(), 1) == (4nat, 2_000nat),
        tier_sums(global_tiers(), 2) == (20nat, 3_920nat),
        tier_sums(global_tiers(), 3) == (52nat, 4_720nat),
        tier_sums(global_tiers(), 4) == (64nat, 8_920nat),
        tier_sums(global_tiers(), 5) == (96nat, 10_200nat),
{
    let t = global_tiers();
    lemma_tier_sum(t, 0, 4, 500);
    lemma_tier_sum(t, 1, 16, 120);
    lemma_tier_sum(t, 2, 32, 25);
    lemma_tier_sum(t, 3, 12, 350);
    lemma_tier_sum(t, 4, 32, 40);
}

/// One more tier adds its venues and their instruments.
proof fn lemma_tier_sum(tiers: Seq<TierView>, i: nat, venues: u64, symbols: u64)
    requires
        i < tiers.len(),
        tiers[i as int].venues == venues,
        tiers[i as int].symbols == symbols,
    ensures
        tier_sums(tiers, 0) == (0nat, 0nat),
        tier_sums(tiers, i + 1) == (
            tier_sums(tiers, i).0 + venues as nat,
            tier_sums(tiers, i).1 + venues as nat * symbols as nat,
        ),
{
}

/// The profile of the global world.
pub fn global_lob_profile() -> (lines: Vec<String>)
    ensures
        text::texts(lines@) == profile_lines(),
{
    let list = tiers();
    let ghost all = tier_views(list@);
    assert(all.len() == 5);
    let n: usize = list.len();
    let mut venues: u64 = 0;
    let mut instruments: u64 = 0;
    let mut i: usize = 0;
    proof {
        lemma_global_sums();
    }
    while i < n
        invariant
            i <= n,
            n == 5,
            n == list@.len(),
            all == tier_views(list@),
            all == global_tiers(),
            (venues as nat, instruments as nat) == tier_sums(all, i as nat),
            tier_sums(global_tiers(), 0) == (0nat, 0nat),
            tier_sums(global_tiers(), 1) == (4nat, 2_000nat),
            tier_sums(global_tiers(), 2) == (20nat, 3_920nat),
            tier_sums(global_tiers(), 3) == (52nat, 4_720nat),
            tier_sums(global_tiers(), 4) == (64nat, 8_920nat),
            tier_sums(global_tiers(), 5) == (96nat, 10_200nat),
        decreases n - i,
    {
        assert(all[i as int] == list@[i as int]@);
        assert(list@[i as int].venues * list@[i as int].symbols <= 10_000) by {
            assert(all[0].venues == 4 && all[0].symbols == 500);
            assert(all[1].venues == 16 && all[1].symbols == 120);
            assert(all[2].venues == 32 && all[2].symbols == 25);
            assert(all[3].venues == 12 && all[3].symbols == 350);
            assert(all[4].venues == 32 && all[4].symbols == 40);
        }
        venues = venues + list[i].venues;
        instruments = instruments + list[i].venues * list[i].symbols;
        i = i + 1;
    }
    let mut lines: Vec<String> = Vec::new();
    lines.push("profile=global-lob".to_owned());
    let mut line = "venues=".to_owned();
    text::append_decimal(&mut line, venues as u128);
    lines.push(line);
    let mut line = "instruments=".to_owned();
    text::append_decimal(&mut line, instruments as u128);
    lines.push(line);
    let ghost head = seq!["profile=global-lob"@, "venues="@ + text::dec(96), "instruments="@ + text::dec(10_200)];
    let mut k: usize = 0;
    assert(text::texts(lines@) =~= head + Seq::new(0, |i: int| tier_line(all[i])));
    while k < n
        invariant
            k <= n,
            n == 5,
            n == list@.len(),
            all == tier_views(list@),
            text::texts(lines@) == head + Seq::new(k as nat, |i: int| tier_line(all[i])),
        decreases n - k,
    {
        let tier = &list[k];
        assert(all[k as int] == tier@);
        let ghost before = lines@;
        let mut line = "tier=".to_owned();
        line.append(tier.name);
        line.append(" venues=");
        text::append_decimal(&mut line, tier.venues as u128);
        line.append(" instruments_per_venue=");
        text::append_decimal(&mut line, tier.symbols as u128);
        line.append(" command_weight=");
        text::append_decimal(&mut line, tier.weight as u128);
        lines.push(line);
        k = k + 1;
        assert(text::texts(lines@) =~= text::texts(before).push(tier_line(all[k - 1])));
        assert(text::texts(lines@) =~= head + Seq::new(k as nat, |i: int| tier_line(all[i])));
    }
    lines.push(
        "notes=shape model only; derive future revisions from research snapshots and scenario configs".to_owned(),
    );
    assert(text::texts(lines@) =~= profile_lines());
    lines
}

/// The profile with this name, or what is wrong with the request.
pub fn profile(name: Option<String>) -> (result: Result<Vec<String>, String>)
    ensures
        match result {
            Ok(lines) => name is Some && name->0@ == "global-lob"@ && text::texts(lines@)
                == profile_lines(),
            Err(message) => message@ == (match opt_text(name) {
                Some(name) => "unknown profile: "@ + name,
                None => "profile requires a name"@,
            }) && (name is Some ==> name->0@ != "global-lob"@),
        },
{
    match name {
        Some(name) => if text::same(name.as_str(), "global-lob") {
            Ok(global_lob_profile())
        } else {
            let mut message = "unknown profile: ".to_owned();
            message.append(name.as_str());
            Err(message)
        },
        None => Err("profile requires a name".to_owned()),
    }
}

/// What the arguments of the research tool ask for.
#[derive(Debug)]
pub enum ResearchCommand {
    Help,
    Sources,
    Profile { name: Option<String> },
    Fetch { source_id: Option<String>, output_path: Option<String> },
    Unknown { command: String },
}

/// The argument at `i`, if there is one.
pub open spec fn arg_at(args: Seq<String>, i: int) -> Option<Seq<char>> {
    if 0 <= i < args.len() {
        Some(args[i]@)
    } else {
        None
    }
}

fn argument(args: &Vec<String>, i: usize) -> (argument: Option<String>)
    ensures
        opt_text(argument) == arg_at(args@, i as int),
{
    if i < args.len() {
        Some(args[i].clone())
    } else {
        None
    }
}

/// Reads the arguments of the research tool. Without any, they ask for help.
pub fn read_command(args: &Vec<String>) -> (command: ResearchCommand)
    ensures
        ({
            let named = |word: Seq<char>| args@.len() > 0 && args@[0]@ == word;
            let help = args@.len() == 0 || named("help"@) || named("--help"@) || named("-h"@);
            match command {
                ResearchCommand::Help => help,
                ResearchCommand::Sources => !help && named("sources"@),
                ResearchCommand::Profile { name } => {
                    &&& !help && !named("sources"@) && named("profile"@)
                    &&& opt_text(name) == arg_at(args@, 1)
                },
                ResearchCommand::Fetch { source_id, output_path } => {
                    &&& !help && !named("sources"@) && !named("profile"@) && named("fetch"@)
                    &&& opt_text(source_id) == arg_at(args@, 1)
                    &&& opt_text(output_path) == arg_at(args@, 2)
                },
                ResearchCommand::Unknown { command } => {
                    &&& !help && !named("sources"@) && !named("profile"@) && !named("fetch"@)
                    &&& command@ == args@[0]@
                },
            }
        }),
{
    if args.len() == 0 {
        return ResearchCommand::Help;
    }
    let command = args[0].as_str();
    if text::same(command, "help") || text::same(command, "--help") || text::same(command, "-h") {
        ResearchCommand::Help
    } else if text::same(command, "sources") {
        ResearchCommand::Sources
    } else if text::same(command, "profile") {
        ResearchCommand::Profile { name: argument(args, 1) }
    } else if text::same(command, "fetch") {
        ResearchCommand::Fetch { source_id: argument(args, 1), output_path: argument(args, 2) }
    } else {
        ResearchCommand::Unknown { command: args[0].clone() }
    }
}

/// How the research tool is used.
pub fn usage() -> (text: &'static str)
    ensures
        text@ == "usage:\n  cargo run -p exchange_research -- sources\n  cargo run -p exchange_research -- profile global-lob\n  cargo run -p exchange_research -- fetch <source-id> <output-path>"@,
{
    "usage:\n  cargo run -p exchange_research -- sources\n  cargo run -p exchange_research -- profile global-lob\n  cargo run -p exchange_research -- fetch <source-id> <output-path>"
}

/// A source is found by its id: the first with this id, and none where there is no such id.
pub proof fn law_source_is_found_by_its_id(sources: Seq<SourceView>, id: Seq<char>, i: int)
    requires
        0 <= i <= sources.len(),
        forall|j: int| 0 <= j < i ==> (#[trigger] sources[j]).id != id,
        i < sources.len() ==> sources[i].id == id,
    ensures
        source_with(sources, id) == (if i < sources.len() {
            Some(sources[i])
        } else {
            None
        }),
    decreases sources.len(),
{
    if i > 0 {
        assert(sources[0].id != id);
        let tail = sources.skip(1);
        assert forall|j: int| 0 <= j < i - 1 implies (#[trigger] tail[j]).id != id by {
            assert(sources[j + 1].id != id);
        }
        law_source_is_found_by_its_id(tail, id, i - 1);
    }
}

/// Sources are listed one after the other, each with its id and address on one line and its note on
/// the next.
pub proof fn law_sources_are_listed_in_turn(sources: Seq<SourceView>, source: SourceView)
    ensures
        source_lines(seq![]) == Seq::<Seq<char>>::empty(),
        source_lines(sources.push(source)) == source_lines(sources) + seq![
            source.id + " "@ + source.url,
            "  "@ + source.note,
        ],
{
    assert(sources.push(source).drop_last() =~= sources);
    let before = source_lines(sources);
    assert(before.push(source.id + " "@ + source.url).push("  "@ + source.note) =~= before + seq![
        source.id + " "@ + source.url,
        "  "@ + source.note,
    ]);
}

/// A fetch needs a source id, an output path and a known source, and what is missing first is told.
pub proof fn law_fetch_needs_a_known_source(source_id: Option<Seq<char>>, output_path: Option<Seq<char>>)
    ensures
        source_id is None ==> fetch_error(source_id, output_path) == Some("fetch requires a source id"@),
        source_id is Some && output_path is None ==> fetch_error(source_id, output_path) == Some(
            "fetch requires an output path"@,
        ),
        source_id is Some && output_path is Some ==> (fetch_error(source_id, output_path) is None <==> exists|
            i: int,
        |
            0 <= i < known_sources().len() && (#[trigger] known_sources()[i]).id == source_id->0),
        source_id is Some && output_path is Some && fetch_error(source_id, output_path) is Some ==> fetch_error(
            source_id,
            output_path,
        ) == Some("unknown source: "@ + source_id->0),
{
    if source_id is Some {
        lemma_found_where_it_is(known_sources(), source_id->0);
    }
}

proof fn lemma_found_where_it_is(sources: Seq<SourceView>, id: Seq<char>)
    ensures
        source_with(sources, id) is Some <==> exists|i: int|
            0 <= i < sources.len() && (#[trigger] sources[i]).id == id,
    decreases sources.len(),
{
    if sources.len() > 0 {
        let tail = sources.skip(1);
        lemma_found_where_it_is(tail, id);
        if exists|i: int| 0 <= i < sources.len() && (#[trigger] sources[i]).id == id {
            let i = choose|i: int| 0 <= i < sources.len() && (#[trigger] sources[i]).id == id;
            if i > 0 {
                assert(tail[i - 1].id == id);
            }
        }
        if exists|i: int| 0 <= i < tail.len() && (#[trigger] tail[i]).id == id {
            let i = choose|i: int| 0 <= i < tail.len() && (#[trigger] tail[i]).id == id;
            assert(sources[i + 1].id == id);
        }
    }
}

/// Each known source is found by its own id.
pub proof fn law_known_source_is_found(i: int)
    requires
        0 <= i < known_sources().len(),
    ensures
        source_with(known_sources(), known_sources()[i].id) == Some(known_sources()[i]),
{
    let all = known_sources();
    reveal_strlit("bis-fx-2025");
    reveal_strlit("bis-fx-2025-annex");
    reveal_strlit("cmc-spot-exchanges");
    reveal_strlit("marketcap-exchanges");
    assert(all[0].id.len() == 11 && all[1].id.len() == 17 && all[2].id.len() == 18 && all[3].id.len() == 19);
    law_source_is_found_by_its_id(all, all[i].id, i);
}

/// The profile tells all venues and all instruments of the tiers, and then of each tier how many
/// venues it has, how many instruments each of them has, and its weight.
pub proof fn law_profile_tells_the_tiers(i: int)
    requires
        0 <= i < global_tiers().len(),
    ensures
        ({
            let t = global_tiers();
            let lines = profile_lines();
            &&& lines.len() == t.len() + 4
            &&& lines[0] == "profile=global-lob"@
            &&& lines[1] == "venues="@ + text::dec(
                (t[0].venues + t[1].venues + t[2].venues + t[3].venues + t[4].venues) as nat,
            )
            &&& lines[2] == "instruments="@ + text::dec(
                (t[0].venues * t[0].symbols + t[1].venues * t[1].symbols + t[2].venues * t[2].symbols
                    + t[3].venues * t[3].symbols + t[4].venues * t[4].symbols) as nat,
            )
            &&& lines[3 + i] == "tier="@ + t[i].name + " venues="@ + text::dec(t[i].venues as nat)
                + " instruments_per_venue="@ + text::dec(t[i].symbols as nat) + " command_weight="@
                + text::dec(t[i].weight as nat)
            &&& lines.last()
                == "notes=shape model only; derive future revisions from research snapshots and scenario configs"@
        }),
{
    let t = global_tiers();
    assert(t[0].venues * t[0].symbols == 2_000 && t[1].venues * t[1].symbols == 1_920 && t[2].venues
        * t[2].symbols == 800 && t[3].venues * t[3].symbols == 4_200 && t[4].venues * t[4].symbols == 1_280)
        by (nonlinear_arith)
        requires
            t[0].venues == 4 && t[0].symbols == 500,
            t[1].venues == 16 && t[1].symbols == 120,
            t[2].venues == 32 && t[2].symbols == 25,
            t[3].venues == 12 && t[3].symbols == 350,
            t[4].venues == 32 && t[4].symbols == 40,
    ;
}

/// An argument is what stands at its place, if anything does.
pub proof fn law_argument_stands_at_its_place(args: Seq<String>, i: int)
    ensures
        0 <= i < args.len() ==> arg_at(args, i) == Some(args[i]@),
        i < 0 || i >= args.len() ==> arg_at(args, i) is None,
{
}

} // verus!
