//! What a simulation is asked to do.
use vstd::prelude::*;

use crate::text;

verus! {

/// The worlds that can be simulated.
#[derive(Debug, Clone, Copy, PartialEq, Eq, Structural)]
pub enum SimWorld {
    /// One venue with one instrument.
    SingleBin,
    /// Many venues of uneven size and activity.
    GlobalLob,
    /// One book that a large purchase shakes halfway through the run.
    ShockDemo,
}

#[derive(Debug, Clone, PartialEq, Eq)]
pub struct SimConfig {
    pub world: SimWorld,
    pub commands: u64,
    pub traders: u64,
    pub feed_subscribers: u64,
    /// Where a chart of the run is to be written, if one is wanted.
    pub visualization: Option<String>,
}

/// A configuration as contracts speak of it.
pub struct SimConfigView {
    pub world: SimWorld,
    pub commands: u64,
    pub traders: u64,
    pub feed_subscribers: u64,
    pub visualization: Option<Seq<char>>,
}

impl View for SimConfig {
    type V = SimConfigView;

    open spec fn view(&self) -> SimConfigView {
        SimConfigView {
            world: self.world,
            commands: self.commands,
            traders: self.traders,
            feed_subscribers: self.feed_subscribers,
            visualization: match self.visualization {
                Some(path) => Some(path@),
                None => None,
            },
        }
    }
}

/// Why arguments are not a configuration.
#[derive(Debug)]
pub enum ArgsError {
    /// The arguments ask for help.
    Help,
    Unknown { arg: String },
    Missing { name: String },
    NotANumber { name: String },
    UnknownWorld { world: String },
}

/// An error as contracts speak of it.
pub enum ArgsErrorView {
    Help,
    Unknown { arg: Seq<char> },
    Missing { name: Seq<char> },
    NotANumber { name: Seq<char> },
    UnknownWorld { world: Seq<char> },
}

impl View for ArgsError {
    type V = ArgsErrorView;

    open spec fn view(&self) -> ArgsErrorView {
        match self {
            ArgsError::Help => ArgsErrorView::Help,
            ArgsError::Unknown { arg } => ArgsErrorView::Unknown { arg: arg@ },
            ArgsError::Missing { name } => ArgsErrorView::Missing { name: name@ },
            ArgsError::NotANumber { name } => ArgsErrorView::NotANumber { name: name@ },
            ArgsError::UnknownWorld { world } => ArgsErrorView::UnknownWorld { world: world@ },
        }
    }
}

impl ArgsErrorView {
    /// What the user is told.
    pub open spec fn message(self) -> Seq<char> {
        match self {
            ArgsErrorView::Help => {
                "usage: cargo run -p exchange_sim -- --world single-bin --commands 100000 --traders 100 --feed-subscribers 1 [--visualization PATH]\nworlds: single-bin, global-lob, shock-demo"@
            },
            ArgsErrorView::Unknown { arg } => "unknown arg: "@ + arg,
            ArgsErrorView::Missing { name } => name + " requires a value"@,
            ArgsErrorView::NotANumber { name } => name + " must be a positive integer"@,
            ArgsErrorView::UnknownWorld { world } => "unknown world: "@ + world,
        }
    }
}

impl ArgsError {
    /// What the user is told.
    pub fn message(&self) -> (message: String)
        ensures
            message@ == self@.message(),
    {
        match self {
            ArgsError::Help => {
                "usage: cargo run -p exchange_sim -- --world single-bin --commands 100000 --traders 100 --feed-subscribers 1 [--visualization PATH]\nworlds: single-bin, global-lob, shock-demo".to_owned()
            },
            ArgsError::Unknown { arg } => {
                let mut message = "unknown arg: ".to_owned();
                message.append(arg.as_str());
                message
            },
            ArgsError::Missing { name } => {
                let mut message = name.clone();
                message.append(" requires a value");
                message
            },
            ArgsError::NotANumber { name } => {
                let mut message = name.clone();
                message.append(" must be a positive integer");
                message
            },
            ArgsError::UnknownWorld { world } => {
                let mut message = "unknown world: ".to_owned();
                message.append(world.as_str());
                message
            },
        }
    }
}

/// The number that follows the option at the head of `args`.
pub open spec fn number_after(args: Seq<Seq<char>>) -> Result<u64, ArgsErrorView> {
    if args.len() < 2 {
        Err(ArgsErrorView::Missing { name: args[0] })
    } else {
        match text::parsed(args[1], u64::MAX as nat) {
            Some(n) => Ok(n as u64),
            None => Err(ArgsErrorView::NotANumber { name: args[0] }),
        }
    }
}

/// The world that follows the option at the head of `args`.
pub open spec fn world_after(args: Seq<Seq<char>>) -> Result<SimWorld, ArgsErrorView> {
    if args.len() < 2 {
        Err(ArgsErrorView::Missing { name: args[0] })
    } else if args[1] == "single-bin"@ {
        Ok(SimWorld::SingleBin)
    } else if args[1] == "global-lob"@ {
        Ok(SimWorld::GlobalLob)
    } else if args[1] == "shock-demo"@ {
        Ok(SimWorld::ShockDemo)
    } else {
        Err(ArgsErrorView::UnknownWorld { world: args[1] })
    }
}

/// The path that follows the option at the head of `args`.
pub open spec fn path_after(args: Seq<Seq<char>>) -> Result<Seq<char>, ArgsErrorView> {
    if args.len() < 2 {
        Err(ArgsErrorView::Missing { name: args[0] })
    } else {
        Ok(args[1])
    }
}

/// The configuration after the option at the head of `args` and its value.
pub open spec fn option_read(config: SimConfigView, args: Seq<Seq<char>>) -> Result<SimConfigView, ArgsErrorView> {
    if args[0] == "--world"@ {
        match world_after(args) {
            Ok(world) => Ok(SimConfigView { world, ..config }),
            Err(error) => Err(error),
        }
    } else if args[0] == "--commands"@ {
        match number_after(args) {
            Ok(commands) => Ok(SimConfigView { commands, ..config }),
            Err(error) => Err(error),
        }
    } else if args[0] == "--traders"@ {
        match number_after(args) {
            Ok(traders) => Ok(SimConfigView { traders, ..config }),
            Err(error) => Err(error),
        }
    } else if args[0] == "--feed-subscribers"@ {
        match number_after(args) {
            Ok(feed_subscribers) => Ok(SimConfigView { feed_subscribers, ..config }),
            Err(error) => Err(error),
        }
    } else if args[0] == "--visualization"@ {
        match path_after(args) {
            Ok(path) => Ok(SimConfigView { visualization: Some(path), ..config }),
            Err(error) => Err(error),
        }
    } else if args[0] == "--help"@ {
        Err(ArgsErrorView::Help)
    } else {
        Err(ArgsErrorView::Unknown { arg: args[0] })
    }
}

/// The configuration that `args` make of `config`: a later option overrides an earlier one, and the
/// first error ends the reading.
pub open spec fn args_read(config: SimConfigView, args: Seq<Seq<char>>) -> Result<SimConfigView, ArgsErrorView>
    decreases args.len(),
{
    if args.len() == 0 {
        Ok(config)
    } else {
        match option_read(config, args) {
            Ok(next) => if args.len() >= 2 {
                args_read(next, args.skip(2))
            } else {
                Ok(next)
            },
            Err(error) => Err(error),
        }
    }
}

/// What is simulated unless the arguments say otherwise.
pub open spec fn default_config() -> SimConfigView {
    SimConfigView {
        world: SimWorld::SingleBin,
        commands: 100_000,
        traders: 100,
        feed_subscribers: 1,
        visualization: None,
    }
}

/// The number behind the option at `i`.
fn parse_arg(args: &Vec<String>, i: usize) -> (result: Result<u64, ArgsError>)
    requires
        i < args@.len(),
    ensures
        match result {
            Ok(n) => number_after(text::texts(args@).skip(i as int)) == Ok::<u64, ArgsErrorView>(n),
            Err(error) => number_after(text::texts(args@).skip(i as int)) == Err::<u64, ArgsErrorView>(
                error@,
            ),
        },
{
    let ghost tail = text::texts(args@).skip(i as int);
    assert(tail[0] == args@[i as int]@);
    if args.len() - i < 2 {
        return Err(ArgsError::Missing { name: args[i].clone() });
    }
    assert(tail[1] == args@[i + 1]@);
    match text::parse_unsigned(args[i + 1].as_str(), u64::MAX) {
        Some(n) => Ok(n),
        None => Err(ArgsError::NotANumber { name: args[i].clone() }),
    }
}

/// The world behind the option at `i`.
fn parse_world(args: &Vec<String>, i: usize) -> (result: Result<SimWorld, ArgsError>)
    requires
        i < args@.len(),
    ensures
        match result {
            Ok(world) => world_after(text::texts(args@).skip(i as int)) == Ok::<SimWorld, ArgsErrorView>(
                world,
            ),
            Err(error) => world_after(text::texts(args@).skip(i as int)) == Err::<SimWorld, ArgsErrorView>(
                error@,
            ),
        },
{
    let ghost tail = text::texts(args@).skip(i as int);
    assert(tail[0] == args@[i as int]@);
    if args.len() - i < 2 {
        return Err(ArgsError::Missing { name: args[i].clone() });
    }
    assert(tail[1] == args@[i + 1]@);
    let world = args[i + 1].as_str();
    if text::same(world, "single-bin") {
        Ok(SimWorld::SingleBin)
    } else if text::same(world, "global-lob") {
        Ok(SimWorld::GlobalLob)
    } else if text::same(world, "shock-demo") {
        Ok(SimWorld::ShockDemo)
    } else {
        Err(ArgsError::UnknownWorld { world: args[i + 1].clone() })
    }
}

/// The path behind the option at `i`.
fn parse_path(args: &Vec<String>, i: usize) -> (result: Result<String, ArgsError>)
    requires
        i < args@.len(),
    ensures
        match result {
            Ok(path) => path_after(text::texts(args@).skip(i as int)) == Ok::<Seq<char>, ArgsErrorView>(
                path@,
            ),
            Err(error) => path_after(text::texts(args@).skip(i as int)) == Err::<Seq<char>, ArgsErrorView>(
                error@,
            ),
        },
{
    let ghost tail = text::texts(args@).skip(i as int);
    assert(tail[0] == args@[i as int]@);
    if args.len() - i < 2 {
        return Err(ArgsError::Missing { name: args[i].clone() });
    }
    assert(tail[1] == args@[i + 1]@);
    Ok(args[i + 1].clone())
}

/// The configuration after the option at `i` and its value.
fn read_option(config: SimConfig, args: &Vec<String>, i: usize) -> (result: Result<SimConfig, ArgsError>)
    requires
        i < args@.len(),
    ensures
        match result {
            Ok(next) => option_read(config@, text::texts(args@).skip(i as int)) == Ok::<
                SimConfigView,
                ArgsErrorView,
            >(next@) && args@.len() - i >= 2,
            Err(error) => option_read(config@, text::texts(args@).skip(i as int)) == Err::<
                SimConfigView,
                ArgsErrorView,
            >(error@),
        },
{
    let ghost tail = text::texts(args@).skip(i as int);
    assert(tail[0] == args@[i as int]@);
    let arg = args[i].as_str();
    if text::same(arg, "--world") {
        match parse_world(args, i) {
            Ok(world) => Ok(SimConfig { world, ..config }),
            Err(error) => Err(error),
        }
    } else if text::same(arg, "--commands") {
        match parse_arg(args, i) {
            Ok(commands) => Ok(SimConfig { commands, ..config }),
            Err(error) => Err(error),
        }
    } else if text::same(arg, "--traders") {
        match parse_arg(args, i) {
            Ok(traders) => Ok(SimConfig { traders, ..config }),
            Err(error) => Err(error),
        }
    } else if text::same(arg, "--feed-subscribers") {
        match parse_arg(args, i) {
            Ok(feed_subscribers) => Ok(SimConfig { feed_subscribers, ..config }),
            Err(error) => Err(error),
        }
    } else if text::same(arg, "--visualization") {
        match parse_path(args, i) {
            Ok(path) => Ok(SimConfig { visualization: Some(path), ..config }),
            Err(error) => Err(error),
        }
    } else if text::same(arg, "--help") {
        Err(ArgsError::Help)
    } else {
        Err(ArgsError::Unknown { arg: args[i].clone() })
    }
}

impl SimConfig {
    /// Reads the arguments of a simulation.
    pub fn from_args(args: &Vec<String>) -> (result: Result<SimConfig, ArgsError>)
        ensures
            match result {
                Ok(config) => args_read(default_config(), text::texts(args@)) == Ok::<
                    SimConfigView,
                    ArgsErrorView,
                >(config@),
                Err(error) => args_read(default_config(), text::texts(args@)) == Err::<
                    SimConfigView,
                    ArgsErrorView,
                >(error@),
            },
    {
        let ghost all = text::texts(args@);
        let mut config = SimConfig {
            world: SimWorld::SingleBin,
            commands: 100_000,
            traders: 100,
            feed_subscribers: 1,
            visualization: None,
        };
        let n: usize = args.len();
        let mut i: usize = 0;
        assert(all.skip(0) =~= all);
        while i < n
            invariant
                i <= n,
                n == args@.len(),
                all == text::texts(args@),
                args_read(default_config(), all) == args_read(config@, all.skip(i as int)),
            decreases n - i,
        {
            match read_option(config, args, i) {
                Ok(next) => {
                    assert(all.skip(i as int).skip(2) =~= all.skip(i + 2));
                    config = next;
                    i = i + 2;
                },
                Err(error) => {
                    return Err(error);
                },
            }
        }
        Ok(config)
    }
}

/// Each option sets its own part of the configuration to the value behind it, and the reading goes
/// on behind the value.
pub proof fn law_option_sets_its_part(config: SimConfigView, args: Seq<Seq<char>>)
    requires
        args.len() >= 2,
    ensures
        ({
            let rest = args.skip(2);
            let n = text::parsed(args[1], 0xffff_ffff_ffff_ffff);
            let number = n->0 as u64;
            &&& args[0] == "--commands"@ && n is Some ==> args_read(config, args) == args_read(
                SimConfigView { commands: number, ..config },
                rest,
            )
            &&& args[0] == "--traders"@ && n is Some ==> args_read(config, args) == args_read(
                SimConfigView { traders: number, ..config },
                rest,
            )
            &&& args[0] == "--feed-subscribers"@ && n is Some ==> args_read(config, args) == args_read(
                SimConfigView { feed_subscribers: number, ..config },
                rest,
            )
            &&& args[0] == "--visualization"@ ==> args_read(config, args) == args_read(
                SimConfigView { visualization: Some(args[1]), ..config },
                rest,
            )
            &&& args[0] == "--world"@ && args[1] == "single-bin"@ ==> args_read(config, args) == args_read(
                SimConfigView { world: SimWorld::SingleBin, ..config },
                rest,
            )
            &&& args[0] == "--world"@ && args[1] == "global-lob"@ ==> args_read(config, args) == args_read(
                SimConfigView { world: SimWorld::GlobalLob, ..config },
                rest,
            )
            &&& args[0] == "--world"@ && args[1] == "shock-demo"@ ==> args_read(config, args) == args_read(
                SimConfigView { world: SimWorld::ShockDemo, ..config },
                rest,
            )
        }),
{
    lemma_option_names();
}

proof fn lemma_option_names()
    ensures
        "--commands"@ != "--world"@,
        "--traders"@ != "--world"@,
        "--traders"@ != "--commands"@,
        "--feed-subscribers"@ != "--world"@,
        "--feed-subscribers"@ != "--commands"@,
        "--feed-subscribers"@ != "--traders"@,
        "--visualization"@ != "--world"@,
        "--visualization"@ != "--commands"@,
        "--visualization"@ != "--traders"@,
        "--visualization"@ != "--feed-subscribers"@,
        "--help"@ != "--world"@,
        "--help"@ != "--commands"@,
        "--help"@ != "--traders"@,
        "--help"@ != "--feed-subscribers"@,
        "--help"@ != "--visualization"@,
        "global-lob"@ != "single-bin"@,
        "shock-demo"@ != "single-bin"@,
        "shock-demo"@ != "global-lob"@,
{
    reveal_strlit("--world");
    reveal_strlit("--commands");
    reveal_strlit("--traders");
    reveal_strlit("--feed-subscribers");
    reveal_strlit("--visualization");
    reveal_strlit("--help");
    reveal_strlit("single-bin");
    reveal_strlit("global-lob");
    reveal_strlit("shock-demo");
    assert("global-lob"@[0] != "single-bin"@[0]);
    assert("shock-demo"@[0] != "global-lob"@[0]);
    assert("shock-demo"@[1] != "single-bin"@[1]);
    assert("--help"@.len() == 6 && "--world"@.len() == 7 && "--traders"@.len() == 9 && "--commands"@.len() == 10);
    assert("--visualization"@.len() == 15 && "--feed-subscribers"@.len() == 18);
}

/// Without arguments the configuration stays; the first thing that is wrong ends the reading and
/// tells what it is.
pub proof fn law_first_wrong_argument_ends_the_reading(config: SimConfigView, args: Seq<Seq<char>>)
    ensures
        args.len() == 0 ==> args_read(config, args) == Ok::<SimConfigView, ArgsErrorView>(config),
        args.len() > 0 ==> {
            let option = args[0];
            let numeric = option == "--commands"@ || option == "--traders"@ || option == "--feed-subscribers"@;
            let known = numeric || option == "--world"@ || option == "--visualization"@;
            let ends = |error: ArgsErrorView|
                args_read(config, args) == Err::<SimConfigView, ArgsErrorView>(error);
            &&& option == "--help"@ ==> ends(ArgsErrorView::Help)
            &&& !known && option != "--help"@ ==> ends(ArgsErrorView::Unknown { arg: option })
            &&& known && args.len() == 1 ==> ends(ArgsErrorView::Missing { name: option })
            &&& numeric && args.len() > 1 && text::parsed(args[1], 0xffff_ffff_ffff_ffff) is None ==> ends(
                ArgsErrorView::NotANumber { name: option },
            )
            &&& option == "--world"@ && args.len() > 1 && args[1] != "single-bin"@ && args[1] != "global-lob"@
                && args[1] != "shock-demo"@ ==> ends(ArgsErrorView::UnknownWorld { world: args[1] })
        },
{
    lemma_option_names();
}

/// What is simulated where nothing is said, and how errors are told.
pub proof fn law_defaults_and_messages(text: Seq<char>)
    ensures
        default_config() == (SimConfigView {
            world: SimWorld::SingleBin,
            commands: 100_000,
            traders: 100,
            feed_subscribers: 1,
            visualization: None,
        }),
        (ArgsErrorView::Unknown { arg: text }).message() == "unknown arg: "@ + text,
        (ArgsErrorView::Missing { name: text }).message() == text + " requires a value"@,
        (ArgsErrorView::NotANumber { name: text }).message() == text + " must be a positive integer"@,
        (ArgsErrorView::UnknownWorld { world: text }).message() == "unknown world: "@ + text,
{
}

} // verus!
