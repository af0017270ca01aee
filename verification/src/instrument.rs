//! Instruments and the configuration of a venue.
use vstd::prelude::*;

use crate::fees;
use crate::text;
use crate::types::InstrumentId;

verus! {

/// A pair of assets that a venue trades, with the constraints and fees of its orders.
#[derive(Debug)]
pub struct Instrument {
    pub id: InstrumentId,
    pub base: String,
    pub quote: String,
    pub price_tick: u64,
    pub quantity_step: u64,
    pub min_notional: u128,
    pub maker_fee_bps: u32,
    pub taker_fee_bps: u32,
}

/// An instrument as contracts speak of it.
pub struct InstrumentView {
    pub id: InstrumentId,
    pub base: Seq<char>,
    pub quote: Seq<char>,
    pub price_tick: u64,
    pub quantity_step: u64,
    pub min_notional: u128,
    pub maker_fee_bps: u32,
    pub taker_fee_bps: u32,
}

impl InstrumentView {
    /// Prices and quantities have an increment, makers pay no more than takers, and no fee is more
    /// than what it is charged on.
    pub open spec fn valid(self) -> bool {
        &&& self.price_tick > 0
        &&& self.quantity_step > 0
        &&& self.maker_fee_bps <= self.taker_fee_bps
        &&& self.taker_fee_bps <= fees::WHOLE_BPS
    }

    /// The instrument that a generated venue has for `base` against `quote`.
    pub open spec fn plain(id: InstrumentId, base: Seq<char>, quote: Seq<char>) -> InstrumentView {
        InstrumentView {
            id,
            base,
            quote,
            price_tick: 1,
            quantity_step: 1,
            min_notional: 1,
            maker_fee_bps: 0,
            taker_fee_bps: 10,
        }
    }
}

impl View for Instrument {
    type V = InstrumentView;

    open spec fn view(&self) -> InstrumentView {
        InstrumentView {
            id: self.id,
            base: self.base@,
            quote: self.quote@,
            price_tick: self.price_tick,
            quantity_step: self.quantity_step,
            min_notional: self.min_notional,
            maker_fee_bps: self.maker_fee_bps,
            taker_fee_bps: self.taker_fee_bps,
        }
    }
}

impl Instrument {
    /// The instrument of a generated venue: unit tick and step, a minimum notional of one, no maker
    /// fee and a taker fee of ten basis points.
    pub fn plain(id: InstrumentId, base: &str, quote: &str) -> (instrument: Self)
        ensures
            instrument@ == InstrumentView::plain(id, base@, quote@),
    {
        Instrument {
            id,
            base: base.to_owned(),
            quote: quote.to_owned(),
            price_tick: 1,
            quantity_step: 1,
            min_notional: 1,
            maker_fee_bps: 0,
            taker_fee_bps: 10,
        }
    }

    /// The name under which the instrument is listed.
    pub fn symbol(&self) -> (symbol: String)
        ensures
            symbol@ == self@.base + "/"@ + self@.quote,
    {
        let mut symbol = self.base.clone();
        symbol.append("/");
        symbol.append(self.quote.as_str());
        symbol
    }
}

impl Clone for Instrument {
    fn clone(&self) -> (copy: Self)
        ensures
            copy@ == self@,
    {
        Instrument { base: self.base.clone(), quote: self.quote.clone(), ..*self }
    }
}

/// What a venue is made of.
#[derive(Debug)]
pub struct VenueConfig {
    pub name: String,
    pub instruments: Vec<Instrument>,
    pub default_snapshot_depth: usize,
}

/// A venue's configuration as contracts speak of it.
#[verifier::ext_equal]
pub struct ConfigView {
    pub name: Seq<char>,
    pub instruments: Seq<InstrumentView>,
    pub default_snapshot_depth: usize,
}

impl View for VenueConfig {
    type V = ConfigView;

    open spec fn view(&self) -> ConfigView {
        ConfigView {
            name: self.name@,
            instruments: Seq::new(self.instruments@.len(), |i: int| self.instruments@[i]@),
            default_snapshot_depth: self.default_snapshot_depth,
        }
    }
}

impl ConfigView {
    /// Every instrument is valid and stands at the place that its id tells.
    pub open spec fn valid(self) -> bool {
        forall|i: int|
            0 <= i < self.instruments.len() ==> (#[trigger] self.instruments[i]).valid()
                && self.instruments[i].id == i
    }

    /// A venue in which every base asset is traded against the one quote asset.
    pub open spec fn star(name: Seq<char>, quote: Seq<char>, bases: Seq<Seq<char>>) -> ConfigView {
        ConfigView {
            name,
            instruments: Seq::new(
                bases.len(),
                |i: int| InstrumentView::plain(i as u32, bases[i], quote),
            ),
            default_snapshot_depth: 10,
        }
    }
}

impl VenueConfig {
    /// A venue in which every base asset is traded against the one quote asset, in the order given.
    pub fn star(name: &str, quote: &str, bases: &Vec<String>) -> (config: Self)
        requires
            bases@.len() <= u32::MAX,
        ensures
            config@ == ConfigView::star(name@, quote@, text::texts(bases@)),
            config@.valid(),
    {
        let mut instruments: Vec<Instrument> = Vec::new();
        let n: usize = bases.len();
        let mut i: usize = 0;
        while i < n
            invariant
                i <= n,
                n == bases@.len(),
                n <= u32::MAX,
                instruments@.len() == i,
                forall|j: int|
                    0 <= j < i ==> (#[trigger] instruments@[j])@ == InstrumentView::plain(
                        j as u32,
                        bases@[j]@,
                        quote@,
                    ),
            decreases n - i,
        {
            instruments.push(Instrument::plain(i as u32, bases[i].as_str(), quote));
            i = i + 1;
        }
        let config = VenueConfig { name: name.to_owned(), instruments, default_snapshot_depth: 10 };
        assert(config@ =~= ConfigView::star(name@, quote@, text::texts(bases@)));
        config
    }

    /// Whether every instrument is valid and stands at the place that its id tells.
    pub fn is_valid(&self) -> (result: bool)
        ensures
            result == self@.valid(),
    {
        let n: usize = self.instruments.len();
        let mut i: usize = 0;
        while i < n
            invariant
                i <= n,
                n == self.instruments@.len(),
                forall|j: int|
                    0 <= j < i ==> (#[trigger] self@.instruments[j]).valid() && self@.instruments[j].id == j,
            decreases n - i,
        {
            let instrument = &self.instruments[i];
            assert(instrument@ == self@.instruments[i as int]);
            let id: u64 = instrument.id as u64;
            if instrument.price_tick == 0 || instrument.quantity_step == 0 || instrument.maker_fee_bps
                > instrument.taker_fee_bps || instrument.taker_fee_bps > fees::WHOLE_BPS || id != i as u64 {
                return false;
            }
            i = i + 1;
        }
        true
    }
}

impl Clone for VenueConfig {
    fn clone(&self) -> (copy: Self)
        ensures
            copy@ == self@,
    {
        let mut instruments: Vec<Instrument> = Vec::new();
        let n: usize = self.instruments.len();
        let mut i: usize = 0;
        while i < n
            invariant
                i <= n,
                n == self.instruments@.len(),
                instruments@.len() == i,
                forall|j: int| 0 <= j < i ==> (#[trigger] instruments@[j])@ == self.instruments@[j]@,
            decreases n - i,
        {
            instruments.push(self.instruments[i].clone());
            i = i + 1;
        }
        let copy = VenueConfig {
            name: self.name.clone(),
            instruments,
            default_snapshot_depth: self.default_snapshot_depth,
        };
        assert(copy@ =~= self@);
        copy
    }
}

/// A configuration is valid if and only if every instrument has the number of its place, a tick and a
/// step, a maker fee no higher than its taker fee, and a taker fee of no more than the whole.
pub proof fn law_valid_configuration(config: ConfigView)
    ensures
        config.valid() <==> forall|i: int|
            0 <= i < config.instruments.len() ==> {
                let terms = #[trigger] config.instruments[i];
                &&& terms.id == i
                &&& terms.price_tick > 0
                &&& terms.quantity_step > 0
                &&& terms.maker_fee_bps <= terms.taker_fee_bps
                &&& terms.taker_fee_bps <= 10_000
            },
{
}

} // verus!
