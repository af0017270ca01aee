//! The figures of a chart of a book over time.
use vstd::prelude::*;

use crate::book_laws;
use crate::model;
use crate::model::{BookView, LevelTotal, Queued};
use crate::types::Level;

verus! {

/// How many levels of each side the depth counts.
pub const CHART_LEVELS: usize = 5;

/// The best prices of a book with two sides: the sum of both, which is twice the midprice, and how
/// far they lie apart.
#[derive(Debug, Clone, Copy, PartialEq, Eq)]
pub struct Quote {
    pub twice_midprice: u128,
    pub spread: u64,
}

/// What a chart shows of a book at one moment. Without orders on both sides there is no quote.
#[derive(Debug, Clone, Copy, PartialEq, Eq)]
pub struct ChartPoint {
    pub quote: Option<Quote>,
    pub bid_depth: u128,
    pub ask_depth: u128,
}

/// The quantity of levels together.
pub open spec fn levels_sum(levels: Seq<Level>) -> nat
    decreases levels.len(),
{
    if levels.len() == 0 {
        0
    } else {
        levels_sum(levels.drop_last()) + levels.last().quantity as nat
    }
}

/// What a chart shows of the best levels of both sides.
pub open spec fn point_of_levels(bids: Seq<Level>, asks: Seq<Level>) -> ChartPoint {
    ChartPoint {
        quote: if bids.len() == 0 || asks.len() == 0 {
            None
        } else {
            Some(
                Quote {
                    twice_midprice: (bids[0].price.0 + asks[0].price.0) as u128,
                    spread: (asks[0].price.0 - bids[0].price.0) as u64,
                },
            )
        },
        bid_depth: levels_sum(bids) as u128,
        ask_depth: levels_sum(asks) as u128,
    }
}

/// What a chart shows of a book: its midprice and spread, and the depth of its five best levels.
pub open spec fn point_of(book: BookView) -> ChartPoint {
    ChartPoint {
        quote: if book.bids.len() == 0 || book.asks.len() == 0 {
            None
        } else {
            Some(
                Quote {
                    twice_midprice: (book.bids[0].price.0 + book.asks[0].price.0) as u128,
                    spread: (book.asks[0].price.0 - book.bids[0].price.0) as u64,
                },
            )
        },
        bid_depth: book_laws::levels_quantity(model::visible(book.bids, CHART_LEVELS as nat)) as u128,
        ask_depth: book_laws::levels_quantity(model::visible(book.asks, CHART_LEVELS as nat)) as u128,
    }
}

/// The quantity of levels together.
fn depth_of(levels: &Vec<Level>) -> (depth: u128)
    ensures
        depth == levels_sum(levels@),
{
    let n: usize = levels.len();
    let mut depth: u128 = 0;
    let mut i: usize = 0;
    assert(levels@.take(0) =~= seq![]);
    while i < n
        invariant
            i <= n,
            n == levels@.len(),
            depth == levels_sum(levels@.take(i as int)),
            depth <= i * 0xffff_ffff_ffff_ffff,
        decreases n - i,
    {
        proof {
            assert(levels@.take(i + 1).drop_last() =~= levels@.take(i as int));
            assert(levels@.take(i + 1).last() == levels@[i as int]);
            assert(i * 0xffff_ffff_ffff_ffff <= 0xffff_ffff_ffff_fffe * 0xffff_ffff_ffff_ffff)
                by (nonlinear_arith)
                requires
                    i <= 0xffff_ffff_ffff_fffe,
            ;
        }
        depth = depth + levels[i].quantity as u128;
        i = i + 1;
    }
    assert(levels@.take(n as int) =~= levels@);
    depth
}

/// What a chart shows of the best levels of both sides.
pub fn chart_point(bids: &Vec<Level>, asks: &Vec<Level>) -> (point: ChartPoint)
    requires
        bids@.len() > 0 && asks@.len() > 0 ==> bids@[0].price.0 <= asks@[0].price.0,
    ensures
        point == point_of_levels(bids@, asks@),
{
    let quote = if bids.len() == 0 || asks.len() == 0 {
        None
    } else {
        Some(
            Quote {
                twice_midprice: bids[0].price.0 as u128 + asks[0].price.0 as u128,
                spread: asks[0].price.0 - bids[0].price.0,
            },
        )
    };
    ChartPoint { quote, bid_depth: depth_of(bids), ask_depth: depth_of(asks) }
}

/// The sum over levels as they are listed is the sum over the levels of the queue.
proof fn lemma_sum_of_levels(levels: Seq<Level>, all: Seq<LevelTotal>)
    requires
        levels.len() == all.len(),
        forall|i: int| 0 <= i < levels.len() ==> (#[trigger] levels[i]).quantity == all[i].quantity,
    ensures
        levels_sum(levels) == book_laws::levels_quantity(all),
    decreases levels.len(),
{
    if levels.len() > 0 {
        assert forall|i: int| 0 <= i < levels.drop_last().len() implies (
        #[trigger] levels.drop_last()[i]).quantity == all.drop_last()[i].quantity by {
            assert(levels[i].quantity == all[i].quantity);
        }
        lemma_sum_of_levels(levels.drop_last(), all.drop_last());
        lemma_levels_quantity_last(all);
        assert(levels[levels.len() - 1].quantity == all[all.len() - 1].quantity);
    }
}

proof fn lemma_levels_quantity_last(all: Seq<LevelTotal>)
    requires
        all.len() > 0,
    ensures
        book_laws::levels_quantity(all) == book_laws::levels_quantity(all.drop_last())
            + all.last().quantity,
    decreases all.len(),
{
    if all.len() == 1 {
        assert(all.drop_first() =~= seq![]);
        assert(all.drop_last() =~= seq![]);
        reveal_with_fuel(book_laws::levels_quantity, 2);
    } else {
        lemma_levels_quantity_last(all.drop_first());
        assert(all.drop_first().drop_last() =~= all.drop_last().drop_first());
        assert(all.drop_last()[0] == all[0]);
    }
}

/// The figures that are computed from the five best levels of a book are those of the book.
pub proof fn lemma_point_of_book(book: BookView, bids: Seq<Level>, asks: Seq<Level>)
    requires
        book.valid(),
        model::visible_fit(book.bids, CHART_LEVELS as nat),
        model::visible_fit(book.asks, CHART_LEVELS as nat),
        bids == model::shown_levels(book.bids, CHART_LEVELS as nat),
        asks == model::shown_levels(book.asks, CHART_LEVELS as nat),
    ensures
        bids.len() > 0 && asks.len() > 0 ==> bids[0].price.0 <= asks[0].price.0,
        point_of_levels(bids, asks) == point_of(book),
{
    lemma_best_level(book.bids, bids);
    lemma_best_level(book.asks, asks);
    lemma_sum_of_levels(bids, model::visible(book.bids, CHART_LEVELS as nat));
    lemma_sum_of_levels(asks, model::visible(book.asks, CHART_LEVELS as nat));
    if book.bids.len() > 0 && book.asks.len() > 0 {
        assert(book.bids[0].price.0 < book.asks[0].price.0);
    }
}

proof fn lemma_best_level(queue: Seq<Queued>, levels: Seq<Level>)
    requires
        levels == model::shown_levels(queue, CHART_LEVELS as nat),
    ensures
        levels.len() > 0 <==> queue.len() > 0,
        queue.len() > 0 ==> levels[0].price == queue[0].price,
{
    model::lemma_first_level(queue);
}

} // verus!
