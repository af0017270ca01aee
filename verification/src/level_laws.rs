//! What a view of a book lists of each side.
use vstd::prelude::*;

use crate::book;
use crate::checksum;
use crate::events;
use crate::model;
use crate::model::{BookView, LevelTotal, Queued};
use crate::text;
use crate::types::{BookSnapshot, Level, Price, Side};

verus! {

/// The prices at which orders of a queue rest.
pub open spec fn prices(queue: Seq<Queued>) -> Set<Price> {
    queue.map_values(|q: Queued| q.price).to_set()
}

/// What rests at one price.
pub open spec fn resting_at(queue: Seq<Queued>, price: Price) -> nat
    decreases queue.len(),
{
    if queue.len() == 0 {
        0
    } else {
        resting_at(queue.drop_first(), price) + (if queue[0].price == price {
            queue[0].order.quantity as nat
        } else {
            0
        })
    }
}

/// Whether `levels` are the best levels of a side: as many as were asked for, or one for each price
/// where there are fewer prices; best price first; each with all that rests at its price; and every
/// price that is left out worse than each that is listed.
pub open spec fn best_levels(levels: Seq<Level>, queue: Seq<Queued>, side: Side, depth: nat) -> bool {
    &&& levels.len() == (if depth < prices(queue).len() {
        depth
    } else {
        prices(queue).len()
    })
    &&& forall|i: int, j: int|
        0 <= i < j < levels.len() ==> (if side is Buy {
            (#[trigger] levels[i]).price.0 > (#[trigger] levels[j]).price.0
        } else {
            levels[i].price.0 < levels[j].price.0
        })
    &&& forall|i: int|
        0 <= i < levels.len() ==> prices(queue).contains((#[trigger] levels[i]).price)
            && levels[i].quantity == resting_at(queue, levels[i].price)
    &&& forall|k: int, i: int|
        0 <= k < queue.len() && 0 <= i < levels.len() && (forall|j: int|
            0 <= j < levels.len() ==> (#[trigger] levels[j]).price != queue[k].price) ==> (if side is Buy {
            (#[trigger] queue[k]).price.0 < (#[trigger] levels[i]).price.0
        } else {
            queue[k].price.0 > levels[i].price.0
        })
}

proof fn lemma_nothing_rests(queue: Seq<Queued>, price: Price)
    requires
        forall|i: int| 0 <= i < queue.len() ==> (#[trigger] queue[i]).price != price,
    ensures
        resting_at(queue, price) == 0,
    decreases queue.len(),
{
    if queue.len() > 0 {
        let tail = queue.drop_first();
        assert forall|i: int| 0 <= i < tail.len() implies (#[trigger] tail[i]).price != price by {
            assert(tail[i] == queue[i + 1]);
        }
        lemma_nothing_rests(tail, price);
    }
}

/// A level has what rests at its price, and an order with this price is in the queue.
proof fn lemma_level_holds_its_price(queue: Seq<Queued>, side: Side, i: int) -> (k: int)
    requires
        model::in_priority(queue, side),
        0 <= i < model::price_levels(queue).len(),
    ensures
        model::price_levels(queue)[i].quantity == resting_at(queue, model::price_levels(queue)[i].price),
        0 <= k < queue.len(),
        queue[k].price == model::price_levels(queue)[i].price,
    decreases queue.len(),
{
    let all = model::price_levels(queue);
    let tail = queue.drop_first();
    let rest = model::price_levels(tail);
    let merged = rest.len() > 0 && rest[0].price == queue[0].price;
    assert forall|x: int, y: int| 0 <= x <= y < tail.len() implies model::no_worse(
        side,
        (#[trigger] tail[x]).price,
        (#[trigger] tail[y]).price,
    ) by {
        assert(model::no_worse(side, queue[x + 1].price, queue[y + 1].price));
    }
    model::lemma_first_level(tail);
    if i == 0 {
        if merged {
            let k = lemma_level_holds_its_price(tail, side, 0);
        } else {
            lemma_next_price_differs(queue, side);
            lemma_nothing_rests(tail, queue[0].price);
        }
        0
    } else {
        let at = if merged {
            i
        } else {
            i - 1
        };
        let k = lemma_level_holds_its_price(tail, side, at);
        assert(all[i] == rest[at]);
        assert(tail[k] == queue[k + 1]);
        if merged {
            lemma_levels_differ(tail, side, 0, i);
        } else {
            lemma_next_price_differs(queue, side);
            assert(tail[k].price != queue[0].price);
        }
        k + 1
    }
}

/// Where the second order has another price than the first, so have all that follow.
proof fn lemma_next_price_differs(queue: Seq<Queued>, side: Side)
    requires
        model::in_priority(queue, side),
        queue.len() > 0,
        queue.len() > 1 ==> queue[1].price != queue[0].price,
    ensures
        forall|i: int| 0 <= i < queue.drop_first().len() ==> (#[trigger] queue.drop_first()[i]).price
            != queue[0].price,
{
    assert forall|i: int| 0 <= i < queue.drop_first().len() implies (#[trigger] queue.drop_first()[i]).price
        != queue[0].price by {
        assert(model::no_worse(side, queue[0].price, queue[1].price));
        assert(model::no_worse(side, queue[1].price, queue[i + 1].price));
    }
}

/// The price of every order is that of a level.
proof fn lemma_price_is_listed(queue: Seq<Queued>, k: int) -> (i: int)
    requires
        0 <= k < queue.len(),
    ensures
        0 <= i < model::price_levels(queue).len(),
        model::price_levels(queue)[i].price == queue[k].price,
    decreases queue.len(),
{
    let all = model::price_levels(queue);
    let tail = queue.drop_first();
    let rest = model::price_levels(tail);
    model::lemma_first_level(queue);
    if k == 0 {
        0
    } else {
        let i = lemma_price_is_listed(tail, k - 1);
        if rest.len() > 0 && rest[0].price == queue[0].price {
            assert(all[i].price == rest[i].price);
            i
        } else {
            assert(all[i + 1] == rest[i]);
            i + 1
        }
    }
}

/// No two levels have the same price; the earlier one has the better price.
proof fn lemma_levels_differ(queue: Seq<Queued>, side: Side, i: int, j: int)
    requires
        model::in_priority(queue, side),
        0 <= i < j < model::price_levels(queue).len(),
    ensures
        model::better(side, model::price_levels(queue)[i].price, model::price_levels(queue)[j].price),
    decreases queue.len(),
{
    let all = model::price_levels(queue);
    let tail = queue.drop_first();
    let rest = model::price_levels(tail);
    model::lemma_first_level(tail);
    if rest.len() > 0 {
        assert(model::no_worse(side, queue[0].price, queue[1].price));
    }
    if rest.len() > 0 && rest[0].price == queue[0].price {
        lemma_levels_differ(tail, side, i, j);
        assert(all[i].price == rest[i].price);
        assert(all[j].price == rest[j].price);
    } else {
        assert(all[j] == rest[j - 1]);
        if i > 0 {
            lemma_levels_differ(tail, side, i - 1, j - 1);
            assert(all[i] == rest[i - 1]);
        } else if j > 1 {
            lemma_levels_differ(tail, side, 0, j - 1);
        }
    }
}

/// There are as many levels as prices.
proof fn lemma_one_level_per_price(queue: Seq<Queued>, side: Side)
    requires
        model::in_priority(queue, side),
    ensures
        model::price_levels(queue).len() == prices(queue).len(),
{
    let all = model::price_levels(queue);
    let listed = all.map_values(|l: LevelTotal| l.price);
    let resting = queue.map_values(|q: Queued| q.price);
    assert(listed.no_duplicates()) by {
        assert forall|i: int, j: int| 0 <= i < listed.len() && 0 <= j < listed.len() && i != j implies listed[i]
            != listed[j] by {
            if i < j {
                lemma_levels_differ(queue, side, i, j);
            } else {
                lemma_levels_differ(queue, side, j, i);
            }
        }
    }
    listed.unique_seq_to_set();
    assert(listed.to_set() =~= prices(queue)) by {
        assert forall|p: Price| listed.to_set().contains(p) <==> prices(queue).contains(p) by {
            if listed.contains(p) {
                let i = choose|i: int| 0 <= i < listed.len() && listed[i] == p;
                let k = lemma_level_holds_its_price(queue, side, i);
                assert(resting[k] == p);
            }
            if resting.contains(p) {
                let k = choose|k: int| 0 <= k < resting.len() && resting[k] == p;
                let i = lemma_price_is_listed(queue, k);
                assert(listed[i] == p);
            }
        }
    }
}

/// The levels that are shown of a side are its best levels, to the depth that was asked for.
pub proof fn law_best_levels_are_shown(queue: Seq<Queued>, side: Side, depth: nat)
    requires
        model::in_priority(queue, side),
        model::visible_fit(queue, depth),
    ensures
        best_levels(model::shown_levels(queue, depth), queue, side, depth),
{
    let all = model::price_levels(queue);
    let levels = model::shown_levels(queue, depth);
    lemma_one_level_per_price(queue, side);
    assert forall|i: int| 0 <= i < levels.len() implies (#[trigger] levels[i]).price == all[i].price
        && levels[i].quantity == all[i].quantity by {
        assert(model::visible(queue, depth)[i] == all[i]);
    }
    assert forall|i: int, j: int| 0 <= i < j < levels.len() implies (if side is Buy {
        (#[trigger] levels[i]).price.0 > (#[trigger] levels[j]).price.0
    } else {
        levels[i].price.0 < levels[j].price.0
    }) by {
        lemma_levels_differ(queue, side, i, j);
    }
    assert forall|i: int| 0 <= i < levels.len() implies prices(queue).contains((#[trigger] levels[i]).price)
        && levels[i].quantity == resting_at(queue, levels[i].price) by {
        let k = lemma_level_holds_its_price(queue, side, i);
        assert(queue.map_values(|q: Queued| q.price)[k] == all[i].price);
    }
    assert forall|k: int, i: int|
        0 <= k < queue.len() && 0 <= i < levels.len() && (forall|j: int|
            0 <= j < levels.len() ==> (#[trigger] levels[j]).price != queue[k].price) implies (if side is Buy {
        (#[trigger] queue[k]).price.0 < (#[trigger] levels[i]).price.0
    } else {
        queue[k].price.0 > levels[i].price.0
    }) by {
        let l = lemma_price_is_listed(queue, k);
        if l < levels.len() {
            assert(levels[l].price == queue[k].price);
        }
        lemma_levels_differ(queue, side, i, l);
    }
}

/// A snapshot has the sequence number of its book, the best levels of both sides, and the checksum
/// over them.
pub proof fn law_snapshot_shows_the_best_levels(snapshot: BookSnapshot, book: BookView, depth: nat)
    requires
        book.valid(),
        model::visible_fit(book.bids, depth),
        model::visible_fit(book.asks, depth),
        book::is_snapshot(snapshot, book, depth),
    ensures
        snapshot.seq == book.seq,
        best_levels(snapshot.bids@, book.bids, Side::Buy, depth),
        best_levels(snapshot.asks@, book.asks, Side::Sell, depth),
        snapshot.checksum == checksum::checksum_of(snapshot.bids@, snapshot.asks@),
{
    law_best_levels_are_shown(book.bids, Side::Buy, depth);
    law_best_levels_are_shown(book.asks, Side::Sell, depth);
}

/// A list of levels gives for each, in turn, the quantity, an at sign and the price, with commas
/// between them; an empty list is a dash.
pub proof fn law_levels_are_listed_in_turn(levels: Seq<Level>, level: Level)
    ensures
        events::levels_text(seq![]) == "-"@,
        events::levels_text(seq![level]) == text::dec(level.quantity as nat) + "@"@ + text::dec(
            level.price.0 as nat,
        ),
        levels.len() > 0 ==> events::levels_text(levels.push(level)) == events::levels_text(levels) + ","@ + (
        text::dec(level.quantity as nat) + "@"@ + text::dec(level.price.0 as nat)),
{
    let one = Seq::new(1, |i: int| events::level_text(seq![level][i]));
    assert(one[0] == events::level_text(level));
    if levels.len() > 0 {
        let more = levels.push(level);
        let parts = Seq::new(more.len(), |i: int| events::level_text(more[i]));
        assert(parts.drop_last() =~= Seq::new(levels.len(), |i: int| events::level_text(levels[i])));
        assert(parts.last() == events::level_text(level));
    }
}

/// The totals of a side can all be shown if and only if what rests at each price fits a `Quantity`.
pub proof fn law_levels_fit_by_price(queue: Seq<Queued>, side: Side)
    requires
        model::in_priority(queue, side),
    ensures
        model::levels_fit(queue) <==> forall|price: Price| #[trigger] resting_at(queue, price)
            <= 0xffff_ffff_ffff_ffff,
{
    let all = model::price_levels(queue);
    if model::levels_fit(queue) {
        assert forall|price: Price| #[trigger] resting_at(queue, price) <= 0xffff_ffff_ffff_ffff by {
            if exists|k: int| 0 <= k < queue.len() && (#[trigger] queue[k]).price == price {
                let k = choose|k: int| 0 <= k < queue.len() && (#[trigger] queue[k]).price == price;
                let i = lemma_price_is_listed(queue, k);
                let k = lemma_level_holds_its_price(queue, side, i);
                assert(all[i].quantity <= u64::MAX);
            } else {
                lemma_nothing_rests(queue, price);
            }
        }
    }
    if forall|price: Price| #[trigger] resting_at(queue, price) <= 0xffff_ffff_ffff_ffff {
        assert forall|i: int| 0 <= i < all.len() implies (#[trigger] all[i]).quantity <= u64::MAX by {
            let k = lemma_level_holds_its_price(queue, side, i);
            assert(resting_at(queue, all[i].price) <= 0xffff_ffff_ffff_ffff);
        }
    }
}

} // verus!
