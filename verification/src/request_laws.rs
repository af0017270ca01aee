//! What the lines of order entry ask for, and how they are answered.
use vstd::prelude::*;

use crate::order_entry;
use crate::protocol::RequestView;
use crate::runtime::Command;
use crate::text;
use crate::types::{InstrumentId, NewOrder, OrderId, Side};
use crate::venue_model::VenueView;

verus! {

/// A word: at least one character, and no white space.
pub open spec fn is_word(s: Seq<char>) -> bool {
    s.len() > 0 && forall|i: int| 0 <= i < s.len() ==> !text::is_white(#[trigger] s[i])
}

/// Words with a blank between each two of them.
pub open spec fn spaced(parts: Seq<Seq<char>>) -> Seq<char>
    decreases parts.len(),
{
    if parts.len() == 0 {
        seq![]
    } else if parts.len() == 1 {
        parts[0]
    } else {
        parts[0] + seq![' '] + spaced(parts.drop_first())
    }
}

proof fn lemma_word_ends(word: Seq<char>, rest: Seq<char>)
    requires
        forall|i: int| 0 <= i < word.len() ==> !text::is_white(#[trigger] word[i]),
        rest.len() > 0 ==> text::is_white(rest[0]),
    ensures
        text::word_len(word + rest) == word.len(),
    decreases word.len(),
{
    let all = word + rest;
    if word.len() == 0 {
        assert(all =~= rest);
    } else {
        assert(all[0] == word[0]);
        assert(!text::is_white(word[0]));
        assert(all.skip(1) =~= word.skip(1) + rest);
        assert forall|i: int| 0 <= i < word.skip(1).len() implies !text::is_white(
            #[trigger] word.skip(1)[i],
        ) by {
            assert(!text::is_white(word[i + 1]));
        }
        lemma_word_ends(word.skip(1), rest);
    }
}

/// Words that were written with blanks between them are read back.
pub proof fn law_spaced_words_read_back(parts: Seq<Seq<char>>)
    requires
        forall|i: int| 0 <= i < parts.len() ==> is_word(#[trigger] parts[i]),
    ensures
        text::words(spaced(parts)) == parts,
    decreases parts.len(),
{
    let line = spaced(parts);
    if parts.len() > 0 {
        let word = parts[0];
        assert(is_word(word));
        let tail = parts.drop_first();
        assert forall|i: int| 0 <= i < tail.len() implies is_word(#[trigger] tail[i]) by {
            assert(is_word(parts[i + 1]));
        }
        law_spaced_words_read_back(tail);
        let rest = if parts.len() == 1 {
            seq![]
        } else {
            seq![' '] + spaced(tail)
        };
        assert(line =~= word + rest);
        lemma_word_ends(word, rest);
        assert(line[0] == word[0]);
        assert(!text::is_white(word[0]));
        let n = word.len() as int;
        assert(line.take(n) =~= word);
        assert(line.skip(n) =~= rest);
        if parts.len() == 1 {
            assert(text::words(rest) =~= seq![]);
            assert(tail =~= seq![]);
        } else {
            assert(rest[0] == ' ');
            assert(rest.skip(1) =~= spaced(tail));
            assert(text::words(rest) == tail);
        }
        assert(text::words(line) =~= seq![word] + tail);
        assert(seq![word] + tail =~= parts);
    }
}

/// A number in decimal is a word.
pub proof fn lemma_decimal_is_word(n: nat)
    ensures
        is_word(text::dec(n)),
{
    text::lemma_dec(n);
    assert forall|i: int| 0 <= i < text::dec(n).len() implies !text::is_white(#[trigger] text::dec(n)[i]) by {
        assert(text::is_digit(text::dec(n)[i]));
    }
}

/// The name of a side.
pub open spec fn side_word(side: Side) -> Seq<char> {
    if side is Buy {
        "buy"@
    } else {
        "sell"@
    }
}

proof fn lemma_side_word(side: Side)
    ensures
        is_word(side_word(side)),
        "buy"@ != "sell"@,
{
    reveal_strlit("buy");
    reveal_strlit("sell");
    assert("buy"@.len() != "sell"@.len());
}

/// The command words are words, and no two of them are the same.
pub proof fn lemma_command_words()
    ensures
        is_word("order"@),
        is_word("replace"@),
        is_word("cancel"@),
        is_word("book"@),
        "order"@ != "replace"@,
        "order"@ != "cancel"@,
        "order"@ != "book"@,
        "order"@ != "help"@,
        "order"@ != "instruments"@,
        "order"@ != "auth"@,
        "order"@ != "revenue"@,
        "replace"@ != "cancel"@,
        "replace"@ != "book"@,
        "replace"@ != "help"@,
        "replace"@ != "instruments"@,
        "replace"@ != "revenue"@,
        "cancel"@ != "book"@,
        "cancel"@ != "help"@,
        "cancel"@ != "instruments"@,
        "cancel"@ != "auth"@,
        "cancel"@ != "revenue"@,
        "book"@ != "help"@,
        "book"@ != "instruments"@,
        "book"@ != "auth"@,
        "account"@ != "help"@,
        "account"@ != "instruments"@,
        "account"@ != "book"@,
        "account"@ != "order"@,
        "account"@ != "replace"@,
        "account"@ != "cancel"@,
        "revenue"@ != "help"@,
        "revenue"@ != "instruments"@,
        "revenue"@ != "book"@,
        "revenue"@ != "replace"@,
        "revenue"@ != "account"@,
        "revenue"@ != "auth"@,
        "instruments"@ != "help"@,
        "instruments"@ != "auth"@,
        "help"@ != "auth"@,
{
    reveal_strlit("order");
    reveal_strlit("replace");
    reveal_strlit("cancel");
    reveal_strlit("book");
    reveal_strlit("help");
    reveal_strlit("instruments");
    reveal_strlit("auth");
    reveal_strlit("account");
    reveal_strlit("revenue");
    assert("book"@[0] != "help"@[0] && "book"@[0] != "auth"@[0] && "help"@[0] != "auth"@[0]);
    assert("replace"@[2] != "account"@[2] && "replace"@[2] != "revenue"@[2] && "account"@[0] != "revenue"@[0]);
}

/// Whether words are `order` and then, in this order, an instrument, an id, an account, a side, a
/// price and a quantity, and these are those of `order`.
pub open spec fn order_words(w: Seq<Seq<char>>, id: InstrumentId, order: NewOrder) -> bool {
    &&& w.len() == 7
    &&& w[0] == "order"@
    &&& text::parsed(w[1], 0xffff_ffff) == Some(id as nat)
    &&& text::parsed(w[2], 0xffff_ffff_ffff_ffff) == Some(order.order_id as nat)
    &&& text::parsed(w[3], 0xffff_ffff_ffff_ffff) == Some(order.account_id as nat)
    &&& w[4] == side_word(order.side)
    &&& text::parsed(w[5], 0xffff_ffff_ffff_ffff) == Some(order.price.0 as nat)
    &&& text::parsed(w[6], 0xffff_ffff_ffff_ffff) == Some(order.quantity as nat)
}

/// Whether words are `replace` and then, in this order, an instrument, the id of an order, and the
/// id, account, side, price and quantity of `order`.
pub open spec fn replace_words(
    w: Seq<Seq<char>>,
    id: InstrumentId,
    old_order_id: OrderId,
    order: NewOrder,
) -> bool {
    &&& w.len() == 8
    &&& w[0] == "replace"@
    &&& text::parsed(w[1], 0xffff_ffff) == Some(id as nat)
    &&& text::parsed(w[2], 0xffff_ffff_ffff_ffff) == Some(old_order_id as nat)
    &&& text::parsed(w[3], 0xffff_ffff_ffff_ffff) == Some(order.order_id as nat)
    &&& text::parsed(w[4], 0xffff_ffff_ffff_ffff) == Some(order.account_id as nat)
    &&& w[5] == side_word(order.side)
    &&& text::parsed(w[6], 0xffff_ffff_ffff_ffff) == Some(order.price.0 as nat)
    &&& text::parsed(w[7], 0xffff_ffff_ffff_ffff) == Some(order.quantity as nat)
}

/// Whether words are `cancel`, an instrument and the id of an order.
pub open spec fn cancel_words(w: Seq<Seq<char>>, id: InstrumentId, order_id: OrderId) -> bool {
    &&& w.len() == 3
    &&& w[0] == "cancel"@
    &&& text::parsed(w[1], 0xffff_ffff) == Some(id as nat)
    &&& text::parsed(w[2], 0xffff_ffff_ffff_ffff) == Some(order_id as nat)
}

/// A line runs a command if and only if its words name that command with these very terms.
pub proof fn law_line_runs_what_its_words_say(
    venue: VenueView,
    w: Seq<Seq<char>>,
    id: InstrumentId,
    old_order_id: OrderId,
    order: NewOrder,
)
    ensures
        order_entry::request_of(venue, w) == (RequestView::Run {
            instrument_id: id,
            command: Command::Submit { order },
        }) <==> order_words(w, id, order),
        order_entry::request_of(venue, w) == (RequestView::Run {
            instrument_id: id,
            command: Command::Replace { old_order_id, order },
        }) <==> replace_words(w, id, old_order_id, order),
        order_entry::request_of(venue, w) == (RequestView::Run {
            instrument_id: id,
            command: Command::Cancel { order_id: old_order_id },
        }) <==> cancel_words(w, id, old_order_id),
{
    lemma_command_words();
    lemma_side_word(order.side);
}

/// An order that was written as a line is read as that order.
pub proof fn law_order_line_reads_back(venue: VenueView, id: InstrumentId, order: NewOrder)
    ensures
        ({
            let line = spaced(
                seq![
                    "order"@,
                    text::dec(id as nat),
                    text::dec(order.order_id as nat),
                    text::dec(order.account_id as nat),
                    side_word(order.side),
                    text::dec(order.price.0 as nat),
                    text::dec(order.quantity as nat),
                ],
            );
            order_entry::request_of(venue, text::words(line)) == (RequestView::Run {
                instrument_id: id,
                command: Command::Submit { order },
            })
        }),
{
    let parts = seq![
        "order"@,
        text::dec(id as nat),
        text::dec(order.order_id as nat),
        text::dec(order.account_id as nat),
        side_word(order.side),
        text::dec(order.price.0 as nat),
        text::dec(order.quantity as nat),
    ];
    lemma_command_words();
    lemma_side_word(order.side);
    assert forall|i: int| 0 <= i < parts.len() implies is_word(#[trigger] parts[i]) by {
        lemma_decimal_is_word(id as nat);
        lemma_decimal_is_word(order.order_id as nat);
        lemma_decimal_is_word(order.account_id as nat);
        lemma_decimal_is_word(order.price.0 as nat);
        lemma_decimal_is_word(order.quantity as nat);
    }
    law_spaced_words_read_back(parts);
    text::law_decimal_reads_back(id as nat, 0xffff_ffff);
    text::law_decimal_reads_back(order.order_id as nat, 0xffff_ffff_ffff_ffff);
    text::law_decimal_reads_back(order.account_id as nat, 0xffff_ffff_ffff_ffff);
    text::law_decimal_reads_back(order.price.0 as nat, 0xffff_ffff_ffff_ffff);
    text::law_decimal_reads_back(order.quantity as nat, 0xffff_ffff_ffff_ffff);
    law_line_runs_what_its_words_say(venue, parts, id, 0, order);
}

/// A replacement that was written as a line is read as that replacement.
pub proof fn law_replace_line_reads_back(venue: VenueView, id: InstrumentId, old_order_id: OrderId, order: NewOrder)
    ensures
        ({
            let line = spaced(
                seq![
                    "replace"@,
                    text::dec(id as nat),
                    text::dec(old_order_id as nat),
                    text::dec(order.order_id as nat),
                    text::dec(order.account_id as nat),
                    side_word(order.side),
                    text::dec(order.price.0 as nat),
                    text::dec(order.quantity as nat),
                ],
            );
            order_entry::request_of(venue, text::words(line)) == (RequestView::Run {
                instrument_id: id,
                command: Command::Replace { old_order_id, order },
            })
        }),
{
    let parts = seq![
        "replace"@,
        text::dec(id as nat),
        text::dec(old_order_id as nat),
        text::dec(order.order_id as nat),
        text::dec(order.account_id as nat),
        side_word(order.side),
        text::dec(order.price.0 as nat),
        text::dec(order.quantity as nat),
    ];
    lemma_command_words();
    lemma_side_word(order.side);
    assert forall|i: int| 0 <= i < parts.len() implies is_word(#[trigger] parts[i]) by {
        lemma_decimal_is_word(id as nat);
        lemma_decimal_is_word(old_order_id as nat);
        lemma_decimal_is_word(order.order_id as nat);
        lemma_decimal_is_word(order.account_id as nat);
        lemma_decimal_is_word(order.price.0 as nat);
        lemma_decimal_is_word(order.quantity as nat);
    }
    law_spaced_words_read_back(parts);
    text::law_decimal_reads_back(id as nat, 0xffff_ffff);
    text::law_decimal_reads_back(old_order_id as nat, 0xffff_ffff_ffff_ffff);
    text::law_decimal_reads_back(order.order_id as nat, 0xffff_ffff_ffff_ffff);
    text::law_decimal_reads_back(order.account_id as nat, 0xffff_ffff_ffff_ffff);
    text::law_decimal_reads_back(order.price.0 as nat, 0xffff_ffff_ffff_ffff);
    text::law_decimal_reads_back(order.quantity as nat, 0xffff_ffff_ffff_ffff);
    law_line_runs_what_its_words_say(venue, parts, id, old_order_id, order);
}

/// A cancellation that was written as a line is read as that cancellation.
pub proof fn law_cancel_line_reads_back(venue: VenueView, id: InstrumentId, order_id: OrderId)
    ensures
        order_entry::request_of(
            venue,
            text::words(spaced(seq!["cancel"@, text::dec(id as nat), text::dec(order_id as nat)])),
        ) == (RequestView::Run { instrument_id: id, command: Command::Cancel { order_id } }),
{
    let parts = seq!["cancel"@, text::dec(id as nat), text::dec(order_id as nat)];
    lemma_command_words();
    assert forall|i: int| 0 <= i < parts.len() implies is_word(#[trigger] parts[i]) by {
        lemma_decimal_is_word(id as nat);
        lemma_decimal_is_word(order_id as nat);
    }
    law_spaced_words_read_back(parts);
    text::law_decimal_reads_back(id as nat, 0xffff_ffff);
    text::law_decimal_reads_back(order_id as nat, 0xffff_ffff_ffff_ffff);
    let order = NewOrder {
        order_id: 0,
        account_id: 0,
        side: Side::Buy,
        price: crate::types::Price(0),
        quantity: 0,
    };
    law_line_runs_what_its_words_say(venue, parts, id, order_id, order);
}

} // verus!
