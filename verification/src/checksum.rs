//! The CRC-32 checksum over the visible levels of a book.
use vstd::prelude::*;

use crate::text;
use crate::types::Level;

verus! {

/// One bit of the reflected CRC-32 division: the register is shifted, and the polynomial is
/// subtracted where a one falls out.
pub open spec fn crc_step(register: u32) -> u32 {
    if register & 1 == 1 {
        (register >> 1) ^ 0xedb8_8320
    } else {
        register >> 1
    }
}

pub open spec fn crc_steps(register: u32, count: nat) -> u32
    decreases count,
{
    if count == 0 {
        register
    } else {
        crc_step(crc_steps(register, (count - 1) as nat))
    }
}

/// The register after one more byte.
pub open spec fn crc_byte(register: u32, byte: u8) -> u32 {
    crc_steps(register ^ (byte as u32), 8)
}

/// The register after `bytes`.
pub open spec fn crc_register(bytes: Seq<u8>) -> u32
    decreases bytes.len(),
{
    if bytes.len() == 0 {
        0xffff_ffff
    } else {
        crc_byte(crc_register(bytes.drop_last()), bytes.last())
    }
}

/// The CRC-32 of `bytes`.
pub open spec fn crc32(bytes: Seq<u8>) -> u32 {
    !crc_register(bytes)
}

/// ASCII text as bytes.
pub open spec fn ascii(chars: Seq<char>) -> Seq<u8> {
    Seq::new(chars.len(), |i: int| chars[i] as u8)
}

/// The prices and quantities of `levels` in decimal, one after the other.
pub open spec fn levels_digits(levels: Seq<Level>) -> Seq<char>
    decreases levels.len(),
{
    if levels.len() == 0 {
        seq![]
    } else {
        levels_digits(levels.drop_last()) + text::dec(levels.last().price.0 as nat) + text::dec(
            levels.last().quantity as nat,
        )
    }
}

/// The checksum of a snapshot: over the asks first, then the bids.
pub open spec fn checksum_of(bids: Seq<Level>, asks: Seq<Level>) -> u32 {
    crc32(ascii(levels_digits(asks) + levels_digits(bids)))
}

/// A running CRC-32.
pub struct Crc32(u32);

impl Crc32 {
    /// The bytes fed so far determine the register.
    pub closed spec fn after(self, bytes: Seq<u8>) -> bool {
        self.0 == crc_register(bytes)
    }

    pub fn new() -> (crc: Self)
        ensures
            crc.after(seq![]),
    {
        Crc32(0xffff_ffff)
    }

    /// Feeds the decimal digits of `value`.
    pub fn update_u64(&mut self, value: u64)
        ensures
            forall|bytes: Seq<u8>| #[trigger]
                old(self).after(bytes) ==> final(self).after(bytes + ascii(text::dec(value as nat))),
    {
        let digits = to_ascii_bytes(value);
        let n: usize = digits.len();
        let mut i: usize = 0;
        proof {
            assert forall|bytes: Seq<u8>| #[trigger] old(self).after(bytes) implies self.after(
                bytes + digits@.take(0),
            ) by {
                assert(bytes + digits@.take(0) =~= bytes);
            }
        }
        while i < n
            invariant
                i <= n,
                n == digits@.len(),
                forall|bytes: Seq<u8>| #[trigger]
                    old(self).after(bytes) ==> self.after(bytes + digits@.take(i as int)),
            decreases n - i,
        {
            self.update_byte(digits[i]);
            proof {
                assert forall|bytes: Seq<u8>| #[trigger] old(self).after(bytes) implies self.after(
                    bytes + digits@.take(i + 1),
                ) by {
                    assert(bytes + digits@.take(i + 1) =~= (bytes + digits@.take(i as int)).push(
                        digits@[i as int],
                    ));
                }
            }
            i = i + 1;
        }
        assert(digits@.take(n as int) =~= digits@);
    }

    pub fn update_byte(&mut self, byte: u8)
        ensures
            forall|bytes: Seq<u8>| #[trigger] old(self).after(bytes) ==> final(self).after(bytes.push(byte)),
    {
        let ghost start = self.0 ^ (byte as u32);
        self.0 = self.0 ^ (byte as u32);
        let mut i: u32 = 0;
        while i < 8
            invariant
                i <= 8,
                self.0 == crc_steps(start, i as nat),
            decreases 8 - i,
        {
            let register: u32 = self.0;
            let mask: u32 = 0u32.wrapping_sub(register & 1);
            assert(register & 1 == 0 || register & 1 == 1) by (bit_vector);
            assert(0xedb8_8320u32 & 0u32 == 0u32) by (bit_vector);
            assert(0xedb8_8320u32 & 0xffff_ffffu32 == 0xedb8_8320u32) by (bit_vector);
            assert((register >> 1) ^ 0u32 == register >> 1) by (bit_vector);
            self.0 = (register >> 1) ^ (0xedb8_8320 & mask);
            i = i + 1;
        }
        proof {
            assert forall|bytes: Seq<u8>| #[trigger] old(self).after(bytes) implies self.after(
                bytes.push(byte),
            ) by {
                assert(bytes.push(byte).drop_last() =~= bytes);
            }
        }
    }

    pub fn finish(self) -> (crc: u32)
        ensures
            forall|bytes: Seq<u8>| #[trigger] self.after(bytes) ==> crc == crc32(bytes),
    {
        !self.0
    }
}

/// The decimal digits of `value` as ASCII bytes.
pub fn to_ascii_bytes(value: u64) -> (bytes: Vec<u8>)
    ensures
        bytes@ == ascii(text::dec(value as nat)),
    decreases value,
{
    let mut bytes: Vec<u8> = if value >= 10 {
        to_ascii_bytes(value / 10)
    } else {
        Vec::new()
    };
    bytes.push((value % 10) as u8 + 48);
    assert(bytes@ =~= ascii(text::dec(value as nat)));
    bytes
}

proof fn lemma_next_level(levels: Seq<Level>, i: int, bytes: Seq<u8>)
    requires
        0 <= i < levels.len(),
    ensures
        bytes + ascii(levels_digits(levels.take(i + 1))) == bytes + ascii(levels_digits(levels.take(i))) + ascii(
            text::dec(levels[i].price.0 as nat),
        ) + ascii(text::dec(levels[i].quantity as nat)),
{
    let next = levels.take(i + 1);
    assert(next.drop_last() =~= levels.take(i));
    assert(next.last() == levels[i]);
    let before = levels_digits(levels.take(i));
    let price = text::dec(levels[i].price.0 as nat);
    let quantity = text::dec(levels[i].quantity as nat);
    assert(levels_digits(next) == before + price + quantity);
    assert(ascii(before + price + quantity) =~= ascii(before) + ascii(price) + ascii(quantity));
    assert(bytes + (ascii(before) + ascii(price) + ascii(quantity)) =~= bytes + ascii(before) + ascii(price)
        + ascii(quantity));
}

/// Feeds the price and the quantity of each level.
fn update_levels(crc: &mut Crc32, levels: &[Level])
    ensures
        forall|bytes: Seq<u8>| #[trigger]
            old(crc).after(bytes) ==> final(crc).after(bytes + ascii(levels_digits(levels@))),
{
    let n: usize = levels.len();
    let mut i: usize = 0;
    proof {
        assert forall|bytes: Seq<u8>| #[trigger] old(crc).after(bytes) implies crc.after(
            bytes + ascii(levels_digits(levels@.take(0))),
        ) by {
            assert(bytes + ascii(levels_digits(levels@.take(0))) =~= bytes);
        }
    }
    while i < n
        invariant
            i <= n,
            n == levels@.len(),
            forall|bytes: Seq<u8>| #[trigger]
                old(crc).after(bytes) ==> crc.after(bytes + ascii(levels_digits(levels@.take(i as int)))),
        decreases n - i,
    {
        let ghost start = *crc;
        crc.update_u64(levels[i].price.0);
        let ghost priced = *crc;
        crc.update_u64(levels[i].quantity);
        proof {
            let price = ascii(text::dec(levels@[i as int].price.0 as nat));
            assert forall|bytes: Seq<u8>| #[trigger] old(crc).after(bytes) implies crc.after(
                bytes + ascii(levels_digits(levels@.take(i + 1))),
            ) by {
                let before = bytes + ascii(levels_digits(levels@.take(i as int)));
                assert(start.after(before));
                assert(priced.after(before + price));
                lemma_next_level(levels@, i as int, bytes);
            }
        }
        i = i + 1;
    }
    assert(levels@.take(n as int) =~= levels@);
}

/// The checksum by which a client detects missed or corrupt updates.
pub fn checksum(bids: &[Level], asks: &[Level]) -> (crc: u32)
    ensures
        crc == checksum_of(bids@, asks@),
{
    let mut crc = Crc32::new();
    update_levels(&mut crc, asks);
    update_levels(&mut crc, bids);
    assert(seq![] + ascii(levels_digits(asks@)) + ascii(levels_digits(bids@)) =~= ascii(
        levels_digits(asks@) + levels_digits(bids@),
    ));
    crc.finish()
}

proof fn lemma_step_injective(a: u32, b: u32)
    ensures
        crc_step(a) == crc_step(b) ==> a == b,
{
    assert((if a & 1 == 1 { (a >> 1) ^ 0xedb8_8320 } else { a >> 1 }) == (if b & 1 == 1 {
        (b >> 1) ^ 0xedb8_8320
    } else {
        b >> 1
    }) ==> a == b) by (bit_vector);
}

proof fn lemma_steps_injective(a: u32, b: u32, count: nat)
    requires
        crc_steps(a, count) == crc_steps(b, count),
    ensures
        a == b,
    decreases count,
{
    if count > 0 {
        lemma_step_injective(
            crc_steps(a, (count - 1) as nat),
            crc_steps(b, (count - 1) as nat),
        );
        lemma_steps_injective(a, b, (count - 1) as nat);
    }
}

/// Different registers stay different over the same byte, and different bytes make equal registers
/// different.
proof fn lemma_byte_injective(r: u32, a: u8, s: u32, b: u8)
    requires
        crc_byte(r, a) == crc_byte(s, b),
    ensures
        a == b ==> r == s,
        r == s ==> a == b,
{
    lemma_steps_injective(r ^ (a as u32), s ^ (b as u32), 8);
    assert(r ^ (a as u32) == s ^ (b as u32) && a == b ==> r == s) by (bit_vector);
    assert(r ^ (a as u32) == s ^ (b as u32) && r == s ==> a == b) by (bit_vector);
}

proof fn lemma_register_after_change(x: Seq<u8>, y: Seq<u8>, i: int)
    requires
        x.len() == y.len(),
        0 <= i < x.len(),
        x[i] != y[i],
        forall|j: int| 0 <= j < x.len() && j != i ==> #[trigger] x[j] == y[j],
    ensures
        crc_register(x) != crc_register(y),
    decreases x.len(),
{
    let p = x.drop_last();
    let q = y.drop_last();
    if i == x.len() - 1 {
        assert(p =~= q);
    } else {
        lemma_register_after_change(p, q, i);
    }
    if crc_register(x) == crc_register(y) {
        lemma_byte_injective(crc_register(p), x.last(), crc_register(q), y.last());
    }
}

/// A change to a single byte always changes the checksum.
pub proof fn law_single_byte_change_is_detected(x: Seq<u8>, y: Seq<u8>, i: int)
    requires
        x.len() == y.len(),
        0 <= i < x.len(),
        x[i] != y[i],
        forall|j: int| 0 <= j < x.len() && j != i ==> #[trigger] x[j] == y[j],
    ensures
        crc32(x) != crc32(y),
{
    lemma_register_after_change(x, y, i);
    let a = crc_register(x);
    let b = crc_register(y);
    assert(a != b ==> !a != !b) by (bit_vector);
}

/// Every level is under the checksum: one more level adds the digits of its price and of its
/// quantity, and without levels there are none.
pub proof fn law_every_level_adds_its_digits(levels: Seq<Level>, level: Level)
    ensures
        levels_digits(seq![]) == Seq::<char>::empty(),
        levels_digits(levels.push(level)) == levels_digits(levels) + text::dec(level.price.0 as nat)
            + text::dec(level.quantity as nat),
{
    assert(levels.push(level).drop_last() =~= levels);
}

proof fn lemma_levels_digits(levels: Seq<Level>)
    ensures
        text::all_digits(levels_digits(levels)),
    decreases levels.len(),
{
    if levels.len() > 0 {
        lemma_levels_digits(levels.drop_last());
        text::lemma_dec(levels.last().price.0 as nat);
        text::lemma_dec(levels.last().quantity as nat);
    }
}

/// Two snapshots whose digits, asks first and then bids, differ in one place have different
/// checksums.
pub proof fn law_changed_digit_is_detected(
    bids: Seq<Level>,
    asks: Seq<Level>,
    other_bids: Seq<Level>,
    other_asks: Seq<Level>,
    i: int,
)
    requires
        ({
            let x = levels_digits(asks) + levels_digits(bids);
            let y = levels_digits(other_asks) + levels_digits(other_bids);
            &&& x.len() == y.len()
            &&& 0 <= i < x.len()
            &&& x[i] != y[i]
            &&& forall|j: int| 0 <= j < x.len() && j != i ==> #[trigger] x[j] == y[j]
        }),
    ensures
        checksum_of(bids, asks) != checksum_of(other_bids, other_asks),
{
    let x = levels_digits(asks) + levels_digits(bids);
    let y = levels_digits(other_asks) + levels_digits(other_bids);
    lemma_levels_digits(asks);
    lemma_levels_digits(bids);
    lemma_levels_digits(other_asks);
    lemma_levels_digits(other_bids);
    assert(text::is_digit(x[i]) && text::is_digit(y[i]));
    assert(ascii(x)[i] != ascii(y)[i]);
    assert forall|j: int| 0 <= j < ascii(x).len() && j != i implies #[trigger] ascii(x)[j] == ascii(y)[j] by {
        assert(x[j] == y[j]);
    }
    law_single_byte_change_is_detected(ascii(x), ascii(y), i);
}

/// A changed quantity of any level, of as many digits as before and other in one of them, changes
/// the checksum.
pub proof fn law_changed_quantity_is_detected(
    before: Seq<Level>,
    level: Level,
    behind: Seq<Level>,
    asks: Seq<Level>,
    quantity: u64,
    k: int,
)
    requires
        ({
            let x = text::dec(level.quantity as nat);
            let y = text::dec(quantity as nat);
            &&& x.len() == y.len()
            &&& 0 <= k < x.len()
            &&& x[k] != y[k]
            &&& forall|j: int| 0 <= j < x.len() && j != k ==> #[trigger] x[j] == y[j]
        }),
    ensures
        ({
            let changed = Level { quantity, ..level };
            &&& checksum_of(before.push(level) + behind, asks) != checksum_of(
                before.push(changed) + behind,
                asks,
            )
            &&& checksum_of(asks, before.push(level) + behind) != checksum_of(
                asks,
                before.push(changed) + behind,
            )
        }),
{
    let changed = Level { quantity, ..level };
    let x = text::dec(level.quantity as nat);
    let y = text::dec(quantity as nat);
    let head = levels_digits(before) + text::dec(level.price.0 as nat);
    let tail = levels_digits(behind);
    lemma_digits_of_parts(before, level, behind);
    lemma_digits_of_parts(before, changed, behind);
    let a = levels_digits(before.push(level) + behind);
    let b = levels_digits(before.push(changed) + behind);
    let other = levels_digits(asks);
    let at = head.len() + k;
    assert(a.len() == b.len());
    assert forall|j: int| 0 <= j < a.len() && j != at implies #[trigger] a[j] == b[j] by {
        if head.len() <= j < head.len() + x.len() {
            assert(x[j - head.len()] == y[j - head.len()]);
        }
    }
    assert(a[at] == x[k] && b[at] == y[k]);
    law_changed_digit_is_detected(
        before.push(level) + behind,
        asks,
        before.push(changed) + behind,
        asks,
        other.len() + at,
    );
    law_changed_digit_is_detected(
        asks,
        before.push(level) + behind,
        asks,
        before.push(changed) + behind,
        at,
    );
}

proof fn lemma_digits_of_parts(before: Seq<Level>, level: Level, behind: Seq<Level>)
    ensures
        levels_digits(before.push(level) + behind) == levels_digits(before) + text::dec(level.price.0 as nat)
            + text::dec(level.quantity as nat) + levels_digits(behind),
    decreases behind.len(),
{
    let all = before.push(level) + behind;
    let head = levels_digits(before) + text::dec(level.price.0 as nat) + text::dec(level.quantity as nat);
    if behind.len() == 0 {
        assert(all =~= before.push(level));
        assert(all.drop_last() =~= before);
        assert(head + levels_digits(behind) =~= head);
    } else {
        assert(all.drop_last() =~= before.push(level) + behind.drop_last());
        lemma_digits_of_parts(before, level, behind.drop_last());
        let last = behind.last();
        assert(all.last() == last);
        let p = text::dec(last.price.0 as nat);
        let q = text::dec(last.quantity as nat);
        let rest = levels_digits(behind.drop_last());
        assert(head + rest + p + q =~= head + (rest + p + q));
    }
}

/// One step of the division is linear over the bits, shifts an even register, and makes the reversed
/// polynomial of a lone lowest bit.
pub proof fn law_step_divides_by_the_polynomial(a: u32, b: u32)
    ensures
        crc_step(a ^ b) == crc_step(a) ^ crc_step(b),
        crc_step(1) == 0xedb8_8320,
        a < 0x8000_0000 ==> crc_step((2 * a) as u32) == a,
{
    assert((if (a ^ b) & 1 == 1 { ((a ^ b) >> 1) ^ 0xedb8_8320 } else { (a ^ b) >> 1 }) == (if a & 1 == 1 {
        (a >> 1) ^ 0xedb8_8320
    } else {
        a >> 1
    }) ^ (if b & 1 == 1 { (b >> 1) ^ 0xedb8_8320 } else { b >> 1 })) by (bit_vector);
    assert(1u32 & 1 == 1 && (1u32 >> 1) ^ 0xedb8_8320 == 0xedb8_8320) by (bit_vector);
    if a < 0x8000_0000 {
        let twice = (2 * a) as u32;
        assert(twice & 1 != 1 && twice >> 1 == a) by (bit_vector)
            requires
                twice == 2 * a,
        ;
    }
}

/// The checksum of nothing is zero, and one more byte goes in by eight steps on the inverted
/// checksum.
pub proof fn law_byte_goes_in_by_eight_steps(bytes: Seq<u8>, byte: u8)
    ensures
        crc32(seq![]) == 0,
        crc32(bytes.push(byte)) == !crc_step(
            crc_step(
                crc_step(
                    crc_step(crc_step(crc_step(crc_step(crc_step(!crc32(bytes) ^ (byte as u32)))))),
                ),
            ),
        ),
{
    assert(!0xffff_ffffu32 == 0u32) by (bit_vector);
    let register = crc_register(bytes);
    assert(!(!register) == register) by (bit_vector);
    assert(bytes.push(byte).drop_last() =~= bytes);
    reveal_with_fuel(crc_steps, 9);
}

/// The checksum of a snapshot is that of its digits in ASCII, the asks before the bids.
pub proof fn law_checksum_is_over_asks_and_bids(bids: Seq<Level>, asks: Seq<Level>, bytes: Seq<u8>)
    requires
        bytes.len() == levels_digits(asks).len() + levels_digits(bids).len(),
        forall|i: int|
            0 <= i < levels_digits(asks).len() ==> #[trigger] bytes[i] == levels_digits(asks)[i] as u8,
        forall|i: int|
            0 <= i < levels_digits(bids).len() ==> bytes[levels_digits(asks).len() + i]
                == #[trigger] levels_digits(bids)[i] as u8,
    ensures
        checksum_of(bids, asks) == crc32(bytes),
{
    let all = levels_digits(asks) + levels_digits(bids);
    assert forall|i: int| 0 <= i < bytes.len() implies bytes[i] == #[trigger] ascii(all)[i] by {
        if i >= levels_digits(asks).len() {
            assert(bytes[i] == levels_digits(bids)[i - levels_digits(asks).len()] as u8);
        }
    }
    assert(ascii(all) =~= bytes);
}

} // verus!
