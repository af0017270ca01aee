//! Fees, and what an order has to set aside.
use vstd::arithmetic::div_mod;
use vstd::arithmetic::mul;
use vstd::prelude::*;

verus! {

/// Ten thousand basis points are the whole.
pub const WHOLE_BPS: u32 = 10_000;

/// The fee of `bps` basis points on a notional, rounded down.
pub open spec fn fee(notional: nat, bps: nat) -> nat {
    notional * bps / (WHOLE_BPS as nat)
}

/// What a buy order for `quantity` at limit `price` sets aside: its notional and the fee on it.
pub open spec fn hold(price: nat, quantity: nat, bps: nat) -> nat {
    price * quantity + fee(price * quantity, bps)
}

proof fn lemma_fee_monotone(a: nat, b: nat, paid: nat, bps: nat)
    requires
        a <= b,
        paid <= bps,
    ensures
        fee(a, paid) <= fee(b, bps),
{
    assert(a * paid <= b * bps) by (nonlinear_arith)
        requires
            a <= b,
            paid <= bps,
    ;
    div_mod::lemma_div_is_ordered((a * paid) as int, (b * bps) as int, WHOLE_BPS as int);
}

/// A fee is no more than what it is charged on.
pub proof fn lemma_fee_bound(notional: nat, bps: nat)
    requires
        bps <= WHOLE_BPS,
    ensures
        fee(notional, bps) <= notional,
{
    assert(notional * bps <= notional * WHOLE_BPS) by (nonlinear_arith)
        requires
            bps <= WHOLE_BPS,
    ;
    assert(fee(notional, bps) <= notional) by (nonlinear_arith)
        requires
            notional * bps <= notional * WHOLE_BPS,
            WHOLE_BPS == 10_000,
            fee(notional, bps) == (notional * bps) / (WHOLE_BPS as nat),
    ;
}

/// Charging two parts separately costs no more than charging them together.
proof fn lemma_fee_superadditive(a: nat, b: nat, bps: nat)
    ensures
        fee(a, bps) + fee(b, bps) <= fee(a + b, bps),
{
    assert((a + b) * bps == a * bps + b * bps) by (nonlinear_arith);
    let x = a * bps;
    let y = b * bps;
    assert(x / 10_000 + y / 10_000 <= (x + y) / 10_000);
}

/// No trade costs the buyer more than its part of what the order set aside: `quantity` of the
/// `before` that were open, at `price` or better, at a fee no higher than the one provided for.
pub proof fn law_trade_costs_no_more_than_set_aside(
    limit: nat,
    before: nat,
    price: nat,
    quantity: nat,
    paid: nat,
    bps: nat,
)
    requires
        price <= limit,
        quantity <= before,
        paid <= bps,
    ensures
        hold(limit, (before - quantity) as nat, bps) <= hold(limit, before, bps),
        price * quantity + fee(price * quantity, paid) <= hold(limit, before, bps) - hold(
            limit,
            (before - quantity) as nat,
            bps,
        ),
{
    let after = (before - quantity) as nat;
    mul::lemma_mul_is_distributive_add(limit as int, after as int, quantity as int);
    assert(limit * before == limit * after + limit * quantity);
    assert(price * quantity <= limit * quantity) by (nonlinear_arith)
        requires
            price <= limit,
    ;
    lemma_fee_superadditive(limit * after, limit * quantity, bps);
    lemma_fee_monotone(price * quantity, limit * quantity, paid, bps);
}

/// An order without quantity sets nothing aside.
pub proof fn lemma_hold_of_nothing(price: nat, bps: nat)
    ensures
        hold(price, 0, bps) == 0,
{
    assert(price * 0 == 0);
    assert(0 * bps == 0);
}

/// The value of `quantity` at `price`.
pub fn notional_of(price: u64, quantity: u64) -> (notional: u128)
    ensures
        notional == price * quantity,
        notional <= 0xffff_ffff_ffff_fffe_0000_0000_0000_0001,
{
    assert(price * quantity <= 0xffff_ffff_ffff_ffff * 0xffff_ffff_ffff_ffff) by (nonlinear_arith)
        requires
            price <= 0xffff_ffff_ffff_ffff,
            quantity <= 0xffff_ffff_ffff_ffff,
    ;
    price as u128 * quantity as u128
}

/// The fee of `bps` basis points on `notional`.
pub fn fee_of(notional: u128, bps: u32) -> (result: u128)
    requires
        bps <= WHOLE_BPS,
    ensures
        result == fee(notional as nat, bps as nat),
        result <= notional,
{
    let whole: u128 = notional / 10_000;
    let part: u128 = notional % 10_000;
    proof {
        lemma_fee_bound(notional as nat, bps as nat);
        assert(notional * bps == 10_000 * (whole * bps) + part * bps) by (nonlinear_arith)
            requires
                notional == 10_000 * whole + part,
        ;
        assert(whole * bps <= whole * 10_000) by (nonlinear_arith)
            requires
                bps <= 10_000,
        ;
        assert(part * bps <= 10_000 * 10_000) by (nonlinear_arith)
            requires
                bps <= 10_000,
                part <= 10_000,
        ;
        let x = whole * bps;
        let y = part * bps;
        assert((10_000 * x + y) / 10_000 == x + y / 10_000);
    }
    whole * (bps as u128) + part * (bps as u128) / 10_000
}

/// What a buy order sets aside; `None` where a `u128` cannot hold it.
pub fn hold_of(price: u64, quantity: u64, bps: u32) -> (result: Option<u128>)
    requires
        bps <= WHOLE_BPS,
    ensures
        match result {
            Some(amount) => amount == hold(price as nat, quantity as nat, bps as nat),
            None => hold(price as nat, quantity as nat, bps as nat) > u128::MAX,
        },
{
    let notional: u128 = notional_of(price, quantity);
    let charge: u128 = fee_of(notional, bps);
    notional.checked_add(charge)
}

/// A fee is so many ten-thousandths of the notional, rounded down; and a purchase sets aside its
/// notional and the fee on it.
pub proof fn law_fee_is_rounded_down(price: nat, quantity: nat, bps: nat)
    ensures
        ({
            let notional = price * quantity;
            let charged = fee(notional, bps);
            &&& 10_000 * charged <= notional * bps < 10_000 * (charged + 1)
            &&& hold(price, quantity, bps) == notional + charged
        }),
{
    let x = price * quantity * bps;
    assert(10_000 * (x / 10_000) <= x < 10_000 * (x / 10_000 + 1));
}

} // verus!
