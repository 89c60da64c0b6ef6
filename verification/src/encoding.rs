//! How a pin state is spread over the pins and written out as a string of
//! digits: pin `i` carries bit `i` of the state, so the first pin holds the
//! least significant bit.
use vstd::prelude::*;
use vstd::arithmetic::power2::{pow2, lemma_pow2_unfold, lemma_pow2_pos};
use vstd::arithmetic::div_mod::lemma_mod_breakdown;

verus! {

/// What a change of pin state comes to: the digits of the state before and
/// after it, and the level that each pin is to be driven to.
pub struct Transition<const N: usize> {
    /// The digits of the state before the change, first pin first.
    pub before: [u8; N],
    /// The digits of the state after the change, first pin first.
    pub after: [u8; N],
    /// The level of each pin after the change, `true` for high.
    pub levels: [bool; N],
}

/// The lowest `width` bits of `value`, least significant first.
pub open spec fn lsb_bits(value: nat, width: nat) -> Seq<bool>
    decreases width,
{
    if width == 0 {
        Seq::empty()
    } else {
        seq![value % 2 == 1] + lsb_bits(value / 2, (width - 1) as nat)
    }
}

/// The number that a sequence of bits stands for, least significant first.
pub open spec fn bits_value(bits: Seq<bool>) -> nat
    decreases bits.len(),
{
    if bits.len() == 0 {
        0
    } else {
        (if bits[0] { 1nat } else { 0nat }) + 2 * bits_value(bits.drop_first())
    }
}

/// The ASCII digit that shows one bit: `b'1'` for a set bit, `b'0'` otherwise.
pub open spec fn digit(bit: bool) -> u8 {
    if bit { 49u8 } else { 48u8 }
}

/// The digits that show the lowest `width` bits of `value`, least significant first.
pub open spec fn binary_digits(value: nat, width: nat) -> Seq<u8> {
    lsb_bits(value, width).map_values(|b: bool| digit(b))
}

/// The index of the highest set bit of a positive number.
pub open spec fn floor_log2(n: nat) -> nat
    decreases n,
{
    if n < 2 {
        0
    } else {
        1 + floor_log2(n / 2)
    }
}

/// The number of pins needed to show every state from `0` to `names_len`.
pub open spec fn pins_needed(names_len: nat) -> nat {
    floor_log2(names_len) + 1
}

/// `lsb_bits` yields exactly `width` bits.
pub proof fn lemma_lsb_bits_len(value: nat, width: nat)
    ensures
        #[trigger] lsb_bits(value, width).len() == width,
    decreases width,
{
    if width > 0 {
        lemma_lsb_bits_len(value / 2, (width - 1) as nat);
    }
}

/// Bit `i` of the spread is bit `i` of the number.
pub proof fn lemma_lsb_bits_index(value: nat, width: nat, i: nat)
    requires
        i < width,
    ensures
        lsb_bits(value, width)[i as int] == ((value / pow2(i)) % 2 == 1),
    decreases i,
{
    lemma_lsb_bits_len(value, width);
    lemma_lsb_bits_len(value / 2, (width - 1) as nat);
    if i == 0 {
        assert(pow2(0) == 1) by {
            vstd::arithmetic::power2::lemma2_to64();
        }
    } else {
        lemma_lsb_bits_index(value / 2, (width - 1) as nat, (i - 1) as nat);
        lemma_pow2_unfold(i);
        lemma_pow2_pos((i - 1) as nat);
        vstd::arithmetic::div_mod::lemma_div_denominator(value as int, 2, pow2((i - 1) as nat) as int);
    }
}

/// Reading the lowest `width` bits back gives the number modulo `2^width`.
pub proof fn lemma_bits_value_lsb_bits(value: nat, width: nat)
    ensures
        bits_value(lsb_bits(value, width)) == value % pow2(width),
    decreases width,
{
    if width == 0 {
        assert(pow2(0) == 1) by {
            vstd::arithmetic::power2::lemma2_to64();
        }
    } else {
        let rest = lsb_bits(value / 2, (width - 1) as nat);
        lemma_bits_value_lsb_bits(value / 2, (width - 1) as nat);
        assert(lsb_bits(value, width).drop_first() =~= rest);
        lemma_pow2_unfold(width);
        lemma_pow2_pos((width - 1) as nat);
        lemma_mod_breakdown(value as int, 2, pow2((width - 1) as nat) as int);
    }
}

/// Every bit of zero is clear: in state `0` every pin is low.
pub proof fn lemma_lsb_bits_zero(width: nat)
    ensures
        forall|i: int| 0 <= i < width ==> !#[trigger] lsb_bits(0, width)[i],
    decreases width,
{
    lemma_lsb_bits_len(0, width);
    if width > 0 {
        lemma_lsb_bits_zero((width - 1) as nat);
        assert forall|i: int| 0 <= i < width implies !#[trigger] lsb_bits(0, width)[i] by {
            if i > 0 {
                assert(lsb_bits(0, width)[i] == lsb_bits(0, (width - 1) as nat)[i - 1]);
            }
        }
    }
}

/// A positive number lies between `2^floor_log2(n)` and `2^(floor_log2(n) + 1)`.
pub proof fn lemma_floor_log2_bounds(n: nat)
    requires
        n >= 1,
    ensures
        pow2(floor_log2(n)) <= n < pow2(floor_log2(n) + 1),
        floor_log2(n) < n,
    decreases n,
{
    if n < 2 {
        vstd::arithmetic::power2::lemma2_to64();
    } else {
        let k = floor_log2(n / 2);
        lemma_floor_log2_bounds(n / 2);
        lemma_pow2_unfold(k + 1);
        lemma_pow2_unfold(k + 2);
    }
}

/// A state that fits on `width` pins is read back from their levels
/// unchanged.
pub proof fn lemma_levels_round_trip(state: nat, width: nat)
    requires
        state < pow2(width),
    ensures
        bits_value(lsb_bits(state, width)) == state,
{
    lemma_bits_value_lsb_bits(state, width);
    vstd::arithmetic::div_mod::lemma_small_mod(state, pow2(width));
}

/// Two different states that fit on `width` pins show different levels.
pub proof fn lemma_levels_distinct(s1: nat, s2: nat, width: nat)
    requires
        s1 < pow2(width),
        s2 < pow2(width),
        s1 != s2,
    ensures
        lsb_bits(s1, width) != lsb_bits(s2, width),
{
    lemma_levels_round_trip(s1, width);
    lemma_levels_round_trip(s2, width);
}

/// Every state of a registry of `names_len` names, `0` to `names_len`,
/// fits on the pins that the registry needs.
pub proof fn lemma_registry_states_fit(names_len: nat, state: nat)
    requires
        names_len >= 1,
        state <= names_len,
    ensures
        state < pow2(pins_needed(names_len)),
{
    lemma_floor_log2_bounds(names_len);
}

/// The pins past those that the registry needs stay low in every state of
/// the registry: extra pins are ignored.
pub proof fn lemma_extra_pins_low(names_len: nat, state: nat, width: nat, i: nat)
    requires
        names_len >= 1,
        state <= names_len,
        pins_needed(names_len) <= i < width,
    ensures
        !lsb_bits(state, width)[i as int],
{
    lemma_registry_states_fit(names_len, state);
    lemma_lsb_bits_index(state, width, i);
    if pins_needed(names_len) < i {
        vstd::arithmetic::power2::lemma_pow2_strictly_increases(pins_needed(names_len), i);
    }
    lemma_pow2_pos(i);
    vstd::arithmetic::div_mod::lemma_basic_div(state as int, pow2(i) as int);
}

/// The levels that the pins take for `pin_state`: pin `i` is high exactly when
/// bit `i` of the state is set. Pins past the width of `usize` stay low.
pub fn pin_levels<const N: usize>(pin_state: usize) -> (levels: [bool; N])
    ensures
        levels@ == lsb_bits(pin_state as nat, N as nat),
{
    let mut levels: [bool; N] = [false; N];
    let mut c: usize = pin_state;
    let mut i: usize = 0;
    proof {
        lemma_lsb_bits_len(pin_state as nat, N as nat);
        assert(lsb_bits(pin_state as nat, N as nat).subrange(0, N as int)
            =~= lsb_bits(pin_state as nat, N as nat));
    }
    while i < N
        invariant
            i <= N,
            levels@.len() == N,
            lsb_bits(pin_state as nat, N as nat).len() == N,
            lsb_bits(c as nat, (N - i) as nat) =~= lsb_bits(pin_state as nat, N as nat).subrange(
                i as int,
                N as int,
            ),
            forall|j: int| 0 <= j < i ==> levels@[j] == lsb_bits(pin_state as nat, N as nat)[j],
        decreases N - i,
    {
        let ghost full = lsb_bits(pin_state as nat, N as nat);
        let ghost tail = lsb_bits(c as nat, (N - i) as nat);
        assert(tail[0] == full[i as int]);
        assert((c & 1 == 0) == (c % 2 == 0)) by (bit_vector);
        assert(c >> 1 == c / 2) by (bit_vector);
        levels[i] = c & 1 != 0;
        assert(tail.drop_first() =~= lsb_bits((c / 2) as nat, (N - i - 1) as nat));
        assert(full.subrange(i as int + 1, N as int) =~= full.subrange(i as int, N as int).drop_first());
        c = c >> 1;
        i = i + 1;
    }
    assert(levels@ =~= lsb_bits(pin_state as nat, N as nat));
    levels
}

/// The digits that show `pin_state` on `N` pins, first pin first: `b'1'` for
/// a pin that is high, `b'0'` for one that is low.
pub fn binary_string<const N: usize>(pin_state: usize) -> (digits: [u8; N])
    ensures
        digits@ == binary_digits(pin_state as nat, N as nat),
{
    let mut digits: [u8; N] = [0u8; N];
    let mut c: usize = pin_state;
    let mut i: usize = 0;
    proof {
        lemma_lsb_bits_len(pin_state as nat, N as nat);
        assert(lsb_bits(pin_state as nat, N as nat).subrange(0, N as int)
            =~= lsb_bits(pin_state as nat, N as nat));
    }
    while i < N
        invariant
            i <= N,
            digits@.len() == N,
            lsb_bits(pin_state as nat, N as nat).len() == N,
            lsb_bits(c as nat, (N - i) as nat) =~= lsb_bits(pin_state as nat, N as nat).subrange(
                i as int,
                N as int,
            ),
            forall|j: int|
                0 <= j < i ==> digits@[j] == digit(lsb_bits(pin_state as nat, N as nat)[j]),
        decreases N - i,
    {
        let ghost full = lsb_bits(pin_state as nat, N as nat);
        let ghost tail = lsb_bits(c as nat, (N - i) as nat);
        assert(tail[0] == full[i as int]);
        assert((c & 1 == 0) == (c % 2 == 0)) by (bit_vector);
        assert(c >> 1 == c / 2) by (bit_vector);
        let d: u8 = if c & 1 == 0 { 48u8 } else { 49u8 };
        digits[i] = d;
        assert(tail.drop_first() =~= lsb_bits((c / 2) as nat, (N - i - 1) as nat));
        assert(full.subrange(i as int + 1, N as int) =~= full.subrange(i as int, N as int).drop_first());
        c = c >> 1;
        i = i + 1;
    }
    assert(digits@ =~= binary_digits(pin_state as nat, N as nat));
    digits
}

} // verus!
