//! The logger behind the global-static front end: a pin state shown on `N`
//! pins, and the registry lookup that turns a name into a pin state.
use vstd::prelude::*;
use crate::encoding::{
    binary_digits, binary_string, floor_log2, lemma_floor_log2_bounds, lsb_bits, pin_levels,
    pins_needed, Transition,
};
use crate::names::{lemma_state_for_name_is_first_index, name_texts, state_for_name, str_equal};
use vstd::arithmetic::power2::pow2;

verus! {

/// The pin state of `name` in the registry `names`: one more than the index
/// of its first occurrence (the first name is state `1`), or `None` when the
/// registry does not hold it.
pub fn pin_state_for_name<const N: usize>(names: [&str; N], name: &str) -> (state: Option<usize>)
    ensures
        match state {
            Some(k) => state_for_name(name_texts(names@), name@) == Some(k as nat),
            None => state_for_name(name_texts(names@), name@) is None,
        },
{
    let ghost texts = name_texts(names@);
    proof {
        lemma_state_for_name_is_first_index(texts, name@);
    }
    let mut i: usize = 0;
    while i < N
        invariant
            i <= N,
            names@.len() == N,
            texts == name_texts(names@),
            forall|j: int| 0 <= j < i ==> texts[j] != name@,
        decreases N - i,
    {
        if str_equal(names[i], name) {
            proof {
                lemma_state_for_name_is_first_index(texts, name@);
                assert(texts[i as int] == name@);
            }
            return Some(i + 1);
        }
        i = i + 1;
    }
    proof {
        lemma_state_for_name_is_first_index(texts, name@);
    }
    None
}

/// The number of pins needed to show every state of a registry of
/// `names_len` names: the states run from `0` to `names_len`, and this many
/// pins are enough for them and one fewer is not.
pub fn no_pins(names_len: usize) -> (pins: usize)
    requires
        names_len > 0,
    ensures
        pins == pins_needed(names_len as nat),
        names_len < pow2(pins as nat),
        pow2((pins - 1) as nat) <= names_len,
{
    let mut v: usize = names_len;
    let mut r: usize = 0;
    proof {
        lemma_floor_log2_bounds(names_len as nat);
    }
    while v >= 2
        invariant
            v >= 1,
            r + floor_log2(v as nat) == floor_log2(names_len as nat),
            floor_log2(names_len as nat) < names_len,
        decreases v,
    {
        v = v / 2;
        r = r + 1;
    }
    r + 1
}

/// The state of a pin logger whose state is shown on `N` pins. The pins
/// themselves are driven by the caller, to the levels that the logger hands out.
pub struct PinLogger<const N: usize> {
    pin_state: usize,
}

impl<const N: usize> View for PinLogger<N> {
    type V = nat;

    /// The pin state that was last logged (`0` before anything was).
    closed spec fn view(&self) -> nat {
        self.pin_state as nat
    }
}

impl<const N: usize> PinLogger<N> {
    /// A logger in state `0`: every pin is to be driven low.
    pub fn new() -> (logger: Self)
        ensures
            logger@ == 0,
            forall|i: int| 0 <= i < N ==> !#[trigger] lsb_bits(logger@, N as nat)[i],
    {
        proof {
            crate::encoding::lemma_lsb_bits_zero(N as nat);
        }
        PinLogger { pin_state: 0 }
    }

    /// Moves to `pin_state`: the result holds the digits of the state before
    /// and after, and the level of every pin for the new state.
    pub fn pin_log(&mut self, pin_state: usize) -> (transition: Transition<N>)
        ensures
            final(self)@ == pin_state as nat,
            transition.before@ == binary_digits(old(self)@, N as nat),
            transition.after@ == binary_digits(pin_state as nat, N as nat),
            transition.levels@ == lsb_bits(pin_state as nat, N as nat),
    {
        let before = binary_string::<N>(self.pin_state);
        let levels = self.update_state(pin_state);
        let after = binary_string::<N>(self.pin_state);
        Transition { before, after, levels }
    }

    /// Records `pin_state` and gives the level that each pin is to take for it.
    fn update_state(&mut self, pin_state: usize) -> (levels: [bool; N])
        ensures
            final(self)@ == pin_state as nat,
            levels@ == lsb_bits(pin_state as nat, N as nat),
    {
        self.pin_state = pin_state;
        pin_levels::<N>(pin_state)
    }

    /// The level that each pin is to show for the current state.
    pub fn levels(&self) -> (levels: [bool; N])
        ensures
            levels@ == lsb_bits(self@, N as nat),
    {
        pin_levels::<N>(self.pin_state)
    }

    /// The current pin state.
    pub fn pin_state(&self) -> (pin_state: usize)
        ensures
            pin_state as nat == self@,
    {
        self.pin_state
    }
}

} // verus!
