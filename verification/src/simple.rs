//! The logger for a single owner: it checks at creation that it was given as
//! many pins as the registry of names needs.
use vstd::prelude::*;
use crate::encoding::{binary_digits, binary_string, lsb_bits, pin_levels, pins_needed, Transition};
use vstd::arithmetic::power2::pow2;

verus! {

/// The number of pins needed to show every state of a registry of
/// `names_len` names (see [`crate::internal::no_pins`]).
pub fn no_pins(names_len: usize) -> (pins: usize)
    requires
        names_len > 0,
    ensures
        pins == pins_needed(names_len as nat),
        names_len < pow2(pins as nat),
        pow2((pins - 1) as nat) <= names_len,
{
    crate::internal::no_pins(names_len)
}

/// The state of a pin logger whose state is shown on `N` pins, where `N` is
/// the number of pins that its registry of names needs.
pub struct PinLogger<const N: usize> {
    pin_state: usize,
}

impl<const N: usize> View for PinLogger<N> {
    type V = nat;

    /// The pin state that was last logged (`0` before anything was).
    closed spec fn view(&self) -> nat {
        self.pin_state as nat
    }
}

impl<const N: usize> PinLogger<N> {
    /// A logger in state `0` for the registry `names`, which is only given
    /// the registry's size: the registry is not empty, and `N` is the number
    /// of pins that it needs. Every pin is to be driven low.
    pub fn new<const M: usize>(_names: &[&str; M]) -> (logger: Self)
        requires
            M > 0,
            pins_needed(M as nat) == N,
        ensures
            logger@ == 0,
            forall|i: int| 0 <= i < N ==> !#[trigger] lsb_bits(logger@, N as nat)[i],
    {
        proof {
            crate::encoding::lemma_lsb_bits_zero(N as nat);
        }
        PinLogger { pin_state: 0 }
    }

    /// Moves to `pin_state`: the result holds the digits of the state before
    /// and after, and the level of every pin for the new state.
    pub fn pin_log(&mut self, pin_state: usize) -> (transition: Transition<N>)
        ensures
            final(self)@ == pin_state as nat,
            transition.before@ == binary_digits(old(self)@, N as nat),
            transition.after@ == binary_digits(pin_state as nat, N as nat),
            transition.levels@ == lsb_bits(pin_state as nat, N as nat),
    {
        let before = binary_string::<N>(self.pin_state);
        self.pin_state = pin_state;
        let after = binary_string::<N>(self.pin_state);
        let levels = pin_levels::<N>(self.pin_state);
        Transition { before, after, levels }
    }

    /// The level that each pin is to show for the current state.
    pub fn levels(&self) -> (levels: [bool; N])
        ensures
            levels@ == lsb_bits(self@, N as nat),
    {
        pin_levels::<N>(self.pin_state)
    }

    /// The current pin state.
    pub fn pin_state(&self) -> (pin_state: usize)
        ensures
            pin_state as nat == self@,
    {
        self.pin_state
    }
}

} // verus!
