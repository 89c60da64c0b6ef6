//! A stand-in for a hardware output pin, for tests and examples: it only
//! carries a number that names it in what it logs.
use vstd::prelude::*;

verus! {

/// A pin that does nothing but carry the number it was made with.
pub struct TestPin {
    number: u8,
}

impl View for TestPin {
    type V = u8;

    /// The number of the pin.
    closed spec fn view(&self) -> u8 {
        self.number
    }
}

impl TestPin {
    /// A test pin with the given number.
    pub fn new(number: u8) -> (pin: Self)
        ensures
            pin@ == number,
    {
        TestPin { number }
    }

    /// The number that the pin was made with.
    pub fn number(&self) -> (number: u8)
        ensures
            number == self@,
    {
        self.number
    }
}

} // verus!
