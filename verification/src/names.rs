//! The registry of log point names: which pin state a name is shown as.
use vstd::prelude::*;
use vstd::utf8::encode_utf8_decode_utf8;
use vstd::arithmetic::power2::{lemma_pow2_pos, lemma_pow2_strictly_increases};
use crate::encoding::{lemma_levels_distinct, lemma_registry_states_fit, lsb_bits, pins_needed};

verus! {

/// The pin state of `name` in `names`: one more than the index of its first
/// occurrence, so that the first name is state `1` and state `0` is left for
/// the moment before anything was logged. `None` when the name is absent.
pub open spec fn state_for_name(names: Seq<Seq<char>>, name: Seq<char>) -> Option<nat>
    decreases names.len(),
{
    if names.len() == 0 {
        None
    } else if names[0] == name {
        Some(1)
    } else {
        match state_for_name(names.drop_first(), name) {
            Some(k) => Some(k + 1),
            None => None,
        }
    }
}

/// The text of each name in a list of string slices.
pub open spec fn name_texts(names: Seq<&str>) -> Seq<Seq<char>> {
    names.map_values(|s: &str| s@)
}

/// The state of a name is one more than the index of its first occurrence,
/// and there is none exactly when the name does not occur.
pub proof fn lemma_state_for_name_is_first_index(names: Seq<Seq<char>>, name: Seq<char>)
    ensures
        match state_for_name(names, name) {
            Some(k) => {
                &&& 1 <= k <= names.len()
                &&& names[k - 1] == name
                &&& forall|j: int| 0 <= j < k - 1 ==> names[j] != name
            },
            None => forall|j: int| 0 <= j < names.len() ==> names[j] != name,
        },
    decreases names.len(),
{
    if names.len() > 0 && names[0] != name {
        let rest = names.drop_first();
        lemma_state_for_name_is_first_index(rest, name);
        match state_for_name(rest, name) {
            Some(k) => {
                assert(forall|j: int| 1 <= j < k ==> names[j] == rest[j - 1]);
            },
            None => {
                assert forall|j: int| 0 <= j < names.len() implies names[j] != name by {
                    if j > 0 {
                        assert(names[j] == rest[j - 1]);
                    }
                }
            },
        }
    }
}

/// Two names that are given the same state are the same name: different log
/// points never share a state.
pub proof fn lemma_state_for_name_injective(
    names: Seq<Seq<char>>,
    a: Seq<char>,
    b: Seq<char>,
    k: nat,
)
    requires
        state_for_name(names, a) == Some(k),
        state_for_name(names, b) == Some(k),
    ensures
        a == b,
{
    lemma_state_for_name_is_first_index(names, a);
    lemma_state_for_name_is_first_index(names, b);
}

/// Different log points of a registry show different levels on at least as
/// many pins as the registry needs, and none of them shows the levels of the
/// starting state `0`: every log point can be told apart on the pins.
pub proof fn lemma_names_distinguishable_on_pins(
    names: Seq<Seq<char>>,
    a: Seq<char>,
    b: Seq<char>,
    ka: nat,
    kb: nat,
    width: nat,
)
    requires
        state_for_name(names, a) == Some(ka),
        state_for_name(names, b) == Some(kb),
        a != b,
        pins_needed(names.len()) <= width,
    ensures
        lsb_bits(ka, width) != lsb_bits(kb, width),
        lsb_bits(ka, width) != lsb_bits(0, width),
{
    lemma_state_for_name_is_first_index(names, a);
    lemma_state_for_name_is_first_index(names, b);
    lemma_registry_states_fit(names.len(), ka);
    lemma_registry_states_fit(names.len(), kb);
    if pins_needed(names.len()) < width {
        lemma_pow2_strictly_increases(pins_needed(names.len()), width);
    }
    lemma_pow2_pos(width);
    lemma_levels_distinct(ka, kb, width);
    lemma_levels_distinct(ka, 0, width);
}

/// Whether two string slices hold the same text, compared byte by byte.
pub fn str_equal(a: &str, b: &str) -> (same: bool)
    ensures
        same == (a@ == b@),
{
    let x = a.as_bytes();
    let y = b.as_bytes();
    proof {
        encode_utf8_decode_utf8(a@);
        encode_utf8_decode_utf8(b@);
    }
    if x.len() != y.len() {
        return false;
    }
    let mut i: usize = 0;
    while i < x.len()
        invariant
            x@.len() == y@.len(),
            i <= x@.len(),
            a@ == b@ ==> x@ == y@,
            forall|j: int| 0 <= j < i ==> x@[j] == y@[j],
        decreases x@.len() - i,
    {
        if x[i] != y[i] {
            assert(x@ != y@);
            return false;
        }
        i = i + 1;
    }
    assert(x@ =~= y@);
    true
}

} // verus!
