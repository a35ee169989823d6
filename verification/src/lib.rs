//! Choose a K-selection of values from N offered choices, with the guarantee
//! that every chosen value really is one of the offered ones.
//!
//! A caller hands a collection to [`select_from`] (any number of choices) or
//! [`select_from_fixed`] (a number fixed at compile time) and then asks for a
//! selection with `with` (exactly `K` values) or `any_with` (any number of
//! values). The actual choosing is delegated to caller-supplied selection
//! logic, which receives every choice wrapped in an opaque [`Choice`] token:
//! it may read the tokens and hand a subset of them back, in any order, but
//! it cannot fabricate a token, cannot unwrap one itself, and cannot keep one
//! beyond the call — each token borrows a scope marker that lives only as
//! long as the call that minted it.
//!
//! The postconditions of `with` and `any_with` state the provenance
//! guarantee: the returned values are distinct entries of the offered
//! collection — distinct by position, not merely by value — in exactly the
//! order the selection logic placed them ([`is_selection_of`], [`values_of`]).
//! Their preconditions ask of the selection logic only that it accept a full
//! hand of tokens over the choices ([`tokens_for`]) and return tokens drawn
//! from that hand, no position twice ([`chosen_from`]); a token kept from
//! another invocation can never satisfy that, as
//! [`lemma_cross_call_rejection`] states.

mod choice;
mod fixed;
mod vec;

pub use choice::Choice;
pub use choice::chosen_from;
pub use choice::is_selection_by;
pub use choice::is_selection_of;
pub use choice::lemma_chosen_selection;
pub use choice::lemma_cross_call_rejection;
pub use choice::lemma_selection_values_are_inputs;
pub use choice::tokens_for;
pub use choice::values_of;
pub use fixed::SelectorFixed;
pub use vec::ArityError;
pub use vec::Selector;

use vstd::prelude::*;

verus! {

/// Wraps an arbitrary number of choices and allows us to force a function or
/// closure to choose from them.
pub fn select_from<T>(choices: Vec<T>) -> (s: Selector<T>)
    ensures
        s@ == choices@,
{
    Selector::with_choices(choices)
}

/// Wraps a fixed number of choices and allows us to force a function or
/// closure to choose from them.
pub fn select_from_fixed<const N: usize, T>(choices: [T; N]) -> (s: SelectorFixed<N, T>)
    ensures
        s@ == choices@,
{
    SelectorFixed::with_choices(choices)
}

} // verus!
