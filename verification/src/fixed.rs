use vstd::prelude::*;

use crate::choice::{self, Choice, Guard};
use crate::choice::{chosen_from, is_selection_of, tokens_for, values_of};

verus! {

/// Wraps a fixed number of choices and provides methods that guarantee
/// selection from those choices, where the number of choices `N` is set at
/// compile time.
pub struct SelectorFixed<const N: usize, T> {
    choices: [T; N],
}

impl<const N: usize, T> View for SelectorFixed<N, T> {
    type V = Seq<T>;

    closed spec fn view(&self) -> Seq<T> {
        self.choices@
    }
}

impl<const N: usize, T> SelectorFixed<N, T> {
    pub(crate) fn with_choices(choices: [T; N]) -> (s: SelectorFixed<N, T>)
        ensures
            s@ == choices@,
    {
        SelectorFixed { choices }
    }

    /// The function `chooser` chooses from the provided choices by returning
    /// a K-selection of their tokens; the values of the chosen tokens are
    /// then returned, in the order the chooser placed them.
    ///
    /// The first precondition says the chooser accepts any full set of
    /// tokens over the choices; the second says whatever it returns is
    /// drawn from those tokens, no position twice. Under them the result is
    /// provably a K-selection of the choices — and since tokens cannot be
    /// fabricated, duplicated or smuggled out of the call, an unverified
    /// chooser cannot deliver anything else at run time either.
    pub fn with<const K: usize, C>(self, chooser: C) -> (chosen: [T; K]) where
        C: for<'g> FnOnce([Choice<'g, T>; N]) -> [Choice<'g, T>; K],

        requires
            forall|tokens: [Choice<T>; N]|
                tokens_for(tokens@, self@) ==> #[trigger] call_requires(chooser, (tokens,)),
            forall|tokens: [Choice<T>; N], picked: [Choice<T>; K]|
                tokens_for(tokens@, self@) && #[trigger] call_ensures(chooser, (tokens,), picked)
                    ==> chosen_from(picked@, self@),
        ensures
            is_selection_of(chosen@, self@),
            exists|tokens: [Choice<T>; N], picked: [Choice<T>; K]|
                tokens_for(tokens@, self@) && #[trigger] call_ensures(chooser, (tokens,), picked)
                    && chosen@ == values_of(picked@),
    {
        let ghost inputs = self@;
        let guard = Guard;
        let tokens = self.into_choices(&guard);
        let picked = chooser(tokens);
        proof {
            choice::lemma_chosen_selection(picked@, inputs);
        }
        let picked_vec: Vec<Choice<T>> = choice::array_to_vec(picked);
        let values: Vec<T> = choice::to_values(picked_vec);
        let chosen: [T; K] = choice::vec_to_array(values);
        proof {
            assert(chosen@ =~= values_of(picked@));
        }
        chosen
    }

    /// Like [`with`](SelectorFixed::with), but the chooser returns any
    /// number of tokens — from none up to all `N` — and the values come back
    /// as a vector, in the order the chooser placed them.
    pub fn any_with<C>(self, chooser: C) -> (chosen: Vec<T>) where
        C: for<'g> FnOnce([Choice<'g, T>; N]) -> Vec<Choice<'g, T>>,

        requires
            forall|tokens: [Choice<T>; N]|
                tokens_for(tokens@, self@) ==> #[trigger] call_requires(chooser, (tokens,)),
            forall|tokens: [Choice<T>; N], picked: Vec<Choice<T>>|
                tokens_for(tokens@, self@) && #[trigger] call_ensures(chooser, (tokens,), picked)
                    ==> chosen_from(picked@, self@),
        ensures
            chosen@.len() <= N,
            is_selection_of(chosen@, self@),
            exists|tokens: [Choice<T>; N], picked: Vec<Choice<T>>|
                tokens_for(tokens@, self@) && #[trigger] call_ensures(chooser, (tokens,), picked)
                    && chosen@ == values_of(picked@),
    {
        let ghost inputs = self@;
        let guard = Guard;
        let tokens = self.into_choices(&guard);
        let picked = chooser(tokens);
        proof {
            choice::lemma_chosen_selection(picked@, inputs);
        }
        let chosen: Vec<T> = choice::to_values(picked);
        chosen
    }

    /// Wrap every choice in a token bound to `guard`, position by position.
    fn into_choices<'g>(self, guard: &'g Guard) -> (tokens: [Choice<'g, T>; N])
        ensures
            tokens_for(tokens@, self@),
    {
        let values: Vec<T> = choice::array_to_vec(self.choices);
        let token_vec: Vec<Choice<'g, T>> = choice::wrap_values(values, guard);
        choice::vec_to_array(token_vec)
    }
}

} // verus!
