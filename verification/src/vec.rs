use vstd::prelude::*;

use crate::choice::{self, Choice, Guard};
use crate::choice::{chosen_from, is_selection_of, tokens_for, values_of};

verus! {

/// Requesting an exact selection of more values than there are choices. The
/// check runs before any selection logic is invoked, and the caller may
/// retry with a valid count.
#[derive(Clone, Copy, Debug, PartialEq, Eq, Structural)]
pub struct ArityError {
    /// How many values the call asked for.
    pub requested: usize,
    /// How many choices there were to draw from.
    pub available: usize,
}

/// Wraps a variable number of choices — how many is known only at run time —
/// and provides methods that guarantee selection from those choices.
pub struct Selector<T> {
    choices: Vec<T>,
}

impl<T> View for Selector<T> {
    type V = Seq<T>;

    closed spec fn view(&self) -> Seq<T> {
        self.choices@
    }
}

impl<T> Selector<T> {
    pub(crate) fn with_choices(choices: Vec<T>) -> (s: Selector<T>)
        ensures
            s@ == choices@,
    {
        Selector { choices }
    }

    /// The function `chooser` chooses from the provided choices by returning
    /// a K-selection of their tokens; the values of the chosen tokens are
    /// then returned, in the order the chooser placed them.
    ///
    /// The first precondition says the chooser accepts any full set of
    /// tokens over the choices; the second says whatever it returns is
    /// drawn from those tokens, no position twice. Under them the result is
    /// provably a K-selection of the choices — and since tokens cannot be
    /// fabricated, duplicated or smuggled out of the call, an unverified
    /// chooser cannot deliver anything else at run time either.
    pub fn with<const K: usize, C>(self, chooser: C) -> (chosen: [T; K]) where
        C: for<'g> FnOnce(Vec<Choice<'g, T>>) -> [Choice<'g, T>; K],

        requires
            forall|tokens: Vec<Choice<T>>|
                tokens_for(tokens@, self@) ==> #[trigger] call_requires(chooser, (tokens,)),
            forall|tokens: Vec<Choice<T>>, picked: [Choice<T>; K]|
                tokens_for(tokens@, self@) && #[trigger] call_ensures(chooser, (tokens,), picked)
                    ==> chosen_from(picked@, self@),
        ensures
            is_selection_of(chosen@, self@),
            exists|tokens: Vec<Choice<T>>, picked: [Choice<T>; K]|
                tokens_for(tokens@, self@) && #[trigger] call_ensures(chooser, (tokens,), picked)
                    && chosen@ == values_of(picked@),
    {
        let ghost inputs = self@;
        let guard = Guard;
        let tokens = self.into_choices(&guard);
        let picked = chooser(tokens);
        proof {
            choice::lemma_chosen_selection(picked@, inputs);
        }
        let picked_vec: Vec<Choice<T>> = choice::array_to_vec(picked);
        let values: Vec<T> = choice::to_values(picked_vec);
        let chosen: [T; K] = choice::vec_to_array(values);
        proof {
            assert(chosen@ =~= values_of(picked@));
        }
        chosen
    }

    /// Like [`with`](Selector::with), but the requested count `K` is checked
    /// against the number of choices first: if it asks for more values than
    /// there are choices, the call fails with an [`ArityError`] and the
    /// chooser is never invoked.
    pub fn try_with<const K: usize, C>(self, chooser: C) -> (r: Result<[T; K], ArityError>) where
        C: for<'g> FnOnce(Vec<Choice<'g, T>>) -> [Choice<'g, T>; K],

        requires
            K <= self@.len() ==> forall|tokens: Vec<Choice<T>>|
                tokens_for(tokens@, self@) ==> #[trigger] call_requires(chooser, (tokens,)),
            K <= self@.len() ==> forall|tokens: Vec<Choice<T>>, picked: [Choice<T>; K]|
                tokens_for(tokens@, self@) && #[trigger] call_ensures(chooser, (tokens,), picked)
                    ==> chosen_from(picked@, self@),
        ensures
            r is Ok <==> K <= self@.len(),
            r matches Ok(chosen) ==> is_selection_of(chosen@, self@) && exists|
                tokens: Vec<Choice<T>>,
                picked: [Choice<T>; K],
            |
                tokens_for(tokens@, self@) && #[trigger] call_ensures(chooser, (tokens,), picked)
                    && chosen@ == values_of(picked@),
            r matches Err(e) ==> e == (ArityError { requested: K, available: self@.len() as usize }),
    {
        if K <= self.choices.len() {
            Ok(self.with(chooser))
        } else {
            Err(ArityError { requested: K, available: self.choices.len() })
        }
    }

    /// Like [`with`](Selector::with), but the chooser returns any number of
    /// tokens — from none up to all of them — and the values come back as a
    /// vector, in the order the chooser placed them.
    pub fn any_with<C>(self, chooser: C) -> (chosen: Vec<T>) where
        C: for<'g> FnOnce(Vec<Choice<'g, T>>) -> Vec<Choice<'g, T>>,

        requires
            forall|tokens: Vec<Choice<T>>|
                tokens_for(tokens@, self@) ==> #[trigger] call_requires(chooser, (tokens,)),
            forall|tokens: Vec<Choice<T>>, picked: Vec<Choice<T>>|
                tokens_for(tokens@, self@) && #[trigger] call_ensures(chooser, (tokens,), picked)
                    ==> chosen_from(picked@, self@),
        ensures
            chosen@.len() <= self@.len(),
            is_selection_of(chosen@, self@),
            exists|tokens: Vec<Choice<T>>, picked: Vec<Choice<T>>|
                tokens_for(tokens@, self@) && #[trigger] call_ensures(chooser, (tokens,), picked)
                    && chosen@ == values_of(picked@),
    {
        let ghost inputs = self@;
        let guard = Guard;
        let tokens = self.into_choices(&guard);
        let picked = chooser(tokens);
        proof {
            choice::lemma_chosen_selection(picked@, inputs);
        }
        let chosen: Vec<T> = choice::to_values(picked);
        chosen
    }

    /// Wrap every choice in a token bound to `guard`, position by position.
    fn into_choices<'g>(self, guard: &'g Guard) -> (tokens: Vec<Choice<'g, T>>)
        ensures
            tokens_for(tokens@, self@),
    {
        choice::wrap_values(self.choices, guard)
    }
}

} // verus!
