use vstd::prelude::*;
use vstd::pervasive::unreached;
use vstd::seq_lib::*;
use vstd::set_lib::*;

verus! {

/// Scope marker for one selection call. Every token minted during the call
/// borrows it, so the borrow checker rejects any token that tries to outlive
/// the call, or to cross into another one.
pub(crate) struct Guard;

/// A specific choice, passed to selection logic by
/// [`Selector::with`](crate::Selector::with),
/// [`SelectorFixed::with`](crate::SelectorFixed::with) and the related
/// methods. It wraps one offered value, which selection logic may read but
/// not extract; only this crate can unwrap it.
pub struct Choice<'guard, T> {
    value: T,
    source: Ghost<Seq<T>>,
    position: Ghost<int>,
    _guard: core::marker::PhantomData<&'guard Guard>,
}

impl<'guard, T> Choice<'guard, T> {
    /// The wrapped value.
    pub closed spec fn val(self) -> T {
        self.value
    }

    /// The input sequence of the invocation that minted this token.
    pub closed spec fn source(self) -> Seq<T> {
        self.source@
    }

    /// The position in that input sequence of the value this token wraps.
    pub closed spec fn position(self) -> int {
        self.position@
    }

    /// A token belongs to the invocation over `inputs` when it wraps the
    /// value standing at its recorded position of `inputs`.
    pub open spec fn token_for(self, inputs: Seq<T>) -> bool {
        &&& self.source() == inputs
        &&& 0 <= self.position() < inputs.len()
        &&& self.val() == inputs[self.position()]
    }

    /// The one constructor: only this crate mints tokens, so selection logic
    /// cannot fabricate one out of thin air.
    pub(crate) fn with_guard(
        value: T,
        Ghost(inputs): Ghost<Seq<T>>,
        Ghost(position): Ghost<int>,
        _guard: &'guard Guard,
    ) -> (c: Choice<'guard, T>)
        requires
            0 <= position < inputs.len(),
            inputs[position] == value,
        ensures
            c.token_for(inputs),
            c.position() == position,
            c.val() == value,
    {
        Choice { value, source: Ghost(inputs), position: Ghost(position), _guard: core::marker::PhantomData }
    }

    /// Read the wrapped value. Side-effect free; callable any number of times
    /// while the token is valid.
    pub fn value(&self) -> (r: &T)
        ensures
            *r == self.val(),
    {
        &self.value
    }

    /// The unwrap step. Consumes the token, so each token yields its value at
    /// most once; not reachable from outside this crate.
    pub(crate) fn into_inner(self) -> (r: T)
        ensures
            r == self.val(),
    {
        self.value
    }
}

/// Every one of the `inputs` is wrapped by exactly the token standing at its
/// own position: what an invocation hands to selection logic.
pub open spec fn tokens_for<T>(tokens: Seq<Choice<T>>, inputs: Seq<T>) -> bool {
    &&& tokens.len() == inputs.len()
    &&& forall|i: int|
        0 <= i < tokens.len() ==> (#[trigger] tokens[i]).token_for(inputs) && tokens[i].position() == i
}

/// The chosen tokens all belong to the invocation over `inputs`, and no two
/// of them wrap the same input position: what selection logic must hand back.
pub open spec fn chosen_from<T>(chosen: Seq<Choice<T>>, inputs: Seq<T>) -> bool {
    &&& forall|i: int| 0 <= i < chosen.len() ==> (#[trigger] chosen[i]).token_for(inputs)
    &&& forall|i: int, j: int|
        0 <= i < j < chosen.len() ==> chosen[i].position() != chosen[j].position()
}

/// The values wrapped by a sequence of tokens, in token order.
pub open spec fn values_of<T>(tokens: Seq<Choice<T>>) -> Seq<T> {
    tokens.map_values(|c: Choice<T>| c.val())
}

/// `picked` is drawn from `inputs` by the positions `ks`: same length, every
/// position in range and hit at most once, and the values copied over in the
/// order of `ks`.
pub open spec fn is_selection_by<T>(picked: Seq<T>, inputs: Seq<T>, ks: Seq<int>) -> bool {
    &&& ks.len() == picked.len()
    &&& forall|i: int|
        0 <= i < ks.len() ==> 0 <= #[trigger] ks[i] < inputs.len() && picked[i] == inputs[ks[i]]
    &&& forall|i: int, j: int| 0 <= i < j < ks.len() ==> ks[i] != ks[j]
}

/// `picked` consists of distinct entries of `inputs` — distinct by position,
/// not merely by value — in some caller-chosen order.
pub open spec fn is_selection_of<T>(picked: Seq<T>, inputs: Seq<T>) -> bool {
    exists|ks: Seq<int>| is_selection_by(picked, inputs, ks)
}

/// A sequence of pairwise-distinct integers all drawn from `0..n` cannot be
/// longer than `n`.
pub proof fn lemma_distinct_positions_bound(ks: Seq<int>, n: int)
    requires
        0 <= n,
        forall|i: int| 0 <= i < ks.len() ==> 0 <= #[trigger] ks[i] < n,
        forall|i: int, j: int| 0 <= i < j < ks.len() ==> ks[i] != ks[j],
    ensures
        ks.len() <= n,
{
    assert(ks.no_duplicates()) by {
        assert forall|i: int, j: int| 0 <= i < ks.len() && 0 <= j < ks.len() && i != j implies ks[i]
            != ks[j] by {
            if i < j {
            } else {
                assert(ks[j] != ks[i]);
            }
        }
    }
    ks.unique_seq_to_set();
    assert(ks.to_set().subset_of(set_int_range(0, n))) by {
        assert forall|k: int| ks.to_set().contains(k) implies set_int_range(0, n).contains(
            k,
        ) by {
            assert(ks.contains(k));
            let i = choose|i: int| 0 <= i < ks.len() && ks[i] == k;
            assert(0 <= ks[i] < n);
        }
    }
    lemma_int_range(0, n);
    lemma_len_subset(ks.to_set(), set_int_range(0, n));
}

/// Any set of tokens chosen from `inputs` is a selection of `inputs`: the
/// unwrapped values are distinct entries of `inputs`, in token order, and
/// there are no more of them than `inputs` has.
pub proof fn lemma_chosen_selection<T>(chosen: Seq<Choice<T>>, inputs: Seq<T>)
    requires
        chosen_from(chosen, inputs),
    ensures
        is_selection_of(values_of(chosen), inputs),
        values_of(chosen).len() == chosen.len(),
        chosen.len() <= inputs.len(),
{
    let ks = chosen.map_values(|c: Choice<T>| c.position());
    assert(is_selection_by(values_of(chosen), inputs, ks));
    lemma_distinct_positions_bound(ks, inputs.len() as int);
}

/// What being a selection means for the plain values: every chosen value is
/// one of the inputs — by position, so a value the inputs hold twice may be
/// chosen twice, but each input position is drawn at most once — and there
/// are never more chosen values than inputs.
pub proof fn lemma_selection_values_are_inputs<T>(picked: Seq<T>, inputs: Seq<T>)
    requires
        is_selection_of(picked, inputs),
    ensures
        picked.len() <= inputs.len(),
        forall|i: int| 0 <= i < picked.len() ==> inputs.contains(#[trigger] picked[i]),
{
    let ks = choose|ks: Seq<int>| is_selection_by(picked, inputs, ks);
    lemma_distinct_positions_bound(ks, inputs.len() as int);
    assert forall|i: int| 0 <= i < picked.len() implies inputs.contains(#[trigger] picked[i]) by {
        assert(inputs[ks[i]] == picked[i]);
    }
}

/// Isolation across invocations: a token minted for one input sequence can
/// never be among the tokens chosen from a different input sequence. Reusing
/// a token from an earlier call therefore lends it no provenance.
pub proof fn lemma_cross_call_rejection<T>(
    stale: Choice<T>,
    inputs_a: Seq<T>,
    inputs_b: Seq<T>,
    chosen: Seq<Choice<T>>,
)
    requires
        stale.token_for(inputs_a),
        inputs_a != inputs_b,
        chosen_from(chosen, inputs_b),
    ensures
        !chosen.contains(stale),
{
    assert forall|i: int| 0 <= i < chosen.len() implies chosen[i] != stale by {
        assert(chosen[i].token_for(inputs_b));
        assert(chosen[i].source() == inputs_b);
        assert(stale.source() == inputs_a);
    }
}

/// Wrap each of the `values` in a token bound to `guard`, keeping the order.
pub(crate) fn wrap_values<'g, T>(values: Vec<T>, guard: &'g Guard) -> (tokens: Vec<
    Choice<'g, T>,
>)
    ensures
        tokens_for(tokens@, values@),
{
    let ghost inputs = values@;
    let mut rest = values;
    let mut tokens: Vec<Choice<'g, T>> = Vec::new();
    while rest.len() > 0
        invariant
            tokens@.len() + rest@.len() == inputs.len(),
            rest@ =~= inputs.skip(tokens@.len() as int),
            forall|i: int|
                0 <= i < tokens@.len() ==> (#[trigger] tokens@[i]).token_for(inputs)
                    && tokens@[i].position() == i,
        decreases rest@.len(),
    {
        let ghost k = tokens@.len() as int;
        assert(rest@[0] == inputs[k]);
        let value = rest.remove(0);
        let token = Choice::with_guard(value, Ghost(inputs), Ghost(k), guard);
        tokens.push(token);
        proof {
            assert(rest@ =~= inputs.skip(tokens@.len() as int));
        }
    }
    tokens
}

/// The unwrap step over a whole selection: convert the chosen tokens back
/// into plain values, keeping the order in which selection logic placed them.
pub(crate) fn to_values<T>(choices: Vec<Choice<'_, T>>) -> (values: Vec<T>)
    ensures
        values@ =~= values_of(choices@),
{
    let ghost orig = choices@;
    let mut rest = choices;
    let mut values: Vec<T> = Vec::new();
    while rest.len() > 0
        invariant
            values@.len() + rest@.len() == orig.len(),
            rest@ =~= orig.skip(values@.len() as int),
            forall|i: int| 0 <= i < values@.len() ==> values@[i] == (#[trigger] orig[i]).val(),
        decreases rest@.len(),
    {
        let ghost k = values@.len() as int;
        assert(rest@[0] == orig[k]);
        let choice = rest.remove(0);
        values.push(choice.into_inner());
        proof {
            assert(rest@ =~= orig.skip(values@.len() as int));
        }
    }
    values
}

/// Relies on `TryFrom<Vec<T>> for [T; N]` of std: the conversion succeeds
/// exactly when the vector's length is `N`, and the array holds the vector's
/// elements in order.
#[verifier::external_body]
pub(crate) fn vec_to_array<T, const N: usize>(v: Vec<T>) -> (r: [T; N])
    requires
        v@.len() == N,
    ensures
        r@ == v@,
{
    match <[T; N] as TryFrom<Vec<T>>>::try_from(v) {
        Ok(arr) => arr,
        Err(_) => unreached(),
    }
}

/// Relies on `From<[T; N]> for Vec<T>` of std: the vector holds the array's
/// elements in order.
#[verifier::external_body]
pub(crate) fn array_to_vec<T, const N: usize>(a: [T; N]) -> (v: Vec<T>)
    ensures
        v@ == a@,
{
    <Vec<T> as From<[T; N]>>::from(a)
}

} // verus!
