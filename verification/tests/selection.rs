use choose_from::{select_from, select_from_fixed, ArityError};

#[test]
fn choose_two_i32s_from_fixed_four() {
    let choices = [1, 2, 3, 4];
    let chosen: [i32; 2] = select_from_fixed(choices).with(|[one, two, _, _]| [one, two]);

    assert_eq!(chosen, [1, 2]);
}

#[test]
fn choose_two_strs_from_fixed_three() {
    let choices = ["a", "b", "c"];
    let chosen: [&str; 2] = select_from_fixed(choices).with(|[_, b, c]| [b, c]);

    assert_eq!(chosen, ["b", "c"]);
}

#[test]
fn fixed_every_other_any_with() {
    let choices = ["Hi", "how", "are ya?"];

    let chosen = select_from_fixed(choices).any_with(|choices| {
        choices.into_iter().step_by(2).collect()
    });

    assert_eq!(chosen, ["Hi", "are ya?"]);
}

#[test]
fn fixed_tokens_allow_reading_values() {
    let choices = ["Hi", "how", "are ya?"];

    let chosen = select_from_fixed(choices).with(|[first, _second, third]| {
        assert_eq!(*first.value(), "Hi");
        [first, third]
    });

    assert_eq!(chosen, ["Hi", "are ya?"]);
}

#[test]
fn vec_choose_first_two_of_four() {
    let chosen: [i32; 2] = select_from(vec![1, 2, 3, 4]).with(|mut tokens| {
        let two = tokens.remove(1);
        let one = tokens.remove(0);
        [one, two]
    });

    assert_eq!(chosen, [1, 2]);
}

#[test]
fn vec_every_other_any_with() {
    let choices = vec!["Hi", "how", "are ya?"];

    let chosen = select_from(choices).any_with(|tokens| {
        tokens.into_iter().step_by(2).collect()
    });

    assert_eq!(chosen, ["Hi", "are ya?"]);
}

#[test]
fn output_order_follows_selection_order_not_input_order() {
    let chosen: [i32; 2] = select_from(vec![10, 20, 30]).with(|mut tokens| {
        let third = tokens.remove(2);
        let first = tokens.remove(0);
        [third, first]
    });

    assert_eq!(chosen, [30, 10]);
}

#[test]
fn fixed_output_order_follows_selection_order() {
    let chosen: [i32; 2] = select_from_fixed([10, 20, 30]).with(|[a, _b, c]| [c, a]);

    assert_eq!(chosen, [30, 10]);
}

#[test]
fn any_with_may_choose_nothing() {
    let chosen = select_from(vec![1, 2, 3]).any_with(|_tokens| Vec::new());

    assert_eq!(chosen, Vec::<i32>::new());
}

#[test]
fn any_with_may_choose_everything_reversed() {
    let chosen = select_from(vec![1, 2, 3]).any_with(|mut tokens| {
        tokens.reverse();
        tokens
    });

    assert_eq!(chosen, [3, 2, 1]);
}

#[test]
fn empty_collection_yields_empty_any_with() {
    let chosen = select_from(Vec::<i32>::new()).any_with(|tokens| tokens);

    assert_eq!(chosen, Vec::<i32>::new());
}

#[test]
fn choose_exactly_zero_is_allowed() {
    let chosen: [i32; 0] = select_from(vec![1, 2, 3]).with(|_tokens| []);

    assert_eq!(chosen, [0i32; 0]);
}

#[test]
fn try_with_reports_arity_error_without_running_selection_logic() {
    let result: Result<[i32; 5], ArityError> =
        select_from(vec![1, 2, 3]).try_with(|_tokens| panic!("selection logic must not run"));

    assert_eq!(
        result,
        Err(ArityError {
            requested: 5,
            available: 3,
        })
    );
}

#[test]
fn try_with_succeeds_when_enough_choices() {
    let result: Result<[i32; 2], ArityError> = select_from(vec![4, 5, 6]).try_with(|mut tokens| {
        let b = tokens.remove(2);
        let a = tokens.remove(0);
        [a, b]
    });

    assert_eq!(result, Ok([4, 6]));
}

#[test]
fn try_with_boundary_count_equal_to_choices() {
    let result: Result<[i32; 3], ArityError> = select_from(vec![7, 8, 9]).try_with(|mut tokens| {
        let c = tokens.remove(2);
        let b = tokens.remove(1);
        let a = tokens.remove(0);
        [a, b, c]
    });

    assert_eq!(result, Ok([7, 8, 9]));
}

#[test]
fn owned_values_come_back_identically() {
    let choices = vec![String::from("alpha"), String::from("beta"), String::from("gamma")];

    let chosen: [String; 1] = select_from(choices).with(|mut tokens| [tokens.remove(1)]);

    assert_eq!(chosen, [String::from("beta")]);
}

#[test]
fn take_first_four_odd_numbers() {
    let mut choices: Vec<i32> = Vec::new();
    let mut n = 1;
    while n < 100 {
        choices.push(n);
        n += 2;
    }

    let chosen: [i32; 4] = select_from(choices).with(|mut tokens| {
        let d = tokens.remove(3);
        let c = tokens.remove(2);
        let b = tokens.remove(1);
        let a = tokens.remove(0);
        [a, b, c, d]
    });

    assert_eq!(chosen, [1, 3, 5, 7]);
}

#[test]
fn two_sequential_calls_stay_independent() {
    let first = select_from(vec![1, 2]).any_with(|tokens| tokens);
    let second = select_from(vec![3, 4]).any_with(|tokens| tokens);

    assert_eq!(first, [1, 2]);
    assert_eq!(second, [3, 4]);
}

#[test]
fn empty_fixed_collection() {
    let chosen = select_from_fixed::<0, i32>([]).any_with(|tokens| tokens.into_iter().collect());

    assert_eq!(chosen, Vec::<i32>::new());
}

#[test]
fn fixed_full_permutation() {
    let chosen = select_from_fixed([1, 2]).with(|[a, b]| [b, a]);

    assert_eq!(chosen, [2, 1]);
}
