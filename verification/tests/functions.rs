use ownership_tracker::functions::{five, plus_one, three};
use ownership_tracker::handover::{
    another_outer_function, calculate_length, gives_ownership, outer_function,
    takes_and_gives_back, yet_another_outer_funciton,
};

#[test]
fn five_is_five() {
    assert_eq!(five(), 5);
}

#[test]
fn three_is_three() {
    assert_eq!(three(), 3);
}

#[test]
fn plus_one_adds_one() {
    assert_eq!(plus_one(5), 6);
    assert_eq!(plus_one(-1), 0);
    assert_eq!(plus_one(i32::MIN), i32::MIN + 1);
    assert_eq!(plus_one(i32::MAX - 1), i32::MAX);
}

#[test]
fn gives_ownership_gives_hello() {
    assert_eq!(gives_ownership(), "hello");
}

#[test]
fn takes_and_gives_back_returns_its_argument() {
    assert_eq!(takes_and_gives_back(String::from("abc")), "abc");
    assert_eq!(takes_and_gives_back(String::new()), "");
}

#[test]
fn calculate_length_counts_bytes() {
    assert_eq!(calculate_length(String::from("hello")), (String::from("hello"), 5));
    assert_eq!(calculate_length(String::new()), (String::new(), 0));
    assert_eq!(calculate_length(String::from("h\u{e9}llo")), (String::from("h\u{e9}llo"), 6));
}

#[test]
fn outer_function_hands_out_string_and_integer() {
    assert_eq!(outer_function(), (String::from("hello"), 5));
}

#[test]
fn another_outer_function_returns() {
    another_outer_function();
}

#[test]
fn yet_another_outer_function_measures_hello() {
    assert_eq!(yet_another_outer_funciton(), (String::from("hello"), 5));
}
