use ownership_tracker::{Kind, Tracker, TrackerError, Value};

fn movable(text: &str) -> Value {
    Value::Movable(text.to_string())
}

#[test]
fn new_tracker_has_no_scope() {
    let t = Tracker::new();
    assert_eq!(t.depth(), 0);
}

#[test]
fn enter_and_exit_change_depth() {
    let mut t = Tracker::new();
    t.enter_scope();
    assert_eq!(t.depth(), 1);
    t.enter_scope();
    assert_eq!(t.depth(), 2);
    assert_eq!(t.exit_scope(), Ok(vec![]));
    assert_eq!(t.depth(), 1);
    assert_eq!(t.exit_scope(), Ok(vec![]));
    assert_eq!(t.depth(), 0);
}

#[test]
fn move_then_read_scenario() {
    let mut t = Tracker::new();
    t.enter_scope();
    assert_eq!(t.bind("s", movable("hello")), Ok(()));
    let moved = t.move_out("s").unwrap();
    assert_eq!(moved, movable("hello"));
    assert_eq!(t.bind("s2", moved), Ok(()));
    assert_eq!(t.read("s"), Err(TrackerError::UseAfterMove));
    assert_eq!(t.read("s2"), Ok(&movable("hello")));
    let released = t.exit_scope().unwrap();
    assert_eq!(released, vec![movable("hello")]);
    assert_eq!(released.len(), 1);
    assert_eq!(t.depth(), 0);
}

#[test]
fn copyable_survives_move_out() {
    let mut t = Tracker::new();
    t.enter_scope();
    t.bind("x", Value::Copyable(5)).unwrap();
    assert_eq!(t.move_out("x"), Ok(Value::Copyable(5)));
    assert_eq!(t.read("x"), Ok(&Value::Copyable(5)));
    assert_eq!(t.read("x"), Ok(&Value::Copyable(5)));
    assert_eq!(t.move_out("x"), Ok(Value::Copyable(5)));
    assert_eq!(t.read("x"), Ok(&Value::Copyable(5)));
}

#[test]
fn movable_is_gone_after_move_out() {
    let mut t = Tracker::new();
    t.enter_scope();
    t.bind("s", movable("text")).unwrap();
    assert_eq!(t.move_out("s"), Ok(movable("text")));
    assert_eq!(t.read("s"), Err(TrackerError::UseAfterMove));
    assert_eq!(t.duplicate("s"), Err(TrackerError::UseAfterMove));
    assert_eq!(t.move_out("s"), Err(TrackerError::UseAfterMove));
    assert_eq!(t.exit_scope(), Ok(vec![]));
}

#[test]
fn shadowing_reads_second_and_releases_both() {
    let mut t = Tracker::new();
    t.enter_scope();
    t.bind("x", movable("v1")).unwrap();
    t.bind("x", movable("v2")).unwrap();
    assert_eq!(t.read("x"), Ok(&movable("v2")));
    assert_eq!(t.exit_scope(), Ok(vec![movable("v2"), movable("v1")]));
}

#[test]
fn shadowing_copyable_first_releases_only_second() {
    let mut t = Tracker::new();
    t.enter_scope();
    t.bind("x", Value::Copyable(1)).unwrap();
    t.bind("x", movable("v2")).unwrap();
    assert_eq!(t.read("x"), Ok(&movable("v2")));
    assert_eq!(t.exit_scope(), Ok(vec![movable("v2")]));
}

#[test]
fn shadowing_that_consumes_the_prior_value() {
    let mut t = Tracker::new();
    t.enter_scope();
    t.bind("x", movable("v1")).unwrap();
    let prior = t.move_out("x").unwrap();
    t.bind("x", prior).unwrap();
    assert_eq!(t.read("x"), Ok(&movable("v1")));
    assert_eq!(t.exit_scope(), Ok(vec![movable("v1")]));
}

#[test]
fn moving_the_shadowing_binding_does_not_reveal_the_shadowed_one() {
    let mut t = Tracker::new();
    t.enter_scope();
    t.bind("x", movable("v1")).unwrap();
    t.bind("x", movable("v2")).unwrap();
    assert_eq!(t.move_out("x"), Ok(movable("v2")));
    assert_eq!(t.read("x"), Err(TrackerError::UseAfterMove));
    assert_eq!(t.exit_scope(), Ok(vec![movable("v1")]));
}

#[test]
fn exit_without_enter_underflows() {
    let mut t = Tracker::new();
    assert_eq!(t.exit_scope(), Err(TrackerError::ScopeUnderflow));
    assert_eq!(t.depth(), 0);
    assert_eq!(t.read("x"), Err(TrackerError::UnknownName));
    t.enter_scope();
    t.bind("x", Value::Copyable(7)).unwrap();
    assert_eq!(t.read("x"), Ok(&Value::Copyable(7)));
}

#[test]
fn underflow_after_balanced_scopes_alters_nothing() {
    let mut t = Tracker::new();
    t.enter_scope();
    t.bind("s", movable("a")).unwrap();
    assert_eq!(t.exit_scope(), Ok(vec![movable("a")]));
    assert_eq!(t.exit_scope(), Err(TrackerError::ScopeUnderflow));
    assert_eq!(t.exit_scope(), Err(TrackerError::ScopeUnderflow));
    assert_eq!(t.depth(), 0);
    t.enter_scope();
    assert_eq!(t.depth(), 1);
    assert_eq!(t.read("s"), Err(TrackerError::UnknownName));
}

#[test]
fn bind_without_scope_underflows() {
    let mut t = Tracker::new();
    assert_eq!(t.bind("x", Value::Copyable(1)), Err(TrackerError::ScopeUnderflow));
    assert_eq!(t.depth(), 0);
    assert_eq!(t.read("x"), Err(TrackerError::UnknownName));
}

#[test]
fn unknown_name_fails_for_every_access() {
    let mut t = Tracker::new();
    t.enter_scope();
    t.bind("x", Value::Copyable(1)).unwrap();
    assert_eq!(t.read("y"), Err(TrackerError::UnknownName));
    assert_eq!(t.duplicate("y"), Err(TrackerError::UnknownName));
    assert_eq!(t.move_out("y"), Err(TrackerError::UnknownName));
    assert_eq!(t.read("x"), Ok(&Value::Copyable(1)));
}

#[test]
fn name_is_unknown_after_its_scope_ended() {
    let mut t = Tracker::new();
    t.enter_scope();
    t.enter_scope();
    t.bind("inner", movable("i")).unwrap();
    assert_eq!(t.read("inner"), Ok(&movable("i")));
    assert_eq!(t.exit_scope(), Ok(vec![movable("i")]));
    assert_eq!(t.read("inner"), Err(TrackerError::UnknownName));
}

#[test]
fn inner_scope_sees_outer_bindings() {
    let mut t = Tracker::new();
    t.enter_scope();
    t.bind("outer", movable("o")).unwrap();
    t.enter_scope();
    assert_eq!(t.read("outer"), Ok(&movable("o")));
    assert_eq!(t.move_out("outer"), Ok(movable("o")));
    assert_eq!(t.exit_scope(), Ok(vec![]));
    assert_eq!(t.read("outer"), Err(TrackerError::UseAfterMove));
    assert_eq!(t.exit_scope(), Ok(vec![]));
}

#[test]
fn inner_binding_hides_outer_until_scope_ends() {
    let mut t = Tracker::new();
    t.enter_scope();
    t.bind("x", movable("outer")).unwrap();
    t.enter_scope();
    t.bind("x", movable("inner")).unwrap();
    assert_eq!(t.read("x"), Ok(&movable("inner")));
    assert_eq!(t.exit_scope(), Ok(vec![movable("inner")]));
    assert_eq!(t.read("x"), Ok(&movable("outer")));
    assert_eq!(t.exit_scope(), Ok(vec![movable("outer")]));
}

#[test]
fn moved_out_inner_binding_does_not_fall_through() {
    let mut t = Tracker::new();
    t.enter_scope();
    t.bind("x", movable("outer")).unwrap();
    t.enter_scope();
    t.bind("x", movable("inner")).unwrap();
    assert_eq!(t.move_out("x"), Ok(movable("inner")));
    assert_eq!(t.read("x"), Err(TrackerError::UseAfterMove));
    assert_eq!(t.exit_scope(), Ok(vec![]));
    assert_eq!(t.read("x"), Ok(&movable("outer")));
}

#[test]
fn release_order_is_reverse_of_declaration() {
    let mut t = Tracker::new();
    t.enter_scope();
    t.bind("a", movable("1")).unwrap();
    t.bind("n", Value::Copyable(10)).unwrap();
    t.bind("b", movable("2")).unwrap();
    t.bind("c", movable("3")).unwrap();
    t.bind("d", movable("4")).unwrap();
    assert_eq!(t.move_out("c"), Ok(movable("3")));
    assert_eq!(t.exit_scope(), Ok(vec![movable("4"), movable("2"), movable("1")]));
}

#[test]
fn copyable_values_are_not_released() {
    let mut t = Tracker::new();
    t.enter_scope();
    t.bind("x", Value::Copyable(1)).unwrap();
    t.bind("y", Value::Copyable(2)).unwrap();
    assert_eq!(t.exit_scope(), Ok(vec![]));
}

#[test]
fn releases_count_bindings_never_moved_out() {
    let mut t = Tracker::new();
    let mut bound = 0;
    let mut moved = 0;
    let mut released = Vec::new();
    t.enter_scope();
    t.bind("a", movable("a")).unwrap();
    bound += 1;
    t.enter_scope();
    t.bind("b", movable("b")).unwrap();
    bound += 1;
    t.bind("n", Value::Copyable(3)).unwrap();
    let a = t.move_out("a").unwrap();
    moved += 1;
    t.bind("c", a).unwrap();
    bound += 1;
    t.enter_scope();
    t.bind("d", movable("d")).unwrap();
    bound += 1;
    let b = t.move_out("b").unwrap();
    moved += 1;
    assert_eq!(b, movable("b"));
    assert_eq!(t.move_out("n"), Ok(Value::Copyable(3)));
    assert_eq!(t.move_out("b"), Err(TrackerError::UseAfterMove));
    released.extend(t.exit_scope().unwrap());
    released.extend(t.exit_scope().unwrap());
    released.extend(t.exit_scope().unwrap());
    assert_eq!(t.depth(), 0);
    assert_eq!(released, vec![movable("d"), movable("a")]);
    assert_eq!(released.len(), bound - moved);
}

#[test]
fn duplicate_leaves_source_valid() {
    let mut t = Tracker::new();
    t.enter_scope();
    t.bind("s1", movable("hello")).unwrap();
    let copy = t.duplicate("s1").unwrap();
    assert_eq!(copy, movable("hello"));
    t.bind("s2", copy).unwrap();
    assert_eq!(t.read("s1"), Ok(&movable("hello")));
    assert_eq!(t.read("s2"), Ok(&movable("hello")));
    assert_eq!(t.exit_scope(), Ok(vec![movable("hello"), movable("hello")]));
}

#[test]
fn duplicate_of_copyable_is_the_value() {
    let mut t = Tracker::new();
    t.enter_scope();
    t.bind("x", Value::Copyable(-4)).unwrap();
    assert_eq!(t.duplicate("x"), Ok(Value::Copyable(-4)));
    assert_eq!(t.read("x"), Ok(&Value::Copyable(-4)));
}

#[test]
fn failed_operations_change_nothing() {
    let mut t = Tracker::new();
    t.enter_scope();
    t.bind("s", movable("kept")).unwrap();
    t.bind("gone", movable("gone")).unwrap();
    t.move_out("gone").unwrap();
    assert_eq!(t.move_out("missing"), Err(TrackerError::UnknownName));
    assert_eq!(t.move_out("gone"), Err(TrackerError::UseAfterMove));
    assert_eq!(t.duplicate("gone"), Err(TrackerError::UseAfterMove));
    assert_eq!(t.read("missing"), Err(TrackerError::UnknownName));
    assert_eq!(t.depth(), 1);
    assert_eq!(t.read("s"), Ok(&movable("kept")));
    assert_eq!(t.exit_scope(), Ok(vec![movable("kept")]));
}

#[test]
fn names_are_compared_whole() {
    let mut t = Tracker::new();
    t.enter_scope();
    t.bind("s", movable("short")).unwrap();
    t.bind("s2", movable("long")).unwrap();
    t.bind("", Value::Copyable(0)).unwrap();
    assert_eq!(t.read("s"), Ok(&movable("short")));
    assert_eq!(t.read("s2"), Ok(&movable("long")));
    assert_eq!(t.read(""), Ok(&Value::Copyable(0)));
    assert_eq!(t.read("S"), Err(TrackerError::UnknownName));
}

#[test]
fn value_kind_and_copies() {
    assert_eq!(Value::Copyable(1).kind(), Kind::Copyable);
    assert_eq!(movable("m").kind(), Kind::Movable);
    let source = movable("buffer");
    let copy = source.duplicate();
    assert_eq!(copy, source);
    assert_eq!(source.clone(), movable("buffer"));
    assert_eq!(Value::Copyable(i64::MIN).duplicate(), Value::Copyable(i64::MIN));
}

#[test]
fn caller_and_callee_scopes() {
    // A caller hands a string to a callee and keeps an integer.
    let mut t = Tracker::new();
    t.enter_scope();
    t.bind("s", movable("hello")).unwrap();
    let argument = t.move_out("s").unwrap();
    t.enter_scope();
    t.bind("some_string", argument).unwrap();
    assert_eq!(t.exit_scope(), Ok(vec![movable("hello")]));
    t.bind("x", Value::Copyable(5)).unwrap();
    let argument = t.move_out("x").unwrap();
    t.enter_scope();
    t.bind("some_integer", argument).unwrap();
    assert_eq!(t.exit_scope(), Ok(vec![]));
    assert_eq!(t.read("x"), Ok(&Value::Copyable(5)));
    assert_eq!(t.read("s"), Err(TrackerError::UseAfterMove));
    assert_eq!(t.exit_scope(), Ok(vec![]));
}
