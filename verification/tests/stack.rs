use unpickler::unpickle::{pop_to_mark, pop_value, Error};
use unpickler::PickleValue;

#[test]
fn pop_value_takes_the_top() {
    let mut stack = vec![PickleValue::Int(1), PickleValue::Int(2)];
    assert_eq!(pop_value(&mut stack, 0x85), Ok(PickleValue::Int(2)));
    assert_eq!(stack, vec![PickleValue::Int(1)]);
}

#[test]
fn pop_value_on_empty_stack() {
    let mut stack: Vec<PickleValue> = vec![];
    assert_eq!(pop_value(&mut stack, 0x85), Err(Error::StackUnderflow { op: 0x85 }));
    assert!(stack.is_empty());
}

#[test]
fn pop_to_mark_takes_values_above_mark() {
    let mut stack = vec![PickleValue::Int(1), PickleValue::Int(2), PickleValue::Int(3)];
    let mut marks = vec![0, 1];
    let items = pop_to_mark(&mut stack, &mut marks, b't').unwrap();
    assert_eq!(items, vec![PickleValue::Int(2), PickleValue::Int(3)]);
    assert_eq!(stack, vec![PickleValue::Int(1)]);
    assert_eq!(marks, vec![0]);
}

#[test]
fn pop_to_mark_at_top_gives_nothing() {
    let mut stack = vec![PickleValue::Int(1)];
    let mut marks = vec![1];
    assert_eq!(pop_to_mark(&mut stack, &mut marks, b't'), Ok(vec![]));
    assert_eq!(stack, vec![PickleValue::Int(1)]);
    assert!(marks.is_empty());
}

#[test]
fn pop_to_mark_without_mark_changes_nothing() {
    let mut stack = vec![PickleValue::Int(1)];
    let mut marks: Vec<usize> = vec![];
    assert_eq!(pop_to_mark(&mut stack, &mut marks, b'e'), Err(Error::NoMarkFound { op: b'e' }));
    assert_eq!(stack, vec![PickleValue::Int(1)]);
    assert!(marks.is_empty());
}
