use keebifa::action::Effect;
use keebifa::stack::{begin, end, is_active, take_out};

#[test]
fn take_out_removes_the_layer_and_keeps_the_order() {
    let mut stack = vec![0, 3, 1, 2];
    take_out(&mut stack, 1);
    assert_eq!(stack, vec![0, 3, 2]);
    take_out(&mut stack, 7);
    assert_eq!(stack, vec![0, 3, 2]);
    assert!(is_active(&stack, 3));
    assert!(!is_active(&stack, 1));
}

#[test]
fn a_layer_is_not_put_on_the_stack_twice() {
    let mut stack = vec![0];
    begin(&mut stack, Effect::Momentary(2));
    begin(&mut stack, Effect::Momentary(2));
    assert_eq!(stack, vec![0, 2]);
    begin(&mut stack, Effect::Momentary(1));
    assert_eq!(stack, vec![0, 2, 1]);
    end(&mut stack, Effect::Momentary(2));
    assert_eq!(stack, vec![0, 1]);
}

#[test]
fn a_toggle_switches_and_its_end_changes_nothing() {
    let mut stack = vec![0];
    begin(&mut stack, Effect::Toggle(1));
    assert_eq!(stack, vec![0, 1]);
    end(&mut stack, Effect::Toggle(1));
    assert_eq!(stack, vec![0, 1]);
    begin(&mut stack, Effect::Toggle(1));
    assert_eq!(stack, vec![0]);
}

#[test]
fn keys_and_the_base_layer_leave_the_stack_alone() {
    let mut stack = vec![0, 1];
    begin(&mut stack, Effect::Key(4));
    begin(&mut stack, Effect::Nothing);
    begin(&mut stack, Effect::Chord([4, 5, 0, 0]));
    begin(&mut stack, Effect::Toggle(0));
    end(&mut stack, Effect::Momentary(0));
    end(&mut stack, Effect::Key(4));
    assert_eq!(stack, vec![0, 1]);
}
