use input_queue::game_input::{GameInput, GameInputTrait};

#[test]
fn new_keeps_value_and_leaves_frame_unset() {
    let g: GameInput<i32> = GameInput::new(42);
    assert_eq!(g.frame, None);
    assert_eq!(g.input, Some(42));
}

#[test]
fn init_is_empty() {
    let g: GameInput<i32> = GameInput::init();
    assert_eq!(g.frame, None);
    assert_eq!(g.input, None);
}

#[test]
fn equal_compares_values_and_frames() {
    let a = GameInput::<i32> { frame: Some(3), input: Some(5) };
    let b = GameInput::<i32> { frame: Some(4), input: Some(5) };
    let c = GameInput::<i32> { frame: Some(3), input: Some(6) };
    // same value, different frame: equal only inputs-only
    assert!(a.equal(&b, true));
    assert!(!a.equal(&b, false));
    // same frame, different value: never equal
    assert!(!a.equal(&c, true));
    assert!(!a.equal(&c, false));
    // identical records
    assert!(a.equal(&a, false));
}

#[test]
fn equal_distinguishes_empty_payloads() {
    let real = GameInput::<i32> { frame: None, input: Some(0) };
    let empty: GameInput<i32> = GameInput::init();
    // a zero-valued input is not the same as an empty slot
    assert!(!real.equal(&empty, true));
    assert!(empty.equal(&GameInput::init(), false));
}
