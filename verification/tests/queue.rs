use input_queue::game_input::{GameInput, GameInputTrait};
use input_queue::input_queue::{InputQueue, InputQueueTrait, QueueError, INPUT_QUEUE_LENGTH};

#[test]
fn can_make_new() {
    let _queue: InputQueue<i32> = InputQueue::new(1, 0);
}

#[test]
fn round_trip() {
    // new(id=1, seed=0); confirm 5 at frame 0; predict frame 1; the real
    // input 7 then contradicts the prediction; reset clears the marker.
    let mut q: InputQueue<i32> = InputQueue::new(1, 0);
    assert_eq!(q.add_input(0, 5), Ok(0));
    let mut out: GameInput<i32> = GameInput::init();
    assert!(q.get_confirmed_input(0, &mut out));
    assert_eq!(out.frame, Some(0));
    assert_eq!(out.input, Some(5));

    let predicted = q.input(1);
    assert_eq!(predicted.frame, None);
    assert_eq!(predicted.input, Some(5));

    assert_eq!(q.add_input(1, 7), Ok(1));
    assert_eq!(q.get_first_incorrect_frame(), Some(1));

    q.reset_prediction(1);
    assert_eq!(q.get_first_incorrect_frame(), None);

    let mut out2: GameInput<i32> = GameInput::init();
    assert!(q.get_confirmed_input(1, &mut out2));
    assert_eq!(out2.input, Some(7));
}

#[test]
fn frame_delay_shifts_insertion() {
    // set_frame_delay(2): raw frame 0 lands on actual frame 2, and the
    // gap frames stay unconfirmed.
    let mut q: InputQueue<i32> = InputQueue::new(1, 0);
    q.set_frame_delay(2);
    assert_eq!(q.add_input(0, 9), Ok(2));
    let mut out: GameInput<i32> = GameInput::init();
    assert!(q.get_confirmed_input(2, &mut out));
    assert_eq!(out.input, Some(9));
    let mut out0: GameInput<i32> = GameInput::init();
    assert!(!q.get_confirmed_input(0, &mut out0));
    assert!(!q.get_confirmed_input(1, &mut out0));
    assert_eq!(q.get_last_confirmed_frame(), Some(2));
}

#[test]
fn prediction_is_deterministic() {
    // repeated requests for the same unconfirmed frame, with no writes in
    // between, return the identical record
    let mut q: InputQueue<i32> = InputQueue::new(3, 0);
    assert_eq!(q.add_input(0, 11), Ok(0));
    let a = q.input(4);
    let b = q.input(4);
    let c = q.input(4);
    assert_eq!(a.frame, None);
    assert_eq!(a.input, Some(11));
    assert_eq!(b.frame, a.frame);
    assert_eq!(b.input, a.input);
    assert_eq!(c.input, a.input);
}

#[test]
fn fresh_queue_predicts_seed() {
    let mut q: InputQueue<i32> = InputQueue::new(2, 7);
    let p = q.input(0);
    assert_eq!(p.frame, None);
    assert_eq!(p.input, Some(7));
}

#[test]
fn confirm_overrides_prediction() {
    // a matching confirmation replaces the prediction without raising the
    // misprediction marker
    let mut q: InputQueue<i32> = InputQueue::new(1, 0);
    assert_eq!(q.add_input(0, 5), Ok(0));
    let p = q.input(1);
    assert_eq!(p.input, Some(5));
    assert_eq!(q.add_input(1, 5), Ok(1));
    assert_eq!(q.get_first_incorrect_frame(), None);
    let mut out: GameInput<i32> = GameInput::init();
    assert!(q.get_confirmed_input(1, &mut out));
    assert_eq!(out.frame, Some(1));
    assert_eq!(out.input, Some(5));
}

#[test]
fn misprediction_detected_at_divergence() {
    // the prediction window opens at frame 1 with template 1; frame 1
    // confirms the template, frame 2 contradicts it, so the first
    // incorrect frame is 2 and stays 2
    let mut q: InputQueue<i32> = InputQueue::new(1, 0);
    assert_eq!(q.add_input(0, 1), Ok(0));
    assert_eq!(q.input(1).input, Some(1));
    assert_eq!(q.input(2).input, Some(1));
    assert_eq!(q.add_input(1, 1), Ok(1));
    assert_eq!(q.get_first_incorrect_frame(), None);
    assert_eq!(q.add_input(2, 9), Ok(2));
    assert_eq!(q.get_first_incorrect_frame(), Some(2));
    assert_eq!(q.add_input(3, 9), Ok(3));
    assert_eq!(q.get_first_incorrect_frame(), Some(2));
}

#[test]
fn misprediction_detected_when_insertion_jumps_past_window() {
    // predictions were handed out for frames 1 and 4; the insertion jumps
    // straight to frame 4, yet the contradiction is still recorded there
    let mut q: InputQueue<i32> = InputQueue::new(1, 0);
    assert_eq!(q.add_input(0, 5), Ok(0));
    assert_eq!(q.input(1).input, Some(5));
    assert_eq!(q.input(4).input, Some(5));
    assert_eq!(q.add_input(4, 9), Ok(4));
    assert_eq!(q.get_first_incorrect_frame(), Some(4));
}

#[test]
fn gap_frames_repeat_the_pre_gap_value() {
    // frames 1 and 2 were filled with the value confirmed before the gap;
    // reading them returns that stored fill, not the newer value
    let mut q: InputQueue<i32> = InputQueue::new(1, 0);
    assert_eq!(q.add_input(0, 7), Ok(0));
    assert_eq!(q.add_input(3, 9), Ok(3));
    let g1 = q.input(1);
    assert_eq!(g1.frame, None);
    assert_eq!(g1.input, Some(7));
    let g2 = q.input(2);
    assert_eq!(g2.frame, None);
    assert_eq!(g2.input, Some(7));
    // the confirmed frames are untouched
    assert_eq!(q.input(0).input, Some(7));
    assert_eq!(q.input(3).input, Some(9));
    // a frame beyond the written range still predicts the newest value
    assert_eq!(q.input(5).input, Some(9));
}

#[test]
fn prediction_template_survives_full_discard() {
    // emptying the ring must not degrade predictions to an empty payload
    // or provoke a spurious misprediction
    let mut q: InputQueue<i32> = InputQueue::new(1, 0);
    assert_eq!(q.add_input(0, 5), Ok(0));
    assert_eq!(q.input(0).input, Some(5));
    q.discard_confirmed_frames(0);
    let mut out: GameInput<i32> = GameInput::init();
    assert!(!q.get_confirmed_input(0, &mut out));
    let p = q.input(1);
    assert_eq!(p.frame, None);
    assert_eq!(p.input, Some(5));
    assert_eq!(q.add_input(1, 5), Ok(1));
    assert_eq!(q.get_first_incorrect_frame(), None);
}

#[test]
fn stale_frame_is_rejected() {
    let mut q: InputQueue<i32> = InputQueue::new(1, 0);
    assert_eq!(q.add_input(0, 1), Ok(0));
    assert_eq!(q.add_input(1, 2), Ok(1));
    assert_eq!(q.add_input(1, 3), Err(QueueError::StaleFrame));
    assert_eq!(q.add_input(0, 3), Err(QueueError::StaleFrame));
    // the queue is untouched by the rejection
    let mut out: GameInput<i32> = GameInput::init();
    assert!(q.get_confirmed_input(1, &mut out));
    assert_eq!(out.input, Some(2));
}

#[test]
fn queue_full_is_rejected() {
    let mut q: InputQueue<i32> = InputQueue::new(1, 0);
    for f in 0..INPUT_QUEUE_LENGTH {
        assert_eq!(q.add_input(f, f as i32), Ok(f));
    }
    // a 129th live frame does not fit
    assert_eq!(q.add_input(INPUT_QUEUE_LENGTH, 0), Err(QueueError::QueueFull));
    // discarding acknowledged frames makes room again
    q.discard_confirmed_frames(63);
    assert_eq!(q.add_input(INPUT_QUEUE_LENGTH, 7), Ok(INPUT_QUEUE_LENGTH));
}

#[test]
fn discard_respects_outstanding_requests() {
    let mut q: InputQueue<i32> = InputQueue::new(1, 0);
    for f in 0..6 {
        assert_eq!(q.add_input(f, 10 + f as i32), Ok(f));
    }
    // the driver has read up to frame 3
    let r = q.input(3);
    assert_eq!(r.frame, Some(3));
    assert_eq!(r.input, Some(13));
    // an acknowledgement beyond the outstanding request is capped by it
    q.discard_confirmed_frames(10);
    let mut out: GameInput<i32> = GameInput::init();
    assert!(!q.get_confirmed_input(0, &mut out));
    assert!(!q.get_confirmed_input(2, &mut out));
    assert!(!q.get_confirmed_input(3, &mut out));
    assert!(q.get_confirmed_input(4, &mut out));
    assert_eq!(out.input, Some(14));
    assert!(q.get_confirmed_input(5, &mut out));
    assert_eq!(out.input, Some(15));
}

#[test]
fn discard_before_any_input_is_a_no_op() {
    let mut q: InputQueue<i32> = InputQueue::new(1, 0);
    q.discard_confirmed_frames(5);
    assert_eq!(q.get_last_confirmed_frame(), None);
    assert_eq!(q.add_input(0, 4), Ok(0));
}

#[test]
fn wraparound_reuses_slots() {
    // drive the ring far past its capacity, discarding as a real driver
    // would, and check the retained window stays correct
    let mut q: InputQueue<i32> = InputQueue::new(1, 0);
    for f in 0..300 {
        assert_eq!(q.add_input(f, f as i32), Ok(f));
        if f >= 64 {
            q.discard_confirmed_frames(f - 64);
        }
    }
    let mut out: GameInput<i32> = GameInput::init();
    assert!(q.get_confirmed_input(299, &mut out));
    assert_eq!(out.input, Some(299));
    assert!(q.get_confirmed_input(240, &mut out));
    assert_eq!(out.input, Some(240));
    assert!(!q.get_confirmed_input(100, &mut out));
}

#[test]
fn getters_start_unset() {
    let q: InputQueue<i32> = InputQueue::new(9, 0);
    assert_eq!(q.get_last_confirmed_frame(), None);
    assert_eq!(q.get_first_incorrect_frame(), None);
}
