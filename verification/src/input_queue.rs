//! The per-participant frame-indexed ring buffer: insertion of confirmed
//! inputs, confirmed-or-predicted lookup, misprediction tracking and
//! retirement of acknowledged frames.

use vstd::prelude::*;

verus! {

use vstd::std_specs::cmp::PartialEqSpec;
use vstd::arithmetic::div_mod::lemma_fundamental_div_mod;
use crate::game_input::{GameInput, GameInputTrait};

/// Number of slots in the ring; frame `f` always lives in slot
/// `f % INPUT_QUEUE_LENGTH`.
pub const INPUT_QUEUE_LENGTH: usize = 128;

/// Why an insertion was rejected.
#[derive(Clone, Copy, Debug, PartialEq, Eq, Structural)]
pub enum QueueError {
    /// The frame lies at or below the last added frame (possibly already
    /// discarded); re-adding it is a caller error and must not be ignored.
    StaleFrame,
    /// Accepting the frame would put more than `INPUT_QUEUE_LENGTH` live
    /// frames in the ring; the driver must discard acknowledged frames
    /// first.
    QueueFull,
}

/// The mathematical state of an [`InputQueue`]: every field of the ring as
/// a plain value, with the buffer as a sequence. All contracts and laws are
/// stated over this model.
#[verifier::ext_equal]
pub struct QueueView<I> where I: PartialEq {
    pub id: i32,
    pub head: usize,
    pub tail: usize,
    pub length: usize,
    pub frame_delay: usize,
    pub first_frame: bool,
    pub last_user_added_frame: Option<usize>,
    pub first_incorrect_frame: Option<usize>,
    pub last_frame_requested: Option<usize>,
    pub last_added_frame: Option<usize>,
    pub inputs: Seq<GameInput<I>>,
    pub prediction: GameInput<I>,
}

/// The ring slot that holds frame `f`.
pub open spec fn slot_of(f: int) -> int {
    f % (INPUT_QUEUE_LENGTH as int)
}

/// `buf` with the records of frames `lo <= f < hi` all replaced by `fill`
/// in their ring slots.
pub open spec fn write_fills<I: PartialEq>(
    buf: Seq<GameInput<I>>,
    fill: GameInput<I>,
    lo: int,
    hi: int,
) -> Seq<GameInput<I>>
    decreases hi - lo,
{
    if lo >= hi {
        buf
    } else {
        write_fills(buf.update(slot_of(lo), fill), fill, lo + 1, hi)
    }
}

/// Some frame of `lo <= f < hi` lives in slot `s`.
pub open spec fn slot_touched(s: int, lo: int, hi: int) -> bool {
    exists|f: int| lo <= f < hi && #[trigger] slot_of(f) == s
}

impl<I: PartialEq> QueueView<I> {
    /// The oldest frame still retained by the ring (one past the last
    /// discarded frame). Before the first insertion it is zero.
    pub open spec fn tail_frame(self) -> int {
        match self.last_added_frame {
            Some(l) => l + 1 - self.length,
            None => 0,
        }
    }

    /// Frame `f` is retained: it has been written (confirmed or filled as a
    /// prediction) and not yet discarded.
    pub open spec fn retained(self, f: int) -> bool {
        match self.last_added_frame {
            Some(l) => self.tail_frame() <= f <= l,
            None => false,
        }
    }

    /// The confirmed input at frame `f`, if the ring holds one: the slot
    /// must store exactly frame `f` with a real payload. Predictions are
    /// stored with their frame unset and are therefore never reported.
    pub open spec fn confirmed_at(self, f: int) -> Option<I> {
        if 0 <= f && self.inputs[slot_of(f)].frame == Some(f as usize) {
            self.inputs[slot_of(f)].input
        } else {
            None
        }
    }

    /// The most recently recorded input value: the payload of the last
    /// added frame while it is retained, the seed input before the first
    /// insertion, and — if the whole ring has been discarded — the
    /// prediction template, which tracks the newest confirmed value while
    /// no window is open.
    pub open spec fn last_known_value(self) -> Option<I> {
        match self.last_added_frame {
            Some(l) => if self.length >= 1 {
                self.inputs[slot_of(l as int)].input
            } else {
                self.prediction.input
            },
            None => self.inputs[0].input,
        }
    }

    /// Well-formedness of the ring: the cursors agree with the retained
    /// frame range, every frame-tagged slot holds the retained frame that
    /// maps to it, and the ring never holds more than `INPUT_QUEUE_LENGTH`
    /// frames.
    pub open spec fn inv(self) -> bool {
        &&& self.inputs.len() == INPUT_QUEUE_LENGTH
        &&& self.length <= INPUT_QUEUE_LENGTH
        &&& match self.last_added_frame {
            None => {
                &&& self.length == 0
                &&& self.head == 0
                &&& self.tail == 0
                &&& self.first_frame
                &&& self.last_user_added_frame is None
                &&& self.inputs[0].frame is None
                &&& self.inputs[0].input is Some
                &&& forall|s: int| 1 <= s < INPUT_QUEUE_LENGTH ==>
                    self.inputs[s] == GameInput::<I>::empty()
            },
            Some(l) => {
                &&& self.length <= l + 1
                &&& l < usize::MAX
                &&& !self.first_frame
                &&& self.last_user_added_frame is Some
                &&& self.head == ((l + 1) % (INPUT_QUEUE_LENGTH as int))
                &&& self.tail == (self.tail_frame() % (INPUT_QUEUE_LENGTH as int))
                &&& (self.length >= 1 ==> self.inputs[slot_of(l as int)].frame == Some(l))
            },
        }
        &&& forall|s: int| 0 <= s < INPUT_QUEUE_LENGTH ==>
            match (#[trigger] self.inputs[s]).frame {
                Some(g) => self.retained(g as int) && slot_of(g as int) == s
                    && self.inputs[s].input is Some,
                None => true,
            }
    }

    /// The frame the next insertion is expected to land on: zero before
    /// the first insertion, one past the last added frame afterwards.
    pub open spec fn expected_frame(self) -> int {
        match self.last_added_frame {
            Some(l) => l + 1,
            None => 0,
        }
    }

    /// The value a synthesized prediction repeats: the template of the
    /// open prediction window if there is one, else the last known value.
    pub open spec fn window_template(self) -> Option<I> {
        if self.prediction.frame is Some {
            self.prediction.input
        } else {
            self.last_known_value()
        }
    }

    /// `last_frame_requested` after a request for `rf`: the highest frame
    /// any caller has asked for.
    pub open spec fn bumped_request(self, rf: usize) -> Option<usize> {
        match self.last_frame_requested {
            Some(r) => if rf > r { Some(rf) } else { Some(r) },
            None => Some(rf),
        }
    }

    /// What `input(rf)` returns: the confirmed record when the ring holds
    /// frame `rf`; the stored speculative fill (frame left unset) when
    /// `rf` is retained but unconfirmed; else a synthesized prediction
    /// that repeats the window template with its frame left unset.
    pub open spec fn input_result(self, rf: usize) -> GameInput<I> {
        if self.confirmed_at(rf as int) is Some {
            self.inputs[slot_of(rf as int)]
        } else if self.retained(rf as int) {
            GameInput { frame: None, input: self.inputs[slot_of(rf as int)].input }
        } else {
            GameInput { frame: None, input: self.window_template() }
        }
    }

    /// The state after `input(rf)`: the request bound rises to `rf`, and a
    /// prediction window opens at `rf` (fixing the template to the last
    /// known value) if `rf` lies outside the written range and no window
    /// is open yet. A confirmed or gap-filled frame is answered from the
    /// ring and opens no window.
    pub open spec fn input_post(self, rf: usize) -> Self {
        QueueView {
            last_frame_requested: self.bumped_request(rf),
            prediction: if self.confirmed_at(rf as int) is Some || self.retained(rf as int) {
                self.prediction
            } else if self.prediction.frame is None {
                GameInput { frame: Some(rf), input: self.last_known_value() }
            } else {
                self.prediction
            },
            ..self
        }
    }

    /// Whether `add_input(raw_frame, _)` succeeds, and with which actual
    /// (delay-shifted) frame or error: a frame at or below the last added
    /// one is stale, and a frame that would put more than
    /// `INPUT_QUEUE_LENGTH` live frames in the ring is refused.
    pub open spec fn add_outcome(self, raw_frame: usize) -> Result<usize, QueueError> {
        let actual = raw_frame + self.frame_delay;
        if match self.last_added_frame {
            Some(l) => actual <= l,
            None => false,
        } {
            Err(QueueError::StaleFrame)
        } else if actual - self.tail_frame() + 1 > INPUT_QUEUE_LENGTH {
            Err(QueueError::QueueFull)
        } else {
            Ok((raw_frame + self.frame_delay) as usize)
        }
    }

    /// The state after a successful `add_input(raw_frame, value)` (a
    /// failed one leaves the queue unchanged): the gap up to the actual
    /// frame is filled with predictions repeating the last known value,
    /// the actual frame's slot becomes the confirmed record, the cursors
    /// advance, and — when the open prediction window has reached or
    /// passed the actual frame — the prediction handed out for it is
    /// checked (`differs`) and the window cursor moves just past the
    /// actual frame. While no window is open, the prediction template
    /// tracks the newest confirmed value, so it survives a discard that
    /// empties the ring; an open window keeps its template frozen, since
    /// that is the value the driver was actually given. `differs` is the
    /// outcome of the payload comparison performed by `I`'s own equality.
    pub open spec fn add_post(self, raw_frame: usize, value: I, differs: bool) -> Self {
        if self.add_outcome(raw_frame) is Err {
            self
        } else {
            let actual = raw_frame + self.frame_delay;
            let au = (raw_frame + self.frame_delay) as usize;
            let fill = GameInput { frame: None, input: self.last_known_value() };
            let in_window = match self.prediction.frame {
                Some(pf) => pf <= au,
                None => false,
            };
            QueueView {
                head: (((actual + 1) % (INPUT_QUEUE_LENGTH as int)) as usize),
                length: ((actual + 1 - self.tail_frame()) as usize),
                first_frame: false,
                last_user_added_frame: Some(raw_frame),
                last_added_frame: Some(au),
                inputs: write_fills(self.inputs, fill, self.expected_frame(), actual)
                    .update(slot_of(actual), GameInput { frame: Some(au), input: Some(value) }),
                prediction: if in_window {
                    GameInput { frame: Some((actual + 1) as usize), input: self.prediction.input }
                } else if self.prediction.frame is None {
                    GameInput { frame: None, input: Some(value) }
                } else {
                    self.prediction
                },
                first_incorrect_frame: if self.first_incorrect_frame is Some {
                    self.first_incorrect_frame
                } else if in_window && differs {
                    Some(au)
                } else {
                    self.first_incorrect_frame
                },
                ..self
            }
        }
    }

    /// The highest frame `discard_confirmed_frames(frame)` may reclaim:
    /// `frame` itself, capped by `last_frame_requested` when a request is
    /// outstanding.
    pub open spec fn discard_bound(self, frame: usize) -> int {
        match self.last_frame_requested {
            Some(r) => if frame <= r { frame as int } else { r as int },
            None => frame as int,
        }
    }

    /// The state after `discard_confirmed_frames(frame)`: every retained
    /// frame up to `frame`, capped by `last_frame_requested`, is erased
    /// from the ring and the tail cursor advanced past it.
    pub open spec fn discard_post(self, frame: usize) -> Self {
        match self.last_added_frame {
            None => self,
            Some(l) => {
                let capped: int = self.discard_bound(frame);
                let through: int = if capped <= l { capped } else { l as int };
                if through + 1 > self.tail_frame() {
                    QueueView {
                        tail: ((through + 1) % (INPUT_QUEUE_LENGTH as int)) as usize,
                        length: (l - through) as usize,
                        inputs: write_fills(self.inputs, GameInput::empty(),
                            self.tail_frame(), through + 1),
                        ..self
                    }
                } else {
                    self
                }
            },
        }
    }
}

/// Interface of a participant's input queue, with its contracts stated
/// over the queue's mathematical model [`QueueView`].
pub trait InputQueueTrait<I>: Sized + View<V = QueueView<I>> where I: PartialEq + Copy {
    fn new(id: i32, input: I) -> Self;

    fn get_last_confirmed_frame(&self) -> Option<usize>;

    fn get_first_incorrect_frame(&self) -> Option<usize>;

    /// Retires every frame up to `frame`, capped by `last_frame_requested`
    /// so that a frame the driver still has outstanding is never
    /// invalidated. Retired slots are erased and their ring capacity
    /// reclaimed.
    fn discard_confirmed_frames(&mut self, frame: usize)
        requires
            old(self)@.inv(),
        ensures
            final(self)@.inv(),
            final(self)@ == old(self)@.discard_post(frame),
    ;

    /// Ends a rollback: forgets the misprediction marker and the
    /// outstanding-request bound, and closes the prediction window.
    /// `frame` must not lie past the recorded first incorrect frame;
    /// resetting beyond it would hide a desynchronization.
    fn reset_prediction(&mut self, frame: usize)
        requires
            old(self)@.inv(),
            old(self)@.first_incorrect_frame matches Some(fi) ==> frame <= fi,
        ensures
            final(self)@.inv(),
            final(self)@ == (QueueView {
                prediction: (GameInput {
                    frame: None::<usize>,
                    input: old(self)@.prediction.input,
                }),
                first_incorrect_frame: None::<usize>,
                last_frame_requested: None::<usize>,
                ..old(self)@
            }),
    ;

    /// Ground-truth lookup: succeeds, and copies the record into `input`,
    /// exactly when the ring holds a confirmed entry for `requested_frame`
    /// itself. A predicted, empty, discarded or wrong-frame slot reports
    /// `false` and leaves `input` untouched.
    fn get_confirmed_input(&self, requested_frame: usize, input: &mut GameInput<I>) -> (r: bool)
        requires
            self@.inv(),
        ensures
            r == (self@.confirmed_at(requested_frame as int) is Some),
            r ==> *final(input) == (GameInput {
                frame: Some(requested_frame),
                input: self@.confirmed_at(requested_frame as int),
            }),
            !r ==> *final(input) == *old(input),
    ;
}

/// A fixed-capacity ring buffer of [`GameInput`] records for exactly one
/// participant. Frame `f` maps to slot `f % INPUT_QUEUE_LENGTH`; `head` is
/// the slot after the newest written frame, `tail` the slot of the oldest
/// retained one.
pub struct InputQueue<I> where I: PartialEq + Copy {
    id: i32,
    head: usize,
    tail: usize,
    length: usize,
    frame_delay: usize,
    first_frame: bool,
    last_user_added_frame: Option<usize>,
    first_incorrect_frame: Option<usize>,
    last_frame_requested: Option<usize>,
    last_added_frame: Option<usize>,
    inputs: Vec<GameInput<I>>,
    prediction: GameInput<I>,
}

impl<I: PartialEq + Copy> View for InputQueue<I> {
    type V = QueueView<I>;

    closed spec fn view(&self) -> QueueView<I> {
        QueueView {
            id: self.id,
            head: self.head,
            tail: self.tail,
            length: self.length,
            frame_delay: self.frame_delay,
            first_frame: self.first_frame,
            last_user_added_frame: self.last_user_added_frame,
            first_incorrect_frame: self.first_incorrect_frame,
            last_frame_requested: self.last_frame_requested,
            last_added_frame: self.last_added_frame,
            inputs: self.inputs@,
            prediction: self.prediction,
        }
    }
}

impl<I: PartialEq + Copy> InputQueueTrait<I> for InputQueue<I> {
    /// A fresh queue: empty ring with slot zero seeded by `input` (frame
    /// unset, so it acts as a prediction template rather than a confirmed
    /// frame), every cursor zeroed and no delay. `id` only names the
    /// participant.
    fn new(id: i32, input: I) -> (r: Self)
        ensures
            r@.inv(),
            r@ == (QueueView {
                id,
                head: 0,
                tail: 0,
                length: 0,
                frame_delay: 0,
                first_frame: true,
                last_user_added_frame: None::<usize>,
                first_incorrect_frame: None::<usize>,
                last_frame_requested: None::<usize>,
                last_added_frame: None::<usize>,
                inputs: Seq::new(INPUT_QUEUE_LENGTH as nat, |s: int| {
                    if s == 0 {
                        GameInput::<I> { frame: None, input: Some(input) }
                    } else {
                        GameInput::<I>::empty()
                    }
                }),
                prediction: GameInput::<I>::empty(),
            }),
    {
        let mut inputs: Vec<GameInput<I>> = Vec::new();
        inputs.push(GameInput::new(input));
        let mut s: usize = 1;
        while s < INPUT_QUEUE_LENGTH
            invariant
                1 <= s <= INPUT_QUEUE_LENGTH,
                inputs@.len() == s,
                inputs@[0] == (GameInput::<I> { frame: None::<usize>, input: Some(input) }),
                forall|j: int| 1 <= j < s ==> inputs@[j] == GameInput::<I>::empty(),
            decreases INPUT_QUEUE_LENGTH - s,
        {
            inputs.push(GameInput::init());
            s += 1;
        }
        let r = Self {
            id,
            head: 0,
            tail: 0,
            length: 0,
            frame_delay: 0,
            first_frame: true,
            last_user_added_frame: None,
            first_incorrect_frame: None,
            last_frame_requested: None,
            last_added_frame: None,
            inputs,
            prediction: GameInput::init(),
        };
        proof {
            assert(r@.inputs =~= Seq::new(INPUT_QUEUE_LENGTH as nat, |s: int| {
                if s == 0 {
                    GameInput::<I> { frame: None, input: Some(input) }
                } else {
                    GameInput::<I>::empty()
                }
            }));
        }
        r
    }

    /// The highest frame written so far (after delay shifting), if any.
    fn get_last_confirmed_frame(&self) -> (r: Option<usize>)
        ensures
            r == self@.last_added_frame,
    {
        self.last_added_frame
    }

    /// The earliest frame at which a later-confirmed input contradicted the
    /// prediction that had been handed out, if any; cleared only by
    /// `reset_prediction`.
    fn get_first_incorrect_frame(&self) -> (r: Option<usize>)
        ensures
            r == self@.first_incorrect_frame,
    {
        self.first_incorrect_frame
    }

    fn discard_confirmed_frames(&mut self, frame: usize) {
        proof {
            lemma_discard_post_inv(self@, frame);
        }
        if let Some(l) = self.last_added_frame {
            let capped: usize = match self.last_frame_requested {
                Some(r) => if frame <= r { frame } else { r },
                None => frame,
            };
            let through: usize = if capped <= l { capped } else { l };
            let tail_frame: usize = l + 1 - self.length;
            if through + 1 > tail_frame {
                let new_tail_frame: usize = through + 1;
                let ghost q0 = self@;
                let mut f: usize = tail_frame;
                while f < new_tail_frame
                    invariant
                        q0.inputs.len() == INPUT_QUEUE_LENGTH,
                        tail_frame <= f <= new_tail_frame,
                        self@ == (QueueView {
                            inputs: write_fills(q0.inputs, GameInput::<I>::empty(),
                                tail_frame as int, f as int),
                            ..q0
                        }),
                        self@.inputs.len() == INPUT_QUEUE_LENGTH,
                    decreases new_tail_frame - f,
                {
                    let slot = f % INPUT_QUEUE_LENGTH;
                    self.inputs.set(slot, GameInput::init());
                    proof {
                        lemma_write_fills_snoc(q0.inputs, GameInput::<I>::empty(),
                            tail_frame as int, f as int);
                        assert(self@.inputs =~= write_fills(q0.inputs, GameInput::<I>::empty(),
                            tail_frame as int, f as int + 1));
                    }
                    f += 1;
                }
                self.tail = new_tail_frame % INPUT_QUEUE_LENGTH;
                self.length = l + 1 - new_tail_frame;
                proof {
                    assert(self@ =~= q0.discard_post(frame));
                }
            }
        }
    }

    fn reset_prediction(&mut self, frame: usize) {
        self.prediction.frame = None;
        self.first_incorrect_frame = None;
        self.last_frame_requested = None;
    }

    fn get_confirmed_input(&self, requested_frame: usize, input: &mut GameInput<I>) -> (r: bool) {
        let offset = requested_frame % INPUT_QUEUE_LENGTH;
        let confirmed = match self.inputs[offset].frame {
            Some(n) => n == requested_frame,
            None => false,
        };
        if !confirmed {
            return false;
        }
        *input = self.inputs[offset];
        true
    }
}

impl<I: PartialEq + Copy> InputQueue<I> {
    /// Sets the number of frames by which locally-supplied raw frames are
    /// shifted forward on insertion, to absorb local input latency. Must
    /// be chosen before significant input arrives; the queue itself is
    /// otherwise untouched.
    pub fn set_frame_delay(&mut self, delay: usize)
        ensures
            final(self)@ == (QueueView { frame_delay: delay, ..old(self)@ }),
    {
        self.frame_delay = delay;
    }

    /// The most recently recorded input value, used as the prediction
    /// template.
    fn last_known_input(&self) -> (r: Option<I>)
        requires
            self@.inv(),
        ensures
            r == self@.last_known_value(),
    {
        match self.last_added_frame {
            Some(l) => if self.length >= 1 {
                self.inputs[l % INPUT_QUEUE_LENGTH].input
            } else {
                self.prediction.input
            },
            None => self.inputs[0].input,
        }
    }

    /// Read path for a simulation tick: returns the confirmed record for
    /// `requested_frame` when the ring holds one; the stored speculative
    /// fill (frame unset) when the frame is retained but unconfirmed; and
    /// otherwise — never an error — a synthesized prediction that repeats
    /// the last known input with its frame unset. Requests are recorded in
    /// `last_frame_requested` to bound what a later discard may reclaim.
    pub fn input(&mut self, requested_frame: usize) -> (r: GameInput<I>)
        requires
            old(self)@.inv(),
        ensures
            final(self)@.inv(),
            r == old(self)@.input_result(requested_frame),
            final(self)@ == old(self)@.input_post(requested_frame),
    {
        let offset = requested_frame % INPUT_QUEUE_LENGTH;
        let confirmed = match self.inputs[offset].frame {
            Some(n) => n == requested_frame,
            None => false,
        };
        let retained_here = match self.last_added_frame {
            Some(l) => {
                let low: usize = l + 1 - self.length;
                low <= requested_frame && requested_frame <= l
            },
            None => false,
        };
        if !confirmed && !retained_here && self.prediction.frame.is_none() {
            let template = self.last_known_input();
            self.prediction = GameInput { frame: Some(requested_frame), input: template };
        }
        let new_request = match self.last_frame_requested {
            Some(r) => if requested_frame > r { requested_frame } else { r },
            None => requested_frame,
        };
        self.last_frame_requested = Some(new_request);
        if confirmed {
            self.inputs[offset]
        } else if retained_here {
            GameInput { frame: None, input: self.inputs[offset].input }
        } else {
            GameInput { frame: None, input: self.prediction.input }
        }
    }

    /// Write path: shifts `raw_frame` by the frame delay, rejects stale
    /// frames and overflowing insertions, fills any gap with predictions
    /// repeating the last known value, records the confirmed input, and —
    /// when the prediction window has reached or passed the inserted
    /// frame — compares the prediction handed out for it against the
    /// truth and records the first incorrect frame. When `I`'s equality
    /// obeys its specification the resulting
    /// state is pinned down exactly; the payload comparison is the only
    /// part that depends on it.
    pub fn add_input(&mut self, raw_frame: usize, value: I) -> (r: Result<usize, QueueError>)
        requires
            old(self)@.inv(),
            raw_frame + old(self)@.frame_delay < usize::MAX,
        ensures
            final(self)@.inv(),
            r == old(self)@.add_outcome(raw_frame),
            r is Err ==> final(self)@ == old(self)@,
            I::obeys_eq_spec() ==> final(self)@ == old(self)@.add_post(raw_frame, value,
                !GameInput::<I>::inputs_match(old(self)@.prediction.input, Some(value))),
            final(self)@ == old(self)@.add_post(raw_frame, value, true)
                || final(self)@ == old(self)@.add_post(raw_frame, value, false),
    {
        let actual = raw_frame + self.frame_delay;
        let expected: usize = match self.last_added_frame {
            Some(l) => {
                if actual <= l {
                    return Err(QueueError::StaleFrame);
                }
                l + 1
            },
            None => 0,
        };
        let tail_frame: usize = match self.last_added_frame {
            Some(l) => l + 1 - self.length,
            None => 0,
        };
        if actual - tail_frame + 1 > INPUT_QUEUE_LENGTH {
            return Err(QueueError::QueueFull);
        }
        let ghost q0 = self@;
        // speculative fill: repeat the last known value over the gap
        let fill_input = self.last_known_input();
        let mut f = expected;
        while f < actual
            invariant
                q0.inputs.len() == INPUT_QUEUE_LENGTH,
                expected <= f <= actual,
                fill_input == q0.last_known_value(),
                self@ == (QueueView {
                    inputs: write_fills(q0.inputs,
                        (GameInput { frame: None::<usize>, input: fill_input }),
                        expected as int, f as int),
                    ..q0
                }),
                self@.inputs.len() == INPUT_QUEUE_LENGTH,
            decreases actual - f,
        {
            let slot = f % INPUT_QUEUE_LENGTH;
            self.inputs.set(slot, GameInput { frame: None, input: fill_input });
            proof {
                lemma_write_fills_snoc(q0.inputs,
                    (GameInput { frame: None::<usize>, input: fill_input }),
                    expected as int, f as int);
                assert(self@.inputs =~= write_fills(q0.inputs,
                    (GameInput { frame: None::<usize>, input: fill_input }),
                    expected as int, f as int + 1));
            }
            f += 1;
        }
        // verify the outstanding prediction, if it has reached or passed
        // this frame; otherwise keep the idle template current
        let predicted_here = match self.prediction.frame {
            Some(pf) => pf <= actual,
            None => false,
        };
        let mut mismatch = false;
        if predicted_here {
            if self.first_incorrect_frame.is_none() {
                mismatch = match &self.prediction.input {
                    Some(p) => !(*p == value),
                    None => true,
                };
                if mismatch {
                    self.first_incorrect_frame = Some(actual);
                }
            }
            self.prediction.frame = Some(actual + 1);
        } else if self.prediction.frame.is_none() {
            self.prediction = GameInput { frame: None, input: Some(value) };
        }
        // record the confirmed input and advance the cursors
        let slot = actual % INPUT_QUEUE_LENGTH;
        self.inputs.set(slot, GameInput { frame: Some(actual), input: Some(value) });
        self.head = (actual + 1) % INPUT_QUEUE_LENGTH;
        self.length = actual + 1 - tail_frame;
        self.first_frame = false;
        self.last_user_added_frame = Some(raw_frame);
        self.last_added_frame = Some(actual);
        proof {
            lemma_add_post_inv(q0, raw_frame, value, mismatch);
            assert(self@ =~= q0.add_post(raw_frame, value, mismatch));
            if mismatch {
                assert(self@ == q0.add_post(raw_frame, value, true));
            } else {
                assert(self@ == q0.add_post(raw_frame, value, false));
            }
            if I::obeys_eq_spec() {
                let d = !GameInput::<I>::inputs_match(q0.prediction.input, Some(value));
                assert(q0.add_post(raw_frame, value, mismatch)
                    =~= q0.add_post(raw_frame, value, d));
            }
        }
        Ok(actual)
    }
}

/// A successful insertion preserves the ring invariant.
proof fn lemma_add_post_inv<I: PartialEq>(q: QueueView<I>, raw_frame: usize, value: I, differs: bool)
    requires
        q.inv(),
        raw_frame + q.frame_delay < usize::MAX,
        q.add_outcome(raw_frame) is Ok,
    ensures
        q.add_post(raw_frame, value, differs).inv(),
{
    let p = q.add_post(raw_frame, value, differs);
    let actual = raw_frame + q.frame_delay;
    let au = (raw_frame + q.frame_delay) as usize;
    let expected = q.expected_frame();
    let tf = q.tail_frame();
    let fill = GameInput { frame: None, input: q.last_known_value() };
    lemma_write_fills_properties(q.inputs, fill, expected, actual);
    assert(p.length == actual + 1 - tf);
    assert(p.tail_frame() == tf);
    // a slot whose old record survives the fills cannot belong to a frame
    // of the filled range, so its tag still names a retained frame
    assert forall|s: int| 0 <= s < INPUT_QUEUE_LENGTH implies
        match (#[trigger] p.inputs[s]).frame {
            Some(g) => p.retained(g as int) && slot_of(g as int) == s
                && p.inputs[s].input is Some,
            None => true,
        } by {
        vstd::arithmetic::div_mod::lemma_mod_bound(actual, INPUT_QUEUE_LENGTH as int);
        if s == slot_of(actual) {
            assert(p.inputs[s] == (GameInput { frame: Some(au), input: Some(value) }));
            assert(p.retained(au as int));
        } else if slot_touched(s, expected, actual) {
            let f2 = choose|f2: int| expected <= f2 < actual && #[trigger] slot_of(f2) == s;
            assert(write_fills(q.inputs, fill, expected, actual)[slot_of(f2)] == fill);
            assert(p.inputs[s] == fill);
        } else {
            assert(p.inputs[s] == q.inputs[s]);
            match q.inputs[s].frame {
                Some(g) => {
                    assert(q.retained(g as int));
                    assert(p.retained(g as int));
                },
                None => {},
            }
        }
    }
    if q.last_added_frame is None {
        assert(p.inputs[slot_of(actual)].frame == Some(au));
    }
}

/// Two distinct frames in the same ring slot are at least a full ring
/// apart.
pub proof fn lemma_same_slot_far(f: int, g: int)
    requires
        0 <= g < f,
        slot_of(f) == slot_of(g),
    ensures
        f >= g + INPUT_QUEUE_LENGTH,
{
    let n = INPUT_QUEUE_LENGTH as int;
    lemma_fundamental_div_mod(f, n);
    lemma_fundamental_div_mod(g, n);
    let qf = f / n;
    let qg = g / n;
    assert(f - g == n * (qf - qg)) by (nonlinear_arith)
        requires
            f == n * qf + f % n,
            g == n * qg + g % n,
            f % n == g % n,
    ;
    assert(f - g >= n) by (nonlinear_arith)
        requires
            f - g == n * (qf - qg),
            f - g > 0,
            n == 128,
    ;
}

/// Filling one more frame at the top of the range appends one slot update.
proof fn lemma_write_fills_snoc<I: PartialEq>(
    buf: Seq<GameInput<I>>,
    fill: GameInput<I>,
    lo: int,
    hi: int,
)
    requires
        lo <= hi,
    ensures
        write_fills(buf, fill, lo, hi + 1)
            == write_fills(buf, fill, lo, hi).update(slot_of(hi), fill),
    decreases hi - lo,
{
    if lo < hi {
        lemma_write_fills_snoc(buf.update(slot_of(lo), fill), fill, lo + 1, hi);
    } else {
        let buf2 = buf.update(slot_of(lo), fill);
        assert(write_fills(buf, fill, lo, hi + 1) == write_fills(buf2, fill, lo + 1, hi + 1));
        assert(write_fills(buf2, fill, lo + 1, hi + 1) == buf2);
        assert(write_fills(buf, fill, lo, hi) == buf);
    }
}

/// What `write_fills` does slot by slot: every slot that some frame of the
/// range maps to holds `fill`, every other slot is unchanged.
pub proof fn lemma_write_fills_properties<I: PartialEq>(
    buf: Seq<GameInput<I>>,
    fill: GameInput<I>,
    lo: int,
    hi: int,
)
    requires
        buf.len() == INPUT_QUEUE_LENGTH,
        0 <= lo,
    ensures
        write_fills(buf, fill, lo, hi).len() == INPUT_QUEUE_LENGTH,
        forall|f: int| lo <= f < hi ==>
            write_fills(buf, fill, lo, hi)[#[trigger] slot_of(f)] == fill,
        forall|s: int| 0 <= s < INPUT_QUEUE_LENGTH && !slot_touched(s, lo, hi)
            ==> write_fills(buf, fill, lo, hi)[s] == buf[s],
    decreases hi - lo,
{
    if lo < hi {
        let buf2 = buf.update(slot_of(lo), fill);
        lemma_write_fills_properties(buf2, fill, lo + 1, hi);
        vstd::arithmetic::div_mod::lemma_mod_bound(lo, INPUT_QUEUE_LENGTH as int);
        assert forall|f: int| lo <= f < hi implies
            write_fills(buf, fill, lo, hi)[#[trigger] slot_of(f)] == fill by {
            if f == lo {
                let s = slot_of(lo);
                if slot_touched(s, lo + 1, hi) {
                    let f2 = choose|f2: int| lo + 1 <= f2 < hi && #[trigger] slot_of(f2) == s;
                    assert(write_fills(buf2, fill, lo + 1, hi)[slot_of(f2)] == fill);
                } else {
                    assert(write_fills(buf2, fill, lo + 1, hi)[s] == buf2[s]);
                }
            } else {
                assert(write_fills(buf2, fill, lo + 1, hi)[slot_of(f)] == fill);
            }
        }
        assert forall|s: int| 0 <= s < INPUT_QUEUE_LENGTH && !slot_touched(s, lo, hi) implies
            write_fills(buf, fill, lo, hi)[s] == buf[s] by {
            if slot_touched(s, lo + 1, hi) {
                let f2 = choose|f2: int| lo + 1 <= f2 < hi && #[trigger] slot_of(f2) == s;
                assert(lo <= f2 < hi && slot_of(f2) == s);
            }
            if slot_of(lo) == s {
                assert(lo <= lo < hi && slot_of(lo) == s);
            }
            assert(write_fills(buf2, fill, lo + 1, hi)[s] == buf2[s]);
        }
    }
}

/// Law: a well-formed ring holds between zero and `INPUT_QUEUE_LENGTH`
/// live frames, and every retained frame lies between the tail frame and
/// the last added frame. Every mutating operation of [`InputQueue`]
/// ensures `inv` of the new state, so this holds after any sequence of
/// calls.
pub proof fn lemma_ring_invariant<I: PartialEq>(q: QueueView<I>)
    requires
        q.inv(),
    ensures
        0 <= q.length <= INPUT_QUEUE_LENGTH,
        forall|f: int| #[trigger] q.retained(f) ==>
            q.tail_frame() <= f && f < q.expected_frame(),
{
}

/// Law: prediction is deterministic. Requesting the same frame again,
/// with no intervening write, returns the identical record, and the state
/// reached by the repeated request is the same.
pub proof fn lemma_prediction_deterministic<I: PartialEq>(q: QueueView<I>, rf: usize)
    requires
        q.inv(),
    ensures
        q.input_post(rf).input_result(rf) == q.input_result(rf),
        q.input_post(rf).input_post(rf) == q.input_post(rf),
{
    assert(q.input_post(rf).input_post(rf) =~= q.input_post(rf));
}

/// Law: a confirmed input overrides an earlier prediction. If `input(rf)`
/// had to predict (no confirmed record for `rf`), and a later successful
/// `add_input` lands exactly on `rf`, then the ring afterwards reports the
/// real value for `rf` — whatever the prediction comparison returned.
pub proof fn lemma_confirm_overrides_prediction<I: PartialEq>(
    q: QueueView<I>,
    rf: usize,
    raw_frame: usize,
    value: I,
    differs: bool,
)
    requires
        q.inv(),
        q.confirmed_at(rf as int) is None,
        raw_frame + q.frame_delay < usize::MAX,
        q.input_post(rf).add_outcome(raw_frame) == Ok::<usize, QueueError>(rf),
    ensures
        q.input_post(rf).add_post(raw_frame, value, differs).confirmed_at(rf as int)
            == Some(value),
{
    let q1 = q.input_post(rf);
    let q2 = q1.add_post(raw_frame, value, differs);
    let fill = GameInput { frame: None, input: q1.last_known_value() };
    lemma_write_fills_properties(q1.inputs, fill, q1.expected_frame(), rf as int);
    vstd::arithmetic::div_mod::lemma_mod_bound(rf as int, INPUT_QUEUE_LENGTH as int);
    assert(q2.inputs[slot_of(rf as int)] == (GameInput { frame: Some(rf), input: Some(value) }));
}

/// Law: a misprediction is detected at the frame that contradicts it. If
/// no misprediction is recorded and the prediction window — whether it
/// opens at `rf` itself or opened at an earlier frame — covers `rf`, then
/// when the real input for a predicted frame `rf` arrives (even jumping
/// past earlier predicted frames) with a payload that differs
/// (inputs-only) from the prediction that was handed out for `rf`, the
/// queue records `rf` as the first incorrect frame.
pub proof fn lemma_misprediction_detected<I: PartialEq>(
    q: QueueView<I>,
    rf: usize,
    raw_frame: usize,
    value: I,
)
    requires
        q.inv(),
        q.first_incorrect_frame is None,
        q.prediction.frame matches Some(pf) ==> pf <= rf,
        q.confirmed_at(rf as int) is None,
        raw_frame + q.frame_delay < usize::MAX,
        q.input_post(rf).add_outcome(raw_frame) == Ok::<usize, QueueError>(rf),
        !GameInput::<I>::inputs_match(q.input_result(rf).input, Some(value)),
    ensures
        q.input_post(rf).add_post(raw_frame, value,
            !GameInput::<I>::inputs_match(q.input_post(rf).prediction.input, Some(value)))
            .first_incorrect_frame == Some(rf),
{
    // the insertion was accepted, so `rf` lies past the written range and
    // the request was answered by the window, not by a stored gap fill
    assert(!q.retained(rf as int));
}

/// Law: the first incorrect frame, once recorded, survives requests,
/// insertions and discards; only `reset_prediction` clears it.
pub proof fn lemma_first_incorrect_persists<I: PartialEq>(
    q: QueueView<I>,
    rf: usize,
    raw_frame: usize,
    value: I,
    differs: bool,
    frame: usize,
)
    requires
        q.first_incorrect_frame is Some,
    ensures
        q.input_post(rf).first_incorrect_frame == q.first_incorrect_frame,
        q.add_post(raw_frame, value, differs).first_incorrect_frame == q.first_incorrect_frame,
        q.discard_post(frame).first_incorrect_frame == q.first_incorrect_frame,
{
}

/// Law: discarding is safe. After `discard_confirmed_frames(frame)` no
/// frame up to the discard bound (`frame`, capped by the outstanding
/// `last_frame_requested`) is confirmed any more — its storage is
/// reclaimed — while every frame beyond the bound reports exactly the
/// confirmed input it reported before.
#[verifier::rlimit(50)]
pub proof fn lemma_discard_safety<I: PartialEq>(q: QueueView<I>, frame: usize)
    requires
        q.inv(),
    ensures
        forall|f: int| 0 <= f <= q.discard_bound(frame) ==>
            q.discard_post(frame).confirmed_at(f) is None,
        forall|f: int| q.discard_bound(frame) < f <= usize::MAX ==>
            q.discard_post(frame).confirmed_at(f) == q.confirmed_at(f),
{
    let p = q.discard_post(frame);
    let d = q.discard_bound(frame);
    lemma_discard_post_inv(q, frame);
    assert forall|f: int| 0 <= f <= d implies p.confirmed_at(f) is None by {
        vstd::arithmetic::div_mod::lemma_mod_bound(f, INPUT_QUEUE_LENGTH as int);
        if p.inputs[slot_of(f)].frame == Some(f as usize) {
            assert(p.retained(f));
        }
    }
    assert forall|f: int| d < f <= usize::MAX implies p.confirmed_at(f) == q.confirmed_at(f) by {
        if let Some(l) = q.last_added_frame {
            let through: int = if d <= l { d } else { l as int };
            let tf = q.tail_frame();
            if through + 1 > tf {
                vstd::arithmetic::div_mod::lemma_mod_bound(f, INPUT_QUEUE_LENGTH as int);
                lemma_write_fills_properties(q.inputs, GameInput::<I>::empty(), tf, through + 1);
                let s = slot_of(f);
                if slot_touched(s, tf, through + 1) {
                    let f2 = choose|f2: int| tf <= f2 < through + 1 && #[trigger] slot_of(f2) == s;
                    assert(p.inputs[s] == GameInput::<I>::empty());
                    if f2 < f {
                        lemma_same_slot_far(f, f2);
                    }
                    if q.inputs[s].frame == Some(f as usize) {
                        assert(q.retained(f));
                    }
                } else {
                    assert(p.inputs[s] == q.inputs[s]);
                }
            }
        }
    }
}

/// Discarding preserves the ring invariant.
proof fn lemma_discard_post_inv<I: PartialEq>(q: QueueView<I>, frame: usize)
    requires
        q.inv(),
    ensures
        q.discard_post(frame).inv(),
{
    let p = q.discard_post(frame);
    if let Some(l) = q.last_added_frame {
        let capped: int = match q.last_frame_requested {
            Some(r) => if frame <= r { frame as int } else { r as int },
            None => frame as int,
        };
        let through: int = if capped <= l { capped } else { l as int };
        let tf = q.tail_frame();
        if through + 1 > tf {
            let ntf = through + 1;
            lemma_write_fills_properties(q.inputs, GameInput::<I>::empty(), tf, ntf);
            assert(p.length == l - through);
            // the slot of any frame still retained after the discard was not
            // erased: an erased frame in the same slot would be a full ring
            // below it, outside the old retained range
            assert forall|g: int| ntf <= g <= l implies !slot_touched(slot_of(g), tf, ntf) by {
                if slot_touched(slot_of(g), tf, ntf) {
                    let f = choose|f: int| tf <= f < ntf && #[trigger] slot_of(f) == slot_of(g);
                    lemma_same_slot_far(g, f);
                }
            }
            if p.length >= 1 {
                assert(p.inputs[slot_of(l as int)].frame == Some(l));
            }
            assert forall|s: int| 0 <= s < INPUT_QUEUE_LENGTH implies
                match (#[trigger] p.inputs[s]).frame {
                    Some(g) => p.retained(g as int) && slot_of(g as int) == s
                        && p.inputs[s].input is Some,
                    None => true,
                } by {
                if slot_touched(s, tf, ntf) {
                    let f = choose|f: int| tf <= f < ntf && #[trigger] slot_of(f) == s;
                    assert(p.inputs[s] == GameInput::<I>::empty());
                } else {
                    assert(p.inputs[s] == q.inputs[s]);
                    match p.inputs[s].frame {
                        Some(g) => {
                            assert(q.retained(g as int));
                            if (g as int) < ntf {
                                assert(tf <= (g as int) && (g as int) < ntf && slot_of(
                                    g as int) == s);
                                assert(slot_touched(s, tf, ntf));
                            }
                        },
                        None => {},
                    }
                }
            }
        }
    }
}

} // verus!
