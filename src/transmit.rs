use vstd::prelude::*;

use crate::error::IrError;
use crate::frame::{Payload, FRAME_LEN};
use crate::waveform::{
    byte_pulses, frame_copy, frame_pulses, lemma_frame_pulses_index, pulse_train,
    waveform, Pulse, RPT_SPACE, TRAIN_LEN,
};

verus! {

/// Where a transmission stands.
#[derive(Clone, Copy, Debug, PartialEq, Eq, Structural)]
pub enum Stage {
    /// Nothing has been asked of the hardware yet.
    Idle,
    /// The chip device is being opened.
    Opening,
    /// The output line is being requested.
    Requesting,
    /// The line is held and the pulses go out.
    Emitting,
    /// The transmission is over; nothing is held.
    Done,
}

/// The outcome of the last action, reported by whoever performed it.
#[derive(Clone, Copy, Debug, PartialEq, Eq, Structural)]
pub enum Event {
    Ready,
    /// The action failed with this operating-system error code.
    Failed(i32),
}

/// What is to be done next on the hardware.
#[derive(Clone, Copy, Debug)]
pub enum Action {
    /// Open the chip device.
    OpenDevice,
    /// Reserve the output line, initially low. The deadlines of the pulses
    /// that follow count from the moment it is granted.
    RequestLine,
    /// Drive the line to `level`, then wait until `deadline` microseconds
    /// after the line was granted.
    SetLine { level: u32, deadline: u64 },
    /// Release the line, then end with this outcome.
    Release(Result<(), IrError>),
    /// End with this outcome; no line is held.
    Finish(Result<(), IrError>),
    /// The transmission is already over.
    Nothing,
}

/// The abstract state of a transmission.
pub struct TxState {
    pub stage: Stage,
    /// Index of the next pulse to go out.
    pub next: nat,
    /// Deadline of the last pulse sent, in microseconds after the grant.
    pub deadline: int,
    /// Whether a line was ever granted.
    pub granted: bool,
}

pub open spec fn initial_state() -> TxState {
    TxState { stage: Stage::Idle, next: 0, deadline: 0, granted: false }
}

/// Sum of the nominal durations of the pulses.
pub open spec fn total_micros(p: Seq<Pulse>) -> int
    decreases p.len(),
{
    if p.len() == 0 {
        0
    } else {
        total_micros(p.drop_last()) + p.last().micros
    }
}

/// One decision: the state and action that follow an event.
/// Each deadline is the previous one advanced by the pulse's nominal
/// duration, never a measured time, so that delays in waking do not add up.
pub open spec fn step_spec(pulses: Seq<Pulse>, s: TxState, e: Event) -> (TxState, Action) {
    match s.stage {
        Stage::Idle => (TxState { stage: Stage::Opening, ..s }, Action::OpenDevice),
        Stage::Opening => match e {
            Event::Ready => (TxState { stage: Stage::Requesting, ..s }, Action::RequestLine),
            Event::Failed(c) => (
                TxState { stage: Stage::Done, ..s },
                Action::Finish(Err(IrError::DeviceOpen(c))),
            ),
        },
        Stage::Requesting => match e {
            Event::Ready => emit_next(pulses, TxState { granted: true, ..s }),
            Event::Failed(c) => (
                TxState { stage: Stage::Done, ..s },
                Action::Finish(Err(IrError::LineRequest(c))),
            ),
        },
        Stage::Emitting => match e {
            Event::Ready => emit_next(pulses, s),
            Event::Failed(c) => (
                TxState { stage: Stage::Done, ..s },
                Action::Release(Err(IrError::LineWrite(c))),
            ),
        },
        Stage::Done => (s, Action::Nothing),
    }
}

/// With the line held: the next pulse, or the release once all are out.
pub open spec fn emit_next(pulses: Seq<Pulse>, s: TxState) -> (TxState, Action) {
    if s.next < pulses.len() {
        let p = pulses[s.next as int];
        let d = s.deadline + p.micros;
        (
            TxState { stage: Stage::Emitting, next: s.next + 1, deadline: d, ..s },
            Action::SetLine { level: p.level, deadline: d as u64 },
        )
    } else {
        (TxState { stage: Stage::Done, ..s }, Action::Release(Ok(())))
    }
}

/// The pulses fit a transmission, and the deadline is the sum of the
/// durations of the pulses already sent.
pub open spec fn tx_progress(pulses: Seq<Pulse>, s: TxState) -> bool {
    &&& pulses.len() <= TRAIN_LEN
    &&& forall|i: int| 0 <= i < pulses.len() ==> #[trigger] pulses[i].micros <= RPT_SPACE
    &&& s.next <= pulses.len()
    &&& s.deadline == total_micros(pulses.subrange(0, s.next as int))
}

/// The states a transmission can be in, with the pulses it carries.
pub open spec fn tx_wf(pulses: Seq<Pulse>, s: TxState) -> bool {
    &&& tx_progress(pulses, s)
    &&& (s.stage == Stage::Emitting ==> s.granted)
    &&& (s.stage == Stage::Idle || s.stage == Stage::Opening || s.stage == Stage::Requesting)
        ==> !s.granted && s.next == 0
}

/// The run of a transmission: the state and the actions after each event in turn.
pub open spec fn run(pulses: Seq<Pulse>, s: TxState, evs: Seq<Event>) -> (TxState, Seq<Action>)
    decreases evs.len(),
{
    if evs.len() == 0 {
        (s, Seq::empty())
    } else {
        let (s1, acts) = run(pulses, s, evs.drop_last());
        let (s2, a) = step_spec(pulses, s1, evs.last());
        (s2, acts.push(a))
    }
}

/// How many of the actions release the line.
pub open spec fn release_count(acts: Seq<Action>) -> nat
    decreases acts.len(),
{
    if acts.len() == 0 {
        0
    } else {
        release_count(acts.drop_last()) + if acts.last() is Release {
            1nat
        } else {
            0nat
        }
    }
}

proof fn lemma_total_bound(p: Seq<Pulse>, n: int)
    requires
        0 <= n <= p.len(),
        forall|i: int| 0 <= i < p.len() ==> #[trigger] p[i].micros <= RPT_SPACE,
    ensures
        0 <= total_micros(p.subrange(0, n)) <= n * RPT_SPACE,
    decreases n,
{
    if n > 0 {
        lemma_total_bound(p, n - 1);
        assert(p.subrange(0, n).drop_last() =~= p.subrange(0, n - 1));
    }
}

proof fn lemma_step_wf(pulses: Seq<Pulse>, s: TxState, e: Event)
    requires
        tx_wf(pulses, s),
    ensures
        tx_wf(pulses, step_spec(pulses, s, e).0),
{
    if s.next < pulses.len() {
        let n = s.next as int;
        assert(pulses.subrange(0, n + 1).drop_last() =~= pulses.subrange(0, n));
    }
}

/// One transmission of a frame, driven by the events its actions bring.
pub struct Transmitter {
    pulses: Vec<Pulse>,
    stage: Stage,
    next: usize,
    deadline: u64,
    granted: bool,
}

impl View for Transmitter {
    type V = TxState;

    closed spec fn view(&self) -> TxState {
        TxState {
            stage: self.stage,
            next: self.next as nat,
            deadline: self.deadline as int,
            granted: self.granted,
        }
    }
}

impl Transmitter {
    /// The pulses this transmission carries.
    pub closed spec fn pulses(&self) -> Seq<Pulse> {
        self.pulses@
    }

    pub open spec fn wf(&self) -> bool {
        tx_wf(self.pulses(), self@)
    }

    /// A transmission of the payload that has not yet touched the hardware.
    pub fn new(payload: &Payload) -> (r: Transmitter)
        ensures
            r.pulses() == waveform(payload@),
            r@ == initial_state(),
            r.wf(),
    {
        let bytes = payload.as_bytes();
        let pulses = pulse_train(payload);
        proof {
            lemma_waveform_bound(bytes@);
            assert(pulses@.subrange(0, 0) =~= Seq::<Pulse>::empty());
        }
        Transmitter { pulses, stage: Stage::Idle, next: 0, deadline: 0, granted: false }
    }

    /// Takes the outcome of the last action and gives the next action.
    /// On the first call the event is not read: the first action opens the device.
    pub fn step(&mut self, e: Event) -> (r: Action)
        requires
            old(self).wf(),
        ensures
            final(self).wf(),
            final(self).pulses() == old(self).pulses(),
            (final(self)@, r) == step_spec(old(self).pulses(), old(self)@, e),
    {
        proof {
            lemma_step_wf(self.pulses@, self@, e);
        }
        match self.stage {
            Stage::Idle => {
                self.stage = Stage::Opening;
                Action::OpenDevice
            },
            Stage::Opening => match e {
                Event::Ready => {
                    self.stage = Stage::Requesting;
                    Action::RequestLine
                },
                Event::Failed(c) => {
                    self.stage = Stage::Done;
                    Action::Finish(Err(IrError::DeviceOpen(c)))
                },
            },
            Stage::Requesting => match e {
                Event::Ready => {
                    self.granted = true;
                    self.emit_next()
                },
                Event::Failed(c) => {
                    self.stage = Stage::Done;
                    Action::Finish(Err(IrError::LineRequest(c)))
                },
            },
            Stage::Emitting => match e {
                Event::Ready => self.emit_next(),
                Event::Failed(c) => {
                    self.stage = Stage::Done;
                    Action::Release(Err(IrError::LineWrite(c)))
                },
            },
            Stage::Done => Action::Nothing,
        }
    }

    fn emit_next(&mut self) -> (r: Action)
        requires
            tx_progress(old(self).pulses@, old(self)@),
            old(self).granted,
        ensures
            final(self).pulses@ == old(self).pulses@,
            (final(self)@, r) == emit_next(old(self).pulses@, old(self)@),
    {
        if self.next < self.pulses.len() {
            let p = self.pulses[self.next];
            proof {
                lemma_total_bound(self.pulses@, self.next as int);
                assert(self.next * RPT_SPACE <= TRAIN_LEN * RPT_SPACE) by (nonlinear_arith)
                    requires self.next <= TRAIN_LEN;
            }
            self.deadline = self.deadline + p.micros;
            self.next = self.next + 1;
            self.stage = Stage::Emitting;
            Action::SetLine { level: p.level, deadline: self.deadline }
        } else {
            self.stage = Stage::Done;
            Action::Release(Ok(()))
        }
    }
}

/// Every pulse of a transmission of a frame lasts at most the repeat space,
/// and there are no more pulses than a full transmission holds.
proof fn lemma_waveform_bound(s: Seq<u8>)
    requires
        s.len() == FRAME_LEN,
    ensures
        waveform(s).len() <= TRAIN_LEN,
        forall|i: int| 0 <= i < waveform(s).len() ==> #[trigger] waveform(s)[i].micros <= RPT_SPACE,
{
    lemma_frame_pulses_index(s);
    let c = frame_copy(s);
    assert forall|i: int| 0 <= i < c.len() implies #[trigger] c[i].micros <= RPT_SPACE by {
        if i >= 2 {
            let q = i - 2;
            assert(frame_pulses(s)[q] == byte_pulses(s[q / 16])[q % 16]);
        }
    }
    assert forall|i: int| 0 <= i < waveform(s).len() implies #[trigger] waveform(s)[i].micros
        <= RPT_SPACE by {
        if i >= c.len() + 2 {
            assert(waveform(s)[i] == c[i - c.len() - 2]);
        } else if i < c.len() {
            assert(waveform(s)[i] == c[i]);
        }
    }
}

/// How long to sleep, in microseconds, to reach a deadline from the time
/// now: nothing once it has passed.
pub fn sleep_micros(deadline: u64, now: u64) -> (r: u64)
    ensures
        r == if now < deadline { deadline - now } else { 0 },
{
    if now < deadline {
        deadline - now
    } else {
        0
    }
}

/// A transmission releases the line exactly once when it ends after a line
/// was granted, whether every write succeeded or one failed, and never
/// otherwise: whatever events come, no run releases twice.
pub proof fn lemma_release_once(pulses: Seq<Pulse>, evs: Seq<Event>)
    requires
        tx_wf(pulses, initial_state()),
    ensures
        release_count(run(pulses, initial_state(), evs).1) == if run(
            pulses,
            initial_state(),
            evs,
        ).0.granted && run(pulses, initial_state(), evs).0.stage == Stage::Done {
            1nat
        } else {
            0nat
        },
        release_count(run(pulses, initial_state(), evs).1) <= 1,
    decreases evs.len(),
{
    if evs.len() > 0 {
        lemma_release_once(pulses, evs.drop_last());
        lemma_run_wf(pulses, evs.drop_last());
        let acts = run(pulses, initial_state(), evs.drop_last()).1;
        let a = run(pulses, initial_state(), evs).1;
        assert(a.drop_last() =~= acts);
    }
}

proof fn lemma_run_wf(pulses: Seq<Pulse>, evs: Seq<Event>)
    requires
        tx_wf(pulses, initial_state()),
    ensures
        tx_wf(pulses, run(pulses, initial_state(), evs).0),
    decreases evs.len(),
{
    if evs.len() > 0 {
        lemma_run_wf(pulses, evs.drop_last());
        lemma_step_wf(pulses, run(pulses, initial_state(), evs.drop_last()).0, evs.last());
    }
}

/// The level change that carries pulse `k`: its level, and the sum of the
/// durations of pulses `0..=k` as its deadline.
pub open spec fn set_line_for(pulses: Seq<Pulse>, k: int) -> Action {
    Action::SetLine {
        level: pulses[k].level,
        deadline: total_micros(pulses.subrange(0, k + 1)) as u64,
    }
}

/// `m` events that each report success.
pub open spec fn all_ready(m: nat) -> Seq<Event> {
    Seq::new(m, |i: int| Event::Ready)
}

/// When every action succeeds, a transmission opens the device, requests
/// the line, drives it through each pulse in order with deadlines that add
/// up the nominal durations, and then releases the line with success.
pub proof fn lemma_successful_run(pulses: Seq<Pulse>, m: nat)
    requires
        tx_wf(pulses, initial_state()),
        2 <= m <= pulses.len() + 3,
    ensures
        run(pulses, initial_state(), all_ready(m)).1.len() == m,
        run(pulses, initial_state(), all_ready(m)).1[0] is OpenDevice,
        run(pulses, initial_state(), all_ready(m)).1[1] is RequestLine,
        forall|k: int|
            2 <= k < m && k < pulses.len() + 2 ==> #[trigger] run(
                pulses,
                initial_state(),
                all_ready(m),
            ).1[k] == set_line_for(pulses, k - 2),
        m == pulses.len() + 3 ==> run(pulses, initial_state(), all_ready(m)).1[m - 1]
            == Action::Release(Ok(())),
        m <= pulses.len() + 2 ==> run(pulses, initial_state(), all_ready(m)).0 == (TxState {
            stage: if m == 2 {
                Stage::Requesting
            } else {
                Stage::Emitting
            },
            next: (m - 2) as nat,
            deadline: total_micros(pulses.subrange(0, m - 2)),
            granted: m > 2,
        }),
    decreases m,
{
    let evs = all_ready(m);
    assert(evs.drop_last() =~= all_ready((m - 1) as nat));
    if m == 2 {
        let e1 = all_ready(1);
        assert(e1.drop_last() =~= all_ready(0));
        assert(pulses.subrange(0, 0) =~= Seq::<Pulse>::empty());
        let r0 = run(pulses, initial_state(), all_ready(0));
        assert(r0.1.len() == 0 && r0.0 == initial_state());
        let r1 = run(pulses, initial_state(), e1);
        assert(r1.1.len() == 1 && r1.1[0] is OpenDevice && r1.0.stage == Stage::Opening);
        let r2 = run(pulses, initial_state(), evs);
        assert(r2.1 == r1.1.push(Action::RequestLine));
        assert(total_micros(pulses.subrange(0, 0)) == 0);
    } else {
        lemma_successful_run(pulses, (m - 1) as nat);
        let n = (m - 3) as int;
        if n < pulses.len() {
            assert(pulses.subrange(0, n + 1).drop_last() =~= pulses.subrange(0, n));
        }
    }
}

} // verus!
