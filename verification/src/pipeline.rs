//! A worker that takes frames from a queue and answers them in order.
//!
//! The caller owns the channels and the engine.  [`Worker`] decides what happens
//! next: the caller receives a message and hands it in, runs inference on the job
//! that comes back, sends the result, and reports whether it was taken.

use crate::error::Error;
use crate::float_bits::F32;
use crate::postprocess::Detection;
use vstd::prelude::*;

verus! {

/// The answer to one frame; `M` is the type of the timings.
pub struct FrameResult<M> {
    pub frame_id: u64,
    pub detections: Vec<Detection>,
    pub timings: M,
}

/// What an answer says.
#[verifier::ext_equal]
pub struct Answer<M> {
    pub frame_id: u64,
    pub detections: Seq<Detection>,
    pub timings: M,
}

impl<M> FrameResult<M> {
    /// What the answer says.
    pub open spec fn answer(self) -> Answer<M> {
        Answer {
            frame_id: self.frame_id,
            detections: self.detections@,
            timings: self.timings,
        }
    }
}

/// The detections and timings that inference came to, or its error.
pub open spec fn seen<M>(outcome: Result<(Vec<Detection>, M), Error>) -> Result<
    (Seq<Detection>, M),
    Error,
> {
    match outcome {
        Ok((detections, timings)) => Ok((detections@, timings)),
        Err(e) => Err(e),
    }
}

/// The answer to a frame on which inference came to `outcome`.
pub open spec fn answer_to<M>(
    frame_id: u64,
    outcome: Result<(Seq<Detection>, M), Error>,
    no_timings: M,
) -> Answer<M> {
    match outcome {
        Ok((detections, timings)) => Answer { frame_id, detections, timings },
        Err(_) => Answer { frame_id, detections: Seq::empty(), timings: no_timings },
    }
}

/// One frame to run; `I` is the type of the image.
pub struct Job<I> {
    pub frame_id: u64,
    pub image: I,
    pub conf_threshold: F32,
}

/// What the worker receives.
pub enum Message<I> {
    Job(Job<I>),
    /// No more frames will come.
    Stop,
    /// The other end of the queue is gone.
    Disconnected,
}

/// What the worker is doing.
#[derive(Clone, Copy, Debug, PartialEq, Eq, Structural)]
pub enum WorkerState {
    /// It waits for a message.
    Receiving,
    /// It works on a frame.
    Inferring { frame_id: u64 },
    /// It has ended.
    Exited,
}

/// The state of a worker that receives a message, where `Some` is a frame.
pub open spec fn after_message(frame: Option<u64>) -> WorkerState {
    match frame {
        Some(frame_id) => WorkerState::Inferring { frame_id },
        None => WorkerState::Exited,
    }
}

/// The state of a worker whose result was taken or not.
pub open spec fn after_delivery(taken: bool) -> WorkerState {
    if taken {
        WorkerState::Receiving
    } else {
        WorkerState::Exited
    }
}

/// The frame that a message carries.
pub open spec fn frame_of<I>(message: Message<I>) -> Option<u64> {
    match message {
        Message::Job(job) => Some(job.frame_id),
        Message::Stop => None,
        Message::Disconnected => None,
    }
}

/// The decisions of a pipeline's worker.
pub struct Worker {
    pub state: WorkerState,
}

impl Worker {
    /// A worker that waits for its first message.
    pub fn new() -> (res: Worker)
        ensures
            res.state == WorkerState::Receiving,
    {
        Worker { state: WorkerState::Receiving }
    }

    /// Takes a message; gives the job to run, or ends.
    pub fn receive<I>(&mut self, message: Message<I>) -> (res: Option<Job<I>>)
        requires
            old(self).state == WorkerState::Receiving,
        ensures
            final(self).state == after_message(frame_of(message)),
            res == (match message {
                Message::Job(job) => Some(job),
                Message::Stop => None,
                Message::Disconnected => None,
            }),
    {
        match message {
            Message::Job(job) => {
                self.state = WorkerState::Inferring { frame_id: job.frame_id };
                Some(job)
            },
            Message::Stop => {
                self.state = WorkerState::Exited;
                None
            },
            Message::Disconnected => {
                self.state = WorkerState::Exited;
                None
            },
        }
    }

    /// The answer to the frame in work.  Inference that failed is answered without
    /// detections and with the timings that stand for none.
    pub fn answer<M>(&self, outcome: Result<(Vec<Detection>, M), Error>, no_timings: M) -> (res:
        FrameResult<M>)
        requires
            self.state is Inferring,
        ensures
            res.answer() == answer_to(self.state->frame_id, seen(outcome), no_timings),
    {
        let frame_id: u64 = match self.state {
            WorkerState::Inferring { frame_id } => frame_id,
            _ => 0,
        };
        match outcome {
            Ok((detections, timings)) => FrameResult { frame_id, detections, timings },
            Err(_) => FrameResult { frame_id, detections: Vec::new(), timings: no_timings },
        }
    }

    /// The answer was taken, or the receiver is gone and the worker ends.
    pub fn delivered(&mut self, taken: bool)
        requires
            old(self).state is Inferring,
        ensures
            final(self).state == after_delivery(taken),
    {
        self.state = if taken {
            WorkerState::Receiving
        } else {
            WorkerState::Exited
        };
    }
}

/// Slots of the queues of a pipeline: at least one.
pub fn queue_capacity(queue_depth: usize) -> (res: usize)
    ensures
        res == (if queue_depth > 1 {
            queue_depth
        } else {
            1
        }),
{
    if queue_depth > 1 {
        queue_depth
    } else {
        1
    }
}

/// Whether a pipeline lets a frame in, given whether it has been stopped.
pub open spec fn lets_in(stopped: bool) -> bool {
    !stopped
}

/// The end of a pipeline that takes frames.  The caller asks before it sends a frame
/// to the worker's queue, and reports whether the queue took it.
pub struct Intake {
    pub stopped: bool,
}

impl Intake {
    /// The intake of a pipeline that runs.
    pub fn new() -> (res: Intake)
        ensures
            !res.stopped,
    {
        Intake { stopped: false }
    }

    /// Lets a frame in, unless the pipeline has been stopped.
    pub fn submit(&self) -> (res: Result<(), Error>)
        ensures
            res == (if lets_in(self.stopped) {
                Ok::<(), Error>(())
            } else {
                Err::<(), Error>(Error::PipelineStopped)
            }),
    {
        if self.stopped {
            Err(Error::PipelineStopped)
        } else {
            Ok(())
        }
    }

    /// No more frames are let in.
    pub fn stop(&mut self)
        ensures
            final(self).stopped,
    {
        self.stopped = true;
    }
}

/// What submitting a frame that was let in comes to: an error where the worker is
/// gone and the queue did not take it.
pub fn submitted(taken: bool) -> (res: Result<(), Error>)
    ensures
        res == (if taken {
            Ok::<(), Error>(())
        } else {
            Err::<(), Error>(Error::PipelineStopped)
        }),
{
    if taken {
        Ok(())
    } else {
        Err(Error::PipelineStopped)
    }
}

/// A frame and what inference on it comes to.
pub struct Frame<M> {
    pub frame_id: u64,
    pub outcome: Result<(Seq<Detection>, M), Error>,
}

impl<M> Frame<M> {
    /// The answer to the frame.
    pub open spec fn answer(self, no_timings: M) -> Answer<M> {
        answer_to(self.frame_id, self.outcome, no_timings)
    }
}

/// The number of the frame that a message carries.
pub open spec fn number_of<M>(message: Option<Frame<M>>) -> Option<u64> {
    match message {
        Some(frame) => Some(frame.frame_id),
        None => None,
    }
}

/// A worker's state and its answers, after a run of messages of which every answer was
/// taken; a worker that has ended takes no more.
pub open spec fn run<M>(messages: Seq<Option<Frame<M>>>, no_timings: M) -> (
    WorkerState,
    Seq<Answer<M>>,
)
    decreases messages.len(),
{
    if messages.len() == 0 {
        (WorkerState::Receiving, Seq::empty())
    } else {
        let (state, answers) = run(messages.drop_last(), no_timings);
        if state != WorkerState::Receiving {
            (state, answers)
        } else {
            match after_message(number_of(messages.last())) {
                WorkerState::Inferring { frame_id } => (
                    after_delivery(true),
                    answers.push(answer_to(frame_id, messages.last()->0.outcome, no_timings)),
                ),
                ended => (ended, answers),
            }
        }
    }
}

/// Law: every frame that is sent before the pipeline stops is answered once and in
/// order, with what inference on it came to, and none after it; a frame on which
/// inference failed is answered without detections, and the frames behind it as ever.
/// `n` is the number of messages before the stop, or of all where there is none.
pub proof fn law_frames_are_answered_in_order<M>(
    messages: Seq<Option<Frame<M>>>,
    no_timings: M,
    n: int,
)
    requires
        0 <= n <= messages.len(),
        forall|i: int| 0 <= i < n ==> #[trigger] messages[i] is Some,
        n < messages.len() ==> messages[n] is None,
    ensures
        run(messages, no_timings).0 == (if n < messages.len() {
            WorkerState::Exited
        } else {
            WorkerState::Receiving
        }),
        run(messages, no_timings).1 == Seq::new(
            n as nat,
            |i: int| messages[i]->0.answer(no_timings),
        ),
    decreases messages.len(),
{
    let answers = Seq::new(n as nat, |i: int| messages[i]->0.answer(no_timings));
    if messages.len() == 0 {
        assert(run(messages, no_timings).1 =~= answers);
    } else {
        let rest = messages.drop_last();
        if n < messages.len() {
            assert(n < rest.len() ==> rest[n] == messages[n]);
            law_frames_are_answered_in_order(rest, no_timings, n);
            assert(Seq::new(n as nat, |i: int| rest[i]->0.answer(no_timings)) =~= answers);
        } else {
            law_frames_are_answered_in_order(rest, no_timings, n - 1);
            assert(messages[n - 1] is Some);
            assert(Seq::new((n - 1) as nat, |i: int| rest[i]->0.answer(no_timings)).push(
                messages.last()->0.answer(no_timings),
            ) =~= answers);
        }
    }
}

/// A call on a pipeline.
pub enum Call<M> {
    Submit { frame: Frame<M> },
    Stop,
}

/// What a run of calls leaves, of which every frame that was let in was also taken.
pub struct Traffic<M> {
    pub stopped: bool,
    /// What was put in the worker's queue; `None` tells it to stop.
    pub sent: Seq<Option<Frame<M>>>,
    /// The frames whose submission succeeded.
    pub accepted: Seq<Frame<M>>,
}

/// What these calls leave of a new pipeline.
pub open spec fn traffic<M>(calls: Seq<Call<M>>) -> Traffic<M>
    decreases calls.len(),
{
    if calls.len() == 0 {
        Traffic { stopped: false, sent: Seq::empty(), accepted: Seq::empty() }
    } else {
        let before = traffic(calls.drop_last());
        match calls.last() {
            Call::Submit { frame } => if lets_in(before.stopped) {
                Traffic {
                    stopped: before.stopped,
                    sent: before.sent.push(Some(frame)),
                    accepted: before.accepted.push(frame),
                }
            } else {
                before
            },
            Call::Stop => Traffic {
                stopped: true,
                sent: before.sent.push(None),
                accepted: before.accepted,
            },
        }
    }
}

/// The answers to these frames, in their order.
pub open spec fn answers_to<M>(frames: Seq<Frame<M>>, no_timings: M) -> Seq<Answer<M>> {
    frames.map_values(|frame: Frame<M>| frame.answer(no_timings))
}

/// Law: whatever the order of the calls, the frames that are answered are exactly
/// those whose submission succeeded, in that order, and the worker ends exactly where
/// the pipeline was stopped.
pub proof fn law_accepted_frames_are_answered<M>(calls: Seq<Call<M>>, no_timings: M)
    ensures
        run(traffic(calls).sent, no_timings).1 == answers_to(traffic(calls).accepted, no_timings),
        run(traffic(calls).sent, no_timings).0 == (if traffic(calls).stopped {
            WorkerState::Exited
        } else {
            WorkerState::Receiving
        }),
    decreases calls.len(),
{
    if calls.len() == 0 {
        assert(answers_to(traffic(calls).accepted, no_timings) =~= Seq::<Answer<M>>::empty());
    } else {
        let before = traffic(calls.drop_last());
        law_accepted_frames_are_answered(calls.drop_last(), no_timings);
        match calls.last() {
            Call::Submit { frame } => {
                assert(before.sent.push(Some(frame)).drop_last() =~= before.sent);
                assert(answers_to(before.accepted.push(frame), no_timings) =~= answers_to(
                    before.accepted,
                    no_timings,
                ).push(frame.answer(no_timings)));
            },
            Call::Stop => {
                assert(before.sent.push(None).drop_last() =~= before.sent);
            },
        }
    }
}

/// What the receiving end of a queue gives when it is read for the time after `k`
/// others: the item in that place; where there is none, nothing once the sending end
/// has closed.  A read that would wait for an item or the end is left open.
pub open spec fn received<A>(items: Seq<A>, closed: bool, k: int, got: Option<A>) -> bool {
    if 0 <= k < items.len() {
        got == Some(items[k])
    } else {
        closed && got is None
    }
}

/// Law: the results come back as the frames went in.  Of a pipeline after these calls,
/// the read after `k` others gives the answer to the accepted frame in that place; it
/// gives nothing exactly where all of them have been read, which takes a stop; and from
/// then on it gives nothing again.
pub proof fn law_results_follow_the_frames<M>(
    calls: Seq<Call<M>>,
    no_timings: M,
    k: int,
    got: Option<Answer<M>>,
)
    requires
        0 <= k,
        received(
            run(traffic(calls).sent, no_timings).1,
            run(traffic(calls).sent, no_timings).0 == WorkerState::Exited,
            k,
            got,
        ),
    ensures
        k < traffic(calls).accepted.len() ==> got == Some(
            traffic(calls).accepted[k].answer(no_timings),
        ),
        got is None <==> k >= traffic(calls).accepted.len(),
        got is None ==> traffic(calls).stopped,
        got is None ==> received(
            run(traffic(calls).sent, no_timings).1,
            run(traffic(calls).sent, no_timings).0 == WorkerState::Exited,
            k + 1,
            got,
        ),
{
    law_accepted_frames_are_answered(calls, no_timings);
}

/// Law: stopping discards nothing.  After a stop every frame accepted before it is
/// answered, as it was without the stop, then the worker ends; and to stop once more,
/// or to submit a frame, changes neither.
pub proof fn law_stop_discards_nothing<M>(calls: Seq<Call<M>>, no_timings: M, later: Call<M>)
    ensures
        ({
            let stopped = calls.push(Call::Stop);
            let after = run(traffic(stopped).sent, no_timings);
            &&& after.1 == answers_to(traffic(calls).accepted, no_timings)
            &&& after.1 == run(traffic(calls).sent, no_timings).1
            &&& after.0 == WorkerState::Exited
            &&& run(traffic(stopped.push(later)).sent, no_timings) == after
        }),
{
    let stopped = calls.push(Call::Stop);
    assert(stopped.drop_last() =~= calls);
    assert(stopped.push(later).drop_last() =~= stopped);
    law_accepted_frames_are_answered(calls, no_timings);
    law_accepted_frames_are_answered(stopped, no_timings);
    law_accepted_frames_are_answered(stopped.push(later), no_timings);
}

} // verus!
