//! What a pipeline does with the frames that it is given.

use crate::error::Error;
use crate::pipeline::{
    law_accepted_frames_are_answered, queue_capacity, run, submitted, traffic, Answer, Call, Frame,
    FrameResult, Intake, Job, Message, Worker, WorkerState,
};
use crate::postprocess::Detection;
use vstd::prelude::*;

verus! {

/// Law: a worker that waits takes a job as it is and works on its frame, and ends at
/// anything else.
pub proof fn law_worker_receives<I>(worker: &mut Worker, message: Message<I>, res: Option<Job<I>>)
    requires
        call_ensures(Worker::receive::<I>, (worker, message), res),
    ensures
        match message {
            Message::Job(job) => res == Some(job) && final(worker).state is Inferring
                && final(worker).state->frame_id == job.frame_id,
            Message::Stop => res is None && final(worker).state is Exited,
            Message::Disconnected => res is None && final(worker).state is Exited,
        },
{
}

/// Law: a worker answers for the frame in work, with the detections and timings that
/// inference gave, or with no detections and the timings that stand for none.
pub proof fn law_worker_answers<M>(
    worker: &Worker,
    outcome: Result<(Vec<Detection>, M), Error>,
    no_timings: M,
    res: FrameResult<M>,
)
    requires
        worker.state is Inferring,
        call_ensures(Worker::answer::<M>, (worker, outcome, no_timings), res),
    ensures
        res.frame_id == worker.state->frame_id,
        outcome is Ok ==> res.detections@ == outcome->Ok_0.0@ && res.timings == outcome->Ok_0.1,
        outcome is Err ==> res.detections@.len() == 0 && res.timings == no_timings,
{
    assert(res.answer().frame_id == res.frame_id);
    assert(res.answer().detections == res.detections@);
    assert(res.answer().timings == res.timings);
}

/// Law: a worker starts out waiting, waits again once its answer is taken, and ends where
/// nobody takes it.
pub proof fn law_worker_goes_on(fresh: Worker, worker: &mut Worker, taken: bool)
    requires
        call_ensures(Worker::new, (), fresh),
        call_ensures(Worker::delivered, (worker, taken), ()),
    ensures
        fresh.state is Receiving,
        taken ==> final(worker).state is Receiving,
        !taken ==> final(worker).state is Exited,
{
}

/// Law: a pipeline lets every frame in until it is stopped, and none after.
pub proof fn law_intake(
    fresh: Intake,
    intake: Intake,
    res: Result<(), Error>,
    stopping: &mut Intake,
    taken: bool,
    sent: Result<(), Error>,
)
    requires
        call_ensures(Intake::new, (), fresh),
        call_ensures(Intake::submit, (&intake,), res),
        call_ensures(Intake::stop, (stopping,), ()),
        call_ensures(submitted, (taken,), sent),
    ensures
        !fresh.stopped,
        res is Ok <==> !intake.stopped,
        res is Err ==> res->Err_0 is PipelineStopped,
        final(stopping).stopped,
        sent is Ok <==> taken,
        sent is Err ==> sent->Err_0 is PipelineStopped,
{
}

/// Law: a queue holds as many frames as asked for, and at least one.
pub proof fn law_queue_capacity(depth: usize, res: usize)
    requires
        call_ensures(queue_capacity, (depth,), res),
    ensures
        res >= 1,
        depth >= 1 ==> res == depth,
        depth == 0 ==> res == 1,
{
}

/// What an answer to a frame says: its number, and what inference on it came to.
pub open spec fn answers<M>(answer: Answer<M>, frame: Frame<M>, no_timings: M) -> bool {
    &&& answer.frame_id == frame.frame_id
    &&& frame.outcome is Ok ==> answer.detections == frame.outcome->Ok_0.0 && answer.timings
        == frame.outcome->Ok_0.1
    &&& frame.outcome is Err ==> answer.detections.len() == 0 && answer.timings == no_timings
}

proof fn lemma_accepted<M>(calls: Seq<Call<M>>, n: int)
    requires
        0 <= n <= calls.len(),
        forall|i: int| 0 <= i < n ==> #[trigger] calls[i] is Submit,
        n < calls.len() ==> calls[n] is Stop,
    ensures
        traffic(calls).accepted.len() == n,
        forall|i: int| 0 <= i < n ==> #[trigger] traffic(calls).accepted[i] == calls[i]->frame,
        traffic(calls).stopped == (n < calls.len()),
    decreases calls.len(),
{
    if calls.len() > 0 {
        let rest = calls.drop_last();
        let last = calls.len() - 1;
        if n < calls.len() {
            lemma_accepted(rest, if n < last { n } else { last });
        } else {
            assert forall|i: int| 0 <= i < n - 1 implies #[trigger] rest[i] is Submit by {
                assert(calls[i] is Submit);
            }
            lemma_accepted(rest, n - 1);
            assert(calls[n - 1] is Submit);
        }
        assert forall|i: int| 0 <= i < n implies #[trigger] traffic(calls).accepted[i]
            == calls[i]->frame by {
            if i < rest.len() {
                assert(rest[i] == calls[i]);
                assert(i < traffic(rest).accepted.len() ==> traffic(rest).accepted[i]
                    == rest[i]->frame);
            }
        }
    }
}

/// Law: a pipeline answers exactly the frames that were submitted before its first stop,
/// each once, in the order of submission and with what inference on it came to; a frame
/// that failed changes nothing for the others.  The worker ends exactly where there was a
/// stop.  `n` is the number of calls before the first stop, or of all where there is none.
pub proof fn law_pipeline_answers<M>(calls: Seq<Call<M>>, no_timings: M, n: int)
    requires
        0 <= n <= calls.len(),
        forall|i: int| 0 <= i < n ==> #[trigger] calls[i] is Submit,
        n < calls.len() ==> calls[n] is Stop,
    ensures
        ({
            let (state, given) = run(traffic(calls).sent, no_timings);
            &&& given.len() == n
            &&& forall|i: int|
                0 <= i < n ==> answers(#[trigger] given[i], calls[i]->frame, no_timings)
            &&& state == if n < calls.len() {
                WorkerState::Exited
            } else {
                WorkerState::Receiving
            }
        }),
{
    lemma_accepted(calls, n);
    law_accepted_frames_are_answered(calls, no_timings);
    let given = run(traffic(calls).sent, no_timings).1;
    assert forall|i: int| 0 <= i < n implies answers(
        #[trigger] given[i],
        calls[i]->frame,
        no_timings,
    ) by {
        assert(traffic(calls).accepted[i] == calls[i]->frame);
        assert(given[i] == traffic(calls).accepted[i].answer(no_timings));
    }
}

} // verus!
