use rfdetr_ort::error::Error;
use rfdetr_ort::float_bits::F32;
use rfdetr_ort::pipeline::{
    queue_capacity, submitted, Intake, Job, Message, Worker, WorkerState,
};
use rfdetr_ort::postprocess::Detection;

fn job(frame_id: u64) -> Message<&'static str> {
    Message::Job(Job { frame_id, image: "picture", conf_threshold: F32 { bits: 0 } })
}

fn detection() -> Detection {
    Detection { x: 1, y: 2, width: 3, height: 4, class_id: 5, confidence: F32 { bits: 6 } }
}

#[test]
fn frames_are_answered_in_order_until_the_stop() {
    let mut worker = Worker::new();
    let mut answered = Vec::new();
    for message in vec![job(7), job(3), Message::Stop, job(9)] {
        if worker.state == WorkerState::Exited {
            break;
        }
        if let Some(job) = worker.receive(message) {
            assert_eq!(job.image, "picture");
            answered.push(worker.answer(Ok((vec![detection()], 1.5f64)), 0.0).frame_id);
            worker.delivered(true);
        }
    }
    assert_eq!(answered, vec![7, 3]);
    assert_eq!(worker.state, WorkerState::Exited);
}

#[test]
fn failed_inference_is_answered_without_detections() {
    let mut worker = Worker::new();
    worker.receive(job(11));
    let ok = worker.answer(Ok((vec![detection()], 2.0f64)), 0.0);
    assert_eq!((ok.frame_id, ok.detections, ok.timings), (11, vec![detection()], 2.0));
    let failed = worker.answer(Err(Error::Ort("lost".to_owned())), 0.0f64);
    assert_eq!((failed.frame_id, failed.detections.len(), failed.timings), (11, 0, 0.0));
}

#[test]
fn a_worker_ends_when_an_end_is_gone() {
    let mut worker = Worker::new();
    worker.receive(job(1));
    worker.delivered(false);
    assert_eq!(worker.state, WorkerState::Exited);
    let mut worker = Worker::new();
    assert!(worker.receive::<u8>(Message::Disconnected).is_none());
    assert_eq!(worker.state, WorkerState::Exited);
}

#[test]
fn queues_hold_at_least_one_frame() {
    assert_eq!((queue_capacity(0), queue_capacity(1), queue_capacity(4)), (1, 1, 4));
}

#[test]
fn submitting_to_a_stopped_pipeline_fails() {
    assert!(submitted(true).is_ok());
    assert!(matches!(submitted(false), Err(Error::PipelineStopped)));
}

#[test]
fn accepted_frames_are_answered_and_no_others() {
    let mut intake = Intake::new();
    let (mut queue, mut accepted) = (Vec::new(), Vec::new());
    for frame in [Some(4), Some(2), None, Some(8), None] {
        match frame {
            Some(id) => {
                if intake.submit().is_ok() {
                    queue.push(job(id));
                    accepted.push(id);
                } else {
                    assert!(matches!(intake.submit(), Err(Error::PipelineStopped)));
                }
            }
            None => {
                intake.stop();
                queue.push(Message::Stop);
            }
        }
    }
    let mut worker = Worker::new();
    let mut answered = Vec::new();
    for message in queue {
        if worker.state == WorkerState::Receiving && worker.receive(message).is_some() {
            answered.push(worker.answer(Ok((vec![], ())), ()).frame_id);
            worker.delivered(true);
        }
    }
    assert_eq!(accepted, vec![4, 2]);
    assert_eq!(answered, accepted);
    assert_eq!(worker.state, WorkerState::Exited);
}

#[test]
fn frames_behind_a_failed_one_are_answered_and_a_second_stop_changes_nothing() {
    let mut intake = Intake::new();
    let mut queue = Vec::new();
    for id in [1, 1, 6] {
        assert!(intake.submit().is_ok());
        queue.push(job(id));
    }
    intake.stop();
    queue.push(Message::Stop);
    intake.stop();
    queue.push(Message::Stop);
    assert!(intake.submit().is_err());

    let mut outcomes = vec![
        Ok((vec![detection()], 1.0f64)),
        Err(Error::Ort("lost".to_owned())),
        Ok((vec![detection(), detection()], 3.0)),
    ]
    .into_iter();
    let (mut worker, mut results) = (Worker::new(), Vec::new());
    for message in queue {
        if worker.state == WorkerState::Receiving && worker.receive(message).is_some() {
            let r = worker.answer(outcomes.next().unwrap(), 0.0);
            results.push((r.frame_id, r.detections.len(), r.timings));
            worker.delivered(true);
        }
    }
    assert_eq!(results, vec![(1, 1, 1.0), (1, 0, 0.0), (6, 2, 3.0)]);
    assert_eq!(worker.state, WorkerState::Exited);
}
