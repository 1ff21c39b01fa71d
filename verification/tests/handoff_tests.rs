use dtln_rs::dtln_processor::{DenoiseResult, DtlnImmediateProcessor, SessionConfig};
use dtln_rs::engine::{EngineFault, InferenceEngine};
use dtln_rs::error::DtlnError;
use dtln_rs::handoff::{HandOff, Phase, WorkerStep};
use dtln_rs::session::create_deferred;

fn running(capacity: usize) -> HandOff<f32> {
    let mut h = HandOff::new(capacity).unwrap();
    h.start();
    h
}

/// What the worker was given, if anything.
fn taken(step: WorkerStep<f32>) -> Option<Vec<f32>> {
    match step {
        WorkerStep::Work(chunk) => Some(chunk),
        _ => None,
    }
}

fn waits(step: &WorkerStep<f32>) -> bool {
    matches!(step, WorkerStep::Wait)
}

fn exits(step: &WorkerStep<f32>) -> bool {
    matches!(step, WorkerStep::Exit)
}

/// One turn of a worker that negates what it is given.
fn work_once(h: &mut HandOff<f32>) -> bool {
    match h.poll() {
        WorkerStep::Work(chunk) => {
            h.complete(chunk.iter().map(|x| -x).collect());
            true
        }
        _ => false,
    }
}

fn config(frame_size: usize) -> SessionConfig {
    SessionConfig { frame_size, sample_rate: 16000 }
}

#[test]
fn no_hand_off_without_room() {
    assert!(HandOff::<f32>::new(0).is_none());
    let h = HandOff::<f32>::new(1).unwrap();
    assert_eq!(h.phase(), Phase::Created);
    assert!(h.has_room());
    assert!(!h.is_starved());
    assert!(!h.has_failed());
    assert!(h.may_release());
}

#[test]
fn first_call_is_not_starved_and_hands_back_nothing() {
    let mut h = running(1);
    let r = h.exchange(&[1.0, 2.0]).ok().unwrap();
    assert!(!r.processor_starved);
    assert!(r.samples.is_empty());
    assert!(h.is_starved());
}

#[test]
fn outputs_come_back_in_the_order_of_the_inputs() {
    let mut h = running(1);
    assert!(h.exchange(&[1.0]).ok().unwrap().samples.is_empty());
    assert!(work_once(&mut h));
    let r = h.exchange(&[2.0]).ok().unwrap();
    assert_eq!((r.samples, r.processor_starved), (vec![-1.0], false));
    assert!(work_once(&mut h));
    let r = h.exchange(&[3.0]).ok().unwrap();
    assert_eq!((r.samples, r.processor_starved), (vec![-2.0], false));
    assert!(work_once(&mut h));
    let r = h.exchange(&[4.0]).ok().unwrap();
    assert_eq!((r.samples, r.processor_starved), (vec![-3.0], false));
}

#[test]
fn worker_is_given_the_oldest_chunk_one_at_a_time() {
    let mut h = running(3);
    h.exchange(&[1.0]).ok().unwrap();
    h.exchange(&[2.0]).ok().unwrap();
    h.exchange(&[3.0]).ok().unwrap();
    assert_eq!(taken(h.poll()), Some(vec![1.0]));
    assert!(waits(&h.poll()));
    h.complete(vec![10.0]);
    assert_eq!(taken(h.poll()), Some(vec![2.0]));
    h.complete(vec![20.0]);
    assert_eq!(taken(h.poll()), Some(vec![3.0]));
    h.complete(vec![30.0]);
    assert!(waits(&h.poll()));
    assert_eq!(h.exchange(&[4.0]).ok().unwrap().samples, vec![10.0]);
    assert_eq!(h.exchange(&[5.0]).ok().unwrap().samples, vec![20.0]);
    assert_eq!(h.exchange(&[6.0]).ok().unwrap().samples, vec![30.0]);
}

#[test]
fn late_worker_starves_the_next_call_until_it_catches_up() {
    let mut h = running(2);
    assert!(!h.exchange(&[1.0]).ok().unwrap().processor_starved);
    let r = h.exchange(&[2.0]).ok().unwrap();
    assert!(r.processor_starved);
    assert!(r.samples.is_empty());
    assert_eq!(taken(h.poll()), Some(vec![1.0]));
    let r = h.exchange(&[3.0]).ok().unwrap();
    assert!(r.processor_starved);
    assert!(r.samples.is_empty());
    h.complete(vec![-1.0]);
    let r = h.exchange(&[4.0]).ok().unwrap();
    assert!(r.processor_starved);
    assert_eq!(r.samples, vec![-1.0]);
    while work_once(&mut h) {}
    assert!(!h.is_starved());
    let r = h.exchange(&[5.0]).ok().unwrap();
    assert!(!r.processor_starved);
    assert_eq!(r.samples, vec![-2.0]);
    assert!(work_once(&mut h));
    let r = h.exchange(&[6.0]).ok().unwrap();
    assert!(!r.processor_starved);
    assert_eq!(r.samples, vec![-3.0]);
}

#[test]
fn chunk_without_room_is_not_enqueued_and_the_call_is_starved() {
    let mut h = running(1);
    h.exchange(&[1.0]).ok().unwrap();
    assert!(!h.has_room());
    let r = h.exchange(&[2.0]).ok().unwrap();
    assert!(r.processor_starved);
    assert!(r.samples.is_empty());
    assert!(work_once(&mut h));
    assert!(!work_once(&mut h));
    assert!(h.has_room());
    let r = h.exchange(&[3.0]).ok().unwrap();
    assert_eq!((r.samples, r.processor_starved), (vec![-1.0], false));
    assert!(work_once(&mut h));
    assert_eq!(h.exchange(&[4.0]).ok().unwrap().samples, vec![-3.0]);
}

#[test]
fn answer_to_no_chunk_is_dropped() {
    let mut h = running(1);
    h.complete(vec![9.0]);
    let r = h.exchange(&[1.0]).ok().unwrap();
    assert!(r.samples.is_empty());
    assert_eq!(taken(h.poll()), Some(vec![1.0]));
    h.complete(vec![-1.0]);
    h.complete(vec![9.0]);
    assert_eq!(h.exchange(&[2.0]).ok().unwrap().samples, vec![-1.0]);
    assert!(h.exchange(&[3.0]).ok().unwrap().samples.is_empty());
}

#[test]
fn worker_waits_until_the_session_runs() {
    let mut h: HandOff<f32> = HandOff::new(1).unwrap();
    assert!(!h.exchange(&[1.0]).ok().unwrap().processor_starved);
    assert!(waits(&h.poll()));
    h.start();
    assert_eq!(h.phase(), Phase::Running);
    assert_eq!(taken(h.poll()), Some(vec![1.0]));
    h.start();
    assert_eq!(h.phase(), Phase::Running);
}

#[test]
fn fault_surfaces_on_the_next_call_and_stays() {
    let mut h = running(1);
    h.exchange(&[1.0]).ok().unwrap();
    assert_eq!(taken(h.poll()), Some(vec![1.0]));
    h.fail();
    assert!(h.has_failed());
    assert_eq!(h.exchange(&[2.0]).err(), Some(DtlnError::EngineFailure));
    assert_eq!(h.exchange(&[3.0]).err(), Some(DtlnError::EngineFailure));
    assert_eq!(h.next_len().err(), Some(DtlnError::EngineFailure));
    assert!(exits(&h.poll()));
    assert!(h.request_stop());
    h.finish_stop();
    assert_eq!(h.exchange(&[4.0]).err(), Some(DtlnError::SessionStopped));
}

#[test]
fn settle_takes_the_outcome_of_the_workers_processor() {
    let mut h = running(1);
    h.exchange(&[1.0]).ok().unwrap();
    h.poll();
    h.settle(Ok(DenoiseResult { samples: vec![0.25], processor_starved: false }));
    assert!(!h.has_failed());
    assert_eq!(h.exchange(&[2.0]).ok().unwrap().samples, vec![0.25]);
    h.poll();
    h.settle(Err(DtlnError::EngineFailure));
    assert!(h.has_failed());
    assert_eq!(h.exchange(&[3.0]).err(), Some(DtlnError::EngineFailure));
}

#[test]
fn stop_twice_is_stop_once() {
    let mut h = running(1);
    h.exchange(&[1.0]).ok().unwrap();
    assert!(!h.may_release());
    assert!(h.request_stop());
    assert_eq!(h.phase(), Phase::Stopping);
    assert!(!h.may_release());
    assert!(exits(&h.poll()));
    assert_eq!(h.exchange(&[2.0]).err(), Some(DtlnError::SessionStopped));
    h.finish_stop();
    assert_eq!(h.phase(), Phase::Stopped);
    assert!(h.may_release());
    assert!(!h.request_stop());
    h.finish_stop();
    assert_eq!(h.phase(), Phase::Stopped);
    assert_eq!(h.exchange(&[3.0]).err(), Some(DtlnError::SessionStopped));
    assert_eq!(h.next_len().err(), Some(DtlnError::SessionStopped));
    assert!(exits(&h.poll()));
    h.start();
    assert_eq!(h.phase(), Phase::Stopped);
}

#[test]
fn stop_before_start_has_no_worker_to_join() {
    let mut h: HandOff<f32> = HandOff::new(1).unwrap();
    assert!(!h.request_stop());
    assert_eq!(h.phase(), Phase::Stopped);
    h.finish_stop();
    assert_eq!(h.phase(), Phase::Stopped);
    assert!(h.may_release());
}

#[test]
fn chunk_in_progress_is_finished_after_a_stop() {
    let mut h = running(2);
    h.exchange(&[1.0]).ok().unwrap();
    h.exchange(&[2.0]).ok().unwrap();
    assert_eq!(taken(h.poll()), Some(vec![1.0]));
    assert!(h.request_stop());
    h.complete(vec![-1.0]);
    assert!(exits(&h.poll()));
    h.finish_stop();
    assert!(h.may_release());
}

#[test]
fn next_len_is_the_length_of_the_next_answer() {
    let mut h = running(1);
    assert_eq!(h.next_len().ok(), Some(0));
    h.exchange(&[1.0, 2.0, 3.0]).ok().unwrap();
    assert_eq!(h.next_len().ok(), Some(0));
    assert!(work_once(&mut h));
    assert_eq!(h.next_len().ok(), Some(3));
}

/// Passes samples through unchanged.
struct Echo;

impl InferenceEngine<f32> for Echo {
    fn infer(&mut self, frame: &[f32]) -> Result<Vec<f32>, EngineFault> {
        Ok(frame.to_vec())
    }
}

#[test]
fn silence_at_real_time_cadence_never_starves() {
    let block = 1024;
    let silence = vec![0.0f32; 16000 * 10];
    let mut worker = DtlnImmediateProcessor::new(Ok(Echo), config(512)).ok().unwrap();
    let mut h = running(1);
    let mut out: Vec<f32> = Vec::new();
    let mut calls = 0;
    for chunk in silence.chunks(block) {
        let r = h.exchange(chunk).ok().unwrap();
        assert!(!r.processor_starved);
        out.extend(r.samples);
        calls += 1;
        match h.poll() {
            WorkerStep::Work(work) => h.settle(worker.denoise(&work)),
            _ => panic!("the worker was given nothing"),
        }
    }
    assert_eq!(calls, 157);
    assert!(h.request_stop());
    assert!(exits(&h.poll()));
    h.finish_stop();
    assert_eq!(out.len(), 156 * 1024);
    let energy_in: f32 = silence.iter().map(|x| x * x).sum();
    let energy_out: f32 = out.iter().map(|x| x * x).sum();
    assert!(energy_out <= energy_in);
    assert_eq!(h.exchange(&[0.0]).err(), Some(DtlnError::SessionStopped));
}

#[test]
fn deferred_session_needs_engine_frames_and_room() {
    let parts = create_deferred::<f32, Echo>(Ok(Echo), config(4), 2).ok().unwrap();
    assert_eq!(parts.processor.frame_size(), 4);
    assert_eq!(parts.hand_off.phase(), Phase::Created);
    assert!(parts.hand_off.has_room());
    let r = create_deferred::<f32, Echo>(Err(EngineFault), config(4), 2);
    assert_eq!(r.err(), Some(DtlnError::Creation));
    let r = create_deferred::<f32, Echo>(Ok(Echo), config(0), 2);
    assert_eq!(r.err(), Some(DtlnError::Creation));
    let r = create_deferred::<f32, Echo>(Ok(Echo), config(4), 0);
    assert_eq!(r.err(), Some(DtlnError::Creation));
}
