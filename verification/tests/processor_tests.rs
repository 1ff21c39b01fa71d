use dtln_rs::dtln_processor::{DtlnImmediateProcessor, SessionConfig};
use dtln_rs::engine::{full_frame, EngineFault, InferenceEngine};
use dtln_rs::error::DtlnError;
use std::cell::RefCell;
use std::rc::Rc;

/// Halves every sample and counts the frames it has seen.
struct Halver {
    frames: usize,
    lengths: Vec<usize>,
}

impl Halver {
    fn new() -> Self {
        Halver { frames: 0, lengths: Vec::new() }
    }
}

impl InferenceEngine<f32> for Halver {
    fn infer(&mut self, frame: &[f32]) -> Result<Vec<f32>, EngineFault> {
        self.frames += 1;
        self.lengths.push(frame.len());
        Ok(frame.iter().map(|x| x / 2.0).collect())
    }
}

/// Works for a number of frames, then faults.
struct Fragile {
    left: usize,
}

impl InferenceEngine<f32> for Fragile {
    fn infer(&mut self, frame: &[f32]) -> Result<Vec<f32>, EngineFault> {
        if self.left == 0 {
            return Err(EngineFault);
        }
        self.left -= 1;
        Ok(frame.to_vec())
    }
}

/// Answers every frame with one sample too few.
struct Short;

impl InferenceEngine<f32> for Short {
    fn infer(&mut self, frame: &[f32]) -> Result<Vec<f32>, EngineFault> {
        Ok(frame[1..].to_vec())
    }
}

fn ramp(from: usize, to: usize) -> Vec<f32> {
    (from..to).map(|i| i as f32).collect()
}

fn halved(from: usize, to: usize) -> Vec<f32> {
    (from..to).map(|i| i as f32 / 2.0).collect()
}

fn session(frame_size: usize) -> DtlnImmediateProcessor<f32, Halver> {
    DtlnImmediateProcessor::new(Ok(Halver::new()), config(frame_size)).ok().unwrap()
}

fn config(frame_size: usize) -> SessionConfig {
    SessionConfig { frame_size, sample_rate: 16000 }
}

#[test]
fn creation_needs_an_engine_and_a_frame_size() {
    let missing: Result<Halver, EngineFault> = Err(EngineFault);
    let r = DtlnImmediateProcessor::<f32, Halver>::new(missing, config(4));
    assert_eq!(r.err(), Some(DtlnError::Creation));
    let r = DtlnImmediateProcessor::<f32, Halver>::new(Ok(Halver::new()), config(0));
    assert_eq!(r.err(), Some(DtlnError::Creation));
    let p = session(4);
    assert_eq!(p.frame_size(), 4);
    assert_eq!(p.config(), SessionConfig { frame_size: 4, sample_rate: 16000 });
    assert!(!p.is_stopped());
    assert!(!p.has_failed());
    assert_eq!(p.residue_len(), 0);
    assert_eq!(p.available(), 0);
}

#[test]
fn output_matches_input_block_for_block_when_blocks_are_frames() {
    let mut p = session(4);
    for block in 0..5 {
        let r = p.denoise(&ramp(4 * block, 4 * block + 4)).ok().unwrap();
        assert!(!r.processor_starved);
        assert_eq!(r.samples, halved(4 * block, 4 * block + 4));
        assert_eq!(p.residue_len(), 0);
        assert_eq!(p.available(), 0);
    }
}

#[test]
fn first_frame_fills_before_anything_comes_back() {
    let mut p = session(4);
    let r = p.denoise(&[0.0, 1.0]).ok().unwrap();
    assert_eq!(r.samples, Vec::<f32>::new());
    assert_eq!((p.residue_len(), p.available()), (2, 0));
    let r = p.denoise(&[2.0, 3.0]).ok().unwrap();
    assert_eq!(r.samples, vec![0.0, 0.5]);
    assert_eq!((p.residue_len(), p.available()), (0, 2));
    let r = p.denoise(&[4.0, 5.0]).ok().unwrap();
    assert_eq!(r.samples, vec![1.0, 1.5]);
    assert_eq!((p.residue_len(), p.available()), (2, 0));
    let r = p.denoise(&[6.0, 7.0]).ok().unwrap();
    assert_eq!(r.samples, vec![2.0, 2.5]);
    assert_eq!((p.residue_len(), p.available()), (0, 2));
}

#[test]
fn output_trails_input_by_less_than_a_frame() {
    let frame = 16;
    let mut p = session(frame);
    let stream = ramp(0, 400);
    let mut out: Vec<f32> = Vec::new();
    let mut fed = 0;
    let mut lag = 0;
    for step in 0..57 {
        let len = (step * 5) % 13;
        let r = p.denoise(&stream[fed..fed + len]).ok().unwrap();
        assert!(r.samples.len() <= len);
        fed += len;
        out.extend(r.samples);
        let now = p.residue_len() + p.available();
        assert_eq!(out.len() + now, fed);
        assert!(now >= lag);
        assert!(now < frame);
        lag = now;
    }
    assert_eq!(out, halved(0, out.len()));
}

#[test]
fn steady_state_hands_back_what_comes_in() {
    let mut p = session(8);
    assert_eq!(p.denoise(&ramp(0, 7)).ok().unwrap().samples.len(), 0);
    assert_eq!(p.residue_len() + p.available(), 7);
    let mut fed = 7;
    for len in [1usize, 3, 8, 20, 0, 5, 7, 9, 2] {
        let r = p.denoise(&ramp(fed, fed + len)).ok().unwrap();
        assert_eq!(r.samples.len(), len);
        assert_eq!(r.samples, halved(fed - 7, fed - 7 + len));
        fed += len;
        assert_eq!(p.residue_len() + p.available(), 7);
    }
}

#[test]
fn yield_for_foretells_the_output_length() {
    let mut p = session(6);
    let mut fed = 0;
    for len in [0usize, 5, 1, 4, 13, 2, 6, 6, 11, 3] {
        let foretold = p.yield_for(len);
        let r = p.denoise(&ramp(fed, fed + len)).ok().unwrap();
        assert_eq!(r.samples.len(), foretold);
        fed += len;
    }
    let p = session(6);
    assert_eq!(p.yield_for(5), 0);
    assert_eq!(p.yield_for(6), 6);
    assert_eq!(p.yield_for(11), 6);
    assert_eq!(p.yield_for(12), 12);
    assert_eq!(p.yield_for(usize::MAX), usize::MAX - usize::MAX % 6);
}

/// Echoes every frame and writes it down where the test can read it.
struct Recorder {
    log: Rc<RefCell<Vec<Vec<f32>>>>,
}

impl InferenceEngine<f32> for Recorder {
    fn infer(&mut self, frame: &[f32]) -> Result<Vec<f32>, EngineFault> {
        self.log.borrow_mut().push(frame.to_vec());
        Ok(frame.to_vec())
    }
}

#[test]
fn engine_sees_only_full_frames_in_order() {
    let log = Rc::new(RefCell::new(Vec::new()));
    let engine = Recorder { log: log.clone() };
    let mut p = DtlnImmediateProcessor::new(Ok(engine), config(3)).ok().unwrap();
    p.denoise(&[1.0, 2.0]).ok().unwrap();
    assert!(log.borrow().is_empty());
    p.denoise(&[3.0, 4.0, 5.0, 6.0, 7.0]).ok().unwrap();
    assert_eq!(*log.borrow(), vec![vec![1.0, 2.0, 3.0], vec![4.0, 5.0, 6.0]]);
    assert_eq!(p.denoise(&[8.0]).ok().unwrap().samples, vec![6.0]);
    assert_eq!(log.borrow().len(), 2);
    let out = p.drain(0.0).ok().unwrap();
    assert_eq!(out, vec![7.0, 8.0]);
    assert_eq!(
        *log.borrow(),
        vec![vec![1.0, 2.0, 3.0], vec![4.0, 5.0, 6.0], vec![7.0, 8.0, 0.0]]
    );
}

#[test]
fn engine_fault_ends_the_session() {
    let mut p = DtlnImmediateProcessor::new(Ok(Fragile { left: 2 }), config(2)).ok().unwrap();
    assert_eq!(p.denoise(&[1.0, 2.0, 3.0]).ok().unwrap().samples, vec![1.0, 2.0]);
    assert_eq!(p.denoise(&[4.0, 5.0]).ok().unwrap().samples, vec![3.0, 4.0]);
    assert!(!p.has_failed());
    assert_eq!((p.residue_len(), p.available()), (1, 0));
    assert_eq!(p.denoise(&[6.0]).err(), Some(DtlnError::EngineFailure));
    assert!(p.has_failed());
    assert!(!p.is_stopped());
    assert_eq!((p.frame_size(), p.residue_len(), p.available()), (2, 0, 0));
    assert_eq!(p.denoise(&[]).err(), Some(DtlnError::EngineFailure));
    assert_eq!(p.denoise(&[7.0, 8.0]).err(), Some(DtlnError::EngineFailure));
    assert_eq!(p.drain(0.0).err(), Some(DtlnError::EngineFailure));
}

#[test]
fn call_that_completes_no_frame_never_reaches_the_engine() {
    let mut p = DtlnImmediateProcessor::new(Ok(Fragile { left: 0 }), config(4)).ok().unwrap();
    assert_eq!(p.denoise(&[1.0, 2.0, 3.0]).ok().unwrap().samples, Vec::<f32>::new());
    assert_eq!(p.denoise(&[]).ok().unwrap().samples, Vec::<f32>::new());
    assert!(!p.has_failed());
    assert_eq!(p.denoise(&[4.0]).err(), Some(DtlnError::EngineFailure));
}

#[test]
fn frame_of_the_wrong_length_is_a_fault() {
    let mut p = DtlnImmediateProcessor::new(Ok(Short), config(4)).ok().unwrap();
    assert_eq!(p.denoise(&[1.0, 2.0, 3.0, 4.0]).err(), Some(DtlnError::EngineFailure));
    assert!(p.has_failed());
}

#[test]
fn stop_twice_then_denoise_is_refused() {
    let mut p = session(4);
    p.denoise(&[1.0, 2.0, 3.0, 4.0, 5.0]).ok().unwrap();
    p.stop();
    assert!(p.is_stopped());
    let held = (p.residue_len(), p.available());
    p.stop();
    assert!(p.is_stopped());
    assert_eq!((p.residue_len(), p.available()), held);
    assert_eq!(p.denoise(&[6.0]).err(), Some(DtlnError::SessionStopped));
    assert_eq!(p.drain(0.0).err(), Some(DtlnError::SessionStopped));
    assert_eq!((p.residue_len(), p.available()), held);
}

#[test]
fn stopped_comes_before_failed() {
    let mut p = DtlnImmediateProcessor::new(Ok(Fragile { left: 0 }), config(1)).ok().unwrap();
    assert_eq!(p.denoise(&[1.0]).err(), Some(DtlnError::EngineFailure));
    p.stop();
    assert_eq!(p.denoise(&[1.0]).err(), Some(DtlnError::SessionStopped));
}

#[test]
fn drain_hands_back_everything_that_is_left() {
    let mut p = session(4);
    let mut out = p.denoise(&ramp(0, 3)).ok().unwrap().samples;
    out.extend(p.denoise(&ramp(3, 10)).ok().unwrap().samples);
    assert_eq!(out.len(), 7);
    assert_eq!((p.residue_len(), p.available()), (2, 1));
    out.extend(p.drain(0.0).ok().unwrap());
    assert_eq!(out, halved(0, 10));
    assert_eq!((p.residue_len(), p.available()), (0, 0));
    assert_eq!(p.drain(0.0).ok().unwrap(), Vec::<f32>::new());
}

#[test]
fn only_a_full_frame_is_accepted_from_the_engine() {
    assert_eq!(full_frame(Ok(vec![1.0f32, 2.0, 3.0]), 3), Some(vec![1.0, 2.0, 3.0]));
    assert_eq!(full_frame(Ok(vec![1.0f32, 2.0]), 3), None);
    assert_eq!(full_frame(Ok(vec![1.0f32, 2.0, 3.0, 4.0]), 3), None);
    assert_eq!(full_frame::<f32>(Err(EngineFault), 3), None);
    assert_eq!(full_frame::<f32>(Ok(vec![]), 0), Some(vec![]));
}

#[test]
fn fault_while_draining_ends_the_session() {
    let mut p = DtlnImmediateProcessor::new(Ok(Fragile { left: 1 }), config(2)).ok().unwrap();
    assert_eq!(p.denoise(&[1.0, 2.0, 3.0]).ok().unwrap().samples, vec![1.0, 2.0]);
    assert_eq!(p.drain(0.0).err(), Some(DtlnError::EngineFailure));
    assert!(p.has_failed());
    assert_eq!((p.residue_len(), p.available()), (0, 0));
}

#[test]
fn engine_sees_the_same_frames_however_the_stream_is_cut() {
    let stream = ramp(0, 23);
    let expected: Vec<Vec<f32>> = stream.chunks_exact(4).map(|f| f.to_vec()).collect();
    let ways =
        [vec![23usize], vec![1, 22], vec![3, 3, 3, 14], vec![4, 4, 4, 4, 4, 3], vec![0, 9, 0, 14]];
    for cuts in ways {
        let log = Rc::new(RefCell::new(Vec::new()));
        let engine = Recorder { log: log.clone() };
        let mut p = DtlnImmediateProcessor::new(Ok(engine), config(4)).ok().unwrap();
        let mut out: Vec<f32> = Vec::new();
        let mut at = 0;
        for cut in cuts {
            out.extend(p.denoise(&stream[at..at + cut]).ok().unwrap().samples);
            at += cut;
        }
        assert_eq!(*log.borrow(), expected);
        assert_eq!(p.residue_len(), 3);
        assert_eq!(out, ramp(0, out.len()));
        out.extend(p.drain(0.0).ok().unwrap());
        assert_eq!(out, stream);
    }
}
