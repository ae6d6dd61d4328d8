use enthalpy::vad::{Segment, VadConfig, VadProcessor, CHUNK_SIZE, PROB_SCALE};

fn silence_frames(vad: &mut VadProcessor<f32>, n: usize) -> Vec<Vec<f32>> {
    let samples = vec![0.0f32; n * CHUNK_SIZE];
    vad.push_samples(&samples)
}

fn speech_frames(vad: &mut VadProcessor<f32>, n: usize) -> Vec<Vec<f32>> {
    let samples = vec![0.5f32; n * CHUNK_SIZE];
    vad.push_samples(&samples)
}

#[test]
fn default_config_values() {
    let cfg = VadConfig::default();
    assert_eq!(cfg.sample_rate, 16000);
    assert_eq!(cfg.silence_duration_ms, 450);
    assert_eq!(cfg.speech_threshold, 500000);
    assert_eq!(cfg.window_ms, 10000);
    assert_eq!(cfg.interval_ms, 1000);
    assert_eq!(PROB_SCALE, 1000000);
}

#[test]
fn push_samples_buffers_partial_chunks() {
    let mut vad = VadProcessor::<f32>::new(VadConfig::default(), 0);
    let frames = vad.push_samples(&vec![0.0f32; 700]);
    assert_eq!(frames.len(), 1);
    assert_eq!(frames[0].len(), CHUNK_SIZE);
    // 188 samples stay buffered; 400 more complete another chunk
    let frames = vad.push_samples(&vec![0.0f32; 400]);
    assert_eq!(frames.len(), 1);
    let frames = vad.push_samples(&vec![0.0f32; 10]);
    assert_eq!(frames.len(), 0);
}

#[test]
fn no_emission_before_interval() {
    let cfg = VadConfig::default();
    let mut vad = VadProcessor::<f32>::new(cfg, 0);
    let frames = silence_frames(&mut vad, 4);
    let preds = vec![0u32; 4];
    // only 500 ms passed: gated
    assert!(vad.process_scored(frames, &preds, 500).is_none());
    // chunks stay; a later call past the interval emits them all
    let frames = silence_frames(&mut vad, 2);
    let preds = vec![0u32; 2];
    let seg = vad.process_scored(frames, &preds, 1000).expect("segment due");
    assert_eq!(seg.start, 0);
    assert_eq!(seg.end, 5 * 32);
    assert!(seg.data.is_none());
}

#[test]
fn silence_then_speech_segments() {
    // 5 s of silence, then 500 ms of speech, then 5 s of silence, with the
    // default threshold 0.5 and silence kernel 450 ms at 16 kHz
    let cfg = VadConfig::default();
    let mut vad = VadProcessor::<f32>::new(cfg, 0);

    // 156 complete chunks of silence (~5 s)
    let frames = silence_frames(&mut vad, 156);
    let preds = vec![0u32; 156];
    let seg = vad.process_scored(frames, &preds, 1000).expect("silence segment");
    assert!(seg.data.is_none());
    assert_eq!(seg.start, 0);
    assert_eq!(seg.end, 155 * 32);

    // ~500 ms of speech
    let frames = speech_frames(&mut vad, 16);
    let preds = vec![900000u32; 16];
    let seg = vad.process_scored(frames, &preds, 2000).expect("speech segment");
    let data = seg.data.expect("speech carries samples");
    assert_eq!(data.len(), 16 * CHUNK_SIZE);
    // the speech region runs from sample 156*512 (4992 ms); the segment
    // spans it to within one 32 ms chunk
    assert_eq!(seg.start, 156 * 32);
    assert_eq!(seg.end, 171 * 32);

    // trailing silence still reports a window containing the speech
    let frames = silence_frames(&mut vad, 156);
    let preds = vec![0u32; 156];
    let seg = vad.process_scored(frames, &preds, 3000).expect("window still has speech");
    assert!(seg.data.is_some());
    assert_eq!(seg.start, 156 * 32);
}

#[test]
fn silence_slide_drops_quietest_region() {
    // tiny window so one second of audio overflows it; kernel of 2 chunks
    let cfg = VadConfig {
        sample_rate: 16000,
        silence_duration_ms: 64,
        speech_threshold: 500000,
        window_ms: 100,
        interval_ms: 0,
    };
    let mut vad = VadProcessor::<f32>::new(cfg, 0);
    let frames = speech_frames(&mut vad, 10);
    let preds = vec![
        900000u32, 900000, 100000, 100000, 900000, 900000, 900000, 900000, 900000, 900000,
    ];
    let seg = vad.process_scored(frames, &preds, 0).expect("speech segment");
    assert_eq!(seg.start, 0);
    assert_eq!(seg.end, 9 * 32);
    // the quietest pair sits at chunks 2..4, so chunks 0..4 are dropped:
    // the next emission begins at chunk 4
    let frames = speech_frames(&mut vad, 1);
    let preds = vec![900000u32];
    let seg = vad.process_scored(frames, &preds, 0).expect("trimmed window");
    assert_eq!(seg.start, 4 * 32);
    assert_eq!(seg.end, 10 * 32);
}

#[test]
fn replay_is_deterministic() {
    let cfg = VadConfig::default();
    let mut a = VadProcessor::<f32>::new(cfg, 0);
    let mut b = VadProcessor::<f32>::new(cfg, 0);
    let mut out_a: Vec<Segment<f32>> = Vec::new();
    let mut out_b: Vec<Segment<f32>> = Vec::new();
    let preds_per_call = [vec![0u32; 40], vec![700000u32; 40], vec![0u32; 40]];
    let mut now = 0u64;
    for preds in preds_per_call.iter() {
        now += 1500;
        let fa = speech_frames(&mut a, preds.len());
        if let Some(s) = a.process_scored(fa, preds, now) {
            out_a.push(s);
        }
        let fb = speech_frames(&mut b, preds.len());
        if let Some(s) = b.process_scored(fb, preds, now) {
            out_b.push(s);
        }
    }
    assert_eq!(out_a.len(), out_b.len());
    for (x, y) in out_a.iter().zip(out_b.iter()) {
        assert_eq!(x.start, y.start);
        assert_eq!(x.end, y.end);
        assert_eq!(x.data.is_some(), y.data.is_some());
    }
}

#[test]
fn silence_only_stream_covers_at_most_duration() {
    let cfg = VadConfig::default();
    let mut vad = VadProcessor::<f32>::new(cfg, 0);
    let mut total_span = 0u64;
    let mut chunks = 0u64;
    let mut now = 0u64;
    for _ in 0..5 {
        now += 2000;
        let frames = silence_frames(&mut vad, 30);
        chunks += 30;
        let preds = vec![0u32; 30];
        if let Some(seg) = vad.process_scored(frames, &preds, now) {
            assert!(seg.data.is_none());
            total_span += seg.end - seg.start;
        }
    }
    assert!(total_span <= chunks * 32);
}
