//! Voice-activity segmentation: a stateful sliding-window segmenter that
//! turns a scored stream of fixed-size sample chunks into bounded speech
//! segments with silence-aware trimming.
//!
//! Samples are carried through generically; the per-chunk speech
//! probabilities arrive as fixed-point values scaled by [`PROB_SCALE`], so
//! every decision the segmenter takes is exact integer arithmetic.  The
//! caller scores each complete chunk (the external detector runs outside
//! this crate) and supplies the wall clock, which tests may pin.

use vstd::prelude::*;

verus! {

/// Number of samples in one analysis chunk.
pub const CHUNK_SIZE: usize = 512;

/// Fixed-point scale of a speech probability: this value stands for 1.0.
pub const PROB_SCALE: u32 = 1000000;

/// Segmenter configuration.  Probabilities are scaled by [`PROB_SCALE`].
#[derive(Debug, Clone, Copy, PartialEq, Eq, Structural)]
pub struct VadConfig {
    pub sample_rate: u32,
    pub silence_duration_ms: u32,
    pub speech_threshold: u32,
    pub window_ms: u32,
    pub interval_ms: u64,
}

impl VadConfig {
    /// A usable configuration: a positive rate no finer than one sample per
    /// chunk-millisecond, a positive silence kernel, a threshold within the
    /// probability scale.
    pub open spec fn wf(&self) -> bool {
        &&& 0 < self.sample_rate <= CHUNK_SIZE * 1000
        &&& 0 < self.silence_duration_ms
        &&& self.speech_threshold <= PROB_SCALE
    }
}

impl Default for VadConfig {
    /// 16 kHz input, 450 ms silence kernel, 0.5 speech threshold, 10 s
    /// window, 1 s emission interval.
    fn default() -> (r: Self)
        ensures
            r == (VadConfig {
                sample_rate: 16000,
                silence_duration_ms: 450,
                speech_threshold: 500000,
                window_ms: 10000,
                interval_ms: 1000,
            }),
            r.wf(),
    {
        VadConfig {
            sample_rate: 16000,
            silence_duration_ms: 450,
            speech_threshold: 500000,
            window_ms: 10000,
            interval_ms: 1000,
        }
    }
}

/// Milliseconds spanned by one complete chunk at the given sample rate.
pub open spec fn chunk_ms_spec(sample_rate: u32) -> int {
    (CHUNK_SIZE * 1000) / (sample_rate as int)
}

/// A scored chunk: its position in the stream, its samples, its speech
/// probability (scaled by [`PROB_SCALE`]).
pub struct VadChunk<S> {
    pub index: usize,
    pub data: Vec<S>,
    pub pred: u32,
}

/// Mathematical image of a [`VadChunk`].
pub ghost struct ChunkV<S> {
    pub index: int,
    pub data: Seq<S>,
    pub pred: u32,
}

impl<S> View for VadChunk<S> {
    type V = ChunkV<S>;

    open spec fn view(&self) -> ChunkV<S> {
        ChunkV { index: self.index as int, data: self.data@, pred: self.pred }
    }
}

/// An emitted region, in stream-local milliseconds.  `data` is absent for a
/// pure-silence region, present with the concatenated samples otherwise.
pub struct Segment<S> {
    pub start: u64,
    pub end: u64,
    pub data: Option<Vec<S>>,
}

/// Mathematical image of a [`Segment`].
pub ghost struct SegmentV<S> {
    pub start: int,
    pub end: int,
    pub data: Option<Seq<S>>,
}

impl<S> View for Segment<S> {
    type V = SegmentV<S>;

    open spec fn view(&self) -> SegmentV<S> {
        SegmentV {
            start: self.start as int,
            end: self.end as int,
            data: match self.data {
                Some(ref d) => Some(d@),
                None => None,
            },
        }
    }
}

/// Concatenation of a sequence of frames into one sample sequence.
pub open spec fn concat_frames<S>(frames: Seq<Seq<S>>) -> Seq<S>
    decreases frames.len(),
{
    if frames.len() == 0 {
        Seq::empty()
    } else {
        concat_frames(frames.drop_last()) + frames.last()
    }
}

/// The sample sequences held by a vector of frames.
pub open spec fn frames_view<S>(frames: Vec<Vec<S>>) -> Seq<Seq<S>> {
    frames@.map_values(|v: Vec<S>| v@)
}

proof fn lemma_concat_frames_push<S>(frames: Seq<Seq<S>>, frame: Seq<S>)
    ensures
        concat_frames(frames.push(frame)) == concat_frames(frames) + frame,
{
    assert(frames.push(frame).drop_last() =~= frames);
    assert(frames.push(frame).last() == frame);
}

/// The chunks formed by scoring `frames` with `preds`, indexed from `base`.
pub open spec fn scored_chunks<S>(frames: Seq<Seq<S>>, preds: Seq<u32>, base: int) -> Seq<
    ChunkV<S>,
> {
    Seq::new(frames.len(), |j: int| ChunkV { index: base + j, data: frames[j], pred: preds[j] })
}

/// Concatenation of the samples held by a chunk window.
pub open spec fn concat_chunk_data<S>(chunks: Seq<ChunkV<S>>) -> Seq<S>
    decreases chunks.len(),
{
    if chunks.len() == 0 {
        Seq::empty()
    } else {
        concat_chunk_data(chunks.drop_last()) + chunks.last().data
    }
}

/// Does any chunk of the window reach the speech threshold?
pub open spec fn has_speech<S>(chunks: Seq<ChunkV<S>>, threshold: u32) -> bool {
    exists|j: int| 0 <= j < chunks.len() && (#[trigger] chunks[j]).pred >= threshold
}

/// Sum of the probabilities of the `k` chunks starting at `i`.
pub open spec fn window_pred_sum<S>(chunks: Seq<ChunkV<S>>, i: int, k: nat) -> int
    decreases k,
{
    if k == 0 {
        0
    } else {
        chunks[i].pred + window_pred_sum(chunks, i + 1, (k - 1) as nat)
    }
}

proof fn lemma_window_sum_extend<S>(chunks: Seq<ChunkV<S>>, i: int, j: nat)
    ensures
        window_pred_sum(chunks, i, (j + 1) as nat) == window_pred_sum(chunks, i, j) + chunks[i
            + j].pred,
    decreases j,
{
    if j == 0 {
        assert(window_pred_sum(chunks, i, 1nat) == chunks[i].pred + window_pred_sum(
            chunks,
            i + 1,
            0nat,
        ));
    } else {
        lemma_window_sum_extend(chunks, i + 1, (j - 1) as nat);
        assert(window_pred_sum(chunks, i, (j + 1) as nat) == chunks[i].pred + window_pred_sum(
            chunks,
            i + 1,
            j,
        ));
        assert(window_pred_sum(chunks, i, j) == chunks[i].pred + window_pred_sum(
            chunks,
            i + 1,
            (j - 1) as nat,
        ));
    }
}

/// The first start position with the lowest probability sum among windows
/// of length `k` starting below `upto`.  With a fixed window length,
/// comparing sums is comparing means.
pub open spec fn min_sum_start_upto<S>(chunks: Seq<ChunkV<S>>, k: nat, upto: int) -> int
    decreases upto,
{
    if upto <= 1 {
        0
    } else {
        let prev = min_sum_start_upto(chunks, k, upto - 1);
        if window_pred_sum(chunks, upto - 1, k) < window_pred_sum(chunks, prev, k) {
            upto - 1
        } else {
            prev
        }
    }
}

/// The chosen slide start really is a first minimum: no kernel window
/// starting below `upto` has a smaller probability sum, and every earlier
/// window's sum is strictly larger.
pub proof fn lemma_min_sum_start_minimal<S>(chunks: Seq<ChunkV<S>>, k: nat, upto: int)
    requires
        1 <= upto,
    ensures
        0 <= min_sum_start_upto(chunks, k, upto) < upto,
        forall|i: int|
            0 <= i < upto ==> window_pred_sum(chunks, min_sum_start_upto(chunks, k, upto), k)
                <= #[trigger] window_pred_sum(chunks, i, k),
        forall|i: int|
            0 <= i < min_sum_start_upto(chunks, k, upto) ==> window_pred_sum(
                chunks,
                min_sum_start_upto(chunks, k, upto),
                k,
            ) < #[trigger] window_pred_sum(chunks, i, k),
    decreases upto,
{
    if upto > 1 {
        lemma_min_sum_start_minimal(chunks, k, upto - 1);
    }
}

/// The silence kernel length in chunks: `silence_ms / chunk_ms`, rounded up.
pub open spec fn silence_kernel(silence_ms: u32, chunk_ms: u32) -> int {
    (silence_ms + chunk_ms - 1) as int / (chunk_ms as int)
}

/// How many chunks the silence-area slide drops from the front: everything
/// up to and including the quietest kernel-length region, or nothing when
/// the window is no longer than the kernel.
pub open spec fn slide_cut<S>(chunks: Seq<ChunkV<S>>, k: int) -> int {
    if k <= 0 || k >= chunks.len() {
        0
    } else {
        min_sum_start_upto(chunks, k as nat, chunks.len() - k + 1) + k
    }
}

/// Everything one call of the segmenter decides: the retained window, the
/// advanced counter, the emission clock, and the emitted segment if any.
pub ghost struct VadOutcome<S> {
    pub chunks: Seq<ChunkV<S>>,
    pub count: int,
    pub last_emit_ms: u64,
    pub segment: Option<SegmentV<S>>,
}

/// The segmenter's transition on one batch of scored chunks.
///
/// No complete chunk arrived: nothing changes.  Otherwise the new chunks
/// join the window; within the emission interval nothing is emitted.  Past
/// it, a window with no chunk at the speech threshold is reported as a
/// data-less region and dropped whole; a speech window is emitted with its
/// concatenated samples, and trimmed past the quietest silence region when
/// it outgrows the configured span.
pub open spec fn vad_step<S>(
    cfg: VadConfig,
    chunk_ms: u32,
    chunks0: Seq<ChunkV<S>>,
    count0: int,
    last0: u64,
    frames: Seq<Seq<S>>,
    preds: Seq<u32>,
    now: u64,
) -> VadOutcome<S> {
    if frames.len() == 0 {
        VadOutcome { chunks: chunks0, count: count0, last_emit_ms: last0, segment: None }
    } else {
        let chunks1 = chunks0 + scored_chunks(frames, preds, count0);
        let count1 = count0 + frames.len();
        if now - last0 < cfg.interval_ms {
            VadOutcome { chunks: chunks1, count: count1, last_emit_ms: last0, segment: None }
        } else {
            let start = chunks1[0].index * chunk_ms;
            let end = chunks1.last().index * chunk_ms;
            if !has_speech(chunks1, cfg.speech_threshold) {
                VadOutcome {
                    chunks: Seq::empty(),
                    count: count1,
                    last_emit_ms: now,
                    segment: Some(SegmentV { start, end, data: None }),
                }
            } else {
                let k = silence_kernel(cfg.silence_duration_ms, chunk_ms);
                let rest = if end - start > cfg.window_ms {
                    chunks1.skip(slide_cut(chunks1, k))
                } else {
                    chunks1
                };
                VadOutcome {
                    chunks: rest,
                    count: count1,
                    last_emit_ms: now,
                    segment: Some(
                        SegmentV { start, end, data: Some(concat_chunk_data(chunks1)) },
                    ),
                }
            }
        }
    }
}

/// One driver call: the complete chunks formed from the incoming samples,
/// their scores, and the wall clock at the call.
pub ghost struct VadCall<S> {
    pub frames: Seq<Seq<S>>,
    pub preds: Seq<u32>,
    pub now: u64,
}

/// A segmenter state together with everything it has emitted.
pub ghost struct VadTrace<S> {
    pub chunks: Seq<ChunkV<S>>,
    pub count: int,
    pub last_emit_ms: u64,
    pub segments: Seq<SegmentV<S>>,
}

/// Replay a sequence of calls through [`vad_step`], collecting every
/// emitted segment.
pub open spec fn vad_run<S>(
    cfg: VadConfig,
    chunk_ms: u32,
    st: VadTrace<S>,
    calls: Seq<VadCall<S>>,
) -> VadTrace<S>
    decreases calls.len(),
{
    if calls.len() == 0 {
        st
    } else {
        let o = vad_step(
            cfg,
            chunk_ms,
            st.chunks,
            st.count,
            st.last_emit_ms,
            calls[0].frames,
            calls[0].preds,
            calls[0].now,
        );
        let segments = match o.segment {
            Some(seg) => st.segments.push(seg),
            None => st.segments,
        };
        vad_run(
            cfg,
            chunk_ms,
            VadTrace { chunks: o.chunks, count: o.count, last_emit_ms: o.last_emit_ms, segments },
            calls.drop_first(),
        )
    }
}

/// Replay determinism law: two runs from equal states over byte-identical
/// call sequences — the same chunked samples, the same scores, the same
/// wall-clock readings — emit identical segment sequences and end in
/// identical states.
pub proof fn lemma_vad_replay_deterministic<S>(
    cfg1: VadConfig,
    cfg2: VadConfig,
    chunk_ms1: u32,
    chunk_ms2: u32,
    st1: VadTrace<S>,
    st2: VadTrace<S>,
    calls1: Seq<VadCall<S>>,
    calls2: Seq<VadCall<S>>,
)
    requires
        cfg1 == cfg2,
        chunk_ms1 == chunk_ms2,
        st1 == st2,
        calls1 == calls2,
    ensures
        vad_run(cfg1, chunk_ms1, st1, calls1) == vad_run(cfg2, chunk_ms2, st2, calls2),
        vad_run(cfg1, chunk_ms1, st1, calls1).segments == vad_run(
            cfg2,
            chunk_ms2,
            st2,
            calls2,
        ).segments,
{
}

/// Speech-coverage law: a segment emitted with data spans its whole chunk
/// window — some chunk of it reached the speech threshold, and every
/// chunk of the window, the speech chunks included, begins inside
/// `[start, end]`; since `end` is the last chunk's start, the window is
/// covered to within one chunk of the segment's bounds.
pub proof fn lemma_vad_speech_segment_covers_window<S>(
    cfg: VadConfig,
    chunk_ms: u32,
    chunks0: Seq<ChunkV<S>>,
    count0: int,
    last0: u64,
    frames: Seq<Seq<S>>,
    preds: Seq<u32>,
    now: u64,
)
    requires
        chunk_ms >= 1,
        0 <= chunks0.len() <= count0,
        deck_contiguous(chunks0, count0),
        frames.len() == preds.len(),
    ensures
        ({
            let o = vad_step(cfg, chunk_ms, chunks0, count0, last0, frames, preds, now);
            o.segment matches Some(seg) ==> seg.data is Some ==> {
                let chunks1 = chunks0 + scored_chunks(frames, preds, count0);
                &&& has_speech(chunks1, cfg.speech_threshold)
                &&& seg.data == Some(concat_chunk_data(chunks1))
                &&& forall|j: int|
                    0 <= j < chunks1.len() ==> seg.start <= (#[trigger] chunks1[j]).index
                        * chunk_ms <= seg.end
            }
        }),
{
    let o = vad_step(cfg, chunk_ms, chunks0, count0, last0, frames, preds, now);
    if o.segment is Some && o.segment->0.data is Some {
        let seg = o.segment->0;
        let fresh = scored_chunks(frames, preds, count0);
        let chunks1 = chunks0 + fresh;
        let count1 = count0 + frames.len();
        let len0 = chunks0.len() as int;
        let len1 = chunks1.len() as int;
        assert forall|j: int| 0 <= j < len1 implies (#[trigger] chunks1[j]).index == count1
            - len1 + j by {
            if j < len0 {
                assert(chunks1[j] == chunks0[j]);
            } else {
                assert(chunks1[j] == fresh[j - len0]);
            }
        }
        assert(seg.start == chunks1[0].index * chunk_ms);
        assert(seg.end == chunks1.last().index * chunk_ms);
        assert forall|j: int| 0 <= j < len1 implies seg.start <= (#[trigger] chunks1[j]).index
            * chunk_ms <= seg.end by {
            lemma_mul_le(chunks1[0].index, chunks1[j].index, chunk_ms as int);
            lemma_mul_le(chunks1[j].index, chunks1.last().index, chunk_ms as int);
        }
    }
}

/// Sum of `end - start` over a segment sequence.
pub open spec fn sum_spans<S>(segs: Seq<SegmentV<S>>) -> int
    decreases segs.len(),
{
    if segs.len() == 0 {
        0
    } else {
        sum_spans(segs.drop_last()) + (segs.last().end - segs.last().start)
    }
}

/// A call every chunk of which scores strictly below the threshold.
pub open spec fn silent_call<S>(c: VadCall<S>, threshold: u32) -> bool {
    &&& c.preds.len() == c.frames.len()
    &&& forall|p: int| 0 <= p < c.preds.len() ==> (#[trigger] c.preds[p]) < threshold
}

/// Chunk indices run contiguously up to the counter.
pub open spec fn deck_contiguous<S>(chunks: Seq<ChunkV<S>>, count: int) -> bool {
    forall|j: int|
        0 <= j < chunks.len() ==> (#[trigger] chunks[j]).index == count - chunks.len() + j
}

/// The invariant the silence-coverage induction carries.
pub open spec fn silence_inv<S>(st: VadTrace<S>, chunk_ms: u32, threshold: u32) -> bool {
    &&& 0 <= st.chunks.len() <= st.count
    &&& deck_contiguous(st.chunks, st.count)
    &&& forall|j: int| 0 <= j < st.chunks.len() ==> (#[trigger] st.chunks[j]).pred < threshold
    &&& forall|j: int|
        0 <= j < st.segments.len() ==> {
            let seg = #[trigger] st.segments[j];
            &&& seg.data is None
            &&& 0 <= seg.start <= seg.end
        }
    &&& forall|j: int|
        0 <= j < st.segments.len() - 1 ==> (#[trigger] st.segments[j]).end < st.segments[j
            + 1].start
    &&& sum_spans(st.segments) <= (st.count - st.chunks.len()) * chunk_ms
    &&& (st.segments.len() > 0 ==> st.segments.last().end + chunk_ms <= (st.count
        - st.chunks.len()) * chunk_ms)
}

proof fn lemma_mul_le(a: int, b: int, c: int)
    requires
        a <= b,
        c >= 0,
    ensures
        a * c <= b * c,
{
    assert(a * c <= b * c) by (nonlinear_arith)
        requires
            a <= b,
            c >= 0,
    ;
}

proof fn lemma_append_silent<S>(
    chunks: Seq<ChunkV<S>>,
    count: int,
    frames: Seq<Seq<S>>,
    preds: Seq<u32>,
    threshold: u32,
)
    requires
        0 <= chunks.len() <= count,
        deck_contiguous(chunks, count),
        forall|j: int| 0 <= j < chunks.len() ==> (#[trigger] chunks[j]).pred < threshold,
        preds.len() == frames.len(),
        forall|p: int| 0 <= p < preds.len() ==> (#[trigger] preds[p]) < threshold,
    ensures
        ({
            let chunks1 = chunks + scored_chunks(frames, preds, count);
            let count1 = count + frames.len();
            &&& chunks1.len() == chunks.len() + frames.len() <= count1
            &&& deck_contiguous(chunks1, count1)
            &&& forall|j: int| 0 <= j < chunks1.len() ==> (#[trigger] chunks1[j]).pred < threshold
            &&& !has_speech(chunks1, threshold)
            &&& count1 - chunks1.len() == count - chunks.len()
        }),
{
    let fresh = scored_chunks(frames, preds, count);
    let chunks1 = chunks + fresh;
    let count1 = count + frames.len();
    let len0 = chunks.len() as int;
    let len1 = chunks1.len() as int;
    assert forall|j: int| 0 <= j < len1 implies (#[trigger] chunks1[j]).index == count1 - len1
        + j by {
        if j < len0 {
            assert(chunks1[j] == chunks[j]);
        } else {
            assert(chunks1[j] == fresh[j - len0]);
        }
    }
    assert forall|j: int| 0 <= j < len1 implies (#[trigger] chunks1[j]).pred < threshold by {
        if j < len0 {
            assert(chunks1[j] == chunks[j]);
        } else {
            assert(chunks1[j] == fresh[j - len0]);
            assert(fresh[j - len0].pred == preds[j - len0]);
        }
    }
}

proof fn lemma_push_silent_segment<S>(
    segments: Seq<SegmentV<S>>,
    seg: SegmentV<S>,
    chunk_ms: u32,
    bound: int,
)
    requires
        chunk_ms >= 1,
        forall|j: int|
            0 <= j < segments.len() ==> {
                let s = #[trigger] segments[j];
                &&& s.data is None
                &&& 0 <= s.start <= s.end
            },
        forall|j: int|
            0 <= j < segments.len() - 1 ==> (#[trigger] segments[j]).end < segments[j + 1].start,
        segments.len() > 0 ==> segments.last().end < seg.start,
        seg.data is None,
        0 <= seg.start <= seg.end,
        sum_spans(segments) + (seg.end - seg.start) <= bound,
    ensures
        ({
            let segments1 = segments.push(seg);
            &&& forall|j: int|
                0 <= j < segments1.len() ==> {
                    let s = #[trigger] segments1[j];
                    &&& s.data is None
                    &&& 0 <= s.start <= s.end
                }
            &&& forall|j: int|
                0 <= j < segments1.len() - 1 ==> (#[trigger] segments1[j]).end < segments1[j
                    + 1].start
            &&& sum_spans(segments1) <= bound
        }),
{
    let segments1 = segments.push(seg);
    assert(sum_spans(segments1) == sum_spans(segments) + (seg.end - seg.start)) by {
        assert(segments1.drop_last() =~= segments);
        assert(segments1.last() == seg);
    }
    assert forall|j: int| 0 <= j < segments1.len() implies {
        let s = #[trigger] segments1[j];
        &&& s.data is None
        &&& 0 <= s.start <= s.end
    } by {
        if j < segments.len() {
            assert(segments1[j] == segments[j]);
        } else {
            assert(segments1[j] == seg);
        }
    }
    assert forall|j: int| 0 <= j < segments1.len() - 1 implies (#[trigger] segments1[j]).end
        < segments1[j + 1].start by {
        if j < segments.len() - 1 {
            assert(segments1[j] == segments[j]);
            assert(segments1[j + 1] == segments[j + 1]);
        } else {
            assert(segments1[j] == segments.last());
            assert(segments1[j + 1] == seg);
        }
    }
}

#[verifier::rlimit(100)]
proof fn lemma_silence_step_inv<S>(
    cfg: VadConfig,
    chunk_ms: u32,
    st: VadTrace<S>,
    call: VadCall<S>,
)
    requires
        chunk_ms >= 1,
        silent_call(call, cfg.speech_threshold),
        silence_inv(st, chunk_ms, cfg.speech_threshold),
    ensures
        ({
            let o = vad_step(
                cfg,
                chunk_ms,
                st.chunks,
                st.count,
                st.last_emit_ms,
                call.frames,
                call.preds,
                call.now,
            );
            let segments = match o.segment {
                Some(seg) => st.segments.push(seg),
                None => st.segments,
            };
            silence_inv(
                VadTrace {
                    chunks: o.chunks,
                    count: o.count,
                    last_emit_ms: o.last_emit_ms,
                    segments,
                },
                chunk_ms,
                cfg.speech_threshold,
            )
        }),
{
    let threshold = cfg.speech_threshold;
    if call.frames.len() == 0 {
        return ;
    }
    lemma_append_silent(st.chunks, st.count, call.frames, call.preds, threshold);
    let fresh = scored_chunks(call.frames, call.preds, st.count);
    let chunks1 = st.chunks + fresh;
    let count1 = st.count + call.frames.len();
    let len0 = st.chunks.len() as int;
    let len1 = chunks1.len() as int;
    if call.now - st.last_emit_ms < cfg.interval_ms {
        return ;
    }
    // past the interval: the window holds no speech, so a data-less
    // segment covering it is emitted and the window is dropped whole
    let start = chunks1[0].index * chunk_ms;
    let end = chunks1.last().index * chunk_ms;
    assert(chunks1[0].index == count1 - len1);
    assert(chunks1.last().index == count1 - 1);
    lemma_mul_le(count1 - len1, count1 - 1, chunk_ms as int);
    lemma_mul_le(0, count1 - len1, chunk_ms as int);
    let seg = SegmentV::<S> { start, end, data: None };
    // span accounting: the emitted span is one chunk short of the window,
    // and everything emitted before it ends at least one chunk earlier
    assert(end - start == (len1 - 1) * chunk_ms) by (nonlinear_arith)
        requires
            start == (count1 - len1) * chunk_ms,
            end == (count1 - 1) * chunk_ms,
    ;
    assert((st.count - len0) * chunk_ms + (len1 - 1) * chunk_ms == (count1 - 1) * chunk_ms)
        by (nonlinear_arith)
        requires
            st.count - len0 == count1 - len1,
    ;
    if st.segments.len() > 0 {
        assert(st.segments.last().end + chunk_ms <= (st.count - len0) * chunk_ms);
        assert(st.segments.last().end < start);
    }
    lemma_push_silent_segment(st.segments, seg, chunk_ms, (count1 - 1) * chunk_ms);
    let segments1 = st.segments.push(seg);
    lemma_mul_le(count1 - 1, count1, chunk_ms as int);
    assert(segments1.last() == seg);
    assert(seg.end + chunk_ms <= (count1 - 0) * chunk_ms) by (nonlinear_arith)
        requires
            seg.end == (count1 - 1) * chunk_ms,
            chunk_ms >= 1,
    ;
}

proof fn lemma_silence_run_inv<S>(
    cfg: VadConfig,
    chunk_ms: u32,
    st: VadTrace<S>,
    calls: Seq<VadCall<S>>,
)
    requires
        chunk_ms >= 1,
        forall|c: int|
            0 <= c < calls.len() ==> silent_call(#[trigger] calls[c], cfg.speech_threshold),
        silence_inv(st, chunk_ms, cfg.speech_threshold),
    ensures
        silence_inv(vad_run(cfg, chunk_ms, st, calls), chunk_ms, cfg.speech_threshold),
    decreases calls.len(),
{
    if calls.len() > 0 {
        lemma_silence_step_inv(cfg, chunk_ms, st, calls[0]);
        let o = vad_step(
            cfg,
            chunk_ms,
            st.chunks,
            st.count,
            st.last_emit_ms,
            calls[0].frames,
            calls[0].preds,
            calls[0].now,
        );
        let segments = match o.segment {
            Some(seg) => st.segments.push(seg),
            None => st.segments,
        };
        let st1 = VadTrace {
            chunks: o.chunks,
            count: o.count,
            last_emit_ms: o.last_emit_ms,
            segments,
        };
        assert forall|c: int|
            0 <= c < calls.drop_first().len() implies silent_call(
            #[trigger] calls.drop_first()[c],
            cfg.speech_threshold,
        ) by {
            assert(calls.drop_first()[c] == calls[c + 1]);
        }
        lemma_silence_run_inv(cfg, chunk_ms, st1, calls.drop_first());
    }
}

/// Silence coverage law: a stream whose every chunk scores below the
/// speech threshold emits only data-less segments; those segments are
/// disjoint and in stream order, and the sum of their spans never exceeds
/// the streamed audio duration (`count` complete chunks of `chunk_ms`
/// each).
pub proof fn lemma_vad_silence_coverage<S>(
    cfg: VadConfig,
    chunk_ms: u32,
    last0: u64,
    calls: Seq<VadCall<S>>,
)
    requires
        chunk_ms >= 1,
        forall|c: int|
            0 <= c < calls.len() ==> silent_call(#[trigger] calls[c], cfg.speech_threshold),
    ensures
        ({
            let end = vad_run(
                cfg,
                chunk_ms,
                VadTrace {
                    chunks: Seq::empty(),
                    count: 0,
                    last_emit_ms: last0,
                    segments: Seq::empty(),
                },
                calls,
            );
            &&& forall|j: int|
                0 <= j < end.segments.len() ==> (#[trigger] end.segments[j]).data is None
            &&& forall|j: int|
                0 <= j < end.segments.len() - 1 ==> (#[trigger] end.segments[j]).end
                    < end.segments[j + 1].start
            &&& sum_spans(end.segments) <= end.count * chunk_ms
        }),
{
    let st0 = VadTrace::<S> {
        chunks: Seq::empty(),
        count: 0,
        last_emit_ms: last0,
        segments: Seq::empty(),
    };
    assert(silence_inv(st0, chunk_ms, cfg.speech_threshold));
    lemma_silence_run_inv(cfg, chunk_ms, st0, calls);
    let end = vad_run(cfg, chunk_ms, st0, calls);
    lemma_mul_le(end.count - end.chunks.len(), end.count, chunk_ms as int);
}

/// The stateful segmenter.
pub struct VadProcessor<S> {
    pub config: VadConfig,
    pub chunk_ms: u32,
    pub last_emit_ms: u64,
    pub cache: Vec<S>,
    pub chunks: Vec<VadChunk<S>>,
    pub chunks_count: usize,
}

impl<S> VadProcessor<S> {
    /// The mathematical image of the chunk window.
    pub open spec fn window(&self) -> Seq<ChunkV<S>> {
        self.chunks@.map_values(|c: VadChunk<S>| c@)
    }

    /// The state a correctly driven segmenter keeps: a remainder shorter
    /// than one chunk, and a window of contiguously indexed chunks ending
    /// just before the running chunk counter.
    pub open spec fn wf(&self) -> bool {
        &&& self.config.wf()
        &&& self.chunk_ms == chunk_ms_spec(self.config.sample_rate)
        &&& self.chunk_ms >= 1
        &&& self.cache@.len() < CHUNK_SIZE
        &&& self.chunks@.len() <= self.chunks_count
        &&& self.chunks_count < 0x100000000
        &&& forall|j: int|
            0 <= j < self.chunks@.len()
                ==> (#[trigger] self.chunks@[j]).index == self.chunks_count - self.chunks@.len()
                + j
        &&& forall|j: int| 0 <= j < self.chunks@.len() ==> (#[trigger] self.chunks@[j]).pred <= PROB_SCALE
    }

    /// A fresh segmenter: empty carry-over, empty window, counter at zero,
    /// last emission pinned to `now_ms`.
    pub fn new(config: VadConfig, now_ms: u64) -> (r: Self)
        requires
            config.wf(),
        ensures
            r.wf(),
            r.config == config,
            r.last_emit_ms == now_ms,
            r.cache@.len() == 0,
            r.chunks@.len() == 0,
            r.chunks_count == 0,
    {
        let chunk_ms = (CHUNK_SIZE as u32 * 1000) / config.sample_rate;
        proof {
            assert(chunk_ms == chunk_ms_spec(config.sample_rate));
            assert((CHUNK_SIZE * 1000) as int / (config.sample_rate as int) >= 1)
                by (nonlinear_arith)
                requires
                    0 < config.sample_rate <= CHUNK_SIZE * 1000,
            ;
        }
        VadProcessor {
            config,
            chunk_ms,
            last_emit_ms: now_ms,
            cache: Vec::new(),
            chunks: Vec::new(),
            chunks_count: 0,
        }
    }
}

impl<S: Copy> VadProcessor<S> {
    /// Append samples to the carry-over and split off every complete chunk,
    /// in order, for the caller to score.  The remainder stays buffered.
    pub fn push_samples(&mut self, samples: &[S]) -> (frames: Vec<Vec<S>>)
        requires
            old(self).wf(),
            old(self).cache@.len() + samples@.len() <= usize::MAX,
        ensures
            final(self).wf(),
            final(self).config == old(self).config,
            final(self).chunk_ms == old(self).chunk_ms,
            final(self).last_emit_ms == old(self).last_emit_ms,
            final(self).chunks == old(self).chunks,
            final(self).chunks_count == old(self).chunks_count,
            concat_frames(frames_view(frames)) + final(self).cache@ == old(self).cache@
                + samples@,
            forall|j: int|
                0 <= j < frames_view(frames).len() ==> (#[trigger] frames_view(frames)[j]).len()
                    == CHUNK_SIZE,
            frames_view(frames).len() == (old(self).cache@.len() + samples@.len()) as int
                / CHUNK_SIZE as int,
            final(self).cache@.len() < CHUNK_SIZE,
    {
        let mut all: Vec<S> = Vec::new();
        core::mem::swap(&mut all, &mut self.cache);
        proof {
            assert(all@ =~= old(self).cache@ + samples@.take(0));
        }
        let mut s: usize = 0;
        while s < samples.len()
            invariant
                s <= samples@.len(),
                old(self).cache@.len() + samples@.len() <= usize::MAX,
                all@ == old(self).cache@ + samples@.take(s as int),
            decreases samples@.len() - s,
        {
            all.push(samples[s]);
            proof {
                assert(old(self).cache@ + samples@.take(s + 1) =~= (old(self).cache@
                    + samples@.take(s as int)).push(samples@[s as int]));
            }
            s = s + 1;
        }
        proof {
            assert(samples@.take(samples@.len() as int) =~= samples@);
        }
        let total = all.len();
        let n = total / CHUNK_SIZE;
        let mut frames: Vec<Vec<S>> = Vec::new();
        let mut f: usize = 0;
        proof {
            assert(concat_frames(frames_view(frames)) =~= all@.take(0));
        }
        while f < n
            invariant
                n == all@.len() as int / CHUNK_SIZE as int,
                n * CHUNK_SIZE <= all@.len() <= usize::MAX,
                f <= n,
                frames_view(frames).len() == f,
                concat_frames(frames_view(frames)) == all@.take(f * CHUNK_SIZE),
                forall|j: int|
                    0 <= j < frames_view(frames).len() ==> (#[trigger] frames_view(frames)[j]).len()
                        == CHUNK_SIZE,
            decreases n - f,
        {
            proof {
                assert(f * CHUNK_SIZE + CHUNK_SIZE <= n * CHUNK_SIZE) by (nonlinear_arith)
                    requires
                        f + 1 <= n,
                        CHUNK_SIZE > 0,
                ;
            }
            let mut frame: Vec<S> = Vec::new();
            let base = f * CHUNK_SIZE;
            let mut k: usize = 0;
            while k < CHUNK_SIZE
                invariant
                    k <= CHUNK_SIZE,
                    base == f * CHUNK_SIZE,
                    base + CHUNK_SIZE <= all@.len(),
                    frame@ == all@.subrange(base as int, base + k),
                decreases CHUNK_SIZE - k,
            {
                frame.push(all[base + k]);
                proof {
                    assert(frame@ =~= all@.subrange(base as int, base + k + 1));
                }
                k = k + 1;
            }
            let ghost old_frames = frames_view(frames);
            frames.push(frame);
            proof {
                assert(frames_view(frames) =~= old_frames.push(all@.subrange(
                    f * CHUNK_SIZE,
                    f * CHUNK_SIZE + CHUNK_SIZE,
                )));
                lemma_concat_frames_push(
                    old_frames,
                    all@.subrange(f * CHUNK_SIZE, f * CHUNK_SIZE + CHUNK_SIZE),
                );
                assert(all@.take(f * CHUNK_SIZE) + all@.subrange(
                    f * CHUNK_SIZE,
                    f * CHUNK_SIZE + CHUNK_SIZE,
                ) =~= all@.take((f + 1) * CHUNK_SIZE));
            }
            f = f + 1;
        }
        // the remainder goes back to the carry-over
        let mut k: usize = n * CHUNK_SIZE;
        proof {
            assert(self.cache@ =~= all@.subrange(n * CHUNK_SIZE, n * CHUNK_SIZE));
        }
        while k < total
            invariant
                n * CHUNK_SIZE <= k <= total,
                total == all@.len(),
                self.cache@ == all@.subrange(n * CHUNK_SIZE, k as int),
                self.config == old(self).config,
                self.chunk_ms == old(self).chunk_ms,
                self.last_emit_ms == old(self).last_emit_ms,
                self.chunks == old(self).chunks,
                self.chunks_count == old(self).chunks_count,
            decreases total - k,
        {
            self.cache.push(all[k]);
            proof {
                assert(self.cache@ =~= all@.subrange(n * CHUNK_SIZE, k + 1));
            }
            k = k + 1;
        }
        proof {
            assert(all@.len() as int / CHUNK_SIZE as int * CHUNK_SIZE <= all@.len() < (all@.len()
                as int / CHUNK_SIZE as int + 1) * CHUNK_SIZE) by (nonlinear_arith)
                requires
                    CHUNK_SIZE > 0,
                    all@.len() >= 0,
            ;
            assert(self.cache@.len() < CHUNK_SIZE);
            assert(all@.take(n * CHUNK_SIZE) + all@.subrange(n * CHUNK_SIZE, total as int)
                =~= all@);
            assert(all@ =~= old(self).cache@ + samples@);
        }
        frames
    }

    /// Sum of the probabilities of the `k` chunks starting at `i`.
    fn pred_window_sum(&self, i: usize, k: usize) -> (r: u64)
        requires
            self.wf(),
            i + k <= self.chunks@.len(),
        ensures
            r == window_pred_sum(self.window(), i as int, k as nat),
    {
        let mut acc: u64 = 0;
        let mut j: usize = 0;
        while j < k
            invariant
                self.wf(),
                i + k <= self.chunks@.len(),
                j <= k,
                acc == window_pred_sum(self.window(), i as int, j as nat),
                acc <= j * (PROB_SCALE as u64),
            decreases k - j,
        {
            proof {
                lemma_window_sum_extend(self.window(), i as int, j as nat);
                assert((j + 1) * (PROB_SCALE as u64) == j * (PROB_SCALE as u64) + PROB_SCALE)
                    by (nonlinear_arith);
                assert(j * (PROB_SCALE as u64) <= 0x100000000u64 * 0x100000u64)
                    by (nonlinear_arith)
                    requires
                        0 <= j < 0x100000000u64,
                        PROB_SCALE <= 0x100000u64,
                ;
            }
            acc = acc + self.chunks[i + j].pred as u64;
            j = j + 1;
        }
        acc
    }

    /// Drop the front of the window up to and including the quietest region
    /// of kernel length, so the next emission begins at a plausible
    /// utterance boundary.
    fn slide_to_silence_area(&mut self)
        requires
            old(self).wf(),
        ensures
            final(self).wf(),
            final(self).config == old(self).config,
            final(self).chunk_ms == old(self).chunk_ms,
            final(self).last_emit_ms == old(self).last_emit_ms,
            final(self).cache == old(self).cache,
            final(self).chunks_count == old(self).chunks_count,
            final(self).window() == old(self).window().skip(
                slide_cut(
                    old(self).window(),
                    silence_kernel(old(self).config.silence_duration_ms, old(self).chunk_ms),
                ),
            ),
    {
        let len = self.chunks.len();
        let kernel_wide: u64 = (self.config.silence_duration_ms as u64 + self.chunk_ms as u64 - 1)
            / (self.chunk_ms as u64);
        proof {
            assert(kernel_wide == silence_kernel(self.config.silence_duration_ms, self.chunk_ms));
            assert((self.config.silence_duration_ms as u64 + self.chunk_ms as u64 - 1) as int / (
            self.chunk_ms as u64) as int >= 1) by (nonlinear_arith)
                requires
                    self.config.silence_duration_ms >= 1,
                    self.chunk_ms >= 1,
            ;
        }
        if kernel_wide >= len as u64 {
            proof {
                assert(self.window().skip(0) =~= self.window());
            }
            return ;
        }
        let k = kernel_wide as usize;
        let ghost w = self.window();
        let mut best_i: usize = 0;
        let mut best_sum: u64 = self.pred_window_sum(0, k);
        let mut i: usize = 1;
        while i <= len - k
            invariant
                self.wf(),
                self == old(self),
                w == self.window(),
                0 < k < len == self.chunks@.len(),
                1 <= i <= len - k + 1,
                best_i as int == min_sum_start_upto(w, k as nat, i as int),
                best_i <= i - 1,
                best_sum == window_pred_sum(w, best_i as int, k as nat),
            decreases len - k + 1 - i,
        {
            let s = self.pred_window_sum(i, k);
            if s < best_sum {
                best_i = i;
                best_sum = s;
            }
            i = i + 1;
        }
        let cut = best_i + k;
        let rest = self.chunks.split_off(cut);
        self.chunks = rest;
        proof {
            assert(self.window() =~= w.skip(cut as int));
            assert(slide_cut(w, k as int) == cut);
        }
    }

    /// Take one batch of scored chunks and decide what to emit, as
    /// [`vad_step`] describes.  `now_ms` is the wall clock, which gates
    /// emission to one segment per configured interval.
    pub fn process_scored(&mut self, frames: Vec<Vec<S>>, preds: &Vec<u32>, now_ms: u64) -> (r:
        Option<Segment<S>>)
        requires
            old(self).wf(),
            frames@.len() == preds@.len(),
            forall|j: int| 0 <= j < preds@.len() ==> preds@[j] <= PROB_SCALE,
            old(self).chunks_count + frames@.len() < 0x100000000,
            now_ms >= old(self).last_emit_ms,
        ensures
            final(self).wf(),
            final(self).config == old(self).config,
            final(self).chunk_ms == old(self).chunk_ms,
            final(self).cache == old(self).cache,
            ({
                let o = vad_step(
                    old(self).config,
                    old(self).chunk_ms,
                    old(self).window(),
                    old(self).chunks_count as int,
                    old(self).last_emit_ms,
                    frames_view(frames),
                    preds@,
                    now_ms,
                );
                &&& final(self).window() == o.chunks
                &&& final(self).chunks_count == o.count
                &&& final(self).last_emit_ms == o.last_emit_ms
                &&& (match r {
                    Some(seg) => o.segment == Some(seg@),
                    None => o.segment is None,
                })
            }),
    {
        let ghost fv = frames_view(frames);
        let ghost count0 = old(self).chunks_count as int;
        let ghost w0 = old(self).window();
        if frames.is_empty() {
            return None;
        }
        // join the new scored chunks to the window
        let mut frames = frames;
        let total_frames = frames.len();
        let mut j: usize = 0;
        proof {
            assert(w0 + scored_chunks(fv, preds@, count0).take(0) =~= w0);
            assert(frames_view(frames) =~= fv.skip(0));
        }
        while j < total_frames
            invariant
                old(self).wf(),
                self.config == old(self).config,
                self.chunk_ms == old(self).chunk_ms,
                self.cache == old(self).cache,
                self.last_emit_ms == old(self).last_emit_ms,
                j <= total_frames == fv.len() == preds@.len(),
                forall|p: int| 0 <= p < preds@.len() ==> preds@[p] <= PROB_SCALE,
                count0 + fv.len() < 0x100000000,
                count0 == old(self).chunks_count,
                w0 == old(self).window(),
                frames_view(frames) == fv.skip(j as int),
                self.chunks_count == count0 + j,
                self.window() == w0 + scored_chunks(fv, preds@, count0).take(j as int),
                self.wf(),
            decreases total_frames - j,
        {
            let ghost fvj = frames_view(frames);
            proof {
                assert(fvj.len() == frames@.len());
                assert(fvj.len() == fv.len() - j);
            }
            let frame = frames.remove(0);
            proof {
                assert(frame@ == fvj[0]);
                assert(fvj[0] == fv[j as int]);
                assert(frames_view(frames) =~= fvj.drop_first());
                assert(frames_view(frames) =~= fv.skip(j + 1));
            }
            let ghost win_before = self.window();
            let idx = self.chunks_count;
            self.chunks.push(VadChunk { index: idx, data: frame, pred: preds[j] });
            self.chunks_count = idx + 1;
            proof {
                assert(self.window() =~= win_before.push(
                    ChunkV { index: count0 + j, data: fv[j as int], pred: preds@[j as int] },
                ));
                assert(self.window() =~= w0 + scored_chunks(fv, preds@, count0).take(j + 1));
            }
            j = j + 1;
        }
        let ghost w1 = w0 + scored_chunks(fv, preds@, count0);
        proof {
            assert(scored_chunks(fv, preds@, count0).take(fv.len() as int) =~= scored_chunks(
                fv,
                preds@,
                count0,
            ));
        }
        // one emission per interval
        if now_ms - self.last_emit_ms < self.config.interval_ms {
            return None;
        }
        self.last_emit_ms = now_ms;
        let len = self.chunks.len();
        proof {
            assert(len >= 1);
            assert((self.chunks@[0].index as int) * (self.chunk_ms as int) <= 0x100000000i64 * 0x7D000i64)
                by (nonlinear_arith)
                requires
                    0 <= self.chunks@[0].index as int <= 0x100000000i64,
                    0 <= self.chunk_ms as int <= 0x7D000i64,
            ;
            assert((self.chunks@[len - 1].index as int) * (self.chunk_ms as int) <= 0x100000000i64
                * 0x7D000i64) by (nonlinear_arith)
                requires
                    0 <= self.chunks@[len - 1].index as int <= 0x100000000i64,
                    0 <= self.chunk_ms as int <= 0x7D000i64,
            ;
        }
        let start: u64 = (self.chunks[0].index as u64) * (self.chunk_ms as u64);
        let end: u64 = (self.chunks[len - 1].index as u64) * (self.chunk_ms as u64);
        proof {
            assert((self.chunks@[0].index as int) * (self.chunk_ms as int) <= (self.chunks@[len
                - 1].index as int) * (self.chunk_ms as int)) by (nonlinear_arith)
                requires
                    0 <= self.chunks@[0].index as int <= self.chunks@[len - 1].index as int,
                    self.chunk_ms as int >= 0,
            ;
        }
        // speech anywhere in the window?
        let mut speech = false;
        let mut p: usize = 0;
        while p < len
            invariant
                self.wf(),
                len == self.chunks@.len(),
                p <= len,
                speech == has_speech(self.window().take(p as int), self.config.speech_threshold),
            decreases len - p,
        {
            let ghost before = self.window().take(p as int);
            if self.chunks[p].pred >= self.config.speech_threshold {
                speech = true;
            }
            proof {
                assert(self.window().take(p + 1) =~= before.push(self.window()[p as int]));
                if speech && !has_speech(before, self.config.speech_threshold) {
                    assert(self.window().take(p + 1)[p as int].pred
                        >= self.config.speech_threshold);
                }
            }
            p = p + 1;
        }
        proof {
            assert(self.window().take(len as int) =~= self.window());
        }
        if !speech {
            self.chunks.clear();
            proof {
                assert(self.window() =~= Seq::<ChunkV<S>>::empty());
            }
            return Some(Segment { start, end, data: None });
        }
        // concatenate the window's samples
        let mut data: Vec<S> = Vec::new();
        let mut q: usize = 0;
        proof {
            assert(data@ =~= concat_chunk_data(self.window().take(0)));
        }
        while q < len
            invariant
                self.wf(),
                len == self.chunks@.len(),
                q <= len,
                data@ == concat_chunk_data(self.window().take(q as int)),
            decreases len - q,
        {
            let chunk_len = self.chunks[q].data.len();
            let mut t: usize = 0;
            while t < chunk_len
                invariant
                    self.wf(),
                    len == self.chunks@.len(),
                    q < len,
                    t <= chunk_len == self.chunks@[q as int].data@.len(),
                    data@ == concat_chunk_data(self.window().take(q as int))
                        + self.chunks@[q as int].data@.take(t as int),
                decreases chunk_len - t,
            {
                data.push(self.chunks[q].data[t]);
                proof {
                    assert(data@ =~= concat_chunk_data(self.window().take(q as int))
                        + self.chunks@[q as int].data@.take(t + 1));
                }
                t = t + 1;
            }
            proof {
                let win = self.window();
                assert(win.take(q + 1).drop_last() =~= win.take(q as int));
                assert(win.take(q + 1).last() == win[q as int]);
                assert(self.chunks@[q as int].data@.take(chunk_len as int)
                    =~= self.chunks@[q as int].data@);
                assert(data@ =~= concat_chunk_data(win.take(q + 1)));
            }
            q = q + 1;
        }
        proof {
            assert(self.window().take(len as int) =~= self.window());
        }
        // trim the window once it outgrows the configured span
        if end - start > self.config.window_ms as u64 {
            self.slide_to_silence_area();
        }
        Some(Segment { start, end, data: Some(data) })
    }
}

} // verus!
