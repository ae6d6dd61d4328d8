//! Glue around the model runtime: the fixed prompt layout prepended to
//! the features, the files a model directory must hold, and the
//! per-segment token arithmetic of the streaming transcription path.

use vstd::prelude::*;

use crate::ctc::Token;

verus! {

/// Width of one feature / embedding vector.
pub const EMBEDDING_DIM: usize = 560;

/// Entries of the prompt embedding table.
pub const NUM_EMBEDDINGS: usize = 16;

/// Embedding id of the language prompt.
pub const LANGUAGE_QUERY_ID: u32 = 0;

/// Embedding id of the event prompt.
pub const EVENT_QUERY_ID: u32 = 1;

/// Embedding id of the emotion prompt.
pub const EMOTION_QUERY_ID: u32 = 2;

/// Embedding id of the text-norm prompt.
pub const TEXT_NORM_QUERY_ID: u32 = 15;

/// Positions the prompt embeddings occupy ahead of the features: language,
/// event, emotion, text-norm.
pub const NUM_PROMPT_FRAMES: usize = 4;

/// Size of the CTC vocabulary.
pub const VOCAB_SIZE: usize = 25055;

/// Time-axis length of the prompted encoder input for `t` feature frames.
pub fn prompted_length(t: usize) -> (r: usize)
    requires
        t + NUM_PROMPT_FRAMES <= usize::MAX,
    ensures
        r == t + NUM_PROMPT_FRAMES,
{
    t + NUM_PROMPT_FRAMES
}

/// The files a model directory must hold before the runtime loads: the
/// CMVN table, the weights, the token table.
pub fn required_file_names() -> (r: Vec<String>)
    ensures
        r@.len() == 3,
        r@[0]@ == "am.mvn"@,
        r@[1]@ == "model.pt"@,
        r@[2]@ == "tokens.json"@,
{
    let mut r: Vec<String> = Vec::new();
    r.push(String::from_str("am.mvn"));
    r.push(String::from_str("model.pt"));
    r.push(String::from_str("tokens.json"));
    r
}

/// Shift every token of a decoded segment by the segment's start, so its
/// timestamps become stream-local.
pub fn offset_tokens(tokens: Vec<Token>, offset_ms: u32) -> (r: Vec<Token>)
    requires
        forall|j: int|
            0 <= j < tokens@.len() ==> (#[trigger] tokens@[j]).end + offset_ms <= u32::MAX,
        forall|j: int|
            0 <= j < tokens@.len() ==> (#[trigger] tokens@[j]).start <= tokens@[j].end,
    ensures
        r@.len() == tokens@.len(),
        forall|j: int|
            0 <= j < r@.len() ==> {
                let t = #[trigger] r@[j];
                &&& t.text == tokens@[j].text
                &&& t.start == tokens@[j].start + offset_ms
                &&& t.end == tokens@[j].end + offset_ms
            },
{
    let mut tokens = tokens;
    let ghost orig = tokens@;
    let mut r: Vec<Token> = Vec::new();
    let n = tokens.len();
    let mut j: usize = 0;
    while j < n
        invariant
            j <= n == orig.len(),
            tokens@.len() == n - j,
            forall|p: int|
                0 <= p < tokens@.len() ==> #[trigger] tokens@[p] == orig[p + j],
            forall|p: int|
                0 <= p < orig.len() ==> (#[trigger] orig[p]).end + offset_ms
                    <= u32::MAX,
            forall|p: int|
                0 <= p < orig.len() ==> (#[trigger] orig[p]).start
                    <= orig[p].end,
            r@.len() == j,
            forall|p: int|
                0 <= p < r@.len() ==> {
                    let t = #[trigger] r@[p];
                    &&& t.text == orig[p].text
                    &&& t.start == orig[p].start + offset_ms
                    &&& t.end == orig[p].end + offset_ms
                },
        decreases n - j,
    {
        let t = tokens.remove(0);
        proof {
            assert(t == orig[j as int]);
        }
        r.push(Token { text: t.text, start: t.start + offset_ms, end: t.end + offset_ms });
        j = j + 1;
    }
    r
}

/// The single token reported for a pure-silence region: empty text
/// spanning the region.
pub fn silence_token(start_ms: u32, end_ms: u32) -> (r: Token)
    ensures
        r.text@ == Seq::<char>::empty(),
        r.start == start_ms,
        r.end == end_ms,
{
    Token { text: String::new(), start: start_ms, end: end_ms }
}

} // verus!
