//! The SANM encoder's shape: block counts, attention geometry and the
//! FSMN padding arithmetic.  The tensor arithmetic itself runs on the
//! floating-point runtime outside this crate; what is decided here is
//! every integer the layers are built from.

use vstd::prelude::*;

verus! {

/// Sinusoidal absolute position encoding with log-spaced frequencies
/// (base 10000), added to the scaled input.  The trigonometric table is
/// computed by the tensor runtime.
#[derive(Debug)]
pub struct SinusoidalPositionEncoder;

/// Shape of the SANM encoder stack.
#[derive(Debug, Clone, Copy, PartialEq, Eq, Structural)]
pub struct EncoderConfig {
    pub input_size: usize,
    pub output_size: usize,
    pub attention_heads: usize,
    pub linear_units: usize,
    pub num_blocks: usize,
    pub tp_blocks: usize,
    pub kernel_size: usize,
    pub sanm_shift: usize,
    pub normalize_before: bool,
    pub concat_after: bool,
}

impl Default for EncoderConfig {
    /// The bare stack: sizes unset, 4 heads, 2048-wide feed-forward, 6
    /// blocks, kernel 11, pre-norm, no concatenation.
    fn default() -> (r: Self)
        ensures
            r == (EncoderConfig {
                input_size: 0,
                output_size: 0,
                attention_heads: 4,
                linear_units: 2048,
                num_blocks: 6,
                tp_blocks: 0,
                kernel_size: 11,
                sanm_shift: 0,
                normalize_before: true,
                concat_after: false,
            }),
    {
        EncoderConfig {
            input_size: 0,
            output_size: 0,
            attention_heads: 4,
            linear_units: 2048,
            num_blocks: 6,
            tp_blocks: 0,
            kernel_size: 11,
            sanm_shift: 0,
            normalize_before: true,
            concat_after: false,
        }
    }
}

/// The stack used by the small speech model: 560-wide features into a
/// 512-wide model, 4 heads, 50 main blocks and 20 TP blocks, kernel 11.
pub fn sense_voice_encoder_config() -> (r: EncoderConfig)
    ensures
        r == (EncoderConfig {
            input_size: 560,
            output_size: 512,
            attention_heads: 4,
            linear_units: 2048,
            num_blocks: 50,
            tp_blocks: 20,
            kernel_size: 11,
            sanm_shift: 0,
            normalize_before: true,
            concat_after: false,
        }),
{
    EncoderConfig {
        input_size: 560,
        output_size: 512,
        attention_heads: 4,
        linear_units: 2048,
        num_blocks: 50,
        tp_blocks: 20,
        kernel_size: 11,
        sanm_shift: 0,
        normalize_before: true,
        concat_after: false,
    }
}

/// Width of one attention head: the feature width split evenly over the
/// heads.
pub fn attention_head_dim(n_feat: usize, n_head: usize) -> (r: usize)
    requires
        n_head > 0,
        n_feat % n_head == 0,
    ensures
        r == n_feat as int / n_head as int,
        r * n_head == n_feat,
    {
    let r = n_feat / n_head;
    proof {
        assert(r * n_head == n_feat) by (nonlinear_arith)
            requires
                n_head > 0,
                n_feat % n_head == 0,
                r == n_feat as int / n_head as int,
        ;
    }
    r
}

/// The FSMN depthwise convolution's asymmetric padding: `(k - 1) / 2`
/// plus the configured shift on the left, the rest of `k - 1` on the
/// right, so the convolution keeps the time axis length.
pub fn fsmn_padding(kernel_size: usize, sanm_shift: usize) -> (r: (usize, usize))
    requires
        kernel_size >= 1,
        sanm_shift <= (kernel_size - 1) - (kernel_size - 1) / 2,
    ensures
        r.0 == (kernel_size - 1) as int / 2 + sanm_shift,
        r.1 == (kernel_size - 1) - r.0,
        r.0 + r.1 == kernel_size - 1,
{
    let left = (kernel_size - 1) / 2 + sanm_shift;
    let right = (kernel_size - 1) - left;
    (left, right)
}

} // verus!
