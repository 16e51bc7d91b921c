//! The verified accounting of the generation engine.
//!
//! The engine itself — model weights, inference context, samplers — lives
//! outside the library and is reset at the start of every call.  What is
//! verified here is the decision core of its decode loop: the `max_tokens`
//! bound and the accumulation of decoded pieces.  The surrounding driver
//! samples one token at a time, stops on an end-of-generation marker, and
//! otherwise hands the decoded piece in here.

use vstd::prelude::*;
use vstd::string::*;

verus! {

/// Fixed configuration of the loaded model, set once per process.
#[derive(Debug, Clone, Copy, PartialEq, Eq, Structural)]
pub struct ModelConfig {
    /// How many layers to offload to the GPU (0 = CPU only).
    pub n_gpu_layers: u32,
    /// Context window size in tokens.
    pub n_ctx: u32,
    /// Maximum tokens to generate per completion.
    pub max_tokens: usize,
}

impl Default for ModelConfig {
    fn default() -> (r: Self)
        ensures
            r.n_gpu_layers == 0,
            r.n_ctx == 8092,
            r.max_tokens == 1024,
    {
        ModelConfig { n_gpu_layers: 0, n_ctx: 8092, max_tokens: 1024 }
    }
}

/// The state of one bounded decode loop: how many pieces were accepted and
/// the text accumulated so far.  At most `max_tokens` pieces are ever
/// accepted, so the loop cannot run unboundedly.
#[derive(Debug)]
pub struct DecodeLoop {
    pub output: String,
    pub steps: usize,
    pub max_tokens: usize,
}

impl DecodeLoop {
    /// A fresh loop with an empty output buffer.
    pub fn new(max_tokens: usize) -> (d: DecodeLoop)
        ensures
            d.output@ == Seq::<char>::empty(),
            d.steps == 0,
            d.max_tokens == max_tokens,
    {
        DecodeLoop { output: String::new(), steps: 0, max_tokens }
    }

    /// Whether the token budget allows another decode step.
    pub fn wants_more(&self) -> (r: bool)
        ensures
            r == (self.steps < self.max_tokens),
    {
        self.steps < self.max_tokens
    }

    /// Accepts the text of one decoded token: appends it to the output and
    /// spends one step of the budget.
    pub fn accept_piece(&mut self, piece: &str)
        requires
            old(self).steps < old(self).max_tokens,
        ensures
            final(self).output@ == old(self).output@ + piece@,
            final(self).steps == old(self).steps + 1,
            final(self).max_tokens == old(self).max_tokens,
    {
        self.output.append(piece);
        self.steps = self.steps + 1;
    }

    /// The accumulated text, ending the loop.
    pub fn into_output(self) -> (s: String)
        ensures
            s@ == self.output@,
    {
        self.output
    }
}

} // verus!
