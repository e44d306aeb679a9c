//! Network architecture metadata and checkpoint headers.
use vstd::prelude::*;

verus! {

pub const INPUT_PLANES: usize = 18;
pub const BOARD_SIZE: usize = 8;
pub const POLICY_SLOTS: usize = 4_672;
pub const RESIDUAL_BLOCKS: usize = 10;
pub const TRUNK_FILTERS: usize = 128;

/// Samples a checkpoint must have trained on before it is sent to the arena.
pub const PROMOTION_SAMPLES: u64 = 1_000;

/// Parameter count of the default Milton network: a residual CNN over
/// 18 x 8 x 8 input planes with 10 residual blocks of 128 filters, a policy
/// head over 4,672 move slots and a scalar value head.
pub const DEFAULT_PARAMETERS: u64 = 9_584_193;

/// Sidecar header stored next to every checkpoint blob on disk.
#[derive(Debug, Clone, PartialEq, Structural)]
pub struct CheckpointHeader {
    pub iter: u64,
    pub elo_estimate: i32,
    pub training_samples: u64,
}

impl CheckpointHeader {
    /// A header with the given fields.
    pub fn new(iter: u64, elo_estimate: i32, training_samples: u64) -> (h: Self)
        ensures
            h == (CheckpointHeader { iter, elo_estimate, training_samples }),
    {
        CheckpointHeader { iter, elo_estimate, training_samples }
    }

    /// A header is a "promotion candidate" once it has seen enough samples
    /// that running it through the arena is worth the wall time.
    pub fn is_promotion_candidate(&self) -> (b: bool)
        ensures
            b == (self.training_samples >= PROMOTION_SAMPLES),
    {
        self.training_samples >= PROMOTION_SAMPLES
    }
}

/// Returns the total parameter count for the default Milton architecture.
pub fn parameter_count() -> (n: u64)
    ensures
        n == DEFAULT_PARAMETERS,
        9_000_000 < n < 11_000_000,
{
    DEFAULT_PARAMETERS
}

/// Training on more samples never takes a promotion candidate out of the
/// running.
pub proof fn lemma_candidate_monotone(a: CheckpointHeader, b: CheckpointHeader)
    requires
        a.training_samples >= PROMOTION_SAMPLES,
        b.training_samples >= a.training_samples,
    ensures
        b.training_samples >= PROMOTION_SAMPLES,
{
}

} // verus!
