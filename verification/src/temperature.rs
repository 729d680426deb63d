//! Replication targets: how many nodes should hold a post.
//!
//! The temperature itself is a floating-point score and is computed by the
//! application; the library holds the integer part of the rule.

use vstd::prelude::*;

verus! {

/// How widely a post is replicated, with its target node count.
#[derive(Debug)]
pub enum ReplicationStrategy {
    /// Post is cold — only replicate to minimum floor nodes.
    Cold { target: u32 },
    /// Post has moderate engagement — replicate to a moderate number.
    Warm { target: u32 },
    /// Post is hot — replicate widely, use gossipsub broadcast.
    Hot { target: u32 },
}

/// A raw node count raised to the floor and then capped at the ceiling.
pub open spec fn clamped(raw: int, floor: int, ceiling: int) -> int {
    let raised = if raw < floor { floor } else { raw };
    if raised > ceiling { ceiling } else { raised }
}

/// The replication target for a raw node count (the scaled temperature,
/// truncated): at least `floor`, then at most `ceiling`.
pub fn clamp_replication_target(raw: u32, floor: u32, ceiling: u32) -> (t: u32)
    ensures
        t == clamped(raw as int, floor as int, ceiling as int),
{
    let raised = if raw < floor { floor } else { raw };
    if raised > ceiling { ceiling } else { raised }
}

/// Whenever the floor does not exceed the ceiling, every post is replicated
/// to at least the floor and at most the ceiling.
pub proof fn lemma_target_within_bounds(raw: u32, floor: u32, ceiling: u32)
    requires
        floor <= ceiling,
    ensures
        floor <= clamped(raw as int, floor as int, ceiling as int) <= ceiling,
{
}

} // verus!
