//! Codex bridge types and protocol primitives.
use vstd::prelude::*;

verus! {

/// Reasoning depth requested from the Codex backend.
#[derive(Debug, Clone, Copy, PartialEq, Eq, Structural)]
pub enum ThinkingLevel {
    Off,
    Minimal,
    Low,
    Medium,
    High,
}

/// The wire name of each thinking level.
pub open spec fn thinking_level_name(level: ThinkingLevel) -> Seq<char> {
    match level {
        ThinkingLevel::Off => "off"@,
        ThinkingLevel::Minimal => "minimal"@,
        ThinkingLevel::Low => "low"@,
        ThinkingLevel::Medium => "medium"@,
        ThinkingLevel::High => "high"@,
    }
}

impl ThinkingLevel {
    /// The lower-case name under which the level is sent to Codex.
    pub fn as_str(self) -> (s: &'static str)
        ensures
            s@ == thinking_level_name(self),
    {
        match self {
            ThinkingLevel::Off => "off",
            ThinkingLevel::Minimal => "minimal",
            ThinkingLevel::Low => "low",
            ThinkingLevel::Medium => "medium",
            ThinkingLevel::High => "high",
        }
    }
}

impl Default for ThinkingLevel {
    /// The default reasoning depth is `Medium`.
    fn default() -> (level: Self)
        ensures
            level == ThinkingLevel::Medium,
    {
        ThinkingLevel::Medium
    }
}

/// Reason the Codex turn stopped.
#[derive(Debug, Clone, Copy, PartialEq, Eq, Structural)]
pub enum StopReason {
    EndTurn,
    ToolCalls,
    MaxTokens,
    Refusal,
}

/// Token usage reported by Codex at the end of a turn.
#[derive(Debug, Clone, Copy, PartialEq, Eq, Structural)]
pub struct TokenUsage {
    pub prompt: u64,
    pub completion: u64,
    pub reasoning: u64,
}

impl TokenUsage {
    /// Sum of the three counters, as a mathematical integer.
    pub open spec fn spec_total(&self) -> int {
        self.prompt + self.completion + self.reasoning
    }

    /// All tokens of the turn: prompt, completion and reasoning together.
    pub fn total(&self) -> (t: u64)
        requires
            self.spec_total() <= u64::MAX,
        ensures
            t == self.spec_total(),
    {
        self.prompt + self.completion + self.reasoning
    }
}

impl Default for TokenUsage {
    /// A usage record with every counter at zero.
    fn default() -> (u: Self)
        ensures
            u == (TokenUsage { prompt: 0, completion: 0, reasoning: 0 }),
    {
        TokenUsage { prompt: 0, completion: 0, reasoning: 0 }
    }
}

/// Distinct thinking levels are sent under distinct names.
pub proof fn lemma_thinking_level_names_distinct(a: ThinkingLevel, b: ThinkingLevel)
    requires
        a != b,
    ensures
        thinking_level_name(a) != thinking_level_name(b),
{
    reveal_strlit("off");
    reveal_strlit("minimal");
    reveal_strlit("low");
    reveal_strlit("medium");
    reveal_strlit("high");
    assert(thinking_level_name(a).len() != thinking_level_name(b).len()
        || thinking_level_name(a)[0] != thinking_level_name(b)[0]
        || thinking_level_name(a)[1] != thinking_level_name(b)[1]);
}

} // verus!
