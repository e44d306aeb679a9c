use gobby::codex::{StopReason, ThinkingLevel, TokenUsage};

#[test]
fn thinking_level_renders_as_kebab_string() {
    assert_eq!(ThinkingLevel::Medium.as_str(), "medium");
    assert_eq!(ThinkingLevel::default().as_str(), "medium");
}

#[test]
fn token_usage_totals_correctly() {
    let u = TokenUsage {
        prompt: 100,
        completion: 50,
        reasoning: 20,
    };
    assert_eq!(u.total(), 170);
}

#[test]
fn every_thinking_level_has_its_own_name() {
    let levels = [
        ThinkingLevel::Off,
        ThinkingLevel::Minimal,
        ThinkingLevel::Low,
        ThinkingLevel::Medium,
        ThinkingLevel::High,
    ];
    let names: Vec<&str> = levels.iter().map(|l| l.as_str()).collect();
    assert_eq!(names, vec!["off", "minimal", "low", "medium", "high"]);
    for i in 0..names.len() {
        for j in 0..names.len() {
            if i != j {
                assert_ne!(names[i], names[j]);
            }
        }
    }
}

#[test]
fn default_token_usage_is_zero() {
    let u = TokenUsage::default();
    assert_eq!(u, TokenUsage { prompt: 0, completion: 0, reasoning: 0 });
    assert_eq!(u.total(), 0);
}

#[test]
fn token_usage_total_reaches_the_counter_limit() {
    let u = TokenUsage { prompt: u64::MAX - 2, completion: 1, reasoning: 1 };
    assert_eq!(u.total(), u64::MAX);
}

#[test]
fn stop_reasons_are_distinct() {
    assert_ne!(StopReason::EndTurn, StopReason::ToolCalls);
    assert_ne!(StopReason::MaxTokens, StopReason::Refusal);
}
