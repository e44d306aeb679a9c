use gobby::cli::{exit_status, goblin_action, milton_action, str_eq, CliAction};

#[test]
fn goblin_commands_are_dispatched() {
    for c in ["gateway", "agent", "send", "login", "skills", "nodes"] {
        assert_eq!(goblin_action(c), CliAction::Run);
    }
    assert_eq!(goblin_action("version"), CliAction::Version);
    assert_eq!(goblin_action("-V"), CliAction::Version);
    assert_eq!(goblin_action("--help"), CliAction::Help);
    assert_eq!(goblin_action("train"), CliAction::Unknown);
}

#[test]
fn milton_stages_are_dispatched() {
    for c in ["loop", "selfplay", "train", "arena", "lichess", "inspect"] {
        assert_eq!(milton_action(c), CliAction::Run);
    }
    assert_eq!(milton_action("--version"), CliAction::Version);
    assert_eq!(milton_action("help"), CliAction::Help);
    assert_eq!(milton_action("-h"), CliAction::Help);
    assert_eq!(milton_action("gateway"), CliAction::Unknown);
}

#[test]
fn unknown_command_exits_with_two() {
    assert_eq!(exit_status(CliAction::Unknown), 2);
    assert_eq!(exit_status(CliAction::Run), 0);
    assert_eq!(exit_status(CliAction::Help), 0);
    assert_eq!(exit_status(CliAction::Version), 0);
}

#[test]
fn string_equality() {
    assert!(str_eq("é", "é"));
    assert!(!str_eq("ab", "abc"));
    assert!(!str_eq("abd", "abc"));
}
