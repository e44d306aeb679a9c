//! Command dispatch of the `goblin` and `milton` command-line tools.
use vstd::prelude::*;
use crate::text::chars_of;

verus! {

/// What a command-line tool does for its first argument.
#[derive(Debug, Clone, Copy, PartialEq, Eq, Structural)]
pub enum CliAction {
    /// Run the named subcommand or stage.
    Run,
    /// Print the version.
    Version,
    /// Print the usage text.
    Help,
    /// Report an unknown command and print the usage text.
    Unknown,
}

/// Whether `a` and `b` hold the same characters.
pub fn str_eq(a: &str, b: &str) -> (r: bool)
    ensures
        r == (a@ == b@),
{
    let x = chars_of(a);
    let y = chars_of(b);
    if x.len() != y.len() {
        return false;
    }
    let mut i: usize = 0;
    while i < x.len()
        invariant
            x.len() == y.len(),
            x@ == a@,
            y@ == b@,
            i <= x.len(),
            forall|j: int| 0 <= j < i ==> x@[j] == y@[j],
        decreases x.len() - i,
    {
        if x[i] != y[i] {
            proof {
                assert(a@[i as int] != b@[i as int]);
            }
            return false;
        }
        i = i + 1;
    }
    proof {
        assert(x@ =~= y@);
    }
    true
}

/// Whether `cmd` asks for the version.
pub open spec fn is_version_cmd(cmd: Seq<char>) -> bool {
    cmd == "version"@ || cmd == "--version"@ || cmd == "-V"@
}

/// Whether `cmd` asks for help.
pub open spec fn is_help_cmd(cmd: Seq<char>) -> bool {
    cmd == "help"@ || cmd == "--help"@ || cmd == "-h"@
}

/// The subcommands of `goblin`.
pub open spec fn is_goblin_subcommand(cmd: Seq<char>) -> bool {
    ||| cmd == "gateway"@
    ||| cmd == "agent"@
    ||| cmd == "send"@
    ||| cmd == "login"@
    ||| cmd == "skills"@
    ||| cmd == "nodes"@
}

/// The stages of `milton`.
pub open spec fn is_milton_stage(cmd: Seq<char>) -> bool {
    ||| cmd == "loop"@
    ||| cmd == "selfplay"@
    ||| cmd == "train"@
    ||| cmd == "arena"@
    ||| cmd == "lichess"@
    ||| cmd == "inspect"@
}

/// The action for `cmd`, given which commands run something.
pub open spec fn action_for(runs: bool, cmd: Seq<char>) -> CliAction {
    if runs {
        CliAction::Run
    } else if is_version_cmd(cmd) {
        CliAction::Version
    } else if is_help_cmd(cmd) {
        CliAction::Help
    } else {
        CliAction::Unknown
    }
}

fn version_or_help(cmd: &str) -> (a: CliAction)
    ensures
        a == action_for(false, cmd@),
{
    if str_eq(cmd, "version") || str_eq(cmd, "--version") || str_eq(cmd, "-V") {
        CliAction::Version
    } else if str_eq(cmd, "help") || str_eq(cmd, "--help") || str_eq(cmd, "-h") {
        CliAction::Help
    } else {
        CliAction::Unknown
    }
}

/// The action of `goblin` for its first argument.
pub fn goblin_action(cmd: &str) -> (a: CliAction)
    ensures
        a == action_for(is_goblin_subcommand(cmd@), cmd@),
{
    if str_eq(cmd, "gateway") || str_eq(cmd, "agent") || str_eq(cmd, "send") || str_eq(
        cmd,
        "login",
    ) || str_eq(cmd, "skills") || str_eq(cmd, "nodes") {
        CliAction::Run
    } else {
        version_or_help(cmd)
    }
}

/// The action of `milton` for its first argument.
pub fn milton_action(cmd: &str) -> (a: CliAction)
    ensures
        a == action_for(is_milton_stage(cmd@), cmd@),
{
    if str_eq(cmd, "loop") || str_eq(cmd, "selfplay") || str_eq(cmd, "train") || str_eq(
        cmd,
        "arena",
    ) || str_eq(cmd, "lichess") || str_eq(cmd, "inspect") {
        CliAction::Run
    } else {
        version_or_help(cmd)
    }
}

/// The process exit status for an action: 2 for an unknown command, else 0.
pub fn exit_status(a: CliAction) -> (code: u8)
    ensures
        code == (if a == CliAction::Unknown { 2u8 } else { 0u8 }),
{
    match a {
        CliAction::Unknown => 2,
        _ => 0,
    }
}

/// `goblin` runs exactly `gateway`, `agent`, `send`, `login`, `skills` and
/// `nodes`; `version`, `--version` and `-V` print the version; `help`,
/// `--help` and `-h` print the usage; every other argument is unknown.
pub proof fn lemma_goblin_dispatch(cmd: Seq<char>)
    ensures
        (action_for(is_goblin_subcommand(cmd), cmd) == CliAction::Run) <==> (cmd == "gateway"@
            || cmd == "agent"@ || cmd == "send"@ || cmd == "login"@ || cmd == "skills"@ || cmd
            == "nodes"@),
        (action_for(is_goblin_subcommand(cmd), cmd) == CliAction::Version) <==> (cmd
            == "version"@ || cmd == "--version"@ || cmd == "-V"@),
        (action_for(is_goblin_subcommand(cmd), cmd) == CliAction::Help) <==> (cmd == "help"@
            || cmd == "--help"@ || cmd == "-h"@),
{
    reveal_strlit("gateway");
    reveal_strlit("agent");
    reveal_strlit("send");
    reveal_strlit("login");
    reveal_strlit("skills");
    reveal_strlit("nodes");
    reveal_strlit("loop");
    reveal_strlit("selfplay");
    reveal_strlit("train");
    reveal_strlit("arena");
    reveal_strlit("lichess");
    reveal_strlit("inspect");
    reveal_strlit("version");
    reveal_strlit("--version");
    reveal_strlit("-V");
    reveal_strlit("help");
    reveal_strlit("--help");
    reveal_strlit("-h");
    assert("version"@[0] != "gateway"@[0]);
    assert("version"@ != "gateway"@);
    assert("version"@.len() != "agent"@.len());
    assert("version"@ != "agent"@);
    assert("version"@.len() != "send"@.len());
    assert("version"@ != "send"@);
    assert("version"@.len() != "login"@.len());
    assert("version"@ != "login"@);
    assert("version"@.len() != "skills"@.len());
    assert("version"@ != "skills"@);
    assert("version"@.len() != "nodes"@.len());
    assert("version"@ != "nodes"@);
    assert("--version"@.len() != "gateway"@.len());
    assert("--version"@ != "gateway"@);
    assert("--version"@.len() != "agent"@.len());
    assert("--version"@ != "agent"@);
    assert("--version"@.len() != "send"@.len());
    assert("--version"@ != "send"@);
    assert("--version"@.len() != "login"@.len());
    assert("--version"@ != "login"@);
    assert("--version"@.len() != "skills"@.len());
    assert("--version"@ != "skills"@);
    assert("--version"@.len() != "nodes"@.len());
    assert("--version"@ != "nodes"@);
    assert("-V"@.len() != "gateway"@.len());
    assert("-V"@ != "gateway"@);
    assert("-V"@.len() != "agent"@.len());
    assert("-V"@ != "agent"@);
    assert("-V"@.len() != "send"@.len());
    assert("-V"@ != "send"@);
    assert("-V"@.len() != "login"@.len());
    assert("-V"@ != "login"@);
    assert("-V"@.len() != "skills"@.len());
    assert("-V"@ != "skills"@);
    assert("-V"@.len() != "nodes"@.len());
    assert("-V"@ != "nodes"@);
    assert("help"@.len() != "gateway"@.len());
    assert("help"@ != "gateway"@);
    assert("help"@.len() != "agent"@.len());
    assert("help"@ != "agent"@);
    assert("help"@[0] != "send"@[0]);
    assert("help"@ != "send"@);
    assert("help"@.len() != "login"@.len());
    assert("help"@ != "login"@);
    assert("help"@.len() != "skills"@.len());
    assert("help"@ != "skills"@);
    assert("help"@.len() != "nodes"@.len());
    assert("help"@ != "nodes"@);
    assert("help"@.len() != "version"@.len());
    assert("help"@ != "version"@);
    assert("help"@.len() != "--version"@.len());
    assert("help"@ != "--version"@);
    assert("help"@.len() != "-V"@.len());
    assert("help"@ != "-V"@);
    assert("--help"@.len() != "gateway"@.len());
    assert("--help"@ != "gateway"@);
    assert("--help"@.len() != "agent"@.len());
    assert("--help"@ != "agent"@);
    assert("--help"@.len() != "send"@.len());
    assert("--help"@ != "send"@);
    assert("--help"@.len() != "login"@.len());
    assert("--help"@ != "login"@);
    assert("--help"@[0] != "skills"@[0]);
    assert("--help"@ != "skills"@);
    assert("--help"@.len() != "nodes"@.len());
    assert("--help"@ != "nodes"@);
    assert("--help"@.len() != "version"@.len());
    assert("--help"@ != "version"@);
    assert("--help"@.len() != "--version"@.len());
    assert("--help"@ != "--version"@);
    assert("--help"@.len() != "-V"@.len());
    assert("--help"@ != "-V"@);
    assert("-h"@.len() != "gateway"@.len());
    assert("-h"@ != "gateway"@);
    assert("-h"@.len() != "agent"@.len());
    assert("-h"@ != "agent"@);
    assert("-h"@.len() != "send"@.len());
    assert("-h"@ != "send"@);
    assert("-h"@.len() != "login"@.len());
    assert("-h"@ != "login"@);
    assert("-h"@.len() != "skills"@.len());
    assert("-h"@ != "skills"@);
    assert("-h"@.len() != "nodes"@.len());
    assert("-h"@ != "nodes"@);
    assert("-h"@.len() != "version"@.len());
    assert("-h"@ != "version"@);
    assert("-h"@.len() != "--version"@.len());
    assert("-h"@ != "--version"@);
    assert("-h"@[1] != "-V"@[1]);
    assert("-h"@ != "-V"@);
}

/// `milton` runs exactly `loop`, `selfplay`, `train`, `arena`, `lichess` and
/// `inspect`; `version`, `--version` and `-V` print the version; `help`,
/// `--help` and `-h` print the usage; every other argument is unknown.
pub proof fn lemma_milton_dispatch(cmd: Seq<char>)
    ensures
        (action_for(is_milton_stage(cmd), cmd) == CliAction::Run) <==> (cmd == "loop"@ || cmd
            == "selfplay"@ || cmd == "train"@ || cmd == "arena"@ || cmd == "lichess"@ || cmd
            == "inspect"@),
        (action_for(is_milton_stage(cmd), cmd) == CliAction::Version) <==> (cmd == "version"@
            || cmd == "--version"@ || cmd == "-V"@),
        (action_for(is_milton_stage(cmd), cmd) == CliAction::Help) <==> (cmd == "help"@ || cmd
            == "--help"@ || cmd == "-h"@),
{
    reveal_strlit("gateway");
    reveal_strlit("agent");
    reveal_strlit("send");
    reveal_strlit("login");
    reveal_strlit("skills");
    reveal_strlit("nodes");
    reveal_strlit("loop");
    reveal_strlit("selfplay");
    reveal_strlit("train");
    reveal_strlit("arena");
    reveal_strlit("lichess");
    reveal_strlit("inspect");
    reveal_strlit("version");
    reveal_strlit("--version");
    reveal_strlit("-V");
    reveal_strlit("help");
    reveal_strlit("--help");
    reveal_strlit("-h");
    assert("version"@.len() != "loop"@.len());
    assert("version"@ != "loop"@);
    assert("version"@.len() != "selfplay"@.len());
    assert("version"@ != "selfplay"@);
    assert("version"@.len() != "train"@.len());
    assert("version"@ != "train"@);
    assert("version"@.len() != "arena"@.len());
    assert("version"@ != "arena"@);
    assert("version"@[0] != "lichess"@[0]);
    assert("version"@ != "lichess"@);
    assert("version"@[0] != "inspect"@[0]);
    assert("version"@ != "inspect"@);
    assert("--version"@.len() != "loop"@.len());
    assert("--version"@ != "loop"@);
    assert("--version"@.len() != "selfplay"@.len());
    assert("--version"@ != "selfplay"@);
    assert("--version"@.len() != "train"@.len());
    assert("--version"@ != "train"@);
    assert("--version"@.len() != "arena"@.len());
    assert("--version"@ != "arena"@);
    assert("--version"@.len() != "lichess"@.len());
    assert("--version"@ != "lichess"@);
    assert("--version"@.len() != "inspect"@.len());
    assert("--version"@ != "inspect"@);
    assert("-V"@.len() != "loop"@.len());
    assert("-V"@ != "loop"@);
    assert("-V"@.len() != "selfplay"@.len());
    assert("-V"@ != "selfplay"@);
    assert("-V"@.len() != "train"@.len());
    assert("-V"@ != "train"@);
    assert("-V"@.len() != "arena"@.len());
    assert("-V"@ != "arena"@);
    assert("-V"@.len() != "lichess"@.len());
    assert("-V"@ != "lichess"@);
    assert("-V"@.len() != "inspect"@.len());
    assert("-V"@ != "inspect"@);
    assert("help"@[0] != "loop"@[0]);
    assert("help"@ != "loop"@);
    assert("help"@.len() != "selfplay"@.len());
    assert("help"@ != "selfplay"@);
    assert("help"@.len() != "train"@.len());
    assert("help"@ != "train"@);
    assert("help"@.len() != "arena"@.len());
    assert("help"@ != "arena"@);
    assert("help"@.len() != "lichess"@.len());
    assert("help"@ != "lichess"@);
    assert("help"@.len() != "inspect"@.len());
    assert("help"@ != "inspect"@);
    assert("help"@.len() != "version"@.len());
    assert("help"@ != "version"@);
    assert("help"@.len() != "--version"@.len());
    assert("help"@ != "--version"@);
    assert("help"@.len() != "-V"@.len());
    assert("help"@ != "-V"@);
    assert("--help"@.len() != "loop"@.len());
    assert("--help"@ != "loop"@);
    assert("--help"@.len() != "selfplay"@.len());
    assert("--help"@ != "selfplay"@);
    assert("--help"@.len() != "train"@.len());
    assert("--help"@ != "train"@);
    assert("--help"@.len() != "arena"@.len());
    assert("--help"@ != "arena"@);
    assert("--help"@.len() != "lichess"@.len());
    assert("--help"@ != "lichess"@);
    assert("--help"@.len() != "inspect"@.len());
    assert("--help"@ != "inspect"@);
    assert("--help"@.len() != "version"@.len());
    assert("--help"@ != "version"@);
    assert("--help"@.len() != "--version"@.len());
    assert("--help"@ != "--version"@);
    assert("--help"@.len() != "-V"@.len());
    assert("--help"@ != "-V"@);
    assert("-h"@.len() != "loop"@.len());
    assert("-h"@ != "loop"@);
    assert("-h"@.len() != "selfplay"@.len());
    assert("-h"@ != "selfplay"@);
    assert("-h"@.len() != "train"@.len());
    assert("-h"@ != "train"@);
    assert("-h"@.len() != "arena"@.len());
    assert("-h"@ != "arena"@);
    assert("-h"@.len() != "lichess"@.len());
    assert("-h"@ != "lichess"@);
    assert("-h"@.len() != "inspect"@.len());
    assert("-h"@ != "inspect"@);
    assert("-h"@.len() != "version"@.len());
    assert("-h"@ != "version"@);
    assert("-h"@.len() != "--version"@.len());
    assert("-h"@ != "--version"@);
    assert("-h"@[1] != "-V"@[1]);
    assert("-h"@ != "-V"@);
}

/// Only an unknown command exits with a failure status, and that status is 2.
pub proof fn lemma_exit_status_only_for_unknown(a: CliAction)
    ensures
        (if a == CliAction::Unknown { 2u8 } else { 0u8 }) != 0 <==> a == CliAction::Unknown,
{
}

} // verus!
