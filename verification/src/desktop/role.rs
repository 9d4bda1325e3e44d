//! One binary, several roles: the name that the process was started under, or
//! an override, says which.
use crate::paths::{file_name, file_name_of, law_file_name};
use crate::text::{opt_chars, same_text};
use vstd::prelude::*;

verus! {

/// What a process runs as.
#[derive(Debug, Clone, Copy, PartialEq, Eq, Structural)]
pub enum Role {
    Desktop,
    Agent,
    Lspd,
}

impl Role {
    pub const DESKTOP_BIN: &'static str = "codex-desktop";

    pub const AGENT_BIN: &'static str = "codex-agent";

    pub const LSPD_BIN: &'static str = "codex-lspd";
}

/// The environment variable that overrides the name of the process.
pub const FORCE_ROLE_ENV: &'static str = "CODEX_DESKTOP_FORCE_ROLE";

/// The role of a process that was started under the given name.
pub open spec fn role_of_name(argv0: Seq<char>) -> Role {
    if file_name_of(argv0) == Some("codex-agent"@) {
        Role::Agent
    } else if file_name_of(argv0) == Some("codex-lspd"@) {
        Role::Lspd
    } else {
        Role::Desktop
    }
}

/// The role that an override asks for, where it is one that is known.
pub open spec fn forced_role(forced: Option<Seq<char>>) -> Option<Role> {
    match forced {
        Some(value) => if value == "desktop"@ {
            Some(Role::Desktop)
        } else if value == "agent"@ {
            Some(Role::Agent)
        } else if value == "lspd"@ {
            Some(Role::Lspd)
        } else {
            None
        },
        None => None,
    }
}

/// The role of a process: what the override asks for, or else what its name
/// says.
pub open spec fn role_of(argv0: Seq<char>, forced: Option<Seq<char>>) -> Role {
    match forced_role(forced) {
        Some(role) => role,
        None => role_of_name(argv0),
    }
}

/// The role of a process: what the override asks for, or else what its name
/// says.
pub fn detect_role_with_env(argv0: &str, forced: Option<&str>) -> (r: Role)
    ensures
        r == role_of(argv0@, opt_chars(forced)),
{
    match forced {
        Some(value) => if same_text(value, "desktop") {
            Role::Desktop
        } else if same_text(value, "agent") {
            Role::Agent
        } else if same_text(value, "lspd") {
            Role::Lspd
        } else {
            detect_role_from_argv0(argv0)
        },
        None => detect_role_from_argv0(argv0),
    }
}

/// The role that the name of the process says; the desktop where the name is
/// not known.
pub fn detect_role_from_argv0(argv0: &str) -> (r: Role)
    ensures
        r == role_of_name(argv0@),
{
    match file_name(argv0) {
        Some(name) => if same_text(name.as_str(), Role::AGENT_BIN) {
            Role::Agent
        } else if same_text(name.as_str(), Role::LSPD_BIN) {
            Role::Lspd
        } else {
            Role::Desktop
        },
        None => Role::Desktop,
    }
}

/// An override that is known decides, whatever the name of the process; one
/// that is not known changes nothing.
pub proof fn law_override_wins(argv0: Seq<char>, forced: Seq<char>)
    ensures
        role_of(argv0, Some("desktop"@)) == Role::Desktop,
        role_of(argv0, Some("agent"@)) == Role::Agent,
        role_of(argv0, Some("lspd"@)) == Role::Lspd,
        forced != "desktop"@ && forced != "agent"@ && forced != "lspd"@ ==> role_of(
            argv0,
            Some(forced),
        ) == role_of(argv0, None),
{
    reveal_strlit("desktop");
    reveal_strlit("agent");
    reveal_strlit("lspd");
    assert("desktop"@.len() == 7 && "agent"@.len() == 5 && "lspd"@.len() == 4);
}

/// A process is what the last name of the path that it was started under
/// says, in whatever directory it lies; any other name is the desktop.
pub proof fn law_role_by_name(dir: Seq<char>, name: Seq<char>)
    requires
        !name.contains('/'),
        name.len() > 0,
        name != "."@,
        name != ".."@,
    ensures
        role_of(dir + "/"@ + "codex-agent"@, None) == Role::Agent,
        role_of("codex-agent"@, None) == Role::Agent,
        role_of(dir + "/"@ + "codex-lspd"@, None) == Role::Lspd,
        role_of("codex-lspd"@, None) == Role::Lspd,
        name != "codex-agent"@ && name != "codex-lspd"@ ==> role_of(dir + "/"@ + name, None)
            == Role::Desktop && role_of(name, None) == Role::Desktop,
        role_of(Seq::empty(), None) == Role::Desktop,
{
    reveal_strlit("codex-agent");
    reveal_strlit("codex-lspd");
    reveal_strlit(".");
    reveal_strlit("..");
    let agent = "codex-agent"@;
    let lspd = "codex-lspd"@;
    assert(agent.len() == 11 && lspd.len() == 10 && "."@.len() == 1 && ".."@.len() == 2);
    assert(!agent.contains('/'));
    assert(!lspd.contains('/'));
    law_file_name(dir, agent);
    law_file_name(dir, lspd);
    law_file_name(dir, name);
}

/// The names of the roles and of the override.
pub proof fn law_role_names()
    ensures
        Role::DESKTOP_BIN@ == "codex-desktop"@,
        Role::AGENT_BIN@ == "codex-agent"@,
        Role::LSPD_BIN@ == "codex-lspd"@,
        FORCE_ROLE_ENV@ == "CODEX_DESKTOP_FORCE_ROLE"@,
{
}

} // verus!
