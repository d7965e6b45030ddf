//! Pure pieces of the pseudo-terminal spawn step: the platform shell
//! wrapper, the child's environment, and the identifiers that tie an agent
//! to its terminal session and output channel. Opening the terminal and
//! spawning the child are I/O and live with the caller.
use vstd::prelude::*;

use crate::strutil::push_char;

verus! {

/// Rows of the fixed initial terminal size.
pub const PTY_ROWS: u16 = 24;

/// Columns of the fixed initial terminal size.
pub const PTY_COLS: u16 = 80;

/// The platform family the process runs on, decided by the caller at
/// build or start time.
#[derive(Clone, Copy, Debug, PartialEq, Eq, Structural)]
pub enum HostPlatform {
    Windows,
    MacOs,
    Other,
}

/// The shell wrapper that runs a provider's command string as its single
/// trailing argument: `cmd /C` on Windows, a login zsh on macOS, a plain
/// POSIX shell elsewhere.
pub fn shell_invocation(platform: HostPlatform) -> (r: (String, Vec<String>))
    ensures
        platform == HostPlatform::Windows ==> r.0@ == "cmd"@ && r.1@.len() == 1 && r.1@[0]@
            == "/C"@,
        platform == HostPlatform::MacOs ==> r.0@ == "/bin/zsh"@ && r.1@.len() == 1 && r.1@[0]@
            == "-lc"@,
        platform == HostPlatform::Other ==> r.0@ == "sh"@ && r.1@.len() == 1 && r.1@[0]@ == "-c"@,
{
    let mut args: Vec<String> = Vec::new();
    match platform {
        HostPlatform::Windows => {
            args.push(String::from_str("/C"));
            (String::from_str("cmd"), args)
        },
        HostPlatform::MacOs => {
            args.push(String::from_str("-lc"));
            (String::from_str("/bin/zsh"), args)
        },
        HostPlatform::Other => {
            args.push(String::from_str("-c"));
            (String::from_str("sh"), args)
        },
    }
}

/// The path of a project's own database file under the given working
/// directory, exported to spawned agents so they can self-connect to
/// project state.
pub fn project_db_path(cwd: &str) -> (r: String)
    ensures
        r@ == cwd@ + "/.auric/project.db"@,
{
    let mut r = String::from_str(cwd);
    r.append("/.auric/project.db");
    r
}

/// The views of a list of environment pairs.
pub open spec fn env_views(pairs: Seq<(String, String)>) -> Seq<(Seq<char>, Seq<char>)> {
    pairs.map_values(|p: (String, String)| (p.0@, p.1@))
}

/// The environment of a spawned agent: the baseline terminal hints, then
/// the provider-declared overrides, then — when a working directory is
/// given — the pointer at that directory's project database file.
pub open spec fn agent_env_spec(
    provider_env: Seq<(Seq<char>, Seq<char>)>,
    cwd: Option<&String>,
) -> Seq<(Seq<char>, Seq<char>)> {
    seq![("TERM"@, "xterm-256color"@), ("COLORTERM"@, "truecolor"@)] + provider_env + (match cwd {
        Some(c) => seq![("AURIC_MCP_DB_PATH"@, c@ + "/.auric/project.db"@)],
        None => Seq::<(Seq<char>, Seq<char>)>::empty(),
    })
}

/// Computes a spawned agent's environment-variable overrides, in the order
/// they are applied.
pub fn agent_env_vars(provider_env: &Vec<(String, String)>, cwd: &Option<String>) -> (r: Vec<
    (String, String),
>)
    ensures
        env_views(r@) == agent_env_spec(
            env_views(provider_env@),
            match *cwd {
                Some(ref c) => Some(c),
                None => None,
            },
        ),
{
    let ghost goal = agent_env_spec(
        env_views(provider_env@),
        match *cwd {
            Some(ref c) => Some(c),
            None => None,
        },
    );
    let mut r: Vec<(String, String)> = Vec::new();
    r.push((String::from_str("TERM"), String::from_str("xterm-256color")));
    r.push((String::from_str("COLORTERM"), String::from_str("truecolor")));
    let mut i: usize = 0;
    while i < provider_env.len()
        invariant
            i <= provider_env@.len(),
            r@.len() == 2 + i,
            env_views(r@)[0] == ("TERM"@, "xterm-256color"@),
            env_views(r@)[1] == ("COLORTERM"@, "truecolor"@),
            forall|j: int|
                0 <= j < i ==> env_views(r@)[j + 2] == (
                #[trigger] env_views(provider_env@)[j]),
        decreases provider_env@.len() - i,
    {
        r.push((provider_env[i].0.clone(), provider_env[i].1.clone()));
        i += 1;
    }
    match cwd {
        Some(c) => {
            r.push((String::from_str("AURIC_MCP_DB_PATH"), project_db_path(c.as_str())));
        },
        None => {},
    }
    proof {
        assert(env_views(r@) =~= goal);
    }
    r
}

/// The terminal-session key under which a spawned agent's write and resize
/// handles are registered.
pub fn agent_session_id(agent_id: &str) -> (r: String)
    ensures
        r@ == "agent-"@ + agent_id@,
{
    let mut r = String::from_str("agent-");
    r.append(agent_id);
    r
}

/// The provider id a spawn request asks for; requests that name none fall
/// back to the well-known default id.
pub fn requested_provider_id(provider: &Option<String>) -> (r: String)
    ensures
        match *provider {
            Some(ref p) => r@ == p@,
            None => r@ == "bolt"@,
        },
{
    match provider {
        Some(p) => p.clone(),
        None => String::from_str("bolt"),
    }
}

} // verus!
