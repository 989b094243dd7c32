//! Choosing the shell to run and how to run it.
use crate::records::{EnvRecord, views};
use vstd::prelude::*;

verus! {

/// The flags that make the shell a login shell that reads its interactive
/// start-up files and runs one command string.
pub const LOGIN_FLAGS: &'static str = "-ilc";

/// The command string: the delimiter, the `env` dump, the delimiter again.
pub const COMMAND: &'static str = "echo -n \"_SHELL_ENV_DELIMITER_\"; env; echo -n \"_SHELL_ENV_DELIMITER_\"; exit";

/// The variable set in the shell's environment to keep shell frameworks from
/// asking whether to update, which would block the shell.
pub const NO_UPDATE_VAR: &'static str = "DISABLE_AUTO_UPDATE";

/// The value given to [`NO_UPDATE_VAR`].
pub const NO_UPDATE_VALUE: &'static str = "true";

/// The operating system family the process runs on.
#[derive(Clone, Copy, Debug, PartialEq, Eq, Structural)]
pub enum Platform {
    /// The family whose processes already get the full environment: nothing
    /// is to be done there.
    Windows,
    MacOs,
    OtherUnix,
}

impl Platform {
    /// The shell to run where `SHELL` is not set, or `None` where no shell is
    /// to be run at all.
    pub fn default_shell(&self) -> (r: Option<String>)
        ensures
            match *self {
                Platform::Windows => r is None,
                Platform::MacOs => r matches Some(s) && s@ == "/bin/zsh"@,
                Platform::OtherUnix => r matches Some(s) && s@ == "/bin/sh"@,
            },
    {
        match *self {
            Platform::Windows => None,
            Platform::MacOs => Some("/bin/zsh".to_owned()),
            Platform::OtherUnix => Some("/bin/sh".to_owned()),
        }
    }
}

/// How to run the shell: its program, arguments, working directory and the
/// variables forced in its environment.
#[derive(Debug)]
pub struct ShellTarget {
    pub program: String,
    pub args: Vec<String>,
    pub current_dir: Option<String>,
    pub env: Vec<EnvRecord>,
}

/// The shell named by `SHELL` if set, else the platform's default, run as a
/// login shell with the dump command, from the home directory if it is known.
pub fn shell_target(default_shell: String, shell_var: Option<String>, home: Option<String>) -> (r:
    ShellTarget)
    ensures
        r.program@ == match shell_var {
            Some(s) => s@,
            None => default_shell@,
        },
        r.args@.map_values(|a: String| a@) == seq![LOGIN_FLAGS@, COMMAND@],
        r.current_dir == home,
        views(r.env@) == seq![(NO_UPDATE_VAR@, NO_UPDATE_VALUE@)],
{
    let program = match shell_var {
        Some(s) => s,
        None => default_shell,
    };
    let args = vec![LOGIN_FLAGS.to_owned(), COMMAND.to_owned()];
    let env = vec![EnvRecord { key: NO_UPDATE_VAR.to_owned(), value: NO_UPDATE_VALUE.to_owned() }];
    assert(args@.map_values(|a: String| a@) =~= seq![LOGIN_FLAGS@, COMMAND@]);
    assert(views(env@) =~= seq![(NO_UPDATE_VAR@, NO_UPDATE_VALUE@)]);
    ShellTarget { program, args, current_dir: home, env }
}

} // verus!
