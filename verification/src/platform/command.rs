//! The command a launch runs.

use crate::env;
use crate::paths;
use crate::platform::error::{self, LaunchError, LaunchErrorView, LaunchOperation, OperationView};
use crate::platform::policy::SandboxLaunchPolicy;
use crate::text;
use vstd::prelude::*;

verus! {

/// Maximum remote command length accepted for `shell -c` execution.
pub const MAX_COMMAND_BYTES: usize = 32768;

/// The command argument of an operation.
pub open spec fn command_outcome(operation: OperationView) -> Result<
    Option<Seq<u8>>,
    LaunchErrorView,
> {
    match operation {
        OperationView::Shell => Ok(None),
        OperationView::Exec(bytes) => if bytes.len() > MAX_COMMAND_BYTES {
            Err(error::plain("sandbox command is too large"@))
        } else if bytes.contains(0) {
            Err(error::plain("sandbox command contains NUL"@))
        } else {
            Ok(Some(bytes))
        },
    }
}

/// The contents of optional bytes.
pub open spec fn bytes_of(bytes: Option<Vec<u8>>) -> Option<Seq<u8>> {
    match bytes {
        Some(bytes) => Some(bytes@),
        None => None,
    }
}

/// Validate the remote command payload for `shell -c` execution.
///
/// The payload is an opaque byte string: at most 32 KiB and no NUL bytes, but
/// not necessarily UTF-8. The exact bytes become the single `-c` argument.
/// Shell operations return `None`.
pub fn validated_shell_command(operation: &LaunchOperation) -> (r: Result<
    Option<Vec<u8>>,
    LaunchError,
>)
    ensures
        match command_outcome(operation@) {
            Ok(expected) => r matches Ok(bytes) && bytes_of(bytes) == expected,
            Err(expected) => r matches Err(error) && error@ == expected,
        },
{
    match operation {
        LaunchOperation::Shell => Ok(None),
        LaunchOperation::Exec(bytes) => {
            if bytes.len() > MAX_COMMAND_BYTES {
                return Err(LaunchError::new("sandbox command is too large"));
            }
            let mut copy: Vec<u8> = Vec::new();
            let mut i: usize = 0;
            while i < bytes.len()
                invariant
                    i <= bytes@.len(),
                    bytes@.len() <= MAX_COMMAND_BYTES,
                    operation@ == OperationView::Exec(bytes@),
                    copy@ == bytes@.take(i as int),
                    forall|k: int| 0 <= k < i ==> bytes@[k] != 0,
                decreases bytes@.len() - i,
            {
                if bytes[i] == 0 {
                    assert(bytes@.contains(0));
                    return Err(LaunchError::new("sandbox command contains NUL"));
                }
                assert(bytes@.take(i + 1) =~= bytes@.take(i as int).push(bytes@[i as int]));
                copy.push(bytes[i]);
                i = i + 1;
            }
            assert(bytes@.take(bytes@.len() as int) =~= bytes@);
            Ok(Some(copy))
        },
    }
}

/// The login name of a shell.
pub open spec fn login_name(shell: Seq<char>) -> Result<Seq<char>, LaunchErrorView> {
    match paths::file_name_of(shell) {
        None => Err(error::plain("sandbox shell path has no file name"@)),
        Some(name) => Ok("-"@ + name),
    }
}

/// OpenSSH-style login shell name: the `-<basename>` string installed as
/// `argv[0]` so the shell starts in login mode.
pub fn login_shell_argv0(shell: &str) -> (r: Result<String, LaunchError>)
    ensures
        match login_name(shell@) {
            Ok(expected) => r matches Ok(name) && name@ == expected,
            Err(expected) => r matches Err(error) && error@ == expected,
        },
{
    match paths::file_name(shell) {
        None => Err(LaunchError::new("sandbox shell path has no file name")),
        Some(name) => Ok(text::cat2("-", name.as_str())),
    }
}

/// Where one of a process's standard streams goes.
#[derive(Debug, Clone, Copy, PartialEq, Eq, Structural)]
pub enum Streams {
    /// Three separate pipes.
    Pipes,
    /// The terminal, for all three.
    Terminal,
}

/// The session a process starts in.
#[derive(Debug, Clone, Copy, PartialEq, Eq, Structural)]
pub enum SessionSetup {
    NewSession,
    NewSessionWithControllingTerminal,
}

/// A command ready to spawn.
#[derive(Debug)]
pub struct CommandSpec {
    pub program: String,
    pub argv0: Option<String>,
    /// Raw argument bytes, behind the program.
    pub args: Vec<Vec<u8>>,
    pub cwd: String,
    pub env: Vec<(String, String)>,
    pub streams: Streams,
    pub session: SessionSetup,
}

/// The contents of a [`CommandSpec`].
pub struct CommandView {
    pub program: Seq<char>,
    pub argv0: Option<Seq<char>>,
    pub args: Seq<Seq<u8>>,
    pub cwd: Seq<char>,
    pub env: env::Entries,
    pub streams: Streams,
    pub session: SessionSetup,
}

/// The contents of an argument list.
pub open spec fn arguments(args: Seq<Vec<u8>>) -> Seq<Seq<u8>> {
    args.map_values(|arg: Vec<u8>| arg@)
}

impl View for CommandSpec {
    type V = CommandView;

    open spec fn view(&self) -> CommandView {
        CommandView {
            program: self.program@,
            argv0: text::optional(self.argv0),
            args: arguments(self.args@),
            cwd: self.cwd@,
            env: env::pairs(self.env@),
            streams: self.streams,
            session: self.session,
        }
    }
}

/// The bytes of `-c`.
pub open spec fn command_flag() -> Seq<u8> {
    seq![0x2du8, 0x63u8]
}

/// The command of an operation: the raw bytes behind `-c`, or the shell under
/// its login name.
pub open spec fn command_of(
    shell: Seq<char>,
    operation: OperationView,
    workspace: Seq<char>,
    entries: env::Entries,
    terminal: bool,
) -> Result<CommandView, LaunchErrorView> {
    let base = CommandView {
        program: shell,
        argv0: None,
        args: seq![],
        cwd: workspace,
        env: entries,
        streams: if terminal {
            Streams::Terminal
        } else {
            Streams::Pipes
        },
        session: if terminal {
            SessionSetup::NewSessionWithControllingTerminal
        } else {
            SessionSetup::NewSession
        },
    };
    match command_outcome(operation) {
        Err(error) => Err(error),
        Ok(Some(bytes)) => Ok(CommandView { args: seq![command_flag(), bytes], ..base }),
        Ok(None) => match login_name(shell) {
            Err(error) => Err(error),
            Ok(name) => Ok(CommandView { argv0: Some(name), ..base }),
        },
    }
}

impl SandboxLaunchPolicy {
    /// The command of one launch. A remote command is not a login shell; a
    /// shell request gets the leading `-` name instead of an option. With a
    /// terminal, all three streams and the session belong to it.
    pub fn command_spec(
        &self,
        operation: &LaunchOperation,
        workspace: &str,
        entries: Vec<(String, String)>,
        terminal: bool,
    ) -> (r: Result<CommandSpec, LaunchError>)
        ensures
            match command_of(
                self@.shell,
                operation@,
                workspace@,
                env::pairs(entries@),
                terminal,
            ) {
                Ok(expected) => r matches Ok(command) && command@ == expected,
                Err(expected) => r matches Err(error) && error@ == expected,
            },
    {
        let command = match validated_shell_command(operation) {
            Ok(command) => command,
            Err(error) => {
                return Err(error);
            },
        };
        let mut args: Vec<Vec<u8>> = Vec::new();
        let mut argv0: Option<String> = None;
        assert(arguments(args@) =~= Seq::<Seq<u8>>::empty());
        match command {
            Some(bytes) => {
                let flag: Vec<u8> = vec![0x2du8, 0x63u8];
                proof {
                    assert(flag@ =~= command_flag());
                    assert(arguments(args@.push(flag).push(bytes)) =~= seq![
                        command_flag(),
                        bytes@,
                    ]);
                }
                args.push(flag);
                args.push(bytes);
            },
            None => {
                match login_shell_argv0(self.shell()) {
                    Ok(name) => {
                        argv0 = Some(name);
                    },
                    Err(error) => {
                        return Err(error);
                    },
                }
            },
        }
        let (streams, session) = if terminal {
            (Streams::Terminal, SessionSetup::NewSessionWithControllingTerminal)
        } else {
            (Streams::Pipes, SessionSetup::NewSession)
        };
        Ok(
            CommandSpec {
                program: self.shell().to_owned(),
                argv0,
                args,
                cwd: workspace.to_owned(),
                env: entries,
                streams,
                session,
            },
        )
    }
}

/// A remote command reaches the shell byte for byte, as the one argument behind
/// `-c`.
pub proof fn commands_are_passed_through(
    shell: Seq<char>,
    bytes: Seq<u8>,
    workspace: Seq<char>,
    entries: env::Entries,
    terminal: bool,
)
    requires
        bytes.len() <= MAX_COMMAND_BYTES,
        !bytes.contains(0),
    ensures
        command_of(shell, OperationView::Exec(bytes), workspace, entries, terminal) matches Ok(
            command,
        ) && command.args == seq![command_flag(), bytes] && command.argv0 is None,
{
}

/// A command is refused exactly when it is longer than 32 KiB or holds a NUL;
/// a login shell needs a shell path with a file name. Whatever runs, runs the
/// shell in the workspace with the given environment, on a terminal exactly
/// where one was asked for.
pub proof fn commands_run_the_shell(
    shell: Seq<char>,
    operation: OperationView,
    workspace: Seq<char>,
    entries: env::Entries,
    terminal: bool,
)
    ensures
        ({
            let outcome = command_of(shell, operation, workspace, entries, terminal);
            &&& outcome is Ok <==> match operation {
                OperationView::Exec(bytes) => bytes.len() <= 32768 && !bytes.contains(0),
                OperationView::Shell => paths::file_name_of(shell) is Some,
            }
            &&& outcome matches Ok(command) ==> {
                &&& command.program == shell
                &&& command.cwd == workspace
                &&& command.env == entries
                &&& (command.streams is Terminal <==> terminal)
                &&& (command.session is NewSessionWithControllingTerminal <==> terminal)
                &&& match operation {
                    OperationView::Exec(bytes) => command.argv0 is None && command.args.len() == 2
                        && command.args[0] == seq!['-' as u8, 'c' as u8] && command.args[1]
                        == bytes,
                    OperationView::Shell => command.args.len() == 0 && command.argv0 is Some,
                }
            }
        }),
{
    assert(command_flag() =~= seq!['-' as u8, 'c' as u8]);
}

/// A login shell is started under the name of its file with a dash before it.
pub proof fn login_shells_are_named_with_a_dash(
    base: Seq<char>,
    name: Seq<char>,
    workspace: Seq<char>,
    entries: env::Entries,
    terminal: bool,
)
    requires
        paths::is_component(name),
    ensures
        command_of(
            paths::join_of(base, name),
            OperationView::Shell,
            workspace,
            entries,
            terminal,
        ) matches Ok(command) && command.argv0 == Some(seq!['-'] + name),
{
    paths::joined_paths_come_apart(base, name);
    reveal_strlit("-");
    assert("-"@ =~= seq!['-']);
}

} // verus!
