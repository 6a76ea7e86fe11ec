//! Daemon OS account identity.
//!
//! The daemon runs as a dedicated non-root service account. The account's
//! passwd entry supplies the login shell (the sandbox shell default and the
//! host-mode shell) and the home directory. SSH usernames are never mapped to
//! OS accounts.

use crate::config::Config;
use crate::text;
use vstd::prelude::*;

verus! {

/// The resolved daemon account.
#[derive(Debug)]
pub struct Account {
    pub name: String,
    pub home: String,
    /// passwd login shell; an empty entry means the account has no shell set.
    pub shell: String,
}

/// The contents of an [`Account`].
pub struct AccountView {
    pub name: Seq<char>,
    pub home: Seq<char>,
    pub shell: Seq<char>,
}

impl View for Account {
    type V = AccountView;

    open spec fn view(&self) -> AccountView {
        AccountView { name: self.name@, home: self.home@, shell: self.shell@ }
    }
}

/// Account errors.
#[derive(Debug)]
pub enum Error {
    Passwd { uid: u32, message: String },
    Shell { path: String, message: String },
}

/// The contents of an [`Error`].
pub enum ErrorView {
    Passwd { uid: u32, message: Seq<char> },
    Shell { path: Seq<char>, message: Seq<char> },
}

impl View for Error {
    type V = ErrorView;

    open spec fn view(&self) -> ErrorView {
        match self {
            Error::Passwd { uid, message } => ErrorView::Passwd { uid: *uid, message: message@ },
            Error::Shell { path, message } => ErrorView::Shell { path: path@, message: message@ },
        }
    }
}

/// The text of an error.
pub open spec fn error_text(error: ErrorView) -> Seq<char> {
    match error {
        ErrorView::Passwd { uid, message } => "cannot resolve daemon account (uid "@
            + text::decimal(uid as nat) + "): "@ + message,
        ErrorView::Shell { path, message } => "invalid shell "@ + path + ": "@ + message,
    }
}

impl Error {
    /// The operator-facing description.
    pub fn message(&self) -> (r: String)
        ensures
            r@ == error_text(self@),
    {
        match self {
            Error::Passwd { uid, message } => text::cat4(
                "cannot resolve daemon account (uid ",
                text::decimal_text(*uid as u64).as_str(),
                "): ",
                message.as_str(),
            ),
            Error::Shell { path, message } => text::cat4(
                "invalid shell ",
                path.as_str(),
                ": ",
                message.as_str(),
            ),
        }
    }
}

/// What the account database answered for a uid.
#[derive(Debug)]
pub enum PasswdLookup {
    Failed { message: String },
    Missing,
    Found { name: String, home: String, shell: String },
}

/// The account that a lookup resolves to.
pub open spec fn account_outcome(uid: u32, lookup: PasswdLookup) -> Result<AccountView, ErrorView> {
    match lookup {
        PasswdLookup::Failed { message } => Err(ErrorView::Passwd { uid, message: message@ }),
        PasswdLookup::Missing => Err(
            ErrorView::Passwd { uid, message: "no passwd entry for the daemon uid"@ },
        ),
        PasswdLookup::Found { name, home, shell } => if name@.len() == 0 || home@.len() == 0 {
            Err(ErrorView::Passwd { uid, message: "passwd entry has no name or home directory"@ })
        } else {
            Ok(AccountView { name: name@, home: home@, shell: shell@ })
        },
    }
}

fn is_empty(s: &String) -> (r: bool)
    ensures
        r == (s@.len() == 0),
{
    text::chars_of(s.as_str()).len() == 0
}

/// The account of the daemon's effective uid, from its passwd entry.
pub fn current_account(uid: u32, lookup: PasswdLookup) -> (r: Result<Account, Error>)
    ensures
        match account_outcome(uid, lookup) {
            Ok(expected) => r matches Ok(account) && account@ == expected,
            Err(expected) => r matches Err(error) && error@ == expected,
        },
{
    match lookup {
        PasswdLookup::Failed { message } => Err(Error::Passwd { uid, message }),
        PasswdLookup::Missing => Err(
            Error::Passwd {
                uid,
                message: String::from_str("no passwd entry for the daemon uid"),
            },
        ),
        PasswdLookup::Found { name, home, shell } => {
            if is_empty(&name) || is_empty(&home) {
                return Err(
                    Error::Passwd {
                        uid,
                        message: String::from_str("passwd entry has no name or home directory"),
                    },
                );
            }
            Ok(Account { name, home, shell })
        },
    }
}

/// The shell that a passwd entry names, or `/bin/sh` for an empty one.
pub open spec fn login_shell(shell: Seq<char>) -> Seq<char> {
    if shell.len() == 0 {
        "/bin/sh"@
    } else {
        shell
    }
}

impl Account {
    /// The host-mode login shell: the passwd shell, falling back to `/bin/sh`
    /// only when the passwd entry's shell field is empty.
    pub fn host_shell(&self) -> (r: String)
        ensures
            r@ == login_shell(self@.shell),
    {
        self.login_shell_path(&self.shell)
    }

    /// The sandbox shell for this daemon: the configured absolute path, or the
    /// account login shell with the same `/bin/sh` fallback rule.
    pub fn sandbox_shell(&self, config: &Config) -> (r: Result<String, Error>)
        ensures
            r matches Ok(path) && path@ == (match config@.sandbox_shell {
                Some(configured) => configured,
                None => login_shell(self@.shell),
            }),
    {
        match config.sandbox_shell() {
            Some(configured) => Ok(configured.to_owned()),
            None => Ok(self.login_shell_path(&self.shell)),
        }
    }

    fn login_shell_path(&self, shell: &String) -> (r: String)
        ensures
            r@ == login_shell(shell@),
    {
        if is_empty(shell) {
            String::from_str("/bin/sh")
        } else {
            shell.clone()
        }
    }
}

/// What the system reports about a shell: a stat with links followed, and
/// whether the daemon user may execute it.
#[derive(Debug)]
pub enum ShellFacts {
    Failed { source: String },
    Found { is_file: bool, executable: bool },
}

/// Why a shell is refused, if it is.
pub open spec fn shell_problem(path: Seq<char>, facts: ShellFacts) -> Option<Seq<char>> {
    match facts {
        ShellFacts::Failed { source } => Some("cannot stat shell: "@ + source@),
        ShellFacts::Found { is_file, executable } => if !is_file {
            Some("shell is not a regular file"@)
        } else if text::occurs(path, '\0') {
            Some("shell path contains NUL"@)
        } else if !executable {
            Some("shell is not executable by the daemon user"@)
        } else {
            None
        },
    }
}

/// Validate that `path` can actually be executed by the daemon: a regular
/// file with the executable bit reachable for this user.
pub fn validate_executable(path: &str, facts: ShellFacts) -> (r: Result<(), Error>)
    ensures
        match shell_problem(path@, facts) {
            None => r is Ok,
            Some(message) => r matches Err(error) && error@ == (ErrorView::Shell {
                path: path@,
                message,
            }),
        },
{
    let message = match facts {
        ShellFacts::Failed { source } => text::cat2("cannot stat shell: ", source.as_str()),
        ShellFacts::Found { is_file, executable } => {
            let chars = text::chars_of(path);
            if !is_file {
                String::from_str("shell is not a regular file")
            } else if text::has_char(chars.as_slice(), '\0') {
                String::from_str("shell path contains NUL")
            } else if !executable {
                String::from_str("shell is not executable by the daemon user")
            } else {
                return Ok(());
            }
        },
    };
    Err(Error::Shell { path: path.to_owned(), message })
}

/// Every account has a login shell to run.
pub proof fn login_shells_are_never_empty(shell: Seq<char>)
    ensures
        login_shell(shell).len() > 0,
{
    reveal_strlit("/bin/sh");
}

/// An account is usable exactly when its entry was found with a name and a home
/// directory, and is then taken as it stands.
pub proof fn accounts_are_taken_as_found(uid: u32, lookup: PasswdLookup)
    ensures
        account_outcome(uid, lookup) is Ok <==> (lookup matches PasswdLookup::Found {
            name,
            home,
            ..
        } && name@.len() > 0 && home@.len() > 0),
        account_outcome(uid, lookup) matches Ok(account) ==> (lookup matches PasswdLookup::Found {
            name,
            home,
            shell,
        } && account.name == name@ && account.home == home@ && account.shell == shell@),
        account_outcome(uid, lookup) matches Err(error) ==> (error matches ErrorView::Passwd {
            uid: named,
            ..
        } && named == uid),
{
}

/// A shell can be used exactly when it is a regular executable file whose path
/// holds no NUL; an account without a shell has the system's.
pub proof fn usable_shells_are_executable_files(
    path: Seq<char>,
    facts: ShellFacts,
    shell: Seq<char>,
)
    ensures
        shell_problem(path, facts) is None <==> (facts matches ShellFacts::Found {
            is_file,
            executable,
        } && is_file && executable && !path.contains('\0')),
        login_shell(shell) == shell || (shell.len() == 0 && login_shell(shell) == "/bin/sh"@),
{
    text::occurring_means_some_position(path, '\0');
}

/// A sandbox runs the configured shell, or else the account's own; the host's
/// shell is always the account's own.
pub proof fn configured_shells_win(
    account: Account,
    config: Config,
    r: Result<String, Error>,
    host: String,
)
    requires
        call_ensures(Account::sandbox_shell, (&account, &config), r),
        call_ensures(Account::host_shell, (&account,), host),
    ensures
        r is Ok,
        config@.sandbox_shell matches Some(configured) ==> r->Ok_0@ == configured,
        config@.sandbox_shell is None ==> r->Ok_0@ == host@,
        account@.shell.len() > 0 ==> host@ == account@.shell,
        account@.shell.len() == 0 ==> host@ == "/bin/sh"@,
{
}

/// An error ends with what is wrong.
pub proof fn messages_end_with_their_cause(error: ErrorView)
    ensures
        match error {
            ErrorView::Passwd { message, .. } => message.is_suffix_of(error_text(error)),
            ErrorView::Shell { path, message } => (path + ": "@ + message).is_suffix_of(
                error_text(error),
            ),
        },
{
    match error {
        ErrorView::Passwd { uid, message } => {
            text::lemma_ends(
                "cannot resolve daemon account (uid "@ + text::decimal(uid as nat) + "): "@,
                message,
            );
        },
        ErrorView::Shell { path, message } => {
            let end = path + ": "@ + message;
            text::lemma_ends("invalid shell "@, end);
            assert(error_text(error) =~= "invalid shell "@ + end);
        },
    }
}

} // verus!
