//! The curated default paths of each platform.

use vstd::prelude::*;

verus! {

/// The platforms the daemon distinguishes.
#[derive(Debug, Clone, Copy, PartialEq, Eq, Structural)]
pub enum Platform {
    Linux,
    Macos,
    Other,
}

/// Why a curated path is readable inside the sandbox.
#[derive(Debug, Clone, Copy, PartialEq, Eq, Structural)]
pub enum ReadPathClass {
    /// Executables, runtime libraries, and dynamic-loader data required to
    /// start and run the configured shell and ordinary commands.
    ExecutableRuntime,
    /// Read-only shared system data: TLS trust, name resolution, locale, and
    /// account databases.
    SystemData,
    /// Minimal terminal and device paths required by the platform.
    TerminalDevice,
}

/// A curated path list.
pub type Curated = Seq<(Seq<char>, ReadPathClass)>;

/// The contents of a curated path list.
pub open spec fn entries(list: Seq<(&'static str, ReadPathClass)>) -> Curated {
    list.map_values(|entry: (&'static str, ReadPathClass)| (entry.0@, entry.1))
}

/// The readable paths on Linux: system binaries and libraries, TLS trust
/// stores, resolver and loader data, locale, account databases, the remote
/// shell startup file, and the entropy devices. `/tmp`, `/proc`, `/sys`, and
/// `/dev/pts` are deliberately absent; `/dev/tty` is the only terminal grant.
pub open spec fn linux_reads() -> Curated {
    seq![
        ("/usr"@, ReadPathClass::ExecutableRuntime),
        ("/lib"@, ReadPathClass::ExecutableRuntime),
        ("/lib64"@, ReadPathClass::ExecutableRuntime),
        ("/bin"@, ReadPathClass::ExecutableRuntime),
        ("/sbin"@, ReadPathClass::ExecutableRuntime),
        ("/etc/ssl"@, ReadPathClass::SystemData),
        ("/etc/pki"@, ReadPathClass::SystemData),
        ("/etc/ca-certificates"@, ReadPathClass::SystemData),
        ("/etc/bash.bashrc"@, ReadPathClass::SystemData),
        ("/etc/resolv.conf"@, ReadPathClass::SystemData),
        ("/etc/hosts"@, ReadPathClass::SystemData),
        ("/etc/host.conf"@, ReadPathClass::SystemData),
        ("/etc/nsswitch.conf"@, ReadPathClass::SystemData),
        ("/etc/ld.so.cache"@, ReadPathClass::SystemData),
        ("/etc/localtime"@, ReadPathClass::SystemData),
        ("/etc/passwd"@, ReadPathClass::SystemData),
        ("/etc/group"@, ReadPathClass::SystemData),
        ("/dev/zero"@, ReadPathClass::SystemData),
        ("/dev/urandom"@, ReadPathClass::SystemData),
        ("/dev/random"@, ReadPathClass::SystemData),
        ("/dev/tty"@, ReadPathClass::TerminalDevice),
    ]
}

/// The readable paths on macOS: runtime dependencies and the named resolver,
/// time, and TLS inputs; `/private/etc` is never granted wholesale.
pub open spec fn macos_reads() -> Curated {
    seq![
        ("/usr"@, ReadPathClass::ExecutableRuntime),
        ("/bin"@, ReadPathClass::ExecutableRuntime),
        ("/sbin"@, ReadPathClass::ExecutableRuntime),
        ("/System"@, ReadPathClass::ExecutableRuntime),
        ("/Library/Frameworks"@, ReadPathClass::ExecutableRuntime),
        ("/Library/Apple/System/Library"@, ReadPathClass::ExecutableRuntime),
        ("/opt/homebrew"@, ReadPathClass::ExecutableRuntime),
        ("/private/var/select"@, ReadPathClass::SystemData),
        ("/private/var/db/timezone"@, ReadPathClass::SystemData),
        ("/private/etc/hosts"@, ReadPathClass::SystemData),
        ("/private/etc/resolv.conf"@, ReadPathClass::SystemData),
        ("/private/etc/localtime"@, ReadPathClass::SystemData),
        ("/private/etc/ssl"@, ReadPathClass::SystemData),
        ("/dev/zero"@, ReadPathClass::SystemData),
        ("/dev/urandom"@, ReadPathClass::SystemData),
        ("/dev/random"@, ReadPathClass::SystemData),
        ("/dev/fd"@, ReadPathClass::SystemData),
    ]
}

/// The readable paths of a platform.
pub open spec fn reads(platform: Platform) -> Curated {
    match platform {
        Platform::Linux => linux_reads(),
        Platform::Macos => macos_reads(),
        Platform::Other => seq![],
    }
}

/// The writable device paths of a platform.
pub open spec fn writes(platform: Platform) -> Seq<Seq<char>> {
    match platform {
        Platform::Linux | Platform::Macos => seq!["/dev/null"@],
        Platform::Other => seq![],
    }
}

fn linux_read_paths() -> (r: Vec<(&'static str, ReadPathClass)>)
    ensures
        entries(r@) == linux_reads(),
{
    let list: Vec<(&'static str, ReadPathClass)> = vec![
        ("/usr", ReadPathClass::ExecutableRuntime),
        ("/lib", ReadPathClass::ExecutableRuntime),
        ("/lib64", ReadPathClass::ExecutableRuntime),
        ("/bin", ReadPathClass::ExecutableRuntime),
        ("/sbin", ReadPathClass::ExecutableRuntime),
        ("/etc/ssl", ReadPathClass::SystemData),
        ("/etc/pki", ReadPathClass::SystemData),
        ("/etc/ca-certificates", ReadPathClass::SystemData),
        ("/etc/bash.bashrc", ReadPathClass::SystemData),
        ("/etc/resolv.conf", ReadPathClass::SystemData),
        ("/etc/hosts", ReadPathClass::SystemData),
        ("/etc/host.conf", ReadPathClass::SystemData),
        ("/etc/nsswitch.conf", ReadPathClass::SystemData),
        ("/etc/ld.so.cache", ReadPathClass::SystemData),
        ("/etc/localtime", ReadPathClass::SystemData),
        ("/etc/passwd", ReadPathClass::SystemData),
        ("/etc/group", ReadPathClass::SystemData),
        ("/dev/zero", ReadPathClass::SystemData),
        ("/dev/urandom", ReadPathClass::SystemData),
        ("/dev/random", ReadPathClass::SystemData),
        ("/dev/tty", ReadPathClass::TerminalDevice),
    ];
    assert(entries(list@) =~= linux_reads());
    list
}

fn macos_read_paths() -> (r: Vec<(&'static str, ReadPathClass)>)
    ensures
        entries(r@) == macos_reads(),
{
    let list: Vec<(&'static str, ReadPathClass)> = vec![
        ("/usr", ReadPathClass::ExecutableRuntime),
        ("/bin", ReadPathClass::ExecutableRuntime),
        ("/sbin", ReadPathClass::ExecutableRuntime),
        ("/System", ReadPathClass::ExecutableRuntime),
        ("/Library/Frameworks", ReadPathClass::ExecutableRuntime),
        ("/Library/Apple/System/Library", ReadPathClass::ExecutableRuntime),
        ("/opt/homebrew", ReadPathClass::ExecutableRuntime),
        ("/private/var/select", ReadPathClass::SystemData),
        ("/private/var/db/timezone", ReadPathClass::SystemData),
        ("/private/etc/hosts", ReadPathClass::SystemData),
        ("/private/etc/resolv.conf", ReadPathClass::SystemData),
        ("/private/etc/localtime", ReadPathClass::SystemData),
        ("/private/etc/ssl", ReadPathClass::SystemData),
        ("/dev/zero", ReadPathClass::SystemData),
        ("/dev/urandom", ReadPathClass::SystemData),
        ("/dev/random", ReadPathClass::SystemData),
        ("/dev/fd", ReadPathClass::SystemData),
    ];
    assert(entries(list@) =~= macos_reads());
    list
}

/// The readable paths of a platform, frozen as (path, class).
pub fn curated_read_paths(platform: Platform) -> (r: Vec<(&'static str, ReadPathClass)>)
    ensures
        entries(r@) == reads(platform),
{
    match platform {
        Platform::Linux => linux_read_paths(),
        Platform::Macos => macos_read_paths(),
        Platform::Other => {
            let list: Vec<(&'static str, ReadPathClass)> = Vec::new();
            assert(entries(list@) =~= reads(Platform::Other));
            list
        },
    }
}

/// The contents of a list of literals.
pub open spec fn literals(list: Seq<&'static str>) -> Seq<Seq<char>> {
    list.map_values(|entry: &'static str| entry@)
}

/// The writable device paths of a platform. Shell commands may discard output
/// through `/dev/null`; no broader device grant is part of the policy.
pub fn curated_write_paths(platform: Platform) -> (r: Vec<&'static str>)
    ensures
        literals(r@) == writes(platform),
{
    let mut list: Vec<&'static str> = Vec::new();
    match platform {
        Platform::Linux | Platform::Macos => {
            list.push("/dev/null");
        },
        Platform::Other => {},
    }
    assert(literals(list@) =~= writes(platform));
    list
}

/// A path of a platform, as part of its executable runtime or as data.
pub open spec fn is_listed(platform: Platform, path: Seq<char>, runtime: bool) -> bool {
    let list = reads(platform);
    exists|i: int|
        0 <= i < list.len() && (#[trigger] list[i]).0 == path && (list[i].1
            == ReadPathClass::ExecutableRuntime) == runtime
}

/// Linux executes from the system directories and reads certificates, name
/// resolution, accounts and devices, none of which it executes.
pub proof fn linux_reads_the_system_and_its_configuration(path: Seq<char>)
    ensures
        is_listed(Platform::Linux, path, true) <==> {
            ||| path == "/usr"@
            ||| path == "/lib"@
            ||| path == "/lib64"@
            ||| path == "/bin"@
            ||| path == "/sbin"@
        },
        is_listed(Platform::Linux, path, false) <==> {
            ||| path == "/etc/ssl"@
            ||| path == "/etc/pki"@
            ||| path == "/etc/ca-certificates"@
            ||| path == "/etc/bash.bashrc"@
            ||| path == "/etc/resolv.conf"@
            ||| path == "/etc/hosts"@
            ||| path == "/etc/host.conf"@
            ||| path == "/etc/nsswitch.conf"@
            ||| path == "/etc/ld.so.cache"@
            ||| path == "/etc/localtime"@
            ||| path == "/etc/passwd"@
            ||| path == "/etc/group"@
            ||| path == "/dev/zero"@
            ||| path == "/dev/urandom"@
            ||| path == "/dev/random"@
            ||| path == "/dev/tty"@
        },
{
    let list = reads(Platform::Linux);
    assert(list[0].0 == "/usr"@);
    assert(list[1].0 == "/lib"@);
    assert(list[2].0 == "/lib64"@);
    assert(list[3].0 == "/bin"@);
    assert(list[4].0 == "/sbin"@);
    assert(list[5].0 == "/etc/ssl"@);
    assert(list[6].0 == "/etc/pki"@);
    assert(list[7].0 == "/etc/ca-certificates"@);
    assert(list[8].0 == "/etc/bash.bashrc"@);
    assert(list[9].0 == "/etc/resolv.conf"@);
    assert(list[10].0 == "/etc/hosts"@);
    assert(list[11].0 == "/etc/host.conf"@);
    assert(list[12].0 == "/etc/nsswitch.conf"@);
    assert(list[13].0 == "/etc/ld.so.cache"@);
    assert(list[14].0 == "/etc/localtime"@);
    assert(list[15].0 == "/etc/passwd"@);
    assert(list[16].0 == "/etc/group"@);
    assert(list[17].0 == "/dev/zero"@);
    assert(list[18].0 == "/dev/urandom"@);
    assert(list[19].0 == "/dev/random"@);
    assert(list[20].0 == "/dev/tty"@);
}

/// macOS executes from the system directories and Homebrew and reads its
/// configuration and devices, none of which it executes.
pub proof fn macos_reads_the_system_and_its_configuration(path: Seq<char>)
    ensures
        is_listed(Platform::Macos, path, true) <==> {
            ||| path == "/usr"@
            ||| path == "/bin"@
            ||| path == "/sbin"@
            ||| path == "/System"@
            ||| path == "/Library/Frameworks"@
            ||| path == "/Library/Apple/System/Library"@
            ||| path == "/opt/homebrew"@
        },
        is_listed(Platform::Macos, path, false) <==> {
            ||| path == "/private/var/select"@
            ||| path == "/private/var/db/timezone"@
            ||| path == "/private/etc/hosts"@
            ||| path == "/private/etc/resolv.conf"@
            ||| path == "/private/etc/localtime"@
            ||| path == "/private/etc/ssl"@
            ||| path == "/dev/zero"@
            ||| path == "/dev/urandom"@
            ||| path == "/dev/random"@
            ||| path == "/dev/fd"@
        },
{
    let list = reads(Platform::Macos);
    assert(list[0].0 == "/usr"@);
    assert(list[1].0 == "/bin"@);
    assert(list[2].0 == "/sbin"@);
    assert(list[3].0 == "/System"@);
    assert(list[4].0 == "/Library/Frameworks"@);
    assert(list[5].0 == "/Library/Apple/System/Library"@);
    assert(list[6].0 == "/opt/homebrew"@);
    assert(list[7].0 == "/private/var/select"@);
    assert(list[8].0 == "/private/var/db/timezone"@);
    assert(list[9].0 == "/private/etc/hosts"@);
    assert(list[10].0 == "/private/etc/resolv.conf"@);
    assert(list[11].0 == "/private/etc/localtime"@);
    assert(list[12].0 == "/private/etc/ssl"@);
    assert(list[13].0 == "/dev/zero"@);
    assert(list[14].0 == "/dev/urandom"@);
    assert(list[15].0 == "/dev/random"@);
    assert(list[16].0 == "/dev/fd"@);
}

/// Every launch may write to the null device where there is one, and to no other
/// curated path; an unsupported platform grants nothing.
pub proof fn only_the_null_device_is_writable(platform: Platform, path: Seq<char>)
    ensures
        writes(platform).contains(path) <==> platform != Platform::Other && path == "/dev/null"@,
        reads(Platform::Other).len() == 0,
{
    if platform != Platform::Other {
        assert(writes(platform)[0] == "/dev/null"@);
    }
}

/// The controlling terminal of Linux is granted as a terminal, and nothing else
/// is: every other path is part of the runtime or system data.
pub proof fn only_the_terminal_is_a_terminal(
    platform: Platform,
    r: Vec<(&'static str, ReadPathClass)>,
)
    requires
        call_ensures(curated_read_paths, (platform,), r),
    ensures
        forall|i: int|
            0 <= i < r@.len() && (#[trigger] r@[i]).1 == ReadPathClass::TerminalDevice ==> platform
                == Platform::Linux && r@[i].0@ == "/dev/tty"@,
        platform == Platform::Linux ==> exists|i: int|
            0 <= i < r@.len() && (#[trigger] r@[i]).1 == ReadPathClass::TerminalDevice,
{
    let list = entries(r@);
    let linux = linux_reads();
    let macos = macos_reads();
    assert(list == reads(platform));
    assert(list.len() == r@.len());
    assert(linux.len() == 21 && macos.len() == 17);
    assert(linux[20] == ("/dev/tty"@, ReadPathClass::TerminalDevice));
    assert forall|i: int|
        0 <= i < linux.len() && (#[trigger] linux[i]).1
            == ReadPathClass::TerminalDevice implies i == 20 by {}
    assert forall|i: int| 0 <= i < macos.len() implies (#[trigger] macos[i]).1
        != ReadPathClass::TerminalDevice by {}
    assert forall|i: int|
        0 <= i < r@.len() && (#[trigger] r@[i]).1 == ReadPathClass::TerminalDevice implies platform
        == Platform::Linux && r@[i].0@ == "/dev/tty"@ by {
        assert(list[i] == (r@[i].0@, r@[i].1));
    }
    if platform == Platform::Linux {
        assert(list[20] == (r@[20].0@, r@[20].1));
        assert(r@[20].1 == ReadPathClass::TerminalDevice);
    }
}

} // verus!
