//! The lifecycle of one launched process.

use crate::platform::curated::Platform;
use crate::platform::error::{self, LaunchError};
use vstd::prelude::*;

verus! {

/// How a process ended.
#[derive(Debug, Clone, Copy, PartialEq, Eq, Structural)]
pub enum ProcessExit {
    Code(i32),
    Signal { number: i32, core_dumped: bool },
}

/// What a wait reported: an exit code, a signal, or neither.
#[derive(Debug, Clone, Copy, PartialEq, Eq)]
pub struct WaitStatus {
    pub code: Option<i32>,
    pub signal: Option<i32>,
    pub core_dumped: bool,
}

/// How a process ended: a code first, then a signal, then 255.
pub open spec fn exit_of(status: WaitStatus) -> ProcessExit {
    match (status.code, status.signal) {
        (Some(code), _) => ProcessExit::Code(code),
        (None, Some(number)) => ProcessExit::Signal { number, core_dumped: status.core_dumped },
        (None, None) => ProcessExit::Code(255),
    }
}

/// The end of a process, from what its wait reported.
pub fn process_exit(status: Option<WaitStatus>) -> (r: Result<ProcessExit, LaunchError>)
    ensures
        match status {
            Some(status) => r == Ok::<ProcessExit, LaunchError>(exit_of(status)),
            None => r matches Err(error) && error@ == error::plain("sandbox process wait failed"@),
        },
{
    match status {
        Some(status) => Ok(
            if let Some(code) = status.code {
                ProcessExit::Code(code)
            } else if let Some(number) = status.signal {
                ProcessExit::Signal { number, core_dumped: status.core_dumped }
            } else {
                ProcessExit::Code(255)
            },
        ),
        None => Err(LaunchError::new("sandbox process wait failed")),
    }
}

/// The default termination request.
pub const SIGTERM: i32 = 15;

/// The termination that cannot be caught.
pub const SIGKILL: i32 = 9;

/// A signal to one process group.
#[derive(Debug, Clone, Copy, PartialEq, Eq, Structural)]
pub struct GroupSignal {
    pub group: u32,
    pub signal: i32,
}

/// The signal to a launch's own group. Groups 0 and 1 are never signalled: they
/// are the daemon's own group and init's.
pub open spec fn group_signal(pid: u32, signal: i32) -> Option<GroupSignal> {
    if pid <= 1 {
        None
    } else {
        Some(GroupSignal { group: pid, signal })
    }
}

/// Signal one launch's session process group.
pub fn kill_process_group(pid: u32, signal: i32) -> (r: Option<GroupSignal>)
    ensures
        r == group_signal(pid, signal),
{
    if pid <= 1 {
        None
    } else {
        Some(GroupSignal { group: pid, signal })
    }
}

/// How long a killed group may take to disappear.
pub const GROUP_SETTLE_MILLIS: u64 = 1000;

/// What is left to do with a launch's group once its leader has ended.
#[derive(Debug, Clone, Copy, PartialEq, Eq, Structural)]
pub enum Aftermath {
    /// Descendants survive: the sandbox's process domain owns them.
    Leave,
    /// No domain owns them: end the group, and give it a while to disappear.
    EndGroup { signal: Option<GroupSignal>, settle_millis: u64 },
}

/// What is left to do once the leader of a group has ended.
pub open spec fn aftermath_of(platform: Platform, pid: u32) -> Aftermath {
    match platform {
        Platform::Macos => Aftermath::EndGroup {
            signal: group_signal(pid, SIGKILL),
            settle_millis: GROUP_SETTLE_MILLIS,
        },
        _ => Aftermath::Leave,
    }
}

/// Decide what is left to do once the leader of a group has ended.
pub fn aftermath(platform: Platform, pid: u32) -> (r: Aftermath)
    ensures
        r == aftermath_of(platform, pid),
{
    match platform {
        Platform::Macos => Aftermath::EndGroup {
            signal: kill_process_group(pid, SIGKILL),
            settle_millis: GROUP_SETTLE_MILLIS,
        },
        _ => Aftermath::Leave,
    }
}

/// What a window-size request does.
#[derive(Debug, Clone, Copy, PartialEq, Eq, Structural)]
pub enum Resize {
    /// Nothing is asked for: it succeeded.
    Nothing,
    /// There is no terminal: it failed.
    NoTerminal,
    /// Apply the size to the terminal.
    Apply { rows: u32, cols: u32 },
}

/// The control of one launched process: its session leader, whether its
/// terminal is still open here, and how far its end has come.
#[derive(Debug)]
pub struct ProcessControl {
    pid: u32,
    terminal: bool,
    termination_requested: bool,
    cleanup_complete: bool,
}

/// The contents of a [`ProcessControl`].
pub struct ControlView {
    pub pid: u32,
    pub terminal: bool,
    pub termination_requested: bool,
    pub cleanup_complete: bool,
}

impl View for ProcessControl {
    type V = ControlView;

    closed spec fn view(&self) -> ControlView {
        ControlView {
            pid: self.pid,
            terminal: self.terminal,
            termination_requested: self.termination_requested,
            cleanup_complete: self.cleanup_complete,
        }
    }
}

/// The group a forwarded signal goes to: the terminal's foreground group when
/// it is known, otherwise the session leader's own.
pub open spec fn signal_group(control: ControlView, foreground: Option<i32>) -> u32 {
    match foreground {
        Some(group) => if control.terminal && group > 1 {
            group as u32
        } else {
            control.pid
        },
        None => control.pid,
    }
}

impl ProcessControl {
    /// The control of a process that was just launched.
    pub fn new(pid: u32, terminal: bool) -> (r: ProcessControl)
        ensures
            r@ == (ControlView {
                pid,
                terminal,
                termination_requested: false,
                cleanup_complete: false,
            }),
    {
        ProcessControl {
            pid,
            terminal,
            termination_requested: false,
            cleanup_complete: false,
        }
    }

    /// The process has ended and everything it held is released.
    pub fn mark_cleanup_complete(&mut self)
        ensures
            final(self)@ == (ControlView {
                terminal: false,
                cleanup_complete: true,
                ..old(self)@
            }),
    {
        self.terminal = false;
        self.cleanup_complete = true;
    }

    /// Whether everything the process held is released.
    pub fn cleanup_complete(&self) -> (r: bool)
        ensures
            r == self@.cleanup_complete,
    {
        self.cleanup_complete
    }

    /// Ask the process to end. Only the first request sends a signal.
    pub fn terminate(&mut self) -> (r: Option<GroupSignal>)
        ensures
            final(self)@ == (ControlView { termination_requested: true, ..old(self)@ }),
            r == (if old(self)@.termination_requested {
                None
            } else {
                group_signal(old(self)@.pid, SIGTERM)
            }),
    {
        if self.termination_requested {
            return None;
        }
        self.termination_requested = true;
        kill_process_group(self.pid, SIGTERM)
    }

    /// End the process. Every request sends the signal.
    pub fn force_terminate(&mut self) -> (r: Option<GroupSignal>)
        ensures
            final(self)@ == (ControlView { termination_requested: true, ..old(self)@ }),
            r == group_signal(old(self)@.pid, SIGKILL),
    {
        self.termination_requested = true;
        kill_process_group(self.pid, SIGKILL)
    }

    /// Forward a user-requested signal: to the terminal's foreground group when
    /// it is known, otherwise to the session leader's own group.
    pub fn signal(&self, number: i32, foreground: Option<i32>) -> (r: Option<GroupSignal>)
        ensures
            r == (if self@.pid <= 1 {
                None
            } else {
                Some(GroupSignal { group: signal_group(self@, foreground), signal: number })
            }),
    {
        if self.pid <= 1 {
            return None;
        }
        let group: u32 = match foreground {
            Some(group) => {
                if self.terminal && group > 1 {
                    group as u32
                } else {
                    self.pid
                }
            },
            None => self.pid,
        };
        Some(GroupSignal { group, signal: number })
    }

    /// Decide a window-size request.
    pub fn resize(&self, rows: u32, cols: u32) -> (r: Resize)
        ensures
            r == (if rows == 0 && cols == 0 {
                Resize::Nothing
            } else if !self@.terminal {
                Resize::NoTerminal
            } else {
                Resize::Apply { rows, cols }
            }),
    {
        if rows == 0 && cols == 0 {
            Resize::Nothing
        } else if !self.terminal {
            Resize::NoTerminal
        } else {
            Resize::Apply { rows, cols }
        }
    }

    /// Close this channel's terminal. What the hangup ends and what survives is
    /// the kernel's decision; no signal is sent from here.
    pub fn detach_transport(&mut self)
        ensures
            final(self)@ == (ControlView { terminal: false, ..old(self)@ }),
    {
        self.terminal = false;
    }
}

/// No request ever addresses the daemon's own group or init's, whatever the
/// terminal reports.
pub proof fn signals_stay_in_the_launch(control: ControlView, foreground: Option<i32>, number: i32)
    ensures
        group_signal(control.pid, number) matches Some(target) ==> target.group > 1,
        control.pid > 1 ==> signal_group(control, foreground) > 1,
{
}

/// After the terminal is closed, signals go to the launch's own group only and
/// sizes are refused.
pub proof fn detached_processes_have_no_terminal(control: ControlView, foreground: Option<i32>)
    requires
        !control.terminal,
    ensures
        signal_group(control, foreground) == control.pid,
{
}

/// An exit code is reported as it is, a signal only where there is no code, and
/// a status with neither as code 255.
pub proof fn exits_are_reported_as_they_are(status: WaitStatus)
    ensures
        status.code matches Some(code) ==> exit_of(status) == ProcessExit::Code(code),
        status.code is None ==> match status.signal {
            Some(number) => exit_of(status) == (ProcessExit::Signal {
                number,
                core_dumped: status.core_dumped,
            }),
            None => exit_of(status) == ProcessExit::Code(255),
        },
{
}

/// A signal goes to the group of the process, unless that would be everybody's
/// or the init process's; the foreground group stands in for it only on a
/// terminal.
pub proof fn signals_go_to_the_group(
    control: ControlView,
    foreground: Option<i32>,
    pid: u32,
    number: i32,
)
    ensures
        group_signal(pid, number) is Some <==> pid >= 2,
        group_signal(pid, number) matches Some(target) ==> target.group == pid && target.signal
            == number,
        signal_group(control, foreground) == match foreground {
            Some(group) => if control.terminal && group >= 2 {
                group as int
            } else {
                control.pid as int
            },
            None => control.pid as int,
        },
{
}

/// Only macOS ends the group of a process that has exited: it is killed, and
/// given a second to settle.
pub proof fn only_macos_ends_groups(platform: Platform, pid: u32)
    ensures
        aftermath_of(platform, pid) is EndGroup <==> platform == Platform::Macos,
        aftermath_of(platform, pid) matches Aftermath::EndGroup { signal, settle_millis } ==> {
            &&& settle_millis == 1000
            &&& signal is Some <==> pid >= 2
            &&& signal matches Some(target) ==> target.group == pid && target.signal == 9
        },
{
}

/// Termination asks the group once, with SIGTERM; forcing it kills the group
/// every time. Both are remembered, and neither changes anything else.
pub proof fn termination_is_asked_for_once(
    control: &mut ProcessControl,
    first: Option<GroupSignal>,
    later: &mut ProcessControl,
    second: Option<GroupSignal>,
    forced: &mut ProcessControl,
    killed: Option<GroupSignal>,
)
    requires
        call_ensures(ProcessControl::terminate, (control,), first),
        call_ensures(ProcessControl::terminate, (later,), second),
        call_ensures(ProcessControl::force_terminate, (forced,), killed),
        final(control)@ == old(later)@,
        final(later)@ == old(forced)@,
        !old(control)@.termination_requested,
        old(control)@.pid >= 2,
    ensures
        first matches Some(signal) && signal.group == old(control)@.pid && signal.signal == 15,
        second is None,
        killed matches Some(signal) && signal.group == old(control)@.pid && signal.signal == 9,
        final(forced)@.termination_requested,
        final(forced)@.pid == old(control)@.pid,
        final(forced)@.terminal == old(control)@.terminal,
        final(forced)@.cleanup_complete == old(control)@.cleanup_complete,
{
}

/// A window is resized exactly on a terminal, to the size that was asked for; a
/// size of nothing changes nothing.
pub proof fn only_terminals_are_resized(control: ProcessControl, rows: u32, cols: u32, r: Resize)
    requires
        call_ensures(ProcessControl::resize, (&control, rows, cols), r),
    ensures
        r is Apply <==> control@.terminal && (rows != 0 || cols != 0),
        r matches Resize::Apply { rows: height, cols: width } ==> height == rows && width == cols,
        r is Nothing <==> rows == 0 && cols == 0,
{
}

/// A signal carries the number that was asked for to the group it goes to, and
/// goes nowhere for a process that has no group of its own.
pub proof fn signals_carry_their_number(
    control: ProcessControl,
    number: i32,
    foreground: Option<i32>,
    r: Option<GroupSignal>,
)
    requires
        call_ensures(ProcessControl::signal, (&control, number, foreground), r),
    ensures
        r is Some <==> control@.pid >= 2,
        r matches Some(signal) ==> signal.signal == number && (signal.group == control@.pid || (
        foreground matches Some(group) && signal.group == group)),
{
}

/// A process that is cleaned up or detached has no terminal any more, and only
/// the first is reported as cleaned up.
pub proof fn finished_processes_have_no_terminal(
    control: &mut ProcessControl,
    detached: &mut ProcessControl,
)
    requires
        call_ensures(ProcessControl::mark_cleanup_complete, (control,), ()),
        call_ensures(ProcessControl::detach_transport, (detached,), ()),
    ensures
        !final(control)@.terminal,
        final(control)@.cleanup_complete,
        final(control)@.pid == old(control)@.pid,
        !final(detached)@.terminal,
        final(detached)@.cleanup_complete == old(detached)@.cleanup_complete,
        final(detached)@.pid == old(detached)@.pid,
        final(detached)@.termination_requested == old(detached)@.termination_requested,
{
}

/// A process whose status could not be had is an error, and every other ends
/// with its own exit.
pub proof fn waits_report_the_exit(status: Option<WaitStatus>, r: Result<ProcessExit, LaunchError>)
    requires
        call_ensures(process_exit, (status,), r),
    ensures
        r is Ok <==> status is Some,
        status matches Some(found) ==> (found.code matches Some(code) ==> r == Ok::<
            ProcessExit,
            LaunchError,
        >(ProcessExit::Code(code))),
{
}

} // verus!
