//! Platform backend decisions.
//!
//! The backend owns three concerns that can be stated as pure decisions and
//! proved here, while the thin glue that talks to the operating system
//! performs them:
//!
//! * what a captured previous handler is (`PrevHandler`), as a tagged value
//!   instead of a raw function-pointer bit pattern;
//! * which default action a signal number carries, and therefore what
//!   delegation must do when no handler of ours consumes a notification;
//! * the mapping between abstract shutdown kinds and the raw platform
//!   notification identifiers (POSIX signal numbers, console control events).

use vstd::prelude::*;
use crate::ShutdownType;

verus! {

/// POSIX signal number for a hangup (Linux numbering, as are all below).
pub const SIGHUP: i32 = 1;
/// POSIX signal number for an interactive interrupt.
pub const SIGINT: i32 = 2;
/// POSIX signal number for an interactive quit.
pub const SIGQUIT: i32 = 3;
/// POSIX signal number for an illegal instruction.
pub const SIGILL: i32 = 4;
/// POSIX signal number for a trace trap.
pub const SIGTRAP: i32 = 5;
/// POSIX signal number for an abort.
pub const SIGABRT: i32 = 6;
/// POSIX signal number for a bus error.
pub const SIGBUS: i32 = 7;
/// POSIX signal number for an arithmetic fault.
pub const SIGFPE: i32 = 8;
/// POSIX signal number for the first user-defined signal.
pub const SIGUSR1: i32 = 10;
/// POSIX signal number for an invalid memory access.
pub const SIGSEGV: i32 = 11;
/// POSIX signal number for the second user-defined signal.
pub const SIGUSR2: i32 = 12;
/// POSIX signal number for a broken pipe.
pub const SIGPIPE: i32 = 13;
/// POSIX signal number for an alarm clock.
pub const SIGALRM: i32 = 14;
/// POSIX signal number for a termination request.
pub const SIGTERM: i32 = 15;
/// POSIX signal number for a child status change.
pub const SIGCHLD: i32 = 17;
/// POSIX signal number for continuing a stopped process.
pub const SIGCONT: i32 = 18;
/// POSIX signal number for an unblockable stop.
pub const SIGSTOP: i32 = 19;
/// POSIX signal number for an interactive stop.
pub const SIGTSTP: i32 = 20;
/// POSIX signal number for background terminal input.
pub const SIGTTIN: i32 = 21;
/// POSIX signal number for background terminal output.
pub const SIGTTOU: i32 = 22;
/// POSIX signal number for urgent socket data.
pub const SIGURG: i32 = 23;
/// POSIX signal number for exceeding the CPU limit.
pub const SIGXCPU: i32 = 24;
/// POSIX signal number for exceeding the file-size limit.
pub const SIGXFSZ: i32 = 25;
/// POSIX signal number for a virtual alarm clock.
pub const SIGVTALRM: i32 = 26;
/// POSIX signal number for a profiling alarm clock.
pub const SIGPROF: i32 = 27;
/// POSIX signal number for a window-size change.
pub const SIGWINCH: i32 = 28;
/// POSIX signal number for a pollable event.
pub const SIGPOLL: i32 = 29;
/// POSIX signal number for a bad system call.
pub const SIGSYS: i32 = 31;

/// Exit code used when the platform default for a terminating notification
/// is emulated, and when a notification finds no registered shutdown
/// callback. Both platforms document 3 as the conventional code, so external
/// supervisors observe the same exit status whether or not this component
/// installed a handler.
pub const TERMINATE_EXIT_CODE: i32 = 3;

/// Console control event: Ctrl+C.
pub const CTRL_C_EVENT: u32 = 0;
/// Console control event: Ctrl+Break.
pub const CTRL_BREAK_EVENT: u32 = 1;
/// Console control event: the console window is closing.
pub const CTRL_CLOSE_EVENT: u32 = 2;
/// Console control event: the user is logging off.
pub const CTRL_LOGOFF_EVENT: u32 = 5;
/// Console control event: the system is shutting down.
pub const CTRL_SHUTDOWN_EVENT: u32 = 6;

/// A previously installed platform handler, captured when this component
/// takes over a signal number. The raw platform representation (a function
/// pointer or a reserved constant) is replaced by a tagged value; an explicit
/// handler is carried as an opaque handle that the platform glue knows how to
/// re-invoke.
#[derive(Clone, Copy, Debug, PartialEq, Eq, Structural)]
pub enum PrevHandler {
    /// Nothing was installed: the platform default action applies.
    Default,
    /// The signal was explicitly ignored.
    Ignored,
    /// An explicit non-default handler was installed.
    Explicit {
        /// Opaque identifier for the captured handler installation.
        handle: u64,
    },
}

/// The default action a platform attaches to a signal number when no handler
/// is installed.
#[derive(Clone, Copy, Debug, PartialEq, Eq, Structural)]
pub enum DefaultAction {
    /// The signal is discarded.
    NoOp,
    /// The process is suspended.
    Stop,
    /// The process aborts with a core dump.
    Abort,
    /// The process terminates.
    Terminate,
    /// Not in the classification table; the default cannot be replicated
    /// directly and must be triggered by re-raising the signal.
    Unclassified,
}

/// What delegation to the previously captured handler must do, given the
/// captured handler and the signal number. The restricted-context glue
/// performs exactly this action.
#[derive(Clone, Copy, Debug, PartialEq, Eq, Structural)]
pub enum DelegateAction {
    /// Nothing to do: the previous installation ignored the signal, or the
    /// platform default for this number is to discard it.
    Nothing,
    /// Re-invoke the explicit previous handler with the original
    /// restricted-context arguments.
    InvokeExplicit {
        /// The handle captured in [`PrevHandler::Explicit`].
        handle: u64,
    },
    /// Emulate the default action for a stop-class signal: suspend the
    /// process by raising [`SIGSTOP`].
    RaiseStop,
    /// Emulate the default action for an abort-class signal.
    AbortProcess,
    /// Emulate the default action for a terminate-class signal: exit with
    /// the fixed code.
    ExitProcess {
        /// The exit status to report; always [`TERMINATE_EXIT_CODE`].
        code: i32,
    },
    /// The number is unclassified: reinstall the captured default, re-raise
    /// the signal, then check for a racing installation (see
    /// [`reraise_followup`]).
    ReraiseAndRecheck,
}

/// The default-action class of a POSIX signal number.
pub open spec fn spec_classify_default(signum: i32) -> DefaultAction {
    if signum == SIGCHLD || signum == SIGCONT || signum == SIGURG || signum == SIGWINCH {
        DefaultAction::NoOp
    } else if signum == SIGTSTP || signum == SIGTTIN || signum == SIGTTOU {
        DefaultAction::Stop
    } else if signum == SIGABRT || signum == SIGBUS || signum == SIGFPE || signum == SIGILL
        || signum == SIGQUIT || signum == SIGSEGV || signum == SIGSYS || signum == SIGTRAP
        || signum == SIGXCPU || signum == SIGXFSZ {
        DefaultAction::Abort
    } else if signum == SIGALRM || signum == SIGHUP || signum == SIGINT || signum == SIGPIPE
        || signum == SIGPOLL || signum == SIGPROF || signum == SIGTERM || signum == SIGUSR1
        || signum == SIGUSR2 || signum == SIGVTALRM {
        DefaultAction::Terminate
    } else {
        DefaultAction::Unclassified
    }
}

/// Classify the default action of a POSIX signal number.
pub fn classify_default(signum: i32) -> (action: DefaultAction)
    ensures
        action == spec_classify_default(signum),
{
    if signum == SIGCHLD || signum == SIGCONT || signum == SIGURG || signum == SIGWINCH {
        DefaultAction::NoOp
    } else if signum == SIGTSTP || signum == SIGTTIN || signum == SIGTTOU {
        DefaultAction::Stop
    } else if signum == SIGABRT || signum == SIGBUS || signum == SIGFPE || signum == SIGILL
        || signum == SIGQUIT || signum == SIGSEGV || signum == SIGSYS || signum == SIGTRAP
        || signum == SIGXCPU || signum == SIGXFSZ {
        DefaultAction::Abort
    } else if signum == SIGALRM || signum == SIGHUP || signum == SIGINT || signum == SIGPIPE
        || signum == SIGPOLL || signum == SIGPROF || signum == SIGTERM || signum == SIGUSR1
        || signum == SIGUSR2 || signum == SIGVTALRM {
        DefaultAction::Terminate
    } else {
        DefaultAction::Unclassified
    }
}

/// What POSIX delegation does for a captured handler and signal number.
pub open spec fn spec_delegate_plan(prev: PrevHandler, signum: i32) -> DelegateAction {
    match prev {
        PrevHandler::Ignored => DelegateAction::Nothing,
        PrevHandler::Explicit { handle } => DelegateAction::InvokeExplicit { handle },
        PrevHandler::Default => match spec_classify_default(signum) {
            DefaultAction::NoOp => DelegateAction::Nothing,
            DefaultAction::Stop => DelegateAction::RaiseStop,
            DefaultAction::Abort => DelegateAction::AbortProcess,
            DefaultAction::Terminate => DelegateAction::ExitProcess { code: TERMINATE_EXIT_CODE },
            DefaultAction::Unclassified => DelegateAction::ReraiseAndRecheck,
        },
    }
}

/// Decide what delegating an unconsumed notification to the previously
/// captured POSIX handler must do.
///
/// An ignored signal is dropped; an explicit handler is re-invoked; a default
/// handler is emulated by class, falling back to a defensive re-raise for
/// unclassified numbers.
pub fn delegate_plan(prev: &PrevHandler, signum: i32) -> (action: DelegateAction)
    ensures
        action == spec_delegate_plan(*prev, signum),
{
    match prev {
        PrevHandler::Ignored => DelegateAction::Nothing,
        PrevHandler::Explicit { handle } => DelegateAction::InvokeExplicit { handle: *handle },
        PrevHandler::Default => match classify_default(signum) {
            DefaultAction::NoOp => DelegateAction::Nothing,
            DefaultAction::Stop => DelegateAction::RaiseStop,
            DefaultAction::Abort => DelegateAction::AbortProcess,
            DefaultAction::Terminate => DelegateAction::ExitProcess { code: TERMINATE_EXIT_CODE },
            DefaultAction::Unclassified => DelegateAction::ReraiseAndRecheck,
        },
    }
}

/// After an unclassified re-raise, decide whether a racing installation was
/// detected and this component's trampoline must be re-applied.
///
/// The re-raise window is racy: another thread may install a real handler
/// between reinstalling the captured default and restoring the trampoline.
/// The glue hands in the handler it expected to take back out and the one it
/// actually found; a mismatch means the race happened and is healed by
/// reinstalling the trampoline.
pub fn reraise_followup(expected: &PrevHandler, observed: &PrevHandler) -> (reinstall: bool)
    ensures
        reinstall == (*expected != *observed),
{
    !(expected == observed)
}

/// What console-control delegation does for a captured handler. The console
/// platform has no per-number classification: an absent handler always means
/// "terminate with the fixed exit code".
pub open spec fn spec_console_delegate_plan(prev: PrevHandler) -> DelegateAction {
    match prev {
        PrevHandler::Ignored => DelegateAction::Nothing,
        PrevHandler::Explicit { handle } => DelegateAction::InvokeExplicit { handle },
        PrevHandler::Default => DelegateAction::ExitProcess { code: TERMINATE_EXIT_CODE },
    }
}

/// Decide what delegating an unconsumed notification must do on the console
/// platform, where the default behaviour for every interceptable event is to
/// exit with the fixed code.
pub fn console_delegate_plan(prev: &PrevHandler) -> (action: DelegateAction)
    ensures
        action == spec_console_delegate_plan(*prev),
{
    match prev {
        PrevHandler::Ignored => DelegateAction::Nothing,
        PrevHandler::Explicit { handle } => DelegateAction::InvokeExplicit { handle: *handle },
        PrevHandler::Default => DelegateAction::ExitProcess { code: TERMINATE_EXIT_CODE },
    }
}

/// The shutdown kind a console control event announces, if any.
pub open spec fn spec_console_event_kind(event: u32) -> Option<ShutdownType> {
    if event == CTRL_C_EVENT || event == CTRL_BREAK_EVENT {
        Some(ShutdownType::Interrupt)
    } else if event == CTRL_CLOSE_EVENT || event == CTRL_LOGOFF_EVENT
        || event == CTRL_SHUTDOWN_EVENT {
        Some(ShutdownType::Terminate)
    } else {
        None
    }
}

/// Map a console control event to the shutdown kind it announces.
pub fn console_event_kind(event: u32) -> (kind: Option<ShutdownType>)
    ensures
        kind == spec_console_event_kind(event),
{
    if event == CTRL_C_EVENT || event == CTRL_BREAK_EVENT {
        Some(ShutdownType::Interrupt)
    } else if event == CTRL_CLOSE_EVENT || event == CTRL_LOGOFF_EVENT
        || event == CTRL_SHUTDOWN_EVENT {
        Some(ShutdownType::Terminate)
    } else {
        None
    }
}

/// Decide whether a console routine registered for `registered` claims the
/// event: it reports the event handled exactly when the event announces the
/// kind the routine was registered for.
pub fn console_event_action(event: u32, registered: ShutdownType) -> (handled: bool)
    ensures
        handled == (spec_console_event_kind(event) == Some(registered)),
{
    match console_event_kind(event) {
        Some(kind) => kind == registered,
        None => false,
    }
}

/// The raw POSIX signal number a shutdown kind is delivered on.
pub open spec fn spec_signal_for_kind(kind: ShutdownType) -> i32 {
    match kind {
        ShutdownType::Interrupt => SIGINT,
        ShutdownType::Terminate => SIGTERM,
    }
}

/// Map a shutdown kind to the POSIX signal number it is delivered on.
pub fn signal_for_kind(kind: ShutdownType) -> (signum: i32)
    ensures
        signum == spec_signal_for_kind(kind),
{
    match kind {
        ShutdownType::Interrupt => SIGINT,
        ShutdownType::Terminate => SIGTERM,
    }
}

/// The shutdown kind a POSIX signal number announces, if any.
pub open spec fn spec_kind_of_signal(signum: i32) -> Option<ShutdownType> {
    if signum == SIGINT {
        Some(ShutdownType::Interrupt)
    } else if signum == SIGTERM {
        Some(ShutdownType::Terminate)
    } else {
        None
    }
}

/// Map a POSIX signal number back to the shutdown kind it announces.
pub fn kind_of_signal(signum: i32) -> (kind: Option<ShutdownType>)
    ensures
        kind == spec_kind_of_signal(signum),
{
    if signum == SIGINT {
        Some(ShutdownType::Interrupt)
    } else if signum == SIGTERM {
        Some(ShutdownType::Terminate)
    } else {
        None
    }
}

/// The two raw-to-abstract maps invert each other: a kind's own signal
/// number always announces that kind back.
pub proof fn lemma_signal_kind_roundtrip(kind: ShutdownType)
    ensures
        spec_kind_of_signal(spec_signal_for_kind(kind)) == Some(kind),
{
}

} // verus!
