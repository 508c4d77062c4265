//! Pure logic of the one-shot (exec) backend: substitution of the
//! `{TIMEOUT}` token in the configured command line, and composition of the
//! captured output with a diagnostic describing how the child ended.

use crate::text::{eq_str, format_i32, push_char, spec_dec, spec_dec_i64};
use vstd::prelude::*;
use vstd::string::{StrSliceExecFns, StringExecFns};

verus! {

/// How a finished child process ended, as far as the platform reports it.
#[derive(Debug, Clone, Copy, PartialEq)]
pub enum ExitKind {
    /// Exit status 0.
    Success,
    /// Non-zero exit with this exit code.
    Code(i32),
    /// Killed by this signal number.
    Signal(i32),
    /// Failed, but neither an exit code nor a signal is available.
    Unknown,
}

/// Long name of a POSIX signal, per the conventional table for 1..=31.
pub open spec fn spec_strsig(sig: i32) -> Seq<char> {
    if sig == 1 {
        "Hangup"@
    } else if sig == 2 {
        "Interrupt"@
    } else if sig == 3 {
        "Quit"@
    } else if sig == 4 {
        "Illegal instruction"@
    } else if sig == 5 {
        "Trace/breakpoint trap"@
    } else if sig == 6 {
        "Aborted"@
    } else if sig == 7 {
        "Bus error"@
    } else if sig == 8 {
        "Floating point exception"@
    } else if sig == 9 {
        "Killed"@
    } else if sig == 10 {
        "User defined signal 1"@
    } else if sig == 11 {
        "Segmentation fault"@
    } else if sig == 12 {
        "User defined signal 2"@
    } else if sig == 13 {
        "Broken pipe"@
    } else if sig == 14 {
        "Alarm clock"@
    } else if sig == 15 {
        "Terminated"@
    } else if sig == 16 {
        "Stack fault"@
    } else if sig == 17 {
        "Child exited"@
    } else if sig == 18 {
        "Continued"@
    } else if sig == 19 {
        "Stopped (signal)"@
    } else if sig == 20 {
        "Stopped"@
    } else if sig == 21 {
        "Stopped (tty input)"@
    } else if sig == 22 {
        "Stopped (tty output)"@
    } else if sig == 23 {
        "Urgent I/O condition"@
    } else if sig == 24 {
        "CPU time limit exceeded"@
    } else if sig == 25 {
        "File size limit exceeded"@
    } else if sig == 26 {
        "Virtual timer expired"@
    } else if sig == 27 {
        "Profiling timer expired"@
    } else if sig == 28 {
        "Window changed"@
    } else if sig == 29 {
        "I/O possible"@
    } else if sig == 30 {
        "Power failure"@
    } else if sig == 31 {
        "Bad system call"@
    } else {
        "Unknown signal"@
    }
}

/// Abbreviated name of a POSIX signal for 1..=31, `"(unknown)"` otherwise.
pub open spec fn spec_strsigabbrev(sig: i32) -> Seq<char> {
    if sig == 1 {
        "SIGHUP"@
    } else if sig == 2 {
        "SIGINT"@
    } else if sig == 3 {
        "SIGQUIT"@
    } else if sig == 4 {
        "SIGILL"@
    } else if sig == 5 {
        "SIGTRAP"@
    } else if sig == 6 {
        "SIGABRT"@
    } else if sig == 7 {
        "SIGBUS"@
    } else if sig == 8 {
        "SIGFPE"@
    } else if sig == 9 {
        "SIGKILL"@
    } else if sig == 10 {
        "SIGUSR1"@
    } else if sig == 11 {
        "SIGSEGV"@
    } else if sig == 12 {
        "SIGUSR2"@
    } else if sig == 13 {
        "SIGPIPE"@
    } else if sig == 14 {
        "SIGALRM"@
    } else if sig == 15 {
        "SIGTERM"@
    } else if sig == 16 {
        "SIGSTKFLT"@
    } else if sig == 17 {
        "SIGCHLD"@
    } else if sig == 18 {
        "SIGCONT"@
    } else if sig == 19 {
        "SIGSTOP"@
    } else if sig == 20 {
        "SIGTSTP"@
    } else if sig == 21 {
        "SIGTTIN"@
    } else if sig == 22 {
        "SIGTTOU"@
    } else if sig == 23 {
        "SIGURG"@
    } else if sig == 24 {
        "SIGXCPU"@
    } else if sig == 25 {
        "SIGXFSZ"@
    } else if sig == 26 {
        "SIGVTALRM"@
    } else if sig == 27 {
        "SIGPROF"@
    } else if sig == 28 {
        "SIGWINCH"@
    } else if sig == 29 {
        "SIGPOLL"@
    } else if sig == 30 {
        "SIGPWR"@
    } else if sig == 31 {
        "SIGSYS"@
    } else {
        "(unknown)"@
    }
}

/// Long name of a POSIX signal.
pub fn strsig(sig: i32) -> (r: &'static str)
    ensures
        r@ == spec_strsig(sig),
{
    match sig {
        1 => "Hangup",
        2 => "Interrupt",
        3 => "Quit",
        4 => "Illegal instruction",
        5 => "Trace/breakpoint trap",
        6 => "Aborted",
        7 => "Bus error",
        8 => "Floating point exception",
        9 => "Killed",
        10 => "User defined signal 1",
        11 => "Segmentation fault",
        12 => "User defined signal 2",
        13 => "Broken pipe",
        14 => "Alarm clock",
        15 => "Terminated",
        16 => "Stack fault",
        17 => "Child exited",
        18 => "Continued",
        19 => "Stopped (signal)",
        20 => "Stopped",
        21 => "Stopped (tty input)",
        22 => "Stopped (tty output)",
        23 => "Urgent I/O condition",
        24 => "CPU time limit exceeded",
        25 => "File size limit exceeded",
        26 => "Virtual timer expired",
        27 => "Profiling timer expired",
        28 => "Window changed",
        29 => "I/O possible",
        30 => "Power failure",
        31 => "Bad system call",
        _ => "Unknown signal",
    }
}

/// Abbreviated name of a POSIX signal.
pub fn strsigabbrev(sig: i32) -> (r: &'static str)
    ensures
        r@ == spec_strsigabbrev(sig),
{
    match sig {
        1 => "SIGHUP",
        2 => "SIGINT",
        3 => "SIGQUIT",
        4 => "SIGILL",
        5 => "SIGTRAP",
        6 => "SIGABRT",
        7 => "SIGBUS",
        8 => "SIGFPE",
        9 => "SIGKILL",
        10 => "SIGUSR1",
        11 => "SIGSEGV",
        12 => "SIGUSR2",
        13 => "SIGPIPE",
        14 => "SIGALRM",
        15 => "SIGTERM",
        16 => "SIGSTKFLT",
        17 => "SIGCHLD",
        18 => "SIGCONT",
        19 => "SIGSTOP",
        20 => "SIGTSTP",
        21 => "SIGTTIN",
        22 => "SIGTTOU",
        23 => "SIGURG",
        24 => "SIGXCPU",
        25 => "SIGXFSZ",
        26 => "SIGVTALRM",
        27 => "SIGPROF",
        28 => "SIGWINCH",
        29 => "SIGPOLL",
        30 => "SIGPWR",
        31 => "SIGSYS",
        _ => "(unknown)",
    }
}

/// Diagnostic line appended to the output of a child that did not succeed.
pub open spec fn spec_diagnostic(status: ExitKind) -> Seq<char> {
    match status {
        ExitKind::Success => Seq::<char>::empty(),
        ExitKind::Code(c) => "exited with status "@ + spec_dec_i64(c as int) + "\n"@,
        ExitKind::Signal(s) => "signalled with "@ + spec_strsig(s) + " ("@ + spec_strsigabbrev(s)
            + ")\n"@,
        ExitKind::Unknown => "exited with unknown failure\n"@,
    }
}

/// The text handed back for a finished child: captured stderr, then stdout
/// (diagnostics precede results), and — unless the child succeeded — a
/// newline-terminated base followed by the diagnostic line.
pub open spec fn spec_exec_output(stderr: Seq<char>, stdout: Seq<char>, status: ExitKind) -> Seq<
    char,
> {
    let base = stderr + stdout;
    match status {
        ExitKind::Success => base,
        _ => {
            let terminated = if base.len() > 0 && base.last() == '\n' {
                base
            } else {
                base.push('\n')
            };
            terminated + spec_diagnostic(status)
        },
    }
}

/// Composes the output of a finished child with its exit diagnostic.
pub fn exec_output(stderr: &str, stdout: &str, status: ExitKind) -> (r: String)
    ensures
        r@ == spec_exec_output(stderr@, stdout@, status),
{
    let mut r = stderr.to_owned();
    r.append(stdout);
    if let ExitKind::Success = status {
        return r;
    }
    let len = r.as_str().unicode_len();
    if len == 0 || r.as_str().get_char(len - 1) != '\n' {
        push_char(&mut r, '\n');
    }
    match status {
        ExitKind::Success => {
            proof {
                assert(false);
            }
        },
        ExitKind::Code(c) => {
            r.append("exited with status ");
            let num = format_i32(c);
            r.append(num.as_str());
            r.append("\n");
            proof {
                assert(r@ =~= spec_exec_output(stderr@, stdout@, status));
            }
        },
        ExitKind::Signal(s) => {
            r.append("signalled with ");
            r.append(strsig(s));
            r.append(" (");
            r.append(strsigabbrev(s));
            r.append(")\n");
            proof {
                assert(r@ =~= spec_exec_output(stderr@, stdout@, status));
            }
        },
        ExitKind::Unknown => {
            r.append("exited with unknown failure\n");
            proof {
                assert(r@ =~= spec_exec_output(stderr@, stdout@, status));
            }
        },
    }
    r
}

/// The token in a configured command line that stands for the timeout.
pub open spec fn spec_timeout_token() -> Seq<char> {
    "{TIMEOUT}"@
}

/// The argument substituted for the token: the configured prefix (empty if
/// absent) followed by the timeout in seconds (0 if none is in force).
pub open spec fn spec_timeout_arg(prefix: Option<String>, timeout: Option<u32>) -> Seq<char> {
    (match prefix {
        Some(p) => p@,
        None => Seq::<char>::empty(),
    }) + spec_dec(
        match timeout {
            Some(n) => n as int,
            None => 0,
        },
    )
}

/// One argument after substitution: the token becomes the timeout argument,
/// anything else passes through unchanged.
pub open spec fn spec_subst(arg: Seq<char>, timeout_arg: Seq<char>) -> Seq<char> {
    if arg == spec_timeout_token() {
        timeout_arg
    } else {
        arg
    }
}

/// Builds the substituted timeout argument.
pub fn timeout_arg(prefix: &Option<String>, timeout: Option<u32>) -> (r: String)
    ensures
        r@ == spec_timeout_arg(*prefix, timeout),
{
    let mut r = match prefix {
        Some(p) => p.as_str().to_owned(),
        None => String::new(),
    };
    let n: u32 = match timeout {
        Some(n) => n,
        None => 0,
    };
    let num = crate::text::format_u32(n);
    r.append(num.as_str());
    r
}

/// The program and fully substituted argument list for an exec backend:
/// `cmdline[0]` is the program, and every later element equal to the
/// `{TIMEOUT}` token is replaced by the timeout argument. `None` exactly
/// when the command line is empty.
pub fn exec_argv(cmdline: &Vec<String>, prefix: &Option<String>, timeout: Option<u32>) -> (r:
    Option<(String, Vec<String>)>)
    ensures
        r is None <==> cmdline@.len() == 0,
        r matches Some(pa) ==> {
            &&& pa.0@ == cmdline@[0]@
            &&& pa.1@.len() == cmdline@.len() - 1
            &&& forall|i: int|
                0 <= i < pa.1@.len() ==> pa.1@[i]@ == spec_subst(
                    cmdline@[i + 1]@,
                    spec_timeout_arg(*prefix, timeout),
                )
        },
{
    if cmdline.len() == 0 {
        return None;
    }
    let targ = timeout_arg(prefix, timeout);
    let program = cmdline[0].as_str().to_owned();
    let mut args: Vec<String> = Vec::new();
    let mut i: usize = 1;
    while i < cmdline.len()
        invariant
            1 <= i <= cmdline@.len(),
            targ@ == spec_timeout_arg(*prefix, timeout),
            args@.len() == i - 1,
            forall|j: int|
                0 <= j < args@.len() ==> args@[j]@ == spec_subst(cmdline@[j + 1]@, targ@),
        decreases cmdline@.len() - i,
    {
        if eq_str(cmdline[i].as_str(), "{TIMEOUT}") {
            args.push(targ.as_str().to_owned());
        } else {
            args.push(cmdline[i].as_str().to_owned());
        }
        i += 1;
    }
    Some((program, args))
}

} // verus!
