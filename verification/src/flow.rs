//! The decisions of a run: what to do for the options given, whether to ask,
//! how to read the answer, and how a failed signal is explained.
use vstd::prelude::*;
use crate::args::{Opts, OptsView};
use crate::text::{
    chars_of, is_text, is_ws, lemma_trim_blank, lowercased, push_str, string_of, to_lower, trim,
    trim_chars,
};

verus! {

/// What a run does, by its options.
pub enum Mode {
    /// Show the help.
    Help,
    /// Show the version.
    Version,
    /// List the processes listening on TCP ports.
    List,
    /// No target was given: an error.
    NoTargets,
    /// Resolve the targets and signal what they name.
    Signal,
}

/// The mode for the options `o`: help wins over version, version over
/// listing, and without targets there is nothing to signal.
pub open spec fn mode_of(o: OptsView) -> Mode {
    if o.help {
        Mode::Help
    } else if o.version {
        Mode::Version
    } else if o.list {
        Mode::List
    } else if o.targets.len() == 0 {
        Mode::NoTargets
    } else {
        Mode::Signal
    }
}

/// The mode of a run.
pub fn mode(o: &Opts) -> (r: Mode)
    ensures
        r == mode_of(o@),
{
    if o.help {
        Mode::Help
    } else if o.version {
        Mode::Version
    } else if o.list {
        Mode::List
    } else if o.targets.len() == 0 {
        Mode::NoTargets
    } else {
        Mode::Signal
    }
}

/// What follows once the targets are resolved.
pub enum Step {
    /// Nothing to signal; the run fails, saying "Nothing matched" when `announce`.
    NothingMatched { announce: bool },
    /// Only show what would be sent.
    DryRun,
    /// Confirmation is needed but cannot be asked: refuse, and fail.
    Refuse,
    /// Ask the user first.
    Ask,
    /// Send the signal.
    Send,
}

/// The step after resolving: with no process matched, the run ends (saying so
/// only when every target resolved); a dry run only shows; without `--yes` the
/// user is asked, or refused when standard input is no terminal.
pub open spec fn step_of(matched: nat, unresolved: nat, o: OptsView, stdin_tty: bool) -> Step {
    if matched == 0 {
        Step::NothingMatched { announce: unresolved == 0 }
    } else if o.dry_run {
        Step::DryRun
    } else if !o.yes {
        if !stdin_tty {
            Step::Refuse
        } else {
            Step::Ask
        }
    } else {
        Step::Send
    }
}

/// The step after resolving `matched` processes with `unresolved` targets that
/// found nothing.
pub fn next_step(matched: usize, unresolved: usize, o: &Opts, stdin_tty: bool) -> (r: Step)
    ensures
        r == step_of(matched as nat, unresolved as nat, o@, stdin_tty),
{
    if matched == 0 {
        Step::NothingMatched { announce: unresolved == 0 }
    } else if o.dry_run {
        Step::DryRun
    } else if !o.yes {
        if !stdin_tty {
            Step::Refuse
        } else {
            Step::Ask
        }
    } else {
        Step::Send
    }
}

/// An answer to the prompt agrees: trimmed and lower-cased, it is `y` or `yes`.
pub open spec fn agrees(answer: Seq<char>) -> bool {
    lowercased(trim(answer)) == "y"@ || lowercased(trim(answer)) == "yes"@
}

/// Whether the answer to the prompt agrees.
pub fn is_yes(answer: &str) -> (b: bool)
    ensures
        b == agrees(answer@),
{
    let cs = chars_of(answer);
    let t = trim_chars(cs.as_slice());
    let ts = string_of(t.as_slice());
    let l = to_lower(ts.as_str());
    let lc = chars_of(l.as_str());
    is_text(lc.as_slice(), "y") || is_text(lc.as_slice(), "yes")
}

/// An empty answer, or one of whitespace alone (Enter at the prompt), declines.
pub proof fn law_blank_answer_declines(answer: Seq<char>)
    requires
        forall|i: int| 0 <= i < answer.len() ==> is_ws(#[trigger] answer[i]),
    ensures
        !agrees(answer),
{
    lemma_trim_blank(answer);
    reveal_strlit("y");
    reveal_strlit("yes");
    assert(lowercased(trim(answer)) =~= Seq::<char>::empty());
}

/// `libc::EPERM`, 1 on Linux.
#[verifier::external_body]
pub(crate) fn errno_perm() -> (r: i32)
    ensures
        r == 1,
{
    libc::EPERM
}

/// `libc::ESRCH`, 3 on Linux.
#[verifier::external_body]
pub(crate) fn errno_srch() -> (r: i32)
    ensures
        r == 3,
{
    libc::ESRCH
}

/// Why a signal could not be sent, from the OS error number (when there is
/// one): not permitted, no such process, or else the system's own description.
pub open spec fn failure_text(errno: Option<i32>, description: Seq<char>) -> Seq<char> {
    match errno {
        Some(e) => if e == 1 {
            "permission denied — try sudo"@
        } else if e == 3 {
            "already gone"@
        } else {
            description
        },
        None => description,
    }
}

/// Explains a failed signal.
pub fn failure_reason(errno: Option<i32>, description: &str) -> (r: String)
    ensures
        r@ == failure_text(errno, description@),
{
    let mut r = String::new();
    match errno {
        Some(e) => {
            if e == errno_perm() {
                push_str(&mut r, "permission denied — try sudo");
            } else if e == errno_srch() {
                push_str(&mut r, "already gone");
            } else {
                push_str(&mut r, description);
            }
        },
        None => {
            push_str(&mut r, description);
        },
    }
    r
}

/// The exit status after signalling: failure when any signal failed.
pub fn exit_status(failed: usize) -> (r: i32)
    ensures
        r == (if failed > 0 {
            1i32
        } else {
            0i32
        }),
{
    if failed > 0 {
        1
    } else {
        0
    }
}

/// Nothing is signalled without consent: the signal is sent right away only
/// with `--yes` and never in a dry run; without `--yes` and without a terminal
/// the run refuses.
pub proof fn law_consent(matched: nat, unresolved: nat, o: OptsView, stdin_tty: bool)
    ensures
        step_of(matched, unresolved, o, stdin_tty) == Step::Send ==> o.yes && !o.dry_run && matched
            > 0,
        step_of(matched, unresolved, o, stdin_tty) == Step::Ask ==> !o.yes && stdin_tty,
        (matched > 0 && !o.dry_run && !o.yes && !stdin_tty) ==> step_of(
            matched,
            unresolved,
            o,
            stdin_tty,
        ) == Step::Refuse,
        o.dry_run && matched > 0 ==> step_of(matched, unresolved, o, stdin_tty) == Step::DryRun,
{
}

} // verus!
