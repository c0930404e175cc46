//! Signals: the numbers libc gives them, parsing a signal the user named, and
//! naming a signal number.
use vstd::prelude::*;
use crate::text::{
    ascii_lower_text, ascii_upper_text, chars_of, dec_i64, dec_int, dec_nat, has_prefix, is_text,
    is_ws, push_chars, push_str, skip_chars, starts_with, string_of, to_upper, trim, trim_chars,
    uppercased,
};
use crate::num::{parse_i32, parse_i32_chars};

verus! {

/// `libc::SIGHUP`, 1 on Linux.
#[verifier::external_body]
pub(crate) fn sig_hup() -> (r: i32)
    ensures
        r == 1,
{
    libc::SIGHUP
}

/// `libc::SIGINT`, 2 on Linux.
#[verifier::external_body]
pub(crate) fn sig_int() -> (r: i32)
    ensures
        r == 2,
{
    libc::SIGINT
}

/// `libc::SIGQUIT`, 3 on Linux.
#[verifier::external_body]
pub(crate) fn sig_quit() -> (r: i32)
    ensures
        r == 3,
{
    libc::SIGQUIT
}

/// `libc::SIGABRT`, 6 on Linux.
#[verifier::external_body]
pub(crate) fn sig_abrt() -> (r: i32)
    ensures
        r == 6,
{
    libc::SIGABRT
}

/// `libc::SIGKILL`, 9 on Linux.
#[verifier::external_body]
pub(crate) fn sig_kill() -> (r: i32)
    ensures
        r == 9,
{
    libc::SIGKILL
}

/// `libc::SIGTERM`, 15 on Linux.
#[verifier::external_body]
pub(crate) fn sig_term() -> (r: i32)
    ensures
        r == 15,
{
    libc::SIGTERM
}

/// `libc::SIGUSR1`, `libc::SIGUSR2`, `libc::SIGCONT` and `libc::SIGSTOP`, in
/// that order. Linux numbers these four by architecture, and libc has three
/// layouts of them for Linux: (10, 12, 18, 19) on most architectures,
/// (16, 17, 25, 23) on mips and (30, 31, 19, 17) on sparc. The contract says
/// that the platform has one of the three layouts; which one is left open.
#[verifier::external_body]
fn arch_signals() -> (r: (i32, i32, i32, i32))
    ensures
        r == (10i32, 12i32, 18i32, 19i32) || r == (16i32, 17i32, 25i32, 23i32) || r == (
            30i32,
            31i32,
            19i32,
            17i32,
        ),
{
    (libc::SIGUSR1, libc::SIGUSR2, libc::SIGCONT, libc::SIGSTOP)
}

/// The numbers of the signals that have a name here, as this platform has
/// them.
#[derive(Clone, Copy, Debug)]
pub struct Signals {
    pub hup: i32,
    pub intr: i32,
    pub quit: i32,
    pub abrt: i32,
    pub kill: i32,
    pub usr1: i32,
    pub usr2: i32,
    pub term: i32,
    pub cont: i32,
    pub stop: i32,
}

impl Signals {
    /// The numbers that Linux gives these signals: `HUP` 1, `INT` 2, `QUIT` 3,
    /// `ABRT` 6, `KILL` 9 and `TERM` 15 everywhere, and `USR1`, `USR2`, `CONT`
    /// and `STOP` in one of the architectures' three layouts.
    pub open spec fn valid(self) -> bool {
        &&& self.hup == 1
        &&& self.intr == 2
        &&& self.quit == 3
        &&& self.abrt == 6
        &&& self.kill == 9
        &&& self.term == 15
        &&& {
            ||| (self.usr1 == 10 && self.usr2 == 12 && self.cont == 18 && self.stop == 19)
            ||| (self.usr1 == 16 && self.usr2 == 17 && self.cont == 25 && self.stop == 23)
            ||| (self.usr1 == 30 && self.usr2 == 31 && self.cont == 19 && self.stop == 17)
        }
    }

    /// The signal numbers of the platform the program runs on.
    pub fn host() -> (r: Signals)
        ensures
            r.valid(),
    {
        let (usr1, usr2, cont, stop) = arch_signals();
        Signals {
            hup: sig_hup(),
            intr: sig_int(),
            quit: sig_quit(),
            abrt: sig_abrt(),
            kill: sig_kill(),
            usr1,
            usr2,
            term: sig_term(),
            cont,
            stop,
        }
    }
}

/// The signal `SIGTERM`, sent when the user names none.
pub fn default_signal() -> (r: i32)
    ensures
        r == 15,
{
    sig_term()
}

/// The signal `SIGKILL`, sent for `-9`.
pub fn kill_signal() -> (r: i32)
    ensures
        r == 9,
{
    sig_kill()
}

/// The number of the signal called `n` (without its `SIG` prefix) in the
/// table `t`, for the names that are understood.
pub open spec fn signal_by_name(t: Signals, n: Seq<char>) -> Option<i32> {
    if n == "HUP"@ {
        Some(t.hup)
    } else if n == "INT"@ {
        Some(t.intr)
    } else if n == "QUIT"@ {
        Some(t.quit)
    } else if n == "ABRT"@ {
        Some(t.abrt)
    } else if n == "KILL"@ {
        Some(t.kill)
    } else if n == "USR1"@ {
        Some(t.usr1)
    } else if n == "USR2"@ {
        Some(t.usr2)
    } else if n == "TERM"@ {
        Some(t.term)
    } else if n == "STOP"@ {
        Some(t.stop)
    } else if n == "CONT"@ {
        Some(t.cont)
    } else {
        None
    }
}

/// `u` without a leading `SIG`.
pub open spec fn without_sig(u: Seq<char>) -> Seq<char> {
    if has_prefix(u, "SIG"@) {
        u.skip("SIG"@.len() as int)
    } else {
        u
    }
}

/// The signal for an upper-cased, trimmed text `u`, which the user typed as
/// `given`: a number, else a known name (with or without `SIG`), else an error
/// that quotes `given`.
pub open spec fn signal_of_upper(t: Signals, u: Seq<char>, given: Seq<char>) -> Result<i32, Seq<char>> {
    let v = without_sig(u);
    match parse_i32(v) {
        Some(n) => Ok(n),
        None => match signal_by_name(t, v) {
            Some(n) => Ok(n),
            None => Err("unknown signal: "@ + given),
        },
    }
}

/// The signal that the text `s` names: it is trimmed and upper-cased first.
pub open spec fn signal_of(t: Signals, s: Seq<char>) -> Result<i32, Seq<char>> {
    signal_of_upper(t, uppercased(trim(s)), s)
}

/// The view of a `Result<i32, String>`.
pub open spec fn result_view(r: Result<i32, String>) -> Result<i32, Seq<char>> {
    match r {
        Ok(n) => Ok(n),
        Err(e) => Err(e@),
    }
}

/// The signal for the already trimmed and upper-cased text `up`; `given` is
/// what the user typed, quoted in the error.
pub fn signal_from_upper(up: &str, given: &str, sigs: &Signals) -> (r: Result<i32, String>)
    ensures
        result_view(r) == signal_of_upper(*sigs, up@, given@),
{
    let u = chars_of(up);
    let sig = chars_of("SIG");
    let v = if starts_with(u.as_slice(), sig.as_slice()) {
        skip_chars(u.as_slice(), sig.len())
    } else {
        u
    };
    assert(v@ == without_sig(up@));
    match parse_i32_chars(v.as_slice()) {
        Some(n) => {
            return Ok(n);
        },
        None => {},
    }
    let vs = v.as_slice();
    if is_text(vs, "HUP") {
        Ok(sigs.hup)
    } else if is_text(vs, "INT") {
        Ok(sigs.intr)
    } else if is_text(vs, "QUIT") {
        Ok(sigs.quit)
    } else if is_text(vs, "ABRT") {
        Ok(sigs.abrt)
    } else if is_text(vs, "KILL") {
        Ok(sigs.kill)
    } else if is_text(vs, "USR1") {
        Ok(sigs.usr1)
    } else if is_text(vs, "USR2") {
        Ok(sigs.usr2)
    } else if is_text(vs, "TERM") {
        Ok(sigs.term)
    } else if is_text(vs, "STOP") {
        Ok(sigs.stop)
    } else if is_text(vs, "CONT") {
        Ok(sigs.cont)
    } else {
        let mut e = String::new();
        push_str(&mut e, "unknown signal: ");
        push_str(&mut e, given);
        Err(e)
    }
}

/// Parses a signal given by name (`TERM`, `sigterm`, ` SIGKILL `) or number,
/// with the numbers of the table `sigs`.
pub fn parse_signal(s: &str, sigs: &Signals) -> (r: Result<i32, String>)
    ensures
        result_view(r) == signal_of(*sigs, s@),
{
    let cs = chars_of(s);
    let t = trim_chars(cs.as_slice());
    let ts = string_of(t.as_slice());
    let up = to_upper(ts.as_str());
    signal_from_upper(up.as_str(), s, sigs)
}

/// The short name of a signal number in the table `t`, for the signals that
/// have one here.
pub open spec fn short_name(t: Signals, sig: i32) -> Option<Seq<char>> {
    if sig == t.term {
        Some("TERM"@)
    } else if sig == t.kill {
        Some("KILL"@)
    } else if sig == t.hup {
        Some("HUP"@)
    } else if sig == t.intr {
        Some("INT"@)
    } else if sig == t.quit {
        Some("QUIT"@)
    } else if sig == t.stop {
        Some("STOP"@)
    } else if sig == t.cont {
        Some("CONT"@)
    } else if sig == t.usr1 {
        Some("USR1"@)
    } else if sig == t.usr2 {
        Some("USR2"@)
    } else {
        None
    }
}

/// How a signal is shown to the user: `SIGTERM`, or `signal 6` for a number
/// without a short name here.
pub open spec fn signal_label(t: Signals, sig: i32) -> Seq<char> {
    match short_name(t, sig) {
        Some(n) => "SIG"@ + n,
        None => "signal "@ + dec_int(sig as int),
    }
}

/// Names a signal number for display, with the numbers of the table `sigs`.
pub fn signal_name(sig: i32, sigs: &Signals) -> (r: String)
    ensures
        r@ == signal_label(*sigs, sig),
{
    let n: &str = if sig == sigs.term {
        "TERM"
    } else if sig == sigs.kill {
        "KILL"
    } else if sig == sigs.hup {
        "HUP"
    } else if sig == sigs.intr {
        "INT"
    } else if sig == sigs.quit {
        "QUIT"
    } else if sig == sigs.stop {
        "STOP"
    } else if sig == sigs.cont {
        "CONT"
    } else if sig == sigs.usr1 {
        "USR1"
    } else if sig == sigs.usr2 {
        "USR2"
    } else {
        let mut r = String::new();
        push_str(&mut r, "signal ");
        let d = dec_i64(sig as i64);
        push_chars(&mut r, d.as_slice());
        return r;
    };
    let mut r = String::new();
    push_str(&mut r, "SIG");
    push_str(&mut r, n);
    r
}

// ───────────────────────── laws ─────────────────────────

/// Text whose first and last characters are not whitespace trims to itself.
proof fn lemma_trim_plain(s: Seq<char>)
    requires
        s.len() > 0,
        !is_ws(s[0]),
        !is_ws(s.last()),
    ensures
        trim(s) == s,
{
}

/// ASCII text without lower-case letters upper-cases to itself.
proof fn lemma_upper_plain(s: Seq<char>)
    requires
        forall|i: int| 0 <= i < s.len() ==> (#[trigger] s[i] as u32) < 128 && !('a' <= s[i] && s[i] <= 'z'),
    ensures
        uppercased(s) == s,
{
    assert(ascii_upper_text(s) =~= s);
}

/// The characters of a decimal number are digits and the minus sign.
proof fn lemma_dec_chars(n: int)
    ensures
        dec_int(n).len() >= 1,
        forall|i: int| 0 <= i < dec_int(n).len() ==> ('0' <= #[trigger] dec_int(n)[i] && dec_int(n)[i] <= '9') || dec_int(n)[i] == '-',
        '0' <= dec_int(n).last() && dec_int(n).last() <= '9',
{
    if n < 0 {
        crate::num::lemma_dec_digits((-n) as nat);
        let d = dec_nat((-n) as nat);
        assert forall|i: int| 0 <= i < d.len() implies '0' <= #[trigger] d[i] && d[i] <= '9' by {
            assert(crate::num::digit_value(d[i], 10) is Some);
        }
        assert(dec_int(n).last() == d.last());
    } else {
        crate::num::lemma_dec_digits(n as nat);
        let d = dec_nat(n as nat);
        assert forall|i: int| 0 <= i < d.len() implies '0' <= #[trigger] d[i] && d[i] <= '9' by {
            assert(crate::num::digit_value(d[i], 10) is Some);
        }
        assert(d.last() == d[d.len() - 1]);
    }
}

/// A number, written in decimal, names the signal with that number.
pub proof fn law_signal_number(t: Signals, n: i32)
    ensures
        signal_of(t, dec_int(n as int)) == Ok::<i32, Seq<char>>(n),
{
    crate::num::law_parse_i32_dec(n);
    lemma_dec_chars(n as int);
    let d = dec_int(n as int);
    lemma_trim_plain(d);
    lemma_upper_plain(d);
    reveal_strlit("SIG");
    if d.len() >= 3 {
        assert(d.take(3)[0] == d[0]);
        assert("SIG"@[0] == 'S');
    }
    assert(!has_prefix(d, "SIG"@));
}

proof fn lemma_name_not_number(name: Seq<char>)
    requires
        name.len() >= 1,
        'A' <= name[0] && name[0] <= 'Z',
    ensures
        parse_i32(name) is None,
{
    if name.len() > 1 && name[0] != '-' && name[0] != '+' {
        assert(crate::num::digit_value(name[0], 10) is None);
    }
}

/// Upper-case letters and digits, starting with a letter: how the signal
/// names are written.
pub open spec fn is_plain_name(n: Seq<char>) -> bool {
    &&& n.len() >= 1
    &&& 'A' <= n[0] && n[0] <= 'Z'
    &&& forall|i: int|
        0 <= i < n.len() ==> ('A' <= #[trigger] n[i] && n[i] <= 'Z') || ('0' <= n[i] && n[i] <= '9')
}

/// `SIG` and a plain name reads as that name.
proof fn lemma_sig_plain(t: Signals, n: Seq<char>)
    requires
        is_plain_name(n),
    ensures
        signal_of(t, "SIG"@ + n) == (match signal_by_name(t, n) {
            Some(k) => Ok::<i32, Seq<char>>(k),
            None => Err("unknown signal: "@ + ("SIG"@ + n)),
        }),
{
    reveal_strlit("SIG");
    let s = "SIG"@ + n;
    assert(s[0] == 'S');
    assert(s.last() == n.last());
    assert(n.last() == n[n.len() - 1]);
    lemma_trim_plain(s);
    assert forall|i: int| 0 <= i < s.len() implies (#[trigger] s[i] as u32) < 128 && !('a' <= s[i]
        && s[i] <= 'z') by {
        if i >= 3 {
            assert(s[i] == n[i - 3]);
        }
    }
    lemma_upper_plain(s);
    assert(s.take(3) =~= "SIG"@);
    assert(s.skip(3) =~= n);
    lemma_name_not_number(n);
}

/// A plain name that does not start with `SIG` reads as itself.
proof fn lemma_bare_plain(t: Signals, n: Seq<char>)
    requires
        is_plain_name(n),
        !has_prefix(n, "SIG"@),
    ensures
        signal_of(t, n) == (match signal_by_name(t, n) {
            Some(k) => Ok::<i32, Seq<char>>(k),
            None => Err("unknown signal: "@ + n),
        }),
{
    assert(n.last() == n[n.len() - 1]);
    lemma_trim_plain(n);
    lemma_upper_plain(n);
    lemma_name_not_number(n);
}

/// Every name that is understood names its signal, bare or after `SIG`, in
/// upper or lower case; and on a Linux table every such name but `ABRT` is the
/// one a signal is shown by.
pub proof fn law_signal_names(t: Signals, name: Seq<char>)
    requires
        signal_by_name(t, name) is Some,
    ensures
        signal_of(t, name) == Ok::<i32, Seq<char>>(signal_by_name(t, name)->0),
        signal_of(t, "SIG"@ + name) == Ok::<i32, Seq<char>>(signal_by_name(t, name)->0),
        signal_of(t, ascii_lower_text("SIG"@ + name)) == Ok::<i32, Seq<char>>(
            signal_by_name(t, name)->0,
        ),
        t.valid() && name != "ABRT"@ ==> signal_label(t, signal_by_name(t, name)->0) == "SIG"@ + name,
{
    reveal_strlit("SIG");
    reveal_strlit("HUP");
    reveal_strlit("INT");
    reveal_strlit("QUIT");
    reveal_strlit("ABRT");
    reveal_strlit("KILL");
    reveal_strlit("USR1");
    reveal_strlit("USR2");
    reveal_strlit("TERM");
    reveal_strlit("STOP");
    reveal_strlit("CONT");
    assert(is_plain_name(name));
    assert(!has_prefix(name, "SIG"@)) by {
        if has_prefix(name, "SIG"@) {
            assert(name.take(3)[0] == name[0]);
            assert(name.take(3)[1] == name[1]);
            assert(name[0] == 'S' && name[1] == 'I');
        }
    }
    lemma_bare_plain(t, name);
    lemma_sig_plain(t, name);
    let full = "SIG"@ + name;
    let low = ascii_lower_text(full);
    assert(uppercased(low) == full) by {
        assert forall|i: int| 0 <= i < low.len() implies (#[trigger] low[i] as u32) < 128 by {
            if i >= 3 {
                assert(full[i] == name[i - 3]);
            }
        }
        assert forall|i: int| 0 <= i < full.len() implies #[trigger] ascii_upper_text(low)[i]
            == full[i] by {
            if i >= 3 {
                assert(full[i] == name[i - 3]);
            }
        }
        assert(ascii_upper_text(low) =~= full);
    }
    assert(trim(low) == low) by {
        assert(low[0] == 's');
        assert(low.last() == low[low.len() - 1]);
        assert(full[full.len() - 1] == name[name.len() - 1]);
        lemma_trim_plain(low);
    }
    assert(full.take(3) =~= "SIG"@);
    assert(full.skip(3) =~= name);
    lemma_name_not_number(name);
    assert(signal_of(t, low) == signal_of_upper(t, full, low));
}

/// What a signal is shown as reads back as that signal; a signal without a
/// short name is shown as `signal N`, which is no signal's name and is refused.
pub proof fn law_signal_round_trip(t: Signals, sig: i32)
    ensures
        signal_of(t, signal_label(t, sig)) == (if short_name(t, sig) is Some {
            Ok::<i32, Seq<char>>(sig)
        } else {
            Err("unknown signal: "@ + signal_label(t, sig))
        }),
{
    reveal_strlit("SIG");
    reveal_strlit("HUP");
    reveal_strlit("INT");
    reveal_strlit("QUIT");
    reveal_strlit("ABRT");
    reveal_strlit("KILL");
    reveal_strlit("USR1");
    reveal_strlit("USR2");
    reveal_strlit("TERM");
    reveal_strlit("STOP");
    reveal_strlit("CONT");
    match short_name(t, sig) {
        Some(n) => {
            assert(is_plain_name(n));
            lemma_sig_plain(t, n);
        },
        None => {
            reveal_strlit("signal ");
            let d = dec_int(sig as int);
            lemma_dec_chars(sig as int);
            let s = "signal "@ + d;
            assert(s[0] == 's');
            assert(s.last() == d.last());
            lemma_trim_plain(s);
            let u = "SIGNAL "@ + d;
            reveal_strlit("SIGNAL ");
            assert(uppercased(s) == u) by {
                assert forall|i: int| 0 <= i < s.len() implies (#[trigger] s[i] as u32) < 128 by {
                    if i >= 7 {
                        assert(s[i] == d[i - 7]);
                    }
                }
                assert forall|i: int| 0 <= i < s.len() implies #[trigger] ascii_upper_text(s)[i]
                    == u[i] by {
                    if i >= 7 {
                        assert(s[i] == d[i - 7]);
                        assert(u[i] == d[i - 7]);
                    }
                }
                assert(ascii_upper_text(s) =~= u);
            }
            assert(u.take(3) =~= "SIG"@);
            let v = u.skip(3);
            assert(v[0] == 'N');
            lemma_name_not_number(v);
            assert(v.len() >= 5);
        },
    }
}

/// On a Linux table, `SIGABRT` has no short name here: it is shown as `signal 6`.
pub proof fn law_abort_unnamed(t: Signals)
    requires
        t.valid(),
    ensures
        short_name(t, t.abrt) is None,
{
}

} // verus!
