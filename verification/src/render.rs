//! What is shown to the user: the process table and the messages.
use vstd::prelude::*;
use crate::paint::{Paint, painted};
use crate::procs::{Proc, ProcView, procs_view};
use crate::signal::{Signals, signal_label, signal_name};
use crate::text::{
    chars_of, dec_int, dec_i64, dec_nat, dec_u64, pad_left, pad_right, padded_left, padded_right,
    push_chars, push_str,
};

verus! {

// ───────────────────────── the process table ─────────────────────────

/// The number of bytes of `s` in UTF-8, as std's `str::len` reports it.
pub open spec fn byte_width(s: Seq<char>) -> nat {
    (vstd::utf8::encode_utf8(s).len() as usize) as nat
}

/// How the port column shows a process: the port, or `-`.
pub open spec fn port_text(port: Option<u16>) -> Seq<char> {
    match port {
        Some(p) => dec_nat(p as nat),
        None => "-"@,
    }
}

/// The width that the port column needs for one process (a missing port
/// counts as one character).
pub open spec fn port_need(port: Option<u16>) -> nat {
    match port {
        Some(p) => dec_nat(p as nat).len(),
        None => 1,
    }
}

/// The widest value of `f` over `v`, and at least `floor`.
pub open spec fn widest(v: Seq<ProcView>, f: spec_fn(ProcView) -> nat, floor: nat) -> nat
    decreases v.len(),
{
    if v.len() == 0 {
        floor
    } else {
        let w = widest(v.drop_last(), f, floor);
        let x = f(v.last());
        if x > w {
            x
        } else {
            w
        }
    }
}

/// The column widths of the table: process id, user, port, name.
pub open spec fn column_widths(v: Seq<ProcView>) -> (nat, nat, nat, nat) {
    (
        widest(v, |p: ProcView| dec_int(p.pid as int).len(), 3),
        widest(v, |p: ProcView| byte_width(p.user), 4),
        widest(v, |p: ProcView| port_need(p.port), 4),
        widest(v, |p: ProcView| byte_width(p.name), 7),
    )
}

/// The header line of the table.
pub open spec fn header_line(on: bool, w: (nat, nat, nat, nat)) -> Seq<char> {
    "  "@ + painted(on, "1"@, pad_left("PID"@, w.0)) + "  "@ + painted(on, "1"@, pad_right("USER"@, w.1))
        + "  "@ + painted(on, "1"@, pad_left("PORT"@, w.2)) + "  "@ + painted(
        on,
        "1"@,
        pad_right("PROCESS"@, w.3),
    ) + "  "@ + painted(on, "1"@, "COMMAND"@)
}

/// The table line of one process.
pub open spec fn row_line(on: bool, w: (nat, nat, nat, nat), p: ProcView) -> Seq<char> {
    "  "@ + painted(on, "2"@, pad_left(dec_int(p.pid as int), w.0)) + "  "@ + painted(
        on,
        "2"@,
        pad_right(p.user, w.1),
    ) + "  "@ + painted(on, "36"@, pad_left(port_text(p.port), w.2)) + "  "@ + painted(
        on,
        "35"@,
        pad_right(p.name, w.3),
    ) + "  "@ + painted(on, "2"@, p.cmdline)
}

fn widths(procs: &Vec<Proc>) -> (w: (usize, usize, usize, usize))
    ensures
        ({
            let cw = column_widths(procs_view(procs@));
            w.0 as nat == cw.0 && w.1 as nat == cw.1 && w.2 as nat == cw.2 && w.3 as nat == cw.3
        }),
{
    let ghost pv = procs_view(procs@);
    let mut a: usize = 3;
    let mut b: usize = 4;
    let mut c: usize = 4;
    let mut d: usize = 7;
    let mut i: usize = 0;
    assert(pv.take(0) =~= Seq::<ProcView>::empty());
    while i < procs.len()
        invariant
            pv == procs_view(procs@),
            i <= procs@.len(),
            a as nat == widest(pv.take(i as int), |p: ProcView| dec_int(p.pid as int).len(), 3),
            b as nat == widest(pv.take(i as int), |p: ProcView| byte_width(p.user), 4),
            c as nat == widest(pv.take(i as int), |p: ProcView| port_need(p.port), 4),
            d as nat == widest(pv.take(i as int), |p: ProcView| byte_width(p.name), 7),
        decreases procs@.len() - i,
    {
        assert(pv.take(i + 1).drop_last() =~= pv.take(i as int));
        let p = &procs[i];
        assert(pv.take(i + 1).last() == p@);
        let x = dec_i64(p.pid as i64).len();
        if x > a {
            a = x;
        }
        let y = p.user.as_str().len();
        if y > b {
            b = y;
        }
        let z = match p.port {
            Some(v) => dec_u64(v as u64).len(),
            None => 1,
        };
        if z > c {
            c = z;
        }
        let t = p.name.as_str().len();
        if t > d {
            d = t;
        }
        i = i + 1;
    }
    assert(pv.take(procs@.len() as int) =~= pv);
    (a, b, c, d)
}

/// The lines of the process table: the header, then one line per process.
/// Widths are measured as std does (user and name in bytes) and padding is in
/// characters.
pub fn table_lines(procs: &Vec<Proc>, p: &Paint) -> (r: Vec<String>)
    ensures
        r@.len() == procs@.len() + 1,
        r@[0]@ == header_line(p.on, column_widths(procs_view(procs@))),
        forall|i: int|
            0 <= i < procs@.len() ==> (#[trigger] r@[i + 1])@ == row_line(
                p.on,
                column_widths(procs_view(procs@)),
                procs@[i]@,
            ),
{
    let (a, b, c, d) = widths(procs);
    let ghost w = column_widths(procs_view(procs@));
    let mut r: Vec<String> = Vec::new();
    let mut h = String::new();
    push_str(&mut h, "  ");
    let pid_h = chars_of("PID");
    push_str(&mut h, p.bold(padded_left(pid_h.as_slice(), a).as_str()).as_str());
    push_str(&mut h, "  ");
    let user_h = chars_of("USER");
    push_str(&mut h, p.bold(padded_right(user_h.as_slice(), b).as_str()).as_str());
    push_str(&mut h, "  ");
    let port_h = chars_of("PORT");
    push_str(&mut h, p.bold(padded_left(port_h.as_slice(), c).as_str()).as_str());
    push_str(&mut h, "  ");
    let name_h = chars_of("PROCESS");
    push_str(&mut h, p.bold(padded_right(name_h.as_slice(), d).as_str()).as_str());
    push_str(&mut h, "  ");
    push_str(&mut h, p.bold("COMMAND").as_str());
    r.push(h);
    let mut i: usize = 0;
    while i < procs.len()
        invariant
            w == column_widths(procs_view(procs@)),
            a as nat == w.0 && b as nat == w.1 && c as nat == w.2 && d as nat == w.3,
            i <= procs@.len(),
            r@.len() == i + 1,
            r@[0]@ == header_line(p.on, w),
            forall|j: int| 0 <= j < i ==> (#[trigger] r@[j + 1])@ == row_line(p.on, w, procs@[j]@),
        decreases procs@.len() - i,
    {
        let x = &procs[i];
        let mut l = String::new();
        push_str(&mut l, "  ");
        let pid_s = dec_i64(x.pid as i64);
        push_str(&mut l, p.dim(padded_left(pid_s.as_slice(), a).as_str()).as_str());
        push_str(&mut l, "  ");
        let user_s = chars_of(x.user.as_str());
        push_str(&mut l, p.dim(padded_right(user_s.as_slice(), b).as_str()).as_str());
        push_str(&mut l, "  ");
        let port_s: Vec<char> = match x.port {
            Some(v) => dec_u64(v as u64),
            None => chars_of("-"),
        };
        push_str(&mut l, p.cyan(padded_left(port_s.as_slice(), c).as_str()).as_str());
        push_str(&mut l, "  ");
        let name_s = chars_of(x.name.as_str());
        push_str(&mut l, p.magenta(padded_right(name_s.as_slice(), d).as_str()).as_str());
        push_str(&mut l, "  ");
        push_str(&mut l, p.dim(x.cmdline.as_str()).as_str());
        assert(l@ =~= row_line(p.on, w, x@));
        let ghost before = r@;
        r.push(l);
        assert(forall|j: int| 0 <= j <= i ==> r@[j] == before[j]);
        i = i + 1;
    }
    r
}

// ───────────────────────── help and messages ─────────────────────────

/// The help screen after the program's name, up to the USAGE heading.
pub const HELP_INTRO: &'static str = " — a modern pkill. Terminate processes by name, PID, or port.\n\n";

/// The usage lines, after the USAGE heading.
pub const HELP_USAGE: &'static str = "\n  slay <target>...          Kill matching processes (asks first)\n  slay :8080                Kill whatever is listening on port 8080\n  slay node                 Kill processes whose name contains \"node\"\n  slay 4123                 Kill PID 4123\n  slay -l                   List everything listening on a TCP port\n\nYou can mix targets:  slay :3000 node 4123\n\n";

/// The option lines, after the OPTIONS heading.
pub const HELP_OPTIONS: &'static str = "\n  -s, --signal <SIG>   Signal to send (name or number); default TERM\n  -9                   Shorthand for --signal KILL\n  -f, --full           Match against the full command line, not just the name\n  -x, --exact          Require an exact name match\n  -i, --ignore-case    Case-insensitive name matching\n  -u, --user <USER>    Only match processes owned by USER\n  -y, --yes            Don't ask for confirmation\n  -n, --dry-run        Show what would be killed, but kill nothing\n  -l, --list           List all listening TCP ports\n  -h, --help           Show this help\n  -V, --version        Print version\n\n";

/// The example lines, after the EXAMPLES heading.
pub const HELP_EXAMPLES: &'static str = "\n  slay :5432           # who's squatting on Postgres' port? kill it\n  slay -9 -y node      # force-kill every node process, no questions\n  slay -f vite -n      # preview every process whose cmdline mentions vite";

/// The help screen.
pub open spec fn help_screen(on: bool) -> Seq<char> {
    painted(on, "1"@, "slay"@) + HELP_INTRO@ + painted(on, "1"@, "USAGE"@) + HELP_USAGE@ + painted(
        on,
        "1"@,
        "OPTIONS"@,
    ) + HELP_OPTIONS@ + painted(on, "1"@, "EXAMPLES"@) + HELP_EXAMPLES@
}

/// The help screen, with bold headings when `p` is on.
pub fn help_text(p: &Paint) -> (r: String)
    ensures
        r@ == help_screen(p.on),
{
    let mut r = String::new();
    push_str(&mut r, p.bold("slay").as_str());
    push_str(&mut r, HELP_INTRO);
    push_str(&mut r, p.bold("USAGE").as_str());
    push_str(&mut r, HELP_USAGE);
    push_str(&mut r, p.bold("OPTIONS").as_str());
    push_str(&mut r, HELP_OPTIONS);
    push_str(&mut r, p.bold("EXAMPLES").as_str());
    push_str(&mut r, HELP_EXAMPLES);
    r
}

/// The version line.
pub fn version_text(version: &str) -> (r: String)
    ensures
        r@ == "slay "@ + version@,
{
    let mut r = String::new();
    push_str(&mut r, "slay ");
    push_str(&mut r, version);
    r
}

/// The lines shown when the command line cannot be read.
pub fn usage_error(e: &str) -> (r: (String, String))
    ensures
        r.0@ == "slay: "@ + e@,
        r.1@ == "Try `slay --help`."@,
{
    let mut a = String::new();
    push_str(&mut a, "slay: ");
    push_str(&mut a, e);
    let mut b = String::new();
    push_str(&mut b, "Try `slay --help`.");
    (a, b)
}

/// The lines shown when no target was given.
pub fn no_targets_lines() -> (r: (String, String))
    ensures
        r.0@ == "slay: no targets. Give a name, PID, or :port — or `slay -l` to list ports."@,
        r.1@ == "Try `slay --help`."@,
{
    let mut a = String::new();
    push_str(&mut a, "slay: no targets. Give a name, PID, or :port — or `slay -l` to list ports.");
    let mut b = String::new();
    push_str(&mut b, "Try `slay --help`.");
    (a, b)
}

/// The noun for `n` processes.
pub open spec fn noun(n: nat) -> Seq<char> {
    if n == 1 {
        "process"@
    } else {
        "processes"@
    }
}

fn push_noun(s: &mut String, n: usize)
    ensures
        final(s)@ == old(s)@ + noun(n as nat),
{
    if n == 1 {
        push_str(s, "process");
    } else {
        push_str(s, "processes");
    }
}

fn push_count(s: &mut String, n: usize)
    ensures
        final(s)@ == old(s)@ + dec_nat(n as nat),
{
    let d = dec_u64(n as u64);
    push_chars(s, d.as_slice());
}

/// The line that announces how many processes matched (a blank line follows it).
pub fn matched_header(p: &Paint, n: usize) -> (r: String)
    ensures
        r@ == painted(p.on, "33"@, "●"@) + " "@ + painted(p.on, "1"@, dec_nat(n as nat)) + " "@
            + noun(n as nat) + " matched:\n"@,
{
    let mut r = String::new();
    push_str(&mut r, p.yellow("●").as_str());
    push_str(&mut r, " ");
    let d = dec_u64(n as u64);
    let ds = crate::text::string_of(d.as_slice());
    push_str(&mut r, p.bold(ds.as_str()).as_str());
    push_str(&mut r, " ");
    push_noun(&mut r, n);
    push_str(&mut r, " matched:\n");
    r
}

/// The line for a target that found nothing.
pub fn unresolved_line(p: &Paint, u: &str) -> (r: String)
    ensures
        r@ == painted(p.on, "33"@, "•"@) + " "@ + painted(p.on, "2"@, u@),
{
    let mut r = String::new();
    push_str(&mut r, p.yellow("•").as_str());
    push_str(&mut r, " ");
    push_str(&mut r, p.dim(u).as_str());
    r
}

/// The line shown when nothing matched and every target resolved.
pub fn nothing_matched_line(p: &Paint) -> (r: String)
    ensures
        r@ == painted(p.on, "32"@, "✓"@) + " Nothing matched."@,
{
    let mut r = String::new();
    push_str(&mut r, p.green("✓").as_str());
    push_str(&mut r, " Nothing matched.");
    r
}

/// The line shown when no process listens on a TCP port.
pub fn nothing_listening_line(p: &Paint) -> (r: String)
    ensures
        r@ == painted(p.on, "32"@, "✓"@) + " Nothing is listening on a TCP port."@,
{
    let mut r = String::new();
    push_str(&mut r, p.green("✓").as_str());
    push_str(&mut r, " Nothing is listening on a TCP port.");
    r
}

/// What the listing shows: one line saying that nothing listens when there
/// is no row, else the table of the rows.
pub fn listing_lines(rows: &Vec<Proc>, p: &Paint) -> (r: Vec<String>)
    ensures
        rows@.len() == 0 ==> r@.len() == 1 && r@[0]@ == painted(p.on, "32"@, "✓"@)
            + " Nothing is listening on a TCP port."@,
        rows@.len() > 0 ==> r@.len() == rows@.len() + 1 && r@[0]@ == header_line(
            p.on,
            column_widths(procs_view(rows@)),
        ) && forall|i: int|
            0 <= i < rows@.len() ==> (#[trigger] r@[i + 1])@ == row_line(
                p.on,
                column_widths(procs_view(rows@)),
                rows@[i]@,
            ),
{
    if rows.len() == 0 {
        let mut r: Vec<String> = Vec::new();
        r.push(nothing_listening_line(p));
        r
    } else {
        table_lines(rows, p)
    }
}

/// The line of a dry run: what would be sent to how many processes.
pub fn dry_run_line(p: &Paint, sig: i32, n: usize, sigs: &Signals) -> (r: String)
    ensures
        r@ == painted(p.on, "2"@, "·"@) + " dry run — would send "@ + painted(
            p.on,
            "1"@,
            signal_label(*sigs, sig),
        ) + " to "@ + dec_nat(n as nat) + " "@ + noun(n as nat) + "."@,
{
    let mut r = String::new();
    push_str(&mut r, p.dim("·").as_str());
    push_str(&mut r, " dry run — would send ");
    push_str(&mut r, p.bold(signal_name(sig, sigs).as_str()).as_str());
    push_str(&mut r, " to ");
    push_count(&mut r, n);
    push_str(&mut r, " ");
    push_noun(&mut r, n);
    push_str(&mut r, ".");
    r
}

/// The line shown when confirmation is needed but standard input is no terminal.
pub fn refusal_line(p: &Paint, n: usize) -> (r: String)
    ensures
        r@ == painted(p.on, "31"@, "✗"@) + " refusing to kill "@ + dec_nat(n as nat) + " "@ + noun(
            n as nat,
        ) + " without confirmation. Re-run with "@ + painted(p.on, "1"@, "-y"@) + "."@,
{
    let mut r = String::new();
    push_str(&mut r, p.red("✗").as_str());
    push_str(&mut r, " refusing to kill ");
    push_count(&mut r, n);
    push_str(&mut r, " ");
    push_noun(&mut r, n);
    push_str(&mut r, " without confirmation. Re-run with ");
    push_str(&mut r, p.bold("-y").as_str());
    push_str(&mut r, ".");
    r
}

/// Who the prompt addresses: `it` for one process, `all N` otherwise.
pub open spec fn addressee(n: nat) -> Seq<char> {
    if n == 1 {
        "it"@
    } else {
        "all "@ + dec_nat(n)
    }
}

/// The confirmation prompt.
pub fn prompt_text(p: &Paint, sig: i32, n: usize, sigs: &Signals) -> (r: String)
    ensures
        r@ == painted(p.on, "33"@, "Send"@) + " "@ + painted(p.on, "1"@, signal_label(*sigs, sig)) + " "@
            + painted(p.on, "33"@, "to"@) + " "@ + addressee(n as nat) + "? ["@ + painted(
            p.on,
            "1"@,
            "y"@,
        ) + "/"@ + painted(p.on, "1"@, "N"@) + "] "@,
{
    let mut r = String::new();
    push_str(&mut r, p.yellow("Send").as_str());
    push_str(&mut r, " ");
    push_str(&mut r, p.bold(signal_name(sig, sigs).as_str()).as_str());
    push_str(&mut r, " ");
    push_str(&mut r, p.yellow("to").as_str());
    push_str(&mut r, " ");
    if n == 1 {
        push_str(&mut r, "it");
    } else {
        push_str(&mut r, "all ");
        push_count(&mut r, n);
    }
    push_str(&mut r, "? [");
    push_str(&mut r, p.bold("y").as_str());
    push_str(&mut r, "/");
    push_str(&mut r, p.bold("N").as_str());
    push_str(&mut r, "] ");
    r
}

/// The line shown when the user declines.
pub fn declined_line(p: &Paint) -> (r: String)
    ensures
        r@ == painted(p.on, "2"@, "Left them alone."@),
{
    p.dim("Left them alone.")
}

/// The line for a process that was signalled.
pub fn signalled_line(p: &Paint, name: &str, pid: i32) -> (r: String)
    ensures
        r@ == "  "@ + painted(p.on, "32"@, "✓"@) + " "@ + painted(p.on, "1"@, name@) + " "@ + painted(
            p.on,
            "2"@,
            "(pid "@ + dec_int(pid as int) + ")"@,
        ),
{
    let mut r = String::new();
    push_str(&mut r, "  ");
    push_str(&mut r, p.green("✓").as_str());
    push_str(&mut r, " ");
    push_str(&mut r, p.bold(name).as_str());
    push_str(&mut r, " ");
    let mut inner = String::new();
    push_str(&mut inner, "(pid ");
    let d = dec_i64(pid as i64);
    push_chars(&mut inner, d.as_slice());
    push_str(&mut inner, ")");
    push_str(&mut r, p.dim(inner.as_str()).as_str());
    r
}

/// The line for a process that could not be signalled, and why.
pub fn failed_line(p: &Paint, pid: i32, why: &str) -> (r: String)
    ensures
        r@ == "  "@ + painted(p.on, "31"@, "✗"@) + " pid "@ + dec_int(pid as int) + ": "@ + why@,
{
    let mut r = String::new();
    push_str(&mut r, "  ");
    push_str(&mut r, p.red("✗").as_str());
    push_str(&mut r, " pid ");
    let d = dec_i64(pid as i64);
    push_chars(&mut r, d.as_slice());
    push_str(&mut r, ": ");
    push_str(&mut r, why);
    r
}

proof fn lemma_widest_bounds(v: Seq<ProcView>, f: spec_fn(ProcView) -> nat, floor: nat)
    ensures
        widest(v, f, floor) >= floor,
        forall|i: int| 0 <= i < v.len() ==> widest(v, f, floor) >= f(#[trigger] v[i]),
    decreases v.len(),
{
    if v.len() > 0 {
        lemma_widest_bounds(v.drop_last(), f, floor);
        assert forall|i: int| 0 <= i < v.len() implies widest(v, f, floor) >= f(#[trigger] v[i]) by {
            if i < v.len() - 1 {
                assert(v[i] == v.drop_last()[i]);
            }
        }
    }
}

/// The columns line up: in the header and in every row, the process-id and
/// port columns take exactly their column's width in characters, and the
/// other columns at least the width of their heading.
pub proof fn law_columns_align(v: Seq<ProcView>, i: int)
    requires
        0 <= i < v.len(),
    ensures
        ({
            let w = column_widths(v);
            &&& pad_left("PID"@, w.0).len() == w.0
            &&& pad_left(dec_int(v[i].pid as int), w.0).len() == w.0
            &&& pad_left("PORT"@, w.2).len() == w.2
            &&& pad_left(port_text(v[i].port), w.2).len() == w.2
            &&& w.1 >= 4 && w.3 >= 7
        }),
{
    reveal_strlit("PID");
    reveal_strlit("PORT");
    reveal_strlit("-");
    lemma_widest_bounds(v, |p: ProcView| dec_int(p.pid as int).len(), 3);
    lemma_widest_bounds(v, |p: ProcView| byte_width(p.user), 4);
    lemma_widest_bounds(v, |p: ProcView| port_need(p.port), 4);
    lemma_widest_bounds(v, |p: ProcView| byte_width(p.name), 7);
    let w = column_widths(v);
    assert(dec_int(v[i].pid as int).len() <= w.0);
    assert(port_need(v[i].port) <= w.2);
}

} // verus!
