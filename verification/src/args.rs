//! The command line: options and targets.
use vstd::prelude::*;
use crate::text::{chars_of, has_prefix, is_text, skip_chars, starts_with, string_of, push_str};
use crate::signal::{Signals, parse_signal, signal_by_name, signal_of, default_signal, kill_signal};

verus! {

/// The options and targets of one run.
pub struct Opts {
    /// Signal to send.
    pub signal: i32,
    /// Match names against the full command line.
    pub full: bool,
    /// Require an exact name match.
    pub exact: bool,
    /// Match names without regard to case.
    pub ignore_case: bool,
    /// Do not ask before sending the signal.
    pub yes: bool,
    /// Show what would be signalled, signal nothing.
    pub dry_run: bool,
    /// Only processes of this user.
    pub user: Option<String>,
    /// Targets, in the order given.
    pub targets: Vec<String>,
    /// List the listening TCP ports.
    pub list: bool,
    /// Show the help.
    pub help: bool,
    /// Show the version.
    pub version: bool,
}

/// The mathematical value of `Opts`.
pub struct OptsView {
    pub signal: i32,
    pub full: bool,
    pub exact: bool,
    pub ignore_case: bool,
    pub yes: bool,
    pub dry_run: bool,
    pub user: Option<Seq<char>>,
    pub targets: Seq<Seq<char>>,
    pub list: bool,
    pub help: bool,
    pub version: bool,
}

/// The characters of each string.
pub open spec fn texts(v: Seq<String>) -> Seq<Seq<char>> {
    v.map_values(|s: String| s@)
}

/// The view of an optional string.
pub open spec fn opt_text(o: Option<String>) -> Option<Seq<char>> {
    match o {
        Some(s) => Some(s@),
        None => None,
    }
}

impl View for Opts {
    type V = OptsView;

    open spec fn view(&self) -> OptsView {
        OptsView {
            signal: self.signal,
            full: self.full,
            exact: self.exact,
            ignore_case: self.ignore_case,
            yes: self.yes,
            dry_run: self.dry_run,
            user: opt_text(self.user),
            targets: texts(self.targets@),
            list: self.list,
            help: self.help,
            version: self.version,
        }
    }
}

/// The options before any argument is read: `SIGTERM`, no flags, no user, no targets.
pub open spec fn initial_opts() -> OptsView {
    OptsView {
        signal: 15,
        full: false,
        exact: false,
        ignore_case: false,
        yes: false,
        dry_run: false,
        user: None,
        targets: Seq::empty(),
        list: false,
        help: false,
        version: false,
    }
}

/// What one letter of a bundle of short flags (`-9yf`) sets; `None` for a
/// letter that is no such flag.
pub open spec fn apply_flag(o: OptsView, c: char) -> Option<OptsView> {
    if c == 'f' {
        Some(OptsView { full: true, ..o })
    } else if c == 'x' {
        Some(OptsView { exact: true, ..o })
    } else if c == 'i' {
        Some(OptsView { ignore_case: true, ..o })
    } else if c == 'y' {
        Some(OptsView { yes: true, ..o })
    } else if c == 'n' {
        Some(OptsView { dry_run: true, ..o })
    } else if c == 'l' {
        Some(OptsView { list: true, ..o })
    } else if c == '9' {
        Some(OptsView { signal: 9, ..o })
    } else if c == 'h' {
        Some(OptsView { help: true, ..o })
    } else {
        None
    }
}

/// The letters `cs` of a bundle of short flags applied left to right; the
/// first letter that is no flag is the error.
pub open spec fn apply_bundle(o: OptsView, cs: Seq<char>) -> Result<OptsView, char>
    decreases cs.len(),
{
    if cs.len() == 0 {
        Ok(o)
    } else {
        match apply_bundle(o, cs.drop_last()) {
            Err(c) => Err(c),
            Ok(o2) => match apply_flag(o2, cs.last()) {
                Some(o3) => Ok(o3),
                None => Err(cs.last()),
            },
        }
    }
}

/// `o` with one more target.
pub open spec fn with_target(o: OptsView, t: Seq<char>) -> OptsView {
    OptsView { targets: o.targets.push(t), ..o }
}

/// What reading one argument does: the options after it, whether only
/// targets follow from then on, and whether the next argument was taken as
/// its value; or the message of an error.
pub enum ArgStep {
    Next(OptsView, bool, bool),
    Fail(Seq<char>),
}

/// Reading the argument `a` (followed by `next`, if there is one) with the
/// options `o` read so far; `only_pos` once `--` was seen, after which every
/// argument is a target.
pub open spec fn read_one(
    t: Signals,
    a: Seq<char>,
    next: Option<Seq<char>>,
    o: OptsView,
    only_pos: bool,
) -> ArgStep {
    if only_pos {
        ArgStep::Next(with_target(o, a), true, false)
    } else if a == "--"@ {
        ArgStep::Next(o, true, false)
    } else if a == "-h"@ || a == "--help"@ {
        ArgStep::Next(OptsView { help: true, ..o }, false, false)
    } else if a == "-V"@ || a == "--version"@ {
        ArgStep::Next(OptsView { version: true, ..o }, false, false)
    } else if a == "-f"@ || a == "--full"@ {
        ArgStep::Next(OptsView { full: true, ..o }, false, false)
    } else if a == "-x"@ || a == "--exact"@ {
        ArgStep::Next(OptsView { exact: true, ..o }, false, false)
    } else if a == "-i"@ || a == "--ignore-case"@ {
        ArgStep::Next(OptsView { ignore_case: true, ..o }, false, false)
    } else if a == "-y"@ || a == "--yes"@ {
        ArgStep::Next(OptsView { yes: true, ..o }, false, false)
    } else if a == "-n"@ || a == "--dry-run"@ {
        ArgStep::Next(OptsView { dry_run: true, ..o }, false, false)
    } else if a == "-l"@ || a == "--list"@ {
        ArgStep::Next(OptsView { list: true, ..o }, false, false)
    } else if a == "-9"@ {
        ArgStep::Next(OptsView { signal: 9, ..o }, false, false)
    } else if a == "-s"@ || a == "--signal"@ {
        match next {
            None => ArgStep::Fail("--signal needs a value"@),
            Some(v) => match signal_of(t, v) {
                Ok(n) => ArgStep::Next(OptsView { signal: n, ..o }, false, true),
                Err(e) => ArgStep::Fail(e),
            },
        }
    } else if a == "-u"@ || a == "--user"@ {
        match next {
            None => ArgStep::Fail("--user needs a value"@),
            Some(v) => ArgStep::Next(OptsView { user: Some(v), ..o }, false, true),
        }
    } else if has_prefix(a, "--signal="@) {
        match signal_of(t, a.skip("--signal="@.len() as int)) {
            Ok(n) => ArgStep::Next(OptsView { signal: n, ..o }, false, false),
            Err(e) => ArgStep::Fail(e),
        }
    } else if has_prefix(a, "--user="@) {
        ArgStep::Next(OptsView { user: Some(a.skip("--user="@.len() as int)), ..o }, false, false)
    } else if a.len() > 1 && a[0] == '-' && !has_prefix(a, "--"@) {
        match apply_bundle(o, a.drop_first()) {
            Ok(o2) => ArgStep::Next(o2, false, false),
            Err(c) => ArgStep::Fail("unknown flag -"@.push(c)),
        }
    } else {
        ArgStep::Next(with_target(o, a), false, false)
    }
}

/// The argument after index `i`, if there is one.
pub open spec fn next_arg(args: Seq<Seq<char>>, i: int) -> Option<Seq<char>> {
    if i + 1 < args.len() {
        Some(args[i + 1])
    } else {
        None
    }
}

/// Reading the arguments from index `i` on, with the options `o` read so far.
pub open spec fn parse_from(
    t: Signals,
    args: Seq<Seq<char>>,
    i: int,
    o: OptsView,
    only_pos: bool,
) -> Result<
    OptsView,
    Seq<char>,
>
    decreases args.len() - i,
{
    if i < 0 || i >= args.len() {
        Ok(o)
    } else {
        match read_one(t, args[i], next_arg(args, i), o, only_pos) {
            ArgStep::Next(o2, p2, took) => parse_from(
                t,
                args,
                i + if took {
                    2int
                } else {
                    1int
                },
                o2,
                p2,
            ),
            ArgStep::Fail(e) => Err(e),
        }
    }
}

/// What the arguments (without the program's name) give: the options, or the
/// message of the first error.
pub open spec fn args_outcome(t: Signals, args: Seq<Seq<char>>) -> Result<OptsView, Seq<char>> {
    parse_from(t, args, 0, initial_opts(), false)
}

/// The view of a parse result.
pub open spec fn opts_result_view(r: Result<Opts, String>) -> Result<OptsView, Seq<char>> {
    match r {
        Ok(o) => Ok(o@),
        Err(e) => Err(e@),
    }
}

fn apply_bundle_exec(o: &mut Opts, cs: &[char]) -> (r: Result<(), char>)
    ensures
        match r {
            Ok(()) => apply_bundle(old(o)@, cs@) == Ok::<OptsView, char>(final(o)@),
            Err(c) => apply_bundle(old(o)@, cs@) == Err::<OptsView, char>(c),
        },
{
    let ghost o0 = o@;
    let mut k: usize = 0;
    assert(cs@.take(0) =~= Seq::<char>::empty());
    while k < cs.len()
        invariant
            k <= cs@.len(),
            o0 == old(o)@,
            apply_bundle(o0, cs@.take(k as int)) == Ok::<OptsView, char>(o@),
        decreases cs@.len() - k,
    {
        assert(cs@.take(k + 1).drop_last() =~= cs@.take(k as int));
        let c = cs[k];
        if c == 'f' {
            o.full = true;
        } else if c == 'x' {
            o.exact = true;
        } else if c == 'i' {
            o.ignore_case = true;
        } else if c == 'y' {
            o.yes = true;
        } else if c == 'n' {
            o.dry_run = true;
        } else if c == 'l' {
            o.list = true;
        } else if c == '9' {
            o.signal = kill_signal();
        } else if c == 'h' {
            o.help = true;
        } else {
            assert(cs@.take(k + 1).last() == c);
            assert(apply_bundle(o0, cs@.take(k + 1)) == Err::<OptsView, char>(c));
            proof {
                lemma_bundle_error_stays(o0, cs@, k as int);
            }
            return Err(c);
        }
        k = k + 1;
    }
    assert(cs@.take(cs@.len() as int) =~= cs@);
    Ok(())
}

proof fn lemma_bundle_error_stays(o: OptsView, cs: Seq<char>, k: int)
    requires
        0 <= k < cs.len(),
        apply_bundle(o, cs.take(k + 1)) is Err,
    ensures
        apply_bundle(o, cs) == apply_bundle(o, cs.take(k + 1)),
    decreases cs.len() - k,
{
    if k + 1 < cs.len() {
        assert(cs.drop_last().take(k + 1) =~= cs.take(k + 1));
        lemma_bundle_error_stays(o, cs.drop_last(), k);
    } else {
        assert(cs.take(k + 1) =~= cs);
    }
}

/// Reads the argument at index `i` (and its value, for an option that takes
/// one) into `o`; gives the index of the next argument to read.
#[verifier::rlimit(60)]
fn read_arg(
    args: &Vec<String>,
    i: usize,
    o: &mut Opts,
    only_pos: &mut bool,
    sigs: &Signals,
) -> (r: Result<usize, String>)
    requires
        i < args@.len(),
    ensures
        match r {
            Ok(j) => i < j <= args@.len() && parse_from(*sigs, texts(args@), i as int, old(o)@, *old(only_pos))
                == parse_from(*sigs, texts(args@), j as int, final(o)@, *final(only_pos)),
            Err(e) => parse_from(*sigs, texts(args@), i as int, old(o)@, *old(only_pos)) == Err::<
                OptsView,
                Seq<char>,
            >(e@),
        },
{
    let ghost all = texts(args@);
    let n = args.len();
    let a: &String = &args[i];
    assert(all[i as int] == a@);
    let cs = chars_of(a.as_str());
    let s = cs.as_slice();
    let ghost before = o@;
    if *only_pos {
        o.targets.push(a.clone());
        assert(o@.targets =~= before.targets.push(a@));
        assert(o@ == with_target(before, a@));
        return Ok(i + 1);
    } else if is_text(s, "--") {
        *only_pos = true;
        return Ok(i + 1);
    } else if is_text(s, "-h") || is_text(s, "--help") {
        o.help = true;
        return Ok(i + 1);
    } else if is_text(s, "-V") || is_text(s, "--version") {
        o.version = true;
        return Ok(i + 1);
    } else if is_text(s, "-f") || is_text(s, "--full") {
        o.full = true;
        return Ok(i + 1);
    } else if is_text(s, "-x") || is_text(s, "--exact") {
        o.exact = true;
        return Ok(i + 1);
    } else if is_text(s, "-i") || is_text(s, "--ignore-case") {
        o.ignore_case = true;
        return Ok(i + 1);
    } else if is_text(s, "-y") || is_text(s, "--yes") {
        o.yes = true;
        return Ok(i + 1);
    } else if is_text(s, "-n") || is_text(s, "--dry-run") {
        o.dry_run = true;
        return Ok(i + 1);
    } else if is_text(s, "-l") || is_text(s, "--list") {
        o.list = true;
        return Ok(i + 1);
    } else if is_text(s, "-9") {
        o.signal = kill_signal();
        return Ok(i + 1);
    } else if is_text(s, "-s") || is_text(s, "--signal") {
        if i + 1 >= n {
            let mut e = String::new();
            push_str(&mut e, "--signal needs a value");
            return Err(e);
        }
        assert(all[i + 1] == args@[i + 1]@);
        match parse_signal(args[i + 1].as_str(), sigs) {
            Ok(v) => {
                o.signal = v;
                return Ok(i + 2);
            },
            Err(e) => {
                return Err(e);
            },
        }
    } else if is_text(s, "-u") || is_text(s, "--user") {
        if i + 1 >= n {
            let mut e = String::new();
            push_str(&mut e, "--user needs a value");
            return Err(e);
        }
        assert(all[i + 1] == args@[i + 1]@);
        o.user = Some(args[i + 1].clone());
        return Ok(i + 2);
    } else {
        let sig_eq = chars_of("--signal=");
        let user_eq = chars_of("--user=");
        let dashes = chars_of("--");
        if starts_with(s, sig_eq.as_slice()) {
            let rest = skip_chars(s, sig_eq.len());
            let rs = string_of(rest.as_slice());
            match parse_signal(rs.as_str(), sigs) {
                Ok(v) => {
                    o.signal = v;
                    return Ok(i + 1);
                },
                Err(e) => {
                    return Err(e);
                },
            }
        } else if starts_with(s, user_eq.as_slice()) {
            let rest = skip_chars(s, user_eq.len());
            o.user = Some(string_of(rest.as_slice()));
            return Ok(i + 1);
        } else if s.len() > 1 && s[0] == '-' && !starts_with(s, dashes.as_slice()) {
            let letters = skip_chars(s, 1);
            assert(letters@ =~= a@.drop_first());
            match apply_bundle_exec(o, letters.as_slice()) {
                Ok(()) => {
                    return Ok(i + 1);
                },
                Err(c) => {
                    let mut e = String::new();
                    push_str(&mut e, "unknown flag -");
                    crate::text::push_char(&mut e, c);
                    return Err(e);
                },
            }
        } else {
            o.targets.push(a.clone());
            assert(o@.targets =~= before.targets.push(a@));
            assert(o@ == with_target(before, a@));
            return Ok(i + 1);
        }
    }
}

/// Reads the command line (the arguments after the program's name).
pub fn parse_args(args: &Vec<String>, sigs: &Signals) -> (r: Result<Opts, String>)
    ensures
        opts_result_view(r) == args_outcome(*sigs, texts(args@)),
{
    let ghost all = texts(args@);
    let mut o = Opts {
        signal: default_signal(),
        full: false,
        exact: false,
        ignore_case: false,
        yes: false,
        dry_run: false,
        user: None,
        targets: Vec::new(),
        list: false,
        help: false,
        version: false,
    };
    assert(o@.targets =~= Seq::<Seq<char>>::empty());
    assert(o@ == initial_opts());
    let mut only_pos = false;
    let mut i: usize = 0;
    let n = args.len();
    while i < n
        invariant
            n == args@.len(),
            all == texts(args@),
            i <= n,
            args_outcome(*sigs, all) == parse_from(*sigs, all, i as int, o@, only_pos),
        decreases n - i,
    {
        match read_arg(args, i, &mut o, &mut only_pos, sigs) {
            Ok(j) => {
                i = j;
            },
            Err(e) => {
                return Err(e);
            },
        }
    }
    Ok(o)
}

// ───────────────────────── laws ─────────────────────────

/// A letter that may stand in a bundle of short flags.
pub open spec fn is_flag_letter(c: char) -> bool {
    c == 'f' || c == 'x' || c == 'i' || c == 'y' || c == 'n' || c == 'l' || c == '9' || c == 'h'
}

/// Each letter of `cs` as a short flag of its own: `-a`, `-b`, ...
pub open spec fn singles(cs: Seq<char>) -> Seq<Seq<char>> {
    Seq::new(cs.len(), |i: int| seq!['-', cs[i]])
}

/// Reading the arguments after a prefix `pre` is reading them alone.
proof fn lemma_shift(t: Signals, pre: Seq<Seq<char>>, rest: Seq<Seq<char>>, i: int)
    requires
        0 <= i,
    ensures
        forall|o: OptsView, p: bool|
            #[trigger] parse_from(t, pre + rest, i + pre.len(), o, p) == parse_from(t, rest, i, o, p),
    decreases rest.len() - i,
{
    if i < rest.len() {
        lemma_shift(t, pre, rest, i + 1);
        if i + 2 <= rest.len() {
            lemma_shift(t, pre, rest, i + 2);
        }
        let all = pre + rest;
        assert(i + pre.len() + 1 == (i + 1) + pre.len());
        assert(i + pre.len() + 2 == (i + 2) + pre.len());
        assert(all[i + pre.len()] == rest[i]);
        assert(next_arg(all, i + pre.len()) == next_arg(rest, i)) by {
            if i + 1 < rest.len() {
                assert(all[i + pre.len() + 1] == rest[i + 1]);
            }
        }
        assert forall|o: OptsView, p: bool|
            #[trigger] parse_from(t, pre + rest, i + pre.len(), o, p) == parse_from(t, rest, i, o, p) by {
            match read_one(t, rest[i], next_arg(rest, i), o, p) {
                ArgStep::Next(o2, p2, took) => {
                    if took {
                        assert(next_arg(rest, i) is Some);
                        assert(parse_from(t, all, (i + 2) + pre.len(), o2, p2) == parse_from(t, 
                            rest,
                            i + 2,
                            o2,
                            p2,
                        ));
                    } else {
                        assert(parse_from(t, all, (i + 1) + pre.len(), o2, p2) == parse_from(t, 
                            rest,
                            i + 1,
                            o2,
                            p2,
                        ));
                    }
                },
                ArgStep::Fail(e) => {},
            }
        }
    }
}

proof fn lemma_flag_some(o: OptsView, c: char)
    requires
        is_flag_letter(c),
    ensures
        apply_flag(o, c) is Some,
{
}

/// The letters of a bundle are applied one after another, the first one first.
proof fn lemma_bundle_front(o: OptsView, cs: Seq<char>)
    requires
        cs.len() >= 1,
        forall|i: int| 0 <= i < cs.len() ==> is_flag_letter(#[trigger] cs[i]),
    ensures
        apply_bundle(o, cs) is Ok,
        apply_bundle(o, cs) == apply_bundle(apply_flag(o, cs[0])->0, cs.drop_first()),
    decreases cs.len(),
{
    lemma_flag_some(o, cs[0]);
    if cs.len() == 1 {
        assert(cs.drop_last() =~= Seq::<char>::empty());
        assert(cs.drop_first() =~= Seq::<char>::empty());
    } else {
        let init = cs.drop_last();
        lemma_bundle_front(o, init);
        assert(init.drop_first() =~= cs.drop_first().drop_last());
        assert(cs.drop_first().last() == cs.last());
        lemma_flag_some(apply_bundle(o, init)->Ok_0, cs.last());
    }
}

proof fn lemma_single_flag(t: Signals, args: Seq<Seq<char>>, o: OptsView, c: char)
    requires
        args.len() >= 1,
        args[0] == seq!['-', c],
        is_flag_letter(c),
    ensures
        parse_from(t, args, 0, o, false) == parse_from(t, args, 1, apply_flag(o, c)->0, false),
{
    reveal_strlit("--");
    reveal_strlit("-h");
    reveal_strlit("-V");
    reveal_strlit("-f");
    reveal_strlit("-x");
    reveal_strlit("-i");
    reveal_strlit("-y");
    reveal_strlit("-n");
    reveal_strlit("-l");
    reveal_strlit("-9");
    reveal_strlit("-s");
    reveal_strlit("-u");
    reveal_strlit("--help");
    reveal_strlit("--version");
    reveal_strlit("--full");
    reveal_strlit("--exact");
    reveal_strlit("--ignore-case");
    reveal_strlit("--yes");
    reveal_strlit("--dry-run");
    reveal_strlit("--list");
    reveal_strlit("--signal");
    reveal_strlit("--user");
    let a = args[0];
    assert(a[1] == c);
    if c == 'f' {
        assert(a =~= "-f"@);
    } else if c == 'x' {
        assert(a =~= "-x"@);
    } else if c == 'i' {
        assert(a =~= "-i"@);
    } else if c == 'y' {
        assert(a =~= "-y"@);
    } else if c == 'n' {
        assert(a =~= "-n"@);
    } else if c == 'l' {
        assert(a =~= "-l"@);
    } else if c == '9' {
        assert(a =~= "-9"@);
    } else {
        assert(a =~= "-h"@);
    }
}

proof fn lemma_singles(t: Signals, cs: Seq<char>, rest: Seq<Seq<char>>, o: OptsView)
    requires
        forall|i: int| 0 <= i < cs.len() ==> is_flag_letter(#[trigger] cs[i]),
    ensures
        cs.len() == 0 ==> parse_from(t, singles(cs) + rest, 0, o, false) == parse_from(t, rest, 0, o, false),
        cs.len() >= 1 ==> parse_from(t, singles(cs) + rest, 0, o, false) == parse_from(t, 
            rest,
            0,
            apply_bundle(o, cs)->Ok_0,
            false,
        ),
    decreases cs.len(),
{
    if cs.len() == 0 {
        assert(singles(cs) + rest =~= rest);
    } else {
        let c = cs[0];
        let tail = cs.drop_first();
        let head = seq![seq!['-', c]];
        assert(singles(cs) + rest =~= head + (singles(tail) + rest));
        lemma_single_flag(t, singles(cs) + rest, o, c);
        lemma_flag_some(o, c);
        let o1 = apply_flag(o, c)->0;
        lemma_shift(t, head, singles(tail) + rest, 0);
        assert(parse_from(t, head + (singles(tail) + rest), (0 + head.len()) as int, o1, false) == parse_from(t, 
            singles(tail) + rest,
            0,
            o1,
            false,
        ));
        lemma_singles(t, tail, rest, o1);
        lemma_bundle_front(o, cs);
        if tail.len() == 0 {
            assert(cs.drop_last() =~= Seq::<char>::empty());
        }
    }
}

/// Short flags bundle: `-9yf` reads as `-9 -y -f`, whatever follows.
pub proof fn law_bundled_flags(t: Signals, cs: Seq<char>, rest: Seq<Seq<char>>, o: OptsView)
    requires
        cs.len() >= 1,
        forall|i: int| 0 <= i < cs.len() ==> is_flag_letter(#[trigger] cs[i]),
    ensures
        parse_from(t, seq![seq!['-'] + cs] + rest, 0, o, false) == parse_from(t, singles(cs) + rest, 0, o, false),
{
    lemma_singles(t, cs, rest, o);
    lemma_bundle_front(o, cs);
    let a = seq!['-'] + cs;
    let head = seq![a];
    let args = head + rest;
    assert(args[0] == a);
    let o2 = apply_bundle(o, cs)->Ok_0;
    lemma_shift(t, head, rest, 0);
    assert(parse_from(t, head + rest, (0 + head.len()) as int, o2, false) == parse_from(t, rest, 0, o2, false));
    if cs.len() == 1 {
        assert(a =~= seq!['-', cs[0]]);
        lemma_single_flag(t, args, o, cs[0]);
        assert(cs.drop_last() =~= Seq::<char>::empty());
    } else {
        reveal_strlit("--");
        reveal_strlit("-h");
        reveal_strlit("-V");
        reveal_strlit("-f");
        reveal_strlit("-x");
        reveal_strlit("-i");
        reveal_strlit("-y");
        reveal_strlit("-n");
        reveal_strlit("-l");
        reveal_strlit("-9");
        reveal_strlit("-s");
        reveal_strlit("-u");
        reveal_strlit("--help");
        reveal_strlit("--version");
        reveal_strlit("--full");
        reveal_strlit("--exact");
        reveal_strlit("--ignore-case");
        reveal_strlit("--yes");
        reveal_strlit("--dry-run");
        reveal_strlit("--list");
        reveal_strlit("--signal");
        reveal_strlit("--user");
        reveal_strlit("--signal=");
        reveal_strlit("--user=");
        assert(a[1] == cs[0]);
        assert(is_flag_letter(cs[0]));
        assert(a.drop_first() =~= cs);
        assert(!has_prefix(a, "--"@)) by {
            assert(a.take(2)[1] == a[1]);
        }
        assert(!has_prefix(a, "--signal="@)) by {
            if a.len() >= 9 {
                assert(a.take(9)[1] == a[1]);
            }
        }
        assert(!has_prefix(a, "--user="@)) by {
            if a.len() >= 7 {
                assert(a.take(7)[1] == a[1]);
            }
        }
    }
}

/// `-9` is shorthand for `--signal` with any value that names signal 9 (such
/// as `KILL`), whatever follows.
pub proof fn law_nine_is_kill(t: Signals, v: Seq<char>, rest: Seq<Seq<char>>, o: OptsView)
    requires
        signal_of(t, v) == Ok::<i32, Seq<char>>(9),
    ensures
        parse_from(t, seq!["-9"@] + rest, 0, o, false) == parse_from(t, 
            seq!["--signal"@, v] + rest,
            0,
            o,
            false,
        ),
{
    reveal_strlit("--");
    reveal_strlit("-h");
    reveal_strlit("-V");
    reveal_strlit("-f");
    reveal_strlit("-x");
    reveal_strlit("-i");
    reveal_strlit("-y");
    reveal_strlit("-n");
    reveal_strlit("-l");
    reveal_strlit("-9");
    reveal_strlit("-s");
    reveal_strlit("--help");
    reveal_strlit("--version");
    reveal_strlit("--full");
    reveal_strlit("--exact");
    reveal_strlit("--ignore-case");
    reveal_strlit("--yes");
    reveal_strlit("--dry-run");
    reveal_strlit("--list");
    reveal_strlit("--signal");
    let o9 = OptsView { signal: 9, ..o };
    let one = seq!["-9"@];
    let two = seq!["--signal"@, v];
    lemma_shift(t, one, rest, 0);
    lemma_shift(t, two, rest, 0);
    assert((one + rest)[0] == "-9"@);
    assert((two + rest)[0] == "--signal"@);
    assert((two + rest)[1] == v);
    assert(parse_from(t, one + rest, (0 + one.len()) as int, o9, false) == parse_from(t, rest, 0, o9, false));
    assert(parse_from(t, two + rest, (0 + two.len()) as int, o9, false) == parse_from(t, rest, 0, o9, false));
}

proof fn lemma_only_targets(t: Signals, args: Seq<Seq<char>>, i: int, o: OptsView)
    requires
        0 <= i <= args.len(),
    ensures
        parse_from(t, args, i, o, true) == Ok::<OptsView, Seq<char>>(
            OptsView { targets: o.targets + args.skip(i), ..o },
        ),
    decreases args.len() - i,
{
    if i < args.len() {
        lemma_only_targets(t, args, i + 1, with_target(o, args[i]));
        assert(o.targets.push(args[i]) + args.skip(i + 1) =~= o.targets + args.skip(i));
    } else {
        assert(o.targets + args.skip(i) =~= o.targets);
    }
}

/// After `--` every argument is a target, in order, whatever it looks like.
pub proof fn law_double_dash(t: Signals, rest: Seq<Seq<char>>, o: OptsView)
    ensures
        parse_from(t, seq!["--"@] + rest, 0, o, false) == Ok::<OptsView, Seq<char>>(
            OptsView { targets: o.targets + rest, ..o },
        ),
{
    let one = seq!["--"@];
    lemma_shift(t, one, rest, 0);
    assert((one + rest)[0] == "--"@);
    lemma_only_targets(t, rest, 0, o);
    assert(rest.skip(0) =~= rest);
    assert(parse_from(t, one + rest, (0 + one.len()) as int, o, true) == parse_from(t, rest, 0, o, true));
}

/// `-9` is shorthand for `--signal KILL` on a Linux signal table.
pub proof fn law_nine_is_sigkill(t: Signals, rest: Seq<Seq<char>>, o: OptsView)
    requires
        t.valid(),
    ensures
        parse_from(t, seq!["-9"@] + rest, 0, o, false) == parse_from(
            t,
            seq!["--signal"@, "KILL"@] + rest,
            0,
            o,
            false,
        ),
{
    reveal_strlit("HUP");
    reveal_strlit("INT");
    reveal_strlit("QUIT");
    reveal_strlit("ABRT");
    reveal_strlit("KILL");
    assert(signal_by_name(t, "KILL"@) == Some(t.kill));
    crate::signal::law_signal_names(t, "KILL"@);
    law_nine_is_kill(t, "KILL"@, rest, o);
}

/// What reading `--signal v` (or `-s v`) does, whatever follows: the signal
/// that `v` names, or the error for `v`.
pub open spec fn signal_step(
    t: Signals,
    v: Seq<char>,
    rest: Seq<Seq<char>>,
    o: OptsView,
) -> Result<OptsView, Seq<char>> {
    match signal_of(t, v) {
        Ok(n) => parse_from(t, rest, 0, OptsView { signal: n, ..o }, false),
        Err(e) => Err(e),
    }
}

proof fn lemma_signal_spellings(t: Signals, v: Seq<char>, rest: Seq<Seq<char>>, o: OptsView)
    ensures
        parse_from(t, seq!["-s"@, v] + rest, 0, o, false) == signal_step(t, v, rest, o),
        parse_from(t, seq!["--signal"@, v] + rest, 0, o, false) == signal_step(t, v, rest, o),
        parse_from(t, seq!["--signal="@ + v] + rest, 0, o, false) == signal_step(t, v, rest, o),
{
    reveal_strlit("--");
    reveal_strlit("-h");
    reveal_strlit("-V");
    reveal_strlit("-f");
    reveal_strlit("-x");
    reveal_strlit("-i");
    reveal_strlit("-y");
    reveal_strlit("-n");
    reveal_strlit("-l");
    reveal_strlit("-9");
    reveal_strlit("-s");
    reveal_strlit("-u");
    reveal_strlit("--help");
    reveal_strlit("--version");
    reveal_strlit("--full");
    reveal_strlit("--exact");
    reveal_strlit("--ignore-case");
    reveal_strlit("--yes");
    reveal_strlit("--dry-run");
    reveal_strlit("--list");
    reveal_strlit("--signal");
    reveal_strlit("--user");
    reveal_strlit("--signal=");
    let short = seq!["-s"@, v];
    let long = seq!["--signal"@, v];
    let a = "--signal="@ + v;
    let eq = seq![a];
    lemma_shift(t, short, rest, 0);
    lemma_shift(t, long, rest, 0);
    lemma_shift(t, eq, rest, 0);
    assert((short + rest)[0] == "-s"@);
    assert((short + rest)[1] == v);
    assert((long + rest)[0] == "--signal"@);
    assert((long + rest)[1] == v);
    assert((eq + rest)[0] == a);
    assert(a.skip(9) =~= v);
    assert(a.take(9) =~= "--signal="@);
    assert(a[2] == 's');
    assert(a.len() >= 9);
    assert(a != "--signal"@) by {
        assert(a.len() != "--signal"@.len());
    }
    match signal_of(t, v) {
        Ok(n) => {
            let o2 = OptsView { signal: n, ..o };
            assert(parse_from(t, short + rest, (0 + short.len()) as int, o2, false) == parse_from(
                t,
                rest,
                0,
                o2,
                false,
            ));
            assert(parse_from(t, long + rest, (0 + long.len()) as int, o2, false) == parse_from(
                t,
                rest,
                0,
                o2,
                false,
            ));
            assert(parse_from(t, eq + rest, (0 + eq.len()) as int, o2, false) == parse_from(
                t,
                rest,
                0,
                o2,
                false,
            ));
        },
        Err(e) => {},
    }
}

/// `-s v`, `--signal v` and `--signal=v` read alike for every `v`, whatever
/// follows: the signal that `v` names, or the error for `v`. Alone, they give
/// the default options with that signal.
pub proof fn law_signal_spellings(t: Signals, v: Seq<char>, rest: Seq<Seq<char>>, o: OptsView)
    ensures
        parse_from(t, seq!["-s"@, v] + rest, 0, o, false) == signal_step(t, v, rest, o),
        parse_from(t, seq!["--signal"@, v] + rest, 0, o, false) == signal_step(t, v, rest, o),
        parse_from(t, seq!["--signal="@ + v] + rest, 0, o, false) == signal_step(t, v, rest, o),
        args_outcome(t, seq!["-s"@, v]) == args_outcome(t, seq!["--signal"@, v]),
        args_outcome(t, seq!["--signal="@ + v]) == args_outcome(t, seq!["--signal"@, v]),
        args_outcome(t, seq!["--signal"@, v]) == (match signal_of(t, v) {
            Ok(n) => Ok::<OptsView, Seq<char>>(OptsView { signal: n, ..initial_opts() }),
            Err(e) => Err(e),
        }),
{
    lemma_signal_spellings(t, v, rest, o);
    let none = Seq::<Seq<char>>::empty();
    lemma_signal_spellings(t, v, none, initial_opts());
    assert(seq!["-s"@, v] + none =~= seq!["-s"@, v]);
    assert(seq!["--signal"@, v] + none =~= seq!["--signal"@, v]);
    assert(seq!["--signal="@ + v] + none =~= seq!["--signal="@ + v]);
}

/// An argument that takes no value reads the same whatever follows it.
proof fn lemma_next_unused(t: Signals, a: Seq<char>, x: Seq<char>, o: OptsView)
    requires
        read_one(t, a, None, o, false) is Next,
    ensures
        read_one(t, a, Some(x), o, false) == read_one(t, a, None, o, false),
        !read_one(t, a, None, o, false)->Next_2,
{
}

/// Arguments without `--` that read without error read the same with more
/// arguments after them, which are then read from where they stopped.
proof fn lemma_prefix(t: Signals, a: Seq<Seq<char>>, c: Seq<Seq<char>>, i: int, o: OptsView)
    requires
        0 <= i <= a.len(),
        forall|k: int| i <= k < a.len() ==> a[k] != "--"@,
        parse_from(t, a, i, o, false) is Ok,
    ensures
        parse_from(t, a + c, i, o, false) == parse_from(t, c, 0, parse_from(t, a, i, o, false)->Ok_0, false),
    decreases a.len() - i,
{
    lemma_shift(t, a, c, 0);
    if i < a.len() {
        let all = a + c;
        assert(all[i] == a[i]);
        match read_one(t, a[i], next_arg(a, i), o, false) {
            ArgStep::Next(o2, p2, took) => {
                assert(!p2);
                if i + 1 < a.len() {
                    assert(all[i + 1] == a[i + 1]);
                    assert(next_arg(all, i) == next_arg(a, i));
                } else if i + 1 < all.len() {
                    lemma_next_unused(t, a[i], all[i + 1], o);
                } else {
                    assert(next_arg(all, i) == next_arg(a, i));
                }
                let j = i + if took {
                    2int
                } else {
                    1int
                };
                lemma_prefix(t, a, c, j, o2);
            },
            ArgStep::Fail(e) => {},
        }
    } else {
        assert(parse_from(t, a + c, (0 + a.len()) as int, o, false) == parse_from(t, c, 0, o, false));
    }
}

/// After `--` every argument is a target, in order, whatever it looks like:
/// arguments without `--` that read without error, then `--`, then any
/// arguments, read as those first arguments did with the rest as targets.
pub proof fn law_double_dash_after(t: Signals, pre: Seq<Seq<char>>, rest: Seq<Seq<char>>)
    requires
        forall|k: int| 0 <= k < pre.len() ==> pre[k] != "--"@,
        args_outcome(t, pre) is Ok,
    ensures
        args_outcome(t, pre + seq!["--"@] + rest) == Ok::<OptsView, Seq<char>>(
            OptsView {
                targets: args_outcome(t, pre)->Ok_0.targets + rest,
                ..args_outcome(t, pre)->Ok_0
            },
        ),
{
    let c = seq!["--"@] + rest;
    lemma_prefix(t, pre, c, 0, initial_opts());
    assert(pre + seq!["--"@] + rest =~= pre + c);
    law_double_dash(t, rest, args_outcome(t, pre)->Ok_0);
}

} // verus!
