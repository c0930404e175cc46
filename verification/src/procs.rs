//! Processes as they are shown and matched: their owner, name and command line,
//! and the user table that names owners.
use vstd::prelude::*;
use std::collections::HashMap;
use crate::text::{
    chars_of, dec_nat, dec_u64, lines, lines_of, push_str, split, split_chars,
    string_of, trim_end, trim_end_chars,
};
use crate::num::{parse_i32, parse_i32_chars, parse_u32, parse_u32_chars};

verus! {

broadcast use vstd::std_specs::hash::group_hash_axioms;

/// A process that may be signalled.
pub struct Proc {
    /// Process id.
    pub pid: i32,
    /// Owner: a user name, or the numeric uid where the user table has none.
    pub user: String,
    /// The short name the kernel keeps (`/proc/<pid>/comm`).
    pub name: String,
    /// The full argument list, joined by spaces.
    pub cmdline: String,
    /// The port it matched through, when it was found by port.
    pub port: Option<u16>,
}

/// The mathematical value of a `Proc`.
pub struct ProcView {
    pub pid: i32,
    pub user: Seq<char>,
    pub name: Seq<char>,
    pub cmdline: Seq<char>,
    pub port: Option<u16>,
}

impl View for Proc {
    type V = ProcView;

    open spec fn view(&self) -> ProcView {
        ProcView {
            pid: self.pid,
            user: self.user@,
            name: self.name@,
            cmdline: self.cmdline@,
            port: self.port,
        }
    }
}

/// The views of a sequence of processes.
pub open spec fn procs_view(v: Seq<Proc>) -> Seq<ProcView> {
    v.map_values(|p: Proc| p@)
}

impl Proc {
    /// A copy of this process.
    pub fn duplicate(&self) -> (r: Proc)
        ensures
            r@ == self@,
    {
        Proc {
            pid: self.pid,
            user: self.user.clone(),
            name: self.name.clone(),
            cmdline: self.cmdline.clone(),
            port: self.port,
        }
    }

    /// A copy of this process that records `port` as the port it matched through.
    pub fn with_port(&self, port: u16) -> (r: Proc)
        ensures
            r@ == (ProcView { port: Some(port), ..self@ }),
    {
        let mut c = self.duplicate();
        c.port = Some(port);
        c
    }
}

// ───────────────────────── the user table ─────────────────────────

/// The uid and name that one line of `/etc/passwd` gives: its first field is
/// the name and its third field, when it is a number, the uid.
pub open spec fn passwd_entry(line: Seq<char>) -> Option<(u32, Seq<char>)> {
    let f = split(line, ':');
    if f.len() >= 3 && parse_u32(f[2]) is Some {
        Some((parse_u32(f[2])->0, f[0]))
    } else {
        None
    }
}

/// The user table of the lines `ls`: for each uid, the name on the first line
/// that gives it.
pub open spec fn users_from(ls: Seq<Seq<char>>) -> Map<u32, Seq<char>>
    decreases ls.len(),
{
    if ls.len() == 0 {
        Map::empty()
    } else {
        let m = users_from(ls.drop_last());
        match passwd_entry(ls.last()) {
            Some((uid, name)) => if m.contains_key(uid) {
                m
            } else {
                m.insert(uid, name)
            },
            None => m,
        }
    }
}

/// The names of a user table as character sequences.
pub open spec fn names_view(m: Map<u32, String>) -> Map<u32, Seq<char>> {
    m.map_values(|s: String| s@)
}

/// The uid and name of one `/etc/passwd` line, if it gives both.
pub fn passwd_line(line: &[char]) -> (r: Option<(u32, String)>)
    ensures
        match r {
            Some((uid, name)) => passwd_entry(line@) == Some((uid, name@)),
            None => passwd_entry(line@) is None,
        },
{
    let f = split_chars(line, ':');
    if f.len() < 3 {
        return None;
    }
    match parse_u32_chars(f[2].as_slice()) {
        Some(uid) => Some((uid, string_of(f[0].as_slice()))),
        None => None,
    }
}

/// The user table that the text of `/etc/passwd` gives (empty for an empty text).
pub fn passwd_users(txt: &str) -> (m: HashMap<u32, String>)
    ensures
        names_view(m@) == users_from(lines(txt@)),
{
    let cs = chars_of(txt);
    let ls = lines_of(cs.as_slice());
    let ghost all = lines(txt@);
    let mut m: HashMap<u32, String> = HashMap::new();
    let mut i: usize = 0;
    assert(all.take(0) =~= Seq::<Seq<char>>::empty());
    assert(names_view(m@) =~= Map::<u32, Seq<char>>::empty());
    while i < ls.len()
        invariant
            all == lines(txt@),
            ls@.len() == all.len(),
            forall|j: int| 0 <= j < ls@.len() ==> #[trigger] ls@[j]@ == all[j],
            i <= ls@.len(),
            names_view(m@) == users_from(all.take(i as int)),
        decreases ls@.len() - i,
    {
        assert(all.take(i + 1).drop_last() =~= all.take(i as int));
        assert(all.take(i + 1).last() == ls@[i as int]@);
        match passwd_line(ls[i].as_slice()) {
            Some((uid, name)) => {
                if !m.contains_key(&uid) {
                    let ghost before = m@;
                    m.insert(uid, name);
                    assert(names_view(m@) =~= names_view(before).insert(uid, name@));
                }
            },
            None => {},
        }
        i = i + 1;
    }
    assert(all.take(ls@.len() as int) =~= all);
    m
}

/// How the owner `uid` is shown: its name in `users`, else the number.
pub open spec fn user_label(users: Map<u32, Seq<char>>, uid: u32) -> Seq<char> {
    if users.contains_key(uid) {
        users[uid]
    } else {
        dec_nat(uid as nat)
    }
}

/// The name under which the owner `uid` is shown.
pub fn user_name(users: &HashMap<u32, String>, uid: u32) -> (r: String)
    ensures
        r@ == user_label(names_view(users@), uid),
{
    match users.get(&uid) {
        Some(n) => n.clone(),
        None => {
            let d = dec_u64(uid as u64);
            string_of(d.as_slice())
        },
    }
}

// ───────────────────────── command lines ─────────────────────────

/// The NUL-separated arguments in `b`, empty ones dropped, joined by single spaces.
pub open spec fn nul_join(b: Seq<u8>) -> Seq<u8>
    decreases b.len(),
{
    if b.len() == 0 {
        Seq::empty()
    } else {
        let prev = nul_join(b.drop_last());
        let c = b.last();
        if c == 0 {
            prev
        } else if b.len() >= 2 && b[b.len() - 2] != 0 {
            prev.push(c)
        } else if prev.len() > 0 {
            prev.push(32u8).push(c)
        } else {
            prev.push(c)
        }
    }
}

/// What std's `String::from_utf8_lossy` gives for a byte sequence.
pub uninterp spec fn utf8_lossy(b: Seq<u8>) -> Seq<char>;

/// Calls std's `String::from_utf8_lossy`: its result is named `utf8_lossy` of
/// the bytes, and for valid UTF-8 it is the decoded text (as std documents).
#[verifier::external_body]
fn lossy_text(b: &[u8]) -> (r: String)
    ensures
        r@ == utf8_lossy(b@),
        vstd::utf8::valid_utf8(b@) ==> r@ == vstd::utf8::decode_utf8(b@),
{
    String::from_utf8_lossy(b).into_owned()
}

/// The NUL-separated arguments in `b` joined by spaces, as bytes.
pub fn join_args(b: &[u8]) -> (r: Vec<u8>)
    ensures
        r@ == nul_join(b@),
{
    let mut r: Vec<u8> = Vec::new();
    let mut i: usize = 0;
    assert(b@.take(0) =~= Seq::<u8>::empty());
    while i < b.len()
        invariant
            i <= b@.len(),
            r@ == nul_join(b@.take(i as int)),
        decreases b@.len() - i,
    {
        let ghost t = b@.take(i + 1);
        assert(t.drop_last() =~= b@.take(i as int));
        let c = b[i];
        if c != 0 {
            if i >= 1 && b[i - 1] != 0 {
                assert(t[t.len() - 2] == b@[i - 1]);
                r.push(c);
            } else {
                if i >= 1 {
                    assert(t[t.len() - 2] == b@[i - 1]);
                }
                if r.len() > 0 {
                    r.push(32u8);
                }
                r.push(c);
            }
        }
        i = i + 1;
    }
    assert(b@.take(b@.len() as int) =~= b@);
    r
}

/// How a command line is shown: the arguments joined by spaces, decoded; for
/// an empty or unreadable argument list (kernel threads), the name in brackets.
pub open spec fn cmdline_text(bytes: Option<Seq<u8>>, comm: Seq<char>) -> Seq<char> {
    match bytes {
        Some(b) => if b.len() > 0 {
            utf8_lossy(nul_join(b))
        } else {
            "["@ + comm + "]"@
        },
        None => "["@ + comm + "]"@,
    }
}

/// The view of optional bytes.
pub open spec fn opt_bytes(b: Option<Vec<u8>>) -> Option<Seq<u8>> {
    match b {
        Some(v) => Some(v@),
        None => None,
    }
}

/// The command line shown for a process, from the bytes of `/proc/<pid>/cmdline`
/// (`None` when it could not be read) and its name.
pub fn command_line(bytes: &Option<Vec<u8>>, comm: &str) -> (r: String)
    ensures
        r@ == cmdline_text(opt_bytes(*bytes), comm@),
{
    match bytes {
        Some(b) => {
            if b.len() > 0 {
                let j = join_args(b.as_slice());
                return lossy_text(j.as_slice());
            }
        },
        None => {},
    }
    let mut r = String::new();
    push_str(&mut r, "[");
    push_str(&mut r, comm);
    push_str(&mut r, "]");
    r
}

/// The process id that a `/proc` entry name gives, if it is a number.
pub fn pid_of_entry(name: &str) -> (r: Option<i32>)
    ensures
        r == parse_i32(name@),
{
    let cs = chars_of(name);
    parse_i32_chars(cs.as_slice())
}

/// The process `pid`, owned by `uid`, whose `/proc/<pid>/comm` reads `comm_text`
/// and whose `/proc/<pid>/cmdline` holds `cmdline` (`None` if unreadable).
pub open spec fn proc_of(
    pid: i32,
    uid: u32,
    users: Map<u32, Seq<char>>,
    comm_text: Seq<char>,
    cmdline: Option<Seq<u8>>,
) -> ProcView {
    ProcView {
        pid,
        user: user_label(users, uid),
        name: trim_end(comm_text),
        cmdline: cmdline_text(cmdline, trim_end(comm_text)),
        port: None,
    }
}

/// Builds the process record from what `/proc` gives for it.
pub fn make_proc(
    pid: i32,
    uid: u32,
    users: &HashMap<u32, String>,
    comm_text: &str,
    cmdline: &Option<Vec<u8>>,
) -> (r: Proc)
    ensures
        r@ == proc_of(pid, uid, names_view(users@), comm_text@, opt_bytes(*cmdline)),
{
    let cs = chars_of(comm_text);
    let name_cs = trim_end_chars(cs.as_slice());
    let name = string_of(name_cs.as_slice());
    let cmd = command_line(cmdline, name.as_str());
    Proc { pid, user: user_name(users, uid), name, cmdline: cmd, port: None }
}

/// The first line that names a uid decides its name: later lines never change it.
pub proof fn law_first_user_wins(ls: Seq<Seq<char>>, more: Seq<Seq<char>>, uid: u32)
    requires
        users_from(ls).contains_key(uid),
    ensures
        users_from(ls + more).contains_key(uid),
        users_from(ls + more)[uid] == users_from(ls)[uid],
    decreases more.len(),
{
    if more.len() == 0 {
        assert(ls + more =~= ls);
    } else {
        law_first_user_wins(ls, more.drop_last(), uid);
        assert((ls + more).drop_last() =~= ls + more.drop_last());
    }
}

/// A command line of one argument without NUL bytes is shown as it is.
pub proof fn law_single_argument(b: Seq<u8>)
    requires
        forall|i: int| 0 <= i < b.len() ==> b[i] != 0,
    ensures
        nul_join(b) == b,
    decreases b.len(),
{
    if b.len() > 0 {
        law_single_argument(b.drop_last());
        assert(b.drop_last().push(b.last()) =~= b);
        if b.len() >= 2 {
            assert(b[b.len() - 2] == b.drop_last().last());
        } else {
            assert(b.drop_last() =~= Seq::<u8>::empty());
        }
    } else {
        assert(b =~= Seq::<u8>::empty());
    }
}

/// The user of a passwd line is its first field, and its uid the third,
/// whatever the other fields hold (the comment field too).
pub proof fn law_passwd_first_field(name: Seq<char>, pw: Seq<char>, uid: u32, rest: Seq<char>)
    requires
        forall|i: int| 0 <= i < name.len() ==> name[i] != ':',
        forall|i: int| 0 <= i < pw.len() ==> pw[i] != ':',
        rest.len() == 0 || rest[0] == ':',
    ensures
        passwd_entry(name + seq![':'] + pw + seq![':'] + dec_nat(uid as nat) + rest) == Some(
            (uid, name),
        ),
{
    let d = dec_nat(uid as nat);
    crate::num::law_parse_unsigned_dec(uid as nat, 0xffff_ffff);
    crate::num::lemma_dec_digits(uid as nat);
    assert forall|i: int| 0 <= i < d.len() implies d[i] != ':' by {
        assert(crate::num::digit_value(d[i], 10) is Some);
    }
    let third: Seq<Seq<char>> = if rest.len() == 0 {
        crate::text::lemma_split_whole(d, ':');
        assert(d + rest =~= d);
        split(d + rest, ':')
    } else {
        let r2 = rest.drop_first();
        crate::text::lemma_split_sep(d, r2, ':');
        assert(d + rest =~= d + seq![':'] + r2);
        split(d + rest, ':')
    };
    assert(third.len() >= 1 && third[0] == d);
    let tail = pw + seq![':'] + (d + rest);
    crate::text::lemma_split_sep(pw, d + rest, ':');
    crate::text::lemma_split_sep(name, tail, ':');
    let line = name + seq![':'] + pw + seq![':'] + d + rest;
    assert(line =~= name + seq![':'] + tail);
    let f = split(line, ':');
    assert(f =~= seq![name] + (seq![pw] + split(d + rest, ':')));
    assert(f[2] == d);
}

} // verus!
