//! Sockets: reading the kernel's socket tables (`/proc/net/tcp` and the like)
//! and the socket links among a process's file descriptors.
use vstd::prelude::*;
use std::collections::HashMap;
use crate::text::{
    chars_of, has_prefix, has_suffix, lines, lines_of, split, split_chars, words, words_of,
    starts_with, ends_with, is_text, skip_chars, take_chars,
};
use crate::num::{parse_hex_u16, parse_hex_u16_chars, parse_u64, parse_u64_chars, parse_i32};
use crate::procs::pid_of_entry;

verus! {

broadcast use vstd::std_specs::hash::group_hash_axioms;

/// The lines of a table after its header line.
pub open spec fn table_rows(txt: Seq<char>) -> Seq<Seq<char>> {
    let ls = lines(txt);
    if ls.len() > 0 {
        ls.drop_first()
    } else {
        ls
    }
}

/// The port of a local address `addr:PORT`, the port written in hexadecimal
/// after the last `':'`.
pub open spec fn local_port(addr: Seq<char>) -> Option<u16> {
    parse_hex_u16(split(addr, ':').last())
}

/// The socket inode of one table row, when the row binds `port` (and, when
/// `listen_only`, is in the listening state `0A`).
pub open spec fn row_inode(line: Seq<char>, listen_only: bool, port: u16) -> Option<u64> {
    let f = words(line);
    if f.len() < 10 {
        None
    } else if listen_only && f[3] != "0A"@ {
        None
    } else if local_port(f[1]) == Some(port) {
        parse_u64(f[9])
    } else {
        None
    }
}

/// The socket inodes of the rows `rows` that bind `port`, in order.
pub open spec fn inodes_in_rows(rows: Seq<Seq<char>>, listen_only: bool, port: u16) -> Seq<u64>
    decreases rows.len(),
{
    if rows.len() == 0 {
        Seq::empty()
    } else {
        let prev = inodes_in_rows(rows.drop_last(), listen_only, port);
        match row_inode(rows.last(), listen_only, port) {
            Some(i) => prev.push(i),
            None => prev,
        }
    }
}

fn row_fields(line: &[char]) -> (f: Vec<Vec<char>>)
    ensures
        f@.len() == words(line@).len(),
        forall|i: int| 0 <= i < f@.len() ==> #[trigger] f@[i]@ == words(line@)[i],
{
    words_of(line)
}

fn port_of_addr(addr: &[char]) -> (r: Option<u16>)
    ensures
        r == local_port(addr@),
{
    let pieces = split_chars(addr, ':');
    proof {
        crate::text::lemma_split_nonempty(addr@, ':');
    }
    parse_hex_u16_chars(pieces[pieces.len() - 1].as_slice())
}

fn inode_of_row(line: &[char], listen_only: bool, port: u16) -> (r: Option<u64>)
    ensures
        r == row_inode(line@, listen_only, port),
{
    let f = row_fields(line);
    if f.len() < 10 {
        return None;
    }
    if listen_only && !is_text(f[3].as_slice(), "0A") {
        return None;
    }
    if port_of_addr(f[1].as_slice()) == Some(port) {
        parse_u64_chars(f[9].as_slice())
    } else {
        None
    }
}

/// The inodes of the sockets in the table text `txt` that are bound to `port`
/// (only listening ones when `listen_only`).
pub fn table_inodes(txt: &str, listen_only: bool, port: u16) -> (r: Vec<u64>)
    ensures
        r@ == inodes_in_rows(table_rows(txt@), listen_only, port),
{
    let cs = chars_of(txt);
    let ls = lines_of(cs.as_slice());
    let ghost rows = table_rows(txt@);
    let mut r: Vec<u64> = Vec::new();
    if ls.len() == 0 {
        return r;
    }
    let mut i: usize = 1;
    assert(rows.take(0) =~= Seq::<Seq<char>>::empty());
    while i < ls.len()
        invariant
            rows == table_rows(txt@),
            ls@.len() == lines(txt@).len(),
            ls@.len() >= 1,
            rows.len() == ls@.len() - 1,
            forall|j: int| 0 <= j < ls@.len() ==> #[trigger] ls@[j]@ == lines(txt@)[j],
            1 <= i <= ls@.len(),
            r@ == inodes_in_rows(rows.take(i - 1), listen_only, port),
        decreases ls@.len() - i,
    {
        assert(rows.take(i as int).drop_last() =~= rows.take(i - 1));
        assert(rows.take(i as int).last() == ls@[i as int]@);
        match inode_of_row(ls[i].as_slice(), listen_only, port) {
            Some(ino) => {
                r.push(ino);
            },
            None => {},
        }
        i = i + 1;
    }
    assert(rows.take(rows.len() as int) =~= rows);
    r
}

/// The socket tables that are searched for a port, in order, and whether only
/// their listening sockets count: TCP listeners, but any bound UDP socket.
pub open spec fn socket_tables() -> Seq<(Seq<char>, bool)> {
    seq![
        ("/proc/net/tcp"@, true),
        ("/proc/net/tcp6"@, true),
        ("/proc/net/udp"@, false),
        ("/proc/net/udp6"@, false),
    ]
}

/// The socket tables searched for a port: their paths, and whether only
/// listening sockets count in each.
pub fn port_tables() -> (r: Vec<(&'static str, bool)>)
    ensures
        r@.len() == socket_tables().len(),
        forall|i: int| 0 <= i < r@.len() ==> (#[trigger] r@[i]).0@ == socket_tables()[i].0 && r@[i].1
            == socket_tables()[i].1,
{
    let mut r: Vec<(&'static str, bool)> = Vec::new();
    r.push(("/proc/net/tcp", true));
    r.push(("/proc/net/tcp6", true));
    r.push(("/proc/net/udp", false));
    r.push(("/proc/net/udp6", false));
    r
}

/// The inodes bound to `port` in all the tables: `texts[k]` is the text of
/// the `k`-th table of `socket_tables`, `None` where it could not be read.
pub open spec fn port_inodes(texts: Seq<Option<Seq<char>>>, port: u16) -> Seq<u64>
    decreases texts.len(),
{
    if texts.len() == 0 {
        Seq::empty()
    } else {
        let prev = port_inodes(texts.drop_last(), port);
        let k = texts.len() - 1;
        match texts.last() {
            Some(t) => if k < socket_tables().len() {
                prev + inodes_in_rows(table_rows(t), socket_tables()[k].1, port)
            } else {
                prev
            },
            None => prev,
        }
    }
}

/// The views of optional texts.
pub open spec fn opt_texts(v: Seq<Option<String>>) -> Seq<Option<Seq<char>>> {
    v.map_values(|o: Option<String>| match o {
        Some(s) => Some(s@),
        None => None,
    })
}

/// The socket inodes bound to `port`, from the texts of the tables that
/// `port_tables` names (in that order; `None` for one that could not be read).
pub fn inodes_for_port(texts: &Vec<Option<String>>, port: u16) -> (r: Vec<u64>)
    ensures
        r@ == port_inodes(opt_texts(texts@), port),
{
    let tables = port_tables();
    let ghost tv = opt_texts(texts@);
    let mut r: Vec<u64> = Vec::new();
    let mut k: usize = 0;
    assert(tv.take(0) =~= Seq::<Option<Seq<char>>>::empty());
    while k < texts.len()
        invariant
            tv == opt_texts(texts@),
            k <= texts@.len(),
            tables@.len() == socket_tables().len(),
            forall|i: int| 0 <= i < tables@.len() ==> (#[trigger] tables@[i]).1 == socket_tables()[i].1,
            r@ == port_inodes(tv.take(k as int), port),
        decreases texts@.len() - k,
    {
        assert(tv.take(k + 1).drop_last() =~= tv.take(k as int));
        match &texts[k] {
            Some(t) => {
                if k < tables.len() {
                    let found = table_inodes(t.as_str(), tables[k].1, port);
                    let mut j: usize = 0;
                    let ghost base = r@;
                    while j < found.len()
                        invariant
                            j <= found@.len(),
                            r@ == base + found@.take(j as int),
                        decreases found@.len() - j,
                    {
                        r.push(found[j]);
                        j = j + 1;
                        assert(r@ =~= base + found@.take(j as int));
                    }
                    assert(found@.take(found@.len() as int) =~= found@);
                }
            },
            None => {},
        }
        k = k + 1;
    }
    assert(tv.take(texts@.len() as int) =~= tv);
    r
}

// ───────────────────────── listening TCP sockets ─────────────────────────

/// The inode and port of a row of a TCP table that is in the listening state.
pub open spec fn listen_entry(line: Seq<char>) -> Option<(u64, u16)> {
    let f = words(line);
    if f.len() < 10 || f[3] != "0A"@ {
        None
    } else if parse_u64(f[9]) is Some && local_port(f[1]) is Some {
        Some((parse_u64(f[9])->0, local_port(f[1])->0))
    } else {
        None
    }
}

/// The map from socket inode to port that the rows `rows` build, a later row
/// replacing an earlier one with the same inode.
pub open spec fn listen_map(rows: Seq<Seq<char>>, m: Map<u64, u16>) -> Map<u64, u16>
    decreases rows.len(),
{
    if rows.len() == 0 {
        m
    } else {
        let prev = listen_map(rows.drop_last(), m);
        match listen_entry(rows.last()) {
            Some((ino, port)) => prev.insert(ino, port),
            None => prev,
        }
    }
}

/// The map that the TCP tables' texts build, in order (`None` for a table that
/// could not be read).
pub open spec fn listen_map_all(texts: Seq<Option<Seq<char>>>) -> Map<u64, u16>
    decreases texts.len(),
{
    if texts.len() == 0 {
        Map::empty()
    } else {
        let prev = listen_map_all(texts.drop_last());
        match texts.last() {
            Some(t) => listen_map(table_rows(t), prev),
            None => prev,
        }
    }
}

/// The TCP tables whose listening sockets are listed.
pub open spec fn listen_tables() -> Seq<Seq<char>> {
    seq!["/proc/net/tcp"@, "/proc/net/tcp6"@]
}

/// The paths of the TCP tables whose listening sockets are listed.
pub fn listen_table_paths() -> (r: Vec<&'static str>)
    ensures
        r@.len() == listen_tables().len(),
        forall|i: int| 0 <= i < r@.len() ==> (#[trigger] r@[i])@ == listen_tables()[i],
{
    let mut r: Vec<&'static str> = Vec::new();
    r.push("/proc/net/tcp");
    r.push("/proc/net/tcp6");
    r
}

fn listen_entry_exec(line: &[char]) -> (r: Option<(u64, u16)>)
    ensures
        r == listen_entry(line@),
{
    let f = row_fields(line);
    if f.len() < 10 || !is_text(f[3].as_slice(), "0A") {
        return None;
    }
    match (parse_u64_chars(f[9].as_slice()), port_of_addr(f[1].as_slice())) {
        (Some(ino), Some(port)) => Some((ino, port)),
        _ => None,
    }
}

/// The port of each listening TCP socket, by inode, from the texts of the
/// tables that `listen_table_paths` names.
pub fn listening_ports(texts: &Vec<Option<String>>) -> (m: HashMap<u64, u16>)
    ensures
        m@ == listen_map_all(opt_texts(texts@)),
{
    let ghost tv = opt_texts(texts@);
    let mut m: HashMap<u64, u16> = HashMap::new();
    let mut k: usize = 0;
    assert(tv.take(0) =~= Seq::<Option<Seq<char>>>::empty());
    while k < texts.len()
        invariant
            tv == opt_texts(texts@),
            k <= texts@.len(),
            m@ == listen_map_all(tv.take(k as int)),
        decreases texts@.len() - k,
    {
        assert(tv.take(k + 1).drop_last() =~= tv.take(k as int));
        match &texts[k] {
            Some(t) => {
                let cs = chars_of(t.as_str());
                let ls = lines_of(cs.as_slice());
                let ghost rows = table_rows(t@);
                let ghost m0 = m@;
                if ls.len() > 0 {
                    let mut i: usize = 1;
                    assert(rows.take(0) =~= Seq::<Seq<char>>::empty());
                    while i < ls.len()
                        invariant
                            rows == table_rows(t@),
                            ls@.len() == lines(t@).len(),
                            ls@.len() >= 1,
                            rows.len() == ls@.len() - 1,
                            forall|j: int| 0 <= j < ls@.len() ==> #[trigger] ls@[j]@ == lines(t@)[j],
                            1 <= i <= ls@.len(),
                            m@ == listen_map(rows.take(i - 1), m0),
                        decreases ls@.len() - i,
                    {
                        assert(rows.take(i as int).drop_last() =~= rows.take(i - 1));
                        assert(rows.take(i as int).last() == ls@[i as int]@);
                        match listen_entry_exec(ls[i].as_slice()) {
                            Some((ino, port)) => {
                                m.insert(ino, port);
                            },
                            None => {},
                        }
                        i = i + 1;
                    }
                    assert(rows.take(rows.len() as int) =~= rows);
                } else {
                    assert(rows.len() == 0);
                }
            },
            None => {},
        }
        k = k + 1;
    }
    assert(tv.take(texts@.len() as int) =~= tv);
    m
}

// ───────────────────────── socket links ─────────────────────────

/// The socket inode that a file-descriptor link `socket:[N]` names.
pub open spec fn socket_inode_of(link: Seq<char>) -> Option<u64> {
    if has_prefix(link, "socket:["@) {
        let rest = link.skip("socket:["@.len() as int);
        if has_suffix(rest, "]"@) {
            parse_u64(rest.take(rest.len() - "]"@.len()))
        } else {
            None
        }
    } else {
        None
    }
}

/// The socket inode that a file-descriptor link names, if it names a socket.
pub fn socket_inode(link: &str) -> (r: Option<u64>)
    ensures
        r == socket_inode_of(link@),
{
    let cs = chars_of(link);
    let pre = chars_of("socket:[");
    let close = chars_of("]");
    if !starts_with(cs.as_slice(), pre.as_slice()) {
        return None;
    }
    let rest = skip_chars(cs.as_slice(), pre.len());
    if !ends_with(rest.as_slice(), close.as_slice()) {
        return None;
    }
    let inner = take_chars(rest.as_slice(), rest.len() - close.len());
    parse_u64_chars(inner.as_slice())
}

/// The file descriptors of one `/proc` entry: the entry's name and the targets
/// of its `fd` links that could be read.
pub struct FdLinks {
    pub entry: String,
    pub links: Vec<String>,
}

/// The view of a `FdLinks`.
pub open spec fn fd_view(f: FdLinks) -> (Seq<char>, Seq<Seq<char>>) {
    (f.entry@, f.links@.map_values(|s: String| s@))
}

/// The views of the file-descriptor lists.
pub open spec fn fds_view(v: Seq<FdLinks>) -> Seq<(Seq<char>, Seq<Seq<char>>)> {
    v.map_values(|f: FdLinks| fd_view(f))
}

/// Some link in `links` names a socket whose inode is in `inodes`.
pub open spec fn holds_inode(links: Seq<Seq<char>>, inodes: Seq<u64>) -> bool {
    exists|j: int|
        0 <= j < links.len() && #[trigger] socket_inode_of(links[j]) is Some && inodes.contains(
            socket_inode_of(links[j])->0,
        )
}

/// The process ids of the entries that hold a socket with one of `inodes`, in order.
pub open spec fn pids_holding(fds: Seq<(Seq<char>, Seq<Seq<char>>)>, inodes: Seq<u64>) -> Seq<i32>
    decreases fds.len(),
{
    if fds.len() == 0 {
        Seq::empty()
    } else {
        let prev = pids_holding(fds.drop_last(), inodes);
        let (entry, links) = fds.last();
        if parse_i32(entry) is Some && holds_inode(links, inodes) {
            prev.push(parse_i32(entry)->0)
        } else {
            prev
        }
    }
}

fn holds_any(links: &Vec<String>, inodes: &Vec<u64>) -> (b: bool)
    ensures
        b == holds_inode(links@.map_values(|s: String| s@), inodes@),
{
    let ghost lv = links@.map_values(|s: String| s@);
    let mut j: usize = 0;
    while j < links.len()
        invariant
            lv == links@.map_values(|s: String| s@),
            j <= links@.len(),
            forall|k: int|
                0 <= k < j ==> !(#[trigger] socket_inode_of(lv[k]) is Some && inodes@.contains(
                    socket_inode_of(lv[k])->0,
                )),
        decreases links@.len() - j,
    {
        assert(lv[j as int] == links@[j as int]@);
        match socket_inode(links[j].as_str()) {
            Some(ino) => {
                let mut q: usize = 0;
                while q < inodes.len()
                    invariant
                        q <= inodes@.len(),
                        lv == links@.map_values(|s: String| s@),
                        j < links@.len(),
                        socket_inode_of(lv[j as int]) == Some(ino),
                        forall|t: int| 0 <= t < q ==> inodes@[t] != ino,
                    decreases inodes@.len() - q,
                {
                    if inodes[q] == ino {
                        assert(inodes@[q as int] == ino);
                        assert(socket_inode_of(lv[j as int]) is Some && inodes@.contains(
                            socket_inode_of(lv[j as int])->0,
                        ));
                        return true;
                    }
                    q = q + 1;
                }
                assert(!inodes@.contains(ino));
            },
            None => {},
        }
        j = j + 1;
    }
    false
}

/// The ids of the processes that hold a socket with one of `inodes`; none
/// when `inodes` is empty.
pub fn pids_for_inodes(fds: &Vec<FdLinks>, inodes: &Vec<u64>) -> (r: Vec<i32>)
    ensures
        r@ == pids_holding(fds_view(fds@), inodes@),
        inodes@.len() == 0 ==> r@.len() == 0,
{
    let ghost fv = fds_view(fds@);
    let mut r: Vec<i32> = Vec::new();
    let mut k: usize = 0;
    assert(fv.take(0) =~= Seq::<(Seq<char>, Seq<Seq<char>>)>::empty());
    while k < fds.len()
        invariant
            fv == fds_view(fds@),
            k <= fds@.len(),
            r@ == pids_holding(fv.take(k as int), inodes@),
            inodes@.len() == 0 ==> r@.len() == 0,
        decreases fds@.len() - k,
    {
        assert(fv.take(k + 1).drop_last() =~= fv.take(k as int));
        assert(fv.take(k + 1).last() == fd_view(fds@[k as int]));
        let f = &fds[k];
        match pid_of_entry(f.entry.as_str()) {
            Some(pid) => {
                if holds_any(&f.links, inodes) {
                    r.push(pid);
                }
            },
            None => {},
        }
        k = k + 1;
    }
    assert(fv.take(fds@.len() as int) =~= fv);
    r
}

/// A link `socket:[N]` names the socket with inode `N`.
pub proof fn law_socket_link(n: u64)
    ensures
        socket_inode_of("socket:["@ + crate::text::dec_nat(n as nat) + "]"@) == Some(n),
{
    let d = crate::text::dec_nat(n as nat);
    let l = "socket:["@ + d + "]"@;
    reveal_strlit("socket:[");
    reveal_strlit("]");
    assert(l.take(8) =~= "socket:["@);
    let rest = l.skip(8);
    assert(rest =~= d + "]"@);
    assert(rest.skip(rest.len() - 1) =~= "]"@);
    assert(rest.take(rest.len() - 1) =~= d);
    crate::num::law_parse_unsigned_dec(n as nat, 0xffff_ffff_ffff_ffff);
}

/// Any socket link counts, wherever it stands among a process's links: a
/// link to a socket with one of `inodes` means the process holds one.
pub proof fn law_any_socket_link(links: Seq<Seq<char>>, inodes: Seq<u64>, j: int, ino: u64)
    requires
        0 <= j < links.len(),
        socket_inode_of(links[j]) == Some(ino),
        inodes.contains(ino),
    ensures
        holds_inode(links, inodes),
{
}

/// Adding links before or after a process's links never loses a socket it
/// holds.
pub proof fn law_more_links_keep_holding(
    before: Seq<Seq<char>>,
    links: Seq<Seq<char>>,
    after: Seq<Seq<char>>,
    inodes: Seq<u64>,
)
    requires
        holds_inode(links, inodes),
    ensures
        holds_inode(before + links + after, inodes),
{
    let j = choose|j: int|
        0 <= j < links.len() && #[trigger] socket_inode_of(links[j]) is Some && inodes.contains(
            socket_inode_of(links[j])->0,
        );
    let all = before + links + after;
    assert(all[before.len() + j] == links[j]);
    law_any_socket_link(all, inodes, before.len() + j, socket_inode_of(links[j])->0);
}

/// Every entry that names a process and has a link to a socket with one of
/// `inodes`, at any place among its links, is among the processes found.
pub proof fn law_holders_found(
    fds: Seq<(Seq<char>, Seq<Seq<char>>)>,
    inodes: Seq<u64>,
    k: int,
    j: int,
    ino: u64,
)
    requires
        0 <= k < fds.len(),
        parse_i32(fds[k].0) is Some,
        0 <= j < fds[k].1.len(),
        socket_inode_of(fds[k].1[j]) == Some(ino),
        inodes.contains(ino),
    ensures
        pids_holding(fds, inodes).contains(parse_i32(fds[k].0)->0),
    decreases fds.len(),
{
    let prev = pids_holding(fds.drop_last(), inodes);
    if k == fds.len() - 1 {
        law_any_socket_link(fds[k].1, inodes, j, ino);
        assert(pids_holding(fds, inodes) == prev.push(parse_i32(fds[k].0)->0));
        assert(pids_holding(fds, inodes)[prev.len() as int] == parse_i32(fds[k].0)->0);
    } else {
        assert(fds.drop_last()[k] == fds[k]);
        law_holders_found(fds.drop_last(), inodes, k, j, ino);
        let w = choose|w: int| 0 <= w < prev.len() && prev[w] == parse_i32(fds[k].0)->0;
        let r = pids_holding(fds, inodes);
        assert(r[w] == prev[w]);
    }
}

proof fn lemma_listen_map_keeps(rows: Seq<Seq<char>>, m: Map<u64, u16>, ino: u64)
    requires
        m.contains_key(ino),
    ensures
        listen_map(rows, m).contains_key(ino),
    decreases rows.len(),
{
    if rows.len() > 0 {
        lemma_listen_map_keeps(rows.drop_last(), m, ino);
    }
}

proof fn lemma_listen_map_has(rows: Seq<Seq<char>>, m: Map<u64, u16>, j: int, ino: u64, port: u16)
    requires
        0 <= j < rows.len(),
        listen_entry(rows[j]) == Some((ino, port)),
    ensures
        listen_map(rows, m).contains_key(ino),
    decreases rows.len(),
{
    if j == rows.len() - 1 {
    } else {
        assert(rows.drop_last()[j] == rows[j]);
        lemma_listen_map_has(rows.drop_last(), m, j, ino, port);
    }
}

/// Reading one more table never drops a listener found in the earlier ones.
pub proof fn law_more_tables_keep_listeners(
    texts: Seq<Option<Seq<char>>>,
    t: Option<Seq<char>>,
    ino: u64,
)
    requires
        listen_map_all(texts).contains_key(ino),
    ensures
        listen_map_all(texts.push(t)).contains_key(ino),
{
    assert(texts.push(t).drop_last() =~= texts);
    match t {
        Some(x) => lemma_listen_map_keeps(table_rows(x), listen_map_all(texts), ino),
        None => {},
    }
}

/// Every listening socket of every table that could be read is listed, with
/// whatever tables come before or after it.
pub proof fn law_every_listener_listed(
    texts: Seq<Option<Seq<char>>>,
    k: int,
    t: Seq<char>,
    j: int,
    ino: u64,
    port: u16,
)
    requires
        0 <= k < texts.len(),
        texts[k] == Some(t),
        0 <= j < table_rows(t).len(),
        listen_entry(table_rows(t)[j]) == Some((ino, port)),
    ensures
        listen_map_all(texts).contains_key(ino),
    decreases texts.len(),
{
    let init = texts.drop_last();
    if k == texts.len() - 1 {
        lemma_listen_map_has(table_rows(t), listen_map_all(init), j, ino, port);
    } else {
        assert(init[k] == texts[k]);
        law_every_listener_listed(init, k, t, j, ino, port);
        assert(init.push(texts.last()) =~= texts);
        law_more_tables_keep_listeners(init, texts.last(), ino);
    }
}

/// Only processes that hold such a socket are found: each id found is that of
/// an entry with a link to a socket with one of `inodes`.
pub proof fn law_only_holders_found(fds: Seq<(Seq<char>, Seq<Seq<char>>)>, inodes: Seq<u64>, w: int)
    requires
        0 <= w < pids_holding(fds, inodes).len(),
    ensures
        exists|k: int|
            0 <= k < fds.len() && parse_i32(#[trigger] fds[k].0) == Some(pids_holding(fds, inodes)[w])
                && holds_inode(fds[k].1, inodes),
    decreases fds.len(),
{
    let init = fds.drop_last();
    let prev = pids_holding(init, inodes);
    if w < prev.len() {
        law_only_holders_found(init, inodes, w);
        let k = choose|k: int|
            0 <= k < init.len() && parse_i32(#[trigger] init[k].0) == Some(prev[w]) && holds_inode(
                init[k].1,
                inodes,
            );
        assert(fds[k] == init[k]);
    } else {
        let k = fds.len() - 1;
        assert(parse_i32(fds[k].0) == Some(pids_holding(fds, inodes)[w]));
    }
}

/// Only listening sockets are listed: each inode in the map is that of a
/// listening row of some table that was read, and its port is that row's.
pub proof fn law_only_listeners_listed(texts: Seq<Option<Seq<char>>>, ino: u64)
    requires
        listen_map_all(texts).contains_key(ino),
    ensures
        exists|k: int, j: int|
            #![trigger texts[k], table_rows(texts[k]->0)[j]]
            0 <= k < texts.len() && texts[k] is Some && 0 <= j < table_rows(texts[k]->0).len()
                && listen_entry(table_rows(texts[k]->0)[j]) == Some(
                (ino, listen_map_all(texts)[ino]),
            ),
    decreases texts.len(),
{
    let init = texts.drop_last();
    let k = texts.len() - 1;
    match texts.last() {
        Some(t) => {
            let rows = table_rows(t);
            if listen_map(rows, listen_map_all(init)).contains_key(ino) && exists|j: int|
                0 <= j < rows.len() && #[trigger] listen_entry(rows[j]) == Some(
                    (ino, listen_map(rows, listen_map_all(init))[ino]),
                ) {
                let j = choose|j: int|
                    0 <= j < rows.len() && #[trigger] listen_entry(rows[j]) == Some(
                        (ino, listen_map(rows, listen_map_all(init))[ino]),
                    );
                assert(texts[k] == Some(t));
                assert(table_rows(texts[k]->0)[j] == rows[j]);
            } else {
                lemma_listen_map_from(rows, listen_map_all(init), ino);
                law_only_listeners_listed(init, ino);
                let (k2, j2) = choose|k2: int, j2: int|
                    #![trigger init[k2], table_rows(init[k2]->0)[j2]]
                    0 <= k2 < init.len() && init[k2] is Some && 0 <= j2 < table_rows(
                        init[k2]->0,
                    ).len() && listen_entry(table_rows(init[k2]->0)[j2]) == Some(
                        (ino, listen_map_all(init)[ino]),
                    );
                assert(texts[k2] == init[k2]);
                assert(table_rows(texts[k2]->0)[j2] == table_rows(init[k2]->0)[j2]);
            }
        },
        None => {
            law_only_listeners_listed(init, ino);
            let (k2, j2) = choose|k2: int, j2: int|
                #![trigger init[k2], table_rows(init[k2]->0)[j2]]
                0 <= k2 < init.len() && init[k2] is Some && 0 <= j2 < table_rows(init[k2]->0).len()
                    && listen_entry(table_rows(init[k2]->0)[j2]) == Some(
                    (ino, listen_map_all(init)[ino]),
                );
            assert(texts[k2] == init[k2]);
            assert(table_rows(texts[k2]->0)[j2] == table_rows(init[k2]->0)[j2]);
        },
    }
}

/// An inode in the map that the rows build either comes from one of the rows,
/// with that row's port, or was in the map before, with its port unchanged.
proof fn lemma_listen_map_from(rows: Seq<Seq<char>>, m: Map<u64, u16>, ino: u64)
    requires
        listen_map(rows, m).contains_key(ino),
        !exists|j: int|
            0 <= j < rows.len() && #[trigger] listen_entry(rows[j]) == Some(
                (ino, listen_map(rows, m)[ino]),
            ),
    ensures
        m.contains_key(ino),
        listen_map(rows, m)[ino] == m[ino],
    decreases rows.len(),
{
    if rows.len() > 0 {
        let init = rows.drop_last();
        let prev = listen_map(init, m);
        let last = rows.len() - 1;
        match listen_entry(rows.last()) {
            Some((i2, p2)) => {
                if i2 == ino {
                    assert(listen_entry(rows[last]) == Some((ino, listen_map(rows, m)[ino])));
                    assert(false);
                }
            },
            None => {},
        }
        assert(listen_map(rows, m)[ino] == prev[ino]);
        assert forall|j: int| 0 <= j < init.len() implies #[trigger] listen_entry(init[j]) != Some(
            (ino, prev[ino]),
        ) by {
            assert(rows[j] == init[j]);
        }
        lemma_listen_map_from(init, m, ino);
    }
}

} // verus!
