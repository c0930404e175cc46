//! The list of processes listening on TCP ports (`slay -l`).
use vstd::prelude::*;
use std::collections::HashMap;
use crate::procs::{Proc, ProcView, procs_view};
use crate::net::{FdLinks, fd_view, fds_view, socket_inode, socket_inode_of};
use crate::num::parse_i32;

verus! {

broadcast use vstd::std_specs::hash::group_hash_axioms;

/// The last process in `procs` with the id `pid`.
pub open spec fn last_with_pid(procs: Seq<ProcView>, pid: i32) -> Option<ProcView>
    decreases procs.len(),
{
    if procs.len() == 0 {
        None
    } else if procs.last().pid == pid {
        Some(procs.last())
    } else {
        last_with_pid(procs.drop_last(), pid)
    }
}

/// The listening port of the socket that a file-descriptor link names.
pub open spec fn link_port(link: Seq<char>, ports: Map<u64, u16>) -> Option<u16> {
    match socket_inode_of(link) {
        Some(ino) => if ports.contains_key(ino) {
            Some(ports[ino])
        } else {
            None
        },
        None => None,
    }
}

/// Some link of the entry names a socket listening on `port`.
pub open spec fn has_port(links: Seq<Seq<char>>, ports: Map<u64, u16>, port: u16) -> bool {
    exists|l: int| 0 <= l < links.len() && #[trigger] link_port(links[l], ports) == Some(port)
}

/// The process `pid` listens on `port`: some `/proc` entry for it holds a
/// socket listening there, and the process is known.
pub open spec fn listens(
    fds: Seq<(Seq<char>, Seq<Seq<char>>)>,
    ports: Map<u64, u16>,
    procs: Seq<ProcView>,
    port: u16,
    pid: i32,
) -> bool {
    &&& last_with_pid(procs, pid) is Some
    &&& exists|e: int|
        0 <= e < fds.len() && parse_i32(fds[e].0) == Some(pid) && #[trigger] has_port(
            fds[e].1,
            ports,
            port,
        )
}

/// `a` comes before `b`: by port, then by process id.
pub open spec fn key_lt(a: (u16, i32), b: (u16, i32)) -> bool {
    a.0 < b.0 || (a.0 == b.0 && a.1 < b.1)
}

/// The rows strictly increase by port, then by process id.
pub open spec fn rows_increasing(rows: Seq<ProcView>) -> bool {
    forall|i: int, j: int|
        0 <= i < j < rows.len() ==> rows[i].port is Some && key_lt(
            (rows[i].port->0, rows[i].pid),
            (rows[j].port->0, rows[j].pid),
        )
}

fn insert_key(v: &mut Vec<(u16, i32)>, x: (u16, i32))
    requires
        forall|i: int, j: int| 0 <= i < j < old(v)@.len() ==> key_lt(old(v)@[i], old(v)@[j]),
    ensures
        forall|i: int, j: int| 0 <= i < j < final(v)@.len() ==> key_lt(final(v)@[i], final(v)@[j]),
        final(v)@.to_set() == old(v)@.to_set().insert(x),
{
    let mut i: usize = 0;
    while i < v.len() && (v[i].0 < x.0 || (v[i].0 == x.0 && v[i].1 < x.1))
        invariant
            i <= v@.len(),
            v@ == old(v)@,
            forall|k: int| 0 <= k < i ==> key_lt(v@[k], x),
        decreases v@.len() - i,
    {
        i = i + 1;
    }
    if i < v.len() && v[i].0 == x.0 && v[i].1 == x.1 {
        assert(v@[i as int] == x);
        assert(v@.to_set() =~= old(v)@.to_set().insert(x));
    } else {
        let ghost before = v@;
        if i < v.len() {
            assert(key_lt(x, before[i as int]));
        }
        v.insert(i, x);
        assert forall|a: int, b: int| 0 <= a < b < v@.len() implies key_lt(v@[a], v@[b]) by {
            if b < i {
                assert(v@[a] == before[a] && v@[b] == before[b]);
            } else if b == i {
                assert(v@[a] == before[a]);
            } else if a < i {
                assert(v@[a] == before[a] && v@[b] == before[b - 1]);
                assert(key_lt(before[a], x));
                assert(key_lt(x, before[i as int]));
                if b - 1 > i {
                    assert(key_lt(before[i as int], before[b - 1]));
                }
            } else if a == i {
                assert(v@[b] == before[b - 1]);
                if b - 1 > i {
                    assert(key_lt(before[i as int], before[b - 1]));
                }
            } else {
                assert(v@[a] == before[a - 1] && v@[b] == before[b - 1]);
            }
        }
        assert forall|y: (u16, i32)| #[trigger] v@.to_set().contains(y) == before.to_set().insert(
            x,
        ).contains(y) by {
            if v@.contains(y) {
                let k = choose|k: int| 0 <= k < v@.len() && v@[k] == y;
                if k < i {
                    assert(before[k] == y);
                } else if k > i {
                    assert(before[k - 1] == y);
                }
            }
            if before.contains(y) {
                let k = choose|k: int| 0 <= k < before.len() && before[k] == y;
                if k < i {
                    assert(v@[k] == y);
                } else {
                    assert(v@[k + 1] == y);
                }
            }
            if y == x {
                assert(v@[i as int] == y);
            }
        }
        assert(v@.to_set() =~= old(v)@.to_set().insert(x));
    }
}

fn last_pid_index(procs: &Vec<Proc>, pid: i32) -> (r: Option<usize>)
    ensures
        match r {
            Some(j) => j < procs@.len() && procs@[j as int].pid == pid && last_with_pid(
                procs_view(procs@),
                pid,
            ) == Some(procs@[j as int]@),
            None => last_with_pid(procs_view(procs@), pid) is None,
        },
{
    let ghost pv = procs_view(procs@);
    let mut found: Option<usize> = None;
    let mut j: usize = 0;
    assert(pv.take(0) =~= Seq::<ProcView>::empty());
    while j < procs.len()
        invariant
            pv == procs_view(procs@),
            j <= procs@.len(),
            match found {
                Some(q) => q < j && pv[q as int].pid == pid && last_with_pid(pv.take(j as int), pid)
                    == Some(pv[q as int]),
                None => last_with_pid(pv.take(j as int), pid) is None,
            },
        decreases procs@.len() - j,
    {
        assert(pv.take(j + 1).drop_last() =~= pv.take(j as int));
        if procs[j].pid == pid {
            found = Some(j);
        }
        j = j + 1;
    }
    assert(pv.take(procs@.len() as int) =~= pv);
    found
}

fn entry_port_keys(
    links: &Vec<String>,
    ports: &HashMap<u64, u16>,
    pid: i32,
    keys: &mut Vec<(u16, i32)>,
)
    requires
        forall|i: int, j: int| 0 <= i < j < old(keys)@.len() ==> key_lt(old(keys)@[i], old(keys)@[j]),
    ensures
        forall|i: int, j: int| 0 <= i < j < final(keys)@.len() ==> key_lt(final(keys)@[i], final(keys)@[j]),
        forall|k: (u16, i32)|
            #[trigger] final(keys)@.to_set().contains(k) <==> (old(keys)@.to_set().contains(k) || (k.1
                == pid && has_port(links@.map_values(|s: String| s@), ports@, k.0))),
{
    let ghost lv = links@.map_values(|s: String| s@);
    let ghost k0 = keys@.to_set();
    let mut l: usize = 0;
    while l < links.len()
        invariant
            lv == links@.map_values(|s: String| s@),
            k0 == old(keys)@.to_set(),
            l <= links@.len(),
            forall|i: int, j: int| 0 <= i < j < keys@.len() ==> key_lt(keys@[i], keys@[j]),
            forall|k: (u16, i32)|
                #[trigger] keys@.to_set().contains(k) <==> (k0.contains(k) || (k.1 == pid && exists|q: int|
                    0 <= q < l && #[trigger] link_port(lv[q], ports@) == Some(k.0))),
        decreases links@.len() - l,
    {
        assert(lv[l as int] == links@[l as int]@);
        let ghost before = keys@.to_set();
        let lp: Option<u16> = match socket_inode(links[l].as_str()) {
            Some(ino) => match ports.get(&ino) {
                Some(p) => Some(*p),
                None => None,
            },
            None => None,
        };
        assert(lp == link_port(lv[l as int], ports@));
        match lp {
            Some(port) => {
                insert_key(keys, (port, pid));
            },
            None => {},
        }
        assert forall|k: (u16, i32)|
            #[trigger] keys@.to_set().contains(k) <==> (k0.contains(k) || (k.1 == pid && exists|q: int|
                0 <= q < l + 1 && #[trigger] link_port(lv[q], ports@) == Some(k.0))) by {
            if k.1 == pid && link_port(lv[l as int], ports@) == Some(k.0) {
                assert(keys@.to_set().contains(k));
            }
            if keys@.to_set().contains(k) && !before.contains(k) {
                assert(link_port(lv[l as int], ports@) == Some(k.0));
            }
        }
        l = l + 1;
    }
}

/// The processes listening on TCP ports, one row per port and process, ordered
/// by port and then by process id. `ports` maps listening socket inodes to
/// their ports (see `net::listening_ports`), `procs` are the known processes
/// (for an id that occurs twice, the later one is shown) and `fds` the
/// file-descriptor links of the `/proc` entries.
pub fn listening_rows(ports: &HashMap<u64, u16>, procs: &Vec<Proc>, fds: &Vec<FdLinks>) -> (r: Vec<Proc>)
    ensures
        rows_increasing(procs_view(r@)),
        forall|i: int|
            0 <= i < r@.len() ==> (#[trigger] r@[i]).port is Some && listens(
                fds_view(fds@),
                ports@,
                procs_view(procs@),
                r@[i].port->0,
                r@[i].pid,
            ) && r@[i]@ == (ProcView {
                port: r@[i].port,
                ..last_with_pid(procs_view(procs@), r@[i].pid)->0
            }),
        forall|port: u16, pid: i32|
            listens(fds_view(fds@), ports@, procs_view(procs@), port, pid) ==> exists|i: int|
                0 <= i < r@.len() && (#[trigger] r@[i]).pid == pid && r@[i].port == Some(port),
{
    let ghost fv = fds_view(fds@);
    let ghost pv = procs_view(procs@);
    let mut keys: Vec<(u16, i32)> = Vec::new();
    let mut e: usize = 0;
    while e < fds.len()
        invariant
            fv == fds_view(fds@),
            pv == procs_view(procs@),
            e <= fds@.len(),
            forall|i: int, j: int| 0 <= i < j < keys@.len() ==> key_lt(keys@[i], keys@[j]),
            forall|k: (u16, i32)|
                #[trigger] keys@.to_set().contains(k) <==> (last_with_pid(pv, k.1) is Some && exists|q: int|
                    0 <= q < e && parse_i32(fv[q].0) == Some(k.1) && #[trigger] has_port(
                        fv[q].1,
                        ports@,
                        k.0,
                    )),
        decreases fds@.len() - e,
    {
        let f = &fds[e];
        assert(fv[e as int] == fd_view(*f));
        let ghost before = keys@.to_set();
        match crate::procs::pid_of_entry(f.entry.as_str()) {
            Some(pid) => {
                match last_pid_index(procs, pid) {
                    Some(_) => {
                        entry_port_keys(&f.links, ports, pid, &mut keys);
                    },
                    None => {},
                }
            },
            None => {},
        }
        assert forall|k: (u16, i32)|
            #[trigger] keys@.to_set().contains(k) <==> (last_with_pid(pv, k.1) is Some && exists|q: int|
                0 <= q < e + 1 && parse_i32(fv[q].0) == Some(k.1) && #[trigger] has_port(
                    fv[q].1,
                    ports@,
                    k.0,
                )) by {
            if last_with_pid(pv, k.1) is Some && parse_i32(fv[e as int].0) == Some(k.1) && has_port(
                fv[e as int].1,
                ports@,
                k.0,
            ) {
                assert(keys@.to_set().contains(k));
            }
        }
        e = e + 1;
    }
    let mut rows: Vec<Proc> = Vec::new();
    let mut q: usize = 0;
    while q < keys.len()
        invariant
            fv == fds_view(fds@),
            pv == procs_view(procs@),
            q <= keys@.len(),
            forall|i: int, j: int| 0 <= i < j < keys@.len() ==> key_lt(keys@[i], keys@[j]),
            forall|k: (u16, i32)|
                #[trigger] keys@.to_set().contains(k) <==> listens(fv, ports@, pv, k.0, k.1),
            rows@.len() == q,
            forall|i: int|
                0 <= i < q ==> (#[trigger] rows@[i]).pid == keys@[i].1 && rows@[i].port == Some(
                    keys@[i].0,
                ) && rows@[i]@ == (ProcView {
                    port: Some(keys@[i].0),
                    ..last_with_pid(pv, keys@[i].1)->0
                }),
        decreases keys@.len() - q,
    {
        let (port, pid) = keys[q];
        assert(keys@.to_set().contains(keys@[q as int]));
        match last_pid_index(procs, pid) {
            Some(j) => {
                let c = procs[j].with_port(port);
                let ghost before = rows@;
                rows.push(c);
                assert(forall|i: int| 0 <= i < q ==> rows@[i] == before[i]);
            },
            None => {
                assert(false);
            },
        }
        q = q + 1;
    }
    proof {
        assert forall|port: u16, pid: i32|
            listens(fv, ports@, pv, port, pid) implies exists|i: int|
                0 <= i < rows@.len() && (#[trigger] rows@[i]).pid == pid && rows@[i].port == Some(
                    port,
                ) by {
            assert(keys@.to_set().contains((port, pid)));
            let a = choose|a: int| 0 <= a < keys@.len() && keys@[a] == (port, pid);
            assert(rows@[a].pid == pid);
        }
        assert forall|i: int|
            0 <= i < rows@.len() implies (#[trigger] rows@[i]).port is Some && listens(
                fv,
                ports@,
                pv,
                rows@[i].port->0,
                rows@[i].pid,
            ) by {
            assert(keys@.to_set().contains(keys@[i]));
        }
        assert forall|i: int, j: int|
            0 <= i < j < rows@.len() implies procs_view(rows@)[i].port is Some && key_lt(
                (procs_view(rows@)[i].port->0, procs_view(rows@)[i].pid),
                (procs_view(rows@)[j].port->0, procs_view(rows@)[j].pid),
            ) by {
            assert(key_lt(keys@[i], keys@[j]));
        }
    }
    rows
}

} // verus!
