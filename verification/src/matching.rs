//! Turning targets into the set of processes to signal.
use vstd::prelude::*;
use std::collections::HashMap;
use crate::args::{Opts, OptsView, texts};
use crate::procs::{Proc, ProcView, procs_view};
use crate::target::{Target, TargetView, classify, target_of};
use crate::text::{
    chars_of, dec_int, dec_i64, dec_nat, dec_u64, has_infix, contains_chars, lowercased, to_lower,
    push_chars, push_str,
};

verus! {

broadcast use vstd::std_specs::hash::group_hash_axioms;

// ───────────────────────── name matching ─────────────────────────

/// Whether a process matches the name pattern `pat`: with `exact`, its name
/// equals the pattern; otherwise its name (its command line with `full`)
/// contains it; with `ignore_case`, both sides are lower-cased first.
pub open spec fn name_match(p: ProcView, pat: Seq<char>, full: bool, exact: bool, ignore_case: bool) -> bool {
    let pat2 = if ignore_case {
        lowercased(pat)
    } else {
        pat
    };
    if exact {
        (if ignore_case {
            lowercased(p.name)
        } else {
            p.name
        }) == pat2
    } else {
        let hay = if full {
            p.cmdline
        } else {
            p.name
        };
        has_infix(
            if ignore_case {
                lowercased(hay)
            } else {
                hay
            },
            pat2,
        )
    }
}

/// Whether the process `p` matches the name pattern `pat` under the options `o`.
pub fn name_matches(p: &Proc, pat: &str, o: &Opts) -> (b: bool)
    ensures
        b == name_match(p@, pat@, o.full, o.exact, o.ignore_case),
{
    let pat2: Vec<char> = if o.ignore_case {
        let l = to_lower(pat);
        chars_of(l.as_str())
    } else {
        chars_of(pat)
    };
    if o.exact {
        let name: Vec<char> = if o.ignore_case {
            let l = to_lower(p.name.as_str());
            chars_of(l.as_str())
        } else {
            chars_of(p.name.as_str())
        };
        crate::text::is_same(name.as_slice(), pat2.as_slice())
    } else {
        let hay: &String = if o.full {
            &p.cmdline
        } else {
            &p.name
        };
        let h: Vec<char> = if o.ignore_case {
            let l = to_lower(hay.as_str());
            chars_of(l.as_str())
        } else {
            chars_of(hay.as_str())
        };
        contains_chars(h.as_slice(), pat2.as_slice())
    }
}

// ───────────────────────── resolving targets ─────────────────────────

/// The processes found by a port target: each process whose id is in `pids`
/// is recorded (the first process seen with an id, unless one is recorded
/// already) and marked as found through `port`.
pub open spec fn add_port(m: Map<i32, ProcView>, procs: Seq<ProcView>, pids: Seq<i32>, port: u16) -> Map<
    i32,
    ProcView,
>
    decreases procs.len(),
{
    if procs.len() == 0 {
        m
    } else {
        let prev = add_port(m, procs.drop_last(), pids, port);
        let pr = procs.last();
        if pids.contains(pr.pid) {
            let base = if prev.contains_key(pr.pid) {
                prev[pr.pid]
            } else {
                pr
            };
            prev.insert(pr.pid, ProcView { port: Some(port), ..base })
        } else {
            prev
        }
    }
}

/// The processes found by a name target: each matching process not yet
/// recorded is recorded.
pub open spec fn add_named(m: Map<i32, ProcView>, procs: Seq<ProcView>, pat: Seq<char>, o: OptsView) -> Map<
    i32,
    ProcView,
>
    decreases procs.len(),
{
    if procs.len() == 0 {
        m
    } else {
        let prev = add_named(m, procs.drop_last(), pat, o);
        let pr = procs.last();
        if name_match(pr, pat, o.full, o.exact, o.ignore_case) && !prev.contains_key(pr.pid) {
            prev.insert(pr.pid, pr)
        } else {
            prev
        }
    }
}

/// The first process in `procs` with the id `pid`.
pub open spec fn first_with_pid(procs: Seq<ProcView>, pid: i32) -> Option<ProcView>
    decreases procs.len(),
{
    if procs.len() == 0 {
        None
    } else if procs[0].pid == pid {
        Some(procs[0])
    } else {
        first_with_pid(procs.drop_first(), pid)
    }
}

/// Some process has an id in `pids`.
pub open spec fn port_hit(procs: Seq<ProcView>, pids: Seq<i32>) -> bool {
    exists|i: int| 0 <= i < procs.len() && pids.contains(#[trigger] procs[i].pid)
}

/// Some process matches the name pattern.
pub open spec fn name_hit(procs: Seq<ProcView>, pat: Seq<char>, o: OptsView) -> bool {
    exists|i: int|
        0 <= i < procs.len() && name_match(#[trigger] procs[i], pat, o.full, o.exact, o.ignore_case)
}

/// The process ids found for the `k`-th target when it is a port (none when
/// `port_pids` has no entry for it).
pub open spec fn pids_at(port_pids: Seq<Seq<i32>>, k: int) -> Seq<i32> {
    if 0 <= k < port_pids.len() {
        port_pids[k]
    } else {
        Seq::empty()
    }
}

/// The recorded processes and the messages for unresolved targets after the
/// first `targets.len()` targets.
pub open spec fn resolve_targets(
    targets: Seq<Seq<char>>,
    port_pids: Seq<Seq<i32>>,
    procs: Seq<ProcView>,
    o: OptsView,
) -> (Map<i32, ProcView>, Seq<Seq<char>>)
    decreases targets.len(),
{
    if targets.len() == 0 {
        (Map::empty(), Seq::empty())
    } else {
        let k = targets.len() - 1;
        let (m, un) = resolve_targets(targets.drop_last(), port_pids, procs, o);
        match target_of(targets.last()) {
            TargetView::Port(port) => {
                let pids = pids_at(port_pids, k);
                (
                    add_port(m, procs, pids, port),
                    if port_hit(procs, pids) {
                        un
                    } else {
                        un.push(":"@ + dec_nat(port as nat) + " (nothing listening)"@)
                    },
                )
            },
            TargetView::Pid(pid) => match first_with_pid(procs, pid) {
                Some(pr) => (
                    if m.contains_key(pid) {
                        m
                    } else {
                        m.insert(pid, pr)
                    },
                    un,
                ),
                None => (m, un.push(dec_int(pid as int) + " (no such process)"@)),
            },
            TargetView::Name(pat) => (
                add_named(m, procs, pat, o),
                if name_hit(procs, pat, o) {
                    un
                } else {
                    un.push(pat + " (no match)"@)
                },
            ),
        }
    }
}

/// A recorded process that is signalled: not this program itself, and owned
/// by `user` when one is given.
pub open spec fn kept(m: Map<i32, ProcView>, me: i32, user: Option<Seq<char>>, pid: i32) -> bool {
    &&& m.contains_key(pid)
    &&& pid != me
    &&& match user {
        Some(u) => m[pid].user == u,
        None => true,
    }
}

/// The processes to signal, and what is said of the targets that found nothing.
pub struct Resolution {
    /// The processes to signal, ordered by process id.
    pub matched: Vec<Proc>,
    /// One message per target that found nothing, in the order of the targets.
    pub unresolved: Vec<String>,
}

/// The ids in `v` strictly increase.
pub open spec fn pids_increasing(v: Seq<ProcView>) -> bool {
    forall|i: int, j: int| 0 <= i < j < v.len() ==> v[i].pid < v[j].pid
}

/// The view of a map of processes.
pub open spec fn pmap_view(m: Map<i32, Proc>) -> Map<i32, ProcView> {
    m.map_values(|p: Proc| p@)
}

/// Every recorded id is the id of a process in `procs`, and the id of the
/// process recorded under it.
pub open spec fn keys_from(m: Map<i32, ProcView>, procs: Seq<ProcView>) -> bool {
    forall|pid: i32|
        #![trigger m.contains_key(pid)]
        m.contains_key(pid) ==> m[pid].pid == pid && exists|i: int|
            0 <= i < procs.len() && #[trigger] procs[i].pid == pid
}

fn contains_pid(pids: &Vec<i32>, pid: i32) -> (b: bool)
    ensures
        b == pids@.contains(pid),
{
    let mut i: usize = 0;
    while i < pids.len()
        invariant
            i <= pids@.len(),
            forall|k: int| 0 <= k < i ==> pids@[k] != pid,
        decreases pids@.len() - i,
    {
        if pids[i] == pid {
            assert(pids@[i as int] == pid);
            return true;
        }
        i = i + 1;
    }
    false
}

fn resolve_port(m: &mut HashMap<i32, Proc>, procs: &Vec<Proc>, pids: &Vec<i32>, port: u16) -> (hit: bool)
    requires
        keys_from(pmap_view(old(m)@), procs_view(procs@)),
    ensures
        pmap_view(final(m)@) == add_port(pmap_view(old(m)@), procs_view(procs@), pids@, port),
        hit == port_hit(procs_view(procs@), pids@),
        keys_from(pmap_view(final(m)@), procs_view(procs@)),
{
    let ghost pv = procs_view(procs@);
    let ghost m0 = pmap_view(m@);
    let mut hit = false;
    let mut j: usize = 0;
    assert(pv.take(0) =~= Seq::<ProcView>::empty());
    while j < procs.len()
        invariant
            pv == procs_view(procs@),
            m0 == pmap_view(old(m)@),
            j <= procs@.len(),
            pmap_view(m@) == add_port(m0, pv.take(j as int), pids@, port),
            hit == exists|i: int| 0 <= i < j && pids@.contains(#[trigger] pv[i].pid),
            keys_from(pmap_view(m@), pv),
        decreases procs@.len() - j,
    {
        assert(pv.take(j + 1).drop_last() =~= pv.take(j as int));
        let pr = &procs[j];
        assert(pv.take(j + 1).last() == pr@);
        if contains_pid(pids, pr.pid) {
            let ghost before = pmap_view(m@);
            let c = match m.get(&pr.pid) {
                Some(existing) => existing.with_port(port),
                None => pr.with_port(port),
            };
            m.insert(pr.pid, c);
            assert(pmap_view(m@) =~= before.insert(pr@.pid, c@));
            hit = true;
        }
        j = j + 1;
    }
    assert(pv.take(procs@.len() as int) =~= pv);
    hit
}

fn resolve_name(m: &mut HashMap<i32, Proc>, procs: &Vec<Proc>, pat: &str, o: &Opts) -> (hit: bool)
    requires
        keys_from(pmap_view(old(m)@), procs_view(procs@)),
    ensures
        pmap_view(final(m)@) == add_named(pmap_view(old(m)@), procs_view(procs@), pat@, o@),
        hit == name_hit(procs_view(procs@), pat@, o@),
        keys_from(pmap_view(final(m)@), procs_view(procs@)),
{
    let ghost pv = procs_view(procs@);
    let ghost m0 = pmap_view(m@);
    let mut hit = false;
    let mut j: usize = 0;
    assert(pv.take(0) =~= Seq::<ProcView>::empty());
    while j < procs.len()
        invariant
            pv == procs_view(procs@),
            m0 == pmap_view(old(m)@),
            j <= procs@.len(),
            pmap_view(m@) == add_named(m0, pv.take(j as int), pat@, o@),
            hit == exists|i: int|
                0 <= i < j && name_match(#[trigger] pv[i], pat@, o.full, o.exact, o.ignore_case),
            keys_from(pmap_view(m@), pv),
        decreases procs@.len() - j,
    {
        assert(pv.take(j + 1).drop_last() =~= pv.take(j as int));
        let pr = &procs[j];
        assert(pv.take(j + 1).last() == pr@);
        if name_matches(pr, pat, o) {
            if !m.contains_key(&pr.pid) {
                let ghost before = pmap_view(m@);
                let c = pr.duplicate();
                m.insert(pr.pid, c);
                assert(pmap_view(m@) =~= before.insert(pr@.pid, c@));
            }
            hit = true;
        }
        j = j + 1;
    }
    assert(pv.take(procs@.len() as int) =~= pv);
    hit
}

proof fn lemma_first_with_pid(procs: Seq<ProcView>, pid: i32, j: int)
    requires
        0 <= j < procs.len(),
        procs[j].pid == pid,
        forall|k: int| 0 <= k < j ==> procs[k].pid != pid,
    ensures
        first_with_pid(procs, pid) == Some(procs[j]),
    decreases j,
{
    if j > 0 {
        lemma_first_with_pid(procs.drop_first(), pid, j - 1);
    }
}

proof fn lemma_no_pid(procs: Seq<ProcView>, pid: i32)
    requires
        forall|k: int| 0 <= k < procs.len() ==> procs[k].pid != pid,
    ensures
        first_with_pid(procs, pid) is None,
    decreases procs.len(),
{
    if procs.len() > 0 {
        lemma_no_pid(procs.drop_first(), pid);
    }
}

fn find_pid(procs: &Vec<Proc>, pid: i32) -> (r: Option<usize>)
    ensures
        match r {
            Some(j) => j < procs@.len() && procs@[j as int].pid == pid && first_with_pid(
                procs_view(procs@),
                pid,
            ) == Some(procs@[j as int]@),
            None => first_with_pid(procs_view(procs@), pid) is None,
        },
{
    let ghost pv = procs_view(procs@);
    let mut j: usize = 0;
    while j < procs.len()
        invariant
            pv == procs_view(procs@),
            j <= procs@.len(),
            forall|k: int| 0 <= k < j ==> pv[k].pid != pid,
        decreases procs@.len() - j,
    {
        if procs[j].pid == pid {
            proof {
                lemma_first_with_pid(pv, pid, j as int);
            }
            return Some(j);
        }
        j = j + 1;
    }
    proof {
        lemma_no_pid(pv, pid);
    }
    None
}

fn insert_sorted(v: &mut Vec<i32>, x: i32)
    requires
        forall|i: int, j: int| 0 <= i < j < old(v)@.len() ==> old(v)@[i] < old(v)@[j],
    ensures
        forall|i: int, j: int| 0 <= i < j < final(v)@.len() ==> final(v)@[i] < final(v)@[j],
        final(v)@.to_set() == old(v)@.to_set().insert(x),
{
    let mut i: usize = 0;
    while i < v.len() && v[i] < x
        invariant
            i <= v@.len(),
            v@ == old(v)@,
            forall|k: int| 0 <= k < i ==> v@[k] < x,
        decreases v@.len() - i,
    {
        i = i + 1;
    }
    if i < v.len() && v[i] == x {
        assert(v@[i as int] == x);
        assert(v@.to_set() =~= old(v)@.to_set().insert(x));
    } else {
        let ghost before = v@;
        assert(before == old(v)@);
        v.insert(i, x);
        assert forall|y: i32| v@.contains(y) <==> (before.contains(y) || y == x) by {
            if v@.contains(y) {
                let k = choose|k: int| 0 <= k < v@.len() && v@[k] == y;
                if k < i {
                    assert(before[k] == y);
                } else if k > i {
                    assert(before[k - 1] == y);
                }
            }
            if before.contains(y) {
                let k = choose|k: int| 0 <= k < before.len() && before[k] == y;
                if k < i {
                    assert(v@[k] == y);
                } else {
                    assert(v@[k + 1] == y);
                }
            }
            if y == x {
                assert(v@[i as int] == y);
            }
        }
        assert forall|y: i32| #[trigger] v@.to_set().contains(y) == old(v)@.to_set().insert(x).contains(y) by {
            assert(v@.contains(y) <==> (before.contains(y) || y == x));
        }
        assert(v@.to_set() =~= old(v)@.to_set().insert(x));
    }
}

/// Resolves every target to the processes it names, in the order given, then
/// drops this program (`me`) and, with `--user`, the processes of other users.
/// `port_pids[k]` holds the ids of the processes that hold a socket on the
/// port of target `k`, for the targets that are ports.
pub fn resolve(opts: &Opts, procs: &Vec<Proc>, port_pids: &Vec<Vec<i32>>, me: i32) -> (r: Resolution)
    ensures
        ({
            let (m, un) = resolve_targets(
                opts@.targets,
                port_pids@.map_values(|v: Vec<i32>| v@),
                procs_view(procs@),
                opts@,
            );
            &&& texts(r.unresolved@) == un
            &&& pids_increasing(procs_view(r.matched@))
            &&& forall|i: int|
                0 <= i < r.matched@.len() ==> kept(m, me, opts@.user, #[trigger] r.matched@[i].pid)
                    && r.matched@[i]@ == m[r.matched@[i].pid]
            &&& forall|pid: i32|
                kept(m, me, opts@.user, pid) ==> exists|i: int|
                    0 <= i < r.matched@.len() && #[trigger] r.matched@[i].pid == pid
        }),
{
    let ghost pp = port_pids@.map_values(|v: Vec<i32>| v@);
    let ghost pv = procs_view(procs@);
    let ghost tv = opts@.targets;
    let mut m: HashMap<i32, Proc> = HashMap::new();
    let mut un: Vec<String> = Vec::new();
    let mut k: usize = 0;
    assert(tv.take(0) =~= Seq::<Seq<char>>::empty());
    assert(pmap_view(m@) =~= Map::<i32, ProcView>::empty());
    assert(texts(un@) =~= Seq::<Seq<char>>::empty());
    while k < opts.targets.len()
        invariant
            pp == port_pids@.map_values(|v: Vec<i32>| v@),
            pv == procs_view(procs@),
            tv == opts@.targets,
            tv.len() == opts.targets@.len(),
            k <= tv.len(),
            (pmap_view(m@), texts(un@)) == resolve_targets(tv.take(k as int), pp, pv, opts@),
            keys_from(pmap_view(m@), pv),
        decreases tv.len() - k,
    {
        assert(tv.take(k + 1).drop_last() =~= tv.take(k as int));
        assert(tv.take(k + 1).last() == opts.targets@[k as int]@);
        let ghost un0 = texts(un@);
        let t = &opts.targets[k];
        match classify(t.as_str()) {
            Target::Port(port) => {
                let empty: Vec<i32> = Vec::new();
                let pids: &Vec<i32> = if k < port_pids.len() {
                    &port_pids[k]
                } else {
                    &empty
                };
                assert(pids@ == pids_at(pp, k as int));
                let hit = resolve_port(&mut m, procs, pids, port);
                if !hit {
                    let mut msg = String::new();
                    push_str(&mut msg, ":");
                    let d = dec_u64(port as u64);
                    push_chars(&mut msg, d.as_slice());
                    push_str(&mut msg, " (nothing listening)");
                    un.push(msg);
                    assert(texts(un@) =~= un0.push(msg@));
                }
            },
            Target::Pid(pid) => {
                match find_pid(procs, pid) {
                    Some(j) => {
                        if !m.contains_key(&pid) {
                            let ghost before = pmap_view(m@);
                            let c = procs[j].duplicate();
                            m.insert(pid, c);
                            assert(pmap_view(m@) =~= before.insert(pid, c@));
                            assert(pv[j as int].pid == pid);
                        }
                    },
                    None => {
                        let mut msg = String::new();
                        let d = dec_i64(pid as i64);
                        push_chars(&mut msg, d.as_slice());
                        push_str(&mut msg, " (no such process)");
                        un.push(msg);
                        assert(texts(un@) =~= un0.push(msg@));
                    },
                }
            },
            Target::Name(pat) => {
                let hit = resolve_name(&mut m, procs, pat.as_str(), opts);
                if !hit {
                    let mut msg = String::new();
                    push_str(&mut msg, pat.as_str());
                    push_str(&mut msg, " (no match)");
                    un.push(msg);
                    assert(texts(un@) =~= un0.push(msg@));
                }
            },
        }
        k = k + 1;
    }
    assert(tv.take(tv.len() as int) =~= tv);
    let ghost mv = pmap_view(m@);
    // The ids to keep, in increasing order.
    let mut ids: Vec<i32> = Vec::new();
    let mut j: usize = 0;
    while j < procs.len()
        invariant
            pv == procs_view(procs@),
            mv == pmap_view(m@),
            keys_from(mv, pv),
            j <= procs@.len(),
            forall|a: int, b: int| 0 <= a < b < ids@.len() ==> ids@[a] < ids@[b],
            forall|pid: i32|
                ids@.contains(pid) <==> (kept(mv, me, opts@.user, pid) && exists|i: int|
                    0 <= i < j && #[trigger] pv[i].pid == pid),
        decreases procs@.len() - j,
    {
        let pid = procs[j].pid;
        assert(pv[j as int].pid == pid);
        let keep = match m.get(&pid) {
            Some(pr) => pid != me && match &opts.user {
                Some(u) => {
                    let uc = chars_of(u.as_str());
                    let pc = chars_of(pr.user.as_str());
                    crate::text::is_same(pc.as_slice(), uc.as_slice())
                },
                None => true,
            },
            None => false,
        };
        assert(keep == kept(mv, me, opts@.user, pid));
        if keep {
            insert_sorted(&mut ids, pid);
            assert(forall|y: i32| #[trigger] ids@.contains(y) <==> ids@.to_set().contains(y));
        }
        j = j + 1;
    }
    let mut matched: Vec<Proc> = Vec::new();
    let mut q: usize = 0;
    while q < ids.len()
        invariant
            mv == pmap_view(m@),
            keys_from(mv, pv),
            q <= ids@.len(),
            forall|a: int, b: int| 0 <= a < b < ids@.len() ==> ids@[a] < ids@[b],
            forall|pid: i32| ids@.contains(pid) ==> kept(mv, me, opts@.user, pid),
            matched@.len() == q,
            forall|i: int| 0 <= i < q ==> (#[trigger] matched@[i]).pid == ids@[i] && matched@[i]@
                == mv[ids@[i]],
        decreases ids@.len() - q,
    {
        assert(ids@.contains(ids@[q as int]));
        let pid = ids[q];
        match m.get(&pid) {
            Some(pr) => {
                assert(mv[pid] == pr@);
                let c = pr.duplicate();
                let ghost before = matched@;
                matched.push(c);
                assert(forall|i: int| 0 <= i < q ==> matched@[i] == before[i]);
                assert(matched@[q as int]@ == mv[ids@[q as int]]);
            },
            None => {
                assert(false);
            },
        }
        q = q + 1;
    }
    proof {
        assert forall|pid: i32| kept(mv, me, opts@.user, pid) implies exists|i: int|
            0 <= i < matched@.len() && #[trigger] matched@[i].pid == pid by {
            let i = choose|i: int| 0 <= i < pv.len() && #[trigger] pv[i].pid == pid;
            assert(ids@.contains(pid));
            let a = choose|a: int| 0 <= a < ids@.len() && ids@[a] == pid;
            assert(matched@[a].pid == pid);
        }
        assert forall|i: int|
            0 <= i < matched@.len() implies kept(mv, me, opts@.user, #[trigger] matched@[i].pid)
            && matched@[i]@ == mv[matched@[i].pid] by {
            assert(ids@.contains(ids@[i]));
        }
    }
    Resolution { matched, unresolved: un }
}

// ───────────────────────── laws ─────────────────────────

/// Some process in `procs` has the id `pid`.
pub open spec fn has_pid(procs: Seq<ProcView>, pid: i32) -> bool {
    exists|i: int| 0 <= i < procs.len() && #[trigger] procs[i].pid == pid
}

/// The target `t` names the process id `pid`: a port target names the known
/// processes that hold a socket on it (`pids`), a process-id target names that
/// id if it is known, and a name target the known processes that match it.
pub open spec fn names_pid(t: Seq<char>, pids: Seq<i32>, procs: Seq<ProcView>, o: OptsView, pid: i32) -> bool {
    match target_of(t) {
        TargetView::Port(_) => pids.contains(pid) && has_pid(procs, pid),
        TargetView::Pid(p) => p == pid && has_pid(procs, pid),
        TargetView::Name(pat) => exists|i: int|
            0 <= i < procs.len() && #[trigger] procs[i].pid == pid && name_match(
                procs[i],
                pat,
                o.full,
                o.exact,
                o.ignore_case,
            ),
    }
}

proof fn lemma_add_port_dom(m: Map<i32, ProcView>, procs: Seq<ProcView>, pids: Seq<i32>, port: u16, pid: i32)
    ensures
        add_port(m, procs, pids, port).contains_key(pid) <==> (m.contains_key(pid) || (pids.contains(
            pid,
        ) && has_pid(procs, pid))),
    decreases procs.len(),
{
    if procs.len() > 0 {
        let init = procs.drop_last();
        lemma_add_port_dom(m, init, pids, port, pid);
        if has_pid(procs, pid) && !has_pid(init, pid) {
            let i = choose|i: int| 0 <= i < procs.len() && #[trigger] procs[i].pid == pid;
            assert(i == procs.len() - 1) by {
                if i < procs.len() - 1 {
                    assert(init[i].pid == pid);
                }
            }
        }
        if has_pid(init, pid) {
            let i = choose|i: int| 0 <= i < init.len() && #[trigger] init[i].pid == pid;
            assert(procs[i].pid == pid);
        }
    }
}

proof fn lemma_add_named_dom(m: Map<i32, ProcView>, procs: Seq<ProcView>, pat: Seq<char>, o: OptsView, pid: i32)
    ensures
        add_named(m, procs, pat, o).contains_key(pid) <==> (m.contains_key(pid) || exists|i: int|
            0 <= i < procs.len() && #[trigger] procs[i].pid == pid && name_match(
                procs[i],
                pat,
                o.full,
                o.exact,
                o.ignore_case,
            )),
    decreases procs.len(),
{
    if procs.len() > 0 {
        let init = procs.drop_last();
        lemma_add_named_dom(m, init, pat, o, pid);
        if exists|i: int|
            0 <= i < procs.len() && #[trigger] procs[i].pid == pid && name_match(
                procs[i],
                pat,
                o.full,
                o.exact,
                o.ignore_case,
            ) {
            let i = choose|i: int|
                0 <= i < procs.len() && #[trigger] procs[i].pid == pid && name_match(
                    procs[i],
                    pat,
                    o.full,
                    o.exact,
                    o.ignore_case,
                );
            if i < procs.len() - 1 {
                assert(init[i] == procs[i]);
            }
        }
        if exists|i: int|
            0 <= i < init.len() && #[trigger] init[i].pid == pid && name_match(
                init[i],
                pat,
                o.full,
                o.exact,
                o.ignore_case,
            ) {
            let i = choose|i: int|
                0 <= i < init.len() && #[trigger] init[i].pid == pid && name_match(
                    init[i],
                    pat,
                    o.full,
                    o.exact,
                    o.ignore_case,
                );
            assert(procs[i] == init[i]);
        }
    }
}

proof fn lemma_first_with_pid_some(procs: Seq<ProcView>, pid: i32)
    ensures
        first_with_pid(procs, pid) is Some <==> has_pid(procs, pid),
    decreases procs.len(),
{
    if procs.len() > 0 {
        let tail = procs.drop_first();
        lemma_first_with_pid_some(tail, pid);
        if has_pid(tail, pid) {
            let i = choose|i: int| 0 <= i < tail.len() && #[trigger] tail[i].pid == pid;
            assert(procs[i + 1].pid == pid);
        }
        if has_pid(procs, pid) && procs[0].pid != pid {
            let i = choose|i: int| 0 <= i < procs.len() && #[trigger] procs[i].pid == pid;
            assert(tail[i - 1].pid == pid);
        }
    }
}

/// Targets can be mixed freely: a process id is recorded exactly when some
/// target names it, whatever the order of the targets.
pub proof fn law_targets_union(
    targets: Seq<Seq<char>>,
    port_pids: Seq<Seq<i32>>,
    procs: Seq<ProcView>,
    o: OptsView,
    pid: i32,
)
    ensures
        resolve_targets(targets, port_pids, procs, o).0.contains_key(pid) <==> exists|k: int|
            0 <= k < targets.len() && #[trigger] names_pid(
                targets[k],
                pids_at(port_pids, k),
                procs,
                o,
                pid,
            ),
    decreases targets.len(),
{
    if targets.len() > 0 {
        let init = targets.drop_last();
        let k = targets.len() - 1;
        law_targets_union(init, port_pids, procs, o, pid);
        let m = resolve_targets(init, port_pids, procs, o).0;
        assert(targets[k] == targets.last());
        let last_names = names_pid(targets[k], pids_at(port_pids, k), procs, o, pid);
        match target_of(targets.last()) {
            TargetView::Port(port) => {
                lemma_add_port_dom(m, procs, pids_at(port_pids, k), port, pid);
            },
            TargetView::Pid(p) => {
                lemma_first_with_pid_some(procs, p);
            },
            TargetView::Name(pat) => {
                lemma_add_named_dom(m, procs, pat, o, pid);
            },
        }
        if exists|j: int|
            0 <= j < init.len() && #[trigger] names_pid(init[j], pids_at(port_pids, j), procs, o, pid) {
            let j = choose|j: int|
                0 <= j < init.len() && #[trigger] names_pid(
                    init[j],
                    pids_at(port_pids, j),
                    procs,
                    o,
                    pid,
                );
            assert(targets[j] == init[j]);
        }
        if exists|j: int|
            0 <= j < targets.len() && #[trigger] names_pid(
                targets[j],
                pids_at(port_pids, j),
                procs,
                o,
                pid,
            ) {
            let j = choose|j: int|
                0 <= j < targets.len() && #[trigger] names_pid(
                    targets[j],
                    pids_at(port_pids, j),
                    procs,
                    o,
                    pid,
                );
            if j < k {
                assert(init[j] == targets[j]);
            }
        }
    }
}

/// The program never signals itself, and with `--user` only that user's
/// processes: every process `resolve` returns is `kept`.
pub proof fn law_never_self(m: Map<i32, ProcView>, me: i32, user: Option<Seq<char>>, pid: i32)
    requires
        kept(m, me, user, pid),
    ensures
        pid != me,
        user matches Some(u) ==> m[pid].user == u,
{
}

/// With `--exact`, only the process name counts, with or without `--full`.
pub proof fn law_exact_ignores_full(p: ProcView, pat: Seq<char>, ignore_case: bool)
    ensures
        name_match(p, pat, true, true, ignore_case) == name_match(p, pat, false, true, ignore_case),
        name_match(p, pat, false, true, false) == (p.name == pat),
{
}

/// With `-i` and without `-x`, matching is blind to case on whichever text
/// `-f` picks: the pattern, lower-cased, occurs in the lower-cased name (or
/// command line); with `-x` as well, the lower-cased name equals the
/// lower-cased pattern.
pub proof fn law_ignore_case_matching(p: ProcView, pat: Seq<char>, full: bool)
    ensures
        name_match(p, pat, full, false, true) == has_infix(
            lowercased(
                if full {
                    p.cmdline
                } else {
                    p.name
                },
            ),
            lowercased(pat),
        ),
        name_match(p, pat, false, false, true) == has_infix(lowercased(p.name), lowercased(pat)),
        name_match(p, pat, full, true, true) == (lowercased(p.name) == lowercased(pat)),
{
}

/// A name target never changes or drops a process that is already recorded,
/// so a port found for it by an earlier port target stays.
pub proof fn law_names_keep_records(
    m: Map<i32, ProcView>,
    procs: Seq<ProcView>,
    pat: Seq<char>,
    o: OptsView,
    pid: i32,
)
    requires
        m.contains_key(pid),
    ensures
        add_named(m, procs, pat, o).contains_key(pid),
        add_named(m, procs, pat, o)[pid] == m[pid],
    decreases procs.len(),
{
    if procs.len() > 0 {
        law_names_keep_records(m, procs.drop_last(), pat, o, pid);
    }
}

/// Targets that are no ports (names and process ids), given after others,
/// never change or drop a process that the earlier targets recorded: the port
/// it was found through stays.
pub proof fn law_later_targets_keep_records(
    targets: Seq<Seq<char>>,
    extra: Seq<Seq<char>>,
    port_pids: Seq<Seq<i32>>,
    procs: Seq<ProcView>,
    o: OptsView,
    pid: i32,
)
    requires
        forall|k: int| 0 <= k < extra.len() ==> !(target_of(#[trigger] extra[k]) is Port),
        resolve_targets(targets, port_pids, procs, o).0.contains_key(pid),
    ensures
        resolve_targets(targets + extra, port_pids, procs, o).0.contains_key(pid),
        resolve_targets(targets + extra, port_pids, procs, o).0[pid] == resolve_targets(
            targets,
            port_pids,
            procs,
            o,
        ).0[pid],
    decreases extra.len(),
{
    if extra.len() == 0 {
        assert(targets + extra =~= targets);
    } else {
        let init = extra.drop_last();
        law_later_targets_keep_records(targets, init, port_pids, procs, o, pid);
        let all = targets + extra;
        assert(all.drop_last() =~= targets + init);
        assert(all.last() == extra[extra.len() - 1]);
        let m = resolve_targets(targets + init, port_pids, procs, o).0;
        match target_of(all.last()) {
            TargetView::Name(pat) => {
                law_names_keep_records(m, procs, pat, o, pid);
            },
            _ => {},
        }
    }
}

/// Without `-i`, matching respects case: without `-x` the pattern occurs in
/// the name (the command line with `-f`); with `-x` the name is the pattern.
pub proof fn law_case_matching(p: ProcView, pat: Seq<char>, full: bool)
    ensures
        name_match(p, pat, full, false, false) == has_infix(
            if full {
                p.cmdline
            } else {
                p.name
            },
            pat,
        ),
        name_match(p, pat, full, true, false) == (p.name == pat),
{
}

/// A name target records every process that matches it (the first one seen
/// with its id, unless one was recorded before).
pub proof fn law_names_record_matches(
    m: Map<i32, ProcView>,
    procs: Seq<ProcView>,
    pat: Seq<char>,
    o: OptsView,
    i: int,
)
    requires
        0 <= i < procs.len(),
        name_match(procs[i], pat, o.full, o.exact, o.ignore_case),
    ensures
        add_named(m, procs, pat, o).contains_key(procs[i].pid),
    decreases procs.len(),
{
    let init = procs.drop_last();
    if i < procs.len() - 1 {
        assert(init[i] == procs[i]);
        law_names_record_matches(m, init, pat, o, i);
    }
}

} // verus!
