//! Listening ports: which a process tree serves on, and whether a port is
//! already taken.
//!
//! The TCP table itself is read by the caller; everything here works on one
//! snapshot of it, so several questions can share a single read.
use std::collections::HashSet;

use vstd::prelude::*;

verus! {

broadcast use vstd::std_specs::hash::group_hash_axioms;

/// One listening TCP endpoint and the process holding it.
#[derive(Debug, Clone, Copy, PartialEq, Eq, Structural)]
pub struct Listener {
    /// Port being listened on.
    pub port: u16,
    /// Process id that owns the socket.
    pub pid: u32,
}

/// Whether one of the processes `pids` listens on `port` in `table`.
pub open spec fn owned_port(table: Seq<Listener>, pids: Set<u32>, port: u16) -> bool {
    exists|i: int| 0 <= i < table.len() && #[trigger] table[i].port == port && pids.contains(table[i].pid)
}

/// Whether anything listens on `port` in `table`.
pub open spec fn listened(table: Seq<Listener>, port: u16) -> bool {
    exists|i: int| 0 <= i < table.len() && #[trigger] table[i].port == port
}

/// The ports of `table`.
pub open spec fn listening_ports(table: Seq<Listener>) -> Set<u16> {
    Set::new(|p: u16| listened(table, p))
}

/// Whether `s` is sorted with no repeats.
pub open spec fn strictly_increasing(s: Seq<u16>) -> bool {
    forall|i: int, j: int| 0 <= i < j < s.len() ==> s[i] < s[j]
}

/// The first of `ports` that `taken` holds.
pub open spec fn first_taken(taken: Set<u16>, ports: Seq<u16>) -> Option<u16>
    decreases ports.len(),
{
    if ports.len() == 0 {
        None
    } else if taken.contains(ports[0]) {
        Some(ports[0])
    } else {
        first_taken(taken, ports.drop_first())
    }
}

/// Adds `x` to a sorted, repeat-free vector, keeping it so.
fn insert_sorted(v: &mut Vec<u16>, x: u16)
    requires
        strictly_increasing(old(v)@),
    ensures
        strictly_increasing(final(v)@),
        forall|p: u16| final(v)@.contains(p) <==> (old(v)@.contains(p) || p == x),
{
    let mut i: usize = 0;
    while i < v.len() && v[i] < x
        invariant
            i <= v.len(),
            v@ == old(v)@,
            forall|k: int| 0 <= k < i ==> v@[k] < x,
        decreases v.len() - i,
    {
        i += 1;
    }
    if i < v.len() && v[i] == x {
        assert(v@[i as int] == x);
        return;
    }
    let ghost before = v@;
    v.insert(i, x);
    assert forall|p: u16| v@.contains(p) <==> (before.contains(p) || p == x) by {
        if v@.contains(p) {
            let k = choose|k: int| 0 <= k < v@.len() && v@[k] == p;
            if k < i {
                assert(before[k] == p);
            } else if k > i {
                assert(before[k - 1] == p);
            }
        }
        if before.contains(p) {
            let k = choose|k: int| 0 <= k < before.len() && before[k] == p;
            if k < i {
                assert(v@[k] == p);
            } else {
                assert(v@[k + 1] == p);
            }
        }
        if p == x {
            assert(v@[i as int] == x);
        }
    }
    assert(before == old(v)@);
    assert(forall|p: u16| v@.contains(p) <==> (old(v)@.contains(p) || p == x));
}

/// The ports the processes `pids` listen on in `table`, sorted and without
/// repeats.
///
/// Takes the whole process tree rather than one pid because the process that
/// binds the port is usually not the one launched.
pub fn ports_for_pids(table: &[Listener], pids: &HashSet<u32>) -> (r: Vec<u16>)
    ensures
        strictly_increasing(r@),
        forall|p: u16| r@.contains(p) <==> owned_port(table@, pids@, p),
{
    let mut r: Vec<u16> = Vec::new();
    let mut i: usize = 0;
    while i < table.len()
        invariant
            i <= table.len(),
            strictly_increasing(r@),
            forall|p: u16| r@.contains(p) <==> owned_port(table@.take(i as int), pids@, p),
        decreases table.len() - i,
    {
        let l = table[i];
        let owned = pids.contains(&l.pid);
        let ghost before = r@;
        if owned {
            insert_sorted(&mut r, l.port);
        }
        assert forall|p: u16| r@.contains(p) <==> owned_port(table@.take(i + 1), pids@, p) by {
            let t = table@.take(i + 1);
            if owned_port(t, pids@, p) {
                let k = choose|k: int| 0 <= k < t.len() && #[trigger] t[k].port == p && pids@.contains(t[k].pid);
                if k < i {
                    assert(table@.take(i as int)[k].port == p);
                }
            }
            if owned_port(table@.take(i as int), pids@, p) {
                let k = choose|k: int| 0 <= k < i && #[trigger] table@.take(i as int)[k].port == p && pids@.contains(table@.take(i as int)[k].pid);
                assert(t[k].port == p);
            }
            if owned && p == l.port {
                assert(t[i as int].port == p);
            }
        }
        i += 1;
    }
    assert(table@.take(table.len() as int) =~= table@);
    r
}

/// Whether anything listens on `port` in `table`.
pub fn is_port_in_use(table: &[Listener], port: u16) -> (r: bool)
    ensures
        r == listened(table@, port),
{
    let mut i: usize = 0;
    while i < table.len()
        invariant
            i <= table.len(),
            forall|k: int| 0 <= k < i ==> table@[k].port != port,
        decreases table.len() - i,
    {
        if table[i].port == port {
            return true;
        }
        i += 1;
    }
    false
}

/// Every port listening in `table`, as one set.
pub fn taken_ports(table: &[Listener]) -> (r: HashSet<u16>)
    ensures
        r@ == listening_ports(table@),
{
    let mut r: HashSet<u16> = HashSet::new();
    let mut i: usize = 0;
    while i < table.len()
        invariant
            i <= table.len(),
            r@ == listening_ports(table@.take(i as int)),
        decreases table.len() - i,
    {
        let ghost before = r@;
        r.insert(table[i].port);
        assert(r@ =~= listening_ports(table@.take(i + 1))) by {
            let t = table@.take(i + 1);
            assert forall|p: u16| r@.contains(p) <==> listened(t, p) by {
                if listened(t, p) {
                    let k = choose|k: int| 0 <= k < t.len() && #[trigger] t[k].port == p;
                    if k < i {
                        assert(table@.take(i as int)[k].port == p);
                    }
                }
                if before.contains(p) {
                    let k = choose|k: int| 0 <= k < i && #[trigger] table@.take(i as int)[k].port == p;
                    assert(t[k].port == p);
                }
                if p == table@[i as int].port {
                    assert(t[i as int].port == p);
                }
            }
        }
        i += 1;
    }
    assert(table@.take(table.len() as int) =~= table@);
    r
}

/// The first of `ports` present in an already-taken snapshot.
pub fn first_conflict_in(taken: &HashSet<u16>, ports: &[u16]) -> (r: Option<u16>)
    ensures
        r == first_taken(taken@, ports@),
{
    let mut i: usize = 0;
    assert(ports@.skip(0) =~= ports@);
    while i < ports.len()
        invariant
            i <= ports.len(),
            first_taken(taken@, ports@.skip(i as int)) == first_taken(taken@, ports@),
        decreases ports.len() - i,
    {
        assert(ports@.skip(i as int)[0] == ports@[i as int]);
        assert(ports@.skip(i as int).drop_first() =~= ports@.skip(i + 1));
        if taken.contains(&ports[i]) {
            return Some(ports[i]);
        }
        i += 1;
    }
    None
}

/// The first of `ports` already taken in `table`, if any.
///
/// With no ports to check the table is not consulted at all.
pub fn first_conflict(table: &[Listener], ports: &[u16]) -> (r: Option<u16>)
    ensures
        r == first_taken(listening_ports(table@), ports@),
{
    if ports.len() == 0 {
        return None;
    }
    let taken = taken_ports(table);
    first_conflict_in(&taken, ports)
}

} // verus!
