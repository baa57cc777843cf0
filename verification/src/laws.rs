//! Laws of the tracer's state machine, proved about the model that every
//! executable mutation is specified against: absolute-path preservation
//! in the fd table, entry/exit alternation, fork inheritance, the mmap
//! classification table, rename destinations, and monotonicity of the
//! observed-path sets.

use vstd::prelude::*;
use crate::model::{
    FdRow, PendRow, InRow, ProcRow, StM, Ev, EntryEv, empty_state, fd_lookup, insys_lookup,
    insys_set, insys_clear, pend_lookup, pend_clear, proc_lookup, proc_clear, proc_set, set_add,
    fork_rows, step_entry, step_exit, step_stop, step_fork, step, run, is_abs, is_root_pid,
};

verus! {

/// Membership in a sequence after a push: the old members and the new
/// element, nothing else.
pub proof fn lemma_push_contains<T>(s: Seq<T>, x: T, y: T)
    ensures
        s.push(x).contains(y) <==> (s.contains(y) || x == y),
{
    if s.push(x).contains(y) {
        let i = choose|i: int| 0 <= i < s.push(x).len() && s.push(x)[i] == y;
        if i < s.len() {
            assert(s[i] == y);
        }
    }
    if s.contains(y) {
        let i = choose|i: int| 0 <= i < s.len() && s[i] == y;
        assert(s.push(x)[i] == y);
    }
    if x == y {
        assert(s.push(x)[s.len() as int] == y);
    }
}

/// Membership after `set_add` is membership before, or the added path.
pub proof fn lemma_set_add_contains(s: Seq<Seq<u8>>, x: Seq<u8>, y: Seq<u8>)
    ensures
        set_add(s, x).contains(y) <==> (s.contains(y) || x == y),
{
    if !s.contains(x) {
        lemma_push_contains(s, x, y);
    }
}

/// Clearing one pid's in-syscall rows does not touch another pid's flag.
pub proof fn lemma_insys_clear_other(s: Seq<InRow>, pid: int, q: int)
    requires
        q != pid,
    ensures
        insys_lookup(insys_clear(s, pid), q) == insys_lookup(s, q),
    decreases s.len(),
{
    if s.len() > 0 {
        lemma_insys_clear_other(s.drop_last(), pid, q);
        if s.last().pid != pid {
            assert(insys_clear(s, pid).last() == s.last());
            assert(insys_clear(s, pid).drop_last() =~= insys_clear(s.drop_last(), pid));
        }
    }
}

/// Setting one pid's in-syscall flag: that pid reads the new flag, any
/// other pid reads what it read before.
pub proof fn lemma_insys_set_get(s: Seq<InRow>, pid: int, flag: bool, q: int)
    ensures
        insys_lookup(insys_set(s, pid, flag), pid) == flag,
        q != pid ==> insys_lookup(insys_set(s, pid, flag), q) == insys_lookup(s, q),
{
    assert(insys_set(s, pid, flag).last() == (InRow { pid, flag }));
    assert(insys_set(s, pid, flag).drop_last() =~= insys_clear(s, pid));
    if q != pid {
        lemma_insys_clear_other(s, pid, q);
    }
}

/// A syscall-entry event never changes the in-syscall rows.
pub proof fn lemma_entry_keeps_insys(m: StM, pid: int, e: EntryEv)
    ensures
        step_entry(m, pid, e).insys == m.insys,
{
}

/// A syscall-exit stop never changes the in-syscall rows.
pub proof fn lemma_exit_keeps_insys(m: StM, pid: int, is_open: bool, ret: int)
    ensures
        step_exit(m, pid, is_open, ret).insys == m.insys,
{
}

/// Entry/exit alternation, one stop: each syscall stop flips the pid's
/// in-syscall flag and leaves every other pid's flag alone.
pub proof fn lemma_stop_toggles(m: StM, pid: int, e: EntryEv, is_open: bool, ret: int, q: int)
    ensures
        insys_lookup(step_stop(m, pid, e, is_open, ret).insys, pid) == !insys_lookup(
            m.insys,
            pid,
        ),
        q != pid ==> insys_lookup(step_stop(m, pid, e, is_open, ret).insys, q) == insys_lookup(
            m.insys,
            q,
        ),
{
    let was = insys_lookup(m.insys, pid);
    let m1 = StM { insys: insys_set(m.insys, pid, !was), ..m };
    lemma_insys_set_get(m.insys, pid, !was, q);
    if !was {
        lemma_entry_keeps_insys(m1, pid, e);
    } else {
        lemma_exit_keeps_insys(m1, pid, is_open, ret);
    }
}

/// Entry/exit alternation, a pair: a matched entry stop and exit stop
/// leave the pid's in-syscall flag down, as it started.
pub proof fn lemma_entry_exit_pair(
    m: StM,
    pid: int,
    e1: EntryEv,
    o1: bool,
    r1: int,
    e2: EntryEv,
    o2: bool,
    r2: int,
)
    requires
        !insys_lookup(m.insys, pid),
    ensures
        !insys_lookup(
            step_stop(step_stop(m, pid, e1, o1, r1), pid, e2, o2, r2).insys,
            pid,
        ),
{
    lemma_stop_toggles(m, pid, e1, o1, r1, pid);
    lemma_stop_toggles(step_stop(m, pid, e1, o1, r1), pid, e2, o2, r2, pid);
}

/// Only syscall stops touch the in-syscall rows.
pub proof fn lemma_nonstop_keeps_insys(m: StM, ev: Ev)
    requires
        !(ev is Stop),
    ensures
        step(m, ev).insys == m.insys,
{
}

/// Entry/exit alternation over any run of syscall stops on one pid: the
/// flag ends where it started after an even number of stops, flipped
/// after an odd number.
pub proof fn lemma_run_alternation(m: StM, evs: Seq<Ev>, pid: int)
    requires
        forall|i: int|
            0 <= i < evs.len() ==> ((#[trigger] evs[i]) matches Ev::Stop { pid: p, .. } && p
                == pid),
    ensures
        insys_lookup(run(m, evs).insys, pid) == (if evs.len() % 2 == 0 {
            insys_lookup(m.insys, pid)
        } else {
            !insys_lookup(m.insys, pid)
        }),
    decreases evs.len(),
{
    if evs.len() > 0 {
        assert(forall|i: int|
            0 <= i < evs.drop_last().len() ==> ((#[trigger] evs.drop_last()[i]) matches Ev::Stop {
                pid: p,
                ..
            } && p == pid)) by {
            assert(forall|i: int| 0 <= i < evs.len() - 1 ==> evs.drop_last()[i] == evs[i]);
        }
        lemma_run_alternation(m, evs.drop_last(), pid);
        let prev = run(m, evs.drop_last());
        match evs.last() {
            Ev::Stop { pid: p, e, is_open, ret } => {
                lemma_stop_toggles(prev, p, e, is_open, ret, pid);
            },
            _ => {},
        }
        assert(evs.drop_last().len() % 2 == (evs.len() - 1) % 2);
    }
}

/// Every path in the fd table is absolute.
pub open spec fn fd_paths_abs(m: StM) -> bool {
    forall|i: int| 0 <= i < m.fds.len() ==> is_abs(#[trigger] m.fds[i].path)
}

/// Every pending-open path is absolute.
pub open spec fn pend_paths_abs(m: StM) -> bool {
    forall|i: int| 0 <= i < m.pend.len() ==> is_abs(#[trigger] m.pend[i].path)
}

/// An event whose path payloads, if any, are absolute.
pub open spec fn ev_paths_abs(ev: Ev) -> bool {
    match ev {
        Ev::Stop { e, .. } => match e {
            EntryEv::OpenPath { path, .. } => is_abs(path),
            EntryEv::RenameDest { path } => is_abs(path),
            _ => true,
        },
        _ => true,
    }
}

/// Clearing a pid keeps only rows that were pending before.
pub proof fn lemma_pend_clear_abs(s: Seq<PendRow>, pid: int)
    requires
        forall|i: int| 0 <= i < s.len() ==> is_abs(#[trigger] s[i].path),
    ensures
        forall|i: int|
            0 <= i < pend_clear(s, pid).len() ==> is_abs(#[trigger] pend_clear(s, pid)[i].path),
    decreases s.len(),
{
    if s.len() > 0 {
        assert(forall|i: int| 0 <= i < s.drop_last().len() ==> is_abs(
            #[trigger] s.drop_last()[i].path,
        )) by {
            assert(forall|i: int| 0 <= i < s.len() - 1 ==> s.drop_last()[i] == s[i]);
        }
        lemma_pend_clear_abs(s.drop_last(), pid);
        if s.last().pid == pid {
            assert(pend_clear(s, pid) == pend_clear(s.drop_last(), pid));
        }
        if s.last().pid != pid {
            let t = pend_clear(s.drop_last(), pid);
            assert(forall|i: int| 0 <= i < t.len() ==> t.push(s.last())[i] == t[i]);
            assert(t.push(s.last()).last() == s.last());
        }
    }
}

/// A pending lookup only ever returns a recorded pending row.
pub proof fn lemma_pend_lookup_abs(s: Seq<PendRow>, pid: int)
    requires
        forall|i: int| 0 <= i < s.len() ==> is_abs(#[trigger] s[i].path),
        pend_lookup(s, pid) is Some,
    ensures
        is_abs(pend_lookup(s, pid).unwrap().path),
    decreases s.len(),
{
    if s.len() > 0 && s.last().pid != pid {
        assert(forall|i: int| 0 <= i < s.drop_last().len() ==> is_abs(
            #[trigger] s.drop_last()[i].path,
        )) by {
            assert(forall|i: int| 0 <= i < s.len() - 1 ==> s.drop_last()[i] == s[i]);
        }
        lemma_pend_lookup_abs(s.drop_last(), pid);
    }
}

/// Every fork-copied row carries a path that some parent row carried.
pub proof fn lemma_fork_rows_abs(s: Seq<FdRow>, parent: int, child: int)
    requires
        forall|i: int| 0 <= i < s.len() ==> is_abs(#[trigger] s[i].path),
    ensures
        forall|i: int|
            0 <= i < fork_rows(s, parent, child).len() ==> is_abs(
                #[trigger] fork_rows(s, parent, child)[i].path,
            ),
    decreases s.len(),
{
    if s.len() > 0 {
        assert(forall|i: int| 0 <= i < s.drop_last().len() ==> is_abs(
            #[trigger] s.drop_last()[i].path,
        )) by {
            assert(forall|i: int| 0 <= i < s.len() - 1 ==> s.drop_last()[i] == s[i]);
        }
        lemma_fork_rows_abs(s.drop_last(), parent, child);
        let t = fork_rows(s.drop_last(), parent, child);
        if s.last().pid == parent {
            let row = FdRow { pid: child, fd: s.last().fd, path: s.last().path };
            assert(forall|i: int| 0 <= i < t.len() ==> t.push(row)[i] == t[i]);
            assert(t.push(row).last() == row);
        }
    }
}

/// The fd-table absolute-path invariant, one event: if every fd-table
/// path and every pending path is absolute, and the event's own path
/// payloads are absolute, both stay absolute.
pub proof fn lemma_step_fd_abs(m: StM, ev: Ev)
    requires
        fd_paths_abs(m),
        pend_paths_abs(m),
        ev_paths_abs(ev),
    ensures
        fd_paths_abs(step(m, ev)),
        pend_paths_abs(step(m, ev)),
{
    match ev {
        Ev::Stop { pid, e, is_open, ret } => {
            let was = insys_lookup(m.insys, pid);
            let m1 = StM { insys: insys_set(m.insys, pid, !was), ..m };
            if !was {
                match e {
                    EntryEv::OpenPath { path, flags } => {
                        lemma_pend_clear_abs(m.pend, pid);
                        let t = pend_clear(m.pend, pid);
                        let row = PendRow { pid, path, flags };
                        assert(forall|i: int| 0 <= i < t.len() ==> t.push(row)[i] == t[i]);
                        assert(t.push(row).last() == row);
                    },
                    _ => {},
                }
            } else {
                if is_open && pend_lookup(m1.pend, pid) is Some {
                    lemma_pend_lookup_abs(m1.pend, pid);
                    lemma_pend_clear_abs(m1.pend, pid);
                    if ret >= 0 {
                        let row = FdRow {
                            pid,
                            fd: ret,
                            path: pend_lookup(m1.pend, pid).unwrap().path,
                        };
                        assert(forall|i: int|
                            0 <= i < m.fds.len() ==> m.fds.push(row)[i] == m.fds[i]);
                        assert(m.fds.push(row).last() == row);
                    }
                }
            }
        },
        Ev::ForkEv { parent, child, .. } => {
            lemma_fork_rows_abs(m.fds, parent, child);
            let t = fork_rows(m.fds, parent, child);
            assert(forall|i: int| 0 <= i < m.fds.len() ==> (m.fds + t)[i] == m.fds[i]);
            assert(forall|i: int|
                m.fds.len() <= i < (m.fds + t).len() ==> (m.fds + t)[i] == t[i - m.fds.len()]);
        },
        Ev::ExecEv { .. } => {},
        Ev::GoneEv { .. } => {},
    }
}

/// The fd-table absolute-path invariant over a whole event sequence:
/// after any run of events whose path payloads are absolute, every path
/// in the fd table begins with `/`.
pub proof fn lemma_run_fd_abs(m: StM, evs: Seq<Ev>)
    requires
        fd_paths_abs(m),
        pend_paths_abs(m),
        forall|i: int| 0 <= i < evs.len() ==> ev_paths_abs(#[trigger] evs[i]),
    ensures
        fd_paths_abs(run(m, evs)),
        pend_paths_abs(run(m, evs)),
    decreases evs.len(),
{
    if evs.len() > 0 {
        assert(forall|i: int| 0 <= i < evs.drop_last().len() ==> ev_paths_abs(
            #[trigger] evs.drop_last()[i],
        )) by {
            assert(forall|i: int| 0 <= i < evs.len() - 1 ==> evs.drop_last()[i] == evs[i]);
        }
        lemma_run_fd_abs(m, evs.drop_last());
        lemma_step_fd_abs(run(m, evs.drop_last()), evs.last());
    }
}

/// Fork-copied rows answer a child lookup exactly as the source rows
/// answer the parent, and they answer nothing else.
pub proof fn lemma_fork_lookup(a: Seq<FdRow>, b: Seq<FdRow>, parent: int, child: int, fd: int)
    requires
        child != parent,
    ensures
        fd_lookup(a + fork_rows(b, parent, child), child, fd) == (match fd_lookup(b, parent, fd) {
            Some(p) => Some(p),
            None => fd_lookup(a, child, fd),
        }),
    decreases b.len(),
{
    if b.len() == 0 {
        assert(a + fork_rows(b, parent, child) =~= a);
    } else {
        lemma_fork_lookup(a, b.drop_last(), parent, child, fd);
        let rest = fork_rows(b.drop_last(), parent, child);
        if b.last().pid == parent {
            let row = FdRow { pid: child, fd: b.last().fd, path: b.last().path };
            assert(fork_rows(b, parent, child) == rest.push(row));
            assert(a + rest.push(row) =~= (a + rest).push(row));
            if b.last().fd == fd {
                assert(fd_lookup((a + rest).push(row), child, fd) == Some(row.path));
            } else {
                assert((a + rest).push(row).drop_last() =~= a + rest);
            }
        } else {
            assert(fork_rows(b, parent, child) == rest);
        }
    }
}

/// A pid with no rows in the table finds nothing.
pub proof fn lemma_lookup_absent(s: Seq<FdRow>, pid: int, fd: int)
    requires
        forall|i: int| 0 <= i < s.len() ==> (#[trigger] s[i].pid) != pid,
    ensures
        fd_lookup(s, pid, fd) is None,
    decreases s.len(),
{
    if s.len() > 0 {
        assert(forall|i: int| 0 <= i < s.drop_last().len() ==> (#[trigger] s.drop_last()[i].pid)
            != pid) by {
            assert(forall|i: int| 0 <= i < s.len() - 1 ==> s.drop_last()[i] == s[i]);
        }
        lemma_lookup_absent(s.drop_last(), pid, fd);
    }
}

/// Fork inheritance: after a fork event from parent to a child that had
/// no fd rows, the child's view of every fd equals the parent's view at
/// the moment of fork, and no other pid's view changes.
pub proof fn lemma_fork_inheritance(m: StM, parent: int, child: int, row: ProcRow, fd: int, q: int)
    requires
        child != parent,
        forall|i: int| 0 <= i < m.fds.len() ==> (#[trigger] m.fds[i].pid) != child,
    ensures
        fd_lookup(step_fork(m, parent, child, row).fds, child, fd) == fd_lookup(
            m.fds,
            parent,
            fd,
        ),
        q != child ==> fd_lookup(step_fork(m, parent, child, row).fds, q, fd) == fd_lookup(
            m.fds,
            q,
            fd,
        ),
{
    lemma_fork_lookup(m.fds, m.fds, parent, child, fd);
    if fd_lookup(m.fds, parent, fd) is None {
        lemma_lookup_absent(m.fds, child, fd);
    }
    if q != child {
        lemma_fork_other(m.fds, m.fds, parent, child, q, fd);
    }
}

/// Fork-copied rows are invisible to every pid but the child.
pub proof fn lemma_fork_other(a: Seq<FdRow>, b: Seq<FdRow>, parent: int, child: int, q: int, fd: int)
    requires
        q != child,
    ensures
        fd_lookup(a + fork_rows(b, parent, child), q, fd) == fd_lookup(a, q, fd),
    decreases b.len(),
{
    if b.len() == 0 {
        assert(a + fork_rows(b, parent, child) =~= a);
    } else {
        lemma_fork_other(a, b.drop_last(), parent, child, q, fd);
        let rest = fork_rows(b.drop_last(), parent, child);
        if b.last().pid == parent {
            let row = FdRow { pid: child, fd: b.last().fd, path: b.last().path };
            assert(a + rest.push(row) =~= (a + rest).push(row));
            assert((a + rest).push(row).drop_last() =~= a + rest);
        }
    }
}

/// The mmap classification table.  For any protection and flag bits and
/// any fd: an anonymous mapping (fd < 0) classifies nothing; a mapping
/// of an unknown fd classifies nothing; otherwise PROT_READ adds the
/// path to the read set, and only MAP_SHARED together with PROT_WRITE
/// adds it to the written set — a private writable mapping does not.
pub proof fn lemma_mmap_classification(m: StM, pid: int, prot: u64, flags: u64, fd: int)
    ensures
        fd < 0 ==> step_entry(m, pid, EntryEv::MmapEv { prot, flags, fd }) == m,
        fd >= 0 && fd_lookup(m.fds, pid, fd) is None ==> step_entry(
            m,
            pid,
            EntryEv::MmapEv { prot, flags, fd },
        ) == m,
        fd >= 0 && fd_lookup(m.fds, pid, fd) is Some ==> {
            let p = fd_lookup(m.fds, pid, fd).unwrap();
            let m2 = step_entry(m, pid, EntryEv::MmapEv { prot, flags, fd });
            &&& (prot & 1 != 0 ==> m2.readf.contains(p))
            &&& (prot & 1 == 0 ==> m2.readf == m.readf)
            &&& (flags & 1 != 0 && prot & 2 != 0 ==> m2.writtenf.contains(p))
            &&& (!(flags & 1 != 0 && prot & 2 != 0) ==> m2.writtenf == m.writtenf)
            &&& m2.opened == m.opened
        },
{
    if fd >= 0 && fd_lookup(m.fds, pid, fd) is Some {
        let p = fd_lookup(m.fds, pid, fd).unwrap();
        let m1 = if prot & 1 != 0 {
            StM { readf: set_add(m.readf, p), ..m }
        } else {
            m
        };
        if prot & 1 != 0 {
            lemma_set_add_contains(m.readf, p, p);
        }
        if flags & 1 != 0 && prot & 2 != 0 {
            lemma_set_add_contains(m1.writtenf, p, p);
        }
    }
}

/// Rename destination: a rename event adds exactly its resolved
/// destination to the written set; every other written path was written
/// before, so the source path is never added.
pub proof fn lemma_rename_destination(m: StM, pid: int, dest: Seq<u8>, q: Seq<u8>)
    ensures
        step_entry(m, pid, EntryEv::RenameDest { path: dest }).writtenf.contains(dest),
        step_entry(m, pid, EntryEv::RenameDest { path: dest }).writtenf.contains(q) ==> (q == dest
            || m.writtenf.contains(q)),
{
    lemma_set_add_contains(m.writtenf, dest, dest);
    lemma_set_add_contains(m.writtenf, dest, q);
}

/// The second state's observed sets contain everything the first's do.
pub open spec fn sets_grow(m1: StM, m2: StM) -> bool {
    &&& forall|x: Seq<u8>| m1.opened.contains(x) ==> m2.opened.contains(x)
    &&& forall|x: Seq<u8>| m1.readf.contains(x) ==> m2.readf.contains(x)
    &&& forall|x: Seq<u8>| m1.writtenf.contains(x) ==> m2.writtenf.contains(x)
}

/// Adding a path keeps every path that was in the set.
pub proof fn lemma_set_add_grows(s: Seq<Seq<u8>>, x: Seq<u8>)
    ensures
        forall|y: Seq<u8>| s.contains(y) ==> set_add(s, x).contains(y),
{
    assert forall|y: Seq<u8>| s.contains(y) implies set_add(s, x).contains(y) by {
        lemma_set_add_contains(s, x, y);
    }
}

/// Monotonicity, one event: no event removes a path from the opened,
/// read or written set.
pub proof fn lemma_step_monotonic(m: StM, ev: Ev)
    ensures
        sets_grow(m, step(m, ev)),
{
    match ev {
        Ev::Stop { pid, e, is_open, ret } => {
            let was = insys_lookup(m.insys, pid);
            let m1 = StM { insys: insys_set(m.insys, pid, !was), ..m };
            if !was {
                match e {
                    EntryEv::ReadFd { fd } => {
                        if fd_lookup(m.fds, pid, fd) is Some {
                            lemma_set_add_grows(m.readf, fd_lookup(m.fds, pid, fd).unwrap());
                        }
                    },
                    EntryEv::WriteFd { fd } => {
                        if fd_lookup(m.fds, pid, fd) is Some {
                            lemma_set_add_grows(m.writtenf, fd_lookup(m.fds, pid, fd).unwrap());
                        }
                    },
                    EntryEv::Sendfile { out_fd, in_fd } => {
                        let m2 = if fd_lookup(m1.fds, pid, in_fd) is Some {
                            lemma_set_add_grows(m1.readf, fd_lookup(m1.fds, pid, in_fd).unwrap());
                            StM {
                                readf: set_add(
                                    m1.readf,
                                    fd_lookup(m1.fds, pid, in_fd).unwrap(),
                                ),
                                ..m1
                            }
                        } else {
                            m1
                        };
                        if fd_lookup(m2.fds, pid, out_fd) is Some {
                            lemma_set_add_grows(
                                m2.writtenf,
                                fd_lookup(m2.fds, pid, out_fd).unwrap(),
                            );
                        }
                    },
                    EntryEv::CopyRange { in_fd, out_fd } => {
                        let m2 = if fd_lookup(m1.fds, pid, in_fd) is Some {
                            lemma_set_add_grows(m1.readf, fd_lookup(m1.fds, pid, in_fd).unwrap());
                            StM {
                                readf: set_add(
                                    m1.readf,
                                    fd_lookup(m1.fds, pid, in_fd).unwrap(),
                                ),
                                ..m1
                            }
                        } else {
                            m1
                        };
                        if fd_lookup(m2.fds, pid, out_fd) is Some {
                            lemma_set_add_grows(
                                m2.writtenf,
                                fd_lookup(m2.fds, pid, out_fd).unwrap(),
                            );
                        }
                    },
                    EntryEv::MmapEv { prot, flags, fd } => {
                        if fd >= 0 && fd_lookup(m1.fds, pid, fd) is Some {
                            let p = fd_lookup(m1.fds, pid, fd).unwrap();
                            let m2 = if prot & 1 != 0 {
                                lemma_set_add_grows(m1.readf, p);
                                StM { readf: set_add(m1.readf, p), ..m1 }
                            } else {
                                m1
                            };
                            if flags & 1 != 0 && prot & 2 != 0 {
                                lemma_set_add_grows(m2.writtenf, p);
                            }
                        }
                    },
                    EntryEv::RenameDest { path } => {
                        lemma_set_add_grows(m.writtenf, path);
                    },
                    EntryEv::OpenPath { .. } => {},
                    EntryEv::Ignored => {},
                }
            } else {
                if is_open && pend_lookup(m1.pend, pid) is Some && ret >= 0 {
                    lemma_set_add_grows(m1.opened, pend_lookup(m1.pend, pid).unwrap().path);
                }
            }
        },
        Ev::ForkEv { .. } => {},
        Ev::ExecEv { .. } => {},
        Ev::GoneEv { .. } => {},
    }
}

/// Monotonicity over a whole event sequence: every path ever recorded
/// as opened, read or written stays recorded through any further events.
pub proof fn lemma_run_monotonic(m: StM, evs: Seq<Ev>)
    ensures
        sets_grow(m, run(m, evs)),
    decreases evs.len(),
{
    if evs.len() > 0 {
        lemma_run_monotonic(m, evs.drop_last());
        lemma_step_monotonic(run(m, evs.drop_last()), evs.last());
    }
}

/// Replacing one pid's snapshot: that pid reads the new row, any other
/// pid reads what it read before.
pub proof fn lemma_proc_set_get(s: Seq<ProcRow>, row: ProcRow, q: int)
    ensures
        proc_lookup(proc_set(s, row), row.pid) == Some(row),
        q != row.pid ==> proc_lookup(proc_set(s, row), q) == proc_lookup(s, q),
{
    assert(proc_set(s, row).last() == row);
    assert(proc_set(s, row).drop_last() =~= proc_clear(s, row.pid));
    if q != row.pid {
        lemma_proc_clear_other(s, row.pid, q);
    }
}

/// Clearing one pid's snapshot rows does not touch another pid's row.
pub proof fn lemma_proc_clear_other(s: Seq<ProcRow>, pid: int, q: int)
    requires
        q != pid,
    ensures
        proc_lookup(proc_clear(s, pid), q) == proc_lookup(s, q),
    decreases s.len(),
{
    if s.len() > 0 {
        lemma_proc_clear_other(s.drop_last(), pid, q);
        if s.last().pid != pid {
            assert(proc_clear(s, pid).last() == s.last());
            assert(proc_clear(s, pid).drop_last() =~= proc_clear(s.drop_last(), pid));
        }
    }
}

/// No path occurs twice in the sequence.
pub open spec fn no_dup(s: Seq<Seq<u8>>) -> bool {
    forall|i: int, j: int| 0 <= i < j < s.len() ==> s[i] != s[j]
}

/// The three observed sets hold each path at most once.
pub open spec fn sets_no_dup(m: StM) -> bool {
    no_dup(m.opened) && no_dup(m.readf) && no_dup(m.writtenf)
}

/// `set_add` keeps the sequence duplicate-free.
pub proof fn lemma_set_add_no_dup(s: Seq<Seq<u8>>, x: Seq<u8>)
    requires
        no_dup(s),
    ensures
        no_dup(set_add(s, x)),
{
    if !s.contains(x) {
        assert forall|i: int, j: int| 0 <= i < j < s.push(x).len() implies s.push(x)[i] != s.push(
            x,
        )[j] by {
            if j == s.len() {
                assert(s[i] == s.push(x)[i]);
                assert(s.contains(s[i]));
            }
        }
    }
}

/// Duplicate-freedom, one event: no event inserts a path that the set
/// already holds, so the report's path lists are sets, not multisets.
pub proof fn lemma_step_no_dup(m: StM, ev: Ev)
    requires
        sets_no_dup(m),
    ensures
        sets_no_dup(step(m, ev)),
{
    match ev {
        Ev::Stop { pid, e, is_open, ret } => {
            let was = insys_lookup(m.insys, pid);
            let m1 = StM { insys: insys_set(m.insys, pid, !was), ..m };
            if !was {
                match e {
                    EntryEv::ReadFd { fd } => {
                        if fd_lookup(m.fds, pid, fd) is Some {
                            lemma_set_add_no_dup(m.readf, fd_lookup(m.fds, pid, fd).unwrap());
                        }
                    },
                    EntryEv::WriteFd { fd } => {
                        if fd_lookup(m.fds, pid, fd) is Some {
                            lemma_set_add_no_dup(m.writtenf, fd_lookup(m.fds, pid, fd).unwrap());
                        }
                    },
                    EntryEv::Sendfile { out_fd, in_fd } => {
                        let m2 = if fd_lookup(m1.fds, pid, in_fd) is Some {
                            lemma_set_add_no_dup(m1.readf, fd_lookup(m1.fds, pid, in_fd).unwrap());
                            StM {
                                readf: set_add(m1.readf, fd_lookup(m1.fds, pid, in_fd).unwrap()),
                                ..m1
                            }
                        } else {
                            m1
                        };
                        if fd_lookup(m2.fds, pid, out_fd) is Some {
                            lemma_set_add_no_dup(
                                m2.writtenf,
                                fd_lookup(m2.fds, pid, out_fd).unwrap(),
                            );
                        }
                    },
                    EntryEv::CopyRange { in_fd, out_fd } => {
                        let m2 = if fd_lookup(m1.fds, pid, in_fd) is Some {
                            lemma_set_add_no_dup(m1.readf, fd_lookup(m1.fds, pid, in_fd).unwrap());
                            StM {
                                readf: set_add(m1.readf, fd_lookup(m1.fds, pid, in_fd).unwrap()),
                                ..m1
                            }
                        } else {
                            m1
                        };
                        if fd_lookup(m2.fds, pid, out_fd) is Some {
                            lemma_set_add_no_dup(
                                m2.writtenf,
                                fd_lookup(m2.fds, pid, out_fd).unwrap(),
                            );
                        }
                    },
                    EntryEv::MmapEv { prot, flags, fd } => {
                        if fd >= 0 && fd_lookup(m1.fds, pid, fd) is Some {
                            let p = fd_lookup(m1.fds, pid, fd).unwrap();
                            let m2 = if prot & 1 != 0 {
                                lemma_set_add_no_dup(m1.readf, p);
                                StM { readf: set_add(m1.readf, p), ..m1 }
                            } else {
                                m1
                            };
                            if flags & 1 != 0 && prot & 2 != 0 {
                                lemma_set_add_no_dup(m2.writtenf, p);
                            }
                        }
                    },
                    EntryEv::RenameDest { path } => {
                        lemma_set_add_no_dup(m.writtenf, path);
                    },
                    EntryEv::OpenPath { .. } => {},
                    EntryEv::Ignored => {},
                }
            } else {
                if is_open && pend_lookup(m1.pend, pid) is Some && ret >= 0 {
                    lemma_set_add_no_dup(m1.opened, pend_lookup(m1.pend, pid).unwrap().path);
                }
            }
        },
        Ev::ForkEv { .. } => {},
        Ev::ExecEv { .. } => {},
        Ev::GoneEv { .. } => {},
    }
}

/// Duplicate-freedom over a whole event sequence.
pub proof fn lemma_run_no_dup(m: StM, evs: Seq<Ev>)
    requires
        sets_no_dup(m),
    ensures
        sets_no_dup(run(m, evs)),
    decreases evs.len(),
{
    if evs.len() > 0 {
        lemma_run_no_dup(m, evs.drop_last());
        lemma_step_no_dup(run(m, evs.drop_last()), evs.last());
    }
}

/// At most one recorded process has no parent.
pub open spec fn at_most_one_root(m: StM) -> bool {
    forall|p: int, q: int|
        #[trigger] is_root_pid(m, p) && #[trigger] is_root_pid(m, q) ==> p == q
}

/// An event that cannot create a second root: a fork snapshot always
/// carries a parent, and an exec snapshot is parentless only for a pid
/// that already was the root.
pub open spec fn ev_keeps_roots(m: StM, ev: Ev) -> bool {
    match ev {
        Ev::ForkEv { row, .. } => row.parent is Some,
        Ev::ExecEv { row } => row.parent is None ==> is_root_pid(m, row.pid),
        _ => true,
    }
}

/// Root uniqueness, one event: if at most one recorded process is
/// parentless and the event cannot create a second root, at most one is
/// parentless afterwards.
pub proof fn lemma_step_one_root(m: StM, ev: Ev)
    requires
        at_most_one_root(m),
        ev_keeps_roots(m, ev),
    ensures
        at_most_one_root(step(m, ev)),
{
    let m2 = step(m, ev);
    match ev {
        Ev::ForkEv { row, .. } => {
            assert forall|p: int, q: int|
                #[trigger] is_root_pid(m2, p) && #[trigger] is_root_pid(m2, q) implies p == q by {
                lemma_proc_set_get(m.procs, row, p);
                lemma_proc_set_get(m.procs, row, q);
                assert(is_root_pid(m, p));
                assert(is_root_pid(m, q));
            }
        },
        Ev::ExecEv { row } => {
            assert forall|p: int, q: int|
                #[trigger] is_root_pid(m2, p) && #[trigger] is_root_pid(m2, q) implies p == q by {
                lemma_proc_set_get(m.procs, row, p);
                lemma_proc_set_get(m.procs, row, q);
                if p != row.pid {
                    assert(is_root_pid(m, p));
                }
                if q != row.pid {
                    assert(is_root_pid(m, q));
                }
                if p == row.pid && q != row.pid {
                    assert(is_root_pid(m, row.pid));
                }
                if q == row.pid && p != row.pid {
                    assert(is_root_pid(m, row.pid));
                }
            }
        },
        Ev::Stop { .. } => {
            assert(m2.procs == m.procs);
            assert forall|p: int, q: int|
                #[trigger] is_root_pid(m2, p) && #[trigger] is_root_pid(m2, q) implies p == q by {
                assert(is_root_pid(m, p));
                assert(is_root_pid(m, q));
            }
        },
        Ev::GoneEv { .. } => {
            assert forall|p: int, q: int|
                #[trigger] is_root_pid(m2, p) && #[trigger] is_root_pid(m2, q) implies p == q by {
                assert(is_root_pid(m, p));
                assert(is_root_pid(m, q));
            }
        },
    }
}

/// Root uniqueness over a whole event sequence: when every event of the
/// run keeps the roots, the traced tree never gains a second parentless
/// process.
pub proof fn lemma_run_one_root(m: StM, evs: Seq<Ev>)
    requires
        at_most_one_root(m),
        forall|i: int|
            0 <= i < evs.len() ==> ev_keeps_roots(run(m, evs.take(i)), #[trigger] evs[i]),
    ensures
        at_most_one_root(run(m, evs)),
    decreases evs.len(),
{
    if evs.len() > 0 {
        assert(forall|i: int|
            0 <= i < evs.drop_last().len() ==> ev_keeps_roots(
                run(m, evs.drop_last().take(i)),
                #[trigger] evs.drop_last()[i],
            )) by {
            assert(forall|i: int| 0 <= i < evs.len() - 1 ==> evs.drop_last()[i] == evs[i]);
            assert(forall|i: int|
                0 <= i <= evs.len() - 1 ==> evs.drop_last().take(i) =~= evs.take(i));
        }
        lemma_run_one_root(m, evs.drop_last());
        assert(evs.take(evs.len() - 1) =~= evs.drop_last());
        assert(ev_keeps_roots(run(m, evs.drop_last()), evs.last()));
        lemma_step_one_root(run(m, evs.drop_last()), evs.last());
    }
}

/// A traced run's report never holds a path twice: the three observed
/// sets of any run from the empty state are duplicate-free.
pub proof fn lemma_run_from_empty_no_dup(evs: Seq<Ev>)
    ensures
        sets_no_dup(run(empty_state(), evs)),
{
    lemma_run_no_dup(empty_state(), evs);
}

/// A traced run from the empty state whose events keep the roots never
/// records two parentless processes.
pub proof fn lemma_run_from_empty_one_root(evs: Seq<Ev>)
    requires
        forall|i: int|
            0 <= i < evs.len() ==> ev_keeps_roots(
                run(empty_state(), evs.take(i)),
                #[trigger] evs[i],
            ),
    ensures
        at_most_one_root(run(empty_state(), evs)),
{
    lemma_run_one_root(empty_state(), evs);
}

} // verus!
