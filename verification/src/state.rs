//! The executable tracer state.  Every mutation's contract states that the
//! new state's view equals one of the model's `step_*` functions (or one
//! of their components) applied to the old view, so the laws proved about
//! the model carry over to the running code.

use vstd::prelude::*;
use crate::model::{
    FdRow, PendRow, InRow, ProcRow, StM, fd_lookup, insys_lookup, insys_set, insys_clear,
    pend_lookup, pend_set, pend_clear, proc_lookup, proc_set, proc_clear, set_add, active_add,
    active_remove, fork_rows, empty_state,
};

verus! {

/// One executable row of the fd table.
pub struct FdEntry {
    pub pid: i32,
    pub fd: i64,
    pub path: Vec<u8>,
}

impl View for FdEntry {
    type V = FdRow;

    open spec fn view(&self) -> FdRow {
        FdRow { pid: self.pid as int, fd: self.fd as int, path: self.path@ }
    }
}

/// The in-syscall flag of one pid.
pub struct InFlag {
    pub pid: i32,
    pub flag: bool,
}

impl View for InFlag {
    type V = InRow;

    open spec fn view(&self) -> InRow {
        InRow { pid: self.pid as int, flag: self.flag }
    }
}

/// A pending open of one pid.
pub struct PendingOpen {
    pub pid: i32,
    pub path: Vec<u8>,
    pub flags: u64,
}

impl View for PendingOpen {
    type V = PendRow;

    open spec fn view(&self) -> PendRow {
        PendRow { pid: self.pid as int, path: self.path@, flags: self.flags }
    }
}

/// One name=value pair of a process environment.
pub struct EnvPair {
    pub name: Vec<u8>,
    pub value: Vec<u8>,
}

impl View for EnvPair {
    type V = (Seq<u8>, Seq<u8>);

    open spec fn view(&self) -> (Seq<u8>, Seq<u8>) {
        (self.name@, self.value@)
    }
}

/// Snapshot of one traced process.
pub struct ProcessInfo {
    pub pid: i32,
    pub parent_pid: Option<i32>,
    pub argv: Vec<Vec<u8>>,
    pub env: Vec<EnvPair>,
}

impl View for ProcessInfo {
    type V = ProcRow;

    open spec fn view(&self) -> ProcRow {
        ProcRow {
            pid: self.pid as int,
            parent: match self.parent_pid {
                Some(p) => Some(p as int),
                None => None,
            },
            argv: self.argv.deep_view(),
            env: self.env@.map_values(|e: EnvPair| e@),
        }
    }
}

/// The whole mutable tracer state.
pub struct TracerState {
    pub processes: Vec<ProcessInfo>,
    pub fd_table: Vec<FdEntry>,
    pub in_syscall: Vec<InFlag>,
    pub pending_opens: Vec<PendingOpen>,
    pub active_pids: Vec<i32>,
    pub opened_files: Vec<Vec<u8>>,
    pub read_files: Vec<Vec<u8>>,
    pub written_files: Vec<Vec<u8>>,
}

impl View for TracerState {
    type V = StM;

    open spec fn view(&self) -> StM {
        StM {
            procs: self.processes@.map_values(|p: ProcessInfo| p@),
            fds: self.fd_table@.map_values(|e: FdEntry| e@),
            insys: self.in_syscall@.map_values(|f: InFlag| f@),
            pend: self.pending_opens@.map_values(|p: PendingOpen| p@),
            active: self.active_pids@.map_values(|p: i32| p as int),
            opened: self.opened_files.deep_view(),
            readf: self.read_files.deep_view(),
            writtenf: self.written_files.deep_view(),
        }
    }
}

/// Byte-vector equality, decided without trusting any derived impl.
pub fn bytes_eq(a: &Vec<u8>, b: &Vec<u8>) -> (r: bool)
    ensures
        r == (a@ == b@),
{
    if a.len() != b.len() {
        assert(a@ != b@) by {
            assert(a@.len() != b@.len());
        }
        return false;
    }
    let n = a.len();
    let mut i: usize = 0;
    while i < n
        invariant
            n == a.len() == b.len(),
            i <= n,
            forall|j: int| 0 <= j < i ==> a@[j] == b@[j],
        decreases n - i,
    {
        if a[i] != b[i] {
            return false;
        }
        i = i + 1;
    }
    assert(a@ =~= b@);
    true
}

/// An owned copy of a byte vector.
pub fn copy_bytes(v: &Vec<u8>) -> (r: Vec<u8>)
    ensures
        r@ == v@,
{
    let n = v.len();
    let mut out: Vec<u8> = Vec::new();
    let mut i: usize = 0;
    while i < n
        invariant
            n == v.len(),
            i <= n,
            out@ =~= v@.take(i as int),
        decreases n - i,
    {
        out.push(v[i]);
        assert(out@ =~= v@.take(i as int + 1));
        i = i + 1;
    }
    assert(out@ =~= v@);
    out
}

/// An owned copy of a vector of byte vectors.
pub fn copy_vecs(v: &Vec<Vec<u8>>) -> (r: Vec<Vec<u8>>)
    ensures
        r.deep_view() == v.deep_view(),
{
    let n = v.len();
    let mut out: Vec<Vec<u8>> = Vec::new();
    let mut i: usize = 0;
    while i < n
        invariant
            n == v.len(),
            i <= n,
            out.deep_view() =~~= v.deep_view().take(i as int),
        decreases n - i,
    {
        let b = copy_bytes(&v[i]);
        assert(b.deep_view() =~= v@[i as int].deep_view());
        out.push(b);
        assert(out.deep_view() =~~= v.deep_view().take(i as int + 1));
        i = i + 1;
    }
    assert(out.deep_view() =~~= v.deep_view());
    out
}

/// An owned copy of an environment.
pub fn copy_env(v: &Vec<EnvPair>) -> (r: Vec<EnvPair>)
    ensures
        r@.map_values(|e: EnvPair| e@) == v@.map_values(|e: EnvPair| e@),
{
    let n = v.len();
    let mut out: Vec<EnvPair> = Vec::new();
    let mut i: usize = 0;
    while i < n
        invariant
            n == v.len(),
            i <= n,
            out@.map_values(|e: EnvPair| e@) =~~= v@.map_values(|e: EnvPair| e@).take(i as int),
        decreases n - i,
    {
        let e = EnvPair { name: copy_bytes(&v[i].name), value: copy_bytes(&v[i].value) };
        assert(e@ == v@[i as int]@);
        let ghost pre = out@.map_values(|q: EnvPair| q@);
        out.push(e);
        assert(out@.map_values(|q: EnvPair| q@) =~= pre.push(e@));
        assert(v@.map_values(|q: EnvPair| q@).take(i as int + 1) =~= v@.map_values(
            |q: EnvPair| q@,
        ).take(i as int).push(v@[i as int]@));
        i = i + 1;
    }
    assert(out@.map_values(|e: EnvPair| e@) =~~= v@.map_values(|e: EnvPair| e@));
    out
}

/// An owned copy of a process snapshot.
pub fn copy_proc(p: &ProcessInfo) -> (r: ProcessInfo)
    ensures
        r@ == p@,
{
    let r = ProcessInfo {
        pid: p.pid,
        parent_pid: p.parent_pid,
        argv: copy_vecs(&p.argv),
        env: copy_env(&p.env),
    };
    assert(r@ =~~= p@);
    r
}

/// Whether a byte vector occurs in a vector of byte vectors.
pub fn vec_set_contains(s: &Vec<Vec<u8>>, x: &Vec<u8>) -> (r: bool)
    ensures
        r == s.deep_view().contains(x@),
{
    let n = s.len();
    let mut i: usize = 0;
    while i < n
        invariant
            n == s.len(),
            i <= n,
            forall|j: int| 0 <= j < i ==> s.deep_view()[j] != x@,
        decreases n - i,
    {
        if bytes_eq(&s[i], x) {
            assert(s.deep_view()[i as int] == x@);
            return true;
        }
        assert(s.deep_view()[i as int] == s@[i as int]@);
        i = i + 1;
    }
    assert(!s.deep_view().contains(x@)) by {
        assert(forall|j: int| 0 <= j < s.deep_view().len() ==> s.deep_view()[j] != x@);
    }
    false
}

impl TracerState {
    /// A fresh tracer state with nothing recorded.
    pub fn new() -> (r: TracerState)
        ensures
            r@ == empty_state(),
    {
        let r = TracerState {
            processes: Vec::new(),
            fd_table: Vec::new(),
            in_syscall: Vec::new(),
            pending_opens: Vec::new(),
            active_pids: Vec::new(),
            opened_files: Vec::new(),
            read_files: Vec::new(),
            written_files: Vec::new(),
        };
        assert(r@ =~~= empty_state());
        r
    }

    /// The path the fd table currently holds for (pid, fd).
    pub fn fd_get(&self, pid: i32, fd: i64) -> (r: Option<Vec<u8>>)
        ensures
            match r {
                Some(p) => fd_lookup(self@.fds, pid as int, fd as int) == Some(p@),
                None => fd_lookup(self@.fds, pid as int, fd as int) is None,
            },
    {
        let ghost rows = self@.fds;
        let mut i: usize = self.fd_table.len();
        assert(rows.take(i as int) =~= rows);
        while i > 0
            invariant
                i <= self.fd_table.len(),
                rows == self@.fds,
                fd_lookup(rows, pid as int, fd as int) == fd_lookup(
                    rows.take(i as int),
                    pid as int,
                    fd as int,
                ),
            decreases i,
        {
            i = i - 1;
            let e = &self.fd_table[i];
            assert(rows.take(i as int + 1).last() == rows[i as int]);
            assert(rows.take(i as int + 1).drop_last() =~= rows.take(i as int));
            if e.pid == pid && e.fd == fd {
                return Some(copy_bytes(&e.path));
            }
        }
        assert(rows.take(0) =~= Seq::<FdRow>::empty());
        None
    }

    /// Append one fd-table row; the new row shadows any older row with
    /// the same key.
    pub fn fd_push(&mut self, pid: i32, fd: i64, path: Vec<u8>)
        ensures
            final(self)@ == (StM {
                fds: old(self)@.fds.push(FdRow { pid: pid as int, fd: fd as int, path: path@ }),
                ..old(self)@
            }),
    {
        self.fd_table.push(FdEntry { pid, fd, path });
        assert(self@.fds =~= old(self)@.fds.push(
            FdRow { pid: pid as int, fd: fd as int, path: path@ },
        ));
        assert(self@ =~~= (StM {
            fds: old(self)@.fds.push(FdRow { pid: pid as int, fd: fd as int, path: path@ }),
            ..old(self)@
        }));
    }

    /// Whether the pid is currently inside a syscall.
    pub fn insys_get(&self, pid: i32) -> (r: bool)
        ensures
            r == insys_lookup(self@.insys, pid as int),
    {
        let ghost rows = self@.insys;
        let mut i: usize = self.in_syscall.len();
        assert(rows.take(i as int) =~= rows);
        while i > 0
            invariant
                i <= self.in_syscall.len(),
                rows == self@.insys,
                insys_lookup(rows, pid as int) == insys_lookup(rows.take(i as int), pid as int),
            decreases i,
        {
            i = i - 1;
            let e = &self.in_syscall[i];
            assert(rows.take(i as int + 1).last() == rows[i as int]);
            assert(rows.take(i as int + 1).drop_last() =~= rows.take(i as int));
            if e.pid == pid {
                return e.flag;
            }
        }
        assert(rows.take(0) =~= Seq::<InRow>::empty());
        false
    }

    /// Record whether the pid is inside a syscall.
    pub fn insys_put(&mut self, pid: i32, flag: bool)
        ensures
            final(self)@ == (StM {
                insys: insys_set(old(self)@.insys, pid as int, flag),
                ..old(self)@
            }),
    {
        let ghost rows = self@.insys;
        let n = self.in_syscall.len();
        let mut out: Vec<InFlag> = Vec::new();
        let mut i: usize = 0;
        assert(out@.map_values(|f: InFlag| f@) =~= insys_clear(rows.take(0), pid as int));
        while i < n
            invariant
                n == self.in_syscall.len(),
                i <= n,
                rows == self@.insys,
                out@.map_values(|f: InFlag| f@) == insys_clear(rows.take(i as int), pid as int),
            decreases n - i,
        {
            assert(rows.take(i as int + 1).last() == rows[i as int]);
            assert(rows.take(i as int + 1).drop_last() =~= rows.take(i as int));
            let e = &self.in_syscall[i];
            if e.pid != pid {
                out.push(InFlag { pid: e.pid, flag: e.flag });
                assert(out@.map_values(|f: InFlag| f@) =~= insys_clear(
                    rows.take(i as int),
                    pid as int,
                ).push(rows[i as int]));
            }
            i = i + 1;
        }
        assert(rows.take(n as int) =~= rows);
        out.push(InFlag { pid, flag });
        assert(out@.map_values(|f: InFlag| f@) =~= insys_set(rows, pid as int, flag));
        self.in_syscall = out;
        assert(self@ =~~= (StM { insys: insys_set(old(self)@.insys, pid as int, flag), ..old(self)@ }));
    }

    /// The pending open of the pid, if one is recorded.
    pub fn pend_get(&self, pid: i32) -> (r: Option<(Vec<u8>, u64)>)
        ensures
            match r {
                Some(pf) => pend_lookup(self@.pend, pid as int) == Some(
                    PendRow { pid: pid as int, path: pf.0@, flags: pf.1 },
                ),
                None => pend_lookup(self@.pend, pid as int) is None,
            },
    {
        let ghost rows = self@.pend;
        let mut i: usize = self.pending_opens.len();
        assert(rows.take(i as int) =~= rows);
        while i > 0
            invariant
                i <= self.pending_opens.len(),
                rows == self@.pend,
                pend_lookup(rows, pid as int) == pend_lookup(rows.take(i as int), pid as int),
            decreases i,
        {
            i = i - 1;
            let e = &self.pending_opens[i];
            assert(rows.take(i as int + 1).last() == rows[i as int]);
            assert(rows.take(i as int + 1).drop_last() =~= rows.take(i as int));
            if e.pid == pid {
                return Some((copy_bytes(&e.path), e.flags));
            }
        }
        assert(rows.take(0) =~= Seq::<PendRow>::empty());
        None
    }

    /// Record the pending open of the pid, replacing any earlier one.
    pub fn pend_put(&mut self, pid: i32, path: Vec<u8>, flags: u64)
        ensures
            final(self)@ == (StM {
                pend: pend_set(old(self)@.pend, pid as int, path@, flags),
                ..old(self)@
            }),
    {
        let ghost rows = self@.pend;
        self.pend_drop(pid);
        self.pending_opens.push(PendingOpen { pid, path, flags });
        assert(self@.pend =~= pend_set(rows, pid as int, path@, flags));
        assert(self@ =~~= (StM { pend: pend_set(rows, pid as int, path@, flags), ..old(self)@ }));
    }

    /// Discard the pending open of the pid.
    pub fn pend_drop(&mut self, pid: i32)
        ensures
            final(self)@ == (StM { pend: pend_clear(old(self)@.pend, pid as int), ..old(self)@ }),
    {
        let ghost rows = self@.pend;
        let n = self.pending_opens.len();
        let mut out: Vec<PendingOpen> = Vec::new();
        let mut i: usize = 0;
        assert(out@.map_values(|p: PendingOpen| p@) =~= pend_clear(rows.take(0), pid as int));
        while i < n
            invariant
                n == self.pending_opens.len(),
                i <= n,
                rows == self@.pend,
                out@.map_values(|p: PendingOpen| p@) == pend_clear(rows.take(i as int), pid as int),
            decreases n - i,
        {
            assert(rows.take(i as int + 1).last() == rows[i as int]);
            assert(rows.take(i as int + 1).drop_last() =~= rows.take(i as int));
            let e = &self.pending_opens[i];
            if e.pid != pid {
                out.push(PendingOpen { pid: e.pid, path: copy_bytes(&e.path), flags: e.flags });
                assert(out@.map_values(|p: PendingOpen| p@) =~= pend_clear(
                    rows.take(i as int),
                    pid as int,
                ).push(rows[i as int]));
            }
            i = i + 1;
        }
        assert(rows.take(n as int) =~= rows);
        self.pending_opens = out;
        assert(self@ =~~= (StM { pend: pend_clear(rows, pid as int), ..old(self)@ }));
    }

    /// The parent recorded for the pid, if the pid has a snapshot.
    pub fn proc_parent(&self, pid: i32) -> (r: Option<Option<i32>>)
        ensures
            match r {
                Some(par) => proc_lookup(self@.procs, pid as int) is Some
                    && proc_lookup(self@.procs, pid as int).unwrap().parent == (match par {
                    Some(p) => Some(p as int),
                    None => None::<int>,
                }),
                None => proc_lookup(self@.procs, pid as int) is None,
            },
    {
        let ghost rows = self@.procs;
        let mut i: usize = self.processes.len();
        assert(rows.take(i as int) =~= rows);
        while i > 0
            invariant
                i <= self.processes.len(),
                rows == self@.procs,
                proc_lookup(rows, pid as int) == proc_lookup(rows.take(i as int), pid as int),
            decreases i,
        {
            i = i - 1;
            let e = &self.processes[i];
            assert(rows.take(i as int + 1).last() == rows[i as int]);
            assert(rows.take(i as int + 1).drop_last() =~= rows.take(i as int));
            if e.pid == pid {
                return Some(e.parent_pid);
            }
        }
        assert(rows.take(0) =~= Seq::<ProcRow>::empty());
        None
    }

    /// Record the snapshot of one process, replacing any earlier one.
    pub fn proc_put(&mut self, info: ProcessInfo)
        ensures
            final(self)@ == (StM { procs: proc_set(old(self)@.procs, info@), ..old(self)@ }),
    {
        let ghost rows = self@.procs;
        let pid = info.pid;
        let n = self.processes.len();
        let mut out: Vec<ProcessInfo> = Vec::new();
        let mut i: usize = 0;
        assert(out@.map_values(|p: ProcessInfo| p@) =~= proc_clear(rows.take(0), pid as int));
        while i < n
            invariant
                n == self.processes.len(),
                i <= n,
                rows == self@.procs,
                pid == info.pid,
                out@.map_values(|p: ProcessInfo| p@) == proc_clear(rows.take(i as int), pid as int),
            decreases n - i,
        {
            assert(rows.take(i as int + 1).last() == rows[i as int]);
            assert(rows.take(i as int + 1).drop_last() =~= rows.take(i as int));
            if self.processes[i].pid != pid {
                let e = copy_proc(&self.processes[i]);
                assert(e@ == rows[i as int]);
                out.push(e);
                assert(out@.map_values(|p: ProcessInfo| p@) =~= proc_clear(
                    rows.take(i as int),
                    pid as int,
                ).push(rows[i as int]));
            }
            i = i + 1;
        }
        assert(rows.take(n as int) =~= rows);
        out.push(info);
        assert(out@.map_values(|p: ProcessInfo| p@) =~= proc_set(rows, info@));
        self.processes = out;
        assert(self@ =~~= (StM { procs: proc_set(rows, info@), ..old(self)@ }));
    }

    /// Whether the pid is in the active set.
    pub fn active_contains(&self, pid: i32) -> (r: bool)
        ensures
            r == self@.active.contains(pid as int),
    {
        let n = self.active_pids.len();
        let mut i: usize = 0;
        while i < n
            invariant
                n == self.active_pids.len(),
                i <= n,
                forall|j: int| 0 <= j < i ==> self@.active[j] != pid as int,
            decreases n - i,
        {
            if self.active_pids[i] == pid {
                assert(self@.active[i as int] == pid as int);
                return true;
            }
            i = i + 1;
        }
        false
    }

    /// Whether any tracee is still active.
    pub fn active_is_empty(&self) -> (r: bool)
        ensures
            r == (self@.active.len() == 0),
    {
        self.active_pids.len() == 0
    }

    /// Add a pid to the active set.
    pub fn active_insert(&mut self, pid: i32)
        ensures
            final(self)@ == (StM { active: active_add(old(self)@.active, pid as int), ..old(self)@ }),
    {
        if !self.active_contains(pid) {
            self.active_pids.push(pid);
            assert(self@.active =~= active_add(old(self)@.active, pid as int));
        }
        assert(self@ =~~= (StM { active: active_add(old(self)@.active, pid as int), ..old(self)@ }));
    }

    /// Remove a pid from the active set.
    pub fn active_drop(&mut self, pid: i32)
        ensures
            final(self)@ == (StM {
                active: active_remove(old(self)@.active, pid as int),
                ..old(self)@
            }),
    {
        let ghost rows = self@.active;
        let n = self.active_pids.len();
        let mut out: Vec<i32> = Vec::new();
        let mut i: usize = 0;
        assert(out@.map_values(|p: i32| p as int) =~= active_remove(rows.take(0), pid as int));
        while i < n
            invariant
                n == self.active_pids.len(),
                i <= n,
                rows == self@.active,
                out@.map_values(|p: i32| p as int) == active_remove(rows.take(i as int), pid as int),
            decreases n - i,
        {
            assert(rows.take(i as int + 1).last() == rows[i as int]);
            assert(rows.take(i as int + 1).drop_last() =~= rows.take(i as int));
            let p = self.active_pids[i];
            if p != pid {
                out.push(p);
                assert(out@.map_values(|q: i32| q as int) =~= active_remove(
                    rows.take(i as int),
                    pid as int,
                ).push(rows[i as int]));
            }
            i = i + 1;
        }
        assert(rows.take(n as int) =~= rows);
        self.active_pids = out;
        assert(self@ =~~= (StM { active: active_remove(rows, pid as int), ..old(self)@ }));
    }

    /// Add a path to the opened set.
    pub fn add_opened(&mut self, path: Vec<u8>)
        ensures
            final(self)@ == (StM { opened: set_add(old(self)@.opened, path@), ..old(self)@ }),
    {
        if !vec_set_contains(&self.opened_files, &path) {
            self.opened_files.push(path);
            assert(self@.opened =~~= old(self)@.opened.push(path@));
        }
        assert(self@ =~~= (StM { opened: set_add(old(self)@.opened, path@), ..old(self)@ }));
    }

    /// Add a path to the read set.
    pub fn add_read(&mut self, path: Vec<u8>)
        ensures
            final(self)@ == (StM { readf: set_add(old(self)@.readf, path@), ..old(self)@ }),
    {
        if !vec_set_contains(&self.read_files, &path) {
            self.read_files.push(path);
            assert(self@.readf =~~= old(self)@.readf.push(path@));
        }
        assert(self@ =~~= (StM { readf: set_add(old(self)@.readf, path@), ..old(self)@ }));
    }

    /// Add a path to the written set.
    pub fn add_written(&mut self, path: Vec<u8>)
        ensures
            final(self)@ == (StM { writtenf: set_add(old(self)@.writtenf, path@), ..old(self)@ }),
    {
        if !vec_set_contains(&self.written_files, &path) {
            self.written_files.push(path);
            assert(self@.writtenf =~~= old(self)@.writtenf.push(path@));
        }
        assert(self@ =~~= (StM { writtenf: set_add(old(self)@.writtenf, path@), ..old(self)@ }));
    }
}

/// The final immutable report of one traced run, before the caller adds
/// wall-clock timestamps and serializes it: every process snapshot, the
/// three observed path sets, and the root process's environment.
pub struct TracerOutput {
    pub processes: Vec<ProcessInfo>,
    pub opened_files: Vec<Vec<u8>>,
    pub read_files: Vec<Vec<u8>>,
    pub written_files: Vec<Vec<u8>>,
    pub env_accessed: Vec<EnvPair>,
}

impl TracerState {
    /// Move the accumulated state into the final report.  The process
    /// list and the three path sets are carried over unchanged; the
    /// environment field is the root process's environment, or empty
    /// when no root was recorded.
    pub fn into_output(self) -> (r: TracerOutput)
        ensures
            r.processes@.map_values(|p: ProcessInfo| p@) == self@.procs,
            r.opened_files.deep_view() == self@.opened,
            r.read_files.deep_view() == self@.readf,
            r.written_files.deep_view() == self@.writtenf,
            match crate::model::first_root(self@.procs) {
                Some(row) => r.env_accessed@.map_values(|q: EnvPair| q@) == row.env,
                None => r.env_accessed@.len() == 0,
            },
    {
        let env_accessed = match self.root_env() {
            Some(e) => e,
            None => Vec::new(),
        };
        TracerOutput {
            processes: self.processes,
            opened_files: self.opened_files,
            read_files: self.read_files,
            written_files: self.written_files,
            env_accessed,
        }
    }

    /// The environment of the root process: the first recorded process
    /// with no parent.
    pub fn root_env(&self) -> (r: Option<Vec<EnvPair>>)
        ensures
            match r {
                Some(e) => crate::model::first_root(self@.procs) is Some && e@.map_values(
                    |q: EnvPair| q@,
                ) == crate::model::first_root(self@.procs).unwrap().env,
                None => crate::model::first_root(self@.procs) is None,
            },
    {
        let ghost rows = self@.procs;
        let n = self.processes.len();
        let mut i: usize = 0;
        assert(rows.skip(0) =~= rows);
        while i < n
            invariant
                n == self.processes.len(),
                i <= n,
                rows == self@.procs,
                crate::model::first_root(rows) == crate::model::first_root(rows.skip(i as int)),
            decreases n - i,
        {
            assert(rows.skip(i as int)[0] == rows[i as int]);
            assert(rows.skip(i as int).drop_first() =~= rows.skip(i as int + 1));
            if self.processes[i].parent_pid.is_none() {
                return Some(copy_env(&self.processes[i].env));
            }
            i = i + 1;
        }
        assert(rows.skip(n as int) =~= Seq::<ProcRow>::empty());
        None
    }
}

/// Copy every fd-table row of the parent as a row of the child, in table
/// order, so the child inherits the parent's whole fd view.
pub fn clone_fd_table(parent_pid: i32, child_pid: i32, state: &mut TracerState)
    ensures
        final(state)@ == (StM {
            fds: old(state)@.fds + fork_rows(old(state)@.fds, parent_pid as int, child_pid as int),
            ..old(state)@
        }),
{
    let ghost rows = state@.fds;
    let n = state.fd_table.len();
    let mut copies: Vec<FdEntry> = Vec::new();
    let mut i: usize = 0;
    assert(copies@.map_values(|e: FdEntry| e@) =~= fork_rows(
        rows.take(0),
        parent_pid as int,
        child_pid as int,
    ));
    while i < n
        invariant
            n == state.fd_table.len(),
            i <= n,
            rows == state@.fds,
            copies@.map_values(|e: FdEntry| e@) == fork_rows(
                rows.take(i as int),
                parent_pid as int,
                child_pid as int,
            ),
        decreases n - i,
    {
        assert(rows.take(i as int + 1).last() == rows[i as int]);
        assert(rows.take(i as int + 1).drop_last() =~= rows.take(i as int));
        let e = &state.fd_table[i];
        if e.pid == parent_pid {
            copies.push(FdEntry { pid: child_pid, fd: e.fd, path: copy_bytes(&e.path) });
            assert(copies@.map_values(|c: FdEntry| c@) =~= fork_rows(
                rows.take(i as int),
                parent_pid as int,
                child_pid as int,
            ).push(FdRow { pid: child_pid as int, fd: rows[i as int].fd, path: rows[i as int].path }));
        }
        i = i + 1;
    }
    assert(rows.take(n as int) =~= rows);
    let m = copies.len();
    let mut k: usize = 0;
    while k < m
        invariant
            m == copies.len(),
            k <= m,
            rows == old(state)@.fds,
            copies@.map_values(|e: FdEntry| e@) == fork_rows(rows, parent_pid as int, child_pid as int),
            state@.fds == rows + copies@.map_values(|e: FdEntry| e@).take(k as int),
            state@ == (StM { fds: state@.fds, ..old(state)@ }),
        decreases m - k,
    {
        let e = &copies[k];
        state.fd_push(e.pid, e.fd, copy_bytes(&e.path));
        assert(state@.fds =~= rows + copies@.map_values(|c: FdEntry| c@).take(k as int + 1)) by {
            assert(copies@.map_values(|c: FdEntry| c@).take(k as int + 1) =~= copies@.map_values(
                |c: FdEntry| c@,
            ).take(k as int).push(copies@[k as int]@));
        }
        k = k + 1;
    }
    assert(copies@.map_values(|e: FdEntry| e@).take(m as int) =~= copies@.map_values(
        |e: FdEntry| e@,
    ));
    assert(state@ =~~= (StM {
        fds: rows + fork_rows(rows, parent_pid as int, child_pid as int),
        ..old(state)@
    }));
}

} // verus!
