//! The mathematical model of the tracer state and of the events that
//! change it.  Every executable mutation of the tracer state is specified
//! as equality with one of the `step_*` functions below; the laws in
//! `laws` are proved about these same functions.

use vstd::prelude::*;

verus! {

/// One row of the file-descriptor table: (pid, fd) maps to a path.
/// Later rows shadow earlier rows with the same (pid, fd) key.
pub struct FdRow {
    pub pid: int,
    pub fd: int,
    pub path: Seq<u8>,
}

/// A pending open for one pid: the resolved path and the open flags,
/// recorded at syscall entry and consumed at syscall exit.
pub struct PendRow {
    pub pid: int,
    pub path: Seq<u8>,
    pub flags: u64,
}

/// Whether a pid currently sits between a syscall-entry stop and the
/// matching syscall-exit stop.
pub struct InRow {
    pub pid: int,
    pub flag: bool,
}

/// Snapshot of one traced process: its pid, the pid of the process that
/// forked it (absent for the root), its argv and its environment.
pub struct ProcRow {
    pub pid: int,
    pub parent: Option<int>,
    pub argv: Seq<Seq<u8>>,
    pub env: Seq<(Seq<u8>, Seq<u8>)>,
}

/// The whole tracer state at the model level.
#[verifier::ext_equal]
pub struct StM {
    pub procs: Seq<ProcRow>,
    pub fds: Seq<FdRow>,
    pub insys: Seq<InRow>,
    pub pend: Seq<PendRow>,
    pub active: Seq<int>,
    pub opened: Seq<Seq<u8>>,
    pub readf: Seq<Seq<u8>>,
    pub writtenf: Seq<Seq<u8>>,
}

/// The path a (pid, fd) pair currently refers to: the last row with that
/// key wins, as a map insert would.
pub open spec fn fd_lookup(s: Seq<FdRow>, pid: int, fd: int) -> Option<Seq<u8>>
    decreases s.len(),
{
    if s.len() == 0 {
        None
    } else if s.last().pid == pid && s.last().fd == fd {
        Some(s.last().path)
    } else {
        fd_lookup(s.drop_last(), pid, fd)
    }
}

/// Whether the given pid is between a syscall entry and its exit;
/// a pid with no row is not.
pub open spec fn insys_lookup(s: Seq<InRow>, pid: int) -> bool
    decreases s.len(),
{
    if s.len() == 0 {
        false
    } else if s.last().pid == pid {
        s.last().flag
    } else {
        insys_lookup(s.drop_last(), pid)
    }
}

/// All rows for the given pid removed.
pub open spec fn insys_clear(s: Seq<InRow>, pid: int) -> Seq<InRow>
    decreases s.len(),
{
    if s.len() == 0 {
        s
    } else if s.last().pid == pid {
        insys_clear(s.drop_last(), pid)
    } else {
        insys_clear(s.drop_last(), pid).push(s.last())
    }
}

/// The in-syscall flag of one pid set to `flag`.
pub open spec fn insys_set(s: Seq<InRow>, pid: int, flag: bool) -> Seq<InRow> {
    insys_clear(s, pid).push(InRow { pid, flag })
}

/// The pending open of the given pid, if one is recorded.
pub open spec fn pend_lookup(s: Seq<PendRow>, pid: int) -> Option<PendRow>
    decreases s.len(),
{
    if s.len() == 0 {
        None
    } else if s.last().pid == pid {
        Some(s.last())
    } else {
        pend_lookup(s.drop_last(), pid)
    }
}

/// All pending rows for the given pid removed.
pub open spec fn pend_clear(s: Seq<PendRow>, pid: int) -> Seq<PendRow>
    decreases s.len(),
{
    if s.len() == 0 {
        s
    } else if s.last().pid == pid {
        pend_clear(s.drop_last(), pid)
    } else {
        pend_clear(s.drop_last(), pid).push(s.last())
    }
}

/// The pending open of one pid replaced by (path, flags).
pub open spec fn pend_set(s: Seq<PendRow>, pid: int, path: Seq<u8>, flags: u64) -> Seq<PendRow> {
    pend_clear(s, pid).push(PendRow { pid, path, flags })
}

/// The snapshot of the given pid, if one was captured.
pub open spec fn proc_lookup(s: Seq<ProcRow>, pid: int) -> Option<ProcRow>
    decreases s.len(),
{
    if s.len() == 0 {
        None
    } else if s.last().pid == pid {
        Some(s.last())
    } else {
        proc_lookup(s.drop_last(), pid)
    }
}

/// All snapshot rows for the given pid removed.
pub open spec fn proc_clear(s: Seq<ProcRow>, pid: int) -> Seq<ProcRow>
    decreases s.len(),
{
    if s.len() == 0 {
        s
    } else if s.last().pid == pid {
        proc_clear(s.drop_last(), pid)
    } else {
        proc_clear(s.drop_last(), pid).push(s.last())
    }
}

/// The snapshot of one pid replaced by `row`.
pub open spec fn proc_set(s: Seq<ProcRow>, row: ProcRow) -> Seq<ProcRow> {
    proc_clear(s, row.pid).push(row)
}

/// A path added to one of the three observed sets; the sequence keeps
/// set semantics, so a path already present is not added again.
pub open spec fn set_add(s: Seq<Seq<u8>>, x: Seq<u8>) -> Seq<Seq<u8>> {
    if s.contains(x) {
        s
    } else {
        s.push(x)
    }
}

/// A pid added to the active set.
pub open spec fn active_add(s: Seq<int>, pid: int) -> Seq<int> {
    if s.contains(pid) {
        s
    } else {
        s.push(pid)
    }
}

/// All occurrences of a pid removed from the active set.
pub open spec fn active_remove(s: Seq<int>, pid: int) -> Seq<int>
    decreases s.len(),
{
    if s.len() == 0 {
        s
    } else if s.last() == pid {
        active_remove(s.drop_last(), pid)
    } else {
        active_remove(s.drop_last(), pid).push(s.last())
    }
}

/// A decoded syscall-entry event, classified by syscall number with its
/// relevant arguments already extracted and path arguments resolved.
pub enum EntryEv {
    /// open or openat: the resolved path and the flags argument.
    OpenPath { path: Seq<u8>, flags: u64 },
    /// read, pread64, readv, preadv, preadv2: the fd argument.
    ReadFd { fd: int },
    /// write, pwrite64, writev, pwritev, pwritev2: the fd argument.
    WriteFd { fd: int },
    /// sendfile: reads from in_fd, writes to out_fd.
    Sendfile { out_fd: int, in_fd: int },
    /// copy_file_range: reads from in_fd, writes to out_fd.
    CopyRange { in_fd: int, out_fd: int },
    /// mmap: protection bits, map flags, and the fd treated as signed.
    MmapEv { prot: u64, flags: u64, fd: int },
    /// rename, renameat, renameat2: the resolved destination path.
    RenameDest { path: Seq<u8> },
    /// Any other syscall, or one whose path argument could not be read.
    Ignored,
}

/// The effect of one syscall-entry event on the tracer state.
/// This is the per-syscall classification table:
/// read-class syscalls add the fd's path to `readf`, write-class to
/// `writtenf`, sendfile and copy_file_range to both, mmap according to
/// its protection and sharing bits, rename adds its destination to
/// `writtenf`, and open records a pending open.  A fd with no row in the
/// fd table leaves the state unchanged.
pub open spec fn step_entry(m: StM, pid: int, e: EntryEv) -> StM {
    match e {
        EntryEv::OpenPath { path, flags } => StM {
            pend: pend_set(m.pend, pid, path, flags),
            ..m
        },
        EntryEv::ReadFd { fd } => match fd_lookup(m.fds, pid, fd) {
            Some(p) => StM { readf: set_add(m.readf, p), ..m },
            None => m,
        },
        EntryEv::WriteFd { fd } => match fd_lookup(m.fds, pid, fd) {
            Some(p) => StM { writtenf: set_add(m.writtenf, p), ..m },
            None => m,
        },
        EntryEv::Sendfile { out_fd, in_fd } => {
            let m1 = match fd_lookup(m.fds, pid, in_fd) {
                Some(p) => StM { readf: set_add(m.readf, p), ..m },
                None => m,
            };
            match fd_lookup(m1.fds, pid, out_fd) {
                Some(p) => StM { writtenf: set_add(m1.writtenf, p), ..m1 },
                None => m1,
            }
        },
        EntryEv::CopyRange { in_fd, out_fd } => {
            let m1 = match fd_lookup(m.fds, pid, in_fd) {
                Some(p) => StM { readf: set_add(m.readf, p), ..m },
                None => m,
            };
            match fd_lookup(m1.fds, pid, out_fd) {
                Some(p) => StM { writtenf: set_add(m1.writtenf, p), ..m1 },
                None => m1,
            }
        },
        EntryEv::MmapEv { prot, flags, fd } => {
            if fd < 0 {
                m
            } else {
                match fd_lookup(m.fds, pid, fd) {
                    Some(p) => {
                        let m1 = if prot & 1 != 0 {
                            StM { readf: set_add(m.readf, p), ..m }
                        } else {
                            m
                        };
                        if flags & 1 != 0 && prot & 2 != 0 {
                            StM { writtenf: set_add(m1.writtenf, p), ..m1 }
                        } else {
                            m1
                        }
                    },
                    None => m,
                }
            }
        },
        EntryEv::RenameDest { path } => StM { writtenf: set_add(m.writtenf, path), ..m },
        EntryEv::Ignored => m,
    }
}

/// The effect of a syscall-exit stop.  Only an open-family exit acts:
/// on success (return value >= 0) the pending path becomes a fd-table
/// row and an opened path; on failure the pending open is discarded.
/// `is_open` says whether the syscall was open or openat.
pub open spec fn step_exit(m: StM, pid: int, is_open: bool, ret: int) -> StM {
    if !is_open {
        m
    } else {
        match pend_lookup(m.pend, pid) {
            Some(row) => {
                if ret >= 0 {
                    StM {
                        pend: pend_clear(m.pend, pid),
                        fds: m.fds.push(FdRow { pid, fd: ret, path: row.path }),
                        opened: set_add(m.opened, row.path),
                        ..m
                    }
                } else {
                    StM { pend: pend_clear(m.pend, pid), ..m }
                }
            },
            None => m,
        }
    }
}

/// The effect of one syscall stop: the in-syscall flag of the pid flips,
/// and the stop acts as an entry when the flag was down, as an exit when
/// it was up.
pub open spec fn step_stop(m: StM, pid: int, e: EntryEv, is_open: bool, ret: int) -> StM {
    let was = insys_lookup(m.insys, pid);
    let m1 = StM { insys: insys_set(m.insys, pid, !was), ..m };
    if !was {
        step_entry(m1, pid, e)
    } else {
        step_exit(m1, pid, is_open, ret)
    }
}

/// The rows a fork copies: one child row for every parent row, in table
/// order, so the child's view of every fd equals the parent's.
pub open spec fn fork_rows(s: Seq<FdRow>, parent: int, child: int) -> Seq<FdRow>
    decreases s.len(),
{
    if s.len() == 0 {
        Seq::empty()
    } else {
        let rest = fork_rows(s.drop_last(), parent, child);
        if s.last().pid == parent {
            rest.push(FdRow { pid: child, fd: s.last().fd, path: s.last().path })
        } else {
            rest
        }
    }
}

/// The effect of a fork/vfork/clone event: the child becomes active,
/// inherits a copy of the parent's fd rows, and gets a process snapshot
/// with the parent recorded.
pub open spec fn step_fork(m: StM, parent: int, child: int, row: ProcRow) -> StM {
    StM {
        active: active_add(m.active, child),
        fds: m.fds + fork_rows(m.fds, parent, child),
        procs: proc_set(m.procs, row),
        ..m
    }
}

/// The effect of an exec event: the process snapshot of the pid is
/// replaced (argv and environment re-read), its parent kept.
pub open spec fn step_exec(m: StM, row: ProcRow) -> StM {
    StM { procs: proc_set(m.procs, row), ..m }
}

/// The effect of a tracee leaving (exit or signaled): it stops being
/// active; everything recorded about it stays.
pub open spec fn step_gone(m: StM, pid: int) -> StM {
    StM { active: active_remove(m.active, pid), ..m }
}

/// One event of a traced run, at the model level.
pub enum Ev {
    /// A syscall stop with its decoded entry payload, whether the
    /// syscall is open-family, and the return register value.
    Stop { pid: int, e: EntryEv, is_open: bool, ret: int },
    /// A fork/vfork/clone event with the child's snapshot.
    ForkEv { parent: int, child: int, row: ProcRow },
    /// An exec event with the re-read snapshot.
    ExecEv { row: ProcRow },
    /// A tracee exited or was killed by a signal; `code` is the exit
    /// code the tracer adopts if the tracee is the root: the exit
    /// status, or 128 plus the killing signal.
    GoneEv { pid: int, code: int },
}

/// The effect of one event.
pub open spec fn step(m: StM, ev: Ev) -> StM {
    match ev {
        Ev::Stop { pid, e, is_open, ret } => step_stop(m, pid, e, is_open, ret),
        Ev::ForkEv { parent, child, row } => step_fork(m, parent, child, row),
        Ev::ExecEv { row } => step_exec(m, row),
        Ev::GoneEv { pid, .. } => step_gone(m, pid),
    }
}

/// The state after a whole sequence of events.
pub open spec fn run(m: StM, evs: Seq<Ev>) -> StM
    decreases evs.len(),
{
    if evs.len() == 0 {
        m
    } else {
        step(run(m, evs.drop_last()), evs.last())
    }
}

/// The empty tracer state.
pub open spec fn empty_state() -> StM {
    StM {
        procs: Seq::empty(),
        fds: Seq::empty(),
        insys: Seq::empty(),
        pend: Seq::empty(),
        active: Seq::empty(),
        opened: Seq::empty(),
        readf: Seq::empty(),
        writtenf: Seq::empty(),
    }
}

/// Whether a pid is recorded as the root: it has a snapshot and no
/// parent.
pub open spec fn is_root_pid(m: StM, pid: int) -> bool {
    proc_lookup(m.procs, pid) matches Some(row) && row.parent is None
}

/// The exit code the tracer reports after a run of events: the last
/// termination of a pid that was recorded as the root at that moment
/// decides it; terminations of other pids never change it, and a run
/// that never sees the root terminate reports `acc`.
pub open spec fn run_exit_code(m: StM, evs: Seq<Ev>, acc: int) -> int
    decreases evs.len(),
{
    if evs.len() == 0 {
        acc
    } else {
        let prev = run(m, evs.drop_last());
        let before = run_exit_code(m, evs.drop_last(), acc);
        match evs.last() {
            Ev::GoneEv { pid, code } => if is_root_pid(prev, pid) {
                code
            } else {
                before
            },
            _ => before,
        }
    }
}

/// The first recorded process with no parent: the root of the traced
/// tree, whose environment the report carries.
pub open spec fn first_root(s: Seq<ProcRow>) -> Option<ProcRow>
    decreases s.len(),
{
    if s.len() == 0 {
        None
    } else if s[0].parent is None {
        Some(s[0])
    } else {
        first_root(s.drop_first())
    }
}

/// An absolute path: non-empty and starting with the byte `/`.
pub open spec fn is_abs(p: Seq<u8>) -> bool {
    p.len() > 0 && p[0] == 47u8
}

} // verus!
