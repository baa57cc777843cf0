//! The syscall-semantics engine for x86_64: syscall numbers, register
//! decoding, and the application of one decoded event to the tracer
//! state.  Every function's contract equates the new state with the
//! model's step functions.

use vstd::prelude::*;
use crate::model::{EntryEv, StM, step_entry, step_exit, step_stop};
use crate::state::TracerState;

verus! {

pub const SYS_READ: u64 = 0;
pub const SYS_WRITE: u64 = 1;
pub const SYS_OPEN: u64 = 2;
pub const SYS_CLOSE: u64 = 3;
pub const SYS_MMAP: u64 = 9;
pub const SYS_PREAD64: u64 = 17;
pub const SYS_PWRITE64: u64 = 18;
pub const SYS_READV: u64 = 19;
pub const SYS_WRITEV: u64 = 20;
pub const SYS_SENDFILE: u64 = 40;
pub const SYS_RENAME: u64 = 82;
pub const SYS_OPENAT: u64 = 257;
pub const SYS_RENAMEAT: u64 = 264;
pub const SYS_PREADV: u64 = 295;
pub const SYS_PWRITEV: u64 = 296;
pub const SYS_RENAMEAT2: u64 = 316;
pub const SYS_COPY_FILE_RANGE: u64 = 326;
pub const SYS_PREADV2: u64 = 327;
pub const SYS_PWRITEV2: u64 = 328;

/// The x86_64 registers the engine reads: the syscall number sits in
/// orig_rax, the arguments in rdi, rsi, rdx, r10, r8, r9 and the return
/// value in rax.
pub struct Regs {
    pub orig_rax: u64,
    pub rdi: u64,
    pub rsi: u64,
    pub rdx: u64,
    pub r10: u64,
    pub r8: u64,
    pub r9: u64,
    pub rax: u64,
}

/// The low 32 bits of a register reinterpreted as a signed value, the
/// way the kernel ABI passes an fd argument.
pub open spec fn lo32_signed(x: u64) -> int {
    if x % 0x1_0000_0000 < 0x8000_0000 {
        (x % 0x1_0000_0000) as int
    } else {
        (x % 0x1_0000_0000) - 0x1_0000_0000
    }
}

/// A whole register reinterpreted as a signed 64-bit value, the way the
/// kernel ABI returns results and passes mmap's fd.
pub open spec fn signed64(x: u64) -> int {
    if x < 0x8000_0000_0000_0000 {
        x as int
    } else {
        x - 0x1_0000_0000_0000_0000
    }
}

/// The low 32 bits of a register as a signed fd.
pub fn reg_to_i32(x: u64) -> (r: i32)
    ensures
        r as int == lo32_signed(x),
{
    let lo: u64 = x % 0x1_0000_0000;
    if lo < 0x8000_0000 {
        lo as i32
    } else {
        ((lo as i64) - 0x1_0000_0000) as i32
    }
}

/// A whole register as a signed 64-bit value.
pub fn reg_to_i64(x: u64) -> (r: i64)
    ensures
        r as int == signed64(x),
{
    if x < 0x8000_0000_0000_0000 {
        x as i64
    } else {
        let d: u64 = 0xffff_ffff_ffff_ffff - x;
        -(d as i64) - 1
    }
}

/// A decoded syscall-entry event, the executable twin of the model's
/// `EntryEv`.
pub enum EntryEvent {
    OpenPath { path: Vec<u8>, flags: u64 },
    ReadFd { fd: i64 },
    WriteFd { fd: i64 },
    Sendfile { out_fd: i64, in_fd: i64 },
    CopyRange { in_fd: i64, out_fd: i64 },
    MmapEv { prot: u64, flags: u64, fd: i64 },
    RenameDest { path: Vec<u8> },
    Ignored,
}

impl View for EntryEvent {
    type V = EntryEv;

    open spec fn view(&self) -> EntryEv {
        match self {
            EntryEvent::OpenPath { path, flags } => EntryEv::OpenPath {
                path: path@,
                flags: *flags,
            },
            EntryEvent::ReadFd { fd } => EntryEv::ReadFd { fd: *fd as int },
            EntryEvent::WriteFd { fd } => EntryEv::WriteFd { fd: *fd as int },
            EntryEvent::Sendfile { out_fd, in_fd } => EntryEv::Sendfile {
                out_fd: *out_fd as int,
                in_fd: *in_fd as int,
            },
            EntryEvent::CopyRange { in_fd, out_fd } => EntryEv::CopyRange {
                in_fd: *in_fd as int,
                out_fd: *out_fd as int,
            },
            EntryEvent::MmapEv { prot, flags, fd } => EntryEv::MmapEv {
                prot: *prot,
                flags: *flags,
                fd: *fd as int,
            },
            EntryEvent::RenameDest { path } => EntryEv::RenameDest { path: path@ },
            EntryEvent::Ignored => EntryEv::Ignored,
        }
    }
}

/// Whether the syscall number is one whose exit matters: open or openat.
pub open spec fn spec_is_open_sysno(n: u64) -> bool {
    n == SYS_OPEN || n == SYS_OPENAT
}

/// Exec twin of `spec_is_open_sysno`.
pub fn is_open_sysno(n: u64) -> (r: bool)
    ensures
        r == spec_is_open_sysno(n),
{
    n == SYS_OPEN || n == SYS_OPENAT
}

/// Apply one decoded syscall-entry event: the per-syscall classification
/// table of the engine, exactly as `step_entry` states it.
pub fn apply_entry(state: &mut TracerState, pid: i32, ev: EntryEvent)
    ensures
        final(state)@ == step_entry(old(state)@, pid as int, ev@),
{
    match ev {
        EntryEvent::OpenPath { path, flags } => {
            state.pend_put(pid, path, flags);
        },
        EntryEvent::ReadFd { fd } => {
            match state.fd_get(pid, fd) {
                Some(p) => state.add_read(p),
                None => {},
            }
        },
        EntryEvent::WriteFd { fd } => {
            match state.fd_get(pid, fd) {
                Some(p) => state.add_written(p),
                None => {},
            }
        },
        EntryEvent::Sendfile { out_fd, in_fd } => {
            match state.fd_get(pid, in_fd) {
                Some(p) => state.add_read(p),
                None => {},
            }
            match state.fd_get(pid, out_fd) {
                Some(p) => state.add_written(p),
                None => {},
            }
        },
        EntryEvent::CopyRange { in_fd, out_fd } => {
            match state.fd_get(pid, in_fd) {
                Some(p) => state.add_read(p),
                None => {},
            }
            match state.fd_get(pid, out_fd) {
                Some(p) => state.add_written(p),
                None => {},
            }
        },
        EntryEvent::MmapEv { prot, flags, fd } => {
            if fd >= 0 {
                match state.fd_get(pid, fd) {
                    Some(p) => {
                        if prot & 1 != 0 {
                            state.add_read(crate::state::copy_bytes(&p));
                        }
                        if flags & 1 != 0 && prot & 2 != 0 {
                            state.add_written(p);
                        }
                    },
                    None => {},
                }
            }
        },
        EntryEvent::RenameDest { path } => {
            state.add_written(path);
        },
        EntryEvent::Ignored => {},
    }
}

/// Apply one syscall-exit stop: only an open-family exit acts, turning
/// the pending open into a fd-table row and an opened path on success.
pub fn apply_exit(state: &mut TracerState, pid: i32, is_open: bool, ret: i64)
    ensures
        final(state)@ == step_exit(old(state)@, pid as int, is_open, ret as int),
{
    if is_open {
        match state.pend_get(pid) {
            Some((path, _flags)) => {
                if ret >= 0 {
                    state.pend_drop(pid);
                    state.fd_push(pid, ret, crate::state::copy_bytes(&path));
                    state.add_opened(path);
                } else {
                    state.pend_drop(pid);
                }
            },
            None => {},
        }
    }
}

/// Apply one syscall stop: flip the pid's in-syscall flag, then act as
/// an entry when the flag was down, as an exit when it was up.
pub fn apply_stop(state: &mut TracerState, pid: i32, ev: EntryEvent, is_open: bool, ret: i64)
    ensures
        final(state)@ == step_stop(old(state)@, pid as int, ev@, is_open, ret as int),
{
    let was = state.insys_get(pid);
    state.insys_put(pid, !was);
    if !was {
        apply_entry(state, pid, ev);
    } else {
        apply_exit(state, pid, is_open, ret);
    }
}

} // verus!
