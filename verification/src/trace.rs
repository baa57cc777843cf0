//! The tracer event loop and its trusted edge: thin wrappers around the
//! host's debugger and process primitives, the tracee-memory string
//! reader, per-process info capture, and the dispatch of stop events
//! into the verified syscall-semantics engine.

use vstd::prelude::*;
use nix::errno::Errno;
use nix::fcntl;
use nix::sys::ptrace;
use nix::sys::signal::Signal;
use nix::sys::stat::Mode;
use nix::sys::uio::{process_vm_readv, RemoteIoVec};
use nix::sys::wait::{waitpid, WaitPidFlag, WaitStatus};
use nix::unistd;
use nix::unistd::Pid;
use std::io::IoSliceMut;
use crate::model::{
    EntryEv, Ev, ProcRow, StM, insys_lookup, is_root_pid, proc_lookup, proc_set, run,
    run_exit_code, step, step_exec, step_fork, step_gone, step_stop,
};
use crate::laws::{lemma_run_monotonic, sets_grow};
use crate::engine::{
    Regs, EntryEvent, spec_is_open_sysno, is_open_sysno, reg_to_i32, reg_to_i64, apply_stop,
    lo32_signed, signed64, SYS_OPEN, SYS_OPENAT, SYS_READ, SYS_PREAD64, SYS_READV, SYS_PREADV,
    SYS_PREADV2, SYS_WRITE, SYS_PWRITE64, SYS_WRITEV, SYS_PWRITEV, SYS_PWRITEV2, SYS_SENDFILE,
    SYS_COPY_FILE_RANGE, SYS_MMAP, SYS_RENAME, SYS_RENAMEAT, SYS_RENAMEAT2,
};
use crate::state::{TracerState, ProcessInfo, clone_fd_table};
use crate::parse::{argv_chunks, env_pairs, parse_argv, parse_env};
use crate::paths::{resolution_of, resolved, resolve_with_cwd, starts_with_slash};

verus! {

/// Linux ptrace event numbers, as delivered in the event field of a
/// ptrace-event stop.
pub const EVENT_FORK: i32 = 1;

pub const EVENT_VFORK: i32 = 2;

pub const EVENT_CLONE: i32 = 3;

pub const EVENT_EXEC: i32 = 4;

/// One stop reported by the wait-any primitive, reduced to plain values.
pub enum WaitEvent {
    /// A syscall-entry or syscall-exit stop (trace-sysgood bit set).
    SyscallStop { pid: i32 },
    /// A ptrace event stop (fork, vfork, clone, exec, ...).
    EventStop { pid: i32, kind: i32 },
    /// A tracee exited with the given status code.
    ExitedEv { pid: i32, code: i32 },
    /// A tracee was terminated by the given signal.
    SignaledEv { pid: i32, sig: i32 },
    /// A tracee stopped on signal delivery; the signal is re-injected.
    StoppedEv { pid: i32, sig: i32 },
    /// A stop of no interest to the tracer.
    OtherEv,
    /// No children are left to wait for.
    NoChildren,
    /// The wait itself failed for another reason.
    WaitFailed,
}

/// The decoding of a byte sequence as text, named after the behaviour of
/// `String::from_utf8`: it depends on the bytes alone.
pub uninterp spec fn utf8_decode(b: Seq<u8>) -> Option<Seq<char>>;

/// Relies on nix::sys::wait::waitpid with the wait-for-all-children
/// flag: reports one stop of any child, with positive pids, and maps
/// ECHILD to the no-children case.  Signal numbers of the standard
/// signal set lie between 1 and 64.
#[verifier::external_body]
fn wait_any() -> (r: WaitEvent)
    ensures
        r matches WaitEvent::SyscallStop { pid } ==> pid > 0,
        r matches WaitEvent::EventStop { pid, .. } ==> pid > 0,
        r matches WaitEvent::ExitedEv { pid, .. } ==> pid > 0,
        r matches WaitEvent::SignaledEv { pid, sig } ==> pid > 0 && 0 < sig <= 64,
        r matches WaitEvent::StoppedEv { pid, .. } ==> pid > 0,
{
    match waitpid(None, Some(WaitPidFlag::__WALL)) {
        Ok(WaitStatus::PtraceSyscall(p)) => WaitEvent::SyscallStop { pid: p.as_raw() },
        Ok(WaitStatus::PtraceEvent(p, _s, k)) => WaitEvent::EventStop { pid: p.as_raw(), kind: k },
        Ok(WaitStatus::Exited(p, c)) => WaitEvent::ExitedEv { pid: p.as_raw(), code: c },
        Ok(WaitStatus::Signaled(p, s, _c)) => WaitEvent::SignaledEv { pid: p.as_raw(), sig: s as i32 },
        Ok(WaitStatus::Stopped(p, s)) => WaitEvent::StoppedEv { pid: p.as_raw(), sig: s as i32 },
        Ok(_) => WaitEvent::OtherEv,
        Err(Errno::ECHILD) => WaitEvent::NoChildren,
        Err(_) => WaitEvent::WaitFailed,
    }
}

/// Relies on nix::sys::ptrace::getregs: the tracee's registers at the
/// stop; what they hold depends on the tracee alone, so nothing more is
/// promised.
#[verifier::external_body]
fn getregs_of(pid: i32) -> (r: Option<Regs>)
{
    match ptrace::getregs(Pid::from_raw(pid)) {
        Ok(u) => Some(Regs {
            orig_rax: u.orig_rax, rdi: u.rdi, rsi: u.rsi, rdx: u.rdx,
            r10: u.r10, r8: u.r8, r9: u.r9, rax: u.rax,
        }),
        Err(_) => None,
    }
}

/// Relies on nix::sys::uio::process_vm_readv: reads one 8-byte word of
/// the tracee's memory; the read succeeds in whole chunks only, so a
/// success yields exactly 8 bytes.
#[verifier::external_body]
fn peek_word(pid: i32, addr: u64) -> (r: Option<Vec<u8>>)
    ensures
        r matches Some(v) ==> v@.len() == 8,
{
    let mut buf = [0u8; 8];
    let mut local = [IoSliceMut::new(&mut buf)];
    let remote = [RemoteIoVec { base: addr as usize, len: 8 }];
    match process_vm_readv(Pid::from_raw(pid), &mut local, &remote) {
        Ok(_) => Some(buf.to_vec()),
        Err(_) => None,
    }
}

/// Relies on nix::sys::ptrace::syscall: resumes the tracee until its
/// next syscall stop, re-injecting the given signal if any.
#[verifier::external_body]
fn resume_syscall(pid: i32, sig: Option<i32>)
{
    let s = match sig {
        Some(v) => Signal::try_from(v).ok(),
        None => None,
    };
    let _ = ptrace::syscall(Pid::from_raw(pid), s);
}

/// Relies on nix::sys::ptrace::getevent: the event message of a ptrace
/// event stop; for fork-family events this is the new child's pid.
#[verifier::external_body]
fn getevent_of(pid: i32) -> (r: Option<i64>)
{
    match ptrace::getevent(Pid::from_raw(pid)) {
        Ok(v) => Some(v),
        Err(_) => None,
    }
}

/// Relies on nix::fcntl::readlink: the target of a symbolic link, as
/// bytes; what it holds depends on the filesystem alone.
#[verifier::external_body]
fn readlink_bytes(path: &Vec<u8>) -> (r: Option<Vec<u8>>)
{
    match fcntl::readlink(path.as_slice()) {
        Ok(os) => Some(os.into_encoded_bytes()),
        Err(_) => None,
    }
}

/// Relies on nix::fcntl::open and nix::unistd::read: the whole contents
/// of a file, read to the end; what it holds depends on the filesystem
/// alone.  The descriptor closes when it drops.
#[verifier::external_body]
fn read_file_bytes(path: &Vec<u8>) -> (r: Option<Vec<u8>>)
{
    let fd = match fcntl::open(path.as_slice(), fcntl::OFlag::O_RDONLY, Mode::empty()) {
        Ok(f) => f,
        Err(_) => return None,
    };
    let mut out: Vec<u8> = Vec::new();
    let mut buf = [0u8; 4096];
    loop {
        match unistd::read(&fd, &mut buf) {
            Ok(0) => return Some(out),
            Ok(n) => out.extend_from_slice(&buf[..n]),
            Err(_) => return None,
        }
    }
}

/// Relies on std::path::Path::canonicalize: the canonical, absolute
/// form of an existing path, symlinks resolved against the filesystem.
/// What the canonical form is depends on the filesystem, so only its
/// absoluteness — which the call's documentation promises — is stated.
#[verifier::external_body]
fn canonicalize_bytes(path: &Vec<u8>) -> (r: Option<Vec<u8>>)
    ensures
        r matches Some(v) ==> crate::model::is_abs(v@),
{
    let s = match core::str::from_utf8(path.as_slice()) {
        Ok(s) => s,
        Err(_) => return None,
    };
    match std::path::Path::new(s).canonicalize() {
        Ok(p) => p.into_os_string().into_string().ok().map(|x| x.into_bytes()),
        Err(_) => None,
    }
}

/// A path as the syscall engine records it: the resolution of some text
/// string of at most 4096 bytes read from tracee memory.
pub open spec fn path_from_tracee(path: Seq<u8>) -> bool {
    exists|s: Seq<u8>| utf8_decode(s) is Some && s.len() <= 4096 && resolution_of(s, path)
}

/// How a decoded entry event may relate to the registers of the stop it
/// was decoded from.  Events that need no tracee memory are pinned
/// exactly; open and rename carry a path that must be the resolution of
/// a text string read from tracee memory, and a failed read leaves the
/// event ignored.
pub open spec fn decoded_entry_ok(rg: Regs, e: EntryEv) -> bool {
    if rg.orig_rax == SYS_OPEN {
        ||| (e matches EntryEv::OpenPath { path, flags } && flags == rg.rsi && path_from_tracee(
            path,
        ))
        ||| e is Ignored
    } else if rg.orig_rax == SYS_OPENAT {
        ||| (e matches EntryEv::OpenPath { path, flags } && flags == rg.rdx && path_from_tracee(
            path,
        ))
        ||| e is Ignored
    } else if rg.orig_rax == SYS_READ || rg.orig_rax == SYS_PREAD64 || rg.orig_rax == SYS_READV
        || rg.orig_rax == SYS_PREADV || rg.orig_rax == SYS_PREADV2 {
        e == (EntryEv::ReadFd { fd: lo32_signed(rg.rdi) })
    } else if rg.orig_rax == SYS_WRITE || rg.orig_rax == SYS_PWRITE64 || rg.orig_rax == SYS_WRITEV
        || rg.orig_rax == SYS_PWRITEV || rg.orig_rax == SYS_PWRITEV2 {
        e == (EntryEv::WriteFd { fd: lo32_signed(rg.rdi) })
    } else if rg.orig_rax == SYS_SENDFILE {
        e == (EntryEv::Sendfile { out_fd: lo32_signed(rg.rdi), in_fd: lo32_signed(rg.rsi) })
    } else if rg.orig_rax == SYS_COPY_FILE_RANGE {
        e == (EntryEv::CopyRange { in_fd: lo32_signed(rg.rdi), out_fd: lo32_signed(rg.r8) })
    } else if rg.orig_rax == SYS_MMAP {
        e == (EntryEv::MmapEv { prot: rg.rdx, flags: rg.r10, fd: signed64(rg.r8) })
    } else if rg.orig_rax == SYS_RENAME || rg.orig_rax == SYS_RENAMEAT || rg.orig_rax
        == SYS_RENAMEAT2 {
        ||| (e matches EntryEv::RenameDest { path } && path_from_tracee(path))
        ||| e is Ignored
    } else {
        e is Ignored
    }
}

/// Relies on core::str::from_utf8: whether the bytes decode as text.
#[verifier::external_body]
fn utf8_check(v: &Vec<u8>) -> (r: bool)
    ensures
        r == (utf8_decode(v@) is Some),
{
    core::str::from_utf8(v.as_slice()).is_ok()
}

/// Read the zero-terminated string at the given tracee address, one
/// 8-byte word at a time: fails on a zero address, on any failed word
/// read, past 4096 bytes, or when the bytes are not valid text.
pub fn read_string_from_tracee(pid: i32, addr: u64) -> (r: Option<Vec<u8>>)
    ensures
        r matches Some(v) ==> v@.len() <= 4096 && utf8_decode(v@) is Some && (forall|i: int|
            0 <= i < v@.len() ==> v@[i] != 0u8),
        addr == 0 ==> r is None,
{
    if addr == 0 {
        return None;
    }
    let mut bytes: Vec<u8> = Vec::new();
    let mut cur: u64 = addr;
    let mut steps: usize = 0;
    while steps < 520
        invariant
            addr != 0,
            bytes@.len() <= 4096,
            forall|i: int| 0 <= i < bytes@.len() ==> bytes@[i] != 0u8,
        decreases 520 - steps,
    {
        match peek_word(pid, cur) {
            None => {
                return None;
            },
            Some(w) => {
                let mut k: usize = 0;
                while k < 8
                    invariant
                        addr != 0,
                        w@.len() == 8,
                        bytes@.len() <= 4096,
                        forall|i: int| 0 <= i < bytes@.len() ==> bytes@[i] != 0u8,
                    decreases 8 - k,
                {
                    if w[k] == 0 {
                        if bytes.len() <= 4096 && utf8_check(&bytes) {
                            return Some(bytes);
                        }
                        return None;
                    }
                    bytes.push(w[k]);
                    if bytes.len() > 4096 {
                        return None;
                    }
                    k = k + 1;
                }
            },
        }
        if cur >= 0xffff_ffff_ffff_fff7 {
            return None;
        }
        cur = cur + 8;
        steps = steps + 1;
    }
    None
}

/// The decimal digits of a number, most significant first.
pub open spec fn dec_digits(n: nat) -> Seq<u8>
    decreases n,
{
    if n < 10 {
        seq![(48 + n) as u8]
    } else {
        dec_digits(n / 10).push((48 + n % 10) as u8)
    }
}

/// The path of one entry of a process's info directory: the bytes of
/// "/proc/", the pid in decimal, "/", and the entry name.
pub open spec fn proc_entry_path_of(pid: nat, suffix: Seq<u8>) -> Seq<u8> {
    seq![47u8, 112u8, 114u8, 111u8, 99u8, 47u8] + dec_digits(pid) + seq![47u8] + suffix
}

/// The bytes of the name "cmdline".
pub open spec fn cmdline_name() -> Seq<u8> {
    seq![99u8, 109u8, 100u8, 108u8, 105u8, 110u8, 101u8]
}

/// The bytes of the name "environ".
pub open spec fn environ_name() -> Seq<u8> {
    seq![101u8, 110u8, 118u8, 105u8, 114u8, 111u8, 110u8]
}

/// The bytes of the name "cwd".
pub open spec fn cwd_name() -> Seq<u8> {
    seq![99u8, 119u8, 100u8]
}

/// Append the decimal digits of a number.
fn push_decimal(v: &mut Vec<u8>, n: u32)
    ensures
        final(v)@ == old(v)@ + dec_digits(n as nat),
    decreases n,
{
    if n >= 10 {
        push_decimal(v, n / 10);
        v.push(48 + (n % 10) as u8);
        assert(v@ =~= old(v)@ + dec_digits(n as nat));
    } else {
        v.push(48 + (n % 10) as u8);
        assert(v@ =~= old(v)@ + dec_digits(n as nat));
    }
}

/// Build the path of one entry of a process's info directory, such as
/// its command line, environment block or working-directory link.
fn proc_entry_path(pid: i32, suffix: &Vec<u8>) -> (r: Vec<u8>)
    requires
        pid >= 0,
    ensures
        r@ == proc_entry_path_of(pid as nat, suffix@),
{
    let mut v: Vec<u8> = Vec::new();
    v.push(47);
    v.push(112);
    v.push(114);
    v.push(111);
    v.push(99);
    v.push(47);
    let ghost a = seq![47u8, 112u8, 114u8, 111u8, 99u8, 47u8];
    assert(v@ =~= a);
    assert((pid as u32) as nat == pid as nat);
    push_decimal(&mut v, pid as u32);
    assert(v@ == a + dec_digits(pid as nat));
    v.push(47);
    let ghost head = v@;
    assert(head =~= a + dec_digits(pid as nat) + seq![47u8]);
    let n = suffix.len();
    let mut i: usize = 0;
    while i < n
        invariant
            n == suffix.len(),
            i <= n,
            v@ =~= head + suffix@.take(i as int),
        decreases n - i,
    {
        v.push(suffix[i]);
        assert(v@ =~= head + suffix@.take(i as int + 1));
        i = i + 1;
    }
    assert(suffix@.take(n as int) =~= suffix@);
    assert(v@ == head + suffix@);
    assert(head + suffix@ =~= a + dec_digits(pid as nat) + seq![47u8] + suffix@);
    assert(proc_entry_path_of(pid as nat, suffix@) == a + dec_digits(pid as nat) + seq![47u8]
        + suffix@);
    v
}

/// The bytes of the name "cmdline".
fn suffix_cmdline() -> (r: Vec<u8>)
    ensures
        r@ == cmdline_name(),
{
    let mut v: Vec<u8> = Vec::new();
    v.push(99);
    v.push(109);
    v.push(100);
    v.push(108);
    v.push(105);
    v.push(110);
    v.push(101);
    assert(v@ =~= cmdline_name());
    v
}

/// The bytes of the name "environ".
fn suffix_environ() -> (r: Vec<u8>)
    ensures
        r@ == environ_name(),
{
    let mut v: Vec<u8> = Vec::new();
    v.push(101);
    v.push(110);
    v.push(118);
    v.push(105);
    v.push(114);
    v.push(111);
    v.push(110);
    assert(v@ =~= environ_name());
    v
}

/// The bytes of the name "cwd".
fn suffix_cwd() -> (r: Vec<u8>)
    ensures
        r@ == cwd_name(),
{
    let mut v: Vec<u8> = Vec::new();
    v.push(99);
    v.push(119);
    v.push(100);
    assert(v@ =~= cwd_name());
    v
}

/// Resolve a possibly-relative path against the tracee's working
/// directory, read from its info directory: an absolute input is
/// returned verbatim; otherwise the working-directory link decides, and
/// an unreadable one leaves the input unchanged.
pub fn resolve_path(pid: i32, path: Vec<u8>) -> (r: Vec<u8>)
    requires
        pid >= 0,
    ensures
        resolution_of(path@, r@),
        crate::model::is_abs(path@) ==> r@ == path@,
{
    let ghost pv = path@;
    if starts_with_slash(&path) {
        assert(resolved(pv, None::<Seq<u8>>) == pv);
        assert(exists|c: Option<Seq<u8>>| pv == resolved(pv, c));
        return path;
    }
    match readlink_bytes(&proc_entry_path(pid, &suffix_cwd())) {
        Some(c) => {
            if starts_with_slash(&c) {
                let ghost cv = c@;
                let j = resolve_with_cwd(path, Some(c));
                assert(j@ == resolved(pv, Some(cv)));
                match canonicalize_bytes(&j) {
                    Some(k) => {
                        assert(resolution_of(pv, k@));
                        k
                    },
                    None => {
                        assert(exists|cc: Option<Seq<u8>>| j@ == resolved(pv, cc)) by {
                            assert(j@ == resolved(pv, Some(cv)));
                        }
                        j
                    },
                }
            } else {
                assert(exists|cc: Option<Seq<u8>>| pv == resolved(pv, cc)) by {
                    assert(pv == resolved(pv, None::<Seq<u8>>));
                }
                path
            }
        },
        None => {
            assert(exists|cc: Option<Seq<u8>>| pv == resolved(pv, cc)) by {
                assert(pv == resolved(pv, None::<Seq<u8>>));
            }
            path
        },
    }
}

/// One file of the info directory read and gated as text: unreadable or
/// non-text contents count as empty, as a failed snapshot read does.
fn read_info_file(pid: i32, suffix: &Vec<u8>) -> (r: Vec<u8>)
    requires
        pid >= 0,
{
    match read_file_bytes(&proc_entry_path(pid, suffix)) {
        Some(b) => {
            if utf8_check(&b) {
                b
            } else {
                Vec::new()
            }
        },
        None => Vec::new(),
    }
}

/// How a captured snapshot may relate to what was handed in: the pid
/// and parent are as given, and argv and environment are exactly the
/// parses of some command-line and environment byte blocks.
pub open spec fn captured_row_ok(row: ProcRow, pid: int, parent: Option<int>) -> bool {
    &&& row.pid == pid
    &&& row.parent == parent
    &&& exists|cb: Seq<u8>| row.argv == argv_chunks(cb, Seq::empty())
    &&& exists|eb: Seq<u8>| row.env == env_pairs(argv_chunks(eb, Seq::empty()))
}

/// Snapshot argv and environment of one process from the operating
/// system's per-process info surface, and record it under its pid with
/// the given parent.  argv and environment are the exact parses of the
/// bytes the reads returned (empty on a failed or non-text read).
pub fn capture_process_info(state: &mut TracerState, pid: i32, parent_pid: Option<i32>)
    requires
        pid >= 0,
    ensures
        exists|row: ProcRow|
            #![trigger proc_set(old(state)@.procs, row)]
            captured_row_ok(row, pid as int, match parent_pid {
                Some(p) => Some(p as int),
                None => None::<int>,
            }) && final(state)@ == (StM {
                procs: proc_set(old(state)@.procs, row),
                ..old(state)@
            }),
{
    let cmd_bytes = read_info_file(pid, &suffix_cmdline());
    let env_bytes = read_info_file(pid, &suffix_environ());
    let ghost cb = cmd_bytes@;
    let ghost eb = env_bytes@;
    let argv = parse_argv(&cmd_bytes);
    let env = parse_env(&env_bytes);
    let info = ProcessInfo { pid, parent_pid, argv, env };
    let ghost row = info@;
    state.proc_put(info);
    assert(row.argv == argv_chunks(cb, Seq::empty()));
    assert(row.env == env_pairs(argv_chunks(eb, Seq::empty())));
    assert(captured_row_ok(row, pid as int, match parent_pid {
        Some(p) => Some(p as int),
        None => None::<int>,
    }) && state@ == (StM { procs: proc_set(old(state)@.procs, row), ..old(state)@ }));
}

/// Decode the entry stop of one syscall from its registers, reading and
/// resolving path arguments from tracee memory where the syscall has
/// them.
pub fn decode_entry(pid: i32, rg: &Regs) -> (r: EntryEvent)
    requires
        pid > 0,
    ensures
        decoded_entry_ok(*rg, r@),
{
    let n = rg.orig_rax;
    if n == SYS_OPEN {
        match read_string_from_tracee(pid, rg.rdi) {
            Some(p) => EntryEvent::OpenPath { path: resolve_path(pid, p), flags: rg.rsi },
            None => EntryEvent::Ignored,
        }
    } else if n == SYS_OPENAT {
        match read_string_from_tracee(pid, rg.rsi) {
            Some(p) => EntryEvent::OpenPath { path: resolve_path(pid, p), flags: rg.rdx },
            None => EntryEvent::Ignored,
        }
    } else if n == SYS_READ || n == SYS_PREAD64 || n == SYS_READV || n == SYS_PREADV || n
        == SYS_PREADV2 {
        EntryEvent::ReadFd { fd: reg_to_i32(rg.rdi) as i64 }
    } else if n == SYS_WRITE || n == SYS_PWRITE64 || n == SYS_WRITEV || n == SYS_PWRITEV || n
        == SYS_PWRITEV2 {
        EntryEvent::WriteFd { fd: reg_to_i32(rg.rdi) as i64 }
    } else if n == SYS_SENDFILE {
        EntryEvent::Sendfile { out_fd: reg_to_i32(rg.rdi) as i64, in_fd: reg_to_i32(rg.rsi) as i64 }
    } else if n == SYS_COPY_FILE_RANGE {
        EntryEvent::CopyRange { in_fd: reg_to_i32(rg.rdi) as i64, out_fd: reg_to_i32(rg.r8) as i64 }
    } else if n == SYS_MMAP {
        EntryEvent::MmapEv { prot: rg.rdx, flags: rg.r10, fd: reg_to_i64(rg.r8) }
    } else if n == SYS_RENAME {
        match read_string_from_tracee(pid, rg.rsi) {
            Some(p) => EntryEvent::RenameDest { path: resolve_path(pid, p) },
            None => EntryEvent::Ignored,
        }
    } else if n == SYS_RENAMEAT || n == SYS_RENAMEAT2 {
        match read_string_from_tracee(pid, rg.r10) {
            Some(p) => EntryEvent::RenameDest { path: resolve_path(pid, p) },
            None => EntryEvent::Ignored,
        }
    } else {
        EntryEvent::Ignored
    }
}

/// Handle one syscall stop: read the registers, decode the event when
/// the stop is an entry, and drive the engine one step.  When the
/// registers cannot be read the state is left unchanged.
pub fn handle_syscall(state: &mut TracerState, pid: i32)
    requires
        pid > 0,
    ensures
        final(state)@ == old(state)@ || exists|rg: Regs, e: EntryEv|
            #![trigger step_stop(old(state)@, pid as int, e, spec_is_open_sysno(rg.orig_rax), signed64_of(rg.rax))]
            (!insys_lookup(old(state)@.insys, pid as int) ==> decoded_entry_ok(rg, e))
                && final(state)@ == step_stop(
                old(state)@,
                pid as int,
                e,
                spec_is_open_sysno(rg.orig_rax),
                signed64_of(rg.rax),
            ),
{
    match getregs_of(pid) {
        None => {},
        Some(rg) => {
            let was = state.insys_get(pid);
            let ev = if !was {
                decode_entry(pid, &rg)
            } else {
                EntryEvent::Ignored
            };
            let ghost evv = ev@;
            let is_open = is_open_sysno(rg.orig_rax);
            let ret = reg_to_i64(rg.rax);
            apply_stop(state, pid, ev, is_open, ret);
            assert((!insys_lookup(old(state)@.insys, pid as int) ==> decoded_entry_ok(rg, evv))
                && state@ == step_stop(
                old(state)@,
                pid as int,
                evv,
                spec_is_open_sysno(rg.orig_rax),
                signed64_of(rg.rax),
            ));
            assert(exists|rg2: Regs, e2: EntryEv|
                #![trigger step_stop(old(state)@, pid as int, e2, spec_is_open_sysno(rg2.orig_rax), signed64_of(rg2.rax))]
                (!insys_lookup(old(state)@.insys, pid as int) ==> decoded_entry_ok(rg2, e2))
                    && state@ == step_stop(
                    old(state)@,
                    pid as int,
                    e2,
                    spec_is_open_sysno(rg2.orig_rax),
                    signed64_of(rg2.rax),
                ));
        },
    }
}

/// The engine's view of a register as a signed return value.
pub open spec fn signed64_of(x: u64) -> int {
    crate::engine::signed64(x)
}

/// Handle one ptrace event stop.  A fork, vfork or clone event makes the
/// new child active, copies the parent's fd rows to it and snapshots it
/// with the parent recorded; an exec event re-snapshots the process,
/// keeping its recorded parent; anything else changes nothing.
pub fn handle_ptrace_event(state: &mut TracerState, pid: i32, event: i32)
    requires
        pid > 0,
    ensures
        (event == EVENT_FORK || event == EVENT_VFORK || event == EVENT_CLONE) ==> (final(state)@
            == old(state)@ || exists|child: int, row: ProcRow|
            #![auto]
            captured_row_ok(row, child, Some(pid as int)) && final(state)@ == step_fork(
                old(state)@,
                pid as int,
                child,
                row,
            )),
        event == EVENT_EXEC ==> exists|row: ProcRow|
            #![auto]
            captured_row_ok(row, pid as int, match proc_lookup(old(state)@.procs, pid as int) {
                Some(prev) => prev.parent,
                None => None::<int>,
            }) && final(state)@ == step_exec(old(state)@, row),
        !(event == EVENT_FORK || event == EVENT_VFORK || event == EVENT_CLONE || event
            == EVENT_EXEC) ==> final(state)@ == old(state)@,
{
    if event == EVENT_FORK || event == EVENT_VFORK || event == EVENT_CLONE {
        match getevent_of(pid) {
            Some(c) => {
                if c > 0 && c <= 0x7fff_ffff {
                    let child: i32 = c as i32;
                    state.active_insert(child);
                    clone_fd_table(pid, child, state);
                    let ghost mid = state@;
                    capture_process_info(state, child, Some(pid));
                    proof {
                        let row = choose|row: ProcRow|
                            #![trigger proc_set(mid.procs, row)]
                            captured_row_ok(row, child as int, Some(pid as int)) && state@
                                == (StM { procs: proc_set(mid.procs, row), ..mid });
                        assert(state@ =~~= step_fork(old(state)@, pid as int, child as int, row));
                    }
                }
            },
            None => {},
        }
    } else if event == EVENT_EXEC {
        let parent_pid = match state.proc_parent(pid) {
            Some(par) => par,
            None => None,
        };
        let ghost lp = match proc_lookup(old(state)@.procs, pid as int) {
            Some(prev) => prev.parent,
            None => None::<int>,
        };
        assert(lp == (match parent_pid {
            Some(p) => Some(p as int),
            None => None::<int>,
        }));
        capture_process_info(state, pid, parent_pid);
        proof {
            let row = choose|row: ProcRow|
                #![trigger proc_set(old(state)@.procs, row)]
                captured_row_ok(row, pid as int, lp) && state@ == (StM {
                    procs: proc_set(old(state)@.procs, row),
                    ..old(state)@
                });
            assert(state@ =~~= step_exec(old(state)@, row));
        }
    }
}

/// Whether the pid is recorded as the root process: one with a snapshot
/// and no parent.
pub fn is_root_process(state: &TracerState, pid: i32) -> (r: bool)
    ensures
        r == (proc_lookup(state@.procs, pid as int) matches Some(row) && row.parent is None),
{
    match state.proc_parent(pid) {
        Some(par) => par.is_none(),
        None => false,
    }
}

/// The exit code the tracer mirrors for a root tracee killed by a
/// signal: 128 plus the signal number.
pub fn code_for_signal(sig: i32) -> (r: i32)
    requires
        0 <= sig <= 64,
    ensures
        r == 128 + sig,
{
    128 + sig
}

/// The dispatch loop: wait for any tracee to stop, handle the stop, and
/// resume it, until no tracee is active.  The final state is the model's
/// run of some event sequence from the initial state, so every law of
/// the model (monotonicity, duplicate-freedom, alternation, fd-path
/// absoluteness) applies to it; the returned exit code is the one the
/// events assign: the last termination of a then-recorded root decides
/// it, a signal as 128 plus the signal number, and it stays 0 when no
/// root termination was observed.
pub fn trace_loop(state: &mut TracerState) -> (r: i32)
    ensures
        exists|evs: Seq<Ev>|
            #![trigger run(old(state)@, evs)]
            final(state)@ == run(old(state)@, evs) && r as int == run_exit_code(
                old(state)@,
                evs,
                0,
            ),
        sets_grow(old(state)@, final(state)@),
        old(state)@.active.len() == 0 ==> final(state)@ == old(state)@ && r == 0,
{
    let mut exit_code: i32 = 0;
    let ghost mut evs: Seq<Ev> = Seq::empty();
    let mut budget: u64 = 0xffff_ffff_ffff_ffff;
    while budget > 0
        invariant
            state@ == run(old(state)@, evs),
            exit_code as int == run_exit_code(old(state)@, evs, 0),
            old(state)@.active.len() == 0 ==> evs == Seq::<Ev>::empty() && exit_code == 0,
        decreases budget,
    {
        budget = budget - 1;
        if state.active_is_empty() {
            proof {
                lemma_run_monotonic(old(state)@, evs);
                assert(state@ == run(old(state)@, evs) && exit_code as int == run_exit_code(
                    old(state)@,
                    evs,
                    0,
                ));
            }
            return exit_code;
        }
        proof {
            if old(state)@.active.len() == 0 {
                assert(run(old(state)@, Seq::<Ev>::empty()) == old(state)@);
                assert(false);
            }
        }
        let ghost pre = state@;
        match wait_any() {
            WaitEvent::SyscallStop { pid } => {
                handle_syscall(state, pid);
                proof {
                    if state@ != pre {
                        let (rg, e) = choose|rg: Regs, e: EntryEv|
                            #![trigger step_stop(pre, pid as int, e, spec_is_open_sysno(rg.orig_rax), signed64_of(rg.rax))]
                            (!insys_lookup(pre.insys, pid as int) ==> decoded_entry_ok(rg, e))
                                && state@ == step_stop(
                                pre,
                                pid as int,
                                e,
                                spec_is_open_sysno(rg.orig_rax),
                                signed64_of(rg.rax),
                            );
                        let ev = Ev::Stop {
                            pid: pid as int,
                            e,
                            is_open: spec_is_open_sysno(rg.orig_rax),
                            ret: signed64_of(rg.rax),
                        };
                        let pevs = evs;
                        evs = evs.push(ev);
                        assert(evs.drop_last() =~= pevs);
                        assert(run(old(state)@, evs) == step(run(old(state)@, pevs), ev));
                        assert(state@ == run(old(state)@, evs));
                        assert(run_exit_code(old(state)@, evs, 0) == run_exit_code(
                            old(state)@,
                            pevs,
                            0,
                        ));
                    }
                }
                resume_syscall(pid, None);
            },
            WaitEvent::EventStop { pid, kind } => {
                handle_ptrace_event(state, pid, kind);
                proof {
                    if state@ != pre {
                        let ev = if kind == EVENT_FORK || kind == EVENT_VFORK || kind
                            == EVENT_CLONE {
                            let (child, row) = choose|child: int, row: ProcRow|
                                #![auto]
                                captured_row_ok(row, child, Some(pid as int)) && state@
                                    == step_fork(pre, pid as int, child, row);
                            Ev::ForkEv { parent: pid as int, child, row }
                        } else {
                            let row = choose|row: ProcRow|
                                #![auto]
                                captured_row_ok(row, pid as int, match proc_lookup(
                                    pre.procs,
                                    pid as int,
                                ) {
                                    Some(prev) => prev.parent,
                                    None => None::<int>,
                                }) && state@ == step_exec(pre, row);
                            Ev::ExecEv { row }
                        };
                        let pevs = evs;
                        evs = evs.push(ev);
                        assert(evs.drop_last() =~= pevs);
                        assert(run(old(state)@, evs) == step(run(old(state)@, pevs), ev));
                        assert(state@ == run(old(state)@, evs));
                        assert(run_exit_code(old(state)@, evs, 0) == run_exit_code(
                            old(state)@,
                            pevs,
                            0,
                        ));
                    }
                }
                resume_syscall(pid, None);
            },
            WaitEvent::ExitedEv { pid, code } => {
                let root = is_root_process(state, pid);
                state.active_drop(pid);
                if root {
                    exit_code = code;
                }
                proof {
                    let ev = Ev::GoneEv { pid: pid as int, code: code as int };
                    let pevs = evs;
                    evs = evs.push(ev);
                    assert(evs.drop_last() =~= pevs);
                    assert(state@ =~~= step_gone(pre, pid as int));
                    assert(run(old(state)@, evs) == step(run(old(state)@, pevs), ev));
                    assert(state@ == run(old(state)@, evs));
                    assert(is_root_pid(pre, pid as int) == root);
                    assert(run_exit_code(old(state)@, evs, 0) == (if root {
                        code as int
                    } else {
                        run_exit_code(old(state)@, pevs, 0)
                    }));
                }
            },
            WaitEvent::SignaledEv { pid, sig } => {
                let root = is_root_process(state, pid);
                state.active_drop(pid);
                let sig_code = code_for_signal(sig);
                if root {
                    exit_code = sig_code;
                }
                proof {
                    let ev = Ev::GoneEv { pid: pid as int, code: sig_code as int };
                    let pevs = evs;
                    evs = evs.push(ev);
                    assert(evs.drop_last() =~= pevs);
                    assert(state@ =~~= step_gone(pre, pid as int));
                    assert(run(old(state)@, evs) == step(run(old(state)@, pevs), ev));
                    assert(state@ == run(old(state)@, evs));
                    assert(is_root_pid(pre, pid as int) == root);
                    assert(run_exit_code(old(state)@, evs, 0) == (if root {
                        sig_code as int
                    } else {
                        run_exit_code(old(state)@, pevs, 0)
                    }));
                }
            },
            WaitEvent::StoppedEv { pid, sig } => {
                resume_syscall(pid, Some(sig));
            },
            WaitEvent::OtherEv => {},
            WaitEvent::NoChildren => {
                proof {
                    lemma_run_monotonic(old(state)@, evs);
                    assert(state@ == run(old(state)@, evs) && exit_code as int == run_exit_code(
                        old(state)@,
                        evs,
                        0,
                    ));
                }
                return exit_code;
            },
            WaitEvent::WaitFailed => {},
        }
    }
    proof {
        lemma_run_monotonic(old(state)@, evs);
        assert(state@ == run(old(state)@, evs) && exit_code as int == run_exit_code(
            old(state)@,
            evs,
            0,
        ));
    }
    exit_code
}

} // verus!
