use tracer::state::{EnvPair, ProcessInfo, TracerState};
use tracer::trace::{capture_process_info, code_for_signal, is_root_process, read_string_from_tracee, resolve_path};

#[test]
fn signal_exit_code_is_128_plus_signal() {
    assert_eq!(code_for_signal(9), 137);
    assert_eq!(code_for_signal(15), 143);
}

#[test]
fn root_process_is_the_one_without_parent() {
    let mut st = TracerState::new();
    st.proc_put(ProcessInfo {
        pid: 100,
        parent_pid: None,
        argv: vec![b"sh".to_vec()],
        env: vec![EnvPair { name: b"HOME".to_vec(), value: b"/root".to_vec() }],
    });
    st.proc_put(ProcessInfo {
        pid: 101,
        parent_pid: Some(100),
        argv: vec![b"cat".to_vec()],
        env: Vec::new(),
    });
    st.proc_put(ProcessInfo {
        pid: 102,
        parent_pid: Some(100),
        argv: vec![b"head".to_vec()],
        env: Vec::new(),
    });
    assert!(is_root_process(&st, 100));
    assert!(!is_root_process(&st, 101));
    assert!(!is_root_process(&st, 103));
    assert_eq!(st.proc_parent(101), Some(Some(100)));
    assert_eq!(st.proc_parent(102), Some(Some(100)));
    assert_eq!(st.proc_parent(100), Some(None));
    let env = st.root_env().unwrap();
    assert_eq!(env.len(), 1);
    assert_eq!(env[0].name, b"HOME".to_vec());
}

#[test]
fn exec_event_replaces_snapshot() {
    let mut st = TracerState::new();
    st.proc_put(ProcessInfo {
        pid: 5,
        parent_pid: Some(1),
        argv: vec![b"before".to_vec()],
        env: Vec::new(),
    });
    st.proc_put(ProcessInfo {
        pid: 5,
        parent_pid: Some(1),
        argv: vec![b"after".to_vec()],
        env: Vec::new(),
    });
    assert_eq!(st.processes.len(), 1);
    assert_eq!(st.processes[0].argv[0], b"after".to_vec());
    assert_eq!(st.processes[0].parent_pid, Some(1));
}

#[test]
fn capture_reads_own_process_info() {
    let pid = nix::unistd::getpid().as_raw();
    let mut st = TracerState::new();
    capture_process_info(&mut st, pid, None);
    assert_eq!(st.processes.len(), 1);
    assert_eq!(st.processes[0].pid, pid);
    assert!(st.processes[0].parent_pid.is_none());
    assert!(!st.processes[0].argv.is_empty());
    assert!(!st.processes[0].env.is_empty());
    assert!(st.root_env().is_some());
}

#[test]
fn resolve_against_own_cwd() {
    let pid = nix::unistd::getpid().as_raw();
    let cwd = nix::unistd::getcwd().unwrap();
    let mut expected = cwd.into_os_string().into_string().unwrap().into_bytes();
    if expected.last() != Some(&b'/') {
        expected.push(b'/');
    }
    expected.extend_from_slice(b"somefile.txt");
    let r = resolve_path(pid, b"somefile.txt".to_vec());
    assert_eq!(r, expected);
    let abs = resolve_path(pid, b"/etc/hostname".to_vec());
    assert_eq!(abs, b"/etc/hostname".to_vec());
}

#[test]
fn output_carries_state_and_root_env() {
    let mut st = TracerState::new();
    st.proc_put(ProcessInfo {
        pid: 1,
        parent_pid: None,
        argv: vec![b"cmd".to_vec()],
        env: vec![EnvPair { name: b"A".to_vec(), value: b"1".to_vec() }],
    });
    st.add_opened(b"/o".to_vec());
    st.add_read(b"/r".to_vec());
    st.add_written(b"/w".to_vec());
    let out = st.into_output();
    assert_eq!(out.processes.len(), 1);
    assert_eq!(out.opened_files, vec![b"/o".to_vec()]);
    assert_eq!(out.read_files, vec![b"/r".to_vec()]);
    assert_eq!(out.written_files, vec![b"/w".to_vec()]);
    assert_eq!(out.env_accessed.len(), 1);
    assert_eq!(out.env_accessed[0].name, b"A".to_vec());
}

#[test]
fn output_without_root_has_empty_env() {
    let mut st = TracerState::new();
    st.proc_put(ProcessInfo { pid: 2, parent_pid: Some(1), argv: Vec::new(), env: Vec::new() });
    let out = st.into_output();
    assert!(out.env_accessed.is_empty());
}

#[test]
fn resolving_dot_canonicalizes_to_cwd() {
    let pid = nix::unistd::getpid().as_raw();
    let cwd = nix::unistd::getcwd().unwrap();
    let expected = cwd.into_os_string().into_string().unwrap().into_bytes();
    let r = resolve_path(pid, b".".to_vec());
    assert_eq!(r, expected);
}

#[test]
fn reads_string_from_own_memory() {
    let pid = nix::unistd::getpid().as_raw();
    let text: &'static mut Vec<u8> = Box::leak(Box::new(b"/tmp/example\0padding".to_vec()));
    let addr = text.as_ptr() as u64;
    let r = read_string_from_tracee(pid, addr);
    assert_eq!(r, Some(b"/tmp/example".to_vec()));
    assert_eq!(read_string_from_tracee(pid, 0), None);
}
