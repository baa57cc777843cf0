use tracer::engine::{apply_entry, apply_exit, apply_stop, reg_to_i32, reg_to_i64, EntryEvent};
use tracer::state::{clone_fd_table, TracerState};

fn has(paths: &Vec<Vec<u8>>, p: &[u8]) -> bool {
    paths.iter().any(|x| x.as_slice() == p)
}

fn open_file(state: &mut TracerState, pid: i32, path: &[u8], fd: i64) {
    apply_stop(
        state,
        pid,
        EntryEvent::OpenPath { path: path.to_vec(), flags: 0 },
        true,
        0,
    );
    apply_stop(state, pid, EntryEvent::Ignored, true, fd);
}

#[test]
fn open_success_records_fd_and_opened() {
    let mut st = TracerState::new();
    open_file(&mut st, 10, b"/etc/hostname", 3);
    assert!(has(&st.opened_files, b"/etc/hostname"));
    assert_eq!(st.fd_get(10, 3), Some(b"/etc/hostname".to_vec()));
    assert!(st.pend_get(10).is_none());
}

#[test]
fn open_failure_discards_pending() {
    let mut st = TracerState::new();
    apply_stop(
        &mut st,
        10,
        EntryEvent::OpenPath { path: b"/nope".to_vec(), flags: 0 },
        true,
        0,
    );
    apply_stop(&mut st, 10, EntryEvent::Ignored, true, -2);
    assert!(!has(&st.opened_files, b"/nope"));
    assert!(st.fd_get(10, 0).is_none());
    assert!(st.pend_get(10).is_none());
}

#[test]
fn read_class_records_read() {
    let mut st = TracerState::new();
    open_file(&mut st, 10, b"/etc/hostname", 3);
    apply_entry(&mut st, 10, EntryEvent::ReadFd { fd: 3 });
    assert!(has(&st.read_files, b"/etc/hostname"));
    assert!(!has(&st.written_files, b"/etc/hostname"));
}

#[test]
fn write_class_records_written() {
    let mut st = TracerState::new();
    open_file(&mut st, 10, b"/tmp/t1", 4);
    apply_entry(&mut st, 10, EntryEvent::WriteFd { fd: 4 });
    assert!(has(&st.opened_files, b"/tmp/t1"));
    assert!(has(&st.written_files, b"/tmp/t1"));
}

#[test]
fn unknown_fd_is_dropped() {
    let mut st = TracerState::new();
    apply_entry(&mut st, 10, EntryEvent::ReadFd { fd: 9 });
    apply_entry(&mut st, 10, EntryEvent::WriteFd { fd: 9 });
    assert!(st.read_files.is_empty());
    assert!(st.written_files.is_empty());
}

#[test]
fn sendfile_reads_in_writes_out() {
    let mut st = TracerState::new();
    open_file(&mut st, 7, b"/src/a", 3);
    open_file(&mut st, 7, b"/dst/b", 4);
    apply_entry(&mut st, 7, EntryEvent::Sendfile { out_fd: 4, in_fd: 3 });
    assert!(has(&st.read_files, b"/src/a"));
    assert!(has(&st.written_files, b"/dst/b"));
    assert!(!has(&st.written_files, b"/src/a"));
    assert!(!has(&st.read_files, b"/dst/b"));
}

#[test]
fn copy_file_range_reads_in_writes_out() {
    let mut st = TracerState::new();
    open_file(&mut st, 7, b"/src/a", 3);
    open_file(&mut st, 7, b"/dst/b", 4);
    apply_entry(&mut st, 7, EntryEvent::CopyRange { in_fd: 3, out_fd: 4 });
    assert!(has(&st.read_files, b"/src/a"));
    assert!(has(&st.written_files, b"/dst/b"));
    assert!(!has(&st.written_files, b"/src/a"));
}

#[test]
fn mmap_classification_table() {
    for prot in 0u64..4 {
        for flags in 0u64..4 {
            for fd in [-1i64, 5] {
                let mut st = TracerState::new();
                open_file(&mut st, 3, b"/lib/x.so", 5);
                apply_entry(&mut st, 3, EntryEvent::MmapEv { prot, flags, fd });
                let read = has(&st.read_files, b"/lib/x.so");
                let written = has(&st.written_files, b"/lib/x.so");
                if fd < 0 {
                    assert!(!read && !written);
                } else {
                    assert_eq!(read, prot & 1 != 0);
                    assert_eq!(written, flags & 1 != 0 && prot & 2 != 0);
                }
            }
        }
    }
}

#[test]
fn mmap_private_writable_not_written() {
    let mut st = TracerState::new();
    open_file(&mut st, 3, b"/data/f", 5);
    apply_entry(&mut st, 3, EntryEvent::MmapEv { prot: 3, flags: 2, fd: 5 });
    assert!(has(&st.read_files, b"/data/f"));
    assert!(!has(&st.written_files, b"/data/f"));
}

#[test]
fn rename_records_destination_only() {
    let mut st = TracerState::new();
    apply_entry(&mut st, 3, EntryEvent::RenameDest { path: b"/tmp/b".to_vec() });
    assert!(has(&st.written_files, b"/tmp/b"));
    assert!(!has(&st.written_files, b"/tmp/a"));
    assert!(!has(&st.read_files, b"/tmp/b"));
}

#[test]
fn in_syscall_flag_toggles_and_pairs() {
    let mut st = TracerState::new();
    assert!(!st.insys_get(9));
    apply_stop(&mut st, 9, EntryEvent::Ignored, false, 0);
    assert!(st.insys_get(9));
    apply_stop(&mut st, 9, EntryEvent::Ignored, false, 0);
    assert!(!st.insys_get(9));
    assert!(!st.insys_get(10));
}

#[test]
fn fork_inherits_parent_rows() {
    let mut st = TracerState::new();
    open_file(&mut st, 1, b"/a", 3);
    open_file(&mut st, 1, b"/b", 5);
    open_file(&mut st, 2, b"/c", 9);
    clone_fd_table(1, 7, &mut st);
    assert_eq!(st.fd_get(7, 3), Some(b"/a".to_vec()));
    assert_eq!(st.fd_get(7, 5), Some(b"/b".to_vec()));
    assert!(st.fd_get(7, 9).is_none());
    assert_eq!(st.fd_get(2, 9), Some(b"/c".to_vec()));
    assert_eq!(st.fd_get(1, 3), Some(b"/a".to_vec()));
}

#[test]
fn fd_table_paths_stay_absolute() {
    let mut st = TracerState::new();
    open_file(&mut st, 1, b"/x/y", 3);
    open_file(&mut st, 1, b"/z", 4);
    clone_fd_table(1, 2, &mut st);
    apply_entry(&mut st, 2, EntryEvent::ReadFd { fd: 3 });
    for e in &st.fd_table {
        assert_eq!(e.path[0], b'/');
    }
}

#[test]
fn observed_sets_are_monotonic() {
    let mut st = TracerState::new();
    open_file(&mut st, 1, b"/first", 3);
    apply_entry(&mut st, 1, EntryEvent::ReadFd { fd: 3 });
    apply_entry(&mut st, 1, EntryEvent::WriteFd { fd: 3 });
    open_file(&mut st, 1, b"/second", 4);
    apply_entry(&mut st, 1, EntryEvent::ReadFd { fd: 4 });
    apply_entry(&mut st, 1, EntryEvent::RenameDest { path: b"/third".to_vec() });
    clone_fd_table(1, 2, &mut st);
    apply_stop(&mut st, 2, EntryEvent::Ignored, false, 0);
    assert!(has(&st.opened_files, b"/first"));
    assert!(has(&st.read_files, b"/first"));
    assert!(has(&st.written_files, b"/first"));
    assert!(has(&st.opened_files, b"/second"));
    assert!(has(&st.read_files, b"/second"));
    assert!(has(&st.written_files, b"/third"));
}

#[test]
fn duplicate_paths_are_not_repeated() {
    let mut st = TracerState::new();
    open_file(&mut st, 1, b"/same", 3);
    open_file(&mut st, 1, b"/same", 4);
    apply_entry(&mut st, 1, EntryEvent::ReadFd { fd: 3 });
    apply_entry(&mut st, 1, EntryEvent::ReadFd { fd: 4 });
    assert_eq!(st.opened_files.iter().filter(|p| p.as_slice() == b"/same").count(), 1);
    assert_eq!(st.read_files.iter().filter(|p| p.as_slice() == b"/same").count(), 1);
}

#[test]
fn open_exit_without_entry_is_ignored() {
    let mut st = TracerState::new();
    apply_exit(&mut st, 4, true, 3);
    assert!(st.opened_files.is_empty());
    assert!(st.fd_get(4, 3).is_none());
}

#[test]
fn fd_reuse_overwrites_stale_entry() {
    let mut st = TracerState::new();
    open_file(&mut st, 1, b"/old", 3);
    open_file(&mut st, 1, b"/new", 3);
    assert_eq!(st.fd_get(1, 3), Some(b"/new".to_vec()));
}

#[test]
fn register_casts_are_signed() {
    assert_eq!(reg_to_i32(5), 5);
    assert_eq!(reg_to_i32(0xffff_ffff_ffff_ffff), -1);
    assert_eq!(reg_to_i32(0x1_0000_0005), 5);
    assert_eq!(reg_to_i64(7), 7);
    assert_eq!(reg_to_i64(0xffff_ffff_ffff_fffe), -2);
}
