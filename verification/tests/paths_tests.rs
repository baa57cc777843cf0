use tracer::paths::{resolve_with_cwd, starts_with_slash};
use tracer::state::{bytes_eq, copy_bytes, vec_set_contains};

#[test]
fn absolute_paths_are_verbatim() {
    let r = resolve_with_cwd(b"/etc/hostname".to_vec(), Some(b"/home/u".to_vec()));
    assert_eq!(r, b"/etc/hostname".to_vec());
}

#[test]
fn relative_paths_join_with_cwd() {
    let r = resolve_with_cwd(b"notes.txt".to_vec(), Some(b"/home/u".to_vec()));
    assert_eq!(r, b"/home/u/notes.txt".to_vec());
}

#[test]
fn root_cwd_adds_no_double_slash() {
    let r = resolve_with_cwd(b"etc".to_vec(), Some(b"/".to_vec()));
    assert_eq!(r, b"/etc".to_vec());
}

#[test]
fn missing_cwd_leaves_path_unchanged() {
    let r = resolve_with_cwd(b"rel/x".to_vec(), None);
    assert_eq!(r, b"rel/x".to_vec());
}

#[test]
fn non_absolute_cwd_leaves_path_unchanged() {
    let r = resolve_with_cwd(b"rel".to_vec(), Some(b"strange".to_vec()));
    assert_eq!(r, b"rel".to_vec());
}

#[test]
fn slash_detection() {
    assert!(starts_with_slash(&b"/a".to_vec()));
    assert!(!starts_with_slash(&b"a/".to_vec()));
    assert!(!starts_with_slash(&Vec::new()));
}

#[test]
fn byte_helpers_behave_as_sets() {
    assert!(bytes_eq(&b"abc".to_vec(), &b"abc".to_vec()));
    assert!(!bytes_eq(&b"abc".to_vec(), &b"abd".to_vec()));
    assert_eq!(copy_bytes(&b"xy".to_vec()), b"xy".to_vec());
    let s = vec![b"/a".to_vec(), b"/b".to_vec()];
    assert!(vec_set_contains(&s, &b"/a".to_vec()));
    assert!(!vec_set_contains(&s, &b"/c".to_vec()));
}
