use tracer::parse::{chunk_env_pair, parse_argv, parse_env, sub_bytes};

#[test]
fn argv_splits_on_zero_bytes() {
    let v = parse_argv(&b"ls\0-l\0/tmp\0".to_vec());
    assert_eq!(v.len(), 3);
    assert_eq!(v[0], b"ls".to_vec());
    assert_eq!(v[1], b"-l".to_vec());
    assert_eq!(v[2], b"/tmp".to_vec());
}

#[test]
fn argv_drops_empty_segments() {
    let v = parse_argv(&b"\0a\0\0b".to_vec());
    assert_eq!(v.len(), 2);
    assert_eq!(v[0], b"a".to_vec());
    assert_eq!(v[1], b"b".to_vec());
}

#[test]
fn argv_of_empty_block_is_empty() {
    let v = parse_argv(&Vec::new());
    assert!(v.is_empty());
}

#[test]
fn env_splits_at_first_equals() {
    let v = parse_env(&b"PATH=/bin:/usr/bin\0X=a=b\0".to_vec());
    assert_eq!(v.len(), 2);
    assert_eq!(v[0].name, b"PATH".to_vec());
    assert_eq!(v[0].value, b"/bin:/usr/bin".to_vec());
    assert_eq!(v[1].name, b"X".to_vec());
    assert_eq!(v[1].value, b"a=b".to_vec());
}

#[test]
fn env_drops_bad_entries() {
    let v = parse_env(&b"=x\0NOEQ\0OK=1\0\0".to_vec());
    assert_eq!(v.len(), 1);
    assert_eq!(v[0].name, b"OK".to_vec());
    assert_eq!(v[0].value, b"1".to_vec());
}

#[test]
fn env_value_may_be_empty() {
    let v = parse_env(&b"EMPTY=\0".to_vec());
    assert_eq!(v.len(), 1);
    assert_eq!(v[0].name, b"EMPTY".to_vec());
    assert_eq!(v[0].value, Vec::<u8>::new());
}

#[test]
fn chunk_without_equals_is_none() {
    assert!(chunk_env_pair(&b"JUSTAWORD".to_vec()).is_none());
    assert!(chunk_env_pair(&b"=v".to_vec()).is_none());
    let p = chunk_env_pair(&b"k=v".to_vec()).unwrap();
    assert_eq!(p.name, b"k".to_vec());
    assert_eq!(p.value, b"v".to_vec());
}

#[test]
fn sub_bytes_takes_a_range() {
    let v = b"abcdef".to_vec();
    assert_eq!(sub_bytes(&v, 1, 4), b"bcd".to_vec());
    assert_eq!(sub_bytes(&v, 0, 0), Vec::<u8>::new());
}
