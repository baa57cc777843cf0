//! Path resolution: a possibly-relative path is made absolute against a
//! process working directory, byte-for-byte as specified by `resolved`.

use vstd::prelude::*;
use crate::model::is_abs;
use crate::state::copy_bytes;

verus! {

/// A working directory joined with a relative path: a `/` separator is
/// put between them unless the directory already ends with one.
pub open spec fn joined(cwd: Seq<u8>, rel: Seq<u8>) -> Seq<u8> {
    if cwd.len() > 0 && cwd.last() == 47u8 {
        cwd + rel
    } else {
        cwd + seq![47u8] + rel
    }
}

/// The resolution of a path against an optional working directory: an
/// absolute path is returned verbatim; a relative one is joined with the
/// working directory when one is known and absolute; otherwise the path
/// is returned unchanged.
pub open spec fn resolved(path: Seq<u8>, cwd: Option<Seq<u8>>) -> Seq<u8> {
    if is_abs(path) {
        path
    } else {
        match cwd {
            Some(c) => if is_abs(c) {
                joined(c, path)
            } else {
                path
            },
            None => path,
        }
    }
}

/// How a resolved path may relate to the raw path it came from: it is
/// the plain resolution against some reading of the working directory,
/// or — when the raw path was relative and the joined path could be
/// canonicalized — an absolute path the filesystem supplied, pinned
/// only to its absoluteness, since the canonical form depends on the
/// filesystem.
pub open spec fn resolution_of(raw: Seq<u8>, r: Seq<u8>) -> bool {
    ||| exists|c: Option<Seq<u8>>| r == resolved(raw, c)
    ||| (!is_abs(raw) && is_abs(r))
}

/// Whether the bytes form an absolute path.
pub fn starts_with_slash(v: &Vec<u8>) -> (r: bool)
    ensures
        r == is_abs(v@),
{
    v.len() > 0 && v[0] == 47
}

/// Append one byte vector to another.
pub fn append_bytes(a: &mut Vec<u8>, b: &Vec<u8>)
    ensures
        final(a)@ == old(a)@ + b@,
{
    let n = b.len();
    let mut i: usize = 0;
    while i < n
        invariant
            n == b.len(),
            i <= n,
            a@ =~= old(a)@ + b@.take(i as int),
        decreases n - i,
    {
        a.push(b[i]);
        assert(a@ =~= old(a)@ + b@.take(i as int + 1));
        i = i + 1;
    }
    assert(a@ =~= old(a)@ + b@);
}

/// Resolve a path against an optional working directory, exactly as
/// `resolved` describes.
pub fn resolve_with_cwd(path: Vec<u8>, cwd: Option<Vec<u8>>) -> (r: Vec<u8>)
    ensures
        r@ == resolved(path@, match cwd {
            Some(c) => Some(c@),
            None => None,
        }),
{
    if starts_with_slash(&path) {
        return path;
    }
    match cwd {
        Some(c) => {
            if starts_with_slash(&c) {
                let mut out = copy_bytes(&c);
                if c[c.len() - 1] != 47 {
                    out.push(47);
                    assert(out@ =~= c@ + seq![47u8]);
                }
                append_bytes(&mut out, &path);
                assert(c@.last() != 47u8 ==> out@ =~= c@ + seq![47u8] + path@);
                out
            } else {
                path
            }
        },
        None => path,
    }
}

/// Resolution never turns an absolute path into anything else, and an
/// absolute working directory makes every resolution absolute.
pub proof fn lemma_resolved_abs(path: Seq<u8>, cwd: Option<Seq<u8>>)
    ensures
        is_abs(path) ==> resolved(path, cwd) == path,
        (cwd matches Some(c) && is_abs(c)) ==> is_abs(resolved(path, cwd)),
{
    if !is_abs(path) && cwd is Some && is_abs(cwd.unwrap()) {
        let c = cwd.unwrap();
        if c.len() > 0 && c.last() == 47u8 {
            assert(joined(c, path)[0] == c[0]);
        } else {
            assert(joined(c, path)[0] == c[0]);
        }
    }
}

} // verus!
