//! Parsing of the zero-separated argv and environment blocks the
//! operating system exposes for each process: argv is the sequence of
//! non-empty zero-separated chunks; the environment keeps, of each
//! chunk, the part before the first `=` as the name (discarded when
//! empty or when no `=` occurs) and the part after it as the value.

use vstd::prelude::*;
use crate::state::EnvPair;

verus! {

/// The non-empty zero-separated chunks of `s`, with `cur` the chunk
/// accumulated so far.
pub open spec fn argv_chunks(s: Seq<u8>, cur: Seq<u8>) -> Seq<Seq<u8>>
    decreases s.len(),
{
    if s.len() == 0 {
        if cur.len() > 0 {
            seq![cur]
        } else {
            Seq::empty()
        }
    } else if s[0] == 0u8 {
        (if cur.len() > 0 {
            seq![cur]
        } else {
            Seq::empty()
        }) + argv_chunks(s.drop_first(), Seq::empty())
    } else {
        argv_chunks(s.drop_first(), cur.push(s[0]))
    }
}

/// The name=value split of one chunk, with `key` the name accumulated so
/// far: the part before the first `=` is the name, the rest the value;
/// no `=`, or an empty name, yields nothing.
pub open spec fn env_pair_from(c: Seq<u8>, key: Seq<u8>) -> Option<(Seq<u8>, Seq<u8>)>
    decreases c.len(),
{
    if c.len() == 0 {
        None
    } else if c[0] == 61u8 {
        if key.len() > 0 {
            Some((key, c.drop_first()))
        } else {
            None
        }
    } else {
        env_pair_from(c.drop_first(), key.push(c[0]))
    }
}

/// The environment pairs of a sequence of chunks, in order.
pub open spec fn env_pairs(chunks: Seq<Seq<u8>>) -> Seq<(Seq<u8>, Seq<u8>)>
    decreases chunks.len(),
{
    if chunks.len() == 0 {
        Seq::empty()
    } else {
        (match env_pair_from(chunks[0], Seq::empty()) {
            Some(p) => seq![p],
            None => Seq::empty(),
        }) + env_pairs(chunks.drop_first())
    }
}

/// The bytes of `v` from `a` (inclusive) to `b` (exclusive).
pub fn sub_bytes(v: &Vec<u8>, a: usize, b: usize) -> (r: Vec<u8>)
    requires
        a <= b <= v@.len(),
    ensures
        r@ == v@.subrange(a as int, b as int),
{
    let mut out: Vec<u8> = Vec::new();
    let mut i: usize = a;
    while i < b
        invariant
            a <= i <= b <= v@.len(),
            out@ =~= v@.subrange(a as int, i as int),
        decreases b - i,
    {
        out.push(v[i]);
        assert(out@ =~= v@.subrange(a as int, i as int + 1));
        i = i + 1;
    }
    out
}

/// Split a zero-separated block into its non-empty chunks.
pub fn parse_argv(s: &Vec<u8>) -> (r: Vec<Vec<u8>>)
    ensures
        r.deep_view() == argv_chunks(s@, Seq::empty()),
{
    let n = s.len();
    let mut out: Vec<Vec<u8>> = Vec::new();
    let mut cur: Vec<u8> = Vec::new();
    let mut i: usize = 0;
    assert(s@.skip(0) =~= s@);
    while i < n
        invariant
            n == s.len(),
            i <= n,
            argv_chunks(s@, Seq::empty()) == out.deep_view() + argv_chunks(
                s@.skip(i as int),
                cur@,
            ),
        decreases n - i,
    {
        assert(s@.skip(i as int)[0] == s@[i as int]);
        assert(s@.skip(i as int).drop_first() =~= s@.skip(i as int + 1));
        let ghost rest = argv_chunks(s@.skip(i as int + 1), Seq::empty());
        if s[i] == 0 {
            assert(s@.skip(i as int)[0] == 0u8);
            if cur.len() > 0 {
                let ghost pre = out.deep_view();
                let ghost curv = cur@;
                assert(argv_chunks(s@.skip(i as int), curv) == seq![curv] + rest);
                let done = cur;
                cur = Vec::new();
                out.push(done);
                assert(out.deep_view() =~~= pre.push(curv));
                assert(pre + (seq![curv] + rest) =~= pre.push(curv) + rest);
            } else {
                assert(argv_chunks(s@.skip(i as int), cur@) == Seq::<Seq<u8>>::empty() + rest);
                assert(out.deep_view() + (Seq::<Seq<u8>>::empty() + rest) =~= out.deep_view()
                    + rest);
            }
            assert(cur@ =~= Seq::<u8>::empty());
            assert(argv_chunks(s@, Seq::empty()) == out.deep_view() + argv_chunks(
                s@.skip(i as int + 1),
                cur@,
            ));
        } else {
            let ghost curv = cur@;
            assert(argv_chunks(s@.skip(i as int), curv) == argv_chunks(
                s@.skip(i as int + 1),
                curv.push(s@[i as int]),
            ));
            cur.push(s[i]);
            assert(argv_chunks(s@, Seq::empty()) == out.deep_view() + argv_chunks(
                s@.skip(i as int + 1),
                cur@,
            ));
        }
        i = i + 1;
    }
    assert(s@.skip(n as int) =~= Seq::<u8>::empty());
    if cur.len() > 0 {
        let ghost pre = out.deep_view();
        let ghost curv = cur@;
        out.push(cur);
        assert(out.deep_view() =~~= pre.push(curv));
        assert(pre + seq![curv] =~= pre.push(curv));
    } else {
        assert(out.deep_view() + Seq::<Seq<u8>>::empty() =~= out.deep_view());
    }
    out
}

/// The name=value split of one chunk.
pub fn chunk_env_pair(c: &Vec<u8>) -> (r: Option<EnvPair>)
    ensures
        match r {
            Some(e) => env_pair_from(c@, Seq::empty()) == Some(e@),
            None => env_pair_from(c@, Seq::empty()) is None,
        },
{
    let n = c.len();
    let mut i: usize = 0;
    assert(c@.skip(0) =~= c@);
    assert(c@.take(0) =~= Seq::<u8>::empty());
    while i < n
        invariant
            n == c.len(),
            i <= n,
            env_pair_from(c@, Seq::empty()) == env_pair_from(c@.skip(i as int), c@.take(i as int)),
        decreases n - i,
    {
        assert(c@.skip(i as int)[0] == c@[i as int]);
        assert(c@.skip(i as int).drop_first() =~= c@.skip(i as int + 1));
        assert(c@.take(i as int).push(c@[i as int]) =~= c@.take(i as int + 1));
        if c[i] == 61 {
            if i > 0 {
                let name = sub_bytes(c, 0, i);
                let value = sub_bytes(c, i + 1, n);
                assert(name@ =~= c@.take(i as int));
                assert(value@ =~= c@.skip(i as int).drop_first());
                return Some(EnvPair { name, value });
            } else {
                return None;
            }
        }
        i = i + 1;
    }
    assert(c@.skip(n as int) =~= Seq::<u8>::empty());
    None
}

/// Parse a zero-separated environment block into its name=value pairs.
pub fn parse_env(s: &Vec<u8>) -> (r: Vec<EnvPair>)
    ensures
        r@.map_values(|e: EnvPair| e@) == env_pairs(argv_chunks(s@, Seq::empty())),
{
    let chunks = parse_argv(s);
    let ghost ch = chunks.deep_view();
    let n = chunks.len();
    let mut out: Vec<EnvPair> = Vec::new();
    let mut j: usize = 0;
    assert(ch.skip(0) =~= ch);
    while j < n
        invariant
            n == chunks.len(),
            j <= n,
            ch == chunks.deep_view(),
            env_pairs(ch) == out@.map_values(|e: EnvPair| e@) + env_pairs(ch.skip(j as int)),
        decreases n - j,
    {
        assert(ch.skip(j as int)[0] == ch[j as int]);
        assert(ch.skip(j as int).drop_first() =~= ch.skip(j as int + 1));
        assert(chunks@[j as int].deep_view() == ch[j as int]);
        assert(chunks@[j as int].deep_view() =~= chunks@[j as int]@);
        match chunk_env_pair(&chunks[j]) {
            Some(e) => {
                let ghost pre = out@.map_values(|q: EnvPair| q@);
                let ghost ev = e@;
                out.push(e);
                assert(out@.map_values(|q: EnvPair| q@) =~= pre.push(ev));
                assert(pre + (seq![ev] + env_pairs(ch.skip(j as int + 1))) =~= pre.push(ev)
                    + env_pairs(ch.skip(j as int + 1)));
            },
            None => {
                assert(out@.map_values(|q: EnvPair| q@) + (Seq::<(Seq<u8>, Seq<u8>)>::empty()
                    + env_pairs(ch.skip(j as int + 1))) =~= out@.map_values(|q: EnvPair| q@)
                    + env_pairs(ch.skip(j as int + 1)));
            },
        }
        j = j + 1;
    }
    assert(ch.skip(n as int) =~= Seq::<Seq<u8>>::empty());
    assert(out@.map_values(|e: EnvPair| e@) + Seq::<(Seq<u8>, Seq<u8>)>::empty() =~= out@.map_values(
        |e: EnvPair| e@,
    ));
    out
}

} // verus!
