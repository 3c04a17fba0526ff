//! `check_trace`: given a parsed `Effect` stream and a canary byte string
//! known to come from a user-supplied file, checks that the canary never
//! appears in an opened path, in an exec's path, argv or env, and that no
//! network connection happens at all. Tainted writes are permitted only
//! on descriptors 3 and 5.
use crate::trace_check::strace_parse::{Effect, SpecEffect};
use vstd::prelude::*;
use vstd::slice::slice_to_vec;

verus! {

/// Descriptors to which a tainted byte may legally flow.
pub const ALLOWED_TAINTED_WRITE_FDS: [i32; 2] = [3, 5];

/// Why a trace breaks the IO boundary.
#[derive(Debug)]
pub enum InvariantError {
    TaintedOpen(Vec<u8>),
    TaintedExec(Vec<u8>),
    Net { host: String, port: u16 },
    UnauthorizedWrite(i32),
}

/// The mathematical value of an `InvariantError`.
pub enum SpecInvariantError {
    TaintedOpen(Seq<u8>),
    TaintedExec(Seq<u8>),
    Net { host: Seq<char>, port: u16 },
    UnauthorizedWrite(i32),
}

impl DeepView for InvariantError {
    type V = SpecInvariantError;

    open spec fn deep_view(&self) -> SpecInvariantError {
        match self {
            InvariantError::TaintedOpen(p) => SpecInvariantError::TaintedOpen(p@),
            InvariantError::TaintedExec(p) => SpecInvariantError::TaintedExec(p@),
            InvariantError::Net { host, port } => SpecInvariantError::Net {
                host: host@,
                port: *port,
            },
            InvariantError::UnauthorizedWrite(fd) => SpecInvariantError::UnauthorizedWrite(*fd),
        }
    }
}

/// `needle` is non-empty and occurs contiguously in `haystack`.
pub open spec fn contains_sub(haystack: Seq<u8>, needle: Seq<u8>) -> bool {
    &&& needle.len() > 0
    &&& exists|i: int|
        0 <= i && i + needle.len() <= haystack.len() && #[trigger] haystack.subrange(
            i,
            i + needle.len(),
        ) == needle
}

/// The first of `items` that holds the canary `c`.
pub open spec fn first_tainted(items: Seq<Seq<u8>>, c: Seq<u8>) -> Option<Seq<u8>>
    decreases items.len(),
{
    if items.len() == 0 {
        None
    } else {
        match first_tainted(items.drop_last(), c) {
            Some(x) => Some(x),
            None => if contains_sub(items.last(), c) {
                Some(items.last())
            } else {
                None
            },
        }
    }
}

/// An environment as the sequence `k0, v0, k1, v1, ...`.
pub open spec fn flatten_env(env: Seq<(Seq<u8>, Seq<u8>)>) -> Seq<Seq<u8>>
    decreases env.len(),
{
    if env.len() == 0 {
        seq![]
    } else {
        flatten_env(env.drop_last()) + seq![env.last().0, env.last().1]
    }
}

/// The first tainted element of an exec: its path, then its arguments, then
/// each environment key and value in turn.
pub open spec fn exec_violation(
    path: Seq<u8>,
    args: Seq<Seq<u8>>,
    env: Seq<(Seq<u8>, Seq<u8>)>,
    c: Seq<u8>,
) -> Option<Seq<u8>> {
    if contains_sub(path, c) {
        Some(path)
    } else {
        match first_tainted(args, c) {
            Some(a) => Some(a),
            None => first_tainted(flatten_env(env), c),
        }
    }
}

/// How one effect breaks the IO boundary for canary `c`, if it does.
pub open spec fn violation(e: SpecEffect, c: Seq<u8>) -> Option<SpecInvariantError> {
    match e {
        SpecEffect::OpenP { path } => if contains_sub(path, c) {
            Some(SpecInvariantError::TaintedOpen(path))
        } else {
            None
        },
        SpecEffect::ExecP { path, args, env } => match exec_violation(path, args, env, c) {
            Some(x) => Some(SpecInvariantError::TaintedExec(x)),
            None => None,
        },
        SpecEffect::NetConn { host, port } => Some(SpecInvariantError::Net { host, port }),
        SpecEffect::WriteF { fd, bytes } => if contains_sub(bytes, c)
            && !ALLOWED_TAINTED_WRITE_FDS@.contains(fd) {
            Some(SpecInvariantError::UnauthorizedWrite(fd))
        } else {
            None
        },
        SpecEffect::ReadF { .. } => None,
    }
}

/// The verdict on a trace: the violation of its first offending effect.
pub open spec fn check_trace_spec(effects: Seq<SpecEffect>, c: Seq<u8>) -> Result<
    (),
    SpecInvariantError,
>
    decreases effects.len(),
{
    if effects.len() == 0 {
        Ok(())
    } else {
        match check_trace_spec(effects.drop_last(), c) {
            Err(e) => Err(e),
            Ok(()) => match violation(effects.last(), c) {
                Some(e) => Err(e),
                None => Ok(()),
            },
        }
    }
}

/// `first_tainted` of a concatenation looks in the first part first.
pub proof fn lemma_first_tainted_concat(a: Seq<Seq<u8>>, b: Seq<Seq<u8>>, c: Seq<u8>)
    ensures
        first_tainted(a + b, c) == (match first_tainted(a, c) {
            Some(x) => Some(x),
            None => first_tainted(b, c),
        }),
    decreases b.len(),
{
    if b.len() == 0 {
        assert(a + b =~= a);
    } else {
        lemma_first_tainted_concat(a, b.drop_last(), c);
        assert((a + b).drop_last() =~= a + b.drop_last());
        assert((a + b).last() == b.last());
    }
}

/// Once a prefix of a trace is refused, the whole trace is refused the same way.
pub proof fn lemma_check_trace_prefix(effects: Seq<SpecEffect>, c: Seq<u8>, k: int)
    requires
        0 <= k <= effects.len(),
        check_trace_spec(effects.take(k), c) is Err,
    ensures
        check_trace_spec(effects, c) == check_trace_spec(effects.take(k), c),
    decreases effects.len(),
{
    if k == effects.len() {
        assert(effects.take(k) =~= effects);
    } else {
        assert(effects.drop_last().take(k) =~= effects.take(k));
        lemma_check_trace_prefix(effects.drop_last(), c, k);
    }
}

/// A trace is accepted exactly when none of its effects breaks the IO boundary.
pub proof fn lemma_check_trace_ok_iff(effects: Seq<SpecEffect>, c: Seq<u8>)
    ensures
        check_trace_spec(effects, c) is Ok <==> forall|i: int|
            0 <= i < effects.len() ==> violation(#[trigger] effects[i], c) is None,
    decreases effects.len(),
{
    if effects.len() > 0 {
        lemma_check_trace_ok_iff(effects.drop_last(), c);
        if check_trace_spec(effects, c) is Ok {
            assert forall|i: int| 0 <= i < effects.len() implies violation(
                #[trigger] effects[i],
                c,
            ) is None by {
                if i < effects.len() - 1 {
                    assert(effects[i] == effects.drop_last()[i]);
                }
            }
        } else {
            if check_trace_spec(effects.drop_last(), c) is Err {
                let i = choose|i: int|
                    0 <= i < effects.drop_last().len() && !(violation(
                        #[trigger] effects.drop_last()[i],
                        c,
                    ) is None);
                assert(effects[i] == effects.drop_last()[i]);
            } else {
                assert(violation(effects[effects.len() - 1], c) is Some);
            }
        }
    }
}

/// An item that holds the canary makes the search find a tainted item.
proof fn lemma_first_tainted_finds(items: Seq<Seq<u8>>, c: Seq<u8>, j: int)
    requires
        0 <= j < items.len(),
        contains_sub(items[j], c),
    ensures
        first_tainted(items, c) matches Some(x) && contains_sub(x, c),
    decreases items.len(),
{
    lemma_first_tainted_holds(items.drop_last(), c);
    if j < items.len() - 1 {
        assert(items.drop_last()[j] == items[j]);
        lemma_first_tainted_finds(items.drop_last(), c, j);
    }
}

proof fn lemma_first_tainted_holds(items: Seq<Seq<u8>>, c: Seq<u8>)
    ensures
        first_tainted(items, c) matches Some(x) ==> contains_sub(x, c),
    decreases items.len(),
{
    if items.len() > 0 {
        lemma_first_tainted_holds(items.drop_last(), c);
    }
}

/// The verdict on a trace whose first `k` effects pass is decided by the
/// effect at `k`: an open or exec whose path holds the (non-empty) canary
/// at some offset is refused with that path; an exec whose path is clean but
/// one of whose arguments holds the canary is refused with an item that
/// holds it; any network connection is refused with its host and port; a
/// write holding the canary to a descriptor other than 3 and 5 is refused
/// with that descriptor; a read passes.
pub proof fn lemma_first_offence(effects: Seq<SpecEffect>, c: Seq<u8>, k: int)
    requires
        0 <= k < effects.len(),
        check_trace_spec(effects.take(k), c) is Ok,
    ensures
        effects[k] matches SpecEffect::OpenP { path } ==> (forall|i: int|
            #![trigger path.subrange(i, i + c.len())]
            c.len() > 0 && 0 <= i && i + c.len() <= path.len() && path.subrange(i, i + c.len()) == c
                ==> check_trace_spec(effects, c) == Err::<(), SpecInvariantError>(
                SpecInvariantError::TaintedOpen(path),
            )),
        effects[k] matches SpecEffect::ExecP { path, .. } ==> (forall|i: int|
            #![trigger path.subrange(i, i + c.len())]
            c.len() > 0 && 0 <= i && i + c.len() <= path.len() && path.subrange(i, i + c.len()) == c
                ==> check_trace_spec(effects, c) == Err::<(), SpecInvariantError>(
                SpecInvariantError::TaintedExec(path),
            )),
        effects[k] matches SpecEffect::ExecP { path, args, .. } ==> (forall|j: int|
            0 <= j < args.len() && contains_sub(#[trigger] args[j], c) ==> (check_trace_spec(
                effects,
                c,
            ) matches Err(SpecInvariantError::TaintedExec(x)) && contains_sub(x, c))),
        effects[k] matches SpecEffect::NetConn { host, port } ==> check_trace_spec(effects, c)
            == Err::<(), SpecInvariantError>(SpecInvariantError::Net { host, port }),
        effects[k] matches SpecEffect::WriteF { fd, bytes } ==> (contains_sub(bytes, c) && fd != 3
            && fd != 5 ==> check_trace_spec(effects, c) == Err::<(), SpecInvariantError>(
            SpecInvariantError::UnauthorizedWrite(fd),
        )),
        effects[k] matches SpecEffect::ReadF { .. } ==> check_trace_spec(effects.take(k + 1), c)
            is Ok,
{
    let t = effects.take(k + 1);
    assert(t.drop_last() =~= effects.take(k));
    assert(t.last() == effects[k]);
    assert(ALLOWED_TAINTED_WRITE_FDS@ =~= seq![3i32, 5i32]);
    if check_trace_spec(t, c) is Err {
        lemma_check_trace_prefix(effects, c, k + 1);
    }
    match effects[k] {
        SpecEffect::ExecP { path, args, env } => {
            assert forall|j: int|
                0 <= j < args.len() && contains_sub(#[trigger] args[j], c) implies (check_trace_spec(
                effects,
                c,
            ) matches Err(SpecInvariantError::TaintedExec(x)) && contains_sub(x, c)) by {
                lemma_first_tainted_finds(args, c, j);
            }
        },
        _ => {},
    }
}

proof fn lemma_first_tainted_none(items: Seq<Seq<u8>>, c: Seq<u8>)
    requires
        forall|j: int| 0 <= j < items.len() ==> !contains_sub(#[trigger] items[j], c),
    ensures
        first_tainted(items, c) is None,
    decreases items.len(),
{
    if items.len() > 0 {
        assert forall|j: int| 0 <= j < items.drop_last().len() implies !contains_sub(
            #[trigger] items.drop_last()[j],
            c,
        ) by {
            assert(items.drop_last()[j] == items[j]);
        }
        lemma_first_tainted_none(items.drop_last(), c);
        assert(items.last() == items[items.len() - 1]);
    }
}

proof fn lemma_flatten_env_index(env: Seq<(Seq<u8>, Seq<u8>)>)
    ensures
        flatten_env(env).len() == 2 * env.len(),
        forall|j: int|
            0 <= j < env.len() ==> flatten_env(env)[2 * j] == (#[trigger] env[j]).0 && flatten_env(
                env,
            )[2 * j + 1] == env[j].1,
    decreases env.len(),
{
    if env.len() > 0 {
        lemma_flatten_env_index(env.drop_last());
        assert forall|j: int| 0 <= j < env.len() implies flatten_env(env)[2 * j] == (
        #[trigger] env[j]).0 && flatten_env(env)[2 * j + 1] == env[j].1 by {
            if j < env.len() - 1 {
                assert(env.drop_last()[j] == env[j]);
            }
        }
    }
}

/// An exec whose environment holds the canary in a key or a value is
/// refused, with an item that holds it, once the effects before it pass.
pub proof fn lemma_tainted_env_refused(effects: Seq<SpecEffect>, c: Seq<u8>, k: int, j: int)
    requires
        0 <= k < effects.len(),
        check_trace_spec(effects.take(k), c) is Ok,
        effects[k] matches SpecEffect::ExecP { env, .. } && 0 <= j < env.len() && (contains_sub(
            env[j].0,
            c,
        ) || contains_sub(env[j].1, c)),
    ensures
        check_trace_spec(effects, c) matches Err(SpecInvariantError::TaintedExec(x)) && contains_sub(
            x,
            c,
        ),
{
    let t = effects.take(k + 1);
    assert(t.drop_last() =~= effects.take(k));
    assert(t.last() == effects[k]);
    if let SpecEffect::ExecP { path, args, env } = effects[k] {
        lemma_flatten_env_index(env);
        let fe = flatten_env(env);
        if contains_sub(env[j].0, c) {
            lemma_first_tainted_finds(fe, c, 2 * j);
        } else {
            lemma_first_tainted_finds(fe, c, 2 * j + 1);
        }
        lemma_first_tainted_holds(args, c);
        lemma_check_trace_prefix(effects, c, k + 1);
    }
}

/// An effect that does not carry the canary where it matters passes, once
/// the effects before it pass: an open or an exec whose path, arguments and
/// environment keys and values all lack the canary, a write of bytes
/// without the canary or to descriptor 3 or 5, and any read.
pub proof fn lemma_clean_effect_passes(effects: Seq<SpecEffect>, c: Seq<u8>, k: int)
    requires
        0 <= k < effects.len(),
        check_trace_spec(effects.take(k), c) is Ok,
    ensures
        effects[k] matches SpecEffect::OpenP { path } ==> (!contains_sub(path, c) ==> check_trace_spec(
            effects.take(k + 1),
            c,
        ) is Ok),
        effects[k] matches SpecEffect::ExecP { path, args, env } ==> (!contains_sub(path, c) && (
        forall|j: int| 0 <= j < args.len() ==> !contains_sub(#[trigger] args[j], c)) && (forall|j: int|
            0 <= j < env.len() ==> !contains_sub((#[trigger] env[j]).0, c) && !contains_sub(env[j].1, c))
            ==> check_trace_spec(effects.take(k + 1), c) is Ok),
        effects[k] matches SpecEffect::WriteF { fd, bytes } ==> (!contains_sub(bytes, c) || fd == 3
            || fd == 5 ==> check_trace_spec(effects.take(k + 1), c) is Ok),
        effects[k] matches SpecEffect::ReadF { .. } ==> check_trace_spec(effects.take(k + 1), c)
            is Ok,
{
    let t = effects.take(k + 1);
    assert(t.drop_last() =~= effects.take(k));
    assert(t.last() == effects[k]);
    assert(ALLOWED_TAINTED_WRITE_FDS@ =~= seq![3i32, 5i32]);
    if let SpecEffect::ExecP { path, args, env } = effects[k] {
        if !contains_sub(path, c) && (forall|j: int|
            0 <= j < args.len() ==> !contains_sub(#[trigger] args[j], c)) && (forall|j: int|
            0 <= j < env.len() ==> !contains_sub((#[trigger] env[j]).0, c) && !contains_sub(
                env[j].1,
                c,
            )) {
            lemma_first_tainted_none(args, c);
            lemma_flatten_env_index(env);
            let fe = flatten_env(env);
            assert forall|i: int| 0 <= i < fe.len() implies !contains_sub(#[trigger] fe[i], c) by {
                let j = i / 2;
                assert(0 <= j < env.len());
                assert(env[j] == env[j]);
                if i % 2 == 0 {
                    assert(i == 2 * j);
                } else {
                    assert(i == 2 * j + 1);
                }
            }
            lemma_first_tainted_none(fe, c);
        }
    }
}

/// Whether `needle` is non-empty and occurs contiguously in `haystack`.
pub fn contains_subsequence(haystack: &[u8], needle: &[u8]) -> (r: bool)
    ensures
        r == contains_sub(haystack@, needle@),
{
    if needle.len() == 0 || needle.len() > haystack.len() {
        return false;
    }
    let n = needle.len();
    let hl = haystack.len();
    let last = hl - n;
    let mut i: usize = 0;
    while i <= last
        invariant
            n == needle@.len(),
            0 < n <= haystack@.len(),
            last == haystack@.len() - n,
            hl == haystack@.len(),
            i <= last + 1,
            forall|j: int| 0 <= j < i ==> #[trigger] haystack@.subrange(j, j + n) != needle@,
        decreases last + 1 - i,
    {
        if window_matches(haystack, i, needle) {
            return true;
        }
        i = i + 1;
    }
    assert forall|j: int| 0 <= j && j + n <= haystack@.len() implies #[trigger] haystack@.subrange(
        j,
        j + n,
    ) != needle@ by {
        assert(j < i);
    }
    false
}

/// Whether `haystack[i..i + needle.len()]` equals `needle`.
fn window_matches(haystack: &[u8], i: usize, needle: &[u8]) -> (b: bool)
    requires
        i + needle@.len() <= haystack@.len(),
    ensures
        b == (haystack@.subrange(i as int, i + needle@.len()) == needle@),
{
    let n = needle.len();
    let hl = haystack.len();
    let mut k: usize = 0;
    while k < n
        invariant
            n == needle@.len(),
            hl == haystack@.len(),
            i + n <= haystack@.len(),
            k <= n,
            forall|m: int| 0 <= m < k ==> haystack@[i + m] == needle@[m],
        decreases n - k,
    {
        if haystack[i + k] != needle[k] {
            assert(haystack@.subrange(i as int, i + n)[k as int] != needle@[k as int]);
            return false;
        }
        k = k + 1;
    }
    assert(haystack@.subrange(i as int, i + n) =~= needle@);
    true
}

/// Whether `fd` may receive tainted bytes.
fn write_allowed(fd: i32) -> (b: bool)
    ensures
        b == ALLOWED_TAINTED_WRITE_FDS@.contains(fd),
{
    let mut i: usize = 0;
    while i < ALLOWED_TAINTED_WRITE_FDS.len()
        invariant
            i <= ALLOWED_TAINTED_WRITE_FDS@.len(),
            forall|j: int| 0 <= j < i ==> ALLOWED_TAINTED_WRITE_FDS@[j] != fd,
        decreases ALLOWED_TAINTED_WRITE_FDS@.len() - i,
    {
        if ALLOWED_TAINTED_WRITE_FDS[i] == fd {
            return true;
        }
        i = i + 1;
    }
    false
}

/// The first tainted element of an exec, as `exec_violation` describes it.
fn exec_tainted(path: &Vec<u8>, args: &Vec<Vec<u8>>, env: &Vec<(Vec<u8>, Vec<u8>)>, canary: &[u8]) -> (r:
    Option<Vec<u8>>)
    ensures
        match r {
            Some(x) => exec_violation(path@, args.deep_view(), env.deep_view(), canary@) == Some(
                x@,
            ),
            None => exec_violation(path@, args.deep_view(), env.deep_view(), canary@) is None,
        },
{
    let ghost c = canary@;
    if contains_subsequence(path.as_slice(), canary) {
        return Some(slice_to_vec(path.as_slice()));
    }
    let ghost a = args.deep_view();
    let mut i: usize = 0;
    assert(a.take(0) =~= Seq::<Seq<u8>>::empty());
    while i < args.len()
        invariant
            i <= args@.len(),
            a == args.deep_view(),
            first_tainted(a.take(i as int), c) is None,
            c == canary@,
            !contains_sub(path@, c),
        decreases args@.len() - i,
    {
        assert(a.take(i + 1).drop_last() =~= a.take(i as int));
        assert(a[i as int] =~= args@[i as int]@);
        if contains_subsequence(args[i].as_slice(), canary) {
            proof {
                assert(a.take(i + 1).last() == a[i as int]);
                assert(contains_sub(a[i as int], c));
                assert(first_tainted(a.take(i + 1), c) == Some(a[i as int]));
                lemma_first_tainted_concat(a.take(i + 1), a.skip(i + 1), c);
                assert(a.take(i + 1) + a.skip(i + 1) =~= a);
                assert(first_tainted(a, c) == Some(a[i as int]));
                assert(!contains_sub(path@, c));
            }
            let x = slice_to_vec(args[i].as_slice());
            assert(x@ == a[i as int]);
            return Some(x);
        }
        i = i + 1;
    }
    assert(a.take(i as int) =~= a);
    let ghost e = env.deep_view();
    let mut j: usize = 0;
    assert(e.take(0) =~= Seq::<(Seq<u8>, Seq<u8>)>::empty());
    assert(flatten_env(e.take(0)) =~= Seq::<Seq<u8>>::empty());
    while j < env.len()
        invariant
            j <= env@.len(),
            e == env.deep_view(),
            first_tainted(flatten_env(e.take(j as int)), c) is None,
            c == canary@,
            !contains_sub(path@, c),
            first_tainted(a, c) is None,
            a == args.deep_view(),
        decreases env@.len() - j,
    {
        let ghost pre = flatten_env(e.take(j as int));
        let ghost kv = e[j as int];
        assert(e.take(j + 1).drop_last() =~= e.take(j as int));
        assert(flatten_env(e.take(j + 1)) =~= pre + seq![kv.0, kv.1]);
        proof {
            lemma_first_tainted_concat(pre, seq![kv.0, kv.1], c);
            assert(seq![kv.0, kv.1].drop_last() =~= seq![kv.0]);
            assert(seq![kv.0].drop_last() =~= Seq::<Seq<u8>>::empty());
            assert(seq![kv.0, kv.1].last() == kv.1);
            assert(seq![kv.0].last() == kv.0);
            assert(first_tainted(Seq::<Seq<u8>>::empty(), c) is None);
            assert(first_tainted(seq![kv.0], c) == (if contains_sub(kv.0, c) {
                Some(kv.0)
            } else {
                None
            }));
            lemma_flatten_env_concat(e.take(j + 1), e.skip(j + 1));
            assert(e.take(j + 1) + e.skip(j + 1) =~= e);
            lemma_first_tainted_concat(
                flatten_env(e.take(j + 1)),
                flatten_env(e.skip(j + 1)),
                c,
            );
        }
        assert(kv.0 =~= env@[j as int].0@);
        assert(kv.1 =~= env@[j as int].1@);
        if contains_subsequence(env[j].0.as_slice(), canary) {
            assert(first_tainted(flatten_env(e.take(j + 1)), c) == Some(kv.0));
            assert(first_tainted(flatten_env(e), c) == Some(kv.0));
            return Some(slice_to_vec(env[j].0.as_slice()));
        }
        if contains_subsequence(env[j].1.as_slice(), canary) {
            assert(first_tainted(flatten_env(e.take(j + 1)), c) == Some(kv.1));
            assert(first_tainted(flatten_env(e), c) == Some(kv.1));
            return Some(slice_to_vec(env[j].1.as_slice()));
        }
        j = j + 1;
    }
    assert(e.take(j as int) =~= e);
    None
}

/// Flattening distributes over concatenation.
pub proof fn lemma_flatten_env_concat(a: Seq<(Seq<u8>, Seq<u8>)>, b: Seq<(Seq<u8>, Seq<u8>)>)
    ensures
        flatten_env(a + b) == flatten_env(a) + flatten_env(b),
    decreases b.len(),
{
    if b.len() == 0 {
        assert(a + b =~= a);
        assert(flatten_env(a) + flatten_env(b) =~= flatten_env(a));
    } else {
        lemma_flatten_env_concat(a, b.drop_last());
        assert((a + b).drop_last() =~= a + b.drop_last());
        assert(flatten_env(a + b) =~= flatten_env(a) + flatten_env(b));
    }
}

/// Checks a trace against the IO boundary for the canary `canary`.
pub fn check_trace(effects: &[Effect], canary: &[u8]) -> (r: Result<(), InvariantError>)
    ensures
        match r {
            Ok(()) => check_trace_spec(effects.deep_view(), canary@) is Ok,
            Err(e) => check_trace_spec(effects.deep_view(), canary@) == Err::<(), _>(
                e.deep_view(),
            ),
        },
{
    let ghost s = effects.deep_view();
    let ghost c = canary@;
    let mut i: usize = 0;
    assert(s.take(0) =~= Seq::<SpecEffect>::empty());
    while i < effects.len()
        invariant
            i <= effects@.len(),
            s == effects.deep_view(),
            c == canary@,
            check_trace_spec(s.take(i as int), c) is Ok,
        decreases effects@.len() - i,
    {
        assert(s.take(i + 1).drop_last() =~= s.take(i as int));
        assert(s[i as int] == effects@[i as int].deep_view());
        let found: Option<InvariantError> = match &effects[i] {
            Effect::OpenP { path } => {
                if contains_subsequence(path.as_slice(), canary) {
                    Some(InvariantError::TaintedOpen(slice_to_vec(path.as_slice())))
                } else {
                    None
                }
            },
            Effect::ExecP { path, args, env } => match exec_tainted(path, args, env, canary) {
                Some(x) => Some(InvariantError::TaintedExec(x)),
                None => None,
            },
            Effect::NetConn { host, port } => Some(
                InvariantError::Net { host: host.clone(), port: *port },
            ),
            Effect::WriteF { fd, bytes } => {
                if contains_subsequence(bytes.as_slice(), canary) && !write_allowed(*fd) {
                    Some(InvariantError::UnauthorizedWrite(*fd))
                } else {
                    None
                }
            },
            Effect::ReadF { .. } => None,
        };
        match found {
            Some(err) => {
                proof {
                    lemma_check_trace_prefix(s, c, i + 1);
                }
                return Err(err);
            },
            None => {},
        }
        i = i + 1;
    }
    assert(s.take(i as int) =~= s);
    Ok(())
}

} // verus!
