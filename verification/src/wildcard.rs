//! Command filters with `*` wildcards: a `*` stands for any run of bytes,
//! every other byte for itself.

use vstd::prelude::*;

verus! {

/// The wildcard byte `*`.
pub open spec fn star() -> u8 {
    0x2a
}

/// Whether pattern `p` matches all of `v`: `*` matches any run of bytes
/// (the empty one too), any other byte matches itself.
pub open spec fn glob(p: Seq<u8>, v: Seq<u8>) -> bool
    decreases p.len(), v.len(),
{
    if p.len() == 0 {
        v.len() == 0
    } else if p[0] == star() {
        glob(p.skip(1), v) || (v.len() > 0 && glob(p, v.skip(1)))
    } else {
        v.len() > 0 && p[0] == v[0] && glob(p.skip(1), v.skip(1))
    }
}

/// The matcher's walk, which settles every value, a `*` in it too: from
/// pattern position `pi` and value position `vi`, with the last `*` seen at
/// `last` and the value position it was tried from at `sv`. A pattern byte
/// equal to the value's byte is matched as itself first; else a `*` is
/// taken and tried on the empty run; else the last `*` takes one byte more;
/// else there is no match. At the value's end the rest of the pattern must
/// be all `*`.
pub open spec fn greedy(p: Seq<u8>, v: Seq<u8>, pi: int, vi: int, last: Option<int>, sv: int) -> bool
    decreases v.len() - sv, v.len() - vi, p.len() - pi,
    when 0 <= sv <= vi <= v.len() && 0 <= pi <= p.len() && match last {
        Some(s) => 0 <= s < pi,
        None => true,
    }
{
    if vi < v.len() {
        if pi < p.len() && p[pi] == v[vi] {
            greedy(p, v, pi + 1, vi + 1, last, sv)
        } else if pi < p.len() && p[pi] == star() {
            greedy(p, v, pi + 1, vi, Some(pi), vi)
        } else {
            match last {
                Some(s) => greedy(p, v, s + 1, sv + 1, last, sv + 1),
                None => false,
            }
        }
    } else {
        forall|i: int| pi <= i < p.len() ==> p[i] == star()
    }
}

pub open spec fn star_at(s: Option<usize>) -> Option<int> {
    match s {
        Some(x) => Some(x as int),
        None => None,
    }
}

/// Whether a byte sequence holds no `*`.
pub open spec fn no_star(s: Seq<u8>) -> bool {
    forall|i: int| 0 <= i < s.len() ==> #[trigger] s[i] != star()
}

/// Whether a byte sequence is all `*`.
pub open spec fn all_stars(s: Seq<u8>) -> bool {
    forall|i: int| 0 <= i < s.len() ==> #[trigger] s[i] == star()
}

/// A leading `*` matches some prefix, and the rest of the pattern the rest.
proof fn lemma_star_exists(p: Seq<u8>, w: Seq<u8>)
    requires
        p.len() > 0,
        p[0] == star(),
    ensures
        glob(p, w) <==> exists|k: int| 0 <= k <= w.len() && #[trigger] glob(p.skip(1), w.skip(k)),
    decreases w.len(),
{
    assert(w.skip(0) =~= w);
    if glob(p.skip(1), w) {
        assert(glob(p.skip(1), w.skip(0)));
    }
    if w.len() > 0 {
        lemma_star_exists(p, w.skip(1));
        if glob(p, w.skip(1)) {
            let k = choose|k: int| 0 <= k <= w.skip(1).len() && #[trigger] glob(p.skip(1), w.skip(1).skip(k));
            assert(w.skip(1).skip(k) =~= w.skip(k + 1));
            assert(glob(p.skip(1), w.skip(k + 1)));
        }
        if exists|k: int| 0 <= k <= w.len() && #[trigger] glob(p.skip(1), w.skip(k)) {
            let k = choose|k: int| 0 <= k <= w.len() && #[trigger] glob(p.skip(1), w.skip(k));
            if k > 0 {
                assert(w.skip(1).skip(k - 1) =~= w.skip(k));
                assert(glob(p.skip(1), w.skip(1).skip(k - 1)));
            }
        }
    }
}

/// A pattern that starts with `*` and matches a suffix of `u` matches
/// every longer suffix.
proof fn lemma_star_mono(p: Seq<u8>, u: Seq<u8>, j: int)
    requires
        p.len() > 0,
        p[0] == star(),
        0 <= j <= u.len(),
        glob(p, u.skip(j)),
    ensures
        glob(p, u),
{
    lemma_star_exists(p, u.skip(j));
    let k = choose|k: int| 0 <= k <= u.skip(j).len() && #[trigger] glob(p.skip(1), u.skip(j).skip(k));
    assert(u.skip(j).skip(k) =~= u.skip(j + k));
    lemma_star_exists(p, u);
}

/// A star-free prefix of the pattern must match the value's prefix byte for
/// byte.
proof fn lemma_literal_prefix(q: Seq<u8>, u: Seq<u8>, l: int)
    requires
        0 <= l <= q.len(),
        no_star(q.take(l)),
    ensures
        glob(q, u) <==> (u.len() >= l && q.take(l) == u.take(l) && glob(q.skip(l), u.skip(l))),
    decreases l,
{
    assert(q.skip(0) =~= q);
    assert(u.skip(0) =~= u);
    if l > 0 {
        assert(q[0] == q.take(l)[0]);
        let q1 = q.skip(1);
        assert(q1.take(l - 1) =~= q.take(l).skip(1));
        if u.len() > 0 {
            let u1 = u.skip(1);
            assert forall|i: int| 0 <= i < q1.take(l - 1).len() implies #[trigger] q1.take(l - 1)[i]
                != star() by {
                assert(q1.take(l - 1)[i] == q.take(l)[i + 1]);
            }
            lemma_literal_prefix(q1, u1, l - 1);
            assert(q1.skip(l - 1) =~= q.skip(l));
            if u.len() >= l {
                assert(u1.skip(l - 1) =~= u.skip(l));
                assert(q.take(l) == u.take(l) <==> (q[0] == u[0] && q1.take(l - 1) == u1.take(l - 1))) by {
                    if q.take(l) == u.take(l) {
                        assert(q[0] == q.take(l)[0]);
                        assert(u[0] == u.take(l)[0]);
                        assert(q1.take(l - 1) =~= q.take(l).skip(1));
                        assert(u1.take(l - 1) =~= u.take(l).skip(1));
                    }
                    if q[0] == u[0] && q1.take(l - 1) == u1.take(l - 1) {
                        assert(q.take(l) =~= u.take(l)) by {
                            assert forall|i: int| 0 <= i < l implies q.take(l)[i] == u.take(l)[i] by {
                                if i > 0 {
                                    assert(q1.take(l - 1)[i - 1] == u1.take(l - 1)[i - 1]);
                                }
                            }
                        }
                    }
                }
            }
        }
    } else {
        assert(q.take(0) =~= u.take(0));
    }
}

/// An empty value is matched by exactly the patterns of stars only.
proof fn lemma_empty_value(p: Seq<u8>)
    ensures
        glob(p, seq![]) <==> all_stars(p),
    decreases p.len(),
{
    if p.len() > 0 {
        lemma_empty_value(p.skip(1));
        assert forall|i: int| 0 <= i < p.len() - 1 implies p.skip(1)[i] == p[i + 1] by {}
        if all_stars(p) {
            assert(p[0] == star());
            assert forall|i: int| 0 <= i < p.skip(1).len() implies #[trigger] p.skip(1)[i] == star() by {
                assert(p[i + 1] == star());
            }
        }
        if all_stars(p.skip(1)) && p[0] == star() {
            assert forall|i: int| 0 <= i < p.len() implies #[trigger] p[i] == star() by {
                if i > 0 {
                    assert(p.skip(1)[i - 1] == p[i]);
                }
            }
        }
    }
}

/// Whether `pattern` matches `value`, where `*` in the pattern matches any
/// run of bytes; a byte of the pattern equal to the value's byte at hand is
/// matched as itself first.
pub fn wildcard_match(pattern: &str, value: &str) -> (r: bool)
    ensures
        r == greedy(vstd::utf8::encode_utf8(pattern@), vstd::utf8::encode_utf8(value@), 0, 0, None, 0),
        no_star(vstd::utf8::encode_utf8(value@)) ==> r == glob(
            vstd::utf8::encode_utf8(pattern@),
            vstd::utf8::encode_utf8(value@),
        ),
{
    let p = pattern.as_bytes();
    let v = value.as_bytes();
    let ghost pp = p@;
    let ghost vv = v@;
    let ghost ok = no_star(vv);
    let mut pi: usize = 0;
    let mut vi: usize = 0;
    let mut star_index: Option<usize> = None;
    let mut sv: usize = 0;
    assert(pp.skip(0) =~= pp);
    assert(vv.skip(0) =~= vv);
    while vi < v.len()
        invariant
            pp == p@,
            vv == v@,
            pp == vstd::utf8::encode_utf8(pattern@),
            vv == vstd::utf8::encode_utf8(value@),
            ok == no_star(vv),
            pi <= pp.len(),
            vi <= vv.len(),
            sv <= vi,
            star_index matches Some(s) ==> s < pi,
            greedy(pp, vv, 0, 0, None, 0) == greedy(pp, vv, pi as int, vi as int, star_at(star_index), sv as int),
            ok && star_index is None ==> (glob(pp, vv) == glob(pp.skip(pi as int), vv.skip(vi as int))),
            star_index matches Some(s) ==> {
                &&& s < pi
                &&& pp[s as int] == star()
                &&& sv <= vi
                &&& pi - (s + 1) == vi - sv
                &&& pp.subrange(s + 1, pi as int) == vv.subrange(sv as int, vi as int)
                &&& (ok ==> glob(pp, vv) == glob(pp.skip(s as int), vv.skip(sv as int)))
            },
        decreases vv.len() - sv, vv.len() - vi, pp.len() - pi,
    {
        if pi < p.len() && p[pi] == v[vi] {
            proof {
                if ok {
                    assert(vv[vi as int] != star());
                    assert(pp.skip(pi as int)[0] == pp[pi as int]);
                    assert(pp.skip(pi as int).skip(1) =~= pp.skip(pi + 1));
                    assert(vv.skip(vi as int).skip(1) =~= vv.skip(vi + 1));
                }
                if let Some(s) = star_index {
                    assert(pp.subrange(s + 1, pi + 1) =~= pp.subrange(s + 1, pi as int).push(pp[pi as int]));
                    assert(vv.subrange(sv as int, vi + 1) =~= vv.subrange(sv as int, vi as int).push(vv[vi as int]));
                }
            }
            pi = pi + 1;
            vi = vi + 1;
        } else if pi < p.len() && p[pi] == 0x2a {
            proof {
                if ok {
                    if let Some(s) = star_index {
                        lemma_star_advance(pp, vv, s as int, sv as int, pi as int, vi as int);
                    }
                }
            }
            star_index = Some(pi);
            pi = pi + 1;
            sv = vi;
            assert(pp.subrange(pi as int, pi as int) =~= vv.subrange(sv as int, vi as int));
        } else if let Some(s) = star_index {
            proof {
                if ok {
                    lemma_star_backtrack(pp, vv, s as int, sv as int, pi as int, vi as int);
                }
            }
            pi = s + 1;
            sv = sv + 1;
            vi = sv;
            assert(pp.subrange(pi as int, pi as int) =~= vv.subrange(sv as int, vi as int));
        } else {
            proof {
                if ok {
                    assert(pi < pp.len() ==> pp.skip(pi as int)[0] == pp[pi as int]);
                    assert(vv.skip(vi as int)[0] == vv[vi as int]);
                    assert(vv.skip(vi as int).len() > 0);
                    assert(pi == pp.len() ==> pp.skip(pi as int).len() == 0);
                    assert(pi < pp.len() ==> pp[pi as int] != vv[vi as int] && pp[pi as int] != star());
                    assert(!glob(pp.skip(pi as int), vv.skip(vi as int)));
                }
            }
            return false;
        }
    }
    let ghost pe = pi;
    while pi < p.len() && p[pi] == 0x2a
        invariant
            pe <= pi <= pp.len(),
            pp == p@,
            forall|i: int| pe <= i < pi ==> pp[i] == star(),
        decreases pp.len() - pi,
    {
        pi = pi + 1;
    }
    assert(pi < pp.len() ==> pp[pi as int] != star());
    proof {
        if ok {
            lemma_empty_value(pp.skip(pe as int));
            assert(vv.skip(vv.len() as int) =~= Seq::<u8>::empty());
            if let Some(s) = star_index {
                lemma_star_end(pp, vv, s as int, sv as int, pe as int);
            }
            if pi == pp.len() {
                assert forall|i: int| 0 <= i < pp.skip(pe as int).len() implies #[trigger] pp.skip(
                    pe as int,
                )[i] == star() by {
                    assert(pp.skip(pe as int)[i] == pp[pe + i]);
                }
            } else {
                assert(pp.skip(pe as int)[pi - pe] == pp[pi as int]);
            }
        }
    }
    pi == p.len()
}

/// Reaching a second `*` after matching the literal run since the first:
/// matching from the first `*` is matching from the second.
proof fn lemma_star_advance(p: Seq<u8>, v: Seq<u8>, s: int, sv: int, pi: int, vi: int)
    requires
        no_star(v),
        0 <= s < pi < p.len(),
        0 <= sv <= vi <= v.len(),
        p[s] == star(),
        p[pi] == star(),
        pi - (s + 1) == vi - sv,
        p.subrange(s + 1, pi) == v.subrange(sv, vi),
    ensures
        glob(p.skip(s), v.skip(sv)) == glob(p.skip(pi), v.skip(vi)),
{
    let q = p.skip(s);
    let w = v.skip(sv);
    let l = pi - (s + 1);
    let lit = p.subrange(s + 1, pi);
    assert forall|i: int| 0 <= i < l implies #[trigger] lit[i] != star() by {
        assert(lit[i] == v.subrange(sv, vi)[i]);
        assert(v.subrange(sv, vi)[i] == v[sv + i]);
    }
    lemma_star_exists(q, w);
    let q1 = q.skip(1);
    assert(q1.take(l) =~= lit);
    assert(q1.skip(l) =~= p.skip(pi));
    assert(w.skip(l) =~= v.skip(vi));
    assert(w.take(l) =~= v.subrange(sv, vi));
    // The current attempt matches the literal run at offset 0.
    lemma_literal_prefix(q1, w, l);
    if glob(p.skip(pi), v.skip(vi)) {
        assert(glob(q1, w.skip(0))) by {
            assert(w.skip(0) =~= w);
        }
    }
    if glob(q, w) {
        let k = choose|k: int| 0 <= k <= w.len() && #[trigger] glob(q1, w.skip(k));
        lemma_literal_prefix(q1, w.skip(k), l);
        assert(w.skip(k).skip(l) =~= w.skip(k + l));
        assert(w.skip(k + l) =~= w.skip(l).skip(k));
        assert(p.skip(pi).len() > 0 && p.skip(pi)[0] == star());
        lemma_star_mono(p.skip(pi), w.skip(l), k);
    }
}

/// A mismatch after the literal run since the last `*`: that `*` must
/// absorb at least one more byte.
proof fn lemma_star_backtrack(p: Seq<u8>, v: Seq<u8>, s: int, sv: int, pi: int, vi: int)
    requires
        no_star(v),
        0 <= s < pi <= p.len(),
        0 <= sv <= vi < v.len(),
        p[s] == star(),
        pi - (s + 1) == vi - sv,
        p.subrange(s + 1, pi) == v.subrange(sv, vi),
        pi == p.len() || (p[pi] != v[vi] && p[pi] != star()),
    ensures
        glob(p.skip(s), v.skip(sv)) == glob(p.skip(s), v.skip(sv + 1)),
{
    let q = p.skip(s);
    let w = v.skip(sv);
    let l = pi - (s + 1);
    let lit = p.subrange(s + 1, pi);
    assert forall|i: int| 0 <= i < l implies #[trigger] lit[i] != star() by {
        assert(lit[i] == v.subrange(sv, vi)[i]);
        assert(v.subrange(sv, vi)[i] == v[sv + i]);
    }
    let q1 = q.skip(1);
    assert(q1.take(l) =~= lit);
    assert(q1.skip(l) =~= p.skip(pi));
    assert(w.skip(l) =~= v.skip(vi));
    lemma_literal_prefix(q1, w, l);
    // The attempt at offset 0 fails at the mismatch.
    assert(!glob(p.skip(pi), v.skip(vi))) by {
        if pi < p.len() {
            assert(p.skip(pi)[0] == p[pi]);
            assert(v.skip(vi)[0] == v[vi]);
        }
    }
    assert(w.len() > 0);
    assert(w.skip(1) =~= v.skip(sv + 1));
    assert(q[0] == star());
}

/// At the end of the value, after the literal run since the last `*`: the
/// pattern matches exactly when what remains of it is stars only.
proof fn lemma_star_end(p: Seq<u8>, v: Seq<u8>, s: int, sv: int, pi: int)
    requires
        no_star(v),
        0 <= s < pi <= p.len(),
        0 <= sv <= v.len(),
        p[s] == star(),
        pi - (s + 1) == v.len() - sv,
        p.subrange(s + 1, pi) == v.subrange(sv, v.len() as int),
    ensures
        glob(p.skip(s), v.skip(sv)) == glob(p.skip(pi), seq![]),
{
    let q = p.skip(s);
    let w = v.skip(sv);
    let l = pi - (s + 1);
    let lit = p.subrange(s + 1, pi);
    assert forall|i: int| 0 <= i < l implies #[trigger] lit[i] != star() by {
        assert(lit[i] == v.subrange(sv, v.len() as int)[i]);
        assert(v.subrange(sv, v.len() as int)[i] == v[sv + i]);
    }
    let q1 = q.skip(1);
    assert(q1.take(l) =~= lit);
    assert(q1.skip(l) =~= p.skip(pi));
    assert(w.take(l) =~= w);
    assert(w.skip(l) =~= Seq::<u8>::empty());
    lemma_star_exists(q, w);
    lemma_literal_prefix(q1, w, l);
    if glob(q, w) {
        let k = choose|k: int| 0 <= k <= w.len() && #[trigger] glob(q1, w.skip(k));
        lemma_literal_prefix(q1, w.skip(k), l);
        assert(k == 0);
        assert(w.skip(0) =~= w);
    }
    if glob(p.skip(pi), seq![]) {
        assert(w.skip(0) =~= w);
        assert(glob(q1, w.skip(0)));
    }
}

} // verus!
