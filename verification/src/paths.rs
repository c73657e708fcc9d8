//! Byte-string paths: final components, base names, and joining.
//!
//! A path is a sequence of bytes in which `/` separates components.
//! The model is deliberately literal: no normalization of `.` or `..`
//! components is performed anywhere, and a final component of `.` or
//! `..` simply does not count as a usable base name.

use vstd::prelude::*;

verus! {

/// The path separator byte, `/`.
pub const SEP: u8 = 47;

/// The dot byte, `.`.
pub const DOT: u8 = 46;

/// The bytes of `p` after its last separator (all of `p` when it has
/// none); empty when `p` is empty or ends with a separator.
pub open spec fn final_component(p: Seq<u8>) -> Seq<u8>
    decreases p.len(),
{
    if p.len() == 0 {
        Seq::empty()
    } else if p[p.len() - 1] == SEP {
        Seq::empty()
    } else {
        final_component(p.take(p.len() - 1)).push(p[p.len() - 1])
    }
}

/// A usable base name: the final component, unless it is empty, `.`
/// or `..`.
pub open spec fn spec_base_name(p: Seq<u8>) -> Option<Seq<u8>> {
    let c = final_component(p);
    if c.len() == 0 || c =~= seq![DOT] || c =~= seq![DOT, DOT] {
        None
    } else {
        Some(c)
    }
}

/// Joining `d` and `n`: a separator is inserted unless `d` is empty or
/// already ends with one.
pub open spec fn spec_join(d: Seq<u8>, n: Seq<u8>) -> Seq<u8> {
    if d.len() == 0 {
        n
    } else if d[d.len() - 1] == SEP {
        d + n
    } else {
        d + seq![SEP] + n
    }
}

/// When no separator occurs at or after position `i`, the final
/// component splits as the final component of the prefix followed by
/// the suffix.
proof fn lemma_final_component_split(p: Seq<u8>, i: int)
    requires
        0 <= i <= p.len(),
        forall|j: int| i <= j < p.len() ==> p[j] != SEP,
    ensures
        final_component(p) =~= final_component(p.take(i)) + p.skip(i),
    decreases p.len() - i,
{
    if i == p.len() {
        assert(p.take(i) =~= p);
    } else {
        let q = p.take(p.len() - 1);
        lemma_final_component_split(q, i);
        assert(q.take(i) =~= p.take(i));
        assert(q.skip(i) =~= p.skip(i).take(p.skip(i).len() - 1));
        assert(final_component(p) =~= final_component(p.take(i)) + p.skip(i));
    }
}

/// Whether `k` continues `p` with a separator.
pub open spec fn prefix_sep(p: Seq<u8>, k: Seq<u8>) -> bool {
    k.len() > p.len() && k.take(p.len() as int) == p && k[p.len() as int] == SEP
}

/// Whether `k` lies strictly under `p`: `p`, a separator, and at
/// least one more byte.
pub open spec fn is_under(p: Seq<u8>, k: Seq<u8>) -> bool {
    prefix_sep(p, k) && k.len() > p.len() + 1
}

/// Whether `k` is `p` itself or lies under it.
pub open spec fn covered(p: Seq<u8>, k: Seq<u8>) -> bool {
    k == p || is_under(p, k)
}

/// Whether `k` is a direct child of `p`: under it, with no further
/// separator in its name.
pub open spec fn is_direct_child(p: Seq<u8>, k: Seq<u8>) -> bool {
    is_under(p, k) && (forall|m: int| p.len() + 1 <= m < k.len() ==> k[m] != SEP)
}

/// Whether `q` names a proper ancestor directory of `p`: a non-empty
/// strict prefix ending just before a separator.
pub open spec fn is_ancestor(p: Seq<u8>, q: Seq<u8>) -> bool {
    0 < q.len() < p.len() && p[q.len() as int] == SEP && q == p.take(q.len() as int)
}

/// Two paths that both cover a common path, with neither continuing
/// the other with a separator, are the same path.
pub proof fn lemma_cover_disjoint(src: Seq<u8>, dst: Seq<u8>, x: Seq<u8>)
    requires
        covered(src, x),
        covered(dst, x),
        !prefix_sep(src, dst),
        !prefix_sep(dst, src),
    ensures
        src == dst,
{
    if src == dst {
    } else if x == src && x == dst {
    } else if x == src {
        assert(prefix_sep(dst, src));
    } else if x == dst {
        assert(prefix_sep(src, dst));
    } else {
        if src.len() == dst.len() {
            assert(src =~= dst);
        } else if src.len() < dst.len() {
            assert(dst.take(src.len() as int) =~= x.take(src.len() as int));
            assert(dst[src.len() as int] == x[src.len() as int]);
            assert(prefix_sep(src, dst));
        } else {
            assert(src.take(dst.len() as int) =~= x.take(dst.len() as int));
            assert(src[dst.len() as int] == x[dst.len() as int]);
            assert(prefix_sep(dst, src));
        }
    }
}

/// Whether `k` continues `p` with a separator, per `prefix_sep`.
pub fn check_prefix_sep(p: &Vec<u8>, k: &Vec<u8>) -> (r: bool)
    ensures
        r == prefix_sep(p@, k@),
{
    k.len() > p.len() && starts_with(k, p) && k[p.len()] == SEP
}

/// Whether two byte vectors hold the same bytes.
pub fn bytes_eq(a: &Vec<u8>, b: &Vec<u8>) -> (r: bool)
    ensures
        r <==> a@ == b@,
{
    if a.len() != b.len() {
        proof {
            assert(a@ != b@);
        }
        return false;
    }
    let mut i: usize = 0;
    while i < a.len()
        invariant
            a.len() == b.len(),
            i <= a.len(),
            forall|j: int| 0 <= j < i ==> a@[j] == b@[j],
        decreases a.len() - i,
    {
        if a[i] != b[i] {
            return false;
        }
        i = i + 1;
    }
    proof {
        assert(a@ =~= b@);
    }
    true
}

/// Whether `k` starts with `p`.
pub fn starts_with(k: &Vec<u8>, p: &Vec<u8>) -> (r: bool)
    ensures
        r <==> (k@.len() >= p@.len() && k@.take(p@.len() as int) == p@),
{
    if k.len() < p.len() {
        return false;
    }
    let mut i: usize = 0;
    while i < p.len()
        invariant
            k.len() >= p.len(),
            i <= p.len(),
            forall|j: int| 0 <= j < i ==> k@[j] == p@[j],
        decreases p.len() - i,
    {
        if k[i] != p[i] {
            proof {
                assert(k@.take(p@.len() as int)[i as int] != p@[i as int]);
            }
            return false;
        }
        i = i + 1;
    }
    proof {
        assert(k@.take(p@.len() as int) =~= p@);
    }
    true
}

/// Whether `k` lies strictly under `p`, per `is_under`.
pub fn check_under(p: &Vec<u8>, k: &Vec<u8>) -> (r: bool)
    ensures
        r == is_under(p@, k@),
{
    k.len() > p.len() && k.len() - p.len() > 1 && starts_with(k, p) && k[p.len()] == SEP
}

/// Whether `k` is `p` or lies under it, per `covered`.
pub fn check_covered(p: &Vec<u8>, k: &Vec<u8>) -> (r: bool)
    ensures
        r == covered(p@, k@),
{
    bytes_eq(k, p) || check_under(p, k)
}

/// `a` followed by the bytes of `b` from position `start` on.
pub fn concat_from(a: &Vec<u8>, b: &Vec<u8>, start: usize) -> (r: Vec<u8>)
    requires
        start <= b.len(),
    ensures
        r@ == a@ + b@.skip(start as int),
{
    let mut r = copy_bytes(a);
    let mut i = start;
    while i < b.len()
        invariant
            start <= i <= b.len(),
            r@ == a@ + b@.subrange(start as int, i as int),
        decreases b.len() - i,
    {
        r.push(b[i]);
        i = i + 1;
        proof {
            assert(a@ + b@.subrange(start as int, i as int)
                =~= (a@ + b@.subrange(start as int, i - 1)).push(b@[i - 1]));
        }
    }
    proof {
        assert(b@.subrange(start as int, b@.len() as int) =~= b@.skip(start as int));
    }
    r
}

/// Copies a byte vector.
pub fn copy_bytes(v: &Vec<u8>) -> (r: Vec<u8>)
    ensures
        r@ == v@,
{
    let mut r: Vec<u8> = Vec::new();
    let mut i: usize = 0;
    while i < v.len()
        invariant
            i <= v.len(),
            r@ == v@.take(i as int),
        decreases v.len() - i,
    {
        r.push(v[i]);
        i = i + 1;
        proof {
            assert(r@ =~= v@.take(i as int));
        }
    }
    proof {
        assert(v@.take(v.len() as int) =~= v@);
    }
    r
}

/// The base name of `p`, or `None` when `p` has no usable one.
pub fn base_name(p: &Vec<u8>) -> (r: Option<Vec<u8>>)
    ensures
        match r {
            Some(b) => spec_base_name(p@) == Some(b@),
            None => spec_base_name(p@) is None,
        },
{
    let mut i: usize = p.len();
    while i > 0 && p[i - 1] != SEP
        invariant
            i <= p.len(),
            forall|j: int| i <= j < p.len() ==> p@[j] != SEP,
        decreases i,
    {
        i = i - 1;
    }
    proof {
        lemma_final_component_split(p@, i as int);
        if i > 0 {
            assert(final_component(p@.take(i as int)) =~= Seq::<u8>::empty());
        } else {
            assert(p@.take(0) =~= Seq::<u8>::empty());
        }
        assert(final_component(p@) =~= p@.skip(i as int));
    }
    let n = p.len() - i;
    if n == 0 {
        return None;
    }
    if n == 1 && p[i] == DOT {
        proof {
            assert(final_component(p@) =~= seq![DOT]);
        }
        return None;
    }
    if n == 2 && p[i] == DOT && p[i + 1] == DOT {
        proof {
            assert(final_component(p@) =~= seq![DOT, DOT]);
        }
        return None;
    }
    let b = vstd::slice::slice_to_vec(vstd::slice::slice_subrange(p.as_slice(), i, p.len()));
    proof {
        let c = final_component(p@);
        assert(b@ =~= c);
        assert(c.len() == n);
        if c =~= seq![DOT] {
            assert(c[0] == DOT);
            assert(false);
        }
        if c =~= seq![DOT, DOT] {
            assert(c[0] == DOT);
            assert(c[1] == DOT);
            assert(false);
        }
    }
    Some(b)
}

/// `d` joined with `n`, per `spec_join`.
pub fn join(d: &Vec<u8>, n: &Vec<u8>) -> (r: Vec<u8>)
    ensures
        r@ == spec_join(d@, n@),
{
    let mut r = copy_bytes(d);
    if d.len() != 0 && d[d.len() - 1] != SEP {
        r.push(SEP);
    }
    let mut i: usize = 0;
    while i < n.len()
        invariant
            i <= n.len(),
            r@ == (if d@.len() == 0 {
                n@.take(i as int)
            } else if d@[d@.len() - 1] == SEP {
                d@ + n@.take(i as int)
            } else {
                d@ + seq![SEP] + n@.take(i as int)
            }),
        decreases n.len() - i,
    {
        r.push(n[i]);
        i = i + 1;
        proof {
            assert(n@.take(i as int) =~= n@.take(i - 1).push(n@[i - 1]));
        }
    }
    proof {
        assert(n@.take(n@.len() as int) =~= n@);
    }
    r
}

} // verus!
