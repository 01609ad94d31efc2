//! Wildcard intersection of key expressions.
//!
//! A concrete segment matches only itself, the single-level wildcard matches
//! exactly one segment of any value, and the multi-level wildcard matches
//! zero or more segments.  Two expressions intersect exactly when at least
//! one key is matched by both, which `lemma_inter_iff_shared_key` proves;
//! against a concrete key the intersection test coincides with the matching
//! relation (`lemma_intersects_concrete`).

use vstd::prelude::*;

use crate::keys::KeyExpression;
use crate::keys::STAR;
use crate::keys::concrete;
use crate::keys::is_multi_wild;
use crate::keys::is_single_wild;
use crate::keys::lemma_deep_view_index;
use crate::keys::parts_wf;
use crate::keys::wf_part;
use crate::keys::wf_seg;

verus! {

/// The matching relation: the set of concrete keys described by an
/// expression, as a predicate over segment lists.
pub open spec fn expr_matches(e: Seq<Seq<u8>>, k: Seq<Seq<u8>>) -> bool
    decreases e.len() + k.len(),
{
    if e.len() == 0 {
        k.len() == 0
    } else if is_multi_wild(e[0]) {
        expr_matches(e.drop_first(), k) || (k.len() > 0 && expr_matches(e, k.drop_first()))
    } else if k.len() == 0 {
        false
    } else if is_single_wild(e[0]) {
        expr_matches(e.drop_first(), k.drop_first())
    } else {
        e[0] == k[0] && expr_matches(e.drop_first(), k.drop_first())
    }
}

/// The hierarchical wildcard-intersection relation over two expressions.
pub open spec fn inter(a: Seq<Seq<u8>>, b: Seq<Seq<u8>>) -> bool
    decreases a.len() + b.len(),
{
    if a.len() == 0 && b.len() == 0 {
        true
    } else if a.len() == 0 {
        is_multi_wild(b[0]) && inter(a, b.drop_first())
    } else if b.len() == 0 {
        is_multi_wild(a[0]) && inter(a.drop_first(), b)
    } else if is_multi_wild(a[0]) || is_multi_wild(b[0]) {
        inter(a.drop_first(), b) || inter(a, b.drop_first())
    } else if is_single_wild(a[0]) || is_single_wild(b[0]) {
        inter(a.drop_first(), b.drop_first())
    } else {
        a[0] == b[0] && inter(a.drop_first(), b.drop_first())
    }
}

/// A well-formed concrete segment is neither wildcard.
pub proof fn lemma_seg_not_wild(s: Seq<u8>)
    requires
        wf_seg(s),
    ensures
        !is_single_wild(s),
        !is_multi_wild(s),
{
    if is_single_wild(s) {
        assert(s[0] == STAR);
    }
    if is_multi_wild(s) {
        assert(s[0] == STAR);
    }
}

/// Intersection correctness against a concrete key: a query expression
/// intersects a concrete key exactly when the key is one of the concrete
/// keys the query describes.
pub proof fn lemma_intersects_concrete(q: Seq<Seq<u8>>, k: Seq<Seq<u8>>)
    requires
        concrete(k),
    ensures
        inter(q, k) == expr_matches(q, k),
    decreases q.len() + k.len(),
{
    if k.len() > 0 {
        lemma_seg_not_wild(k[0]);
        assert(concrete(k.drop_first())) by {
            assert forall|i: int| 0 <= i < k.drop_first().len() implies wf_seg(
                #[trigger] k.drop_first()[i],
            ) by {
                assert(k.drop_first()[i] == k[i + 1]);
            }
        }
    }
    if q.len() == 0 && k.len() == 0 {
    } else if q.len() == 0 {
        lemma_intersects_concrete(q, k.drop_first());
    } else if k.len() == 0 {
        if is_multi_wild(q[0]) {
            lemma_intersects_concrete(q.drop_first(), k);
        }
    } else if is_multi_wild(q[0]) {
        lemma_intersects_concrete(q.drop_first(), k);
        lemma_intersects_concrete(q, k.drop_first());
    } else if is_single_wild(q[0]) {
        lemma_intersects_concrete(q.drop_first(), k.drop_first());
    } else {
        lemma_intersects_concrete(q.drop_first(), k.drop_first());
    }
}

/// A wildcard-free expression intersects exactly one concrete key: itself.
pub proof fn lemma_concrete_intersects_only_itself(q: Seq<Seq<u8>>, k: Seq<Seq<u8>>)
    requires
        concrete(q),
        concrete(k),
    ensures
        inter(q, k) <==> q == k,
{
    lemma_intersects_concrete(q, k);
    lemma_concrete_matches_self(q, k);
}

/// A concrete expression describes exactly one key: itself.
pub proof fn lemma_concrete_matches_self(q: Seq<Seq<u8>>, k: Seq<Seq<u8>>)
    requires
        concrete(q),
    ensures
        expr_matches(q, k) <==> q == k,
    decreases q.len() + k.len(),
{
    if q.len() == 0 {
        if expr_matches(q, k) {
            assert(q =~= k);
        }
    } else {
        lemma_seg_not_wild(q[0]);
        if k.len() == 0 {
            assert(q != k);
        } else {
            assert(concrete(q.drop_first())) by {
                assert forall|i: int| 0 <= i < q.drop_first().len() implies wf_seg(
                    #[trigger] q.drop_first()[i],
                ) by {
                    assert(q.drop_first()[i] == q[i + 1]);
                }
            }
            lemma_concrete_matches_self(q.drop_first(), k.drop_first());
            if expr_matches(q, k) {
                assert(q.drop_first() == k.drop_first());
                assert forall|m: int| 0 <= m < q.len() implies q[m] == k[m] by {
                    if m > 0 {
                        assert(q[m] == q.drop_first()[m - 1]);
                        assert(k[m] == k.drop_first()[m - 1]);
                    }
                }
                assert(q =~= k);
            }
            if q == k {
                assert(q[0] == k[0]);
                assert(q.drop_first() =~= k.drop_first());
            }
        }
    }
}

/// Completeness of the intersection test: expressions with a common
/// matched key intersect.
pub proof fn lemma_inter_complete(a: Seq<Seq<u8>>, b: Seq<Seq<u8>>, k: Seq<Seq<u8>>)
    requires
        expr_matches(a, k),
        expr_matches(b, k),
    ensures
        inter(a, b),
    decreases a.len() + b.len() + k.len(),
{
    if a.len() == 0 && b.len() == 0 {
    } else if a.len() == 0 {
        assert(k.len() == 0);
        lemma_inter_complete(a, b.drop_first(), k);
    } else if b.len() == 0 {
        assert(k.len() == 0);
        lemma_inter_complete(a.drop_first(), b, k);
    } else if is_multi_wild(a[0]) {
        if expr_matches(a.drop_first(), k) {
            lemma_inter_complete(a.drop_first(), b, k);
        } else {
            if is_multi_wild(b[0]) {
                if expr_matches(b.drop_first(), k) {
                    lemma_inter_complete(a, b.drop_first(), k);
                } else {
                    lemma_inter_complete(a, b, k.drop_first());
                }
            } else {
                lemma_inter_complete(a, b.drop_first(), k.drop_first());
            }
        }
    } else if is_multi_wild(b[0]) {
        if expr_matches(b.drop_first(), k) {
            lemma_inter_complete(a, b.drop_first(), k);
        } else {
            lemma_inter_complete(a.drop_first(), b, k.drop_first());
        }
    } else {
        lemma_inter_complete(a.drop_first(), b.drop_first(), k.drop_first());
    }
}

/// An expression whose head is not the multi-level wildcard matches a key
/// extended in front by a segment its head accepts.
proof fn lemma_matches_prepend(e: Seq<Seq<u8>>, k: Seq<Seq<u8>>, s: Seq<u8>)
    requires
        e.len() > 0,
        !is_multi_wild(e[0]),
        is_single_wild(e[0]) || e[0] == s,
        expr_matches(e.drop_first(), k),
    ensures
        expr_matches(e, seq![s] + k),
{
    let w = seq![s] + k;
    assert(w[0] == s);
    assert(w.drop_first() =~= k);
}

/// An expression whose head is the multi-level wildcard absorbs any segment
/// put in front of a key it matches.
proof fn lemma_matches_absorb(e: Seq<Seq<u8>>, k: Seq<Seq<u8>>, s: Seq<u8>)
    requires
        e.len() > 0,
        is_multi_wild(e[0]),
        expr_matches(e, k),
    ensures
        expr_matches(e, seq![s] + k),
{
    let w = seq![s] + k;
    assert(w.drop_first() =~= k);
    assert(w.len() > 0);
}

/// Soundness of the intersection test: intersecting expressions have a
/// common matched key.
pub proof fn lemma_inter_sound(a: Seq<Seq<u8>>, b: Seq<Seq<u8>>)
    requires
        inter(a, b),
    ensures
        exists|k: Seq<Seq<u8>>| #[trigger] expr_matches(a, k) && expr_matches(b, k),
    decreases a.len() + b.len(),
{
    if a.len() == 0 && b.len() == 0 {
        let w = Seq::<Seq<u8>>::empty();
        assert(expr_matches(a, w) && expr_matches(b, w));
    } else if a.len() == 0 {
        lemma_inter_sound(a, b.drop_first());
        let w = choose|k: Seq<Seq<u8>>|
            #[trigger] expr_matches(a, k) && expr_matches(b.drop_first(), k);
        assert(expr_matches(b, w));
        assert(expr_matches(a, w) && expr_matches(b, w));
    } else if b.len() == 0 {
        lemma_inter_sound(a.drop_first(), b);
        let w = choose|k: Seq<Seq<u8>>|
            #[trigger] expr_matches(a.drop_first(), k) && expr_matches(b, k);
        assert(expr_matches(a, w));
        assert(expr_matches(a, w) && expr_matches(b, w));
    } else if is_multi_wild(a[0]) || is_multi_wild(b[0]) {
        if inter(a.drop_first(), b) {
            lemma_inter_sound(a.drop_first(), b);
            let w = choose|k: Seq<Seq<u8>>|
                #[trigger] expr_matches(a.drop_first(), k) && expr_matches(b, k);
            if is_multi_wild(a[0]) {
                assert(expr_matches(a, w) && expr_matches(b, w));
            } else {
                // Here the multi-level wildcard heads `b`: it absorbs the
                // segment that `a`'s head contributes in front of `w`.
                let s = a[0];
                lemma_matches_prepend(a, w, s);
                lemma_matches_absorb(b, w, s);
                assert(expr_matches(a, seq![s] + w) && expr_matches(b, seq![s] + w));
            }
        } else {
            lemma_inter_sound(a, b.drop_first());
            let w = choose|k: Seq<Seq<u8>>|
                #[trigger] expr_matches(a, k) && expr_matches(b.drop_first(), k);
            if is_multi_wild(b[0]) {
                assert(expr_matches(a, w) && expr_matches(b, w));
            } else {
                let s = b[0];
                lemma_matches_prepend(b, w, s);
                lemma_matches_absorb(a, w, s);
                assert(expr_matches(a, seq![s] + w) && expr_matches(b, seq![s] + w));
            }
        }
    } else if is_single_wild(a[0]) || is_single_wild(b[0]) {
        lemma_inter_sound(a.drop_first(), b.drop_first());
        let w = choose|k: Seq<Seq<u8>>|
            #[trigger] expr_matches(a.drop_first(), k) && expr_matches(b.drop_first(), k);
        let s = if is_single_wild(a[0]) {
            b[0]
        } else {
            a[0]
        };
        lemma_matches_prepend(a, w, s);
        lemma_matches_prepend(b, w, s);
        assert(expr_matches(a, seq![s] + w) && expr_matches(b, seq![s] + w));
    } else {
        lemma_inter_sound(a.drop_first(), b.drop_first());
        let w = choose|k: Seq<Seq<u8>>|
            #[trigger] expr_matches(a.drop_first(), k) && expr_matches(b.drop_first(), k);
        lemma_matches_prepend(a, w, a[0]);
        lemma_matches_prepend(b, w, a[0]);
        assert(expr_matches(a, seq![a[0]] + w) && expr_matches(b, seq![a[0]] + w));
    }
}

/// Dropping the head of a list of well-formed segments keeps them
/// well-formed.
proof fn lemma_parts_wf_drop(parts: Seq<Seq<u8>>)
    requires
        parts.len() > 0,
        parts_wf(parts),
    ensures
        parts_wf(parts.drop_first()),
{
    assert forall|i: int| 0 <= i < parts.drop_first().len() implies wf_part(
        #[trigger] parts.drop_first()[i],
    ) by {
        assert(parts.drop_first()[i] == parts[i + 1]);
    }
}

/// Prepending a well-formed concrete segment to a concrete key keeps it
/// concrete.
proof fn lemma_concrete_prepend(k: Seq<Seq<u8>>, s: Seq<u8>)
    requires
        concrete(k),
        wf_seg(s),
    ensures
        concrete(seq![s] + k),
{
    let w = seq![s] + k;
    assert forall|i: int| 0 <= i < w.len() implies wf_seg(#[trigger] w[i]) by {
        if i > 0 {
            assert(w[i] == k[i - 1]);
        }
    }
}

/// Soundness with a concrete witness: intersecting well-formed expressions
/// share a key that is itself concrete — free of wildcard and delimiter
/// bytes — so it is a storable key.
pub proof fn lemma_inter_sound_concrete(a: Seq<Seq<u8>>, b: Seq<Seq<u8>>)
    requires
        inter(a, b),
        parts_wf(a),
        parts_wf(b),
    ensures
        exists|k: Seq<Seq<u8>>| #[trigger] expr_matches(a, k) && expr_matches(b, k) && concrete(
            k,
        ),
    decreases a.len() + b.len(),
{
    if a.len() > 0 {
        lemma_parts_wf_drop(a);
    }
    if b.len() > 0 {
        lemma_parts_wf_drop(b);
    }
    if a.len() == 0 && b.len() == 0 {
        let w = Seq::<Seq<u8>>::empty();
        assert(expr_matches(a, w) && expr_matches(b, w) && concrete(w));
    } else if a.len() == 0 {
        lemma_inter_sound_concrete(a, b.drop_first());
        let w = choose|k: Seq<Seq<u8>>|
            #[trigger] expr_matches(a, k) && expr_matches(b.drop_first(), k) && concrete(k);
        assert(expr_matches(b, w));
        assert(expr_matches(a, w) && expr_matches(b, w) && concrete(w));
    } else if b.len() == 0 {
        lemma_inter_sound_concrete(a.drop_first(), b);
        let w = choose|k: Seq<Seq<u8>>|
            #[trigger] expr_matches(a.drop_first(), k) && expr_matches(b, k) && concrete(k);
        assert(expr_matches(a, w));
        assert(expr_matches(a, w) && expr_matches(b, w) && concrete(w));
    } else if is_multi_wild(a[0]) || is_multi_wild(b[0]) {
        if inter(a.drop_first(), b) {
            lemma_inter_sound_concrete(a.drop_first(), b);
            let w = choose|k: Seq<Seq<u8>>|
                #[trigger] expr_matches(a.drop_first(), k) && expr_matches(b, k) && concrete(k);
            if is_multi_wild(a[0]) {
                assert(expr_matches(a, w) && expr_matches(b, w) && concrete(w));
            } else {
                let s = witness_seg(a[0]);
                lemma_witness_seg(a[0]);
                lemma_matches_prepend(a, w, s);
                lemma_matches_absorb(b, w, s);
                lemma_concrete_prepend(w, s);
                assert(expr_matches(a, seq![s] + w) && expr_matches(b, seq![s] + w) && concrete(
                    seq![s] + w,
                ));
            }
        } else {
            lemma_inter_sound_concrete(a, b.drop_first());
            let w = choose|k: Seq<Seq<u8>>|
                #[trigger] expr_matches(a, k) && expr_matches(b.drop_first(), k) && concrete(k);
            if is_multi_wild(b[0]) {
                assert(expr_matches(a, w) && expr_matches(b, w) && concrete(w));
            } else {
                let s = witness_seg(b[0]);
                lemma_witness_seg(b[0]);
                lemma_matches_prepend(b, w, s);
                lemma_matches_absorb(a, w, s);
                lemma_concrete_prepend(w, s);
                assert(expr_matches(a, seq![s] + w) && expr_matches(b, seq![s] + w) && concrete(
                    seq![s] + w,
                ));
            }
        }
    } else if is_single_wild(a[0]) || is_single_wild(b[0]) {
        lemma_inter_sound_concrete(a.drop_first(), b.drop_first());
        let w = choose|k: Seq<Seq<u8>>|
            #[trigger] expr_matches(a.drop_first(), k) && expr_matches(b.drop_first(), k)
                && concrete(k);
        let s = if is_single_wild(a[0]) {
            witness_seg(b[0])
        } else {
            witness_seg(a[0])
        };
        lemma_witness_seg(a[0]);
        lemma_witness_seg(b[0]);
        lemma_matches_prepend(a, w, s);
        lemma_matches_prepend(b, w, s);
        lemma_concrete_prepend(w, s);
        assert(expr_matches(a, seq![s] + w) && expr_matches(b, seq![s] + w) && concrete(
            seq![s] + w,
        ));
    } else {
        lemma_inter_sound_concrete(a.drop_first(), b.drop_first());
        let w = choose|k: Seq<Seq<u8>>|
            #[trigger] expr_matches(a.drop_first(), k) && expr_matches(b.drop_first(), k)
                && concrete(k);
        lemma_matches_prepend(a, w, a[0]);
        lemma_matches_prepend(b, w, a[0]);
        lemma_concrete_prepend(w, a[0]);
        assert(expr_matches(a, seq![a[0]] + w) && expr_matches(b, seq![a[0]] + w) && concrete(
            seq![a[0]] + w,
        ));
    }
}

/// A concrete segment standing in for one well-formed expression segment:
/// the segment itself when it is concrete, and an arbitrary fixed concrete
/// segment for the single-level wildcard, which accepts any segment.
pub open spec fn witness_seg(p: Seq<u8>) -> Seq<u8> {
    if is_single_wild(p) {
        seq![97u8]
    } else {
        p
    }
}

/// The stand-in segment is well-formed and accepted by its expression
/// segment.
proof fn lemma_witness_seg(p: Seq<u8>)
    requires
        wf_part(p),
        !is_multi_wild(p),
    ensures
        wf_seg(witness_seg(p)),
        is_single_wild(p) || p == witness_seg(p),
{
    if is_single_wild(p) {
        assert(wf_seg(seq![97u8]));
    }
}

/// The characterisation of intersection: two expressions intersect exactly
/// when at least one key — a sequence of segments — is matched by both.
pub proof fn lemma_inter_iff_shared_key(a: Seq<Seq<u8>>, b: Seq<Seq<u8>>)
    ensures
        inter(a, b) <==> exists|k: Seq<Seq<u8>>| #[trigger] expr_matches(a, k) && expr_matches(
            b,
            k,
        ),
{
    if inter(a, b) {
        lemma_inter_sound(a, b);
    }
    if exists|k: Seq<Seq<u8>>| #[trigger] expr_matches(a, k) && expr_matches(b, k) {
        let k = choose|k: Seq<Seq<u8>>| #[trigger] expr_matches(a, k) && expr_matches(b, k);
        lemma_inter_complete(a, b, k);
    }
}

/// For well-formed expressions the characterisation tightens: they
/// intersect exactly when at least one concrete key is matched by both.
pub proof fn lemma_inter_iff_shared_concrete_key(a: Seq<Seq<u8>>, b: Seq<Seq<u8>>)
    requires
        parts_wf(a),
        parts_wf(b),
    ensures
        inter(a, b) <==> exists|k: Seq<Seq<u8>>| #[trigger] expr_matches(a, k) && expr_matches(
            b,
            k,
        ) && concrete(k),
{
    if inter(a, b) {
        lemma_inter_sound_concrete(a, b);
    }
    if exists|k: Seq<Seq<u8>>| #[trigger] expr_matches(a, k) && expr_matches(b, k) && concrete(
        k,
    ) {
        let k = choose|k: Seq<Seq<u8>>|
            #[trigger] expr_matches(a, k) && expr_matches(b, k) && concrete(k);
        lemma_inter_complete(a, b, k);
    }
}

/// True when the byte string is the single-level wildcard segment.
pub fn seg_is_single_wild(s: &Vec<u8>) -> (b: bool)
    ensures
        b == is_single_wild(s@),
{
    if s.len() == 1 && s[0] == STAR {
        proof {
            assert(s@ =~= seq![STAR]);
        }
        true
    } else {
        proof {
            if s@ == seq![STAR] {
                assert(s@.len() == 1 && s@[0] == STAR);
            }
        }
        false
    }
}

/// True when the byte string is the multi-level wildcard segment.
pub fn seg_is_multi_wild(s: &Vec<u8>) -> (b: bool)
    ensures
        b == is_multi_wild(s@),
{
    if s.len() == 2 && s[0] == STAR && s[1] == STAR {
        proof {
            assert(s@ =~= seq![STAR, STAR]);
        }
        true
    } else {
        proof {
            if s@ == seq![STAR, STAR] {
                assert(s@.len() == 2 && s@[0] == STAR && s@[1] == STAR);
            }
        }
        false
    }
}

/// Byte-wise equality of two segments.
fn bytes_equal(x: &Vec<u8>, y: &Vec<u8>) -> (b: bool)
    ensures
        b == (x@ == y@),
{
    if x.len() != y.len() {
        return false;
    }
    let mut i: usize = 0;
    while i < x.len()
        invariant
            0 <= i <= x@.len(),
            x@.len() == y@.len(),
            forall|j: int| 0 <= j < i ==> x@[j] == y@[j],
        decreases x@.len() - i,
    {
        if x[i] != y[i] {
            return false;
        }
        i = i + 1;
    }
    proof {
        assert(x@ =~= y@);
    }
    true
}

/// Intersection test from segment position `i` of `a` and `j` of `b`.
fn inter_at(a: &KeyExpression, i: usize, b: &KeyExpression, j: usize) -> (r: bool)
    requires
        i <= a@.len(),
        j <= b@.len(),
    ensures
        r == inter(a@.skip(i as int), b@.skip(j as int)),
    decreases a@.len() - i + b@.len() - j,
{
    let ghost sa = a@.skip(i as int);
    let ghost sb = b@.skip(j as int);
    let an: usize = a.parts.len();
    let bn: usize = b.parts.len();
    proof {
        assert(a@.len() == a.parts@.len());
        assert(b@.len() == b.parts@.len());
        if i < an {
            lemma_deep_view_index(&a.parts, i as int);
            assert(sa[0] == a@[i as int]);
            assert(sa.drop_first() =~= a@.skip(i as int + 1));
        }
        if j < bn {
            lemma_deep_view_index(&b.parts, j as int);
            assert(sb[0] == b@[j as int]);
            assert(sb.drop_first() =~= b@.skip(j as int + 1));
        }
    }
    if i == an && j == bn {
        return true;
    }
    if i == an {
        if seg_is_multi_wild(&b.parts[j]) {
            return inter_at(a, i, b, j + 1);
        }
        return false;
    }
    if j == bn {
        if seg_is_multi_wild(&a.parts[i]) {
            return inter_at(a, i + 1, b, j);
        }
        return false;
    }
    let a_multi: bool = seg_is_multi_wild(&a.parts[i]);
    let b_multi: bool = seg_is_multi_wild(&b.parts[j]);
    if a_multi || b_multi {
        if a_multi {
            if inter_at(a, i + 1, b, j) {
                return true;
            }
            if inter_at(a, i, b, j + 1) {
                return true;
            }
        }
        if b_multi {
            if inter_at(a, i, b, j + 1) {
                return true;
            }
            if inter_at(a, i + 1, b, j) {
                return true;
            }
        }
        return false;
    }
    if seg_is_single_wild(&a.parts[i]) || seg_is_single_wild(&b.parts[j]) {
        return inter_at(a, i + 1, b, j + 1);
    }
    if bytes_equal(&a.parts[i], &b.parts[j]) {
        return inter_at(a, i + 1, b, j + 1);
    }
    false
}

/// True when the two expressions intersect: some concrete key is matched by
/// both.
pub fn intersects(a: &KeyExpression, b: &KeyExpression) -> (r: bool)
    ensures
        r == inter(a@, b@),
{
    proof {
        assert(a@.skip(0) =~= a@);
        assert(b@.skip(0) =~= b@);
    }
    inter_at(a, 0, b, 0)
}

} // verus!
