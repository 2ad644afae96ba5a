//! What holds of unions across additions and listings.
use vstd::prelude::*;
use super::{Ty, is_top, is_compound_member};
use super::union::{
    UnionType, UnionView, UnionBase, view_add, view_add_union, add_ok, outer_top, base_is_top,
    top_base, norm, norm_has, lemma_norm_absorb, view_members, base_set, enumerates, fold_view,
    lemma_flatten, base_merge,
};
use vstd::multiset::Multiset;

verus! {

broadcast use vstd::seq_lib::group_seq_properties, vstd::set_lib::group_set_properties;

/// Adding `never` changes no union.
pub proof fn law_add_never(v: UnionView)
    ensures
        view_add(v, Ty::Never) == v,
{
}

/// A union that is `any`, `unknown` or the error type stays so whatever is
/// added, one type or a whole union.
pub proof fn law_top_absorbs(v: UnionView, t: Ty, w: UnionView)
    requires
        outer_top(v),
    ensures
        view_add(v, t) == v,
        view_add_union(v, w) == v,
{
}

/// Adding `any`, `unknown` or the error type to a union that does not already
/// swallow everything makes the union that type alone.
pub proof fn law_add_top(v: UnionView, t: Ty)
    requires
        is_top(t),
        !outer_top(v),
    ensures
        view_add(v, t) == (UnionView { base: top_base(t), unresolved: Multiset::empty() }),
{
}

/// Adding a resolved type twice is the same as adding it once.
pub proof fn law_add_idempotent(v: UnionView, t: Ty)
    requires
        !(t is Unresolved),
        !(t is Union),
        add_ok(v, t),
    ensures
        view_add(view_add(v, t), t) == view_add(v, t),
{
    let v1 = view_add(v, t);
    if !outer_top(v) && !is_top(t) && !(t is Never) && !base_is_top(v.base) {
        match v.base {
            UnionBase::Members(m) => {
                lemma_norm_absorb(m.insert(t), set![t]);
                assert(norm(m.insert(t)).insert(t) =~= norm(m.insert(t)).union(set![t]));
                assert(m.insert(t).union(set![t]) =~= m.insert(t));
                lemma_norm_idempotent(m.insert(t));
            },
            _ => {
                lemma_norm_absorb(set![t], set![t]);
                assert(norm(set![t]).insert(t) =~= norm(set![t]).union(set![t]));
                assert(set![t].union(set![t]) =~= set![t]);
                lemma_norm_idempotent(set![t]);
            },
        }
    }
}

/// Normalizing twice is normalizing once.
pub proof fn lemma_norm_idempotent(s: Set<Ty>)
    ensures
        norm(norm(s)) == norm(s),
{
    lemma_norm_absorb(s, Set::empty());
    assert(norm(s).union(Set::empty()) =~= norm(s));
    assert(s.union(Set::empty()) =~= s);
}

/// The order in which two types are added does not matter, unless they are two
/// different types among `any`, `unknown` and the error type: then the first wins.
pub proof fn law_add_commutative(v: UnionView, a: Ty, b: Ty)
    requires
        !(a is Union),
        !(b is Union),
        !(is_top(a) && is_top(b) && a != b),
        add_ok(v, a),
        add_ok(v, b),
    ensures
        view_add(view_add(v, a), b) == view_add(view_add(v, b), a),
{
    broadcast use vstd::multiset::group_multiset_axioms;

    let ab = view_add(view_add(v, a), b);
    let ba = view_add(view_add(v, b), a);
    if !outer_top(v) && !base_is_top(v.base) && is_compound_member(a) && is_compound_member(b) {
        match v.base {
            UnionBase::Members(m) => {
                lemma_norm_absorb(m.insert(a), set![b]);
                lemma_norm_absorb(m.insert(b), set![a]);
                assert(norm(m.insert(a)).insert(b) =~= norm(m.insert(a)).union(set![b]));
                assert(norm(m.insert(b)).insert(a) =~= norm(m.insert(b)).union(set![a]));
                assert(m.insert(a).union(set![b]) =~= m.insert(b).union(set![a]));
            },
            _ => {
                lemma_norm_absorb(set![a], set![b]);
                lemma_norm_absorb(set![b], set![a]);
                assert(norm(set![a]).insert(b) =~= norm(set![a]).union(set![b]));
                assert(norm(set![b]).insert(a) =~= norm(set![b]).union(set![a]));
                assert(set![a].union(set![b]) =~= set![b].union(set![a]));
            },
        }
    } else if a is Unresolved && b is Unresolved && !outer_top(v) {
        assert(v.unresolved.insert(a).insert(b) =~= v.unresolved.insert(b).insert(a));
    } else if a is Unresolved && !outer_top(v) && !is_top(b) && !(b is Never) && !(b is Unresolved) {
        assert(ab =~= ba);
    } else if b is Unresolved && !outer_top(v) && !is_top(a) && !(a is Never) && !(a is Unresolved) {
        assert(ab =~= ba);
    } else if is_top(a) && !outer_top(v) {
        if b is Unresolved {
            assert(view_add(v, b).unresolved.len() > 0);
        }
    } else if is_top(b) && !outer_top(v) {
        if a is Unresolved {
            assert(view_add(v, a).unresolved.len() > 0);
        }
    }
}

/// A literal added to a union that holds its general type is absorbed.
pub proof fn law_literal_absorbed(m: Set<Ty>, t: Ty, general: Ty)
    requires
        norm(m) == m,
        (t is StringLiteral && general == Ty::String) || (t is NumericLiteral && general == Ty::Number)
            || (t is BigIntLiteral && general == Ty::BigInt) || (t is UniqueSymbol && general
            == Ty::Symbol),
        m.contains(general),
    ensures
        norm(m.insert(t)) == m,
{
    assert forall|u: Ty| norm_has(m.insert(t), u) == m.contains(u) by {
        assert(norm(m).contains(u) == norm_has(m, u));
    }
    assert(norm(m.insert(t)) =~= m);
}

/// Adding the general type of a family drops its literals.
pub proof fn law_general_absorbs(m: Set<Ty>, general: Ty, lit: Ty)
    requires
        (lit is StringLiteral && general == Ty::String) || (lit is NumericLiteral && general == Ty::Number)
            || (lit is BigIntLiteral && general == Ty::BigInt) || (lit is UniqueSymbol && general
            == Ty::Symbol) || (lit is BooleanLiteral && general == Ty::Boolean),
    ensures
        !norm(m.insert(general)).contains(lit),
        norm(m.insert(general)).contains(general),
{
}

/// `true` and `false` together are `boolean`.
pub proof fn law_boolean_pair(m: Set<Ty>)
    ensures
        norm(m.insert(Ty::BooleanLiteral(true)).insert(Ty::BooleanLiteral(false))).contains(Ty::Boolean),
        !norm(m.insert(Ty::BooleanLiteral(true)).insert(Ty::BooleanLiteral(false))).contains(
            Ty::BooleanLiteral(true),
        ),
        !norm(m.insert(Ty::BooleanLiteral(true)).insert(Ty::BooleanLiteral(false))).contains(
            Ty::BooleanLiteral(false),
        ),
{
}

/// What `for_each` lists is exactly what the union holds.
pub proof fn law_for_each_lists_members(r: Seq<Ty>, u: UnionType)
    requires
        u.wf(),
        enumerates(r, u),
    ensures
        r.to_set() == view_members(u.view()),
{
    broadcast use vstd::seq_lib::group_to_multiset_ensures;

    let q = u.unresolved_seq();
    let k = r.len() - q.len();
    assert forall|x: Ty| r.to_set().contains(x) == view_members(u.view()).contains(x) by {
        assert(r =~= r.take(k) + q);
        if r.contains(x) {
            let i = choose|i: int| 0 <= i < r.len() && r[i] == x;
            if i < k {
                assert(r.take(k)[i] == x);
                assert(r.take(k).to_set().contains(x));
            } else {
                assert(q[i - k] == x);
                assert(q.contains(x));
            }
        }
        if view_members(u.view()).contains(x) {
            if base_set(u.base()).contains(x) {
                assert(r.take(k).to_set().contains(x));
                let i = choose|i: int| 0 <= i < k && r.take(k)[i] == x;
                assert(r[i] == x);
            } else {
                assert(q.to_multiset().count(x) > 0);
                assert(q.contains(x));
                let i = choose|i: int| 0 <= i < q.len() && q[i] == x;
                assert(r[k + i] == x);
            }
        }
    }
    assert(r.to_set() =~= view_members(u.view()));
}

/// Adding the same union twice is adding it once, when it holds no
/// unresolved type.
pub proof fn law_add_union_idempotent(v: UnionView, w: UnionView)
    requires
        w.unresolved.len() == 0,
    ensures
        view_add_union(view_add_union(v, w), w) == view_add_union(v, w),
{
    broadcast use vstd::multiset::group_multiset_axioms;

    assert(w.unresolved =~= Multiset::empty());
    if !base_is_top(v.base) {
        match w.base {
            UnionBase::Members(n) => {
                let m0 = match v.base {
                    UnionBase::Members(m) => m,
                    _ => Set::empty(),
                };
                assert(base_merge(v.base, n) == UnionBase::Members(norm(m0.union(n)))) by {
                    if !(v.base is Members) {
                        assert(m0.union(n) =~= n);
                    }
                }
                lemma_norm_absorb(m0.union(n), n);
                assert(m0.union(n).union(n) =~= m0.union(n));
                assert(v.unresolved.add(w.unresolved).add(w.unresolved) =~= v.unresolved);
                assert(v.unresolved.add(w.unresolved) =~= v.unresolved);
            },
            UnionBase::Never => {
                assert(v.unresolved.add(w.unresolved) =~= v.unresolved);
            },
            _ => {},
        }
    }
}

/// Adding a union to one with no unresolved type that does not swallow
/// everything is adding its members one by one, in the order `for_each`
/// lists them.
pub proof fn law_add_union_adds_members(v: UnionView, u: UnionType, r: Seq<Ty>)
    requires
        enumerates(r, u),
        u.wf(),
        !base_is_top(v.base),
        v.unresolved.len() == 0,
    ensures
        fold_view(v, r) == view_add_union(v, u.view()),
{
    lemma_flatten(v, u, r);
}

} // verus!
