//! What the matching rules promise, proved from their definition.
use vstd::prelude::*;
use super::{Ty, TyId, SymbolId, UnresolvedType};
use super::arena::TyArena;
use super::matching::{
    match_outcome, MatchOut, TyTerm, Outcome, Flow, InterAcc, callable_ty, sig_count, sig_this, sig_params,
    sig_return, sig_type_params, tparams_flow, this_flow, params_flow, return_outcome, inter_fold,
    inter_outcome, callable_outcome, merge_terms, term_rank, opt_term, lemma_sig_stored, build_term,
    union_like, simple, union_target_out,
};
use super::union::view_members;
use super::matching::{MatchResult, match_types_rel};
use crate::analyzer::{Analyzer, same_scopes};

verus! {

/// Every type extends itself.
pub proof fn law_match_reflexive(arena: TyArena, t: Ty)
    ensures
        match_outcome(arena, TyTerm::Known(t), TyTerm::Known(t)).out == MatchOut::Matched,
{
}

/// Matching a type against itself answers `Matched` and changes nothing:
/// whatever `match_types` leaves behind on equal types holds the same types
/// and scopes as before.
pub proof fn law_match_equal_leaves_state(a0: Analyzer, a1: Analyzer, t: Ty, r: MatchResult)
    requires
        a0.wf(),
        a1.wf(),
        a1.arena.extends(a0.arena),
        a1.arena.functions@ == a0.arena.functions@,
        a1.arena.constructors@ == a0.arena.constructors@,
        same_scopes(a0, a1),
        match_types_rel(a0.arena, a1.arena, t, t, r),
    ensures
        r is Matched,
        a1.arena.unions@ == a0.arena.unions@,
        a1.arena.intersections@ == a0.arena.intersections@,
        a1.arena.functions@ == a0.arena.functions@,
        a1.arena.constructors@ == a0.arena.constructors@,
        a1.arena.interfaces == a0.arena.interfaces,
        a1.arena.union_ranks@ == a0.arena.union_ranks@,
        a1.arena.intersection_ranks@ == a0.arena.intersection_ranks@,
        a1.arena.function_ranks@ == a0.arena.function_ranks@,
        a1.arena.constructor_ranks@ == a0.arena.constructor_ranks@,
{
    assert(match_outcome(a0.arena, TyTerm::Known(t), TyTerm::Known(t)).out == MatchOut::Matched);
    assert(a1.arena.unions@ =~= a0.arena.unions@);
    assert(a1.arena.intersections@ =~= a0.arena.intersections@);
    assert(a1.arena.union_ranks@ =~= a0.arena.union_ranks@);
    assert(a1.arena.intersection_ranks@ =~= a0.arena.intersection_ranks@);
    assert(a1.arena.function_ranks@ =~= a0.arena.function_ranks@);
    assert(a1.arena.constructor_ranks@ =~= a0.arena.constructor_ranks@);
}

/// A pattern `infer s` binds `s` to any other target.
pub proof fn law_infer_binds_target(arena: TyArena, t: Ty, s: SymbolId)
    requires
        t != Ty::Unresolved(UnresolvedType::InferType(s)),
    ensures
        match_outcome(arena, TyTerm::Known(t), TyTerm::Known(Ty::Unresolved(UnresolvedType::InferType(s)))).out
            == MatchOut::Inferred(map![s => TyTerm::Known(t)]),
{
}

/// `any` and error targets answer both ways against any other pattern that
/// binds nothing.
pub proof fn law_top_target_answers_both(arena: TyArena, t: Ty, p: Ty)
    requires
        t == Ty::Any || t == Ty::Error,
        t != p,
        !(p is Unresolved && p->Unresolved_0 is InferType),
    ensures
        match_outcome(arena, TyTerm::Known(t), TyTerm::Known(p)).out == MatchOut::Multiple,
{
}

/// Every other target extends `any`, `unknown` and error patterns.
pub proof fn law_top_pattern_matches(arena: TyArena, t: Ty, p: Ty)
    requires
        p == Ty::Any || p == Ty::Unknown || p == Ty::Error,
        t != Ty::Any && t != Ty::Error,
        !(t is Unresolved && t->Unresolved_0 is InferType),
    ensures
        match_outcome(arena, TyTerm::Known(t), TyTerm::Known(p)).out == MatchOut::Matched,
{
}

/// A literal type extends its general type, and `undefined` extends `void`.
pub proof fn law_literal_extends_general(arena: TyArena, a: u64, b: bool)
    ensures
        match_outcome(arena, TyTerm::Known(Ty::StringLiteral(a)), TyTerm::Known(Ty::String)).out == MatchOut::Matched,
        match_outcome(arena, TyTerm::Known(Ty::NumericLiteral(a)), TyTerm::Known(Ty::Number)).out == MatchOut::Matched,
        match_outcome(arena, TyTerm::Known(Ty::BigIntLiteral(a)), TyTerm::Known(Ty::BigInt)).out == MatchOut::Matched,
        match_outcome(arena, TyTerm::Known(Ty::BooleanLiteral(b)), TyTerm::Known(Ty::Boolean)).out == MatchOut::Matched,
        match_outcome(arena, TyTerm::Known(Ty::UniqueSymbol(a)), TyTerm::Known(Ty::Symbol)).out == MatchOut::Matched,
        match_outcome(arena, TyTerm::Known(Ty::Undefined), TyTerm::Known(Ty::Void)).out == MatchOut::Matched,
{
}

/// A general type does not extend a literal type of it, in any family.
pub proof fn law_general_not_literal(arena: TyArena, a: u64, b: bool)
    ensures
        match_outcome(arena, TyTerm::Known(Ty::String), TyTerm::Known(Ty::StringLiteral(a))).out == MatchOut::Unmatched,
        match_outcome(arena, TyTerm::Known(Ty::Number), TyTerm::Known(Ty::NumericLiteral(a))).out == MatchOut::Unmatched,
        match_outcome(arena, TyTerm::Known(Ty::BigInt), TyTerm::Known(Ty::BigIntLiteral(a))).out == MatchOut::Unmatched,
        match_outcome(arena, TyTerm::Known(Ty::Boolean), TyTerm::Known(Ty::BooleanLiteral(b))).out == MatchOut::Unmatched,
        match_outcome(arena, TyTerm::Known(Ty::Symbol), TyTerm::Known(Ty::UniqueSymbol(a))).out == MatchOut::Unmatched,
{
}

/// Type-level entities make a comparison an error.
pub proof fn law_non_value_is_error(arena: TyArena, t: Ty, g: u32)
    requires
        t != Ty::Generic(g),
        !(t is Unresolved && t->Unresolved_0 is InferType),
        t != Ty::Any && t != Ty::Error,
        !(t is Union || t is Intersection),
    ensures
        match_outcome(arena, TyTerm::Known(t), TyTerm::Known(Ty::Generic(g))).out == MatchOut::Error,
        match_outcome(arena, TyTerm::Known(Ty::Generic(g)), TyTerm::Known(Ty::Number)).out == MatchOut::Error,
{
}

/// The symbols of the `infer` types in `t`: itself, or inside the `this`,
/// parameter and return types of a signature, or inside the types of an
/// intersection.
pub open spec fn ty_infers(arena: TyArena, t: Ty) -> Set<SymbolId>
    decreases arena.rank(t), 1nat, 0nat,
{
    match t {
        Ty::Unresolved(UnresolvedType::InferType(s)) => set![s],
        Ty::Function(i) => if (i as int) < arena.functions@.len() {
            tys_infers(arena, sig_components(false, arena, i), arena.rank(t))
        } else {
            Set::empty()
        },
        Ty::Constructor(i) => if (i as int) < arena.constructors@.len() {
            tys_infers(arena, sig_components(true, arena, i), arena.rank(t))
        } else {
            Set::empty()
        },
        Ty::Intersection(j) => if (j as int) < arena.intersections@.len() {
            tys_infers(arena, arena.intersections@[j as int]@, arena.rank(t))
        } else {
            Set::empty()
        },
        _ => Set::empty(),
    }
}

/// The symbols of the `infer` types in the types of `s` that rank below `bound`.
pub open spec fn tys_infers(arena: TyArena, s: Seq<Ty>, bound: nat) -> Set<SymbolId>
    decreases bound, 0nat, s.len(),
{
    if s.len() == 0 {
        Set::empty()
    } else {
        tys_infers(arena, s.drop_last(), bound).union(
            if arena.rank(s.last()) < bound {
                ty_infers(arena, s.last())
            } else {
                Set::empty()
            },
        )
    }
}

/// The `this`, parameter and return types of a signature, in order.
pub open spec fn sig_components(ctor: bool, arena: TyArena, i: TyId) -> Seq<Ty> {
    (match sig_this(ctor, arena, i) {
        Some(t) => seq![t],
        None => Seq::empty(),
    }) + sig_params(ctor, arena, i).map_values(|p: (bool, Ty)| p.1) + seq![sig_return(ctor, arena, i)]
}

pub open spec fn term_infers(arena: TyArena, t: TyTerm) -> Set<SymbolId> {
    match t {
        TyTerm::Known(x) => ty_infers(arena, x),
        TyTerm::Opt(x) => ty_infers(arena, x),
        TyTerm::Meet(_) => Set::empty(),
    }
}

proof fn lemma_tys_infers_elem(arena: TyArena, s: Seq<Ty>, bound: nat, k: int)
    requires
        0 <= k < s.len(),
        arena.rank(s[k]) < bound,
    ensures
        ty_infers(arena, s[k]).subset_of(tys_infers(arena, s, bound)),
    decreases s.len(),
{
    if k < s.len() - 1 {
        lemma_tys_infers_elem(arena, s.drop_last(), bound, k);
    }
}

/// The `infer` types of a signature's parts are the signature's.
proof fn lemma_sig_component_infers(ctor: bool, arena: TyArena, i: TyId)
    requires
        arena.wf(),
        (i as int) < sig_count(ctor, arena),
    ensures
        sig_this(ctor, arena, i) is Some ==> ty_infers(arena, sig_this(ctor, arena, i)->0).subset_of(
            ty_infers(arena, callable_ty(ctor, i)),
        ),
        forall|k: int| 0 <= k < sig_params(ctor, arena, i).len() ==> ty_infers(
            arena,
            (#[trigger] sig_params(ctor, arena, i)[k]).1,
        ).subset_of(ty_infers(arena, callable_ty(ctor, i))),
        ty_infers(arena, sig_return(ctor, arena, i)).subset_of(ty_infers(arena, callable_ty(ctor, i))),
{
    lemma_sig_stored(ctor, arena, i);
    let c = sig_components(ctor, arena, i);
    let off: int = if sig_this(ctor, arena, i) is Some { 1 } else { 0 };
    let ps = sig_params(ctor, arena, i);
    let bound = arena.rank(callable_ty(ctor, i));
    assert(ty_infers(arena, callable_ty(ctor, i)) == tys_infers(arena, c, bound));
    assert(c.len() == off + ps.len() + 1);
    if sig_this(ctor, arena, i) is Some {
        assert(c[0] == sig_this(ctor, arena, i)->0);
        lemma_tys_infers_elem(arena, c, bound, 0);
    }
    assert forall|k: int| 0 <= k < ps.len() implies ty_infers(arena, (#[trigger] ps[k]).1).subset_of(
        tys_infers(arena, c, bound),
    ) by {
        assert(c[off + k] == ps[k].1);
        lemma_tys_infers_elem(arena, c, bound, off + k);
    }
    assert(c[off + ps.len()] == sig_return(ctor, arena, i));
    lemma_tys_infers_elem(arena, c, bound, off + ps.len());
}

/// The step answers so far are no bindings.
pub open spec fn no_inferred_stop(f: Flow) -> bool {
    !(f matches Flow::Stop(MatchOut::Inferred(_), _))
}

/// What matching binds are `infer` types of the target or of the pattern.
pub proof fn lemma_match_binds(arena: TyArena, t: TyTerm, p: TyTerm)
    requires
        arena.wf(),
    ensures
        match_outcome(arena, t, p).out matches MatchOut::Inferred(m) ==> m.dom().subset_of(
            term_infers(arena, t).union(term_infers(arena, p)),
        ),
    decreases term_rank(arena, t) + term_rank(arena, p), 3nat, 0nat,
{
    if t is Known && p is Known && t->Known_0 == p->Known_0 {
    } else if p matches TyTerm::Known(Ty::Unresolved(UnresolvedType::InferType(s))) {
    } else if t matches TyTerm::Known(Ty::Unresolved(UnresolvedType::InferType(s))) {
    } else if t == TyTerm::Known(Ty::Any) || t == TyTerm::Known(Ty::Error) {
    } else if p == TyTerm::Known(Ty::Any) || p == TyTerm::Known(Ty::Error) || p == TyTerm::Known(Ty::Unknown) {
    } else {
        match (t, p) {
            (TyTerm::Known(Ty::Function(a)), TyTerm::Known(Ty::Function(b))) => {
                lemma_callable_binds(false, arena, a, b);
            },
            (TyTerm::Known(Ty::Constructor(a)), TyTerm::Known(Ty::Constructor(b))) => {
                lemma_callable_binds(true, arena, a, b);
            },
            _ => {
                if let TyTerm::Known(Ty::Intersection(j)) = t {
                    lemma_inter_binds(arena, j, p);
                }
            },
        }
    }
}

proof fn lemma_callable_binds(ctor: bool, arena: TyArena, a: TyId, b: TyId)
    requires
        arena.wf(),
    ensures
        callable_outcome(ctor, arena, a, b).out matches MatchOut::Inferred(m) ==> m.dom().subset_of(
            ty_infers(arena, callable_ty(ctor, a)).union(ty_infers(arena, callable_ty(ctor, b))),
        ),
    decreases arena.rank(callable_ty(ctor, a)) + arena.rank(callable_ty(ctor, b)), 2nat, 0nat,
{
    let bound = arena.rank(callable_ty(ctor, a)) + arena.rank(callable_ty(ctor, b));
    if (a as int) < sig_count(ctor, arena) && (b as int) < sig_count(ctor, arena) && sig_type_params(
        ctor,
        arena,
        a,
    ).len() == sig_type_params(ctor, arena, b).len() {
        let sa = ty_infers(arena, callable_ty(ctor, a));
        let sb = ty_infers(arena, callable_ty(ctor, b));
        let big = sa.union(sb);
        lemma_sig_component_infers(ctor, arena, a);
        lemma_sig_component_infers(ctor, arena, b);
        let tps = sig_type_params(ctor, arena, a);
        let pps = sig_type_params(ctor, arena, b);
        let f1 = tparams_flow(arena, tps, pps, tps.len(), bound);
        lemma_tparams_binds_nothing(arena, tps, pps, tps.len(), bound);
        let f2 = this_flow(arena, sig_this(ctor, arena, a), sig_this(ctor, arena, b), f1, bound);
        lemma_this_binds(arena, sig_this(ctor, arena, a), sig_this(ctor, arena, b), f1, bound, big);
        let tpar = sig_params(ctor, arena, a);
        let ppar = sig_params(ctor, arena, b);
        lemma_params_binds(arena, tpar, ppar, tpar.len(), bound, f2, big);
        let f3 = params_flow(arena, tpar, ppar, tpar.len(), bound, f2);
        lemma_return_binds(arena, sig_return(ctor, arena, a), sig_return(ctor, arena, b), f3, bound, big);
    }
}

proof fn lemma_tparams_binds_nothing(
    arena: TyArena,
    tps: Seq<super::callable::GenericParam>,
    pps: Seq<super::callable::GenericParam>,
    k: nat,
    bound: nat,
)
    ensures
        tparams_flow(arena, tps, pps, k, bound) is Go ==> tparams_flow(arena, tps, pps, k, bound)->Go_0 == Map::<
            SymbolId,
            TyTerm,
        >::empty(),
        no_inferred_stop(tparams_flow(arena, tps, pps, k, bound)),
    decreases k,
{
    if k > 0 {
        lemma_tparams_binds_nothing(arena, tps, pps, (k - 1) as nat, bound);
    }
}

proof fn lemma_this_binds(arena: TyArena, tt: Option<Ty>, pt: Option<Ty>, f: Flow, bound: nat, big: Set<SymbolId>)
    requires
        arena.wf(),
        f is Go ==> f->Go_0.dom().subset_of(big),
        tt is Some ==> ty_infers(arena, tt->0).subset_of(big),
        pt is Some ==> ty_infers(arena, pt->0).subset_of(big),
        no_inferred_stop(f),
    ensures
        this_flow(arena, tt, pt, f, bound) is Go ==> this_flow(arena, tt, pt, f, bound)->Go_0.dom().subset_of(big),
        no_inferred_stop(this_flow(arena, tt, pt, f, bound)),
    decreases bound, 1nat, 0nat,
{
    if f is Go && tt is Some && pt is Some {
        let x = TyTerm::Known(pt->0);
        let y = TyTerm::Known(tt->0);
        if term_rank(arena, x) + term_rank(arena, y) < bound {
            lemma_match_binds(arena, x, y);
        }
    }
}

proof fn lemma_params_binds(
    arena: TyArena,
    tps: Seq<(bool, Ty)>,
    pps: Seq<(bool, Ty)>,
    k: nat,
    bound: nat,
    start: Flow,
    big: Set<SymbolId>,
)
    requires
        arena.wf(),
        start is Go ==> start->Go_0.dom().subset_of(big),
        no_inferred_stop(start),
        k <= tps.len(),
        forall|j: int| 0 <= j < tps.len() ==> ty_infers(arena, (#[trigger] tps[j]).1).subset_of(big),
        forall|j: int| 0 <= j < pps.len() ==> ty_infers(arena, (#[trigger] pps[j]).1).subset_of(big),
    ensures
        params_flow(arena, tps, pps, k, bound, start) is Go ==> params_flow(arena, tps, pps, k, bound, start)->Go_0.dom().subset_of(
            big,
        ),
        no_inferred_stop(params_flow(arena, tps, pps, k, bound, start)),
    decreases bound, 1nat, k,
{
    if k > 0 {
        lemma_params_binds(arena, tps, pps, (k - 1) as nat, bound, start, big);
        let prev = params_flow(arena, tps, pps, (k - 1) as nat, bound, start);
        if prev is Go {
            let idx = k - 1;
            if idx < tps.len() && idx < pps.len() {
                let to = tps[idx].0;
                let t = tps[idx].1;
                let po = pps[idx].0;
                let p = pps[idx].1;
                let x = if to != po { opt_term(po, p) } else { TyTerm::Known(p) };
                let y = if to != po { opt_term(to, t) } else { TyTerm::Known(t) };
                assert(ty_infers(arena, tps[idx].1).subset_of(big));
                assert(ty_infers(arena, pps[idx].1).subset_of(big));
                assert(term_infers(arena, x).subset_of(big));
                assert(term_infers(arena, y).subset_of(big));
                if term_rank(arena, x) + term_rank(arena, y) < bound {
                    lemma_match_binds(arena, x, y);
                    let m = prev->Go_0;
                    if let MatchOut::Inferred(m2) = match_outcome(arena, x, y).out {
                        assert forall|q: SymbolId| #[trigger] m.union_prefer_right(m2).dom().contains(q) implies big.contains(q) by {
                            if m2.dom().contains(q) {
                                assert(term_infers(arena, x).union(term_infers(arena, y)).contains(q));
                            } else {
                                assert(m.dom().contains(q));
                            }
                        }
                    }
                }
            }
        }
    }
}

proof fn lemma_return_binds(arena: TyArena, tr: Ty, pr: Ty, f: Flow, bound: nat, big: Set<SymbolId>)
    requires
        arena.wf(),
        f is Go ==> f->Go_0.dom().subset_of(big),
        no_inferred_stop(f),
        ty_infers(arena, tr).subset_of(big),
        ty_infers(arena, pr).subset_of(big),
    ensures
        return_outcome(arena, tr, pr, f, bound).out matches MatchOut::Inferred(m) ==> m.dom().subset_of(big),
    decreases bound, 1nat, 0nat,
{
    if let Flow::Go(m, c) = f {
        let x = TyTerm::Known(tr);
        let y = TyTerm::Known(pr);
        if term_rank(arena, x) + term_rank(arena, y) < bound {
            lemma_match_binds(arena, x, y);
            let o = match_outcome(arena, x, y);
            if let MatchOut::Inferred(m2) = o.out {
                let r = m.union_prefer_right(m2);
                assert(return_outcome(arena, tr, pr, f, bound).out == MatchOut::Inferred(r));
                assert forall|q: SymbolId| #[trigger] r.dom().contains(q) implies big.contains(q) by {
                    if m2.dom().contains(q) {
                        assert(term_infers(arena, x).union(term_infers(arena, y)).contains(q));
                    } else {
                        assert(m.dom().contains(q));
                    }
                }
            }
        }
    }
}

proof fn lemma_inter_fold_binds(arena: TyArena, types: Seq<Ty>, p: TyTerm, bound: nat, big: Set<SymbolId>)
    requires
        arena.wf(),
        term_infers(arena, p).subset_of(big),
        forall|k: int| 0 <= k < types.len() && arena.rank(#[trigger] types[k]) + term_rank(arena, p) < bound
            ==> ty_infers(arena, types[k]).subset_of(big),
    ensures
        inter_fold(arena, types, p, bound).inferred matches Some(m) ==> m.dom().subset_of(big),
    decreases bound, 1nat, types.len(),
{
    if types.len() > 0 {
        let last = types.len() - 1;
        assert forall|k: int| 0 <= k < types.drop_last().len() && arena.rank(#[trigger] types.drop_last()[k])
            + term_rank(arena, p) < bound implies ty_infers(arena, types.drop_last()[k]).subset_of(big) by {
            assert(types.drop_last()[k] == types[k]);
        }
        lemma_inter_fold_binds(arena, types.drop_last(), p, bound, big);
        let m = types[last];
        if arena.rank(m) + term_rank(arena, p) < bound {
            lemma_match_binds(arena, TyTerm::Known(m), p);
            let acc = inter_fold(arena, types.drop_last(), p, bound);
            let o = match_outcome(arena, TyTerm::Known(m), p);
            if let MatchOut::Inferred(mm) = o.out {
                let acc0: Map<SymbolId, Seq<TyTerm>> = match acc.inferred {
                    Some(i) => i,
                    None => Map::empty(),
                };
                assert(merge_terms(acc0, mm).dom() =~= acc0.dom().union(mm.dom()));
            }
        }
    }
}

proof fn lemma_inter_binds(arena: TyArena, j: TyId, p: TyTerm)
    requires
        arena.wf(),
    ensures
        inter_outcome(arena, j, p).out matches MatchOut::Inferred(m) ==> m.dom().subset_of(
            ty_infers(arena, Ty::Intersection(j)).union(term_infers(arena, p)),
        ),
    decreases arena.rank(Ty::Intersection(j)) + term_rank(arena, p), 2nat, 0nat,
{
    if (j as int) < arena.intersections@.len() {
        let types = arena.intersections@[j as int]@;
        let bound = arena.rank(Ty::Intersection(j)) + term_rank(arena, p);
        let big = ty_infers(arena, Ty::Intersection(j)).union(term_infers(arena, p));
        assert forall|k: int| 0 <= k < types.len() && arena.rank(#[trigger] types[k]) + term_rank(arena, p) < bound
            implies ty_infers(arena, types[k]).subset_of(big) by {
            lemma_tys_infers_elem(arena, types, arena.rank(Ty::Intersection(j)), k);
        }
        lemma_inter_fold_binds(arena, types, p, bound, big);
        let acc = inter_fold(arena, types, p, bound);
        if let Some(m) = acc.inferred {
            assert(m.map_values(|s: Seq<TyTerm>| build_term(s)).dom() =~= m.dom());
        }
    }
}

/// Matching binds only `infer` types: those of the target and of the pattern.
pub proof fn law_bindings_are_infer_types(arena: TyArena, t: Ty, p: Ty)
    requires
        arena.wf(),
    ensures
        match_outcome(arena, TyTerm::Known(t), TyTerm::Known(p)).out matches MatchOut::Inferred(m) ==> m.dom().subset_of(
            ty_infers(arena, t).union(ty_infers(arena, p)),
        ),
{
    lemma_match_binds(arena, TyTerm::Known(t), TyTerm::Known(p));
}

/// When the target holds no `infer` type, what matching binds are the
/// `infer` types of the pattern.
pub proof fn law_bindings_come_from_pattern(arena: TyArena, t: Ty, p: Ty)
    requires
        arena.wf(),
        ty_infers(arena, t) == Set::<SymbolId>::empty(),
    ensures
        match_outcome(arena, TyTerm::Known(t), TyTerm::Known(p)).out matches MatchOut::Inferred(m) ==> m.dom().subset_of(
            ty_infers(arena, p),
        ),
{
    lemma_match_binds(arena, TyTerm::Known(t), TyTerm::Known(p));
    assert(ty_infers(arena, t).union(ty_infers(arena, p)) =~= ty_infers(arena, p));
}

/// A union target that is not the pattern, against a pattern that is no
/// union, binds nothing and swallows nothing, answers once per member: the
/// answer is defined exactly when every member's is.
pub proof fn law_union_target_answers_per_member(arena: TyArena, j: TyId, p: Ty)
    requires
        !(p is Union),
        p != Ty::Union(j),
        !(p is Unresolved && p->Unresolved_0 is InferType),
        p != Ty::Any && p != Ty::Error && p != Ty::Unknown,
        (j as int) < arena.unions@.len(),
        forall|m: Ty| #[trigger] view_members(arena.union_view(j)).contains(m) ==> arena.rank(m) < arena.rank(
            Ty::Union(j),
        ),
    ensures
        match_outcome(arena, TyTerm::Known(Ty::Union(j)), TyTerm::Known(p)).out == (if forall|m: Ty| #[trigger]
            view_members(arena.union_view(j)).contains(m) ==> !(match_outcome(
                arena,
                TyTerm::Known(m),
                TyTerm::Known(p),
            ).out is Panic) {
            MatchOut::Multiple
        } else {
            MatchOut::Panic
        }),
{
    assert(match_outcome(arena, TyTerm::Known(Ty::Union(j)), TyTerm::Known(p)).out == union_target_out(
        arena,
        j,
        TyTerm::Known(p),
    ));
}

/// An intersection target against a pattern that is neither an
/// intersection, an `infer` type nor a type that accepts everything is
/// answered by combining what its types answer.
pub proof fn law_intersection_target_combines(arena: TyArena, j: TyId, p: Ty)
    requires
        !(p is Intersection),
        !(p is Union),
        !(p is Unresolved && p->Unresolved_0 is InferType),
        p != Ty::Any && p != Ty::Error && p != Ty::Unknown,
    ensures
        match_outcome(arena, TyTerm::Known(Ty::Intersection(j)), TyTerm::Known(p)) == inter_outcome(
            arena,
            j,
            TyTerm::Known(p),
        ),
{
}

/// How the answers of an intersection's types combine, where none stops the
/// analysis: an error if any is an error; matched if any matches or binds;
/// bindings if any binds.
pub proof fn law_intersection_answers(arena: TyArena, types: Seq<Ty>, p: TyTerm, bound: nat)
    requires
        !inter_fold(arena, types, p, bound).panic,
    ensures
        inter_fold(arena, types, p, bound).error <==> exists|k: int|
            0 <= k < types.len() && (match_outcome(arena, TyTerm::Known(#[trigger] types[k]), p).out is Error),
        inter_fold(arena, types, p, bound).matched <==> exists|k: int|
            0 <= k < types.len() && (match_outcome(arena, TyTerm::Known(#[trigger] types[k]), p).out is Matched
                || match_outcome(arena, TyTerm::Known(types[k]), p).out is Inferred),
        inter_fold(arena, types, p, bound).inferred is Some <==> exists|k: int|
            0 <= k < types.len() && (match_outcome(arena, TyTerm::Known(#[trigger] types[k]), p).out is Inferred),
    decreases types.len(),
{
    if types.len() > 0 {
        let last = types.len() - 1;
        let acc = inter_fold(arena, types.drop_last(), p, bound);
        assert(!acc.panic);
        law_intersection_answers(arena, types.drop_last(), p, bound);
        let o = match_outcome(arena, TyTerm::Known(types[last]), p);
        assert forall|k: int| 0 <= k < types.drop_last().len() implies types.drop_last()[k] == types[k] by {}
        if acc.error {
            let k = choose|k: int| 0 <= k < types.drop_last().len() && (match_outcome(arena, TyTerm::Known(#[trigger] types.drop_last()[k]), p).out is Error);
            assert(types.drop_last()[k] == types[k]);
        }
        if acc.matched {
            let k = choose|k: int| 0 <= k < types.drop_last().len() && (match_outcome(arena, TyTerm::Known(#[trigger] types.drop_last()[k]), p).out is Matched
                || match_outcome(arena, TyTerm::Known(types.drop_last()[k]), p).out is Inferred);
            assert(types.drop_last()[k] == types[k]);
        }
        if acc.inferred is Some {
            let k = choose|k: int| 0 <= k < types.drop_last().len() && (match_outcome(arena, TyTerm::Known(#[trigger] types.drop_last()[k]), p).out is Inferred);
            assert(types.drop_last()[k] == types[k]);
        }
        assert forall|k: int| 0 <= k < types.len() && (match_outcome(arena, TyTerm::Known(#[trigger] types[k]), p).out is Error)
            implies inter_fold(arena, types, p, bound).error by {
            if k < last {
                assert(types.drop_last()[k] == types[k]);
            }
        }
        assert forall|k: int| 0 <= k < types.len() && (match_outcome(arena, TyTerm::Known(#[trigger] types[k]), p).out is Matched
            || match_outcome(arena, TyTerm::Known(types[k]), p).out is Inferred)
            implies inter_fold(arena, types, p, bound).matched by {
            if k < last {
                assert(types.drop_last()[k] == types[k]);
            }
        }
        assert forall|k: int| 0 <= k < types.len() && (match_outcome(arena, TyTerm::Known(#[trigger] types[k]), p).out is Inferred)
            implies inter_fold(arena, types, p, bound).inferred is Some by {
            if k < last {
                assert(types.drop_last()[k] == types[k]);
            }
        }
    }
}

} // verus!
