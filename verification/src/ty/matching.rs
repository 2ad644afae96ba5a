//! Whether a type extends another (`Target extends Pattern`), and which
//! `infer` types of the pattern it binds.
use vstd::prelude::*;
use rustc_hash::FxHashMap;
use super::{Ty, TyId, SymbolId, UnresolvedType, is_non_value};
use super::arena::TyArena;
use super::callable::GenericParam;
use super::union::{fold_steps, never_view, view_members, enumerates, base_set, UnionType};
use super::union_laws::law_for_each_lists_members;
use super::callable::lemma_fold_steps_extends;
use super::arena::lemma_extends_contains;
use super::intersection::IntersectionTypeBuilder;
use crate::analyzer::{Analyzer, same_scopes};
use crate::collections::{fx_map_insert, fx_map_extend, fx_map_entries, fx_map_remove, fx_map_into_entries};

verus! {

/// The answer to `Target extends Pattern`.
pub enum MatchResult {
    /// The question involves a type that cannot be compared.
    Error,
    Unmatched,
    Matched,
    /// Matched, binding `infer` types of the pattern to these types.
    Inferred(FxHashMap<SymbolId, Ty>),
    /// One answer per possible value of the target.
    Multiple(Vec<MatchResult>),
}

/// A type as the matching rules describe it: one given, or one that matching
/// itself builds.
pub enum TyTerm {
    Known(Ty),
    /// A new union meaning `t | undefined`: the type of an optional parameter.
    Opt(Ty),
    /// A new intersection of these types, in order.
    Meet(Seq<TyTerm>),
}

/// What the matching rules answer; `Panic` where the analysis stops.
pub enum MatchOut {
    Panic,
    Error,
    Unmatched,
    Matched,
    Inferred(Map<SymbolId, TyTerm>),
    Multiple,
}

/// An answer, and at most how many types matching stores to reach it.
pub struct Outcome {
    pub out: MatchOut,
    pub cost: nat,
}

/// The progress of matching two signatures step by step: still going with
/// the bindings so far, or stopped with an answer.
pub enum Flow {
    Go(Map<SymbolId, TyTerm>, nat),
    Stop(MatchOut, nat),
}

/// The state of matching the types of an intersection one by one.
pub struct InterAcc {
    pub panic: bool,
    pub error: bool,
    pub matched: bool,
    pub inferred: Option<Map<SymbolId, Seq<TyTerm>>>,
    pub cost: nat,
}

pub open spec fn term_rank(arena: TyArena, t: TyTerm) -> nat {
    match t {
        TyTerm::Known(x) => arena.rank(x),
        TyTerm::Opt(x) => arena.rank(x) + 1,
        TyTerm::Meet(_) => 0,
    }
}

pub open spec fn opt_term(optional: bool, t: Ty) -> TyTerm {
    if optional {
        TyTerm::Opt(t)
    } else {
        TyTerm::Known(t)
    }
}

/// What an intersection builder gives for these types: the type itself
/// when there is one, a new intersection otherwise.
pub open spec fn build_term(s: Seq<TyTerm>) -> TyTerm {
    if s.len() == 1 {
        s[0]
    } else {
        TyTerm::Meet(s)
    }
}

pub open spec fn simple(o: MatchOut) -> Outcome {
    Outcome { out: o, cost: 0 }
}

pub open spec fn union_like(t: TyTerm) -> bool {
    t matches TyTerm::Known(Ty::Union(_)) || t is Opt
}

pub open spec fn callable_ty(ctor: bool, i: TyId) -> Ty {
    if ctor {
        Ty::Constructor(i)
    } else {
        Ty::Function(i)
    }
}

pub open spec fn sig_count(ctor: bool, arena: TyArena) -> nat {
    if ctor {
        arena.constructors@.len()
    } else {
        arena.functions@.len()
    }
}

pub open spec fn sig_type_params(ctor: bool, arena: TyArena, i: TyId) -> Seq<GenericParam> {
    if ctor {
        arena.constructors@[i as int].type_params@
    } else {
        arena.functions@[i as int].type_params@
    }
}

pub open spec fn sig_this(ctor: bool, arena: TyArena, i: TyId) -> Option<Ty> {
    if ctor {
        arena.constructors@[i as int].this_type
    } else {
        arena.functions@[i as int].this_type
    }
}

pub open spec fn sig_params(ctor: bool, arena: TyArena, i: TyId) -> Seq<(bool, Ty)> {
    if ctor {
        arena.constructors@[i as int].params@
    } else {
        arena.functions@[i as int].params@
    }
}

pub open spec fn sig_return(ctor: bool, arena: TyArena, i: TyId) -> Ty {
    if ctor {
        arena.constructors@[i as int].return_type
    } else {
        arena.functions@[i as int].return_type
    }
}

pub open spec fn constraint_or_unknown(p: GenericParam) -> Ty {
    match p.constraint {
        Some(c) => c,
        None => Ty::Unknown,
    }
}

/// The bindings of `acc` with those of `m` appended, symbol by symbol.
pub open spec fn merge_terms(acc: Map<SymbolId, Seq<TyTerm>>, m: Map<SymbolId, TyTerm>) -> Map<
    SymbolId,
    Seq<TyTerm>,
> {
    Map::new(
        |s: SymbolId| acc.dom().contains(s) || m.dom().contains(s),
        |s: SymbolId|
            (if acc.dom().contains(s) {
                acc[s]
            } else {
                Seq::empty()
            }) + (if m.dom().contains(s) {
                seq![m[s]]
            } else {
                Seq::empty()
            }),
    )
}

/// The rules of `Target extends Pattern`, tried in order.
pub open spec fn match_outcome(arena: TyArena, t: TyTerm, p: TyTerm) -> Outcome
    decreases term_rank(arena, t) + term_rank(arena, p), 3nat, 0nat,
{
    if t is Known && p is Known && t->Known_0 == p->Known_0 {
        simple(MatchOut::Matched)
    } else if p matches TyTerm::Known(Ty::Unresolved(UnresolvedType::InferType(s))) {
        simple(MatchOut::Inferred(map![p->Known_0->Unresolved_0->InferType_0 => t]))
    } else if t matches TyTerm::Known(Ty::Unresolved(UnresolvedType::InferType(s))) {
        simple(MatchOut::Inferred(map![t->Known_0->Unresolved_0->InferType_0 => p]))
    } else if t == TyTerm::Known(Ty::Any) || t == TyTerm::Known(Ty::Error) {
        simple(MatchOut::Multiple)
    } else if p == TyTerm::Known(Ty::Any) || p == TyTerm::Known(Ty::Error) || p == TyTerm::Known(
        Ty::Unknown,
    ) {
        simple(MatchOut::Matched)
    } else {
        match (t, p) {
            (TyTerm::Known(Ty::Undefined), TyTerm::Known(Ty::Void)) => simple(MatchOut::Matched),
            (TyTerm::Known(Ty::StringLiteral(_)), TyTerm::Known(Ty::String)) => simple(MatchOut::Matched),
            (TyTerm::Known(Ty::NumericLiteral(_)), TyTerm::Known(Ty::Number)) => simple(MatchOut::Matched),
            (TyTerm::Known(Ty::BigIntLiteral(_)), TyTerm::Known(Ty::BigInt)) => simple(MatchOut::Matched),
            (TyTerm::Known(Ty::BooleanLiteral(_)), TyTerm::Known(Ty::Boolean)) => simple(MatchOut::Matched),
            (TyTerm::Known(Ty::UniqueSymbol(_)), TyTerm::Known(Ty::Symbol)) => simple(MatchOut::Matched),
            (TyTerm::Known(Ty::Record(_)), TyTerm::Known(Ty::Record(_))) => simple(MatchOut::Panic),
            (TyTerm::Known(Ty::Function(a)), TyTerm::Known(Ty::Function(b))) => callable_outcome(false, arena, a, b),
            (TyTerm::Known(Ty::Constructor(a)), TyTerm::Known(Ty::Constructor(b))) => callable_outcome(true, arena, a, b),
            (TyTerm::Known(Ty::Namespace(_)), TyTerm::Known(Ty::Namespace(_))) => simple(MatchOut::Panic),
            _ => if union_like(t) && union_like(p) {
                simple(MatchOut::Panic)
            } else if t matches TyTerm::Known(Ty::Union(j)) {
                simple(union_target_out(arena, t->Known_0->Union_0, p))
            } else if t is Opt {
                simple(MatchOut::Multiple)
            } else if t matches TyTerm::Known(Ty::Intersection(j)) {
                if p matches TyTerm::Known(Ty::Intersection(_)) {
                    simple(MatchOut::Panic)
                } else {
                    inter_outcome(arena, t->Known_0->Intersection_0, p)
                }
            } else if t matches TyTerm::Known(Ty::Generic(_)) || t matches TyTerm::Known(Ty::Intrinsic(_))
                || p matches TyTerm::Known(Ty::Generic(_)) || p matches TyTerm::Known(Ty::Intrinsic(_)) {
                simple(MatchOut::Error)
            } else {
                simple(MatchOut::Unmatched)
            },
        }
    }
}

/// A union target answers once per member: defined when every member's
/// answer is.
pub open spec fn union_target_out(arena: TyArena, j: TyId, p: TyTerm) -> MatchOut
    decreases arena.rank(Ty::Union(j)) + term_rank(arena, p), 2nat, 0nat,
{
    if (j as int) < arena.unions@.len() && forall|m: Ty| #[trigger]
        super::union::view_members(arena.union_view(j)).contains(m) ==> arena.rank(m) < arena.rank(Ty::Union(j))
            && !(match_outcome(arena, TyTerm::Known(m), p).out is Panic) {
        MatchOut::Multiple
    } else {
        MatchOut::Panic
    }
}

/// Two signatures: type parameters, `this`, parameters, then the return type.
pub open spec fn callable_outcome(ctor: bool, arena: TyArena, a: TyId, b: TyId) -> Outcome
    decreases arena.rank(callable_ty(ctor, a)) + arena.rank(callable_ty(ctor, b)), 2nat, 0nat,
{
    let bound = arena.rank(callable_ty(ctor, a)) + arena.rank(callable_ty(ctor, b));
    if !((a as int) < sig_count(ctor, arena) && (b as int) < sig_count(ctor, arena)) {
        simple(MatchOut::Panic)
    } else if sig_type_params(ctor, arena, a).len() != sig_type_params(ctor, arena, b).len() {
        simple(MatchOut::Unmatched)
    } else {
        let f1 = tparams_flow(
            arena,
            sig_type_params(ctor, arena, a),
            sig_type_params(ctor, arena, b),
            sig_type_params(ctor, arena, a).len(),
            bound,
        );
        let f2 = this_flow(arena, sig_this(ctor, arena, a), sig_this(ctor, arena, b), f1, bound);
        let f3 = params_flow(
            arena,
            sig_params(ctor, arena, a),
            sig_params(ctor, arena, b),
            sig_params(ctor, arena, a).len(),
            bound,
            f2,
        );
        return_outcome(arena, sig_return(ctor, arena, a), sig_return(ctor, arena, b), f3, bound)
    }
}

/// The first `k` type parameters: where the constraints differ, the
/// pattern's constraint must extend the target's; bindings are dropped.
pub open spec fn tparams_flow(
    arena: TyArena,
    tps: Seq<GenericParam>,
    pps: Seq<GenericParam>,
    k: nat,
    bound: nat,
) -> Flow
    decreases bound, 1nat, k,
{
    if k == 0 {
        Flow::Go(Map::empty(), 0)
    } else {
        let prev = tparams_flow(arena, tps, pps, (k - 1) as nat, bound);
        match prev {
            Flow::Stop(_, _) => prev,
            Flow::Go(m, c) => {
                let tp = tps[k - 1];
                let pp = pps[k - 1];
                if tp.constraint == pp.constraint {
                    prev
                } else {
                    let x = TyTerm::Known(constraint_or_unknown(pp));
                    let y = TyTerm::Known(constraint_or_unknown(tp));
                    if term_rank(arena, x) + term_rank(arena, y) < bound {
                        let o = match_outcome(arena, x, y);
                        match o.out {
                            MatchOut::Error => Flow::Stop(MatchOut::Error, c + o.cost),
                            MatchOut::Unmatched => Flow::Stop(MatchOut::Unmatched, c + o.cost),
                            MatchOut::Matched => Flow::Go(m, c + o.cost),
                            MatchOut::Inferred(_) => Flow::Go(m, c + o.cost),
                            _ => Flow::Stop(MatchOut::Panic, 0),
                        }
                    } else {
                        Flow::Stop(MatchOut::Panic, 0)
                    }
                }
            },
        }
    }
}

/// The `this` types, when both signatures have one: the pattern's must
/// extend the target's.
pub open spec fn this_flow(arena: TyArena, tt: Option<Ty>, pt: Option<Ty>, f: Flow, bound: nat) -> Flow
    decreases bound, 1nat, 0nat,
{
    match f {
        Flow::Stop(_, _) => f,
        Flow::Go(m, c) => if tt is Some && pt is Some {
            let x = TyTerm::Known(pt->0);
            let y = TyTerm::Known(tt->0);
            if term_rank(arena, x) + term_rank(arena, y) < bound {
                let o = match_outcome(arena, x, y);
                match o.out {
                    MatchOut::Error => Flow::Stop(MatchOut::Error, c + o.cost),
                    MatchOut::Unmatched => Flow::Stop(MatchOut::Unmatched, c + o.cost),
                    MatchOut::Matched => Flow::Go(m, c + o.cost),
                    MatchOut::Inferred(m2) => Flow::Go(m.union_prefer_right(m2), c + o.cost),
                    _ => Flow::Stop(MatchOut::Panic, 0),
                }
            } else {
                Flow::Stop(MatchOut::Panic, 0)
            }
        } else {
            f
        },
    }
}

/// The first `k` parameters of the target: each the pattern has must extend
/// the pattern's (both made optional where only one is); one it lacks must
/// be optional.
pub open spec fn params_flow(
    arena: TyArena,
    tps: Seq<(bool, Ty)>,
    pps: Seq<(bool, Ty)>,
    k: nat,
    bound: nat,
    start: Flow,
) -> Flow
    decreases bound, 1nat, k,
{
    if k == 0 {
        start
    } else {
        let prev = params_flow(arena, tps, pps, (k - 1) as nat, bound, start);
        match prev {
            Flow::Stop(_, _) => prev,
            Flow::Go(m, c) => {
                let idx = k - 1;
                let to = tps[idx].0;
                let t = tps[idx].1;
                if idx < pps.len() {
                    let po = pps[idx].0;
                    let p = pps[idx].1;
                    let extra: nat = if to != po { 1 } else { 0 };
                    let x = if to != po { opt_term(po, p) } else { TyTerm::Known(p) };
                    let y = if to != po { opt_term(to, t) } else { TyTerm::Known(t) };
                    if to != po && ((to && is_non_value(t)) || (po && is_non_value(p))) {
                        Flow::Stop(MatchOut::Panic, 0)
                    } else if term_rank(arena, x) + term_rank(arena, y) < bound {
                        let o = match_outcome(arena, x, y);
                        match o.out {
                            MatchOut::Error => Flow::Stop(MatchOut::Error, c + extra + o.cost),
                            MatchOut::Unmatched => Flow::Stop(MatchOut::Unmatched, c + extra + o.cost),
                            MatchOut::Matched => Flow::Go(m, c + extra + o.cost),
                            MatchOut::Inferred(m2) => Flow::Go(m.union_prefer_right(m2), c + extra + o.cost),
                            _ => Flow::Stop(MatchOut::Panic, 0),
                        }
                    } else {
                        Flow::Stop(MatchOut::Panic, 0)
                    }
                } else if to {
                    prev
                } else {
                    Flow::Stop(MatchOut::Unmatched, c)
                }
            },
        }
    }
}

/// The return types: the target's must extend the pattern's. A plain match
/// answers `Matched` whatever was bound before.
pub open spec fn return_outcome(arena: TyArena, tr: Ty, pr: Ty, f: Flow, bound: nat) -> Outcome
    decreases bound, 1nat, 0nat,
{
    match f {
        Flow::Stop(o, c) => Outcome { out: o, cost: c },
        Flow::Go(m, c) => {
            let x = TyTerm::Known(tr);
            let y = TyTerm::Known(pr);
            if term_rank(arena, x) + term_rank(arena, y) < bound {
                let o = match_outcome(arena, x, y);
                match o.out {
                    MatchOut::Error => Outcome { out: MatchOut::Error, cost: c + o.cost },
                    MatchOut::Unmatched => Outcome { out: MatchOut::Unmatched, cost: c + o.cost },
                    MatchOut::Matched => Outcome { out: MatchOut::Matched, cost: c + o.cost },
                    MatchOut::Inferred(m2) => Outcome {
                        out: MatchOut::Inferred(m.union_prefer_right(m2)),
                        cost: c + o.cost,
                    },
                    _ => simple(MatchOut::Panic),
                }
            } else {
                simple(MatchOut::Panic)
            }
        },
    }
}

/// The types of an intersection target matched one by one.
pub open spec fn inter_fold(arena: TyArena, types: Seq<Ty>, p: TyTerm, bound: nat) -> InterAcc
    decreases bound, 1nat, types.len(),
{
    if types.len() == 0 {
        InterAcc { panic: false, error: false, matched: false, inferred: None, cost: 0 }
    } else {
        let acc = inter_fold(arena, types.drop_last(), p, bound);
        let m = types.last();
        if !(arena.rank(m) + term_rank(arena, p) < bound) {
            InterAcc { panic: true, ..acc }
        } else {
            let o = match_outcome(arena, TyTerm::Known(m), p);
            let acc2 = InterAcc { cost: acc.cost + o.cost, ..acc };
            match o.out {
                MatchOut::Error => InterAcc { error: true, ..acc2 },
                MatchOut::Unmatched => acc2,
                MatchOut::Matched => InterAcc { matched: true, ..acc2 },
                MatchOut::Inferred(mm) => InterAcc {
                    matched: true,
                    inferred: Some(
                        merge_terms(
                            match acc.inferred {
                                Some(i) => i,
                                None => Map::empty(),
                            },
                            mm,
                        ),
                    ),
                    ..acc2
                },
                _ => InterAcc { panic: true, ..acc2 },
            }
        }
    }
}

/// An intersection target: an error if any of its types gives one, else
/// matched if any matches, the bindings of one symbol intersected.
pub open spec fn inter_outcome(arena: TyArena, j: TyId, p: TyTerm) -> Outcome
    decreases arena.rank(Ty::Intersection(j)) + term_rank(arena, p), 2nat, 0nat,
{
    if !((j as int) < arena.intersections@.len()) {
        simple(MatchOut::Panic)
    } else {
        let acc = inter_fold(
            arena,
            arena.intersections@[j as int]@,
            p,
            arena.rank(Ty::Intersection(j)) + term_rank(arena, p),
        );
        if acc.panic {
            simple(MatchOut::Panic)
        } else if acc.error {
            Outcome { out: MatchOut::Error, cost: acc.cost }
        } else if acc.matched {
            match acc.inferred {
                Some(m) => Outcome {
                    out: MatchOut::Inferred(m.map_values(|s: Seq<TyTerm>| build_term(s))),
                    cost: acc.cost + m.dom().len(),
                },
                None => Outcome { out: MatchOut::Matched, cost: acc.cost },
            }
        } else {
            Outcome { out: MatchOut::Unmatched, cost: acc.cost }
        }
    }
}


/// `ty` is a type that `term` describes: the given type itself, stored in
/// `base`; a union stored after `base` meaning `t | undefined`; or a stored
/// intersection of types that the terms describe, in order.
pub open spec fn denotes(base: TyArena, arena: TyArena, term: TyTerm, ty: Ty) -> bool
    decreases term,
{
    match term {
        TyTerm::Known(x) => ty == x && base.contains(x),
        TyTerm::Opt(x) => {
            &&& ty is Union
            &&& base.unions@.len() <= ty->Union_0 < arena.unions@.len()
            &&& arena.union_view(ty->Union_0) == fold_steps(base, never_view(), seq![x, Ty::Undefined])
            &&& base.contains(x)
        },
        TyTerm::Meet(s) => {
            &&& ty is Intersection
            &&& (ty->Intersection_0 as int) < arena.intersections@.len()
            &&& arena.intersections@[ty->Intersection_0 as int]@.len() == s.len()
            &&& forall|i: int|
                0 <= i < s.len() ==> denotes(
                    base,
                    arena,
                    s[i],
                    #[trigger] arena.intersections@[ty->Intersection_0 as int]@[i],
                )
        },
    }
}

/// The bindings `rm` are those `m` describes.
pub open spec fn bindings_rel(base: TyArena, arena: TyArena, m: Map<SymbolId, TyTerm>, rm: Map<SymbolId, Ty>) -> bool {
    &&& rm.dom() == m.dom()
    &&& forall|s: SymbolId| #[trigger] m.dom().contains(s) ==> denotes(base, arena, m[s], rm[s])
}

/// `r` is the answer `out` describes; where it lists both answers, the
/// target was `any` or an error.
pub open spec fn result_rel(base: TyArena, arena: TyArena, out: MatchOut, r: MatchResult) -> bool {
    match out {
        MatchOut::Error => r is Error,
        MatchOut::Unmatched => r is Unmatched,
        MatchOut::Matched => r is Matched,
        MatchOut::Inferred(m) => r matches MatchResult::Inferred(rm) && bindings_rel(base, arena, m, rm@),
        MatchOut::Multiple => r matches MatchResult::Multiple(l) && l@.len() == 2 && l@[0] is Unmatched
            && l@[1] is Matched,
        MatchOut::Panic => false,
    }
}

pub open spec fn flow_cost(f: Flow) -> nat {
    match f {
        Flow::Go(_, c) => c,
        Flow::Stop(_, c) => c,
    }
}

pub open spec fn flow_panics(f: Flow) -> bool {
    f matches Flow::Stop(MatchOut::Panic, _)
}

/// The types that `term` describes in `a1` it describes in an extension.
pub proof fn lemma_denotes_extends(base: TyArena, a1: TyArena, a2: TyArena, term: TyTerm, ty: Ty)
    requires
        a2.extends(a1),
        denotes(base, a1, term, ty),
    ensures
        denotes(base, a2, term, ty),
    decreases term,
{
    match term {
        TyTerm::Known(_) => {},
        TyTerm::Opt(_) => {
            assert(a2.unions@[ty->Union_0 as int] == a1.unions@[ty->Union_0 as int]);
        },
        TyTerm::Meet(s) => {
            let j = ty->Intersection_0 as int;
            assert(a2.intersections@[j] == a1.intersections@[j]);
            assert forall|i: int| 0 <= i < s.len() implies denotes(base, a2, s[i], #[trigger] a2.intersections@[j]@[i]) by {
                lemma_denotes_extends(base, a1, a2, s[i], a1.intersections@[j]@[i]);
            }
        },
    }
}

/// A described type is stored.
pub proof fn lemma_denotes_contains(base: TyArena, arena: TyArena, term: TyTerm, ty: Ty)
    requires
        arena.extends(base),
        denotes(base, arena, term, ty),
    ensures
        arena.contains(ty),
{
    if let TyTerm::Known(x) = term {
        lemma_extends_contains(base, arena, x);
    }
}

/// Bindings described in `a1` are described in an extension.
pub proof fn lemma_bindings_extends(base: TyArena, a1: TyArena, a2: TyArena, m: Map<SymbolId, TyTerm>, rm: Map<SymbolId, Ty>)
    requires
        a2.extends(a1),
        bindings_rel(base, a1, m, rm),
    ensures
        bindings_rel(base, a2, m, rm),
{
    assert forall|s: SymbolId| #[trigger] m.dom().contains(s) implies denotes(base, a2, m[s], rm[s]) by {
        lemma_denotes_extends(base, a1, a2, m[s], rm[s]);
    }
}

/// Later bindings win over earlier ones, in both descriptions alike.
pub proof fn lemma_bindings_union(
    base: TyArena,
    arena: TyArena,
    m1: Map<SymbolId, TyTerm>,
    r1: Map<SymbolId, Ty>,
    m2: Map<SymbolId, TyTerm>,
    r2: Map<SymbolId, Ty>,
)
    requires
        bindings_rel(base, arena, m1, r1),
        bindings_rel(base, arena, m2, r2),
    ensures
        bindings_rel(base, arena, m1.union_prefer_right(m2), r1.union_prefer_right(r2)),
{
    assert(r1.union_prefer_right(r2).dom() =~= m1.union_prefer_right(m2).dom());
    assert forall|s: SymbolId| #[trigger] m1.union_prefer_right(m2).dom().contains(s) implies denotes(
        base,
        arena,
        m1.union_prefer_right(m2)[s],
        r1.union_prefer_right(r2)[s],
    ) by {
        if m2.dom().contains(s) {
            assert(denotes(base, arena, m2[s], r2[s]));
        } else {
            assert(denotes(base, arena, m1[s], r1[s]));
        }
    }
}

/// Until the type parameters are done, the answer so far only grows in cost,
/// and once stopped it stays.
pub proof fn lemma_tparams_mono(
    arena: TyArena,
    tps: Seq<GenericParam>,
    pps: Seq<GenericParam>,
    k: nat,
    n: nat,
    bound: nat,
)
    requires
        k <= n,
        !flow_panics(tparams_flow(arena, tps, pps, n, bound)),
    ensures
        !flow_panics(tparams_flow(arena, tps, pps, k, bound)),
        flow_cost(tparams_flow(arena, tps, pps, k, bound)) <= flow_cost(tparams_flow(arena, tps, pps, n, bound)),
        tparams_flow(arena, tps, pps, k, bound) is Stop ==> tparams_flow(arena, tps, pps, n, bound)
            == tparams_flow(arena, tps, pps, k, bound),
    decreases n,
{
    if k < n {
        lemma_tparams_mono(arena, tps, pps, k, (n - 1) as nat, bound);
    }
}

/// The same for the parameters.
pub proof fn lemma_params_mono(
    arena: TyArena,
    tps: Seq<(bool, Ty)>,
    pps: Seq<(bool, Ty)>,
    k: nat,
    n: nat,
    bound: nat,
    start: Flow,
)
    requires
        k <= n,
        !flow_panics(params_flow(arena, tps, pps, n, bound, start)),
    ensures
        !flow_panics(params_flow(arena, tps, pps, k, bound, start)),
        flow_cost(params_flow(arena, tps, pps, k, bound, start)) <= flow_cost(
            params_flow(arena, tps, pps, n, bound, start),
        ),
        params_flow(arena, tps, pps, k, bound, start) is Stop ==> params_flow(arena, tps, pps, n, bound, start)
            == params_flow(arena, tps, pps, k, bound, start),
    decreases n,
{
    if k < n {
        lemma_params_mono(arena, tps, pps, k, (n - 1) as nat, bound, start);
    }
}

/// The state of an intersection target: never panicking once it has not,
/// and growing in cost.
pub proof fn lemma_inter_mono(arena: TyArena, types: Seq<Ty>, p: TyTerm, bound: nat, k: int)
    requires
        0 <= k <= types.len(),
        !inter_fold(arena, types, p, bound).panic,
    ensures
        !inter_fold(arena, types.take(k), p, bound).panic,
        inter_fold(arena, types.take(k), p, bound).cost <= inter_fold(arena, types, p, bound).cost,
    decreases types.len(),
{
    if k < types.len() {
        assert(types.drop_last().take(k) =~= types.take(k));
        lemma_inter_mono(arena, types.drop_last(), p, bound, k);
    } else {
        assert(types.take(k) =~= types);
    }
}


/// A map binding `s` to `t` alone.
fn singleton_map(s: SymbolId, t: Ty) -> (m: FxHashMap<SymbolId, Ty>)
    ensures
        m@ == map![s => t],
{
    let mut m: FxHashMap<SymbolId, Ty> = FxHashMap::default();
    fx_map_insert(&mut m, s, t);
    m
}

fn constraint_or_unknown_of(p: GenericParam) -> (t: Ty)
    ensures
        t == constraint_or_unknown(p),
{
    match p.constraint {
        Some(c) => c,
        None => Ty::Unknown,
    }
}

fn same_constraint(a: Option<Ty>, b: Option<Ty>) -> (r: bool)
    ensures
        r == (a == b),
{
    match (a, b) {
        (Some(x), Some(y)) => x == y,
        (None, None) => true,
        _ => false,
    }
}

/// The precondition shared by the matching functions on the analyzer.
pub open spec fn match_state(base: TyArena, arena: TyArena) -> bool {
    &&& base.wf()
    &&& arena.wf()
    &&& arena.extends(base)
    &&& arena.functions@ == base.functions@
    &&& arena.constructors@ == base.constructors@
}

impl Analyzer {
    fn sig_type_params_len(&self, ctor: bool, i: TyId) -> (n: usize)
        requires
            (i as int) < sig_count(ctor, self.arena),
        ensures
            n == sig_type_params(ctor, self.arena, i).len(),
    {
        if ctor {
            self.arena.constructors[i as usize].type_params.len()
        } else {
            self.arena.functions[i as usize].type_params.len()
        }
    }

    fn sig_type_param(&self, ctor: bool, i: TyId, k: usize) -> (p: GenericParam)
        requires
            (i as int) < sig_count(ctor, self.arena),
            k < sig_type_params(ctor, self.arena, i).len(),
        ensures
            p == sig_type_params(ctor, self.arena, i)[k as int],
    {
        if ctor {
            self.arena.constructors[i as usize].type_params[k]
        } else {
            self.arena.functions[i as usize].type_params[k]
        }
    }

    fn sig_this_of(&self, ctor: bool, i: TyId) -> (t: Option<Ty>)
        requires
            (i as int) < sig_count(ctor, self.arena),
        ensures
            t == sig_this(ctor, self.arena, i),
    {
        if ctor {
            self.arena.constructors[i as usize].this_type
        } else {
            self.arena.functions[i as usize].this_type
        }
    }

    fn sig_params_len(&self, ctor: bool, i: TyId) -> (n: usize)
        requires
            (i as int) < sig_count(ctor, self.arena),
        ensures
            n == sig_params(ctor, self.arena, i).len(),
    {
        if ctor {
            self.arena.constructors[i as usize].params.len()
        } else {
            self.arena.functions[i as usize].params.len()
        }
    }

    fn sig_param(&self, ctor: bool, i: TyId, k: usize) -> (p: (bool, Ty))
        requires
            (i as int) < sig_count(ctor, self.arena),
            k < sig_params(ctor, self.arena, i).len(),
        ensures
            p == sig_params(ctor, self.arena, i)[k as int],
    {
        if ctor {
            self.arena.constructors[i as usize].params[k]
        } else {
            self.arena.functions[i as usize].params[k]
        }
    }

    fn sig_return_of(&self, ctor: bool, i: TyId) -> (t: Ty)
        requires
            (i as int) < sig_count(ctor, self.arena),
        ensures
            t == sig_return(ctor, self.arena, i),
    {
        if ctor {
            self.arena.constructors[i as usize].return_type
        } else {
            self.arena.functions[i as usize].return_type
        }
    }
}

/// The builders `b` hold, symbol by symbol, types that the terms of `acc`
/// describe.
pub open spec fn builders_rel(
    base: TyArena,
    arena: TyArena,
    acc: Map<SymbolId, Seq<TyTerm>>,
    b: Map<SymbolId, IntersectionTypeBuilder>,
) -> bool {
    &&& b.dom() == acc.dom()
    &&& forall|s: SymbolId| #[trigger] acc.dom().contains(s) ==> seq_rel(base, arena, acc[s], b[s].types@)
}

/// Each type of `tys` is one that the term at its position describes.
pub open spec fn seq_rel(base: TyArena, arena: TyArena, terms: Seq<TyTerm>, tys: Seq<Ty>) -> bool {
    &&& terms.len() == tys.len()
    &&& forall|i: int| 0 <= i < terms.len() ==> denotes(base, arena, terms[i], #[trigger] tys[i])
}

proof fn lemma_seq_rel_extends(base: TyArena, a1: TyArena, a2: TyArena, terms: Seq<TyTerm>, tys: Seq<Ty>)
    requires
        a2.extends(a1),
        seq_rel(base, a1, terms, tys),
    ensures
        seq_rel(base, a2, terms, tys),
{
    assert forall|i: int| 0 <= i < terms.len() implies denotes(base, a2, terms[i], #[trigger] tys[i]) by {
        lemma_denotes_extends(base, a1, a2, terms[i], tys[i]);
    }
}

proof fn lemma_builders_extends(
    base: TyArena,
    a1: TyArena,
    a2: TyArena,
    acc: Map<SymbolId, Seq<TyTerm>>,
    b: Map<SymbolId, IntersectionTypeBuilder>,
)
    requires
        a2.extends(a1),
        builders_rel(base, a1, acc, b),
    ensures
        builders_rel(base, a2, acc, b),
{
    assert forall|s: SymbolId| #[trigger] acc.dom().contains(s) implies seq_rel(base, a2, acc[s], b[s].types@) by {
        lemma_seq_rel_extends(base, a1, a2, acc[s], b[s].types@);
    }
}

/// Every type a stored signature mentions is stored and ranks at least two
/// below the signature.
pub proof fn lemma_sig_stored(ctor: bool, arena: TyArena, i: TyId)
    requires
        arena.wf(),
        (i as int) < sig_count(ctor, arena),
    ensures
        forall|k: int| 0 <= k < sig_type_params(ctor, arena, i).len() ==> {
            &&& arena.contains(constraint_or_unknown(#[trigger] sig_type_params(ctor, arena, i)[k]))
            &&& arena.rank(constraint_or_unknown(sig_type_params(ctor, arena, i)[k])) + 2 <= arena.rank(callable_ty(ctor, i))
        },
        sig_this(ctor, arena, i) is Some ==> {
            &&& arena.contains(sig_this(ctor, arena, i)->0)
            &&& arena.rank(sig_this(ctor, arena, i)->0) + 2 <= arena.rank(callable_ty(ctor, i))
        },
        forall|k: int| 0 <= k < sig_params(ctor, arena, i).len() ==> {
            &&& arena.contains((#[trigger] sig_params(ctor, arena, i)[k]).1)
            &&& arena.rank(sig_params(ctor, arena, i)[k].1) + 2 <= arena.rank(callable_ty(ctor, i))
        },
        arena.contains(sig_return(ctor, arena, i)),
        arena.rank(sig_return(ctor, arena, i)) + 2 <= arena.rank(callable_ty(ctor, i)),
{
    if ctor {
        assert(arena.constructor_ok(i as int));
        let c = arena.constructors@[i as int];
        assert forall|k: int| 0 <= k < c.type_params@.len() implies {
            &&& arena.contains(constraint_or_unknown(#[trigger] c.type_params@[k]))
            &&& arena.rank(constraint_or_unknown(c.type_params@[k])) + 2 <= arena.rank(callable_ty(ctor, i))
        } by {
            if c.type_params@[k].constraint is Some {
                assert(arena.component_ok(c.type_params@[k].constraint->0, arena.constructor_ranks@[i as int]));
            }
        }
    } else {
        assert(arena.function_ok(i as int));
        let c = arena.functions@[i as int];
        assert forall|k: int| 0 <= k < c.type_params@.len() implies {
            &&& arena.contains(constraint_or_unknown(#[trigger] c.type_params@[k]))
            &&& arena.rank(constraint_or_unknown(c.type_params@[k])) + 2 <= arena.rank(callable_ty(ctor, i))
        } by {
            if c.type_params@[k].constraint is Some {
                assert(arena.component_ok(c.type_params@[k].constraint->0, arena.function_ranks@[i as int]));
            }
        }
    }
}

impl Analyzer {
    fn match_inner(
        &mut self,
        target: Ty,
        pattern: Ty,
        Ghost(base): Ghost<TyArena>,
        Ghost(tt): Ghost<TyTerm>,
        Ghost(pt): Ghost<TyTerm>,
    ) -> (r: MatchResult)
        requires
            match_state(base, old(self).arena),
            denotes(base, old(self).arena, tt, target),
            denotes(base, old(self).arena, pt, pattern),
            !(tt is Meet),
            !(pt is Meet),
            !(tt is Opt && pt is Opt),
            !(match_outcome(base, tt, pt).out is Panic),
            match_outcome(base, tt, pt).out is Multiple ==> !union_like(tt),
            old(self).arena.unions@.len() + match_outcome(base, tt, pt).cost < u32::MAX,
            old(self).arena.intersections@.len() + match_outcome(base, tt, pt).cost < u32::MAX,
        ensures
            match_state(base, final(self).arena),
            same_scopes(*old(self), *final(self)),
            final(self).arena.extends(old(self).arena),
            final(self).arena.unions@.len() <= old(self).arena.unions@.len() + match_outcome(base, tt, pt).cost,
            final(self).arena.intersections@.len() <= old(self).arena.intersections@.len() + match_outcome(
                base,
                tt,
                pt,
            ).cost,
            result_rel(base, final(self).arena, match_outcome(base, tt, pt).out, r),
        decreases term_rank(base, tt) + term_rank(base, pt), 3nat, 0nat,
    {
        proof {
            if tt is Opt {
                if let Ty::Union(k) = pattern {
                    assert(base.contains(pattern));
                }
            }
            if pt is Opt {
                if let Ty::Union(k) = target {
                    assert(base.contains(target));
                }
            }
        }
        if target == pattern {
            return MatchResult::Matched;
        }
        if let Ty::Unresolved(UnresolvedType::InferType(s)) = pattern {
            return MatchResult::Inferred(singleton_map(s, target));
        }
        if let Ty::Unresolved(UnresolvedType::InferType(s)) = target {
            return MatchResult::Inferred(singleton_map(s, pattern));
        }
        match target {
            Ty::Any | Ty::Error => {
                return MatchResult::Multiple(vec![MatchResult::Unmatched, MatchResult::Matched]);
            },
            _ => {},
        }
        match pattern {
            Ty::Any | Ty::Error | Ty::Unknown => {
                return MatchResult::Matched;
            },
            _ => {},
        }
        match (target, pattern) {
            (Ty::Undefined, Ty::Void) => MatchResult::Matched,
            (Ty::StringLiteral(_), Ty::String) => MatchResult::Matched,
            (Ty::NumericLiteral(_), Ty::Number) => MatchResult::Matched,
            (Ty::BigIntLiteral(_), Ty::BigInt) => MatchResult::Matched,
            (Ty::BooleanLiteral(_), Ty::Boolean) => MatchResult::Matched,
            (Ty::UniqueSymbol(_), Ty::Symbol) => MatchResult::Matched,
            (Ty::Function(a), Ty::Function(b)) => self.match_callable_types(false, a, b, Ghost(base)),
            (Ty::Constructor(a), Ty::Constructor(b)) => self.match_callable_types(true, a, b, Ghost(base)),
            (Ty::Intersection(j), _) => self.match_intersection(j, pattern, Ghost(base), Ghost(pt)),
            (Ty::Generic(_), _) | (Ty::Intrinsic(_), _) => MatchResult::Error,
            (_, Ty::Generic(_)) | (_, Ty::Intrinsic(_)) => MatchResult::Error,
            _ => MatchResult::Unmatched,
        }
    }

    #[verifier::rlimit(100)]
    fn match_callable_types(&mut self, ctor: bool, a: TyId, b: TyId, Ghost(base): Ghost<TyArena>) -> (r: MatchResult)
        requires
            match_state(base, old(self).arena),
            (a as int) < sig_count(ctor, base),
            (b as int) < sig_count(ctor, base),
            !(callable_outcome(ctor, base, a, b).out is Panic),
            old(self).arena.unions@.len() + callable_outcome(ctor, base, a, b).cost < u32::MAX,
            old(self).arena.intersections@.len() + callable_outcome(ctor, base, a, b).cost < u32::MAX,
        ensures
            match_state(base, final(self).arena),
            same_scopes(*old(self), *final(self)),
            final(self).arena.extends(old(self).arena),
            final(self).arena.unions@.len() <= old(self).arena.unions@.len() + callable_outcome(ctor, base, a, b).cost,
            final(self).arena.intersections@.len() <= old(self).arena.intersections@.len() + callable_outcome(
                ctor,
                base,
                a,
                b,
            ).cost,
            result_rel(base, final(self).arena, callable_outcome(ctor, base, a, b).out, r),
        decreases base.rank(callable_ty(ctor, a)) + base.rank(callable_ty(ctor, b)), 2nat, 0nat,
    {
        let ghost arena0 = self.arena;
        let ghost bound = base.rank(callable_ty(ctor, a)) + base.rank(callable_ty(ctor, b));
        let ghost out = callable_outcome(ctor, base, a, b);
        let ghost su = self.arena.unions@.len();
        let ghost si = self.arena.intersections@.len();
        let ghost tps = sig_type_params(ctor, base, a);
        let ghost pps = sig_type_params(ctor, base, b);
        let n = self.sig_type_params_len(ctor, a);
        if n != self.sig_type_params_len(ctor, b) {
            return MatchResult::Unmatched;
        }
        let ghost f1 = tparams_flow(base, tps, pps, tps.len(), bound);
        let ghost f2 = this_flow(base, sig_this(ctor, base, a), sig_this(ctor, base, b), f1, bound);
        let ghost tpar = sig_params(ctor, base, a);
        let ghost ppar = sig_params(ctor, base, b);
        let ghost f3 = params_flow(base, tpar, ppar, tpar.len(), bound, f2);
        proof {
            assert(out == return_outcome(base, sig_return(ctor, base, a), sig_return(ctor, base, b), f3, bound));
            lemma_params_mono(base, tpar, ppar, 0, tpar.len(), bound, f2);
            lemma_sig_stored(ctor, base, a);
            lemma_sig_stored(ctor, base, b);
        }
        let mut k: usize = 0;
        while k < n
            invariant
                0 <= k <= n,
                n == tps.len(),
                n == pps.len(),
                match_state(base, self.arena),
                same_scopes(*old(self), *self),
                self.arena.extends(arena0),
                arena0 == old(self).arena,
                out == callable_outcome(ctor, base, a, b),
                arena0.unions@.len() == su,
                arena0.intersections@.len() == si,
                (a as int) < sig_count(ctor, base),
                (b as int) < sig_count(ctor, base),
                tps == sig_type_params(ctor, base, a),
                pps == sig_type_params(ctor, base, b),
                bound == base.rank(callable_ty(ctor, a)) + base.rank(callable_ty(ctor, b)),
                f1 == tparams_flow(base, tps, pps, tps.len(), bound),
                !flow_panics(f1),
                flow_cost(f1) <= out.cost,
                f1 is Stop ==> out == (Outcome { out: f1->Stop_0, cost: f1->Stop_1 }),
                su + out.cost < u32::MAX,
                si + out.cost < u32::MAX,
                tparams_flow(base, tps, pps, k as nat, bound) == Flow::Go(
                    Map::empty(),
                    flow_cost(tparams_flow(base, tps, pps, k as nat, bound)),
                ),
                self.arena.unions@.len() <= su + flow_cost(tparams_flow(base, tps, pps, k as nat, bound)),
                self.arena.intersections@.len() <= si + flow_cost(tparams_flow(base, tps, pps, k as nat, bound)),
            decreases n - k,
        {
            let tp = self.sig_type_param(ctor, a, k);
            let pp = self.sig_type_param(ctor, b, k);
            proof {
                lemma_tparams_mono(base, tps, pps, (k + 1) as nat, tps.len(), bound);
                lemma_sig_stored(ctor, base, a);
                lemma_sig_stored(ctor, base, b);
                assert(base.contains(constraint_or_unknown(tps[k as int])));
                assert(base.contains(constraint_or_unknown(pps[k as int])));
            }
            if !same_constraint(tp.constraint, pp.constraint) {
                let x = constraint_or_unknown_of(pp);
                let y = constraint_or_unknown_of(tp);
                let ghost before = self.arena;
                let o = self.match_inner(x, y, Ghost(base), Ghost(TyTerm::Known(x)), Ghost(TyTerm::Known(y)));
                let ghost c = flow_cost(tparams_flow(base, tps, pps, k as nat, bound));
                let ghost o2 = match_outcome(base, TyTerm::Known(x), TyTerm::Known(y));
                proof {
                    assert(tp == tps[k as int]);
                    assert(pp == pps[k as int]);
                }
                match o {
                    MatchResult::Error => {
                        proof {
                            assert(tparams_flow(base, tps, pps, (k + 1) as nat, bound) == Flow::Stop(MatchOut::Error, c + o2.cost));
                            assert(f1 == Flow::Stop(MatchOut::Error, c + o2.cost));
                        }
                        return MatchResult::Error;
                    },
                    MatchResult::Unmatched => {
                        proof {
                            assert(tparams_flow(base, tps, pps, (k + 1) as nat, bound) == Flow::Stop(MatchOut::Unmatched, c + o2.cost));
                            assert(f1 == Flow::Stop(MatchOut::Unmatched, c + o2.cost));
                        }
                        return MatchResult::Unmatched;
                    },
                    MatchResult::Multiple(_) => {
                        proof {
                            assert(false);
                        }
                        return MatchResult::Error;
                    },
                    _ => {},
                }
            }
            k += 1;
        }
        let mut inferred: FxHashMap<SymbolId, Ty> = FxHashMap::default();
        let ghost m2: Map<SymbolId, TyTerm>;
        proof {
            assert(f1 == Flow::Go(Map::<SymbolId, TyTerm>::empty(), flow_cost(f1)));
            assert(bindings_rel(base, self.arena, Map::<SymbolId, TyTerm>::empty(), inferred@));
        }
        let t_this = self.sig_this_of(ctor, a);
        let p_this = self.sig_this_of(ctor, b);
        proof {
            lemma_sig_stored(ctor, base, a);
            lemma_sig_stored(ctor, base, b);
        }
        match (t_this, p_this) {
            (Some(tt), Some(pt)) => {
                let ghost before = self.arena;
                let o = self.match_inner(pt, tt, Ghost(base), Ghost(TyTerm::Known(pt)), Ghost(TyTerm::Known(tt)));
                match o {
                    MatchResult::Error => {
                        proof {
                            lemma_params_mono(base, tpar, ppar, 0, tpar.len(), bound, f2);
                        }
                        return MatchResult::Error;
                    },
                    MatchResult::Unmatched => {
                        proof {
                            lemma_params_mono(base, tpar, ppar, 0, tpar.len(), bound, f2);
                        }
                        return MatchResult::Unmatched;
                    },
                    MatchResult::Multiple(_) => {
                        proof {
                            assert(false);
                        }
                        return MatchResult::Error;
                    },
                    MatchResult::Matched => {},
                    MatchResult::Inferred(map) => {
                        proof {
                            assert(bindings_rel(base, self.arena, Map::<SymbolId, TyTerm>::empty(), inferred@));
                            lemma_bindings_union(
                                base,
                                self.arena,
                                Map::<SymbolId, TyTerm>::empty(),
                                inferred@,
                                match_outcome(base, TyTerm::Known(pt), TyTerm::Known(tt)).out->Inferred_0,
                                map@,
                            );
                        }
                        fx_map_extend(&mut inferred, &map);
                    },
                }
            },
            _ => {},
        }
        proof {
            assert(f2 is Go);
            assert(bindings_rel(base, self.arena, f2->Go_0, inferred@));
        }
        let tn = self.sig_params_len(ctor, a);
        let pn = self.sig_params_len(ctor, b);
        let mut k: usize = 0;
        while k < tn
            invariant
                0 <= k <= tn,
                tn == tpar.len(),
                pn == ppar.len(),
                match_state(base, self.arena),
                same_scopes(*old(self), *self),
                self.arena.extends(arena0),
                arena0 == old(self).arena,
                out == callable_outcome(ctor, base, a, b),
                arena0.unions@.len() == su,
                arena0.intersections@.len() == si,
                (a as int) < sig_count(ctor, base),
                (b as int) < sig_count(ctor, base),
                tpar == sig_params(ctor, base, a),
                ppar == sig_params(ctor, base, b),
                bound == base.rank(callable_ty(ctor, a)) + base.rank(callable_ty(ctor, b)),
                f3 == params_flow(base, tpar, ppar, tpar.len(), bound, f2),
                !flow_panics(f3),
                out == return_outcome(base, sig_return(ctor, base, a), sig_return(ctor, base, b), f3, bound),
                !(out.out is Panic),
                su + out.cost < u32::MAX,
                si + out.cost < u32::MAX,
                params_flow(base, tpar, ppar, k as nat, bound, f2) is Go,
                bindings_rel(base, self.arena, params_flow(base, tpar, ppar, k as nat, bound, f2)->Go_0, inferred@),
                self.arena.unions@.len() <= su + flow_cost(params_flow(base, tpar, ppar, k as nat, bound, f2)),
                self.arena.intersections@.len() <= si + flow_cost(params_flow(base, tpar, ppar, k as nat, bound, f2)),
            decreases tn - k,
        {
            proof {
                lemma_params_mono(base, tpar, ppar, (k + 1) as nat, tpar.len(), bound, f2);
                lemma_sig_stored(ctor, base, a);
                lemma_sig_stored(ctor, base, b);
                assert(base.contains(tpar[k as int].1));
            }
            let (to, t) = self.sig_param(ctor, a, k);
            if k < pn {
                let (po, p) = self.sig_param(ctor, b, k);
                proof {
                    assert(base.contains(ppar[k as int].1));
                }
                let ghost before = self.arena;
                let ghost xt = if to != po { opt_term(po, p) } else { TyTerm::Known(p) };
                let ghost yt = if to != po { opt_term(to, t) } else { TyTerm::Known(t) };
                let mut x = p;
                let mut y = t;
                if to != po {
                    y = self.get_optional_type(to, t);
                    x = self.get_optional_type(po, p);
                    proof {
                        if to {
                            lemma_fold_steps_extends(base, before, never_view(), seq![t, Ty::Undefined]);
                        } else {
                            lemma_fold_steps_extends(base, before, never_view(), seq![p, Ty::Undefined]);
                        }
                    }
                }
                proof {
                    assert(denotes(base, self.arena, xt, x));
                    assert(denotes(base, self.arena, yt, y));
                    lemma_bindings_extends(base, before, self.arena, params_flow(base, tpar, ppar, k as nat, bound, f2)->Go_0, inferred@);
                }
                let ghost mid = self.arena;
                proof {
                    assert(mid.unions@.len() <= before.unions@.len() + (if to != po { 1nat } else { 0nat }));
                    assert(mid.intersections@.len() == before.intersections@.len());
                }
                let o = self.match_inner(x, y, Ghost(base), Ghost(xt), Ghost(yt));
                proof {
                    lemma_bindings_extends(base, mid, self.arena, params_flow(base, tpar, ppar, k as nat, bound, f2)->Go_0, inferred@);
                }
                let ghost c = flow_cost(params_flow(base, tpar, ppar, k as nat, bound, f2));
                let ghost o2 = match_outcome(base, xt, yt);
                let ghost extra: nat = if to != po { 1nat } else { 0nat };
                match o {
                    MatchResult::Error => {
                        proof {
                            assert(params_flow(base, tpar, ppar, (k + 1) as nat, bound, f2) == Flow::Stop(MatchOut::Error, c + extra + o2.cost));
                            assert(f3 == Flow::Stop(MatchOut::Error, c + extra + o2.cost));
                        }
                        return MatchResult::Error;
                    },
                    MatchResult::Unmatched => {
                        proof {
                            assert(params_flow(base, tpar, ppar, (k + 1) as nat, bound, f2) == Flow::Stop(MatchOut::Unmatched, c + extra + o2.cost));
                            assert(f3 == Flow::Stop(MatchOut::Unmatched, c + extra + o2.cost));
                        }
                        return MatchResult::Unmatched;
                    },
                    MatchResult::Multiple(_) => {
                        proof {
                            assert(false);
                        }
                        return MatchResult::Error;
                    },
                    MatchResult::Matched => {},
                    MatchResult::Inferred(map) => {
                        proof {
                            lemma_bindings_union(
                                base,
                                self.arena,
                                params_flow(base, tpar, ppar, k as nat, bound, f2)->Go_0,
                                inferred@,
                                match_outcome(base, xt, yt).out->Inferred_0,
                                map@,
                            );
                        }
                        fx_map_extend(&mut inferred, &map);
                    },
                }
            } else if !to {
                proof {
                    let c = flow_cost(params_flow(base, tpar, ppar, k as nat, bound, f2));
                    assert(params_flow(base, tpar, ppar, (k + 1) as nat, bound, f2) == Flow::Stop(MatchOut::Unmatched, c));
                }
                return MatchResult::Unmatched;
            }
            k += 1;
        }
        let tr = self.sig_return_of(ctor, a);
        let pr = self.sig_return_of(ctor, b);
        proof {
            lemma_sig_stored(ctor, base, a);
            lemma_sig_stored(ctor, base, b);
        }
        let ghost before = self.arena;
        let o = self.match_inner(tr, pr, Ghost(base), Ghost(TyTerm::Known(tr)), Ghost(TyTerm::Known(pr)));
        proof {
            lemma_bindings_extends(base, before, self.arena, f3->Go_0, inferred@);
        }
        match o {
            MatchResult::Inferred(map) => {
                proof {
                    lemma_bindings_union(
                        base,
                        self.arena,
                        f3->Go_0,
                        inferred@,
                        match_outcome(base, TyTerm::Known(tr), TyTerm::Known(pr)).out->Inferred_0,
                        map@,
                    );
                }
                fx_map_extend(&mut inferred, &map);
                MatchResult::Inferred(inferred)
            },
            MatchResult::Multiple(_) => {
                proof {
                    assert(false);
                }
                MatchResult::Error
            },
            other => other,
        }
    }
}

/// Appends the bindings of `map`, described by `mm`, to the builders.
fn add_bindings(
    builders: FxHashMap<SymbolId, IntersectionTypeBuilder>,
    map: &FxHashMap<SymbolId, Ty>,
    Ghost(base): Ghost<TyArena>,
    Ghost(arena): Ghost<TyArena>,
    Ghost(acc0): Ghost<Map<SymbolId, Seq<TyTerm>>>,
    Ghost(mm): Ghost<Map<SymbolId, TyTerm>>,
) -> (r: FxHashMap<SymbolId, IntersectionTypeBuilder>)
    requires
        builders_rel(base, arena, acc0, builders@),
        bindings_rel(base, arena, mm, map@),
    ensures
        builders_rel(base, arena, merge_terms(acc0, mm), r@),
{
    let entries = fx_map_entries(map);
    let ghost keys = entries@.map_values(|e: (u64, Ty)| e.0);
    let mut b = builders;
    let mut e: usize = 0;
    proof {
        assert(keys.take(0).to_set() =~= Set::<u64>::empty());
        assert(mm.restrict(Set::<u64>::empty()) =~= Map::<SymbolId, TyTerm>::empty());
        assert forall|x: SymbolId| acc0.dom().contains(x) implies merge_terms(acc0, Map::<SymbolId, TyTerm>::empty())[x] =~= acc0[x] by {
        }
        assert(merge_terms(acc0, Map::<SymbolId, TyTerm>::empty()) =~= acc0);
    }
    while e < entries.len()
        invariant
            0 <= e <= entries@.len(),
            keys == entries@.map_values(|x: (u64, Ty)| x.0),
            keys.no_duplicates(),
            forall|i: int| 0 <= i < entries.len() ==> map@.dom().contains(#[trigger] entries@[i].0)
                && map@[entries@[i].0] == entries@[i].1,
            bindings_rel(base, arena, mm, map@),
            builders_rel(base, arena, merge_terms(acc0, mm.restrict(keys.take(e as int).to_set())), b@),
        decreases entries@.len() - e,
    {
        let (s, t) = entries[e];
        let ghost k0 = keys.take(e as int).to_set();
        let ghost m0 = merge_terms(acc0, mm.restrict(k0));
        let ghost b0 = b@;
        proof {
            assert(keys[e as int] == s);
            assert(!k0.contains(s)) by {
                if k0.contains(s) {
                    let x = choose|x: int| 0 <= x < e && keys.take(e as int)[x] == s;
                    assert(keys[x] == keys[e as int]);
                }
            }
            assert(keys.take(e + 1).to_set() =~= k0.insert(s)) by {
                let t1 = keys.take(e + 1);
                let t0 = keys.take(e as int);
                assert(t1 =~= t0.push(s));
                assert forall|x: u64| t1.to_set().contains(x) <==> k0.insert(s).contains(x) by {
                    if t1.to_set().contains(x) {
                        let i = choose|i: int| 0 <= i < t1.len() && #[trigger] t1[i] == x;
                        if i < e {
                            assert(t0[i] == x);
                        }
                    }
                    if k0.contains(x) {
                        let i = choose|i: int| 0 <= i < t0.len() && #[trigger] t0[i] == x;
                        assert(t1[i] == x);
                    }
                    if x == s {
                        assert(t1[e as int] == x);
                    }
                }
            }
        }
        let old_b = fx_map_remove(&mut b, s);
        let mut builder = match old_b {
            Some(x) => x,
            None => IntersectionTypeBuilder::default(),
        };
        builder.add(t);
        fx_map_insert(&mut b, s, builder);
        proof {
            let prev: Seq<TyTerm> = if acc0.dom().contains(s) { acc0[s] } else { Seq::empty() };
            let m1 = merge_terms(acc0, mm.restrict(k0.insert(s)));
            assert(mm.dom().contains(s));
            assert(m1 =~= m0.insert(s, prev.push(mm[s])));
            assert(b0.dom().contains(s) == acc0.dom().contains(s));
            if acc0.dom().contains(s) {
                assert(m0[s] =~= acc0[s]);
                assert(seq_rel(base, arena, m0[s], b0[s].types@));
            }
            assert(seq_rel(base, arena, prev.push(mm[s]), builder.types@));
            assert(b@ =~= b0.remove(s).insert(s, builder));
            assert(b@.dom() =~= m1.dom());
            assert forall|x: SymbolId| #[trigger] m1.dom().contains(x) implies seq_rel(base, arena, m1[x], b@[x].types@) by {
                if x != s {
                    assert(m0.dom().contains(x));
                    assert(seq_rel(base, arena, m0[x], b0[x].types@));
                }
            }
            assert(builders_rel(base, arena, m1, b@));
        }
        e += 1;
    }
    proof {
        assert(keys.take(entries@.len() as int) =~= keys);
        assert(keys.to_set() =~= mm.dom()) by {
            assert forall|x: u64| keys.to_set().contains(x) implies mm.dom().contains(x) by {
                let i = choose|i: int| 0 <= i < keys.len() && keys[i] == x;
                assert(map@.dom().contains(entries@[i].0));
            }
            assert forall|x: u64| mm.dom().contains(x) implies keys.to_set().contains(x) by {
                assert(map@.dom().contains(x));
                let i = choose|i: int| 0 <= i < entries.len() && #[trigger] entries@[i].0 == x;
                assert(keys[i] == x);
            }
        }
        assert(mm.restrict(mm.dom()) =~= mm);
    }
    b
}

impl Analyzer {
    /// Builds the intersection of each symbol's types.
    fn build_bindings(
        &mut self,
        builders: FxHashMap<SymbolId, IntersectionTypeBuilder>,
        Ghost(base): Ghost<TyArena>,
        Ghost(acc): Ghost<Map<SymbolId, Seq<TyTerm>>>,
    ) -> (r: FxHashMap<SymbolId, Ty>)
        requires
            match_state(base, old(self).arena),
            builders_rel(base, old(self).arena, acc, builders@),
            old(self).arena.intersections@.len() + acc.dom().len() < u32::MAX,
        ensures
            match_state(base, final(self).arena),
            same_scopes(*old(self), *final(self)),
            final(self).arena.extends(old(self).arena),
            final(self).arena.unions@ == old(self).arena.unions@,
            final(self).arena.intersections@.len() <= old(self).arena.intersections@.len() + acc.dom().len(),
            bindings_rel(base, final(self).arena, acc.map_values(|x: Seq<TyTerm>| build_term(x)), r@),
    {
        let ghost arena0 = self.arena;
        let ghost target = acc.map_values(|x: Seq<TyTerm>| build_term(x));
        let ghost bmap = builders@;
        let mut entries = fx_map_into_entries(builders);
        let ghost orig = entries@;
        let ghost keys = orig.map_values(|e: (u64, IntersectionTypeBuilder)| e.0);
        proof {
            keys.unique_seq_to_set();
        }
        let mut map: FxHashMap<SymbolId, Ty> = FxHashMap::default();
        proof {
            assert(keys.skip(orig.len() as int) =~= Seq::<u64>::empty());
            assert(keys.skip(orig.len() as int).to_set() =~= Set::<u64>::empty());
            assert(target.restrict(Set::<u64>::empty()) =~= Map::<SymbolId, TyTerm>::empty());
            assert(orig.take(orig.len() as int) =~= orig);
        }
        while entries.len() > 0
            invariant
                entries@ == orig.take(entries@.len() as int),
                entries@.len() <= orig.len(),
                keys == orig.map_values(|e: (u64, IntersectionTypeBuilder)| e.0),
                keys.no_duplicates(),
                keys.to_set() == bmap.dom(),
                keys.len() == acc.dom().len(),
                forall|i: int| 0 <= i < orig.len() ==> bmap[#[trigger] orig[i].0] == orig[i].1,
                builders_rel(base, arena0, acc, bmap),
                target == acc.map_values(|x: Seq<TyTerm>| build_term(x)),
                match_state(base, self.arena),
                same_scopes(*old(self), *self),
                self.arena.extends(arena0),
                arena0 == old(self).arena,
                self.arena.unions@ == arena0.unions@,
                self.arena.intersections@.len() <= arena0.intersections@.len() + (orig.len() - entries@.len()),
                arena0.intersections@.len() + acc.dom().len() < u32::MAX,
                bindings_rel(base, self.arena, target.restrict(keys.skip(entries@.len() as int).to_set()), map@),
            decreases entries@.len(),
        {
            let ghost len = entries@.len();
            let (s, builder) = entries.pop().unwrap();
            let ghost done = keys.skip(len as int).to_set();
            proof {
                assert(orig[len - 1] == (s, builder));
                assert(keys[len - 1] == s);
                let sk1 = keys.skip(len - 1);
                let sk = keys.skip(len as int);
                assert(sk1 =~= seq![s] + sk);
                assert(sk1.to_set() =~= done.insert(s)) by {
                    assert forall|x: u64| sk1.to_set().contains(x) <==> done.insert(s).contains(x) by {
                        if sk1.to_set().contains(x) {
                            let i = choose|i: int| 0 <= i < sk1.len() && #[trigger] sk1[i] == x;
                            if i > 0 {
                                assert(sk[i - 1] == x);
                            }
                        }
                        if done.contains(x) {
                            let i = choose|i: int| 0 <= i < sk.len() && #[trigger] sk[i] == x;
                            assert(sk1[i + 1] == x);
                        }
                        if x == s {
                            assert(sk1[0] == x);
                        }
                    }
                }
                assert(!done.contains(s)) by {
                    if done.contains(s) {
                        let i = choose|i: int| 0 <= i < sk.len() && #[trigger] sk[i] == s;
                        assert(keys[len + i] == keys[len - 1]);
                    }
                }
                assert(bmap.dom().contains(s)) by {
                    assert(keys.to_set().contains(keys[len - 1]));
                }
                assert(acc.dom().contains(s));
                assert(bmap[s] == builder);
                assert(seq_rel(base, arena0, acc[s], builder.types@));
                lemma_seq_rel_extends(base, arena0, self.arena, acc[s], builder.types@);
                assert forall|i: int| 0 <= i < builder.types@.len() implies self.arena.contains(#[trigger] builder.types@[i]) by {
                    lemma_denotes_contains(base, self.arena, acc[s][i], builder.types@[i]);
                }
                assert(done.len() <= orig.len() - len) by {
                    keys.skip(len as int).lemma_cardinality_of_set();
                }
            }
            let ghost types = builder.types@;
            let ghost before = self.arena;
            let t = builder.build(&mut self.arena);
            proof {
                lemma_seq_rel_extends(base, before, self.arena, acc[s], types);
                assert(denotes(base, self.arena, build_term(acc[s]), t));
                lemma_bindings_extends(base, before, self.arena, target.restrict(done), map@);
            }
            fx_map_insert(&mut map, s, t);
            proof {
                assert(target.restrict(done.insert(s)) =~= target.restrict(done).insert(s, build_term(acc[s])));
                assert(bindings_rel(base, self.arena, target.restrict(done.insert(s)), map@));
            }
        }
        proof {
            assert(keys.skip(0) =~= keys);
            assert(target.restrict(bmap.dom()) =~= target);
        }
        map
    }

    fn match_intersection(
        &mut self,
        j: TyId,
        pattern: Ty,
        Ghost(base): Ghost<TyArena>,
        Ghost(pt): Ghost<TyTerm>,
    ) -> (r: MatchResult)
        requires
            match_state(base, old(self).arena),
            (j as int) < base.intersections@.len(),
            denotes(base, old(self).arena, pt, pattern),
            !(pt is Meet),
            !(inter_outcome(base, j, pt).out is Panic),
            old(self).arena.unions@.len() + inter_outcome(base, j, pt).cost < u32::MAX,
            old(self).arena.intersections@.len() + inter_outcome(base, j, pt).cost < u32::MAX,
        ensures
            match_state(base, final(self).arena),
            same_scopes(*old(self), *final(self)),
            final(self).arena.extends(old(self).arena),
            final(self).arena.unions@.len() <= old(self).arena.unions@.len() + inter_outcome(base, j, pt).cost,
            final(self).arena.intersections@.len() <= old(self).arena.intersections@.len() + inter_outcome(base, j, pt).cost,
            result_rel(base, final(self).arena, inter_outcome(base, j, pt).out, r),
        decreases base.rank(Ty::Intersection(j)) + term_rank(base, pt), 2nat, 0nat,
    {
        let ghost arena0 = self.arena;
        let ghost bound = base.rank(Ty::Intersection(j)) + term_rank(base, pt);
        let ghost out = inter_outcome(base, j, pt);
        let ghost su = self.arena.unions@.len();
        let ghost si = self.arena.intersections@.len();
        let types = self.arena.intersections[j as usize].clone();
        proof {
            assert(self.arena.intersections@[j as int] == base.intersections@[j as int]);
            assert(types@ =~= base.intersections@[j as int]@);
            assert(base.intersection_ok(j as int));
        }
        let ghost full = inter_fold(base, types@, pt, bound);
        let mut error = false;
        let mut matched: Option<Option<FxHashMap<SymbolId, IntersectionTypeBuilder>>> = None;
        let mut i: usize = 0;
        proof {
            assert(types@.take(0) =~= Seq::<Ty>::empty());
        }
        while i < types.len()
            invariant
                0 <= i <= types@.len(),
                match_state(base, self.arena),
                same_scopes(*old(self), *self),
                self.arena.extends(arena0),
                arena0 == old(self).arena,
                su == arena0.unions@.len(),
                si == arena0.intersections@.len(),
                out == inter_outcome(base, j, pt),
                (j as int) < base.intersections@.len(),
                types@ == base.intersections@[j as int]@,
                base.intersection_ok(j as int),
                bound == base.rank(Ty::Intersection(j)) + term_rank(base, pt),
                full == inter_fold(base, types@, pt, bound),
                !full.panic,
                full.cost <= out.cost,
                su + out.cost < u32::MAX,
                si + out.cost < u32::MAX,
                denotes(base, self.arena, pt, pattern),
                !(pt is Meet),
                !inter_fold(base, types@.take(i as int), pt, bound).panic,
                error == inter_fold(base, types@.take(i as int), pt, bound).error,
                (matched is Some) == inter_fold(base, types@.take(i as int), pt, bound).matched,
                (matched matches Some(Some(_))) == (inter_fold(base, types@.take(i as int), pt, bound).inferred is Some),
                matched matches Some(Some(b)) ==> builders_rel(
                    base,
                    self.arena,
                    inter_fold(base, types@.take(i as int), pt, bound).inferred->0,
                    b@,
                ),
                self.arena.unions@.len() <= su + inter_fold(base, types@.take(i as int), pt, bound).cost,
                self.arena.intersections@.len() <= si + inter_fold(base, types@.take(i as int), pt, bound).cost,
            decreases types@.len() - i,
        {
            let m = types[i];
            let ghost acc = inter_fold(base, types@.take(i as int), pt, bound);
            proof {
                assert(types@.take(i + 1).drop_last() =~= types@.take(i as int));
                assert(types@.take(i + 1).last() == m);
                lemma_inter_mono(base, types@, pt, bound, i + 1);
                assert(base.contains(m));
            }
            let ghost before = self.arena;
            let o = self.match_inner(m, pattern, Ghost(base), Ghost(TyTerm::Known(m)), Ghost(pt));
            proof {
                lemma_denotes_extends(base, before, self.arena, pt, pattern);
                if matched is Some && matched->0 is Some {
                    lemma_builders_extends(base, before, self.arena, acc.inferred->0, matched->0->0@);
                }
            }
            match o {
                MatchResult::Unmatched => {},
                MatchResult::Matched => {
                    if matched.is_none() {
                        matched = Some(None);
                    }
                },
                MatchResult::Inferred(map) => {
                    let builders0 = match matched {
                        Some(Some(b)) => b,
                        _ => FxHashMap::default(),
                    };
                    let ghost acc0: Map<SymbolId, Seq<TyTerm>> = match acc.inferred {
                        Some(x) => x,
                        None => Map::empty(),
                    };
                    proof {
                        if !(acc.inferred is Some) {
                            assert(builders_rel(base, self.arena, acc0, builders0@));
                        }
                    }
                    let builders = add_bindings(
                        builders0,
                        &map,
                        Ghost(base),
                        Ghost(self.arena),
                        Ghost(acc0),
                        Ghost(match_outcome(base, TyTerm::Known(m), pt).out->Inferred_0),
                    );
                    matched = Some(Some(builders));
                },
                MatchResult::Multiple(_) => {
                    proof {
                        assert(false);
                    }
                },
                MatchResult::Error => {
                    error = true;
                },
            }
            i += 1;
        }
        proof {
            assert(types@.take(types@.len() as int) =~= types@);
        }
        if error {
            return MatchResult::Error;
        }
        match matched {
            Some(Some(builders)) => {
                let ghost accm = full.inferred->0;
                proof {
                    assert(out.cost == full.cost + accm.dom().len());
                }
                let map = self.build_bindings(builders, Ghost(base), Ghost(accm));
                MatchResult::Inferred(map)
            },
            Some(None) => MatchResult::Matched,
            None => MatchResult::Unmatched,
        }
    }
}

/// How many answers a union target gives: one per member, unresolved
/// members counted as often as they were added.
pub open spec fn union_answer_count(u: UnionType) -> nat {
    base_set(u.base()).len() + u.unresolved_seq().len()
}

/// The arena has room for the types that matching `t` against `p` stores:
/// stored types are named by `u32` indices, so each table must stay below
/// `u32::MAX` entries.
pub open spec fn match_budget(arena: TyArena, t: Ty, p: Ty) -> bool {
    let o = match_outcome(arena, TyTerm::Known(t), TyTerm::Known(p));
    if o.out is Multiple && t is Union {
        forall|m: Ty| #[trigger] view_members(arena.union_view(t->Union_0)).contains(m) ==> {
            &&& arena.unions@.len() + union_answer_count(arena.unions@[t->Union_0 as int]) * match_outcome(
                arena,
                TyTerm::Known(m),
                TyTerm::Known(p),
            ).cost < u32::MAX
            &&& arena.intersections@.len() + union_answer_count(arena.unions@[t->Union_0 as int]) * match_outcome(
                arena,
                TyTerm::Known(m),
                TyTerm::Known(p),
            ).cost < u32::MAX
        }
    } else {
        &&& arena.unions@.len() + o.cost < u32::MAX
        &&& arena.intersections@.len() + o.cost < u32::MAX
    }
}

/// `r` answers `t extends p` as the rules say; for a union target, one
/// answer per member, in the order `UnionType::for_each` lists them.
pub open spec fn match_types_rel(base: TyArena, arena: TyArena, t: Ty, p: Ty, r: MatchResult) -> bool {
    let o = match_outcome(base, TyTerm::Known(t), TyTerm::Known(p)).out;
    if o is Multiple && t is Union {
        &&& r is Multiple
        &&& exists|rs: Seq<Ty>|
            {
                &&& enumerates(rs, base.unions@[t->Union_0 as int])
                &&& r->Multiple_0@.len() == rs.len()
                &&& arena.unions@.len() <= base.unions@.len() + answers_cost(base, rs, p)
                &&& arena.intersections@.len() <= base.intersections@.len() + answers_cost(base, rs, p)
                &&& forall|i: int|
                    0 <= i < rs.len() ==> result_rel(
                        base,
                        arena,
                        match_outcome(base, TyTerm::Known(rs[i]), TyTerm::Known(p)).out,
                        #[trigger] r->Multiple_0@[i],
                    )
            }
    } else {
        &&& result_rel(base, arena, o, r)
        &&& arena.unions@.len() <= base.unions@.len() + match_outcome(base, TyTerm::Known(t), TyTerm::Known(p)).cost
        &&& arena.intersections@.len() <= base.intersections@.len() + match_outcome(
            base,
            TyTerm::Known(t),
            TyTerm::Known(p),
        ).cost
    }
}

/// At most how many types matching each of `rs` against `p` stores.
pub open spec fn answers_cost(base: TyArena, rs: Seq<Ty>, p: Ty) -> nat
    decreases rs.len(),
{
    if rs.len() == 0 {
        0
    } else {
        answers_cost(base, rs.drop_last(), p) + match_outcome(base, TyTerm::Known(rs.last()), TyTerm::Known(p)).cost
    }
}

/// An answer described in `a1` is described in an extension.
pub proof fn lemma_result_extends(base: TyArena, a1: TyArena, a2: TyArena, out: MatchOut, r: MatchResult)
    requires
        a2.extends(a1),
        result_rel(base, a1, out, r),
    ensures
        result_rel(base, a2, out, r),
{
    if let MatchOut::Inferred(m) = out {
        lemma_bindings_extends(base, a1, a2, m, r->Inferred_0@);
    }
}

proof fn lemma_budget_step(n: int, i: int, d: int, used: int, c: int)
    by (nonlinear_arith)
    requires
        0 <= i < n,
        0 <= used,
        0 <= c,
        0 <= d,
        n * used <= i * d,
        n * c <= d,
    ensures
        used + c <= d,
        n * (used + c) <= (i + 1) * d,
{
}

proof fn lemma_budget_mono(n: int, a: int, b: int, bound: int)
    by (nonlinear_arith)
    requires
        0 <= n,
        a <= b,
        n * b <= bound,
    ensures
        n * a <= bound,
{
}

proof fn lemma_arena_state(arena: TyArena)
    requires
        arena.wf(),
    ensures
        match_state(arena, arena),
{
}

impl Analyzer {
    /// `Target extends Pattern`: whether the target matches, and the
    /// `infer` types of the pattern it binds. A target that may be several
    /// things (`any`, an error, a union) answers once for each.
    pub fn match_types(&mut self, target: Ty, pattern: Ty) -> (r: MatchResult)
        requires
            old(self).wf(),
            old(self).arena.contains(target),
            old(self).arena.contains(pattern),
            !(match_outcome(old(self).arena, TyTerm::Known(target), TyTerm::Known(pattern)).out is Panic),
            match_budget(old(self).arena, target, pattern),
        ensures
            final(self).wf(),
            final(self).arena.extends(old(self).arena),
            final(self).arena.functions@ == old(self).arena.functions@,
            final(self).arena.constructors@ == old(self).arena.constructors@,
            same_scopes(*old(self), *final(self)),
            match_types_rel(old(self).arena, final(self).arena, target, pattern, r),
    {
        let ghost base = self.arena;
        let ghost a0 = *self;
        let ghost out = match_outcome(base, TyTerm::Known(target), TyTerm::Known(pattern)).out;
        proof {
            lemma_arena_state(base);
        }
        if let Ty::Union(j) = target {
            let union_case = match pattern {
                Ty::Unresolved(UnresolvedType::InferType(_)) | Ty::Any | Ty::Error | Ty::Unknown => false,
                _ => target != pattern,
            };
            if union_case {
                proof {
                    assert(out is Multiple);
                    assert(base.union_ok(j as int));
                }
                let members = self.arena.unions[j as usize].for_each();
                let ghost u = base.unions@[j as int];
                let ghost n = members@.len();
                proof {
                    law_for_each_lists_members(members@, u);
                    let k = members@.len() - u.unresolved_seq().len();
                    members@.take(k).unique_seq_to_set();
                    assert(n == union_answer_count(u));
                }
                let ghost su = self.arena.unions@.len();
                let ghost si = self.arena.intersections@.len();
                let ghost du: int = u32::MAX - 1 - su;
                let ghost di: int = u32::MAX - 1 - si;
                let mut results: Vec<MatchResult> = Vec::new();
                let mut i: usize = 0;
                while i < members.len()
                    invariant
                        0 <= i <= members@.len(),
                        n == members@.len(),
                        n == union_answer_count(u),
                        u == base.unions@[j as int],
                        (j as int) < base.unions@.len(),
                        base.union_ok(j as int),
                        enumerates(members@, u),
                        members@.to_set() == view_members(base.union_view(j)),
                        out == match_outcome(base, TyTerm::Known(target), TyTerm::Known(pattern)).out,
                        out is Multiple,
                        target == Ty::Union(j),
                        match_budget(base, target, pattern),
                        base.contains(pattern),
                        su == base.unions@.len(),
                        si == base.intersections@.len(),
                        du == u32::MAX - 1 - su,
                        di == u32::MAX - 1 - si,
                        match_state(base, self.arena),
                        same_scopes(*old(self), *self),
                        self.arena.unions@.len() >= su,
                        self.arena.intersections@.len() >= si,
                        n * (self.arena.unions@.len() - su) <= i * du,
                        self.arena.unions@.len() <= su + answers_cost(base, members@.take(i as int), pattern),
                        self.arena.intersections@.len() <= si + answers_cost(base, members@.take(i as int), pattern),
                        n * (self.arena.intersections@.len() - si) <= i * di,
                        results@.len() == i,
                        forall|k: int| 0 <= k < i ==> result_rel(
                            base,
                            self.arena,
                            match_outcome(base, TyTerm::Known(members@[k]), TyTerm::Known(pattern)).out,
                            #[trigger] results@[k],
                        ),
                    decreases members@.len() - i,
                {
                    let m = members[i];
                    let ghost mo = match_outcome(base, TyTerm::Known(m), TyTerm::Known(pattern));
                    proof {
                        assert(members@.to_set().contains(m));
                        assert(view_members(base.union_view(j)).contains(m));
                        assert(!(m is Union));
                        assert(base.contains(m));
                        lemma_budget_step(n as int, i as int, du, self.arena.unions@.len() - su, mo.cost as int);
                        lemma_budget_step(n as int, i as int, di, self.arena.intersections@.len() - si, mo.cost as int);
                    }
                    let ghost before = self.arena;
                    let o = self.match_inner(m, pattern, Ghost(base), Ghost(TyTerm::Known(m)), Ghost(TyTerm::Known(pattern)));
                    proof {
                        lemma_budget_mono(n as int, self.arena.unions@.len() - su, before.unions@.len() - su + mo.cost, (i + 1) * du);
                        lemma_budget_mono(n as int, self.arena.intersections@.len() - si, before.intersections@.len() - si + mo.cost, (i + 1) * di);
                        assert forall|k: int| 0 <= k < i implies result_rel(
                            base,
                            self.arena,
                            match_outcome(base, TyTerm::Known(members@[k]), TyTerm::Known(pattern)).out,
                            #[trigger] results@[k],
                        ) by {
                            lemma_result_extends(
                                base,
                                before,
                                self.arena,
                                match_outcome(base, TyTerm::Known(members@[k]), TyTerm::Known(pattern)).out,
                                results@[k],
                            );
                        }
                    }
                    proof {
                        assert(members@.take(i + 1).drop_last() =~= members@.take(i as int));
                    }
                    results.push(o);
                    i += 1;
                }
                let r = MatchResult::Multiple(results);
                proof {
                    assert(r->Multiple_0@.len() == members@.len());
                    assert(members@.take(members@.len() as int) =~= members@);
                    self.lemma_wf_extends(a0);
                }
                return r;
            }
        }
        let r = self.match_inner(target, pattern, Ghost(base), Ghost(TyTerm::Known(target)), Ghost(TyTerm::Known(pattern)));
        proof {
            self.lemma_wf_extends(a0);
        }
        r
    }
}

} // verus!
