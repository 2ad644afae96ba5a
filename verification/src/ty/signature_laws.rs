//! What matching two function or constructor signatures promises.
use vstd::prelude::*;
use super::{Ty, TyId, SymbolId};
use super::callable::GenericParam;
use super::arena::TyArena;
use super::matching::{
    match_outcome, MatchOut, TyTerm, Flow, callable_ty, sig_count, sig_type_params, sig_this, sig_params,
    sig_return, tparams_flow, this_flow, params_flow, callable_outcome, constraint_or_unknown, return_outcome,
    lemma_sig_stored,
};

verus! {

/// A step of matching signatures that stopped did not stop with success.
pub open spec fn stopped_short(f: Flow) -> bool {
    f matches Flow::Stop(o, _) ==> !(o is Matched) && !(o is Inferred)
}

proof fn lemma_tparams_stop(arena: TyArena, tps: Seq<GenericParam>, pps: Seq<GenericParam>, k: nat, bound: nat)
    ensures
        stopped_short(tparams_flow(arena, tps, pps, k, bound)),
    decreases k,
{
    if k > 0 {
        lemma_tparams_stop(arena, tps, pps, (k - 1) as nat, bound);
    }
}

proof fn lemma_this_stop(arena: TyArena, tt: Option<Ty>, pt: Option<Ty>, f: Flow, bound: nat)
    requires
        stopped_short(f),
    ensures
        stopped_short(this_flow(arena, tt, pt, f, bound)),
{
}

proof fn lemma_params_stop(
    arena: TyArena,
    tps: Seq<(bool, Ty)>,
    pps: Seq<(bool, Ty)>,
    k: nat,
    bound: nat,
    start: Flow,
)
    requires
        stopped_short(start),
    ensures
        stopped_short(params_flow(arena, tps, pps, k, bound, start)),
    decreases k,
{
    if k > 0 {
        lemma_params_stop(arena, tps, pps, (k - 1) as nat, bound, start);
    }
}

/// Two different stored signatures of the same kind match (answering
/// `Matched` or `Inferred`) only if the target's return type extends the
/// pattern's (its own match answers `Matched` or `Inferred`): a return-type
/// mismatch or error makes the signatures not match.
pub proof fn law_signature_match_needs_return_match(ctor: bool, arena: TyArena, a: TyId, b: TyId)
    requires
        a != b,
        (a as int) < sig_count(ctor, arena),
        (b as int) < sig_count(ctor, arena),
    ensures
        ({
            let out = match_outcome(arena, TyTerm::Known(callable_ty(ctor, a)), TyTerm::Known(callable_ty(ctor, b))).out;
            let ret = match_outcome(
                arena,
                TyTerm::Known(sig_return(ctor, arena, a)),
                TyTerm::Known(sig_return(ctor, arena, b)),
            ).out;
            (out is Matched || out is Inferred) ==> (ret is Matched || ret is Inferred)
        }),
{
    let bound = arena.rank(callable_ty(ctor, a)) + arena.rank(callable_ty(ctor, b));
    let ta = sig_type_params(ctor, arena, a);
    let tb = sig_type_params(ctor, arena, b);
    lemma_tparams_stop(arena, ta, tb, ta.len(), bound);
    let f1 = tparams_flow(arena, ta, tb, ta.len(), bound);
    lemma_this_stop(arena, sig_this(ctor, arena, a), sig_this(ctor, arena, b), f1, bound);
    let f2 = this_flow(arena, sig_this(ctor, arena, a), sig_this(ctor, arena, b), f1, bound);
    lemma_params_stop(arena, sig_params(ctor, arena, a), sig_params(ctor, arena, b), sig_params(ctor, arena, a).len(), bound, f2);
    assert(callable_ty(ctor, a) != callable_ty(ctor, b));
    if ctor {
        assert(match_outcome(arena, TyTerm::Known(callable_ty(ctor, a)), TyTerm::Known(callable_ty(ctor, b)))
            == callable_outcome(true, arena, a, b));
    } else {
        assert(match_outcome(arena, TyTerm::Known(callable_ty(ctor, a)), TyTerm::Known(callable_ty(ctor, b)))
            == callable_outcome(false, arena, a, b));
    }
}

/// Signatures with different numbers of type parameters do not match.
pub proof fn law_signature_type_param_counts_must_agree(ctor: bool, arena: TyArena, a: TyId, b: TyId)
    requires
        (a as int) < sig_count(ctor, arena),
        (b as int) < sig_count(ctor, arena),
        sig_type_params(ctor, arena, a).len() != sig_type_params(ctor, arena, b).len(),
    ensures
        match_outcome(arena, TyTerm::Known(callable_ty(ctor, a)), TyTerm::Known(callable_ty(ctor, b))).out
            == MatchOut::Unmatched,
{
    assert(a != b);
    assert(callable_ty(ctor, a) != callable_ty(ctor, b));
    if ctor {
        assert(match_outcome(arena, TyTerm::Known(callable_ty(ctor, a)), TyTerm::Known(callable_ty(ctor, b)))
            == callable_outcome(true, arena, a, b));
    } else {
        assert(match_outcome(arena, TyTerm::Known(callable_ty(ctor, a)), TyTerm::Known(callable_ty(ctor, b)))
            == callable_outcome(false, arena, a, b));
    }
}

/// The answer `o` is a match: `Matched` or `Inferred`.
pub open spec fn succeeds(o: MatchOut) -> bool {
    o is Matched || o is Inferred
}

proof fn lemma_tparams_go(arena: TyArena, tps: Seq<GenericParam>, pps: Seq<GenericParam>, k: nat, bound: nat, idx: int)
    requires
        tparams_flow(arena, tps, pps, k, bound) is Go,
        0 <= idx < k,
    ensures
        tps[idx].constraint == pps[idx].constraint || succeeds(
            match_outcome(
                arena,
                TyTerm::Known(constraint_or_unknown(pps[idx])),
                TyTerm::Known(constraint_or_unknown(tps[idx])),
            ).out,
        ),
    decreases k,
{
    let prev = tparams_flow(arena, tps, pps, (k - 1) as nat, bound);
    if idx < k - 1 {
        lemma_tparams_go(arena, tps, pps, (k - 1) as nat, bound, idx);
    }
}

proof fn lemma_params_go(
    arena: TyArena,
    tps: Seq<(bool, Ty)>,
    pps: Seq<(bool, Ty)>,
    k: nat,
    bound: nat,
    start: Flow,
    idx: int,
)
    requires
        params_flow(arena, tps, pps, k, bound, start) is Go,
        0 <= idx < k,
    ensures
        start is Go,
        idx < pps.len() && tps[idx].0 == pps[idx].0 ==> succeeds(
            match_outcome(arena, TyTerm::Known(pps[idx].1), TyTerm::Known(tps[idx].1)).out,
        ),
        idx >= pps.len() ==> tps[idx].0,
    decreases k,
{
    if idx < k - 1 {
        lemma_params_go(arena, tps, pps, (k - 1) as nat, bound, start, idx);
    } else if k > 1 {
        lemma_params_go(arena, tps, pps, (k - 1) as nat, bound, start, 0);
    }
}

proof fn lemma_params_go_start(arena: TyArena, tps: Seq<(bool, Ty)>, pps: Seq<(bool, Ty)>, k: nat, bound: nat, start: Flow)
    requires
        params_flow(arena, tps, pps, k, bound, start) is Go,
    ensures
        start is Go,
    decreases k,
{
    if k > 0 {
        lemma_params_go_start(arena, tps, pps, (k - 1) as nat, bound, start);
    }
}

/// The steps of matching two stored signatures, and the answer.
proof fn lemma_signature_flows(ctor: bool, arena: TyArena, a: TyId, b: TyId) -> (r: (Flow, Flow, Flow))
    requires
        a != b,
        (a as int) < sig_count(ctor, arena),
        (b as int) < sig_count(ctor, arena),
        sig_type_params(ctor, arena, a).len() == sig_type_params(ctor, arena, b).len(),
    ensures
        ({
            let bound = arena.rank(callable_ty(ctor, a)) + arena.rank(callable_ty(ctor, b));
            let (f1, f2, f3) = r;
            &&& f1 == tparams_flow(arena, sig_type_params(ctor, arena, a), sig_type_params(ctor, arena, b),
                sig_type_params(ctor, arena, a).len(), bound)
            &&& f2 == this_flow(arena, sig_this(ctor, arena, a), sig_this(ctor, arena, b), f1, bound)
            &&& f3 == params_flow(arena, sig_params(ctor, arena, a), sig_params(ctor, arena, b),
                sig_params(ctor, arena, a).len(), bound, f2)
            &&& match_outcome(arena, TyTerm::Known(callable_ty(ctor, a)), TyTerm::Known(callable_ty(ctor, b)))
                == return_outcome(arena, sig_return(ctor, arena, a), sig_return(ctor, arena, b), f3, bound)
            &&& stopped_short(f3)
        }),
{
    let bound = arena.rank(callable_ty(ctor, a)) + arena.rank(callable_ty(ctor, b));
    let ta = sig_type_params(ctor, arena, a);
    let tb = sig_type_params(ctor, arena, b);
    lemma_tparams_stop(arena, ta, tb, ta.len(), bound);
    let f1 = tparams_flow(arena, ta, tb, ta.len(), bound);
    lemma_this_stop(arena, sig_this(ctor, arena, a), sig_this(ctor, arena, b), f1, bound);
    let f2 = this_flow(arena, sig_this(ctor, arena, a), sig_this(ctor, arena, b), f1, bound);
    let f3 = params_flow(arena, sig_params(ctor, arena, a), sig_params(ctor, arena, b), sig_params(ctor, arena, a).len(), bound, f2);
    lemma_params_stop(arena, sig_params(ctor, arena, a), sig_params(ctor, arena, b), sig_params(ctor, arena, a).len(), bound, f2);
    assert(callable_ty(ctor, a) != callable_ty(ctor, b));
    if ctor {
        assert(match_outcome(arena, TyTerm::Known(callable_ty(ctor, a)), TyTerm::Known(callable_ty(ctor, b)))
            == callable_outcome(true, arena, a, b));
    } else {
        assert(match_outcome(arena, TyTerm::Known(callable_ty(ctor, a)), TyTerm::Known(callable_ty(ctor, b)))
            == callable_outcome(false, arena, a, b));
    }
    (f1, f2, f3)
}

/// When two different stored signatures match, every part of the target
/// fits the pattern: parameters are contravariant (at each position both
/// have, with the same optional flag, the pattern's parameter extends the
/// target's), every target parameter past the pattern's last is optional,
/// the pattern's `this` extends the target's when both have one, and at
/// each type parameter the constraints agree or the pattern's extends the
/// target's.
pub proof fn law_signature_match_fits_every_part(ctor: bool, arena: TyArena, a: TyId, b: TyId, idx: int)
    requires
        a != b,
        (a as int) < sig_count(ctor, arena),
        (b as int) < sig_count(ctor, arena),
        succeeds(match_outcome(arena, TyTerm::Known(callable_ty(ctor, a)), TyTerm::Known(callable_ty(ctor, b))).out),
    ensures
        sig_type_params(ctor, arena, a).len() == sig_type_params(ctor, arena, b).len(),
        0 <= idx < sig_params(ctor, arena, a).len() && idx < sig_params(ctor, arena, b).len()
            && sig_params(ctor, arena, a)[idx].0 == sig_params(ctor, arena, b)[idx].0 ==> succeeds(
            match_outcome(
                arena,
                TyTerm::Known(sig_params(ctor, arena, b)[idx].1),
                TyTerm::Known(sig_params(ctor, arena, a)[idx].1),
            ).out,
        ),
        sig_params(ctor, arena, b).len() <= idx < sig_params(ctor, arena, a).len() ==> sig_params(ctor, arena, a)[idx].0,
        sig_this(ctor, arena, a) is Some && sig_this(ctor, arena, b) is Some ==> succeeds(
            match_outcome(
                arena,
                TyTerm::Known(sig_this(ctor, arena, b)->0),
                TyTerm::Known(sig_this(ctor, arena, a)->0),
            ).out,
        ),
        0 <= idx < sig_type_params(ctor, arena, a).len() ==> (sig_type_params(ctor, arena, a)[idx].constraint
            == sig_type_params(ctor, arena, b)[idx].constraint || succeeds(
            match_outcome(
                arena,
                TyTerm::Known(constraint_or_unknown(sig_type_params(ctor, arena, b)[idx])),
                TyTerm::Known(constraint_or_unknown(sig_type_params(ctor, arena, a)[idx])),
            ).out,
        )),
{
    if sig_type_params(ctor, arena, a).len() != sig_type_params(ctor, arena, b).len() {
        law_signature_type_param_counts_must_agree(ctor, arena, a, b);
    } else {
        lemma_signature_parts(ctor, arena, a, b, idx);
    }
}

proof fn lemma_signature_parts(ctor: bool, arena: TyArena, a: TyId, b: TyId, idx: int)
    requires
        a != b,
        (a as int) < sig_count(ctor, arena),
        (b as int) < sig_count(ctor, arena),
        sig_type_params(ctor, arena, a).len() == sig_type_params(ctor, arena, b).len(),
        succeeds(match_outcome(arena, TyTerm::Known(callable_ty(ctor, a)), TyTerm::Known(callable_ty(ctor, b))).out),
    ensures
        0 <= idx < sig_params(ctor, arena, a).len() && idx < sig_params(ctor, arena, b).len()
            && sig_params(ctor, arena, a)[idx].0 == sig_params(ctor, arena, b)[idx].0 ==> succeeds(
            match_outcome(
                arena,
                TyTerm::Known(sig_params(ctor, arena, b)[idx].1),
                TyTerm::Known(sig_params(ctor, arena, a)[idx].1),
            ).out,
        ),
        sig_params(ctor, arena, b).len() <= idx < sig_params(ctor, arena, a).len() ==> sig_params(ctor, arena, a)[idx].0,
        sig_this(ctor, arena, a) is Some && sig_this(ctor, arena, b) is Some ==> succeeds(
            match_outcome(
                arena,
                TyTerm::Known(sig_this(ctor, arena, b)->0),
                TyTerm::Known(sig_this(ctor, arena, a)->0),
            ).out,
        ),
        0 <= idx < sig_type_params(ctor, arena, a).len() ==> (sig_type_params(ctor, arena, a)[idx].constraint
            == sig_type_params(ctor, arena, b)[idx].constraint || succeeds(
            match_outcome(
                arena,
                TyTerm::Known(constraint_or_unknown(sig_type_params(ctor, arena, b)[idx])),
                TyTerm::Known(constraint_or_unknown(sig_type_params(ctor, arena, a)[idx])),
            ).out,
        )),
{
    let (f1, f2, f3) = lemma_signature_flows(ctor, arena, a, b);
    let bound = arena.rank(callable_ty(ctor, a)) + arena.rank(callable_ty(ctor, b));
    assert(f3 is Go);
    let tps = sig_params(ctor, arena, a);
    let pps = sig_params(ctor, arena, b);
    lemma_params_go_start(arena, tps, pps, tps.len(), bound, f2);
    if 0 <= idx < tps.len() {
        lemma_params_go(arena, tps, pps, tps.len(), bound, f2, idx);
    }
    assert(f1 is Go);
    if 0 <= idx < sig_type_params(ctor, arena, a).len() {
        lemma_tparams_go(arena, sig_type_params(ctor, arena, a), sig_type_params(ctor, arena, b),
            sig_type_params(ctor, arena, a).len(), bound, idx);
    }
}

/// What the return types bind, the signatures' match binds too, to the
/// same terms; and when the return types match plainly the signatures'
/// match binds nothing.
pub proof fn law_signature_match_keeps_return_bindings(ctor: bool, arena: TyArena, a: TyId, b: TyId)
    requires
        a != b,
        (a as int) < sig_count(ctor, arena),
        (b as int) < sig_count(ctor, arena),
    ensures
        ({
            let out = match_outcome(arena, TyTerm::Known(callable_ty(ctor, a)), TyTerm::Known(callable_ty(ctor, b))).out;
            let ret = match_outcome(
                arena,
                TyTerm::Known(sig_return(ctor, arena, a)),
                TyTerm::Known(sig_return(ctor, arena, b)),
            ).out;
            &&& (ret is Matched && succeeds(out) ==> out is Matched)
            &&& (ret is Inferred && out is Inferred ==> ret->Inferred_0.submap_of(out->Inferred_0))
            &&& (ret is Inferred && succeeds(out) ==> out is Inferred)
        }),
{
    if sig_type_params(ctor, arena, a).len() != sig_type_params(ctor, arena, b).len() {
        law_signature_type_param_counts_must_agree(ctor, arena, a, b);
    } else {
        let (f1, f2, f3) = lemma_signature_flows(ctor, arena, a, b);
    }
}

/// Two different stored signatures with no type parameters and no
/// parameters, of which at most one has a `this` type, match exactly as
/// their return types do: `Matched`, `Unmatched`, `Error` or `Inferred`
/// with the same bindings.
pub proof fn law_signature_match_is_return_match(ctor: bool, arena: TyArena, a: TyId, b: TyId)
    requires
        arena.wf(),
        a != b,
        (a as int) < sig_count(ctor, arena),
        (b as int) < sig_count(ctor, arena),
        sig_type_params(ctor, arena, a).len() == 0,
        sig_type_params(ctor, arena, b).len() == 0,
        sig_params(ctor, arena, a).len() == 0,
        sig_params(ctor, arena, b).len() == 0,
        sig_this(ctor, arena, a) is None || sig_this(ctor, arena, b) is None,
    ensures
        ({
            let out = match_outcome(arena, TyTerm::Known(callable_ty(ctor, a)), TyTerm::Known(callable_ty(ctor, b))).out;
            let ret = match_outcome(
                arena,
                TyTerm::Known(sig_return(ctor, arena, a)),
                TyTerm::Known(sig_return(ctor, arena, b)),
            ).out;
            (ret is Matched || ret is Unmatched || ret is Error || ret is Inferred) ==> out == ret
        }),
{
    lemma_sig_stored(ctor, arena, a);
    lemma_sig_stored(ctor, arena, b);
    let (f1, f2, f3) = lemma_signature_flows(ctor, arena, a, b);
    let ret = match_outcome(
        arena,
        TyTerm::Known(sig_return(ctor, arena, a)),
        TyTerm::Known(sig_return(ctor, arena, b)),
    ).out;
    if ret is Inferred {
        assert(Map::<SymbolId, TyTerm>::empty().union_prefer_right(ret->Inferred_0) =~= ret->Inferred_0);
    }
}

} // verus!
