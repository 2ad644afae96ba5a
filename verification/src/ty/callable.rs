//! Function and constructor types, and the callables extracted from a type.
use vstd::prelude::*;
use super::{Ty, TyId, SymbolId};
use super::arena::TyArena;
use super::union::{view_members, enumerates, into_union, fold_steps, never_view, lemma_steps_ok};
use super::arena::{seq_rank, lemma_extends_contains};
use super::union::{UnionType, UnionView, alloc_union_of};
use super::is_non_value;
use super::union_laws::law_for_each_lists_members;
use crate::analyzer::{Analyzer, same_scopes};

verus! {

/// A type parameter of a callable, with its constraint if it has one.
#[derive(Clone, Copy, Debug)]
pub struct GenericParam {
    pub symbol: SymbolId,
    pub constraint: Option<Ty>,
}

/// What a function's return annotation states.
#[derive(Clone, Copy, Debug)]
pub enum ReturnType {
    /// `function f(): number;`
    Simple(Ty),
    /// `function f(a): asserts a is number;`
    Assertion(SymbolId, Ty),
    /// `function f(a): a is number;`
    Predicate(SymbolId, Ty),
}

/// The signature of a function (`CTOR == false`) or a constructor (`CTOR == true`).
#[derive(Debug)]
pub struct CallableType<const CTOR: bool> {
    pub type_params: Vec<GenericParam>,
    pub this_type: Option<Ty>,
    /// (optional, type)
    pub params: Vec<(bool, Ty)>,
    pub rest_param: Option<Ty>,
    pub return_type: Ty,
}

pub type FunctionType = CallableType<false>;

pub type ConstructorType = CallableType<true>;

/// The callables a type offers: one signature, the overloads of an
/// intersection, or one per member of a union.
pub enum ExtractedCallable<const CTOR: bool> {
    Single(TyId),
    Overloaded(Vec<ExtractedCallable<CTOR>>),
    Union(Vec<ExtractedCallable<CTOR>>),
}


/// Whether `ty` is a signature of the kind `CTOR` asks for.
pub open spec fn is_callable_of<const CTOR: bool>(ty: Ty) -> bool {
    if CTOR {
        ty is Constructor
    } else {
        ty is Function
    }
}

/// The index of a function or constructor type.
pub open spec fn callable_index(ty: Ty) -> TyId {
    match ty {
        Ty::Function(f) => f,
        Ty::Constructor(c) => c,
        _ => 0,
    }
}

/// Whether `ty` offers callables of the kind `CTOR`: it is such a signature,
/// a union all of whose members offer some, or an intersection one of whose
/// types offers some.
pub open spec fn extractable<const CTOR: bool>(arena: TyArena, ty: Ty) -> bool
    decreases arena.rank(ty),
{
    match ty {
        Ty::Union(j) => j < arena.unions@.len() && forall|m: Ty| #[trigger]
            view_members(arena.union_view(j)).contains(m) ==> arena.rank(m) < arena.rank(ty)
                && extractable::<CTOR>(arena, m),
        Ty::Intersection(j) => j < arena.intersections@.len() && exists|i: int|
            0 <= i < arena.intersections@[j as int]@.len() && arena.rank(
                #[trigger] arena.intersections@[j as int]@[i],
            ) < arena.rank(ty) && extractable::<CTOR>(arena, arena.intersections@[j as int]@[i]),
        _ => is_callable_of::<CTOR>(ty),
    }
}

/// `out` is what extracting callables of the kind `CTOR` from `ty` gives: the
/// signature itself; for a union, one entry per member, listed as
/// `UnionType::for_each` lists them; for an intersection, the entries of its
/// types that offer callables, in order, alone when there is one and as
/// overloads when there are more.
pub open spec fn extracts<const CTOR: bool>(
    arena: TyArena,
    ty: Ty,
    out: Option<ExtractedCallable<CTOR>>,
) -> bool
    decreases arena.rank(ty) + 1, 0nat,
{
    if !extractable::<CTOR>(arena, ty) {
        out is None
    } else {
        match ty {
            Ty::Union(j) => match out {
                Some(ExtractedCallable::Union(l)) => exists|r: Seq<Ty>|
                    enumerates(r, arena.unions@[j as int]) && r.len() == l@.len() && forall|i: int|
                        0 <= i < r.len() ==> arena.rank(#[trigger] r[i]) < arena.rank(ty) && extracts::<
                            CTOR,
                        >(arena, r[i], Some(l@[i])),
                _ => false,
            },
            Ty::Intersection(j) => match out {
                Some(e) => exists|l: Seq<ExtractedCallable<CTOR>>|
                    collects::<CTOR>(arena, arena.rank(ty), arena.intersections@[j as int]@, l) && (
                    if l.len() == 1 {
                        e == l[0]
                    } else {
                        e matches ExtractedCallable::Overloaded(v) && v@ == l
                    }),
                None => false,
            },
            _ => out == Some(ExtractedCallable::<CTOR>::Single(callable_index(ty))),
        }
    }
}

/// `l` holds, in order, what each type of `e` that offers callables gives,
/// every such type ranking below `bound`.
pub open spec fn collects<const CTOR: bool>(
    arena: TyArena,
    bound: nat,
    e: Seq<Ty>,
    l: Seq<ExtractedCallable<CTOR>>,
) -> bool
    decreases bound, e.len(),
{
    if e.len() == 0 {
        l.len() == 0
    } else if arena.rank(e.last()) < bound && extractable::<CTOR>(arena, e.last()) {
        l.len() > 0 && collects::<CTOR>(arena, bound, e.drop_last(), l.drop_last()) && extracts::<CTOR>(
            arena,
            e.last(),
            Some(l.last()),
        )
    } else {
        collects::<CTOR>(arena, bound, e.drop_last(), l)
    }
}


/// What extraction gives is something exactly when the type offers callables.
pub proof fn lemma_extracts_some<const CTOR: bool>(arena: TyArena, ty: Ty, out: Option<ExtractedCallable<CTOR>>)
    requires
        extracts::<CTOR>(arena, ty, out),
    ensures
        out is Some <==> extractable::<CTOR>(arena, ty),
{
}

impl Analyzer {
    /// The callables of the kind `CTOR` that `ty` offers, if it offers any.
    fn extract_callable<const CTOR: bool>(&mut self, ty: Ty) -> (r: Option<ExtractedCallable<CTOR>>)
        requires
            old(self).arena.wf(),
            old(self).arena.contains(ty),
        ensures
            *final(self) == *old(self),
            extracts::<CTOR>(final(self).arena, ty, r),
        decreases old(self).arena.rank(ty),
    {
        match ty {
            Ty::Function(f) if !CTOR => Some(ExtractedCallable::Single(f)),
            Ty::Constructor(c) if CTOR => Some(ExtractedCallable::Single(c)),
            Ty::Union(j) => {
                let ghost arena = self.arena;
                assert(arena.union_ok(j as int));
                let members = self.arena.unions[j as usize].for_each();
                proof {
                    law_for_each_lists_members(members@, arena.unions@[j as int]);
                }
                let mut res: Option<Vec<ExtractedCallable<CTOR>>> = Some(Vec::new());
                let mut i: usize = 0;
                while i < members.len()
                    invariant
                        0 <= i <= members@.len(),
                        *self == *old(self),
                        old(self).arena == arena,
                        ty == Ty::Union(j),
                        arena.wf(),
                        j < arena.unions@.len(),
                        arena.union_ok(j as int),
                        enumerates(members@, arena.unions@[j as int]),
                        members@.to_set() == view_members(arena.union_view(j)),
                        res is Some <==> forall|k: int| 0 <= k < i ==> extractable::<CTOR>(arena, #[trigger] members@[k]),
                        res matches Some(l) ==> l@.len() == i && forall|k: int| 0 <= k < i ==> extracts::<CTOR>(
                            arena,
                            #[trigger] members@[k],
                            Some(l@[k]),
                        ),
                    decreases members@.len() - i,
                {
                    let m = members[i];
                    proof {
                        assert(members@.to_set().contains(m));
                        assert(view_members(arena.union_view(j)).contains(m));
                        assert(arena.rank(m) < arena.rank(ty));
                    }
                    let extracted = self.extract_callable::<CTOR>(m);
                    proof {
                        lemma_extracts_some(arena, m, extracted);
                    }
                    match (res, extracted) {
                        (Some(mut l), Some(e)) => {
                            l.push(e);
                            res = Some(l);
                        },
                        _ => {
                            res = None;
                        },
                    }
                    proof {
                        if res is Some {
                            assert(forall|k: int| 0 <= k < i + 1 ==> extractable::<CTOR>(arena, #[trigger] members@[k]));
                        } else {
                            assert(!extractable::<CTOR>(arena, members@[i as int]) || !(forall|k: int|
                                0 <= k < i ==> extractable::<CTOR>(arena, #[trigger] members@[k])));
                        }
                    }
                    i += 1;
                }
                proof {
                    let all = forall|k: int| 0 <= k < members@.len() ==> extractable::<CTOR>(arena, #[trigger] members@[k]);
                    assert(all == extractable::<CTOR>(arena, ty)) by {
                        if all {
                            assert forall|m: Ty| #[trigger] view_members(arena.union_view(j)).contains(m)
                                implies arena.rank(m) < arena.rank(ty) && extractable::<CTOR>(arena, m) by {
                                assert(members@.to_set().contains(m));
                            }
                        }
                        if extractable::<CTOR>(arena, ty) {
                            assert forall|k: int| 0 <= k < members@.len() implies extractable::<CTOR>(arena, #[trigger] members@[k]) by {
                                assert(members@.to_set().contains(members@[k]));
                            }
                        }
                    }
                }
                match res {
                    Some(l) => {
                        let r = Some(ExtractedCallable::Union(l));
                        proof {
                            assert forall|k: int| 0 <= k < members@.len() implies arena.rank(#[trigger] members@[k]) < arena.rank(ty) && extracts::<CTOR>(arena, members@[k], Some(l@[k])) by {
                                assert(members@.to_set().contains(members@[k]));
                            }
                        }
                        r
                    },
                    None => None,
                }
            },
            Ty::Intersection(j) => {
                let ghost arena = self.arena;
                let types = self.arena.intersections[j as usize].clone();
                assert(types@ =~= arena.intersections@[j as int]@);
                proof {
                    assert(arena.intersection_ok(j as int));
                }
                let mut res: Vec<ExtractedCallable<CTOR>> = Vec::new();
                let mut i: usize = 0;
                while i < types.len()
                    invariant
                        0 <= i <= types@.len(),
                        *self == *old(self),
                        old(self).arena == arena,
                        ty == Ty::Intersection(j),
                        arena.wf(),
                        j < arena.intersections@.len(),
                        arena.intersection_ok(j as int),
                        types@ == arena.intersections@[j as int]@,
                        collects::<CTOR>(arena, arena.rank(ty), types@.take(i as int), res@),
                        (res@.len() > 0) == exists|k: int| 0 <= k < i && extractable::<CTOR>(arena, #[trigger] types@[k]),
                    decreases types@.len() - i,
                {
                    let t = types[i];
                    assert(arena.rank(t) < arena.rank(ty));
                    let extracted = self.extract_callable::<CTOR>(t);
                    proof {
                        lemma_extracts_some(arena, t, extracted);
                    }
                    proof {
                        assert(types@.take(i + 1).drop_last() =~= types@.take(i as int));
                        assert(types@.take(i + 1).last() == t);
                    }
                    let ghost res0 = res@;
                    if let Some(e) = extracted {
                        res.push(e);
                        proof {
                            assert(res@.drop_last() =~= res0);
                        }
                    }
                    i += 1;
                }
                proof {
                    assert(types@.take(types@.len() as int) =~= types@);
                }
                if res.len() == 0 {
                    None
                } else if res.len() == 1 {
                    let e = res.pop().unwrap();
                    Some(e)
                } else {
                    Some(ExtractedCallable::Overloaded(res))
                }
            },
            _ => None,
        }
    }

    /// The function signatures that `ty` offers, if it offers any.
    pub fn extract_callable_function(&mut self, ty: Ty) -> (r: Option<ExtractedCallable<false>>)
        requires
            old(self).arena.wf(),
            old(self).arena.contains(ty),
        ensures
            *final(self) == *old(self),
            extracts::<false>(final(self).arena, ty, r),
    {
        self.extract_callable::<false>(ty)
    }

    /// The constructor signatures that `ty` offers, if it offers any.
    pub fn extract_callable_constructor(&mut self, ty: Ty) -> (r: Option<ExtractedCallable<true>>)
        requires
            old(self).arena.wf(),
            old(self).arena.contains(ty),
        ensures
            *final(self) == *old(self),
            extracts::<true>(final(self).arena, ty, r),
    {
        self.extract_callable::<true>(ty)
    }
}


impl Analyzer {
    /// The type of a parameter: its declared type, joined with `undefined`
    /// when the parameter is optional.
    pub fn get_optional_type(&mut self, optional: bool, ty: Ty) -> (r: Ty)
        requires
            old(self).arena.wf(),
            old(self).arena.contains(ty),
            optional ==> !is_non_value(ty),
            optional ==> old(self).arena.unions@.len() < u32::MAX,
        ensures
            final(self).arena.wf(),
            old(self).wf() ==> final(self).wf(),
            same_scopes(*old(self), *final(self)),
            final(self).arena.extends(old(self).arena),
            final(self).arena.contains(r),
            final(self).arena.functions@ == old(self).arena.functions@,
            final(self).arena.constructors@ == old(self).arena.constructors@,
            final(self).arena.intersections@ == old(self).arena.intersections@,
            !optional ==> r == ty && *final(self) == *old(self),
            optional ==> {
                &&& r == Ty::Union(old(self).arena.unions@.len() as u32)
                &&& final(self).arena.unions@.len() == old(self).arena.unions@.len() + 1
                &&& final(self).arena.union_view(old(self).arena.unions@.len() as u32) == fold_steps(
                    old(self).arena,
                    never_view(),
                    seq![ty, Ty::Undefined],
                )
                &&& final(self).arena.rank(r) <= old(self).arena.rank(ty) + 1
            },
    {
        if optional {
            let types = vec![ty, Ty::Undefined];
            proof {
                assert(types@ =~= seq![ty, Ty::Undefined]);
                lemma_steps_ok(self.arena, never_view(), types@);
                assert(seq![ty, Ty::Undefined].drop_last() =~= seq![ty]);
                assert(seq![ty].drop_last() =~= Seq::<Ty>::empty());
                assert(seq_rank(self.arena, Seq::<Ty>::empty()) == 0);
                assert(seq_rank(self.arena, seq![ty]) == self.arena.rank(ty));
                assert(seq![ty, Ty::Undefined].last() == Ty::Undefined);
                assert(seq_rank(self.arena, seq![ty, Ty::Undefined]) == self.arena.rank(ty));
            }
            let ghost a0 = *self;
            let r = into_union(&mut self.arena, types);
            proof {
                if a0.wf() {
                    self.lemma_wf_extends(a0);
                }
            }
            r
        } else {
            ty
        }
    }
}


/// The parameters of the stored signature `i` of the kind `CTOR`.
pub open spec fn callable_params<const CTOR: bool>(arena: TyArena, i: TyId) -> Seq<(bool, Ty)> {
    if CTOR {
        arena.constructors@[i as int].params@
    } else {
        arena.functions@[i as int].params@
    }
}

/// Every signature an extracted callable names is stored.
pub open spec fn callable_in<const CTOR: bool>(arena: TyArena, c: ExtractedCallable<CTOR>) -> bool
    decreases c,
{
    match c {
        ExtractedCallable::Single(i) => if CTOR {
            i < arena.constructors@.len()
        } else {
            i < arena.functions@.len()
        },
        ExtractedCallable::Overloaded(v) => forall|k: int|
            0 <= k < v@.len() ==> callable_in::<CTOR>(arena, #[trigger] v@[k]),
        ExtractedCallable::Union(v) => forall|k: int|
            0 <= k < v@.len() ==> callable_in::<CTOR>(arena, #[trigger] v@[k]),
    }
}

/// An upper bound on how many unions collecting the parameter types of `c` stores.
pub open spec fn extracted_size<const CTOR: bool>(arena: TyArena, c: ExtractedCallable<CTOR>) -> nat
    decreases c,
{
    match c {
        ExtractedCallable::Single(i) => callable_params::<CTOR>(arena, i).len(),
        ExtractedCallable::Overloaded(v) => 2 * sizes_sum::<CTOR>(arena, v@),
        ExtractedCallable::Union(v) => 0,
    }
}

pub open spec fn sizes_sum<const CTOR: bool>(arena: TyArena, s: Seq<ExtractedCallable<CTOR>>) -> nat
    decreases s,
{
    if s.len() == 0 {
        0
    } else {
        sizes_sum::<CTOR>(arena, s.drop_last()) + extracted_size::<CTOR>(arena, s.last())
    }
}


/// Whether collecting the parameter types of `c` is defined: it names no union
/// of signatures, and every type that ends up in a union is a value type.
pub open spec fn param_types_defined<const CTOR: bool>(
    arena: TyArena,
    c: ExtractedCallable<CTOR>,
    in_overload: bool,
) -> bool
    decreases c,
{
    match c {
        ExtractedCallable::Single(i) => forall|j: int|
            0 <= j < callable_params::<CTOR>(arena, i).len() ==> ((in_overload
                || callable_params::<CTOR>(arena, i)[j].0) ==> !is_non_value(
                #[trigger] callable_params::<CTOR>(arena, i)[j].1,
            )),
        ExtractedCallable::Overloaded(v) => forall|k: int|
            0 <= k < v@.len() ==> param_types_defined::<CTOR>(arena, #[trigger] v@[k], true),
        ExtractedCallable::Union(_) => false,
    }
}

/// `r` is the type of a parameter of type `ty`: `ty` itself, or when the
/// parameter is optional a stored union meaning `ty | undefined`.
pub open spec fn opt_rel(arena: TyArena, optional: bool, ty: Ty, r: Ty) -> bool {
    if optional {
        &&& r is Union
        &&& (r->Union_0 as int) < arena.unions@.len()
        &&& arena.union_view(r->Union_0) == fold_steps(arena, never_view(), seq![ty, Ty::Undefined])
    } else {
        r == ty
    }
}

/// The `j`-th entries, in order, of those lists of `subs` that have one.
pub open spec fn column(subs: Seq<Seq<Ty>>, j: int) -> Seq<Ty>
    decreases subs.len(),
{
    if subs.len() == 0 {
        Seq::empty()
    } else {
        column(subs.drop_last(), j) + (if 0 <= j < subs.last().len() {
            seq![subs.last()[j]]
        } else {
            Seq::empty()
        })
    }
}

/// The length of the longest list of `subs`.
pub open spec fn max_len(subs: Seq<Seq<Ty>>) -> nat
    decreases subs.len(),
{
    if subs.len() == 0 {
        0
    } else if subs.last().len() > max_len(subs.drop_last()) {
        subs.last().len()
    } else {
        max_len(subs.drop_last())
    }
}

/// `res` lists the parameter types of `c`: for one signature, the type of each
/// parameter; for overloads, position by position, a stored union of the
/// types the overloads have there, in the order of the overloads.
pub open spec fn param_types_rel<const CTOR: bool>(
    arena: TyArena,
    c: ExtractedCallable<CTOR>,
    res: Seq<Ty>,
) -> bool
    decreases c,
{
    &&& forall|j: int| 0 <= j < res.len() ==> arena.contains(#[trigger] res[j])
    &&& match c {
        ExtractedCallable::Single(i) => {
            &&& res.len() == callable_params::<CTOR>(arena, i).len()
            &&& forall|j: int|
                0 <= j < res.len() ==> opt_rel(
                    arena,
                    callable_params::<CTOR>(arena, i)[j].0,
                    callable_params::<CTOR>(arena, i)[j].1,
                    #[trigger] res[j],
                )
        },
        ExtractedCallable::Overloaded(v) => exists|subs: Seq<Seq<Ty>>|
            {
                &&& subs.len() == v@.len()
                &&& forall|k: int|
                    0 <= k < v@.len() ==> param_types_rel::<CTOR>(arena, #[trigger] v@[k], subs[k])
                &&& res.len() == max_len(subs)
                &&& forall|j: int|
                    0 <= j < res.len() ==> {
                        &&& #[trigger] res[j] is Union
                        &&& (res[j]->Union_0 as int) < arena.unions@.len()
                        &&& arena.union_view(res[j]->Union_0) == fold_steps(arena, never_view(), column(subs, j))
                    }
            },
        ExtractedCallable::Union(_) => false,
    }
}

/// Adding the same types to a union means the same in an extended arena.
pub proof fn lemma_fold_steps_extends(a1: TyArena, a2: TyArena, v: UnionView, s: Seq<Ty>)
    requires
        a2.extends(a1),
        forall|i: int| 0 <= i < s.len() ==> a1.contains(#[trigger] s[i]),
    ensures
        fold_steps(a1, v, s) == fold_steps(a2, v, s),
    decreases s.len(),
{
    if s.len() > 0 {
        lemma_fold_steps_extends(a1, a2, v, s.drop_last());
        assert(a1.contains(s[s.len() - 1]));
    }
}


/// Signatures, their parameters and the bounds above depend on the stored
/// signatures alone.
pub proof fn lemma_same_signatures<const CTOR: bool>(a1: TyArena, a2: TyArena, c: ExtractedCallable<CTOR>)
    requires
        a1.functions@ == a2.functions@,
        a1.constructors@ == a2.constructors@,
    ensures
        callable_in::<CTOR>(a1, c) == callable_in::<CTOR>(a2, c),
        param_types_defined::<CTOR>(a1, c, true) == param_types_defined::<CTOR>(a2, c, true),
        param_types_defined::<CTOR>(a1, c, false) == param_types_defined::<CTOR>(a2, c, false),
        extracted_size::<CTOR>(a1, c) == extracted_size::<CTOR>(a2, c),
    decreases c,
{
    match c {
        ExtractedCallable::Single(i) => {
            assert(a1.functions@.len() == a2.functions@.len());
            assert(a1.constructors@.len() == a2.constructors@.len());
            assert(callable_params::<CTOR>(a1, i) == callable_params::<CTOR>(a2, i));
        },
        ExtractedCallable::Overloaded(v) => {
            assert forall|k: int| 0 <= k < v@.len() implies {
                &&& callable_in::<CTOR>(a1, #[trigger] v@[k]) == callable_in::<CTOR>(a2, v@[k])
                &&& param_types_defined::<CTOR>(a1, v@[k], true) == param_types_defined::<CTOR>(a2, v@[k], true)
                &&& extracted_size::<CTOR>(a1, v@[k]) == extracted_size::<CTOR>(a2, v@[k])
            } by {
                lemma_same_signatures::<CTOR>(a1, a2, v@[k]);
            }
            lemma_sizes_sum_same::<CTOR>(a1, a2, v@);
            if callable_in::<CTOR>(a1, c) {
                assert forall|k: int| 0 <= k < v@.len() implies callable_in::<CTOR>(a2, #[trigger] v@[k]) by {
                    assert(callable_in::<CTOR>(a1, v@[k]));
                }
            }
            if callable_in::<CTOR>(a2, c) {
                assert forall|k: int| 0 <= k < v@.len() implies callable_in::<CTOR>(a1, #[trigger] v@[k]) by {
                    assert(callable_in::<CTOR>(a2, v@[k]));
                }
            }
        },
        ExtractedCallable::Union(v) => {
            assert forall|k: int| 0 <= k < v@.len() implies callable_in::<CTOR>(a1, #[trigger] v@[k])
                == callable_in::<CTOR>(a2, v@[k]) by {
                lemma_same_signatures::<CTOR>(a1, a2, v@[k]);
            }
            if callable_in::<CTOR>(a1, c) {
                assert forall|k: int| 0 <= k < v@.len() implies callable_in::<CTOR>(a2, #[trigger] v@[k]) by {
                    assert(callable_in::<CTOR>(a1, v@[k]));
                }
            }
            if callable_in::<CTOR>(a2, c) {
                assert forall|k: int| 0 <= k < v@.len() implies callable_in::<CTOR>(a1, #[trigger] v@[k]) by {
                    assert(callable_in::<CTOR>(a2, v@[k]));
                }
            }
        },
    }
}

proof fn lemma_sizes_sum_same<const CTOR: bool>(a1: TyArena, a2: TyArena, s: Seq<ExtractedCallable<CTOR>>)
    requires
        a1.functions@ == a2.functions@,
        a1.constructors@ == a2.constructors@,
        forall|k: int| 0 <= k < s.len() ==> extracted_size::<CTOR>(a1, #[trigger] s[k]) == extracted_size::<CTOR>(a2, s[k]),
    ensures
        sizes_sum::<CTOR>(a1, s) == sizes_sum::<CTOR>(a2, s),
    decreases s.len(),
{
    if s.len() > 0 {
        lemma_sizes_sum_same::<CTOR>(a1, a2, s.drop_last());
        assert(extracted_size::<CTOR>(a1, s[s.len() - 1]) == extracted_size::<CTOR>(a2, s[s.len() - 1]));
    }
}

/// Every entry of a column is the entry at that position of one of the lists.
pub proof fn lemma_column_entry(subs: Seq<Seq<Ty>>, j: int, i: int) -> (k: int)
    requires
        0 <= i < column(subs, j).len(),
    ensures
        0 <= k < subs.len(),
        0 <= j < subs[k].len(),
        column(subs, j)[i] == subs[k][j],
    decreases subs.len(),
{
    let c0 = column(subs.drop_last(), j);
    if i < c0.len() {
        let k = lemma_column_entry(subs.drop_last(), j, i);
        assert(column(subs, j)[i] == c0[i]);
        k
    } else {
        (subs.len() - 1) as int
    }
}

/// The longest list is at most as long as all of them together.
proof fn lemma_max_len_bound(subs: Seq<Seq<Ty>>, bound: Seq<nat>)
    requires
        subs.len() == bound.len(),
        forall|k: int| 0 <= k < subs.len() ==> #[trigger] subs[k].len() <= bound[k],
    ensures
        max_len(subs) <= nat_sum(bound),
    decreases subs.len(),
{
    if subs.len() > 0 {
        lemma_max_len_bound(subs.drop_last(), bound.drop_last());
        assert(subs[subs.len() - 1].len() <= bound[bound.len() - 1]);
    }
}

pub open spec fn nat_sum(s: Seq<nat>) -> nat
    decreases s.len(),
{
    if s.len() == 0 {
        0
    } else {
        nat_sum(s.drop_last()) + s.last()
    }
}

/// `opt_rel` means the same in an extended arena.
proof fn lemma_opt_rel_extends(a1: TyArena, a2: TyArena, optional: bool, ty: Ty, r: Ty)
    requires
        a2.extends(a1),
        a1.contains(ty),
        opt_rel(a1, optional, ty, r),
    ensures
        opt_rel(a2, optional, ty, r),
{
    if optional {
        assert(a2.unions@[r->Union_0 as int] == a1.unions@[r->Union_0 as int]);
        lemma_fold_steps_extends(a1, a2, never_view(), seq![ty, Ty::Undefined]);
    }
}

/// What collecting parameter types gave still holds in an extended arena.
pub proof fn lemma_param_types_extends<const CTOR: bool>(
    a1: TyArena,
    a2: TyArena,
    c: ExtractedCallable<CTOR>,
    res: Seq<Ty>,
)
    requires
        a1.wf(),
        a2.extends(a1),
        a1.functions@ == a2.functions@,
        a1.constructors@ == a2.constructors@,
        callable_in::<CTOR>(a1, c),
        param_types_rel::<CTOR>(a1, c, res),
    ensures
        param_types_rel::<CTOR>(a2, c, res),
    decreases c,
{
    assert forall|j: int| 0 <= j < res.len() implies a2.contains(#[trigger] res[j]) by {
        lemma_extends_contains(a1, a2, res[j]);
    }
    match c {
        ExtractedCallable::Single(i) => {
            let p = callable_params::<CTOR>(a1, i);
            assert forall|j: int| 0 <= j < res.len() implies opt_rel(a2, p[j].0, p[j].1, #[trigger] res[j]) by {
                if CTOR {
                    assert(a1.constructor_ok(i as int));
                    assert(a1.component_ok(a1.constructors@[i as int].params@[j].1, a1.constructor_ranks@[i as int]));
                } else {
                    assert(a1.function_ok(i as int));
                    assert(a1.component_ok(a1.functions@[i as int].params@[j].1, a1.function_ranks@[i as int]));
                }
                lemma_opt_rel_extends(a1, a2, p[j].0, p[j].1, res[j]);
            }
        },
        ExtractedCallable::Overloaded(v) => {
            let subs = choose|subs: Seq<Seq<Ty>>|
                {
                    &&& subs.len() == v@.len()
                    &&& forall|k: int|
                        0 <= k < v@.len() ==> param_types_rel::<CTOR>(a1, #[trigger] v@[k], subs[k])
                    &&& res.len() == max_len(subs)
                    &&& forall|j: int|
                        0 <= j < res.len() ==> {
                            &&& #[trigger] res[j] is Union
                            &&& (res[j]->Union_0 as int) < a1.unions@.len()
                            &&& a1.union_view(res[j]->Union_0) == fold_steps(a1, never_view(), column(subs, j))
                        }
                };
            assert forall|k: int| 0 <= k < v@.len() implies param_types_rel::<CTOR>(a2, #[trigger] v@[k], subs[k]) by {
                lemma_param_types_extends::<CTOR>(a1, a2, v@[k], subs[k]);
            }
            assert forall|j: int| 0 <= j < res.len() implies {
                &&& #[trigger] res[j] is Union
                &&& (res[j]->Union_0 as int) < a2.unions@.len()
                &&& a2.union_view(res[j]->Union_0) == fold_steps(a2, never_view(), column(subs, j))
            } by {
                assert(a2.unions@[res[j]->Union_0 as int] == a1.unions@[res[j]->Union_0 as int]);
                assert forall|i: int| 0 <= i < column(subs, j).len() implies a1.contains(#[trigger] column(subs, j)[i]) by {
                    let k = lemma_column_entry(subs, j, i);
                    assert(param_types_rel::<CTOR>(a1, v@[k], subs[k]));
                    assert(a1.contains(subs[k][j]));
                }
                lemma_fold_steps_extends(a1, a2, never_view(), column(subs, j));
            }
        },
        ExtractedCallable::Union(_) => {},
    }
}

impl Analyzer {
    /// The types of the parameters of `callable`: for one signature, each
    /// parameter's type, joined with `undefined` when it is optional; for
    /// overloads, position by position, a new union of what the overloads
    /// have there.
    pub fn get_callable_parameter_types<const CTOR: bool>(&mut self, callable: &ExtractedCallable<CTOR>) -> (r: Vec<Ty>)
        requires
            old(self).wf(),
            callable_in::<CTOR>(old(self).arena, *callable),
            param_types_defined::<CTOR>(old(self).arena, *callable, false),
            old(self).arena.unions@.len() + extracted_size::<CTOR>(old(self).arena, *callable) < u32::MAX,
        ensures
            final(self).wf(),
            same_scopes(*old(self), *final(self)),
            final(self).arena.extends(old(self).arena),
            final(self).arena.functions@ == old(self).arena.functions@,
            final(self).arena.constructors@ == old(self).arena.constructors@,
            final(self).arena.intersections@ == old(self).arena.intersections@,
            final(self).arena.unions@.len() <= old(self).arena.unions@.len() + extracted_size::<CTOR>(old(self).arena, *callable),
            param_types_rel::<CTOR>(final(self).arena, *callable, r@),
            r@.len() <= extracted_size::<CTOR>(old(self).arena, *callable),
            param_types_defined::<CTOR>(old(self).arena, *callable, true) ==> forall|j: int|
                0 <= j < r@.len() ==> !is_non_value(#[trigger] r@[j]),
        decreases callable,
    {
        match callable {
            ExtractedCallable::Single(i) => {
                let ghost arena0 = self.arena;
                let ghost p = callable_params::<CTOR>(arena0, *i);
                let n = if CTOR {
                    self.arena.constructors[*i as usize].params.len()
                } else {
                    self.arena.functions[*i as usize].params.len()
                };
                let mut res: Vec<Ty> = Vec::new();
                let mut j: usize = 0;
                while j < n
                    invariant
                        0 <= j <= n,
                        n == p.len(),
                        *callable == ExtractedCallable::<CTOR>::Single(*i),
                        self.wf(),
                        same_scopes(*old(self), *self),
                        arena0 == old(self).arena,
                        arena0.wf(),
                        self.arena.extends(arena0),
                        self.arena.functions@ == arena0.functions@,
                        self.arena.constructors@ == arena0.constructors@,
                        self.arena.intersections@ == arena0.intersections@,
                        self.arena.unions@.len() <= arena0.unions@.len() + j,
                        arena0.unions@.len() + n < u32::MAX,
                        callable_in::<CTOR>(arena0, *callable),
                        param_types_defined::<CTOR>(arena0, *callable, false),
                        p == callable_params::<CTOR>(arena0, *i),
                        res@.len() == j,
                        forall|k: int| 0 <= k < j ==> self.arena.contains(#[trigger] res@[k]),
                        forall|k: int| 0 <= k < j ==> opt_rel(self.arena, p[k].0, p[k].1, #[trigger] res@[k]),
                        forall|k: int| 0 <= k < j ==> (res@[k] == p[k].1 || res@[k] is Union),
                    decreases n - j,
                {
                    let (optional, ty) = if CTOR {
                        self.arena.constructors[*i as usize].params[j]
                    } else {
                        self.arena.functions[*i as usize].params[j]
                    };
                    proof {
                        assert((optional, ty) == p[j as int]);
                        if CTOR {
                            assert(arena0.constructor_ok(*i as int));
                            assert(arena0.component_ok(p[j as int].1, arena0.constructor_ranks@[*i as int]));
                        } else {
                            assert(arena0.function_ok(*i as int));
                            assert(arena0.component_ok(p[j as int].1, arena0.function_ranks@[*i as int]));
                        }
                        lemma_extends_contains(arena0, self.arena, ty);
                    }
                    let ghost before = self.arena;
                    let t = self.get_optional_type(optional, ty);
                    proof {
                        assert forall|k: int| 0 <= k < j implies self.arena.contains(#[trigger] res@[k])
                            && opt_rel(self.arena, p[k].0, p[k].1, res@[k]) by {
                            lemma_extends_contains(before, self.arena, res@[k]);
                            lemma_extends_contains(arena0, before, p[k].1);
                            if CTOR {
                                assert(arena0.component_ok(arena0.constructors@[*i as int].params@[k].1, arena0.constructor_ranks@[*i as int]));
                            } else {
                                assert(arena0.component_ok(arena0.functions@[*i as int].params@[k].1, arena0.function_ranks@[*i as int]));
                            }
                            lemma_opt_rel_extends(before, self.arena, p[k].0, p[k].1, res@[k]);
                        }
                        if optional {
                            lemma_fold_steps_extends(before, self.arena, never_view(), seq![ty, Ty::Undefined]);
                        }
                    }
                    res.push(t);
                    j += 1;
                }
                res
            },
            ExtractedCallable::Overloaded(callables) => {
                let ghost arena0 = self.arena;
                let ghost v = callables@;
                let mut subs: Vec<Vec<Ty>> = Vec::new();
                let ghost mut gsubs: Seq<Seq<Ty>> = Seq::empty();
                let ghost mut sizes: Seq<nat> = Seq::empty();
                let mut k: usize = 0;
                while k < callables.len()
                    invariant
                        0 <= k <= v.len(),
                        v == callables@,
                        *callable == ExtractedCallable::<CTOR>::Overloaded(*callables),
                        self.wf(),
                        same_scopes(*old(self), *self),
                        arena0 == old(self).arena,
                        arena0.wf(),
                        self.arena.extends(arena0),
                        self.arena.functions@ == arena0.functions@,
                        self.arena.constructors@ == arena0.constructors@,
                        self.arena.intersections@ == arena0.intersections@,
                        self.arena.unions@.len() <= arena0.unions@.len() + sizes_sum::<CTOR>(arena0, v.take(k as int)),
                        arena0.unions@.len() + 2 * sizes_sum::<CTOR>(arena0, v) < u32::MAX,
                        forall|x: int| 0 <= x < v.len() ==> callable_in::<CTOR>(arena0, #[trigger] v[x]),
                        forall|x: int| 0 <= x < v.len() ==> param_types_defined::<CTOR>(arena0, #[trigger] v[x], true),
                        subs@.len() == k,
                        gsubs.len() == k,
                        sizes.len() == k,
                        forall|x: int| 0 <= x < k ==> (#[trigger] subs@[x])@ == gsubs[x],
                        forall|x: int| 0 <= x < k ==> param_types_rel::<CTOR>(self.arena, #[trigger] v[x], gsubs[x]),
                        forall|x: int| 0 <= x < k ==> #[trigger] sizes[x] == extracted_size::<CTOR>(arena0, v[x]),
                        forall|x: int| 0 <= x < k ==> (#[trigger] gsubs[x]).len() <= sizes[x],
                        forall|x: int, y: int| 0 <= x < k && 0 <= y < gsubs[x].len() ==> !is_non_value(#[trigger] gsubs[x][y]),
                        nat_sum(sizes) == sizes_sum::<CTOR>(arena0, v.take(k as int)),
                    decreases v.len() - k,
                {
                    let ghost before = self.arena;
                    proof {
                        lemma_same_signatures::<CTOR>(arena0, before, v[k as int]);
                        lemma_sizes_sum_prefix::<CTOR>(arena0, v, k as int);
                        lemma_sizes_sum_prefix_le::<CTOR>(arena0, v, k as int + 1);
                        assert(v.take(k as int + 1).drop_last() =~= v.take(k as int));
                        param_types_defined_sub::<CTOR>(arena0, v[k as int]);
                        assert(decreases_to!(*callable => (*callable)->Overloaded_0));
                        assert(decreases_to!((*callable)->Overloaded_0 => (*callable)->Overloaded_0[k as int]));
                    }
                    let sub = self.get_callable_parameter_types(&callables[k]);
                    proof {
                        assert forall|x: int| 0 <= x < k implies param_types_rel::<CTOR>(self.arena, #[trigger] v[x], gsubs[x]) by {
                            lemma_same_signatures::<CTOR>(arena0, before, v[x]);
                            lemma_param_types_extends::<CTOR>(before, self.arena, v[x], gsubs[x]);
                        }
                        gsubs = gsubs.push(sub@);
                        let old_sizes = sizes;
                        sizes = sizes.push(extracted_size::<CTOR>(arena0, v[k as int]));
                        assert(sizes.drop_last() =~= old_sizes);
                    }
                    subs.push(sub);
                    k += 1;
                }
                proof {
                    assert(v.take(v.len() as int) =~= v);
                    lemma_max_len_bound(gsubs, sizes);
                }
                let mut width: usize = 0;
                let mut x: usize = 0;
                while x < subs.len()
                    invariant
                        0 <= x <= subs@.len(),
                        subs@.len() == gsubs.len(),
                        forall|y: int| 0 <= y < subs@.len() ==> (#[trigger] subs@[y])@ == gsubs[y],
                        width == max_len(gsubs.take(x as int)),
                        max_len(gsubs) <= nat_sum(sizes),
                        nat_sum(sizes) == sizes_sum::<CTOR>(arena0, v),
                        arena0.unions@.len() + 2 * sizes_sum::<CTOR>(arena0, v) < u32::MAX,
                        x <= gsubs.len(),
                    decreases subs@.len() - x,
                {
                    proof {
                        assert(gsubs.take(x as int + 1).drop_last() =~= gsubs.take(x as int));
                        lemma_max_len_prefix(gsubs, x as int + 1);
                    }
                    if subs[x].len() > width {
                        width = subs[x].len();
                    }
                    x += 1;
                }
                proof {
                    assert(gsubs.take(gsubs.len() as int) =~= gsubs);
                }
                let ghost arena1 = self.arena;
                let mut res: Vec<Ty> = Vec::new();
                let mut j: usize = 0;
                while j < width
                    invariant
                        0 <= j <= width,
                        width == max_len(gsubs),
                        width <= sizes_sum::<CTOR>(arena0, v),
                        self.wf(),
                        same_scopes(*old(self), *self),
                        arena1.wf(),
                        self.arena.extends(arena1),
                        arena1.extends(arena0),
                        self.arena.functions@ == arena0.functions@,
                        self.arena.constructors@ == arena0.constructors@,
                        self.arena.intersections@ == arena0.intersections@,
                        arena1.functions@ == arena0.functions@,
                        arena1.constructors@ == arena0.constructors@,
                        self.arena.unions@.len() == arena1.unions@.len() + j,
                        arena1.unions@.len() <= arena0.unions@.len() + sizes_sum::<CTOR>(arena0, v),
                        arena0.unions@.len() + 2 * sizes_sum::<CTOR>(arena0, v) < u32::MAX,
                        gsubs.len() == v.len(),
                        subs@.len() == gsubs.len(),
                        forall|y: int| 0 <= y < subs@.len() ==> (#[trigger] subs@[y])@ == gsubs[y],
                        forall|y: int| 0 <= y < v.len() ==> callable_in::<CTOR>(arena0, #[trigger] v[y]),
                        forall|y: int| 0 <= y < v.len() ==> param_types_rel::<CTOR>(arena1, #[trigger] v[y], gsubs[y]),
                        forall|y: int, z: int| 0 <= y < v.len() && 0 <= z < gsubs[y].len() ==> !is_non_value(#[trigger] gsubs[y][z]),
                        res@.len() == j,
                        forall|y: int| 0 <= y < j ==> {
                            &&& #[trigger] res@[y] is Union
                            &&& (res@[y]->Union_0 as int) < self.arena.unions@.len()
                            &&& self.arena.union_view(res@[y]->Union_0) == fold_steps(arena1, never_view(), column(gsubs, y))
                        },
                    decreases width - j,
                {
                    let mut col: Vec<Ty> = Vec::new();
                    let mut y: usize = 0;
                    while y < subs.len()
                        invariant
                            0 <= y <= subs@.len(),
                            subs@.len() == gsubs.len(),
                            gsubs.len() == v.len(),
                            forall|z: int| 0 <= z < subs@.len() ==> (#[trigger] subs@[z])@ == gsubs[z],
                            col@ == column(gsubs.take(y as int), j as int),
                            forall|z: int| 0 <= z < v.len() ==> param_types_rel::<CTOR>(arena1, #[trigger] v[z], gsubs[z]),
                            forall|a: int, b: int| 0 <= a < v.len() && 0 <= b < gsubs[a].len() ==> !is_non_value(#[trigger] gsubs[a][b]),
                            forall|z: int| 0 <= z < col@.len() ==> arena1.contains(#[trigger] col@[z]) && !is_non_value(col@[z]),
                        decreases subs@.len() - y,
                    {
                        proof {
                            assert(gsubs.take(y as int + 1).drop_last() =~= gsubs.take(y as int));
                        }
                        if j < subs[y].len() {
                            let t = subs[y][j];
                            proof {
                                assert(param_types_rel::<CTOR>(arena1, v[y as int], gsubs[y as int]));
                                assert(arena1.contains(gsubs[y as int][j as int]));
                                assert(!is_non_value(gsubs[y as int][j as int]));
                            }
                            col.push(t);
                        }
                        y += 1;
                    }
                    proof {
                        assert(gsubs.take(gsubs.len() as int) =~= gsubs);
                        lemma_steps_ok(self.arena, never_view(), col@);
                        assert forall|z: int| 0 <= z < col@.len() implies self.arena.contains(#[trigger] col@[z]) by {
                            lemma_extends_contains(arena1, self.arena, col@[z]);
                        }
                    }
                    let ghost before = self.arena;
                    let ghost before_an = *self;
                    let id = alloc_union_of(&mut self.arena, col);
                    proof {
                        self.lemma_wf_extends(before_an);
                        lemma_fold_steps_extends(arena1, before, never_view(), col@);
                        assert forall|z: int| 0 <= z < j implies {
                            &&& #[trigger] res@[z] is Union
                            &&& (res@[z]->Union_0 as int) < self.arena.unions@.len()
                            &&& self.arena.union_view(res@[z]->Union_0) == fold_steps(arena1, never_view(), column(gsubs, z))
                        } by {
                            assert(self.arena.unions@[res@[z]->Union_0 as int] == before.unions@[res@[z]->Union_0 as int]);
                        }
                    }
                    res.push(Ty::Union(id));
                    j += 1;
                }
                proof {
                    assert forall|y: int| 0 <= y < v.len() implies param_types_rel::<CTOR>(self.arena, #[trigger] v[y], gsubs[y]) by {
                        lemma_same_signatures::<CTOR>(arena0, arena1, v[y]);
                        lemma_param_types_extends::<CTOR>(arena1, self.arena, v[y], gsubs[y]);
                    }
                    assert forall|y: int| 0 <= y < res@.len() implies {
                        &&& #[trigger] res@[y] is Union
                        &&& (res@[y]->Union_0 as int) < self.arena.unions@.len()
                        &&& self.arena.union_view(res@[y]->Union_0) == fold_steps(self.arena, never_view(), column(gsubs, y))
                    } by {
                        assert forall|i: int| 0 <= i < column(gsubs, y).len() implies arena1.contains(#[trigger] column(gsubs, y)[i]) by {
                            let a = lemma_column_entry(gsubs, y, i);
                            assert(param_types_rel::<CTOR>(arena1, v[a], gsubs[a]));
                            assert(arena1.contains(gsubs[a][y]));
                        }
                        lemma_fold_steps_extends(arena1, self.arena, never_view(), column(gsubs, y));
                    }
                    assert forall|y: int| 0 <= y < res@.len() implies self.arena.contains(#[trigger] res@[y]) by {
                        assert(res@[y] is Union);
                    }
                }
                res
            },
            ExtractedCallable::Union(_) => {
                proof {
                    assert(false);
                }
                Vec::new()
            },
        }
    }
}

proof fn param_types_defined_sub<const CTOR: bool>(arena: TyArena, c: ExtractedCallable<CTOR>)
    requires
        param_types_defined::<CTOR>(arena, c, true),
    ensures
        param_types_defined::<CTOR>(arena, c, false),
{
}

proof fn lemma_sizes_sum_prefix<const CTOR: bool>(arena: TyArena, s: Seq<ExtractedCallable<CTOR>>, k: int)
    requires
        0 <= k < s.len(),
    ensures
        sizes_sum::<CTOR>(arena, s.take(k + 1)) == sizes_sum::<CTOR>(arena, s.take(k)) + extracted_size::<CTOR>(arena, s[k]),
{
    assert(s.take(k + 1).drop_last() =~= s.take(k));
}

proof fn lemma_sizes_sum_prefix_le<const CTOR: bool>(arena: TyArena, s: Seq<ExtractedCallable<CTOR>>, k: int)
    requires
        0 <= k <= s.len(),
    ensures
        sizes_sum::<CTOR>(arena, s.take(k)) <= sizes_sum::<CTOR>(arena, s),
    decreases s.len() - k,
{
    if k < s.len() {
        lemma_sizes_sum_prefix::<CTOR>(arena, s, k);
        lemma_sizes_sum_prefix_le::<CTOR>(arena, s, k + 1);
    } else {
        assert(s.take(k) =~= s);
    }
}

proof fn lemma_max_len_prefix(subs: Seq<Seq<Ty>>, k: int)
    requires
        0 < k <= subs.len(),
    ensures
        max_len(subs.take(k)) == if subs[k - 1].len() > max_len(subs.take(k - 1)) {
            subs[k - 1].len()
        } else {
            max_len(subs.take(k - 1))
        },
{
    assert(subs.take(k).drop_last() =~= subs.take(k - 1));
}

/// No argument before the `i`-th is a spread element.
pub open spec fn in_order_before(spread: Seq<bool>, i: int) -> bool {
    forall|j: int| 0 <= j < i ==> !spread[j]
}

/// The type the `i`-th argument of a call is expected to have.
pub open spec fn expectation(params: Seq<Ty>, spread: Seq<bool>, i: int) -> Option<Ty> {
    if in_order_before(spread, i + 1) {
        Some(if i < params.len() { params[i] } else { Ty::Error })
    } else {
        None
    }
}

impl Analyzer {
    /// The type each argument of a call is expected to have, given the
    /// parameter types and which arguments are spread elements: while no spread
    /// has been met, the parameter at the same position (an error past the last
    /// one); from the first spread on, none.
    pub fn exec_arguments(&self, spread: &Vec<bool>, params: &Vec<Ty>) -> (r: Vec<Option<Ty>>)
        ensures
            r@.len() == spread@.len(),
            forall|i: int| 0 <= i < r@.len() ==> #[trigger] r@[i] == expectation(params@, spread@, i),
    {
        let mut r: Vec<Option<Ty>> = Vec::new();
        let mut in_order = true;
        let mut i: usize = 0;
        while i < spread.len()
            invariant
                0 <= i <= spread@.len(),
                r@.len() == i,
                in_order == in_order_before(spread@, i as int),
                forall|k: int| 0 <= k < i ==> #[trigger] r@[k] == (if in_order_before(spread@, k + 1) {
                    Some(if k < params@.len() { params@[k] } else { Ty::Error })
                } else {
                    None
                }),
            decreases spread@.len() - i,
        {
            if spread[i] {
                in_order = false;
                r.push(None);
            } else if in_order {
                let t = if i < params.len() { params[i] } else { Ty::Error };
                r.push(Some(t));
            } else {
                r.push(None);
            }
            proof {
                assert(in_order_before(spread@, i + 1) == (in_order_before(spread@, i as int) && !spread@[i as int]));
            }
            i += 1;
        }
        r
    }
}

/// A parameter of a printed signature: named `a` followed by `index` in
/// decimal, optional or not, of type `ty`.
#[derive(Clone, Copy, Debug, PartialEq, Eq, Structural)]
pub struct ParamLayout {
    pub index: usize,
    pub optional: bool,
    pub ty: Ty,
}

/// How a signature is printed as a function type: its `this` parameter,
/// its parameters, its rest parameter (named `rest`) and its return type,
/// each with the type to print there.
pub struct SignatureLayout {
    pub this_param: Option<Ty>,
    pub params: Vec<ParamLayout>,
    pub rest: Option<Ty>,
    pub return_type: Ty,
}

/// The `this` type of the stored signature `i` of the kind `CTOR`.
pub open spec fn signature_this<const CTOR: bool>(arena: TyArena, i: TyId) -> Option<Ty> {
    if CTOR {
        arena.constructors@[i as int].this_type
    } else {
        arena.functions@[i as int].this_type
    }
}

/// The rest parameter's type of the stored signature `i` of the kind `CTOR`.
pub open spec fn signature_rest<const CTOR: bool>(arena: TyArena, i: TyId) -> Option<Ty> {
    if CTOR {
        arena.constructors@[i as int].rest_param
    } else {
        arena.functions@[i as int].rest_param
    }
}

/// The return type of the stored signature `i` of the kind `CTOR`.
pub open spec fn signature_return<const CTOR: bool>(arena: TyArena, i: TyId) -> Ty {
    if CTOR {
        arena.constructors@[i as int].return_type
    } else {
        arena.functions@[i as int].return_type
    }
}

/// Whether `i` names a stored signature of the kind `CTOR`.
pub open spec fn has_signature<const CTOR: bool>(arena: TyArena, i: TyId) -> bool {
    if CTOR {
        i < arena.constructors@.len()
    } else {
        i < arena.functions@.len()
    }
}

/// `l` lays out the signature `i`: a `this` parameter exactly when the
/// signature has a `this` type; one parameter per parameter of the
/// signature, the `j`-th named by `j`, with its optional flag and type; a
/// rest parameter exactly when the signature has one; and its return type.
pub open spec fn layout_spec<const CTOR: bool>(arena: TyArena, i: TyId, l: SignatureLayout) -> bool {
    &&& l.this_param == signature_this::<CTOR>(arena, i)
    &&& l.params@.len() == callable_params::<CTOR>(arena, i).len()
    &&& forall|j: int| 0 <= j < l.params@.len() ==> #[trigger] l.params@[j] == (ParamLayout {
        index: j as usize,
        optional: callable_params::<CTOR>(arena, i)[j].0,
        ty: callable_params::<CTOR>(arena, i)[j].1,
    })
    &&& l.rest == signature_rest::<CTOR>(arena, i)
    &&& l.return_type == signature_return::<CTOR>(arena, i)
}

fn layout_of<const C: bool>(sig: &CallableType<C>) -> (l: SignatureLayout)
    ensures
        l.this_param == sig.this_type,
        l.params@.len() == sig.params@.len(),
        forall|j: int| 0 <= j < l.params@.len() ==> #[trigger] l.params@[j] == (ParamLayout {
            index: j as usize,
            optional: sig.params@[j].0,
            ty: sig.params@[j].1,
        }),
        l.rest == sig.rest_param,
        l.return_type == sig.return_type,
{
    let mut params: Vec<ParamLayout> = Vec::new();
    let mut j: usize = 0;
    while j < sig.params.len()
        invariant
            0 <= j <= sig.params@.len(),
            params@.len() == j,
            forall|k: int| 0 <= k < j ==> #[trigger] params@[k] == (ParamLayout {
                index: k as usize,
                optional: sig.params@[k].0,
                ty: sig.params@[k].1,
            }),
        decreases sig.params@.len() - j,
    {
        let (optional, ty) = sig.params[j];
        params.push(ParamLayout { index: j, optional, ty });
        j += 1;
    }
    SignatureLayout { this_param: sig.this_type, params, rest: sig.rest_param, return_type: sig.return_type }
}

impl Analyzer {
    /// The layout in which the signature `c` of the kind `CTOR` is printed
    /// as a function type.
    pub fn print_callable_type<const CTOR: bool>(&self, c: TyId) -> (l: SignatureLayout)
        requires
            has_signature::<CTOR>(self.arena, c),
        ensures
            layout_spec::<CTOR>(self.arena, c, l),
    {
        if CTOR {
            layout_of(&self.arena.constructors[c as usize])
        } else {
            layout_of(&self.arena.functions[c as usize])
        }
    }
}

/// What a call asks of its caller and what it gives: for each argument,
/// whether it is evaluated, and against which expected type; the signature
/// whose type parameters are instantiated with the call's type arguments
/// for its duration, if any; and the call's type.
pub struct CallPlan {
    /// `None` when the arguments are not evaluated at all; else, per
    /// argument, the type it is expected to have, if any.
    pub arguments: Option<Vec<Option<Ty>>>,
    pub instantiate: Option<TyId>,
    /// The call's type; with `instantiate`, the signature's return type as
    /// stored, to be read under the instantiation before it is restored.
    pub result: Ty,
}

/// Whether a call of `callable` is defined: there is no callee, or one
/// signature given type arguments, or an empty set of overloads.
pub open spec fn call_defined<const CTOR: bool>(callable: Option<ExtractedCallable<CTOR>>, has_type_args: bool) -> bool {
    match callable {
        None => true,
        Some(ExtractedCallable::Single(_)) => has_type_args,
        Some(ExtractedCallable::Overloaded(v)) => v@.len() == 0,
        Some(ExtractedCallable::Union(_)) => false,
    }
}

impl Analyzer {
    /// Plans a call of `callable` with arguments of which those marked in
    /// `spread` are spread elements. Without a callee, each argument is
    /// evaluated with no expectation and the call is an error. With one
    /// signature and type arguments, the signature is instantiated for the
    /// call, each argument is evaluated against the parameter type at its
    /// position until the first spread, and the call has the signature's
    /// return type. With no overloads, nothing is evaluated and the call is
    /// an error. The scopes, and with them the type parameters in effect,
    /// are as before.
    pub fn exec_call<const CTOR: bool>(
        &mut self,
        callable: Option<ExtractedCallable<CTOR>>,
        spread: &Vec<bool>,
        has_type_args: bool,
    ) -> (r: CallPlan)
        requires
            old(self).wf(),
            call_defined::<CTOR>(callable, has_type_args),
            callable matches Some(c) ==> callable_in::<CTOR>(old(self).arena, c) && param_types_defined::<CTOR>(
                old(self).arena,
                c,
                false,
            ) && old(self).arena.unions@.len() + extracted_size::<CTOR>(old(self).arena, c) < u32::MAX,
        ensures
            final(self).wf(),
            same_scopes(*old(self), *final(self)),
            final(self).arena.extends(old(self).arena),
            final(self).arena.functions@ == old(self).arena.functions@,
            final(self).arena.constructors@ == old(self).arena.constructors@,
            final(self).arena.intersections@ == old(self).arena.intersections@,
            match callable {
                None => {
                    &&& r.arguments matches Some(a) && a@.len() == spread@.len() && forall|i: int|
                        0 <= i < a@.len() ==> #[trigger] a@[i] is None
                    &&& r.instantiate is None
                    &&& r.result == Ty::Error
                    &&& *final(self) == *old(self)
                },
                Some(ExtractedCallable::Single(i)) => {
                    &&& r.instantiate == Some(i)
                    &&& r.result == signature_return::<CTOR>(old(self).arena, i)
                    &&& final(self).arena.unions@.len() <= old(self).arena.unions@.len()
                        + callable_params::<CTOR>(old(self).arena, i).len()
                    &&& exists|params: Seq<Ty>| {
                        &&& param_types_rel::<CTOR>(final(self).arena, ExtractedCallable::Single(i), params)
                        &&& r.arguments matches Some(a) && a@.len() == spread@.len() && forall|k: int|
                            0 <= k < a@.len() ==> #[trigger] a@[k] == expectation(params, spread@, k)
                    }
                },
                _ => {
                    &&& r.arguments is None
                    &&& r.instantiate is None
                    &&& r.result == Ty::Error
                    &&& *final(self) == *old(self)
                },
            },
    {
        match callable {
            None => {
                let mut a: Vec<Option<Ty>> = Vec::new();
                let mut k: usize = 0;
                while k < spread.len()
                    invariant
                        0 <= k <= spread@.len(),
                        a@.len() == k,
                        forall|x: int| 0 <= x < k ==> #[trigger] a@[x] is None,
                    decreases spread@.len() - k,
                {
                    a.push(None);
                    k += 1;
                }
                CallPlan { arguments: Some(a), instantiate: None, result: Ty::Error }
            },
            Some(ExtractedCallable::Single(i)) => {
                let c = ExtractedCallable::<CTOR>::Single(i);
                let params = self.get_callable_parameter_types(&c);
                let a = self.exec_arguments(spread, &params);
                let result = if CTOR {
                    self.arena.constructors[i as usize].return_type
                } else {
                    self.arena.functions[i as usize].return_type
                };
                CallPlan { arguments: Some(a), instantiate: Some(i), result }
            },
            _ => CallPlan { arguments: None, instantiate: None, result: Ty::Error },
        }
    }
}

/// Arguments are checked against parameters only up to the first spread:
/// an argument after a spread, and a spread itself, has no expected type;
/// one before has the parameter at its position, or an error past the
/// last parameter; and once an argument has none, no later one has any.
pub proof fn law_expectations_stop_at_spread(params: Seq<Ty>, spread: Seq<bool>, i: int, j: int)
    requires
        0 <= i < j < spread.len(),
    ensures
        spread[i] ==> expectation(params, spread, i) is None && expectation(params, spread, j) is None,
        expectation(params, spread, i) is None ==> expectation(params, spread, j) is None,
        expectation(params, spread, j) is Some ==> expectation(params, spread, i) == Some(
            if i < params.len() { params[i] } else { Ty::Error },
        ),
        (forall|k: int| 0 <= k <= i ==> !#[trigger] spread[k]) ==> expectation(params, spread, i) is Some,
{
    if spread[i] {
        assert(!in_order_before(spread, j + 1));
    }
    if !in_order_before(spread, i + 1) {
        let k = choose|k: int| 0 <= k < i + 1 && spread[k];
        assert(!in_order_before(spread, j + 1));
    }
}

} // verus!
