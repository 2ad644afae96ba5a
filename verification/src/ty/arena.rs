//! The tables that composite types live in, indexed by [`TyId`].
use vstd::prelude::*;
use super::{Ty, TyId, is_non_value};
use super::union::{UnionType, UnionView, view_members, members_within};
use super::callable::{CallableType, FunctionType, ConstructorType, GenericParam};
use super::interface::InterfaceType;

verus! {

/// The composite types of an analysis. Every table only grows; a type that
/// refers to others is added after them, which the ghost ranks record.
pub struct TyArena {
    pub unions: Vec<UnionType>,
    pub intersections: Vec<Vec<Ty>>,
    pub functions: Vec<FunctionType>,
    pub constructors: Vec<ConstructorType>,
    /// The interfaces declared so far; nothing else refers to them by rank.
    pub interfaces: Vec<InterfaceType>,
    pub union_ranks: Ghost<Seq<nat>>,
    pub intersection_ranks: Ghost<Seq<nat>>,
    pub function_ranks: Ghost<Seq<nat>>,
    pub constructor_ranks: Ghost<Seq<nat>>,
}

impl TyArena {
    /// An arena with no composite types.
    pub fn new() -> (r: Self)
        ensures
            r.wf(),
            r.unions@.len() == 0,
            r.intersections@.len() == 0,
            r.functions@.len() == 0,
            r.constructors@.len() == 0,
            r.interfaces@.len() == 0,
    {
        TyArena {
            unions: Vec::new(),
            intersections: Vec::new(),
            functions: Vec::new(),
            constructors: Vec::new(),
            interfaces: Vec::new(),
            union_ranks: Ghost(Seq::empty()),
            intersection_ranks: Ghost(Seq::empty()),
            function_ranks: Ghost(Seq::empty()),
            constructor_ranks: Ghost(Seq::empty()),
        }
    }

    /// Whether the composite type `t` refers to exists in this arena.
    pub open spec fn contains(&self, t: Ty) -> bool {
        match t {
            Ty::Union(j) => j < self.unions@.len(),
            Ty::Intersection(j) => j < self.intersections@.len(),
            Ty::Function(j) => j < self.functions@.len(),
            Ty::Constructor(j) => j < self.constructors@.len(),
            _ => true,
        }
    }

    /// How deep `t` is nested: composite types rank above every type they refer to.
    pub open spec fn rank(&self, t: Ty) -> nat {
        match t {
            Ty::Union(j) => self.union_ranks@[j as int],
            Ty::Intersection(j) => self.intersection_ranks@[j as int],
            Ty::Function(j) => self.function_ranks@[j as int],
            Ty::Constructor(j) => self.constructor_ranks@[j as int],
            _ => 0,
        }
    }

    /// The meaning of the union with index `j`.
    pub open spec fn union_view(&self, j: TyId) -> UnionView {
        self.unions@[j as int].view()
    }

    /// The members of a stored union are resolved or unresolved value types,
    /// never unions, already stored and of lower rank.
    pub open spec fn union_ok(&self, j: int) -> bool {
        let u = self.unions@[j];
        &&& u.wf()
        &&& members_within(*self, u.view(), self.union_ranks@[j])
    }

    /// The members of a stored intersection are stored and of lower rank.
    pub open spec fn intersection_ok(&self, j: int) -> bool {
        forall|i: int| 0 <= i < self.intersections@[j]@.len() ==> {
            &&& self.contains(#[trigger] self.intersections@[j]@[i])
            &&& self.rank(self.intersections@[j]@[i]) < self.intersection_ranks@[j]
        }
    }

    /// `t` is stored and ranks at least two below `bound`.
    pub open spec fn component_ok(&self, t: Ty, bound: nat) -> bool {
        self.contains(t) && self.rank(t) + 2 <= bound
    }

    /// Every type a signature mentions is stored and ranks at least two below `bound`.
    pub open spec fn callable_within<const CTOR: bool>(&self, c: CallableType<CTOR>, bound: nat) -> bool {
        &&& forall|i: int| 0 <= i < c.type_params@.len() && #[trigger] c.type_params@[i].constraint is Some
            ==> self.component_ok(c.type_params@[i].constraint->0, bound)
        &&& c.this_type is Some ==> self.component_ok(c.this_type->0, bound)
        &&& forall|i: int| 0 <= i < c.params@.len() ==> self.component_ok(#[trigger] c.params@[i].1, bound)
        &&& c.rest_param is Some ==> self.component_ok(c.rest_param->0, bound)
        &&& self.component_ok(c.return_type, bound)
    }

    pub open spec fn function_ok(&self, j: int) -> bool {
        self.callable_within(self.functions@[j], self.function_ranks@[j])
    }

    pub open spec fn constructor_ok(&self, j: int) -> bool {
        self.callable_within(self.constructors@[j], self.constructor_ranks@[j])
    }

    pub open spec fn wf(&self) -> bool {
        &&& self.union_ranks@.len() == self.unions@.len()
        &&& self.intersection_ranks@.len() == self.intersections@.len()
        &&& self.function_ranks@.len() == self.functions@.len()
        &&& self.constructor_ranks@.len() == self.constructors@.len()
        &&& forall|j: int| 0 <= j < self.unions@.len() ==> #[trigger] self.union_ok(j)
        &&& forall|j: int| 0 <= j < self.intersections@.len() ==> #[trigger] self.intersection_ok(j)
        &&& forall|j: int| 0 <= j < self.functions@.len() ==> #[trigger] self.function_ok(j)
        &&& forall|j: int| 0 <= j < self.constructors@.len() ==> #[trigger] self.constructor_ok(j)
    }

    /// `self` holds every type of `old`, unchanged, and possibly more; its
    /// interfaces are those of `old`.
    pub open spec fn extends(&self, old: TyArena) -> bool {
        &&& old.unions@.len() <= self.unions@.len()
        &&& old.intersections@.len() <= self.intersections@.len()
        &&& old.functions@.len() <= self.functions@.len()
        &&& old.constructors@.len() <= self.constructors@.len()
        &&& self.union_ranks@.len() == self.unions@.len() ==> old.union_ranks@.len()
            <= self.union_ranks@.len()
        &&& forall|j: int| 0 <= j < old.unions@.len() ==> #[trigger] self.unions@[j] == old.unions@[j]
        &&& forall|j: int| 0 <= j < old.unions@.len() ==> #[trigger] self.union_ranks@[j] == old.union_ranks@[j]
        &&& forall|j: int| 0 <= j < old.intersections@.len() ==> #[trigger] self.intersections@[j] == old.intersections@[j]
        &&& forall|j: int| 0 <= j < old.intersections@.len() ==> #[trigger] self.intersection_ranks@[j] == old.intersection_ranks@[j]
        &&& forall|j: int| 0 <= j < old.functions@.len() ==> #[trigger] self.functions@[j] == old.functions@[j]
        &&& forall|j: int| 0 <= j < old.functions@.len() ==> #[trigger] self.function_ranks@[j] == old.function_ranks@[j]
        &&& forall|j: int| 0 <= j < old.constructors@.len() ==> #[trigger] self.constructors@[j] == old.constructors@[j]
        &&& forall|j: int| 0 <= j < old.constructors@.len() ==> #[trigger] self.constructor_ranks@[j] == old.constructor_ranks@[j]
        &&& self.interfaces == old.interfaces
    }
}

/// Every type stored in `old` is stored in `new`, with the same rank.
pub proof fn lemma_extends_contains(old: TyArena, new: TyArena, t: Ty)
    requires
        new.extends(old),
        old.contains(t),
    ensures
        new.contains(t),
        new.rank(t) == old.rank(t),
{
}

/// Extending an arena keeps its stored entries well formed.
pub proof fn lemma_extends_ok(old: TyArena, new: TyArena)
    requires
        old.wf(),
        new.extends(old),
    ensures
        forall|j: int| 0 <= j < old.unions@.len() ==> #[trigger] new.union_ok(j),
        forall|j: int| 0 <= j < old.intersections@.len() ==> #[trigger] new.intersection_ok(j),
        forall|j: int| 0 <= j < old.functions@.len() ==> #[trigger] new.function_ok(j),
        forall|j: int| 0 <= j < old.constructors@.len() ==> #[trigger] new.constructor_ok(j),
{
    assert forall|j: int| 0 <= j < old.unions@.len() implies #[trigger] new.union_ok(j) by {
        assert(old.union_ok(j));
        let v = old.unions@[j].view();
        assert forall|m: Ty| #[trigger] view_members(v).contains(m) implies {
            &&& !(m is Union)
            &&& !is_non_value(m)
            &&& new.contains(m)
            &&& new.rank(m) < new.union_ranks@[j]
        } by {
            lemma_extends_contains(old, new, m);
        }
    }
    assert forall|j: int| 0 <= j < old.intersections@.len() implies #[trigger] new.intersection_ok(j) by {
        assert(old.intersection_ok(j));
        assert forall|i: int| 0 <= i < new.intersections@[j]@.len() implies {
            &&& new.contains(#[trigger] new.intersections@[j]@[i])
            &&& new.rank(new.intersections@[j]@[i]) < new.intersection_ranks@[j]
        } by {
            lemma_extends_contains(old, new, new.intersections@[j]@[i]);
        }
    }
    assert forall|j: int| 0 <= j < old.functions@.len() implies #[trigger] new.function_ok(j) by {
        assert(old.function_ok(j));
        lemma_callable_within_extends(old, new, old.functions@[j], old.function_ranks@[j]);
    }
    assert forall|j: int| 0 <= j < old.constructors@.len() implies #[trigger] new.constructor_ok(j) by {
        assert(old.constructor_ok(j));
        lemma_callable_within_extends(old, new, old.constructors@[j], old.constructor_ranks@[j]);
    }
}

pub proof fn lemma_callable_within_extends<const CTOR: bool>(
    old: TyArena,
    new: TyArena,
    c: CallableType<CTOR>,
    bound: nat,
)
    requires
        new.extends(old),
        old.callable_within(c, bound),
    ensures
        new.callable_within(c, bound),
{
    assert forall|i: int| 0 <= i < c.type_params@.len() && #[trigger] c.type_params@[i].constraint is Some
        implies new.component_ok(c.type_params@[i].constraint->0, bound) by {
        lemma_extends_contains(old, new, c.type_params@[i].constraint->0);
    }
    if c.this_type is Some {
        lemma_extends_contains(old, new, c.this_type->0);
    }
    assert forall|i: int| 0 <= i < c.params@.len() implies new.component_ok(#[trigger] c.params@[i].1, bound) by {
        lemma_extends_contains(old, new, c.params@[i].1);
    }
    if c.rest_param is Some {
        lemma_extends_contains(old, new, c.rest_param->0);
    }
    lemma_extends_contains(old, new, c.return_type);
}

impl TyArena {
    /// Stores a union whose members are already stored and rank below `rank`.
    pub(crate) fn alloc_union(&mut self, u: UnionType, Ghost(rank): Ghost<nat>) -> (id: TyId)
        requires
            old(self).wf(),
            u.wf(),
            members_within(*old(self), u.view(), rank),
            old(self).unions@.len() < u32::MAX,
        ensures
            final(self).wf(),
            final(self).extends(*old(self)),
            id == old(self).unions@.len(),
            final(self).unions@ == old(self).unions@.push(u),
            final(self).union_ranks@ == old(self).union_ranks@.push(rank),
            final(self).intersections@ == old(self).intersections@,
            final(self).functions@ == old(self).functions@,
            final(self).constructors@ == old(self).constructors@,
    {
        let ghost old_arena = *self;
        let id = self.unions.len() as u32;
        self.unions.push(u);
        self.union_ranks = Ghost(self.union_ranks@.push(rank));
        proof {
            let new_arena = *self;
            assert(new_arena.extends(old_arena));
            lemma_extends_ok(old_arena, new_arena);
            let j = old_arena.unions@.len() as int;
            assert forall|m: Ty| #[trigger] view_members(new_arena.unions@[j].view()).contains(m) implies {
                &&& !(m is Union)
                &&& !is_non_value(m)
                &&& new_arena.contains(m)
                &&& new_arena.rank(m) < new_arena.union_ranks@[j]
            } by {
                lemma_extends_contains(old_arena, new_arena, m);
            }
            assert(new_arena.union_ok(j));
        }
        id
    }

    /// Stores the intersection of `types`, all of them already stored.
    pub fn alloc_intersection(&mut self, types: Vec<Ty>) -> (t: Ty)
        requires
            old(self).wf(),
            forall|i: int| 0 <= i < types@.len() ==> old(self).contains(#[trigger] types@[i]),
            old(self).intersections@.len() < u32::MAX,
        ensures
            final(self).wf(),
            final(self).extends(*old(self)),
            t == Ty::Intersection(old(self).intersections@.len() as u32),
            final(self).intersections@ == old(self).intersections@.push(types),
            final(self).unions@ == old(self).unions@,
            final(self).functions@ == old(self).functions@,
            final(self).constructors@ == old(self).constructors@,
    {
        let ghost old_arena = *self;
        let ghost rank = seq_rank(old_arena, types@) + 1;
        let id = self.intersections.len() as u32;
        self.intersections.push(types);
        self.intersection_ranks = Ghost(self.intersection_ranks@.push(rank));
        proof {
            let new_arena = *self;
            assert(new_arena.extends(old_arena));
            lemma_extends_ok(old_arena, new_arena);
            let j = old_arena.intersections@.len() as int;
            assert forall|i: int| 0 <= i < new_arena.intersections@[j]@.len() implies {
                &&& new_arena.contains(#[trigger] new_arena.intersections@[j]@[i])
                &&& new_arena.rank(new_arena.intersections@[j]@[i]) < new_arena.intersection_ranks@[j]
            } by {
                lemma_seq_rank(old_arena, types@, i);
                lemma_extends_contains(old_arena, new_arena, types@[i]);
            }
            assert(new_arena.intersection_ok(j));
        }
        Ty::Intersection(id)
    }

    /// Stores a function signature whose types are already stored.
    pub fn alloc_function(&mut self, c: FunctionType) -> (t: Ty)
        requires
            old(self).wf(),
            old(self).callable_within(c, callable_rank(*old(self), c)),
            old(self).functions@.len() < u32::MAX,
        ensures
            final(self).wf(),
            final(self).extends(*old(self)),
            t == Ty::Function(old(self).functions@.len() as u32),
            final(self).functions@ == old(self).functions@.push(c),
            final(self).unions@ == old(self).unions@,
            final(self).intersections@ == old(self).intersections@,
            final(self).constructors@ == old(self).constructors@,
    {
        let ghost old_arena = *self;
        let ghost rank = callable_rank(old_arena, c);
        let id = self.functions.len() as u32;
        self.functions.push(c);
        self.function_ranks = Ghost(self.function_ranks@.push(rank));
        proof {
            let new_arena = *self;
            assert(new_arena.extends(old_arena));
            lemma_extends_ok(old_arena, new_arena);
            lemma_callable_within_extends(old_arena, new_arena, c, rank);
            assert(new_arena.function_ok(old_arena.functions@.len() as int));
        }
        Ty::Function(id)
    }

    /// Stores a constructor signature whose types are already stored.
    pub fn alloc_constructor(&mut self, c: ConstructorType) -> (t: Ty)
        requires
            old(self).wf(),
            old(self).callable_within(c, callable_rank(*old(self), c)),
            old(self).constructors@.len() < u32::MAX,
        ensures
            final(self).wf(),
            final(self).extends(*old(self)),
            t == Ty::Constructor(old(self).constructors@.len() as u32),
            final(self).constructors@ == old(self).constructors@.push(c),
            final(self).unions@ == old(self).unions@,
            final(self).intersections@ == old(self).intersections@,
            final(self).functions@ == old(self).functions@,
    {
        let ghost old_arena = *self;
        let ghost rank = callable_rank(old_arena, c);
        let id = self.constructors.len() as u32;
        self.constructors.push(c);
        self.constructor_ranks = Ghost(self.constructor_ranks@.push(rank));
        proof {
            let new_arena = *self;
            assert(new_arena.extends(old_arena));
            lemma_extends_ok(old_arena, new_arena);
            lemma_callable_within_extends(old_arena, new_arena, c, rank);
            assert(new_arena.constructor_ok(old_arena.constructors@.len() as int));
        }
        Ty::Constructor(id)
    }
}

/// The highest rank among the types of `s`.
pub open spec fn seq_rank(arena: TyArena, s: Seq<Ty>) -> nat
    decreases s.len(),
{
    if s.len() == 0 {
        0
    } else {
        let r = seq_rank(arena, s.drop_last());
        if arena.rank(s.last()) > r {
            arena.rank(s.last())
        } else {
            r
        }
    }
}

pub proof fn lemma_seq_rank(arena: TyArena, s: Seq<Ty>, i: int)
    requires
        0 <= i < s.len(),
    ensures
        arena.rank(s[i]) <= seq_rank(arena, s),
    decreases s.len(),
{
    if i < s.len() - 1 {
        lemma_seq_rank(arena, s.drop_last(), i);
    }
}

/// The rank a signature gets when stored: two above every type it mentions.
pub open spec fn callable_rank<const CTOR: bool>(arena: TyArena, c: CallableType<CTOR>) -> nat {
    let constraints = c.type_params@.map_values(
        |p: GenericParam| if p.constraint is Some { p.constraint->0 } else { Ty::Never },
    );
    let this = if c.this_type is Some { c.this_type->0 } else { Ty::Never };
    let rest = if c.rest_param is Some { c.rest_param->0 } else { Ty::Never };
    seq_rank(arena, constraints + c.params@.map_values(|p: (bool, Ty)| p.1) + seq![this, rest, c.return_type]) + 2
}

} // verus!
