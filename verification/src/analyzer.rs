//! The state of an analysis that the operations of this library read and change.
use vstd::prelude::*;
use crate::ty::Ty;
use crate::ty::arena::{TyArena, lemma_extends_contains};
use crate::scope::{VariableScopes, CfScope, ScopeId};
use crate::scope::call_scope::{CallScope, values_ok};
use crate::ty::ctx::TypeScopeId;

verus! {

/// The analyzer: the composite types built so far, and the scopes of the
/// code being analyzed.
pub struct Analyzer {
    pub arena: TyArena,
    pub variable_scopes: VariableScopes,
    /// The control-flow scopes open, outermost first.
    pub cf_scopes: Vec<CfScope>,
    /// The calls in progress, outermost first.
    pub call_scopes: Vec<CallScope>,
    /// The values handed to code the analysis cannot see, in order.
    pub consumed: Vec<Ty>,
    /// The type scopes in effect, innermost last.
    pub type_scopes: Vec<TypeScopeId>,
}

impl Analyzer {
    pub open spec fn wf(&self) -> bool {
        &&& self.arena.wf()
        &&& self.variable_scopes.wf()
        &&& forall|i: int| 0 <= i < self.call_scopes@.len() ==> (#[trigger] self.call_scopes@[i]).wf(self.arena)
        &&& forall|i: int| 0 <= i < self.call_scopes@.len() ==> (#[trigger] self.call_scopes@[i]).body_variable_scope
            < self.variable_scopes.arguments@.len()
        &&& forall|i: int, k: int|
            0 <= i < self.call_scopes@.len() && 0 <= k < self.call_scopes@[i].old_variable_scope_stack@.len() ==> (
            #[trigger] self.call_scopes@[i].old_variable_scope_stack@[k]) < self.variable_scopes.arguments@.len()
    }

    /// An analyzer with no types and no open scopes.
    pub fn new() -> (r: Self)
        ensures
            r.wf(),
            r.variable_scopes.stack@ == Seq::<ScopeId>::empty(),
            r.variable_scopes.arguments@ == Seq::<Option<Vec<Ty>>>::empty(),
            r.cf_scopes@ == Seq::<CfScope>::empty(),
            r.call_scopes@ == Seq::<CallScope>::empty(),
            r.consumed@ == Seq::<Ty>::empty(),
            r.type_scopes@ == Seq::<TypeScopeId>::empty(),
            r.arena.unions@.len() == 0,
            r.arena.intersections@.len() == 0,
            r.arena.functions@.len() == 0,
            r.arena.constructors@.len() == 0,
            r.arena.interfaces@.len() == 0,
    {
        Analyzer {
            arena: TyArena::new(),
            variable_scopes: VariableScopes::new(),
            cf_scopes: Vec::new(),
            call_scopes: Vec::new(),
            consumed: Vec::new(),
            type_scopes: Vec::new(),
        }
    }

    /// Growing the arena keeps an analyzer well formed.
    pub proof fn lemma_wf_extends(&self, old: Analyzer)
        requires
            old.wf(),
            self.arena.wf(),
            self.arena.extends(old.arena),
            self.variable_scopes == old.variable_scopes,
            self.call_scopes == old.call_scopes,
        ensures
            self.wf(),
    {
        assert forall|i: int| 0 <= i < self.call_scopes@.len() implies (#[trigger] self.call_scopes@[i]).wf(self.arena) by {
            let c = self.call_scopes@[i];
            assert(old.call_scopes@[i].wf(old.arena));
            assert forall|k: int| 0 <= k < c.returned_values@.len() implies self.arena.contains(#[trigger] c.returned_values@[k])
                && !crate::ty::is_non_value(c.returned_values@[k]) by {
                lemma_extends_contains(old.arena, self.arena, c.returned_values@[k]);
            }
            assert forall|k: int| 0 <= k < c.try_scopes@.len() implies values_ok(self.arena, #[trigger] c.try_scopes@[k].thrown_values@) by {
                assert(values_ok(old.arena, c.try_scopes@[k].thrown_values@));
                assert forall|x: int| 0 <= x < c.try_scopes@[k].thrown_values@.len() implies self.arena.contains(#[trigger] c.try_scopes@[k].thrown_values@[x])
                    && !crate::ty::is_non_value(c.try_scopes@[k].thrown_values@[x]) by {
                    lemma_extends_contains(old.arena, self.arena, c.try_scopes@[k].thrown_values@[x]);
                }
            }
        }
    }

    /// Creates a variable scope and puts it in effect.
    pub fn push_variable_scope(&mut self) -> (id: ScopeId)
        requires
            old(self).wf(),
            old(self).variable_scopes.arguments@.len() < u32::MAX,
        ensures
            final(self).wf(),
            id == old(self).variable_scopes.arguments@.len(),
            final(self).variable_scopes.arguments@ == old(self).variable_scopes.arguments@.push(None),
            final(self).variable_scopes.stack@ == old(self).variable_scopes.stack@.push(id),
            final(self).arena == old(self).arena,
            final(self).cf_scopes == old(self).cf_scopes,
            final(self).call_scopes == old(self).call_scopes,
            final(self).consumed == old(self).consumed,
            final(self).type_scopes == old(self).type_scopes,
    {
        let id = self.variable_scopes.arguments.len() as u32;
        self.variable_scopes.arguments.push(None);
        self.variable_scopes.stack.push(id);
        id
    }

    /// Leaves the innermost variable scope.
    pub fn pop_variable_scope(&mut self) -> (id: ScopeId)
        requires
            old(self).wf(),
            old(self).variable_scopes.stack@.len() > 0,
        ensures
            final(self).wf(),
            id == old(self).variable_scopes.stack@.last(),
            final(self).variable_scopes.stack@ == old(self).variable_scopes.stack@.drop_last(),
            final(self).variable_scopes.arguments@ == old(self).variable_scopes.arguments@,
            final(self).arena == old(self).arena,
            final(self).cf_scopes == old(self).cf_scopes,
            final(self).call_scopes == old(self).call_scopes,
            final(self).consumed == old(self).consumed,
            final(self).type_scopes == old(self).type_scopes,
    {
        self.variable_scopes.stack.pop().unwrap()
    }
}

/// `b` has the scopes and consumed values of `a`.
pub open spec fn same_scopes(a: Analyzer, b: Analyzer) -> bool {
    &&& b.variable_scopes == a.variable_scopes
    &&& b.call_scopes == a.call_scopes
    &&& b.cf_scopes == a.cf_scopes
    &&& b.consumed == a.consumed
    &&& b.type_scopes == a.type_scopes
}

} // verus!
