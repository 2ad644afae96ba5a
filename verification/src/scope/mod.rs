//! The scopes of the code under analysis: variable scopes, control-flow
//! scopes, try scopes and call scopes.
use vstd::prelude::*;
use crate::ty::Ty;

pub mod call;
pub mod call_scope;

verus! {

/// The identity of a variable scope.
pub type ScopeId = u32;

/// The variable scopes created so far and the stack of those in effect.
pub struct VariableScopes {
    /// The scopes in effect, innermost last.
    pub stack: Vec<ScopeId>,
    /// For each scope created, the values bound to its `arguments`, while
    /// they have not been consumed.
    pub arguments: Vec<Option<Vec<Ty>>>,
}

impl VariableScopes {
    /// No scope created yet.
    pub fn new() -> (r: Self)
        ensures
            r.wf(),
            r.stack@ == Seq::<ScopeId>::empty(),
            r.arguments@ == Seq::<Option<Vec<Ty>>>::empty(),
    {
        VariableScopes { stack: Vec::new(), arguments: Vec::new() }
    }

    /// Every scope on the stack was created.
    pub open spec fn wf(&self) -> bool {
        forall|i: int| 0 <= i < self.stack@.len() ==> (#[trigger] self.stack@[i] as int) < self.arguments@.len()
    }

    /// Puts `stack` in effect and gives back the stack it replaces.
    pub fn replace_stack(&mut self, stack: Vec<ScopeId>) -> (old_stack: Vec<ScopeId>)
        ensures
            old_stack@ == old(self).stack@,
            final(self).stack@ == stack@,
            final(self).arguments@ == old(self).arguments@,
    {
        let mut stack = stack;
        std::mem::swap(&mut self.stack, &mut stack);
        stack
    }
}

/// A control-flow scope: whether execution has left it, and whether it is
/// one that execution may or may not enter (the rest of an optional chain,
/// the right of a logical operator, a default value).
#[derive(Clone, Copy, Debug)]
pub struct CfScope {
    pub exited: bool,
    pub indeterminate: bool,
}

/// A try scope: whether something thrown may reach it, and what.
pub struct TryScope {
    pub cf_scope_depth: usize,
    pub may_throw: bool,
    pub thrown_values: Vec<Ty>,
}

impl TryScope {
    /// A try scope at control-flow depth `cf_scope_depth` that nothing reaches yet.
    pub fn new(cf_scope_depth: usize) -> (r: Self)
        ensures
            r.cf_scope_depth == cf_scope_depth,
            !r.may_throw,
            r.thrown_values@ == Seq::<Ty>::empty(),
    {
        TryScope { cf_scope_depth, may_throw: false, thrown_values: Vec::new() }
    }
}

} // verus!
