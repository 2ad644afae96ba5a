//! Entering and leaving calls.
use vstd::prelude::*;
use crate::analyzer::Analyzer;
use crate::ty::Ty;
use super::ScopeId;
use super::call_scope::{CallScope, CalleeInfo, returned_union};

verus! {

/// What entering a call does to `a0`, giving `a1`: `stack` becomes the
/// variable scopes in effect, with a new scope for the body on top, and a
/// call scope is pushed that remembers the scopes in effect before.
pub open spec fn push_call_post(
    a0: Analyzer,
    call_id: usize,
    callee: CalleeInfo,
    stack: Seq<ScopeId>,
    is_async: bool,
    is_generator: bool,
    a1: Analyzer,
) -> bool {
    let body = a0.variable_scopes.arguments@.len() as ScopeId;
    let c = a1.call_scopes@.last();
    &&& a1.variable_scopes.stack@ == stack.push(body)
    &&& a1.variable_scopes.arguments@ == a0.variable_scopes.arguments@.push(None)
    &&& a1.call_scopes@.len() == a0.call_scopes@.len() + 1
    &&& forall|i: int| 0 <= i < a0.call_scopes@.len() ==> #[trigger] a1.call_scopes@[i] == a0.call_scopes@[i]
    &&& c.call_id == call_id
    &&& c.callee == callee
    &&& c.old_variable_scope_stack@ == a0.variable_scopes.stack@
    &&& c.cf_scope_depth == a0.cf_scopes@.len()
    &&& c.body_variable_scope == body
    &&& c.returned_values@ == Seq::<Ty>::empty()
    &&& c.is_async == is_async
    &&& c.is_generator == is_generator
    &&& c.try_scopes@.len() == 1
    &&& !c.try_scopes@[0].may_throw
    &&& c.try_scopes@[0].thrown_values@ == Seq::<Ty>::empty()
    &&& c.try_scopes@[0].cf_scope_depth == a0.cf_scopes@.len()
    &&& !c.need_consume_arguments
    &&& a1.arena == a0.arena
    &&& a1.cf_scopes == a0.cf_scopes
    &&& a1.consumed == a0.consumed
    &&& a1.type_scopes == a0.type_scopes
}

/// What leaving the innermost call of `a0` does, giving `a1` and the return
/// type `r`: the call scope and the body's variable scope go, the variable
/// scopes in effect before the call come back, and `r` is the union of the
/// returned values.
pub open spec fn pop_call_post(a0: Analyzer, a1: Analyzer, r: Ty) -> bool {
    let c = a0.call_scopes@.last();
    &&& a1.call_scopes@ == a0.call_scopes@.drop_last()
    &&& a1.variable_scopes.stack@ == c.old_variable_scope_stack@
    &&& a1.variable_scopes.arguments@ == a0.variable_scopes.arguments@
    &&& a1.arena.extends(a0.arena)
    &&& returned_union(a0.arena, a1.arena, c.returned_values@, r)
    &&& a1.cf_scopes == a0.cf_scopes
    &&& a1.consumed == a0.consumed
    &&& a1.type_scopes == a0.type_scopes
}

impl Analyzer {
    /// Enters a call whose body sees the variable scopes `variable_scope_stack`.
    pub fn push_call_scope(
        &mut self,
        call_id: usize,
        callee: CalleeInfo,
        variable_scope_stack: Vec<ScopeId>,
        is_async: bool,
        is_generator: bool,
    )
        requires
            old(self).wf(),
            forall|i: int| 0 <= i < variable_scope_stack@.len() ==> (#[trigger] variable_scope_stack@[i] as int)
                < old(self).variable_scopes.arguments@.len(),
            old(self).variable_scopes.arguments@.len() < u32::MAX,
        ensures
            final(self).wf(),
            push_call_post(*old(self), call_id, callee, variable_scope_stack@, is_async, is_generator, *final(self)),
    {
        let old_variable_scope_stack = self.variable_scopes.replace_stack(variable_scope_stack);
        let body_variable_scope = self.push_variable_scope();
        let depth = self.cf_scopes.len();
        let scope = CallScope::new(
            call_id,
            callee,
            old_variable_scope_stack,
            depth,
            body_variable_scope,
            is_async,
            is_generator,
        );
        self.call_scopes.push(scope);
    }

    /// Leaves the innermost call, which is neither async nor a generator,
    /// and gives the union of what it returned (`undefined` if nothing).
    pub fn pop_call_scope(&mut self) -> (r: Ty)
        requires
            old(self).wf(),
            old(self).call_scopes@.len() > 0,
            old(self).variable_scopes.stack@.len() > 0,
            !old(self).call_scopes@.last().is_async,
            !old(self).call_scopes@.last().is_generator,
            old(self).call_scopes@.last().returned_values@.len() >= 2 ==> old(self).arena.unions@.len() < u32::MAX,
        ensures
            final(self).wf(),
            pop_call_post(*old(self), *final(self), r),
    {
        let ghost a0 = *self;
        let call_scope = self.call_scopes.pop().unwrap();
        proof {
            assert(call_scope.wf(self.arena));
            assert forall|k: int| 0 <= k < call_scope.old_variable_scope_stack@.len() implies (#[trigger] call_scope.old_variable_scope_stack@[k])
                < self.variable_scopes.arguments@.len() by {
                assert(call_scope == a0.call_scopes@[a0.call_scopes@.len() - 1]);
            }
        }
        self.pop_variable_scope();
        self.variable_scopes.replace_stack(call_scope.old_variable_scope_stack);
        if call_scope.returned_values.len() == 0 {
            Ty::Undefined
        } else {
            self.union_of(call_scope.returned_values)
        }
    }
}

/// Leaving a call that returned nothing undoes entering it: the variable
/// scopes in effect and the calls in progress are those from before, and
/// the call's type is `undefined`; only the body's new variable scope stays
/// created.
pub proof fn law_pop_undoes_push(
    a0: Analyzer,
    a1: Analyzer,
    a2: Analyzer,
    call_id: usize,
    callee: CalleeInfo,
    stack: Seq<ScopeId>,
    is_async: bool,
    is_generator: bool,
    r: Ty,
)
    requires
        push_call_post(a0, call_id, callee, stack, is_async, is_generator, a1),
        pop_call_post(a1, a2, r),
    ensures
        a2.variable_scopes.stack@ == a0.variable_scopes.stack@,
        a2.variable_scopes.arguments@ == a0.variable_scopes.arguments@.push(None),
        a2.call_scopes@ == a0.call_scopes@,
        a2.arena == a0.arena,
        a2.cf_scopes == a0.cf_scopes,
        a2.consumed == a0.consumed,
        a2.type_scopes == a0.type_scopes,
        r == Ty::Undefined,
{
    assert(a2.call_scopes@ =~= a0.call_scopes@);
}

/// What a call returns comes back from leaving it: after entering a call
/// and returning one value, leaving it gives that value.
pub proof fn law_returned_value_is_result(a1: Analyzer, a2: Analyzer, v: Ty, r: Ty)
    requires
        a1.call_scopes@.len() > 0,
        a1.call_scopes@.last().returned_values@ == seq![v],
        pop_call_post(a1, a2, r),
    ensures
        r == v,
        a2.arena == a1.arena,
{
}

/// A call's round trip: enter a call, let what runs in it change, of the
/// calls in progress and the type scopes, only that call's scope (returning
/// `vs` into it), leave it. The variable scopes
/// in effect, the type scopes and the calls in progress are those from
/// before, and the call's type is the union of `vs` (`undefined` when there
/// are none).
pub proof fn law_call_round_trip(
    a0: Analyzer,
    a1: Analyzer,
    a2: Analyzer,
    a3: Analyzer,
    call_id: usize,
    callee: CalleeInfo,
    stack: Seq<ScopeId>,
    vs: Seq<Ty>,
    r: Ty,
)
    requires
        push_call_post(a0, call_id, callee, stack, false, false, a1),
        a2.top_call_changed(a1),
        a2.top_call().returned_values@ == vs,
        a2.type_scopes == a1.type_scopes,
        pop_call_post(a2, a3, r),
    ensures
        a3.call_scopes@ == a0.call_scopes@,
        a3.variable_scopes.stack@ == a0.variable_scopes.stack@,
        a3.type_scopes == a0.type_scopes,
        returned_union(a2.arena, a3.arena, vs, r),
{
    assert(a3.call_scopes@ =~= a0.call_scopes@) by {
        assert forall|i: int| 0 <= i < a0.call_scopes@.len() implies a3.call_scopes@[i] == a0.call_scopes@[i] by {
            assert(a2.call_scopes@[i] == a1.call_scopes@[i]);
        }
    }
}

} // verus!
