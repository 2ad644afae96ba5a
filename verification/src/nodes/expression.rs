//! Expressions whose type joins the types of their parts. The parts are
//! evaluated by the caller, in the order and scopes each function states.
use vstd::prelude::*;
use crate::analyzer::{Analyzer, same_scopes};
use crate::scope::call_scope::{union_result, values_ok};
use crate::ty::Ty;

verus! {

impl Analyzer {
    /// The type of `left && right`, `left || right` or `left ?? right`, the
    /// left operand evaluated first and the right one in an indeterminate
    /// scope: either operand's type.
    pub fn exec_logical_expression(&mut self, left: Ty, right: Ty) -> (r: Ty)
        requires
            old(self).wf(),
            values_ok(old(self).arena, seq![left, right]),
            old(self).arena.unions@.len() < u32::MAX,
        ensures
            final(self).wf(),
            same_scopes(*old(self), *final(self)),
            final(self).arena.extends(old(self).arena),
            union_result(old(self).arena, final(self).arena, seq![left, right], r),
    {
        let v = vec![left, right];
        assert(v@ =~= seq![left, right]);
        self.union_of(v)
    }

    /// The value of a binding with a default, the default evaluated in an
    /// indeterminate control-flow scope to `default_value`: either that or
    /// the bound `value`.
    pub fn exec_with_default(&mut self, default_value: Ty, value: Ty) -> (r: Ty)
        requires
            old(self).wf(),
            values_ok(old(self).arena, seq![default_value, value]),
            old(self).arena.unions@.len() < u32::MAX,
        ensures
            final(self).wf(),
            same_scopes(*old(self), *final(self)),
            final(self).arena.extends(old(self).arena),
            union_result(old(self).arena, final(self).arena, seq![default_value, value], r),
    {
        let v = vec![default_value, value];
        assert(v@ =~= seq![default_value, value]);
        self.union_of(v)
    }

    /// The type of an optional chain whose last element gave `value`: when
    /// the chain may stop short (`indeterminate`), the control-flow scope
    /// opened for that is left and the type is `undefined` or `value`; else
    /// it is `value` and nothing changes.
    pub fn exec_chain_expression(&mut self, indeterminate: bool, value: Ty) -> (r: Ty)
        requires
            old(self).wf(),
            values_ok(old(self).arena, seq![value]),
            old(self).arena.unions@.len() < u32::MAX,
            indeterminate ==> old(self).cf_scopes@.len() > 0,
        ensures
            final(self).wf(),
            final(self).arena.extends(old(self).arena),
            final(self).variable_scopes == old(self).variable_scopes,
            final(self).call_scopes == old(self).call_scopes,
            final(self).consumed == old(self).consumed,
            final(self).type_scopes == old(self).type_scopes,
            indeterminate ==> final(self).cf_scopes@ == old(self).cf_scopes@.drop_last(),
            indeterminate ==> union_result(old(self).arena, final(self).arena, seq![Ty::Undefined, value], r),
            !indeterminate ==> r == value && *final(self) == *old(self),
    {
        if indeterminate {
            self.cf_scopes.pop();
            let v = vec![Ty::Undefined, value];
            proof {
                assert(v@ =~= seq![Ty::Undefined, value]);
                assert(old(self).arena.contains(Ty::Undefined));
                assert(values_ok(old(self).arena, seq![value]) ==> old(self).arena.contains(seq![value][0]));
            }
            self.union_of(v)
        } else {
            value
        }
    }

}

impl Analyzer {
    /// The type of a sequence expression whose expressions, evaluated in
    /// order, gave `values`: the last one's.
    pub fn exec_sequence_expression(&self, values: &Vec<Ty>) -> (r: Ty)
        requires
            values@.len() > 0,
        ensures
            r == values@.last(),
    {
        values[values.len() - 1]
    }
}

} // verus!
