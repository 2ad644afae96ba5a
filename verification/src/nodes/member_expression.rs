//! Member expressions: `object.name`, `object[key]`, `object.#field`, and
//! their optional forms in a chain.
use vstd::prelude::*;
use crate::analyzer::Analyzer;
use crate::ty::{AtomId, Ty};
use crate::scope::CfScope;

verus! {

/// The key of a member expression.
#[derive(Clone, Copy, Debug, PartialEq, Eq, Structural)]
pub enum MemberKey {
    /// `object[expression]`.
    Computed,
    /// `object.name`, the name spelled by the atom.
    Static(AtomId),
    /// `object.#name`, the name spelled by the atom.
    PrivateField(AtomId),
}

/// How the key's value is had: by evaluating the computed expression, or
/// from the identifier's or the private field's name.
#[derive(Clone, Copy, Debug, PartialEq, Eq, Structural)]
pub enum KeyStep {
    EvalExpression,
    IdentifierName(AtomId),
    PrivateIdentifier(AtomId),
}

/// Reading a member in a chain: whether the chain may stop short from here
/// on, whether this member opened the indeterminate control-flow scope for
/// that, and the object and key whose property is the member's value (the
/// cache a later write to the member reuses).
#[derive(Clone, Copy, Debug, PartialEq, Eq, Structural)]
pub struct ChainRead {
    pub indeterminate: bool,
    pub opens_indeterminate_scope: bool,
    pub object: Ty,
    pub key: Ty,
}

impl Analyzer {
    /// How the value of the member key `key` is had.
    pub fn exec_key(&self, key: MemberKey) -> (r: KeyStep)
        ensures
            r == match key {
                MemberKey::Computed => KeyStep::EvalExpression,
                MemberKey::Static(name) => KeyStep::IdentifierName(name),
                MemberKey::PrivateField(name) => KeyStep::PrivateIdentifier(name),
            },
    {
        match key {
            MemberKey::Computed => KeyStep::EvalExpression,
            MemberKey::Static(name) => KeyStep::IdentifierName(name),
            MemberKey::PrivateField(name) => KeyStep::PrivateIdentifier(name),
        }
    }

    /// Reads a member of `object` at `key`, in a chain that may already stop
    /// short (`object_indeterminate`), the member itself optional (`?.`) or
    /// not. The first optional member of a chain opens an indeterminate
    /// control-flow scope, left open for the rest of the chain; from it on the
    /// chain may stop short. The member's value is the property of `object`
    /// at `key`, which the result names.
    pub fn exec_member_expression_read_in_chain(
        &mut self,
        object_indeterminate: bool,
        object: Ty,
        optional: bool,
        key: Ty,
    ) -> (r: ChainRead)
        ensures
            r.opens_indeterminate_scope == (!object_indeterminate && optional),
            r.indeterminate == (object_indeterminate || optional),
            r.object == object,
            r.key == key,
            r.opens_indeterminate_scope ==> final(self).cf_scopes@ == old(self).cf_scopes@.push(
                CfScope { exited: false, indeterminate: true },
            ),
            !r.opens_indeterminate_scope ==> final(self).cf_scopes == old(self).cf_scopes,
            final(self).arena == old(self).arena,
            final(self).variable_scopes == old(self).variable_scopes,
            final(self).call_scopes == old(self).call_scopes,
            final(self).consumed == old(self).consumed,
            final(self).type_scopes == old(self).type_scopes,
    {
        if !object_indeterminate && optional {
            self.cf_scopes.push(CfScope { exited: false, indeterminate: true });
            ChainRead { indeterminate: true, opens_indeterminate_scope: true, object, key }
        } else {
            ChainRead { indeterminate: object_indeterminate, opens_indeterminate_scope: false, object, key }
        }
    }

    /// Reads a member outside a chain: the chain read gave `value`, read
    /// from `object` at `key`; when it may have stopped short, the scope it
    /// opened for that is left. The value comes back with the object and key,
    /// for a later write to reuse.
    pub fn exec_member_expression_read(&mut self, indeterminate: bool, value: Ty, object: Ty, key: Ty) -> (r: (
        Ty,
        (Ty, Ty),
    ))
        requires
            indeterminate ==> old(self).cf_scopes@.len() > 0,
        ensures
            r == (value, (object, key)),
            indeterminate ==> final(self).cf_scopes@ == old(self).cf_scopes@.drop_last(),
            indeterminate ==> {
                &&& final(self).arena == old(self).arena
                &&& final(self).variable_scopes == old(self).variable_scopes
                &&& final(self).call_scopes == old(self).call_scopes
                &&& final(self).consumed == old(self).consumed
                &&& final(self).type_scopes == old(self).type_scopes
            },
            !indeterminate ==> *final(self) == *old(self),
    {
        if indeterminate {
            self.cf_scopes.pop();
        }
        (value, (object, key))
    }
}

/// What writing to a member needs first: the object and key a read of the
/// same member gave, or evaluating both.
#[derive(Clone, Copy, Debug, PartialEq, Eq, Structural)]
pub enum WriteStep {
    /// Set the property of `object` at `key`.
    SetProperty { object: Ty, key: Ty },
    /// Evaluate the object, then the key, then set the property.
    EvalObjectAndKey,
}

impl Analyzer {
    /// Writing to a member: with the object and key a read of it cached,
    /// set that property; else evaluate the object and the key first.
    pub fn exec_member_expression_write(&self, cache: Option<(Ty, Ty)>) -> (r: WriteStep)
        ensures
            r == match cache {
                Some((object, key)) => WriteStep::SetProperty { object, key },
                None => WriteStep::EvalObjectAndKey,
            },
    {
        match cache {
            Some((object, key)) => WriteStep::SetProperty { object, key },
            None => WriteStep::EvalObjectAndKey,
        }
    }
}

/// Reading an optional member outside a chain leaves the control-flow
/// scopes as they were: the scope `exec_member_expression_read_in_chain`
/// opens is the one `exec_member_expression_read` leaves.
pub proof fn law_optional_read_restores_cf_scopes(a0: Analyzer, a1: Analyzer, a2: Analyzer)
    requires
        a1.cf_scopes@ == a0.cf_scopes@.push(CfScope { exited: false, indeterminate: true }),
        a2.cf_scopes@ == a1.cf_scopes@.drop_last(),
    ensures
        a2.cf_scopes@ == a0.cf_scopes@,
{
    assert(a2.cf_scopes@ =~= a0.cf_scopes@);
}

} // verus!
