//! Unary expressions.
use vstd::prelude::*;
use crate::analyzer::{Analyzer, same_scopes};
use crate::scope::call_scope::{union_result, values_ok};
use crate::ty::{Ty, AtomId};

verus! {

/// A unary operator.
#[derive(Clone, Copy, Debug, PartialEq, Eq, Structural)]
pub enum UnaryOperator {
    UnaryNegation,
    UnaryPlus,
    LogicalNot,
    BitwiseNot,
    Typeof,
    Void,
    Delete,
}

/// The type of a unary expression: known outright, or the result of
/// converting the operand to a numeric value.
#[derive(Clone, Copy, Debug, PartialEq, Eq, Structural)]
pub enum UnaryType {
    Known(Ty),
    ToNumeric(Ty),
}

/// The string literals `typeof` may give, in the order `undefined`,
/// `bigint`, `boolean`, `function`, `number`, `object`, `string`, `symbol`:
/// the `k`-th of the first `n` when the operand may be of that kind
/// (`facts[k]`), `atoms[k]` naming its text.
pub open spec fn typeof_values(facts: Seq<bool>, atoms: Seq<AtomId>, n: int) -> Seq<Ty>
    decreases n,
{
    if n <= 0 {
        Seq::empty()
    } else {
        typeof_values(facts, atoms, n - 1) + (if facts[n - 1] {
            seq![Ty::StringLiteral(atoms[n - 1])]
        } else {
            Seq::empty()
        })
    }
}

impl Analyzer {
    /// The type of a unary expression with operator `op` on an operand of
    /// type `operand`. `delete` (after deleting the property) and `!` give
    /// `boolean`; `void` gives `undefined`; `+` and `~` convert the operand
    /// to a numeric value; `typeof` gives the union of the string literals
    /// of the kinds the operand may be of (`facts`, in the order of
    /// [`typeof_values`], spelled by `atoms`).
    pub fn exec_unary_expression(&mut self, op: UnaryOperator, operand: Ty, facts: &Vec<bool>, atoms: &Vec<AtomId>) -> (r:
        UnaryType)
        requires
            old(self).wf(),
            op != UnaryOperator::UnaryNegation,
            op == UnaryOperator::Typeof ==> facts@.len() == 8 && atoms@.len() == 8
                && old(self).arena.unions@.len() < u32::MAX,
        ensures
            final(self).wf(),
            same_scopes(*old(self), *final(self)),
            final(self).arena.extends(old(self).arena),
            op == UnaryOperator::Delete || op == UnaryOperator::LogicalNot ==> r == UnaryType::Known(Ty::Boolean)
                && final(self).arena == old(self).arena,
            op == UnaryOperator::Void ==> r == UnaryType::Known(Ty::Undefined) && final(self).arena == old(
                self,
            ).arena,
            op == UnaryOperator::UnaryPlus || op == UnaryOperator::BitwiseNot ==> r == UnaryType::ToNumeric(operand)
                && final(self).arena == old(self).arena,
            op == UnaryOperator::Typeof ==> r is Known && union_result(
                old(self).arena,
                final(self).arena,
                typeof_values(facts@, atoms@, 8),
                r->Known_0,
            ),
    {
        match op {
            UnaryOperator::Delete | UnaryOperator::LogicalNot => UnaryType::Known(Ty::Boolean),
            UnaryOperator::Void => UnaryType::Known(Ty::Undefined),
            UnaryOperator::UnaryPlus | UnaryOperator::BitwiseNot => UnaryType::ToNumeric(operand),
            _ => {
                let mut values: Vec<Ty> = Vec::new();
                let mut k: usize = 0;
                while k < 8
                    invariant
                        0 <= k <= 8,
                        facts@.len() == 8,
                        atoms@.len() == 8,
                        values@ == typeof_values(facts@, atoms@, k as int),
                        values@.len() <= k,
                        forall|i: int| 0 <= i < values@.len() ==> (#[trigger] values@[i]) is StringLiteral,
                    decreases 8 - k,
                {
                    if facts[k] {
                        values.push(Ty::StringLiteral(atoms[k]));
                    }
                    k += 1;
                }
                proof {
                    assert forall|i: int| 0 <= i < values@.len() implies self.arena.contains(#[trigger] values@[i])
                        && !crate::ty::is_non_value(values@[i]) by {
                        assert(values@[i] is StringLiteral);
                    }
                    assert(values_ok(self.arena, values@));
                }
                UnaryType::Known(self.union_of(values))
            },
        }
    }
}

/// The argument of a `delete`, as far as deleting reads it.
#[derive(Clone, Copy, Debug, PartialEq, Eq, Structural)]
pub enum DeleteArgument {
    /// `object.property`, the property's name spelled by the atom.
    StaticMember { property: AtomId },
    /// `object.#field`.
    PrivateField,
    /// `object[expression]`.
    ComputedMember,
    /// A bare identifier.
    Identifier,
    /// Any other expression.
    Other,
}

/// What is wrong with a `delete`.
#[derive(Clone, Copy, Debug, PartialEq, Eq, Structural)]
pub enum DeleteDiagnostic {
    PrivateField,
    UnqualifiedIdentifier,
}

/// A step of evaluating a `delete`.
#[derive(Clone, Copy, Debug, PartialEq, Eq, Structural)]
pub enum DeleteStep {
    /// Evaluate the member expression's object.
    EvalObject,
    /// Evaluate the computed key.
    EvalKey,
    /// Delete the property from the object: the one named by `key`, or
    /// when it is `None` the one the evaluated key names.
    DeleteProperty { key: Option<Ty> },
    /// Report a syntax error.
    Report(DeleteDiagnostic),
    /// Evaluate the argument for its effects.
    EvalArgument,
}

/// The steps of `delete argument`; the expression is then a `boolean`.
pub open spec fn delete_spec(argument: DeleteArgument) -> Seq<DeleteStep> {
    match argument {
        DeleteArgument::StaticMember { property } => seq![
            DeleteStep::EvalObject,
            DeleteStep::DeleteProperty { key: Some(Ty::StringLiteral(property)) },
        ],
        DeleteArgument::PrivateField => seq![DeleteStep::Report(DeleteDiagnostic::PrivateField), DeleteStep::EvalObject],
        DeleteArgument::ComputedMember => seq![
            DeleteStep::EvalObject,
            DeleteStep::EvalKey,
            DeleteStep::DeleteProperty { key: None },
        ],
        DeleteArgument::Identifier => seq![DeleteStep::Report(DeleteDiagnostic::UnqualifiedIdentifier)],
        DeleteArgument::Other => seq![DeleteStep::EvalArgument],
    }
}

/// The steps of evaluating `delete argument`, before it gives `boolean`: a
/// member's object is evaluated and the property deleted, by its name or by
/// the evaluated key; a private field or a bare identifier is reported; any
/// other argument is evaluated.
pub fn delete_steps(argument: DeleteArgument) -> (s: Vec<DeleteStep>)
    ensures
        s@ == delete_spec(argument),
{
    match argument {
        DeleteArgument::StaticMember { property } => vec![
            DeleteStep::EvalObject,
            DeleteStep::DeleteProperty { key: Some(Ty::StringLiteral(property)) },
        ],
        DeleteArgument::PrivateField => vec![DeleteStep::Report(DeleteDiagnostic::PrivateField), DeleteStep::EvalObject],
        DeleteArgument::ComputedMember => vec![
            DeleteStep::EvalObject,
            DeleteStep::EvalKey,
            DeleteStep::DeleteProperty { key: None },
        ],
        DeleteArgument::Identifier => vec![DeleteStep::Report(DeleteDiagnostic::UnqualifiedIdentifier)],
        DeleteArgument::Other => vec![DeleteStep::EvalArgument],
    }
}

/// `typeof` may give the name of a kind exactly when the operand may be of
/// that kind: the names listed for the first `n` kinds are the string
/// literals of the atoms of those kinds whose fact holds, each kind once, in
/// kind order.
pub proof fn law_typeof_lists_possible_kinds(facts: Seq<bool>, atoms: Seq<AtomId>, n: int, a: AtomId)
    requires
        0 <= n <= facts.len(),
        n <= atoms.len(),
    ensures
        typeof_values(facts, atoms, n).contains(Ty::StringLiteral(a)) <==> exists|k: int|
            0 <= k < n && facts[k] && #[trigger] atoms[k] == a,
        typeof_values(facts, atoms, n).len() <= n,
        forall|x: int| 0 <= x < typeof_values(facts, atoms, n).len() ==> #[trigger] typeof_values(facts, atoms, n)[x] is StringLiteral,
    decreases n,
{
    broadcast use vstd::seq_lib::lemma_seq_concat_contains_all_elements;
    if n > 0 {
        law_typeof_lists_possible_kinds(facts, atoms, n - 1, a);
        let prev = typeof_values(facts, atoms, n - 1);
        let last = if facts[n - 1] { seq![Ty::StringLiteral(atoms[n - 1])] } else { Seq::<Ty>::empty() };
        assert(typeof_values(facts, atoms, n) == prev + last);
        if facts[n - 1] {
            assert(last[0] == Ty::StringLiteral(atoms[n - 1]));
            if last.contains(Ty::StringLiteral(a)) {
                let x = choose|x: int| 0 <= x < last.len() && last[x] == Ty::StringLiteral(a);
                assert(x == 0);
            }
        }
        if exists|k: int| 0 <= k < n && facts[k] && #[trigger] atoms[k] == a {
            let k = choose|k: int| 0 <= k < n && facts[k] && #[trigger] atoms[k] == a;
            if k == n - 1 {
                assert(last.contains(Ty::StringLiteral(a)));
            }
        }
        assert forall|x: int| 0 <= x < (prev + last).len() implies #[trigger] (prev + last)[x] is StringLiteral by {
            if x < prev.len() {
                assert((prev + last)[x] == prev[x]);
            } else {
                assert((prev + last)[x] == last[x - prev.len()]);
            }
        }
    }
}

/// Deleting a member evaluates its object first and then deletes the
/// property, by its name or by the evaluated key; a private field and a
/// bare identifier are reported and nothing is deleted; any other argument
/// is only evaluated.
pub proof fn law_delete_deletes_only_members(argument: DeleteArgument)
    ensures
        (argument is StaticMember || argument is ComputedMember) ==> delete_spec(argument)[0] == DeleteStep::EvalObject
            && delete_spec(argument).last() is DeleteProperty,
        (argument is StaticMember) ==> delete_spec(argument).last() == (DeleteStep::DeleteProperty {
            key: Some(Ty::StringLiteral(argument->property)),
        }),
        (argument is ComputedMember) ==> delete_spec(argument).contains(DeleteStep::EvalKey),
        !(argument is StaticMember || argument is ComputedMember) ==> forall|x: int|
            0 <= x < delete_spec(argument).len() ==> !(#[trigger] delete_spec(argument)[x] is DeleteProperty),
        (argument is PrivateField || argument is Identifier) <==> exists|x: int|
            0 <= x < delete_spec(argument).len() && #[trigger] delete_spec(argument)[x] is Report,
{
    let s = delete_spec(argument);
    if argument is ComputedMember {
        assert(s[1] == DeleteStep::EvalKey);
    }
    if argument is PrivateField || argument is Identifier {
        assert(s[0] is Report);
    }
}

} // verus!
