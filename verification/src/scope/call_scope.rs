//! The scope of a function call: what it returns and throws, and where its
//! control flow ends.
use vstd::prelude::*;
use crate::analyzer::Analyzer;
use crate::ty::{Ty, is_non_value};
use crate::ty::arena::TyArena;
use crate::ty::union::{into_union, fold_steps, never_view, lemma_steps_ok};
use super::{ScopeId, TryScope};

verus! {

/// What is called: the function or class whose body runs.
#[derive(Clone, Copy, Debug, PartialEq, Eq, Structural)]
pub struct CalleeInfo {
    /// The identity of the callee's node in the analyzed source.
    pub node: u64,
}

/// A call in progress.
pub struct CallScope {
    /// The identity of this call.
    pub call_id: usize,
    pub callee: CalleeInfo,
    /// The variable scopes in effect where the call was made.
    pub old_variable_scope_stack: Vec<ScopeId>,
    /// How many control-flow scopes were open when the call began.
    pub cf_scope_depth: usize,
    /// The variable scope of the callee's body.
    pub body_variable_scope: ScopeId,
    /// The values returned so far.
    pub returned_values: Vec<Ty>,
    pub is_async: bool,
    pub is_generator: bool,
    /// The try scopes open in the callee, outermost first.
    pub try_scopes: Vec<TryScope>,
    pub need_consume_arguments: bool,
}

/// The values a scope holds are stored value types.
pub open spec fn values_ok(arena: TyArena, s: Seq<Ty>) -> bool {
    forall|i: int| 0 <= i < s.len() ==> arena.contains(#[trigger] s[i]) && !is_non_value(s[i])
}

impl CallScope {
    /// A call that has returned and thrown nothing yet, with one try scope
    /// at the depth where it began.
    pub fn new(
        call_id: usize,
        callee: CalleeInfo,
        old_variable_scope_stack: Vec<ScopeId>,
        cf_scope_depth: usize,
        body_variable_scope: ScopeId,
        is_async: bool,
        is_generator: bool,
    ) -> (r: Self)
        ensures
            r.call_id == call_id,
            r.callee == callee,
            r.old_variable_scope_stack@ == old_variable_scope_stack@,
            r.cf_scope_depth == cf_scope_depth,
            r.body_variable_scope == body_variable_scope,
            r.returned_values@ == Seq::<Ty>::empty(),
            r.is_async == is_async,
            r.is_generator == is_generator,
            r.try_scopes@.len() == 1,
            r.try_scopes@[0].cf_scope_depth == cf_scope_depth,
            !r.try_scopes@[0].may_throw,
            r.try_scopes@[0].thrown_values@ == Seq::<Ty>::empty(),
            !r.need_consume_arguments,
    {
        CallScope {
            call_id,
            callee,
            old_variable_scope_stack,
            cf_scope_depth,
            body_variable_scope,
            returned_values: Vec::new(),
            is_async,
            is_generator,
            try_scopes: vec![TryScope::new(cf_scope_depth)],
            need_consume_arguments: false,
        }
    }

    /// Every value it holds is a stored value type, and a try scope is open.
    pub open spec fn wf(&self, arena: TyArena) -> bool {
        &&& values_ok(arena, self.returned_values@)
        &&& self.try_scopes@.len() >= 1
        &&& forall|k: int| 0 <= k < self.try_scopes@.len() ==> values_ok(arena, #[trigger] self.try_scopes@[k].thrown_values@)
    }

    /// Ends the call: what it threw goes to the caller's try scope (a
    /// generator's or an async function's thrown values are only consumed),
    /// and it gives back the caller's variable scopes and its return value:
    /// `undefined` when nothing was returned, the union of what was
    /// returned otherwise, unknown for an async function.
    pub fn finalize(self, analyzer: &mut Analyzer) -> (r: (Vec<ScopeId>, Ty))
        requires
            old(analyzer).wf(),
            self.wf(old(analyzer).arena),
            self.try_scopes@.len() == 1,
            (self.try_scopes@[0].may_throw && !(self.is_async && !self.is_generator)) ==> old(analyzer).call_scopes@.len() > 0,
            self.returned_values@.len() >= 2 ==> old(analyzer).arena.unions@.len() < u32::MAX,
        ensures
            final(analyzer).wf(),
            final(analyzer).arena.extends(old(analyzer).arena),
            final(analyzer).variable_scopes == old(analyzer).variable_scopes,
            final(analyzer).type_scopes == old(analyzer).type_scopes,
            r.0@ == self.old_variable_scope_stack@,
            self.is_async ==> r.1 == Ty::Unknown,
            !self.is_async ==> returned_union(old(analyzer).arena, final(analyzer).arena, self.returned_values@, r.1),
            final_throw(*old(analyzer), *final(analyzer), self),
    {
        let ghost t0 = self.try_scopes@[0];
        proof {
            assert(self.wf(analyzer.arena));
            assert(values_ok(analyzer.arena, self.try_scopes@[0].thrown_values@));
        }
        let returned = self.returned_values;
        let is_async = self.is_async;
        let is_generator = self.is_generator;
        let old_stack = self.old_variable_scope_stack;
        let mut try_scopes = self.try_scopes;
        let ghost ts = try_scopes@;
        let try_scope = try_scopes.pop().unwrap();
        proof {
            assert(try_scope == ts[0]);
            assert(ts[0] == t0);
        }
        if try_scope.may_throw {
            if is_generator {
                let nonempty = try_scope.thrown_values.len() > 0;
                analyzer.mark_caller_throws(nonempty);
                analyzer.consume_values(try_scope.thrown_values);
            } else if is_async {
                analyzer.consume_values(try_scope.thrown_values);
            } else {
                analyzer.forward_throw(try_scope.thrown_values);
            }
        }
        let ghost mid = analyzer.arena;
        proof {
            assert(values_ok(analyzer.arena, returned@));
            lemma_steps_ok(analyzer.arena, never_view(), returned@);
        }
        let value = if returned.len() == 0 {
            Ty::Undefined
        } else {
            analyzer.union_of(returned)
        };
        let value = if is_async {
            Ty::Unknown
        } else {
            value
        };
        (old_stack, value)
    }
}

/// `r` is the union of `values` built in `a1` from `a0`: `never` for none,
/// the value itself for one, a new stored union of all for more.
pub open spec fn union_result(a0: TyArena, a1: TyArena, values: Seq<Ty>, r: Ty) -> bool {
    if values.len() == 0 {
        r == Ty::Never && a1 == a0
    } else if values.len() == 1 {
        r == values[0] && a1 == a0
    } else {
        &&& r == Ty::Union(a0.unions@.len() as u32)
        &&& a1.unions@.len() == a0.unions@.len() + 1
        &&& a1.union_view(a0.unions@.len() as u32) == fold_steps(a0, never_view(), values)
    }
}

/// `r` is the type of a call that returned `values`: `undefined` when it
/// returned nothing, else their union built in `a1` from `a0`.
pub open spec fn returned_union(a0: TyArena, a1: TyArena, values: Seq<Ty>, r: Ty) -> bool {
    if values.len() == 0 {
        r == Ty::Undefined && a1 == a0
    } else {
        union_result(a0, a1, values, r)
    }
}

/// What ending the call `c` does with what it threw: nothing if nothing may
/// be thrown; a generator marks the caller's try scope as reached (with an
/// unknown value if it threw any) and consumes its values; an async
/// function consumes them; any other call hands them to the caller's try
/// scope, leaving the control flow up to it.
pub open spec fn final_throw(a0: Analyzer, a1: Analyzer, c: CallScope) -> bool {
    let t = c.try_scopes@[0];
    if !t.may_throw {
        &&& a1.call_scopes_same(a0)
        &&& a1.consumed@ == a0.consumed@
        &&& a1.cf_scopes@ == a0.cf_scopes@
    } else if c.is_generator {
        &&& a1.caller_try_updated(
            a0,
            true,
            if t.thrown_values@.len() > 0 { seq![Ty::Unknown] } else { Seq::empty() },
        )
        &&& a1.consumed@ == a0.consumed@ + t.thrown_values@
        &&& a1.cf_scopes@ == a0.cf_scopes@
    } else if c.is_async {
        &&& a1.call_scopes_same(a0)
        &&& a1.consumed@ == a0.consumed@ + t.thrown_values@
        &&& a1.cf_scopes@ == a0.cf_scopes@
    } else {
        &&& a1.caller_try_updated(a0, true, t.thrown_values@)
        &&& a1.consumed@ == a0.consumed@
        &&& a1.cf_scopes_exited_from(a0, a0.top_try_scope().cf_scope_depth as int)
    }
}

impl Analyzer {
    /// The innermost call scope.
    pub open spec fn top_call(&self) -> CallScope {
        self.call_scopes@.last()
    }

    /// The innermost try scope of the innermost call.
    pub open spec fn top_try_scope(&self) -> TryScope {
        self.top_call().try_scopes@.last()
    }

    /// `self` has the call scopes of `old`, unchanged.
    pub open spec fn call_scopes_same(&self, old: Analyzer) -> bool {
        &&& self.call_scopes@.len() == old.call_scopes@.len()
        &&& forall|i: int| 0 <= i < self.call_scopes@.len() ==> #[trigger] self.call_scopes@[i] == old.call_scopes@[i]
    }

    /// `self` has the call scopes of `old` but for the innermost one, which
    /// is `old`'s with `f` holding.
    pub open spec fn top_call_changed(&self, old: Analyzer) -> bool {
        &&& self.call_scopes@.len() == old.call_scopes@.len()
        &&& self.call_scopes@.len() > 0
        &&& forall|i: int| 0 <= i < self.call_scopes@.len() - 1 ==> #[trigger] self.call_scopes@[i] == old.call_scopes@[i]
        &&& self.top_call().call_id == old.top_call().call_id
        &&& self.top_call().callee == old.top_call().callee
        &&& self.top_call().old_variable_scope_stack == old.top_call().old_variable_scope_stack
        &&& self.top_call().cf_scope_depth == old.top_call().cf_scope_depth
        &&& self.top_call().body_variable_scope == old.top_call().body_variable_scope
        &&& self.top_call().is_async == old.top_call().is_async
        &&& self.top_call().is_generator == old.top_call().is_generator
        &&& self.top_call().need_consume_arguments == old.top_call().need_consume_arguments
    }

    /// The caller's innermost try scope is reached (when `throws`) and has
    /// `values` appended; nothing else about the call scopes changes.
    pub open spec fn caller_try_updated(&self, old: Analyzer, throws: bool, values: Seq<Ty>) -> bool {
        let t0 = old.top_try_scope();
        let t1 = self.top_try_scope();
        &&& self.top_call_changed(old)
        &&& self.top_call().returned_values == old.top_call().returned_values
        &&& self.top_call().try_scopes@.len() == old.top_call().try_scopes@.len()
        &&& forall|k: int| 0 <= k < self.top_call().try_scopes@.len() - 1 ==> #[trigger] self.top_call().try_scopes@[k]
            == old.top_call().try_scopes@[k]
        &&& t1.cf_scope_depth == t0.cf_scope_depth
        &&& t1.may_throw == (t0.may_throw || throws)
        &&& t1.thrown_values@ == t0.thrown_values@ + values
    }

    /// The control-flow scopes from `depth` on are exited, the others
    /// unchanged; none changes whether it is indeterminate.
    pub open spec fn cf_scopes_exited_from(&self, old: Analyzer, depth: int) -> bool {
        &&& self.cf_scopes@.len() == old.cf_scopes@.len()
        &&& forall|i: int| 0 <= i < self.cf_scopes@.len() ==> (#[trigger] self.cf_scopes@[i]).indeterminate
            == old.cf_scopes@[i].indeterminate
        &&& forall|i: int| 0 <= i < self.cf_scopes@.len() ==> (#[trigger] self.cf_scopes@[i]).exited == (if i >= depth {
            true
        } else {
            old.cf_scopes@[i].exited
        })
    }

    /// Leaves every control-flow scope from `target_depth` on.
    pub fn exit_to(&mut self, target_depth: usize)
        ensures
            final(self).cf_scopes_exited_from(*old(self), target_depth as int),
            final(self).arena == old(self).arena,
            final(self).variable_scopes == old(self).variable_scopes,
            final(self).call_scopes == old(self).call_scopes,
            final(self).consumed == old(self).consumed,
            final(self).type_scopes == old(self).type_scopes,
    {
        let mut i = target_depth;
        let ghost start = self.cf_scopes@;
        while i < self.cf_scopes.len()
            invariant
                self.cf_scopes@.len() == start.len(),
                target_depth <= i || start.len() <= i,
                forall|k: int| 0 <= k < start.len() ==> (#[trigger] self.cf_scopes@[k]).exited == (if target_depth
                    <= k < i {
                    true
                } else {
                    start[k].exited
                }),
                forall|k: int| 0 <= k < start.len() ==> (#[trigger] self.cf_scopes@[k]).indeterminate == start[k].indeterminate,
                self.arena == old(self).arena,
                self.variable_scopes == old(self).variable_scopes,
                self.call_scopes == old(self).call_scopes,
                self.consumed == old(self).consumed,
                self.type_scopes == old(self).type_scopes,
                start == old(self).cf_scopes@,
            decreases start.len() - i,
        {
            let indeterminate = self.cf_scopes[i].indeterminate;
            self.cf_scopes.set(i, super::CfScope { exited: true, indeterminate });
            i += 1;
        }
    }

    /// Hands `values` to code the analysis cannot see: they count as consumed.
    pub fn consume_values(&mut self, values: Vec<Ty>)
        ensures
            final(self).consumed@ == old(self).consumed@ + values@,
            final(self).type_scopes == old(self).type_scopes,
            final(self).arena == old(self).arena,
            final(self).variable_scopes == old(self).variable_scopes,
            final(self).call_scopes == old(self).call_scopes,
            final(self).cf_scopes == old(self).cf_scopes,
    {
        let mut values = values;
        self.consumed.append(&mut values);
    }

    /// The union of `values`, stored when there are several.
    pub fn union_of(&mut self, values: Vec<Ty>) -> (r: Ty)
        requires
            old(self).wf(),
            values_ok(old(self).arena, values@),
            values@.len() >= 2 ==> old(self).arena.unions@.len() < u32::MAX,
        ensures
            final(self).wf(),
            final(self).arena.extends(old(self).arena),
            final(self).arena.contains(r),
            union_result(old(self).arena, final(self).arena, values@, r),
            final(self).variable_scopes == old(self).variable_scopes,
            final(self).call_scopes == old(self).call_scopes,
            final(self).cf_scopes == old(self).cf_scopes,
            final(self).consumed == old(self).consumed,
            final(self).type_scopes == old(self).type_scopes,
    {
        proof {
            lemma_steps_ok(self.arena, never_view(), values@);
        }
        let ghost a0 = *self;
        let r = into_union(&mut self.arena, values);
        proof {
            self.lemma_wf_extends(a0);
        }
        r
    }
}

impl Analyzer {
    /// Marks the innermost try scope of the innermost call as reached and
    /// appends `values` to what it caught; gives its control-flow depth.
    fn update_caller_try(&mut self, values: Vec<Ty>) -> (depth: usize)
        requires
            old(self).wf(),
            old(self).call_scopes@.len() > 0,
            values_ok(old(self).arena, values@),
        ensures
            final(self).wf(),
            final(self).caller_try_updated(*old(self), true, values@),
            depth == old(self).top_try_scope().cf_scope_depth,
            final(self).arena == old(self).arena,
            final(self).variable_scopes == old(self).variable_scopes,
            final(self).cf_scopes == old(self).cf_scopes,
            final(self).consumed == old(self).consumed,
            final(self).type_scopes == old(self).type_scopes,
    {
        let ghost a0 = *self;
        let ghost vals = values@;
        let mut cs = self.call_scopes.pop().unwrap();
        proof {
            assert(a0.call_scopes@[a0.call_scopes@.len() - 1].wf(a0.arena));
        }
        let mut t = cs.try_scopes.pop().unwrap();
        proof {
            assert(values_ok(a0.arena, a0.top_try_scope().thrown_values@));
        }
        t.may_throw = true;
        let mut values = values;
        t.thrown_values.append(&mut values);
        let depth = t.cf_scope_depth;
        cs.try_scopes.push(t);
        self.call_scopes.push(cs);
        proof {
            let c = self.top_call();
            let c0 = a0.top_call();
            assert(c0.wf(a0.arena));
            assert forall|k: int| 0 <= k < c.try_scopes@.len() implies values_ok(self.arena, #[trigger] c.try_scopes@[k].thrown_values@) by {
                if k < c.try_scopes@.len() - 1 {
                    assert(c.try_scopes@[k] == c0.try_scopes@[k]);
                    assert(values_ok(a0.arena, c0.try_scopes@[k].thrown_values@));
                } else {
                    assert(values_ok(a0.arena, c0.try_scopes@[k].thrown_values@));
                    lemma_values_ok_concat(self.arena, c0.try_scopes@[k].thrown_values@, vals);
                    assert(c.try_scopes@[k].thrown_values@ == c0.try_scopes@[k].thrown_values@ + vals);
                }
            }
            assert(c.wf(self.arena));
            assert forall|i: int| 0 <= i < self.call_scopes@.len() implies (#[trigger] self.call_scopes@[i]).wf(self.arena) by {
                if i < self.call_scopes@.len() - 1 {
                    assert(self.call_scopes@[i] == a0.call_scopes@[i]);
                }
            }
        }
        depth
    }

    /// Marks the caller's try scope as reached by a generator, with an
    /// unknown value when the generator threw any.
    fn mark_caller_throws(&mut self, nonempty: bool)
        requires
            old(self).wf(),
            old(self).call_scopes@.len() > 0,
        ensures
            final(self).wf(),
            final(self).caller_try_updated(
                *old(self),
                true,
                if nonempty { seq![Ty::Unknown] } else { Seq::empty() },
            ),
            final(self).arena == old(self).arena,
            final(self).variable_scopes == old(self).variable_scopes,
            final(self).cf_scopes == old(self).cf_scopes,
            final(self).consumed == old(self).consumed,
            final(self).type_scopes == old(self).type_scopes,
    {
        let values = if nonempty {
            vec![Ty::Unknown]
        } else {
            Vec::new()
        };
        proof {
            if nonempty {
                assert(values@ =~= seq![Ty::Unknown]);
            }
        }
        self.update_caller_try(values);
    }

    /// Hands what a call threw to the caller's try scope, and leaves the
    /// control-flow scopes up to it.
    fn forward_throw(&mut self, values: Vec<Ty>)
        requires
            old(self).wf(),
            old(self).call_scopes@.len() > 0,
            values_ok(old(self).arena, values@),
        ensures
            final(self).wf(),
            final(self).caller_try_updated(*old(self), true, values@),
            final(self).cf_scopes_exited_from(*old(self), old(self).top_try_scope().cf_scope_depth as int),
            final(self).arena == old(self).arena,
            final(self).variable_scopes == old(self).variable_scopes,
            final(self).consumed == old(self).consumed,
            final(self).type_scopes == old(self).type_scopes,
    {
        let depth = self.update_caller_try(values);
        self.exit_to(depth);
    }

    /// Records `value` as returned by the innermost call, and leaves the
    /// control flow up to where the call began.
    pub fn return_value(&mut self, value: Ty)
        requires
            old(self).wf(),
            old(self).call_scopes@.len() > 0,
            old(self).arena.contains(value),
            !is_non_value(value),
        ensures
            final(self).wf(),
            final(self).top_call_changed(*old(self)),
            final(self).top_call().returned_values@ == old(self).top_call().returned_values@.push(value),
            final(self).top_call().try_scopes == old(self).top_call().try_scopes,
            final(self).cf_scopes_exited_from(*old(self), old(self).top_call().cf_scope_depth as int),
            final(self).arena == old(self).arena,
            final(self).variable_scopes == old(self).variable_scopes,
            final(self).consumed == old(self).consumed,
            final(self).type_scopes == old(self).type_scopes,
    {
        let ghost a0 = *self;
        let mut call_scope = self.call_scopes.pop().unwrap();
        proof {
            assert(a0.call_scopes@[a0.call_scopes@.len() - 1].wf(a0.arena));
        }
        call_scope.returned_values.push(value);
        let target_depth = call_scope.cf_scope_depth;
        self.call_scopes.push(call_scope);
        proof {
            assert forall|i: int| 0 <= i < self.call_scopes@.len() implies (#[trigger] self.call_scopes@[i]).wf(self.arena) by {
                if i < self.call_scopes@.len() - 1 {
                    assert(self.call_scopes@[i] == a0.call_scopes@[i]);
                }
            }
        }
        self.exit_to(target_depth);
    }

    /// Consumes the values bound to the `arguments` of the innermost call's
    /// body, if any are bound; tells whether there were.
    pub fn consume_arguments(&mut self) -> (r: bool)
        requires
            old(self).wf(),
            old(self).call_scopes@.len() > 0,
        ensures
            final(self).wf(),
            consumed_arguments(*old(self), *final(self), old(self).top_call().body_variable_scope, r),
    {
        let scope = self.call_scopes[self.call_scopes.len() - 1].body_variable_scope;
        proof {
            assert(self.call_scopes@[self.call_scopes@.len() - 1].body_variable_scope < self.variable_scopes.arguments@.len());
        }
        self.consume_arguments_on_scope(scope)
    }

    /// Consumes the values bound to the `arguments` of `scope`, if any are
    /// bound; tells whether there were.
    pub fn consume_arguments_on_scope(&mut self, scope: ScopeId) -> (r: bool)
        requires
            old(self).wf(),
            (scope as int) < old(self).variable_scopes.arguments@.len(),
        ensures
            final(self).wf(),
            consumed_arguments(*old(self), *final(self), scope, r),
    {
        let taken = self.variable_scopes.arguments.remove(scope as usize);
        self.variable_scopes.arguments.insert(scope as usize, None);
        proof {
            assert(self.variable_scopes.arguments@ =~= old(self).variable_scopes.arguments@.update(scope as int, None));
        }
        match taken {
            Some(values) => {
                self.consume_values(values);
                true
            },
            None => false,
        }
    }

    /// Consumes the values the innermost call returned so far, and forgets them.
    pub fn consume_return_values(&mut self)
        requires
            old(self).wf(),
            old(self).call_scopes@.len() > 0,
        ensures
            final(self).wf(),
            final(self).top_call_changed(*old(self)),
            final(self).top_call().returned_values@ == Seq::<Ty>::empty(),
            final(self).top_call().try_scopes == old(self).top_call().try_scopes,
            final(self).consumed@ == old(self).consumed@ + old(self).top_call().returned_values@,
            final(self).type_scopes == old(self).type_scopes,
            final(self).arena == old(self).arena,
            final(self).variable_scopes == old(self).variable_scopes,
            final(self).cf_scopes == old(self).cf_scopes,
    {
        let ghost a0 = *self;
        let mut call_scope = self.call_scopes.pop().unwrap();
        let mut values: Vec<Ty> = Vec::new();
        std::mem::swap(&mut values, &mut call_scope.returned_values);
        self.call_scopes.push(call_scope);
        proof {
            assert(a0.call_scopes@[a0.call_scopes@.len() - 1].wf(a0.arena));
            assert forall|i: int| 0 <= i < self.call_scopes@.len() implies (#[trigger] self.call_scopes@[i]).wf(self.arena) by {
                if i < self.call_scopes@.len() - 1 {
                    assert(self.call_scopes@[i] == a0.call_scopes@[i]);
                }
            }
        }
        self.consume_values(values);
    }
}

/// What consuming the `arguments` of `scope` does: when values are bound
/// there, they join the consumed values, the binding goes, and the answer
/// is `true`; otherwise nothing changes and the answer is `false`.
pub open spec fn consumed_arguments(a0: Analyzer, a1: Analyzer, scope: ScopeId, r: bool) -> bool {
    let bound = a0.variable_scopes.arguments@[scope as int];
    &&& r == bound is Some
    &&& a1.variable_scopes.stack == a0.variable_scopes.stack
    &&& a1.variable_scopes.arguments@ == a0.variable_scopes.arguments@.update(scope as int, None)
    &&& a1.consumed@ == (match bound {
        Some(v) => a0.consumed@ + v@,
        None => a0.consumed@,
    })
    &&& a1.arena == a0.arena
    &&& a1.call_scopes == a0.call_scopes
    &&& a1.cf_scopes == a0.cf_scopes
    &&& a1.type_scopes == a0.type_scopes
}

pub proof fn lemma_values_ok_concat(arena: TyArena, a: Seq<Ty>, b: Seq<Ty>)
    requires
        values_ok(arena, a),
        values_ok(arena, b),
    ensures
        values_ok(arena, a + b),
{
    assert forall|i: int| 0 <= i < (a + b).len() implies arena.contains(#[trigger] (a + b)[i]) && !is_non_value((a + b)[i]) by {
        if i < a.len() {
            assert((a + b)[i] == a[i]);
        } else {
            assert((a + b)[i] == b[i - a.len()]);
        }
    }
}

} // verus!
