use ts_ty::analyzer::Analyzer;
use ts_ty::builtins::prototypes::{create_boolean_prototype, create_object_prototype, create_string_prototype, EntityFactory};
use ts_ty::scope::call_scope::{CallScope, CalleeInfo};
use ts_ty::scope::{CfScope, TryScope};
use ts_ty::ty::Ty;

#[test]
fn a_call_that_returns_nothing_is_undefined() {
    let mut a = Analyzer::new();
    a.push_call_scope(1, CalleeInfo { node: 5 }, vec![], false, false);
    assert_eq!(a.call_scopes.len(), 1);
    assert_eq!(a.call_scopes[0].call_id, 1);
    assert_eq!(a.call_scopes[0].callee, CalleeInfo { node: 5 });
    assert_eq!(a.variable_scopes.stack, vec![0]);
    assert_eq!(a.pop_call_scope(), Ty::Undefined);
    assert!(a.call_scopes.is_empty());
    assert!(a.variable_scopes.stack.is_empty());
}

#[test]
fn returned_values_are_joined() {
    let mut a = Analyzer::new();
    a.push_call_scope(1, CalleeInfo { node: 5 }, vec![], false, false);
    a.return_value(Ty::Number);
    assert_eq!(a.pop_call_scope(), Ty::Number);

    a.push_call_scope(1, CalleeInfo { node: 5 }, vec![], false, false);
    a.return_value(Ty::Number);
    a.return_value(Ty::String);
    let r = a.pop_call_scope();
    match r {
        Ty::Union(j) => {
            let m = a.arena.unions[j as usize].for_each();
            assert_eq!(m.len(), 2);
            assert!(m.contains(&Ty::Number) && m.contains(&Ty::String));
        }
        other => panic!("expected a union, got {:?}", other),
    }
}

#[test]
fn the_callers_scopes_come_back() {
    let mut a = Analyzer::new();
    let outer = a.push_variable_scope();
    a.push_call_scope(1, CalleeInfo { node: 5 }, vec![], false, false);
    assert_eq!(a.variable_scopes.stack, vec![1]);
    a.pop_call_scope();
    assert_eq!(a.variable_scopes.stack, vec![outer]);
}

#[test]
fn returning_exits_the_control_flow_of_the_call() {
    let mut a = Analyzer::new();
    a.cf_scopes.push(CfScope { exited: false, indeterminate: false });
    a.push_call_scope(1, CalleeInfo { node: 5 }, vec![], false, false);
    a.cf_scopes.push(CfScope { exited: false, indeterminate: false });
    a.cf_scopes.push(CfScope { exited: false, indeterminate: false });
    a.return_value(Ty::Null);
    assert!(!a.cf_scopes[0].exited);
    assert!(a.cf_scopes[1].exited);
    assert!(a.cf_scopes[2].exited);
}

#[test]
fn consuming_return_values() {
    let mut a = Analyzer::new();
    a.push_call_scope(1, CalleeInfo { node: 5 }, vec![], false, false);
    a.return_value(Ty::Number);
    a.return_value(Ty::Null);
    a.consume_return_values();
    assert_eq!(a.consumed, vec![Ty::Number, Ty::Null]);
    assert!(a.call_scopes[0].returned_values.is_empty());
    assert_eq!(a.pop_call_scope(), Ty::Undefined);
}

#[test]
fn consuming_arguments() {
    let mut a = Analyzer::new();
    a.push_call_scope(1, CalleeInfo { node: 5 }, vec![], false, false);
    assert!(!a.consume_arguments());
    let body = a.call_scopes[0].body_variable_scope as usize;
    a.variable_scopes.arguments[body] = Some(vec![Ty::String, Ty::Number]);
    assert!(a.consume_arguments());
    assert_eq!(a.consumed, vec![Ty::String, Ty::Number]);
    assert!(a.variable_scopes.arguments[body].is_none());
    assert!(!a.consume_arguments());
}

#[test]
fn finalizing_forwards_what_was_thrown() {
    let mut a = Analyzer::new();
    a.push_call_scope(1, CalleeInfo { node: 5 }, vec![], false, false);
    let mut inner = CallScope::new(2, CalleeInfo { node: 6 }, vec![7], 0, 1, false, false);
    inner.try_scopes = vec![TryScope { cf_scope_depth: 0, may_throw: true, thrown_values: vec![Ty::String] }];
    inner.returned_values = vec![Ty::Number];
    let (stack, value) = inner.finalize(&mut a);
    assert_eq!(stack, vec![7]);
    assert_eq!(value, Ty::Number);
    let caller_try = &a.call_scopes[0].try_scopes[0];
    assert!(caller_try.may_throw);
    assert_eq!(caller_try.thrown_values, vec![Ty::String]);
}

#[test]
fn finalizing_a_generator_or_async_call() {
    let mut a = Analyzer::new();
    a.push_call_scope(1, CalleeInfo { node: 5 }, vec![], false, false);
    let mut gen = CallScope::new(2, CalleeInfo { node: 6 }, vec![], 0, 1, false, true);
    gen.try_scopes = vec![TryScope { cf_scope_depth: 0, may_throw: true, thrown_values: vec![Ty::String] }];
    let (_, value) = gen.finalize(&mut a);
    assert_eq!(value, Ty::Undefined);
    assert_eq!(a.call_scopes[0].try_scopes[0].thrown_values, vec![Ty::Unknown]);
    assert_eq!(a.consumed, vec![Ty::String]);

    let mut asy = CallScope::new(2, CalleeInfo { node: 6 }, vec![], 0, 1, true, false);
    asy.returned_values = vec![Ty::Number];
    asy.try_scopes = vec![TryScope { cf_scope_depth: 0, may_throw: true, thrown_values: vec![Ty::Null] }];
    let (_, value) = asy.finalize(&mut a);
    assert_eq!(value, Ty::Unknown);
    assert_eq!(a.consumed, vec![Ty::String, Ty::Null]);
}

#[test]
fn boolean_prototype_members() {
    let mut a = Analyzer::new();
    let f = EntityFactory::new(&mut a.arena);
    let p = create_boolean_prototype(&f);
    assert_eq!(p.name, "Boolean");
    assert_eq!(p.parent.as_ref().unwrap().name, "Object");
    assert_eq!(p.properties, vec![("valueOf", f.pure_fn_returns_boolean)]);
    assert_eq!(a.arena.functions[0].return_type, Ty::Boolean);
    assert!(a.arena.functions[0].params.is_empty());
}

#[test]
fn string_prototype_members() {
    let mut a = Analyzer::new();
    let f = EntityFactory::new(&mut a.arena);
    let p = create_string_prototype(&f);
    assert_eq!(p.name, "String");
    assert_eq!(p.properties.len(), 48);
    assert_eq!(p.properties[0], ("anchor", f.pure_fn_returns_string));
    assert_eq!(p.properties[1], ("at", f.pure_fn_returns_unknown));
    assert_eq!(p.properties[47], ("valueOf", f.pure_fn_returns_string));
    assert!(p.properties.contains(&("split", f.pure_fn_returns_unknown)));
    assert!(p.properties.contains(&("toUpperCase", f.pure_fn_returns_string)));
    assert!(create_object_prototype(&f).properties.is_empty());
}
