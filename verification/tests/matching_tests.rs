use ts_ty::analyzer::Analyzer;
use ts_ty::ty::callable::{CallableType, ExtractedCallable, FunctionType, GenericParam};
use ts_ty::ty::matching::MatchResult;
use ts_ty::ty::union::into_union;
use ts_ty::ty::{Ty, UnresolvedType};

fn infer(s: u64) -> Ty {
    Ty::Unresolved(UnresolvedType::InferType(s))
}

fn sig(params: Vec<(bool, Ty)>, ret: Ty) -> FunctionType {
    CallableType { type_params: vec![], this_type: None, params, rest_param: None, return_type: ret }
}

fn is_matched(r: &MatchResult) -> bool {
    matches!(r, MatchResult::Matched)
}

fn is_unmatched(r: &MatchResult) -> bool {
    matches!(r, MatchResult::Unmatched)
}

#[test]
fn a_type_matches_itself() {
    let mut a = Analyzer::new();
    assert!(is_matched(&a.match_types(Ty::Number, Ty::Number)));
    assert!(is_matched(&a.match_types(Ty::StringLiteral(3), Ty::StringLiteral(3))));
    let u = into_union(&mut a.arena, vec![Ty::Number, Ty::String]);
    assert!(is_matched(&a.match_types(u, u)));
    assert_eq!(a.arena.unions.len(), 1);
    assert!(a.arena.intersections.is_empty());
    assert!(a.consumed.is_empty() && a.call_scopes.is_empty() && a.cf_scopes.is_empty());
}

#[test]
fn literals_extend_their_general_type_only() {
    let mut a = Analyzer::new();
    assert!(is_matched(&a.match_types(Ty::StringLiteral(3), Ty::String)));
    assert!(is_matched(&a.match_types(Ty::NumericLiteral(1), Ty::Number)));
    assert!(is_matched(&a.match_types(Ty::BigIntLiteral(1), Ty::BigInt)));
    assert!(is_matched(&a.match_types(Ty::BooleanLiteral(false), Ty::Boolean)));
    assert!(is_matched(&a.match_types(Ty::UniqueSymbol(4), Ty::Symbol)));
    assert!(is_matched(&a.match_types(Ty::Undefined, Ty::Void)));
    assert!(is_unmatched(&a.match_types(Ty::String, Ty::StringLiteral(3))));
    assert!(is_unmatched(&a.match_types(Ty::Number, Ty::String)));
    assert!(is_unmatched(&a.match_types(Ty::Void, Ty::Undefined)));
}

#[test]
fn top_patterns_accept_everything() {
    let mut a = Analyzer::new();
    assert!(is_matched(&a.match_types(Ty::Number, Ty::Unknown)));
    assert!(is_matched(&a.match_types(Ty::Null, Ty::Any)));
    assert!(is_matched(&a.match_types(Ty::Unknown, Ty::Error)));
}

#[test]
fn any_target_answers_both() {
    let mut a = Analyzer::new();
    match a.match_types(Ty::Any, Ty::Number) {
        MatchResult::Multiple(l) => {
            assert_eq!(l.len(), 2);
            assert!(is_unmatched(&l[0]));
            assert!(is_matched(&l[1]));
        }
        _ => panic!("expected both answers"),
    }
}

#[test]
fn infer_pattern_binds_the_target() {
    let mut a = Analyzer::new();
    match a.match_types(Ty::Number, infer(9)) {
        MatchResult::Inferred(m) => {
            assert_eq!(m.len(), 1);
            assert_eq!(m.get(&9), Some(&Ty::Number));
        }
        _ => panic!("expected a binding"),
    }
}

#[test]
fn type_level_entities_are_errors() {
    let mut a = Analyzer::new();
    assert!(matches!(a.match_types(Ty::Generic(0), Ty::Number), MatchResult::Error));
    assert!(matches!(a.match_types(Ty::Number, Ty::Intrinsic(0)), MatchResult::Error));
}

#[test]
fn union_target_answers_per_member() {
    let mut a = Analyzer::new();
    let u = into_union(&mut a.arena, vec![Ty::StringLiteral(1), Ty::Number]);
    match a.match_types(u, Ty::String) {
        MatchResult::Multiple(l) => {
            assert_eq!(l.len(), 2);
            let matched = l.iter().filter(|r| is_matched(r)).count();
            let unmatched = l.iter().filter(|r| is_unmatched(r)).count();
            assert_eq!(matched, 1);
            assert_eq!(unmatched, 1);
        }
        _ => panic!("expected one answer per member"),
    }
}

#[test]
fn function_return_type_binds_infer() {
    let mut a = Analyzer::new();
    let target = a.arena.alloc_function(sig(vec![(false, Ty::Number)], Ty::String));
    let pattern = a.arena.alloc_function(sig(vec![(false, Ty::Number)], infer(1)));
    match a.match_types(target, pattern) {
        MatchResult::Inferred(m) => {
            assert_eq!(m.len(), 1);
            assert_eq!(m.get(&1), Some(&Ty::String));
        }
        _ => panic!("expected the return type bound"),
    }
}

#[test]
fn function_parameters_are_contravariant() {
    let mut a = Analyzer::new();
    // (x: string) => void  extends  (x: "a") => void
    let target = a.arena.alloc_function(sig(vec![(false, Ty::String)], Ty::Void));
    let pattern = a.arena.alloc_function(sig(vec![(false, Ty::StringLiteral(1))], Ty::Void));
    assert!(is_matched(&a.match_types(target, pattern)));
    // (x: "a") => void  does not extend  (x: string) => void
    assert!(is_unmatched(&a.match_types(pattern, target)));
}

#[test]
fn missing_required_parameter_is_unmatched() {
    let mut a = Analyzer::new();
    let target = a.arena.alloc_function(sig(vec![(false, Ty::Number), (false, Ty::Number)], Ty::Void));
    let pattern = a.arena.alloc_function(sig(vec![(false, Ty::Number)], Ty::Void));
    assert!(is_unmatched(&a.match_types(target, pattern)));
    let optional = a.arena.alloc_function(sig(vec![(false, Ty::Number), (true, Ty::Number)], Ty::Void));
    assert!(is_matched(&a.match_types(optional, pattern)));
}

#[test]
fn optional_parameter_binds_its_union() {
    let mut a = Analyzer::new();
    // (x?: number) => void  against  (x: infer T) => void
    let target = a.arena.alloc_function(sig(vec![(true, Ty::Number)], Ty::Void));
    let pattern = a.arena.alloc_function(sig(vec![(false, infer(2))], Ty::Void));
    let before = a.arena.unions.len();
    match a.match_types(target, pattern) {
        MatchResult::Matched => {}
        _ => panic!("a plain return match answers matched"),
    }
    assert_eq!(a.arena.unions.len(), before + 1);
    let u = a.arena.unions[before].for_each();
    assert_eq!(u.len(), 2);
    assert!(u.contains(&Ty::Number));
    assert!(u.contains(&Ty::Undefined));
}

#[test]
fn type_parameter_counts_must_agree() {
    let mut a = Analyzer::new();
    let mut generic = sig(vec![], Ty::Void);
    generic.type_params = vec![GenericParam { symbol: 1, constraint: None }];
    let target = a.arena.alloc_function(generic);
    let pattern = a.arena.alloc_function(sig(vec![], Ty::Void));
    assert!(is_unmatched(&a.match_types(target, pattern)));
}

#[test]
fn intersection_target_collects_bindings() {
    let mut a = Analyzer::new();
    let f = a.arena.alloc_function(sig(vec![], Ty::Number));
    let g = a.arena.alloc_function(sig(vec![], Ty::String));
    let both = a.arena.alloc_intersection(vec![f, g]);
    let pattern = a.arena.alloc_function(sig(vec![], infer(5)));
    let before = a.arena.intersections.len();
    match a.match_types(both, pattern) {
        MatchResult::Inferred(m) => {
            let t = *m.get(&5).unwrap();
            assert_eq!(t, Ty::Intersection(before as u32));
            assert_eq!(a.arena.intersections[before], vec![Ty::Number, Ty::String]);
        }
        _ => panic!("expected the bindings intersected"),
    }
}

#[test]
fn intersection_target_matches_when_one_member_does() {
    let mut a = Analyzer::new();
    let both = a.arena.alloc_intersection(vec![Ty::Number, Ty::StringLiteral(1)]);
    assert!(is_matched(&a.match_types(both, Ty::String)));
    assert!(is_unmatched(&a.match_types(both, Ty::Boolean)));
}

#[test]
fn extracting_callables() {
    let mut a = Analyzer::new();
    let f = a.arena.alloc_function(sig(vec![], Ty::Number));
    let g = a.arena.alloc_function(sig(vec![], Ty::String));
    assert!(matches!(a.extract_callable_function(f), Some(ExtractedCallable::Single(0))));
    assert!(a.extract_callable_constructor(f).is_none());
    assert!(a.extract_callable_function(Ty::Number).is_none());
    let both = a.arena.alloc_intersection(vec![f, Ty::Number, g]);
    match a.extract_callable_function(both) {
        Some(ExtractedCallable::Overloaded(v)) => {
            assert_eq!(v.len(), 2);
            assert!(matches!(v[0], ExtractedCallable::Single(0)));
            assert!(matches!(v[1], ExtractedCallable::Single(1)));
        }
        _ => panic!("expected overloads"),
    }
    let one = a.arena.alloc_intersection(vec![Ty::Number, g]);
    assert!(matches!(a.extract_callable_function(one), Some(ExtractedCallable::Single(1))));
    let either = into_union(&mut a.arena, vec![f, g]);
    match a.extract_callable_function(either) {
        Some(ExtractedCallable::Union(v)) => assert_eq!(v.len(), 2),
        _ => panic!("expected one callable per member"),
    }
    let mixed = into_union(&mut a.arena, vec![f, Ty::Number]);
    assert!(a.extract_callable_function(mixed).is_none());
}

#[test]
fn parameter_types_of_one_signature() {
    let mut a = Analyzer::new();
    let f = a.arena.alloc_function(sig(vec![(false, Ty::Number), (true, Ty::String)], Ty::Void));
    let c = a.extract_callable_function(f).unwrap();
    let params = a.get_callable_parameter_types(&c);
    assert_eq!(params.len(), 2);
    assert_eq!(params[0], Ty::Number);
    match params[1] {
        Ty::Union(j) => {
            let m = a.arena.unions[j as usize].for_each();
            assert_eq!(m.len(), 2);
            assert!(m.contains(&Ty::String));
            assert!(m.contains(&Ty::Undefined));
        }
        other => panic!("expected a union, got {:?}", other),
    }
}

#[test]
fn parameter_types_of_overloads_are_joined_by_position() {
    let mut a = Analyzer::new();
    let f = a.arena.alloc_function(sig(vec![(false, Ty::Number)], Ty::Void));
    let g = a.arena.alloc_function(sig(vec![(false, Ty::String), (false, Ty::Null)], Ty::Void));
    let both = a.arena.alloc_intersection(vec![f, g]);
    let c = a.extract_callable_function(both).unwrap();
    let params = a.get_callable_parameter_types(&c);
    assert_eq!(params.len(), 2);
    let first = match params[0] {
        Ty::Union(j) => a.arena.unions[j as usize].for_each(),
        _ => panic!("expected a union"),
    };
    assert_eq!(first.len(), 2);
    assert!(first.contains(&Ty::Number));
    assert!(first.contains(&Ty::String));
    let second = match params[1] {
        Ty::Union(j) => a.arena.unions[j as usize].for_each(),
        _ => panic!("expected a union"),
    };
    assert_eq!(second, vec![Ty::Null]);
}

#[test]
fn optional_type_joins_undefined() {
    let mut a = Analyzer::new();
    assert_eq!(a.get_optional_type(false, Ty::Number), Ty::Number);
    let t = a.get_optional_type(true, Ty::Number);
    assert_eq!(t, Ty::Union(0));
    let m = a.arena.unions[0].for_each();
    assert!(m.contains(&Ty::Number) && m.contains(&Ty::Undefined) && m.len() == 2);
}

#[test]
fn arguments_expect_their_parameters_until_a_spread() {
    let params = vec![Ty::Number, Ty::String];
    let r = Analyzer::new().exec_arguments(&vec![false, false, false], &params);
    assert_eq!(r, vec![Some(Ty::Number), Some(Ty::String), Some(Ty::Error)]);
    let r = Analyzer::new().exec_arguments(&vec![false, true, false], &params);
    assert_eq!(r, vec![Some(Ty::Number), None, None]);
    let r = Analyzer::new().exec_arguments(&vec![], &params);
    assert!(r.is_empty());
}

#[test]
fn constructors_are_extracted_apart_from_functions() {
    let mut a = Analyzer::new();
    let c = a.arena.alloc_constructor(CallableType {
        type_params: vec![],
        this_type: None,
        params: vec![(true, Ty::Number)],
        rest_param: None,
        return_type: Ty::Object,
    });
    assert_eq!(c, Ty::Constructor(0));
    assert!(a.extract_callable_function(c).is_none());
    let e = a.extract_callable_constructor(c).unwrap();
    assert!(matches!(e, ExtractedCallable::Single(0)));
    let params = a.get_callable_parameter_types(&e);
    assert_eq!(params.len(), 1);
    assert!(matches!(params[0], Ty::Union(_)));
    let d = a.arena.alloc_constructor(CallableType {
        type_params: vec![],
        this_type: None,
        params: vec![],
        rest_param: None,
        return_type: Ty::Object,
    });
    assert!(is_matched(&a.match_types(d, d)));
    // an optional parameter the pattern lacks does not stop a match
    assert!(is_matched(&a.match_types(c, d)));
    assert!(is_matched(&a.match_types(d, c)));
    // a function is no constructor
    let f = a.arena.alloc_function(sig(vec![], Ty::Object));
    assert!(is_unmatched(&a.match_types(f, d)));
}
