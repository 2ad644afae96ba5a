use ts_ty::ty::arena::TyArena;
use ts_ty::ty::union::{into_union, UnionType};
use ts_ty::ty::{Ty, UnresolvedType};

fn members(arena: &TyArena, t: Ty) -> Vec<Ty> {
    match t {
        Ty::Union(j) => arena.unions[j as usize].for_each(),
        other => vec![other],
    }
}

#[test]
fn union_of_nothing_is_never() {
    let mut arena = TyArena::new();
    assert_eq!(into_union(&mut arena, vec![]), Ty::Never);
    assert_eq!(arena.unions.len(), 0);
}

#[test]
fn union_of_one_type_is_that_type() {
    let mut arena = TyArena::new();
    assert_eq!(into_union(&mut arena, vec![Ty::Number]), Ty::Number);
    assert_eq!(arena.unions.len(), 0);
}

#[test]
fn union_of_two_types_is_stored() {
    let mut arena = TyArena::new();
    let u = into_union(&mut arena, vec![Ty::Number, Ty::String]);
    assert_eq!(u, Ty::Union(0));
    assert_eq!(arena.unions.len(), 1);
    let m = members(&arena, u);
    assert_eq!(m.len(), 2);
    assert!(m.contains(&Ty::Number));
    assert!(m.contains(&Ty::String));
}

#[test]
fn literal_is_absorbed_by_its_general_type() {
    let arena = TyArena::new();
    let mut u = UnionType::default();
    u.add(&arena, Ty::StringLiteral(1));
    u.add(&arena, Ty::StringLiteral(2));
    u.add(&arena, Ty::String);
    u.add(&arena, Ty::StringLiteral(3));
    assert_eq!(u.for_each(), vec![Ty::String]);
}

#[test]
fn distinct_literals_are_kept_once_each() {
    let arena = TyArena::new();
    let mut u = UnionType::default();
    u.add(&arena, Ty::NumericLiteral(7));
    u.add(&arena, Ty::NumericLiteral(8));
    u.add(&arena, Ty::NumericLiteral(7));
    let m = u.for_each();
    assert_eq!(m.len(), 2);
    assert!(m.contains(&Ty::NumericLiteral(7)));
    assert!(m.contains(&Ty::NumericLiteral(8)));
}

#[test]
fn both_boolean_literals_make_boolean() {
    let arena = TyArena::new();
    let mut u = UnionType::default();
    u.add(&arena, Ty::BooleanLiteral(true));
    u.add(&arena, Ty::BooleanLiteral(false));
    assert_eq!(u.for_each(), vec![Ty::Boolean]);
}

#[test]
fn top_types_swallow_everything() {
    let arena = TyArena::new();
    let mut u = UnionType::default();
    u.add(&arena, Ty::Number);
    u.add(&arena, Ty::Any);
    u.add(&arena, Ty::String);
    assert!(u.is_top());
    assert_eq!(u.for_each(), vec![Ty::Any]);

    let mut e = UnionType::default();
    e.add(&arena, Ty::Error);
    e.add(&arena, Ty::Unknown);
    assert_eq!(e.for_each(), vec![Ty::Error]);
}

#[test]
fn never_adds_nothing() {
    let arena = TyArena::new();
    let mut u = UnionType::default();
    u.add(&arena, Ty::Never);
    assert_eq!(u.for_each(), vec![Ty::Never]);
    u.add(&arena, Ty::Null);
    u.add(&arena, Ty::Never);
    assert_eq!(u.for_each(), vec![Ty::Null]);
}

#[test]
fn unresolved_types_come_last_in_order() {
    let arena = TyArena::new();
    let mut u = UnionType::default();
    u.add(&arena, Ty::Unresolved(UnresolvedType::TypeReference(5)));
    u.add(&arena, Ty::Null);
    u.add(&arena, Ty::Unresolved(UnresolvedType::Variable(6)));
    assert_eq!(
        u.for_each(),
        vec![
            Ty::Null,
            Ty::Unresolved(UnresolvedType::TypeReference(5)),
            Ty::Unresolved(UnresolvedType::Variable(6))
        ]
    );
}

#[test]
fn adding_a_union_adds_its_members() {
    let mut arena = TyArena::new();
    let inner = into_union(&mut arena, vec![Ty::Null, Ty::Undefined]);
    let mut u = UnionType::default();
    u.add(&arena, Ty::Number);
    u.add(&arena, inner);
    let m = u.for_each();
    assert_eq!(m.len(), 3);
    assert!(m.contains(&Ty::Number));
    assert!(m.contains(&Ty::Null));
    assert!(m.contains(&Ty::Undefined));
    assert!(!m.contains(&inner));
}

#[test]
fn complex_types_are_kept_by_identity() {
    let mut arena = TyArena::new();
    let a = arena.alloc_intersection(vec![Ty::Number]);
    let b = arena.alloc_intersection(vec![Ty::String]);
    let mut u = UnionType::default();
    u.add(&arena, a);
    u.add(&arena, b);
    u.add(&arena, a);
    let m = u.for_each();
    assert_eq!(m.len(), 2);
    assert!(m.contains(&a));
    assert!(m.contains(&b));
}

#[test]
fn members_are_listed_family_by_family() {
    let mut arena = TyArena::new();
    let f = arena.alloc_intersection(vec![]);
    let mut u = UnionType::default();
    u.add(&arena, f);
    u.add(&arena, Ty::BooleanLiteral(true));
    u.add(&arena, Ty::Undefined);
    u.add(&arena, Ty::Null);
    u.add(&arena, Ty::Void);
    u.add(&arena, Ty::Object);
    u.add(&arena, Ty::UniqueSymbol(2));
    u.add(&arena, Ty::BigInt);
    u.add(&arena, Ty::Number);
    u.add(&arena, Ty::StringLiteral(1));
    assert_eq!(
        u.for_each(),
        vec![
            Ty::StringLiteral(1),
            Ty::Number,
            Ty::BigInt,
            Ty::UniqueSymbol(2),
            Ty::Object,
            Ty::Void,
            Ty::Null,
            Ty::Undefined,
            Ty::BooleanLiteral(true),
            f
        ]
    );
}

fn sorted(mut v: Vec<Ty>) -> Vec<Ty> {
    v.sort_by_key(|t| format!("{:?}", t));
    v
}

#[test]
fn adding_in_either_order_gives_the_same_union() {
    let arena = TyArena::new();
    let mut a = UnionType::default();
    a.add(&arena, Ty::StringLiteral(4));
    a.add(&arena, Ty::Null);
    let mut b = UnionType::default();
    b.add(&arena, Ty::Null);
    b.add(&arena, Ty::StringLiteral(4));
    assert_eq!(sorted(a.for_each()), sorted(b.for_each()));
}

#[test]
fn adding_twice_is_adding_once() {
    let arena = TyArena::new();
    let mut a = UnionType::default();
    a.add(&arena, Ty::Symbol);
    a.add(&arena, Ty::UniqueSymbol(1));
    let once = a.for_each();
    a.add(&arena, Ty::UniqueSymbol(1));
    a.add(&arena, Ty::Symbol);
    assert_eq!(a.for_each(), once);
    assert_eq!(once, vec![Ty::Symbol]);
}

#[test]
fn general_types_drop_their_literals_in_every_family() {
    let arena = TyArena::new();
    let mut u = UnionType::default();
    u.add(&arena, Ty::NumericLiteral(1));
    u.add(&arena, Ty::BigIntLiteral(2));
    u.add(&arena, Ty::UniqueSymbol(3));
    u.add(&arena, Ty::BooleanLiteral(true));
    u.add(&arena, Ty::Number);
    u.add(&arena, Ty::BigInt);
    u.add(&arena, Ty::Symbol);
    u.add(&arena, Ty::Boolean);
    let m = u.for_each();
    assert_eq!(m.len(), 4);
    for t in [Ty::Number, Ty::BigInt, Ty::Symbol, Ty::Boolean] {
        assert!(m.contains(&t));
    }
}
