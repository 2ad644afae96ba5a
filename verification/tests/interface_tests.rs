use ts_ty::analyzer::Analyzer;
use ts_ty::ty::ctx::CtxTy;
use ts_ty::ty::interface::{InterfaceType, InterfaceTypeInner, PropertyKeyType};
use ts_ty::ty::{Ty, UnresolvedType};

#[test]
fn a_new_interface_is_empty() {
    let i = InterfaceType(InterfaceTypeInner::default());
    assert!(i.is_empty());
    assert_eq!(i.get_interface_property(PropertyKeyType::StringLiteral(1)), Ty::Error);
}

#[test]
fn extending_collects_signatures_and_unresolved() {
    let a = Analyzer::new();
    let mut inner = InterfaceTypeInner::default();
    inner.extend(&a.arena, Ty::Function(0));
    inner.extend(&a.arena, Ty::Number);
    inner.extend(&a.arena, Ty::Unresolved(UnresolvedType::TypeReference(3)));
    assert_eq!(inner.callables, vec![Ty::Function(0)]);
    assert_eq!(inner.unresolved_extends, vec![UnresolvedType::TypeReference(3)]);
    assert!(!InterfaceType(inner).is_empty());
}

#[test]
fn extending_by_an_interface_takes_its_members() {
    let mut a = Analyzer::new();
    let mut base = InterfaceTypeInner::default();
    base.string_keyed_methods.insert(10, 4);
    base.symbol_keyed_methods.insert(20, 5);
    base.record.string_keyed.insert(11, Ty::Number);
    base.callables.push(Ty::Constructor(0));
    base.unresolved_extends.push(UnresolvedType::Variable(1));
    a.arena.interfaces.push(InterfaceType(base));
    let mut derived = InterfaceTypeInner::default();
    derived.extend(&a.arena, Ty::Interface(0));
    assert_eq!(derived.callables, vec![Ty::Constructor(0)]);
    assert!(derived.unresolved_extends.is_empty());
    let d = InterfaceType(derived);
    assert_eq!(d.get_interface_property(PropertyKeyType::StringLiteral(10)), Ty::Function(4));
    assert_eq!(d.get_interface_property(PropertyKeyType::NumericLiteral(10)), Ty::Function(4));
    assert_eq!(d.get_interface_property(PropertyKeyType::UniqueSymbol(20)), Ty::Function(5));
    assert_eq!(d.get_interface_property(PropertyKeyType::StringLiteral(11)), Ty::Number);
    assert_eq!(d.get_interface_property(PropertyKeyType::StringLiteral(12)), Ty::Error);
    assert_eq!(d.get_interface_property(PropertyKeyType::AnyString), Ty::Error);
}

#[test]
fn extending_by_an_intersection_extends_by_each_type() {
    let mut a = Analyzer::new();
    let both = a.arena.alloc_intersection(vec![Ty::Function(0), Ty::Unresolved(UnresolvedType::TypeReference(2))]);
    let mut inner = InterfaceTypeInner::default();
    inner.extend(&a.arena, both);
    assert_eq!(inner.callables, vec![Ty::Function(0)]);
    assert_eq!(inner.unresolved_extends, vec![UnresolvedType::TypeReference(2)]);
}

#[test]
fn annotations_are_read_in_the_innermost_type_scope() {
    let mut a = Analyzer::new();
    a.type_scopes.push(3);
    let t = a.ctx_ty_from_ts_type(77);
    assert_eq!(t, CtxTy::WithCtx(3, 77));
    a.type_scopes.push(4);
    assert_eq!(a.refresh_ctx_ty(t), CtxTy::WithCtx(4, 77));
    assert_eq!(a.refresh_ctx_ty(CtxTy::Static(Ty::Null)), CtxTy::Static(Ty::Null));
    assert_eq!(a.replace_top_type_scope(9), 4);
    assert_eq!(a.type_scopes, vec![3, 9]);
}

