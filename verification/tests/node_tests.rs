use ts_ty::analyzer::Analyzer;
use ts_ty::scope::CfScope;
use ts_ty::nodes::class::{
    ClassElementKind, ClassElementModel, ClassModel, ClassStep, ConstructStep,
    MethodKind, PropertyKind,
};
use ts_ty::nodes::module_declaration::{
    DeclAction, ExportDefaultModel, InitAction, ModuleDeclModel,
};
use ts_ty::nodes::member_expression::{ChainRead, KeyStep, MemberKey, WriteStep};
use ts_ty::nodes::unary_expression::{
    delete_steps, DeleteArgument, DeleteDiagnostic, DeleteStep, UnaryOperator, UnaryType,
};
use ts_ty::ty::callable::{CallableType, ExtractedCallable, ParamLayout};
use ts_ty::ty::ctx::{AnnotationStep, CtxResolveStep, CtxTy};
use ts_ty::ty::interface::PropertyKeyType;
use ts_ty::ty::Ty;

fn el(kind: ClassElementKind, is_static: bool) -> ClassElementModel {
    ClassElementModel { kind, is_static }
}

#[test]
fn import_specifiers_are_declared_unknown_in_order() {
    let d = ModuleDeclModel::Import { specifiers: Some(vec![3, 4]), source_known: false };
    assert_eq!(
        Analyzer::new().declare_module_declaration(&d),
        vec![
            DeclAction::DeclareImport { local: 3, value: Ty::Unknown },
            DeclAction::DeclareImport { local: 4, value: Ty::Unknown },
        ]
    );
    let bare = ModuleDeclModel::Import { specifiers: None, source_known: true };
    assert!(Analyzer::new().declare_module_declaration(&bare).is_empty());
    assert!(Analyzer::new().init_module_declaration(&bare).is_empty());
}

#[test]
fn default_exports_declare_named_functions_and_classes() {
    let f = ModuleDeclModel::ExportDefault(ExportDefaultModel::Function { has_id: true, node: 7 });
    assert_eq!(Analyzer::new().declare_module_declaration(&f), vec![DeclAction::DeclareFunction(7)]);
    assert_eq!(Analyzer::new().init_module_declaration(&f), vec![InitAction::ExecFunction(7)]);
    let anon = ModuleDeclModel::ExportDefault(ExportDefaultModel::Class { has_id: false, node: 8 });
    assert!(Analyzer::new().declare_module_declaration(&anon).is_empty());
    assert_eq!(Analyzer::new().init_module_declaration(&anon), vec![InitAction::ExecClass(8)]);
    let named = ModuleDeclModel::ExportDefault(ExportDefaultModel::Class { has_id: true, node: 9 });
    assert_eq!(Analyzer::new().declare_module_declaration(&named), vec![DeclAction::DeclareClass(9)]);
    assert_eq!(Analyzer::new().init_module_declaration(&named), vec![InitAction::InitClass(9)]);
    let e = ModuleDeclModel::ExportDefault(ExportDefaultModel::Expression { node: 10 });
    assert!(Analyzer::new().declare_module_declaration(&e).is_empty());
    assert_eq!(Analyzer::new().init_module_declaration(&e), vec![InitAction::ExecExpression(10)]);
}

#[test]
fn named_exports_and_assignments() {
    let local = ModuleDeclModel::ExportNamed { has_source: false, declaration: Some(2) };
    assert_eq!(Analyzer::new().declare_module_declaration(&local), vec![DeclAction::DeclareDeclaration(2)]);
    assert_eq!(Analyzer::new().init_module_declaration(&local), vec![InitAction::InitDeclaration(2)]);
    let re = ModuleDeclModel::ExportNamed { has_source: true, declaration: Some(2) };
    assert!(Analyzer::new().declare_module_declaration(&re).is_empty());
    assert!(Analyzer::new().init_module_declaration(&re).is_empty());
    let assign = ModuleDeclModel::TsExportAssignment { expression: 11 };
    assert!(Analyzer::new().declare_module_declaration(&assign).is_empty());
    assert_eq!(Analyzer::new().init_module_declaration(&assign), vec![InitAction::ExecExpression(11)]);
    assert!(Analyzer::new().init_module_declaration(&ModuleDeclModel::ExportAll).is_empty());
}

#[test]
fn class_definition_steps() {
    let c = ClassModel {
        has_super_class: true,
        has_id: true,
        elements: vec![
            el(ClassElementKind::Method(MethodKind::Getter), true),
            el(ClassElementKind::StaticBlock, true),
            el(ClassElementKind::Property { has_value: true }, true),
            el(ClassElementKind::Method(MethodKind::Method), false),
            el(ClassElementKind::Property { has_value: false }, true),
        ],
    };
    assert_eq!(
        Analyzer::new().exec_class(&c),
        vec![
            ClassStep::EvalSuperClass,
            ClassStep::EvalKey(0),
            ClassStep::EvalKey(2),
            ClassStep::EvalKey(3),
            ClassStep::EvalKey(4),
            ClassStep::PushVariableScope,
            ClassStep::DefineStatic { element: 0, kind: PropertyKind::Getter },
            ClassStep::PopVariableScope,
            ClassStep::CreateClass,
            ClassStep::EnterBody,
            ClassStep::BindName,
            ClassStep::RunStaticBlock(1),
            ClassStep::SetStaticProperty(2),
            ClassStep::LeaveBody,
        ]
    );
}

#[test]
fn static_methods_keep_their_kind() {
    let c = ClassModel {
        has_super_class: false,
        has_id: false,
        elements: vec![
            el(ClassElementKind::Method(MethodKind::Method), true),
            el(ClassElementKind::Method(MethodKind::Setter), true),
            el(ClassElementKind::IndexSignature, false),
        ],
    };
    assert_eq!(
        Analyzer::new().exec_class(&c),
        vec![
            ClassStep::EvalKey(0),
            ClassStep::EvalKey(1),
            ClassStep::PushVariableScope,
            ClassStep::DefineStatic { element: 0, kind: PropertyKind::Init },
            ClassStep::DefineStatic { element: 1, kind: PropertyKind::Setter },
            ClassStep::PopVariableScope,
            ClassStep::CreateClass,
            ClassStep::EnterBody,
            ClassStep::LeaveBody,
        ]
    );
}

#[test]
fn constructing_an_instance() {
    let c = ClassModel {
        has_super_class: true,
        has_id: false,
        elements: vec![
            el(ClassElementKind::Method(MethodKind::Method), false),
            el(ClassElementKind::Property { has_value: true }, false),
            el(ClassElementKind::Property { has_value: true }, true),
            el(ClassElementKind::Property { has_value: false }, false),
            el(ClassElementKind::StaticBlock, false),
        ],
    };
    let keys = vec![
        Some(PropertyKeyType::StringLiteral(1)),
        Some(PropertyKeyType::StringLiteral(2)),
        Some(PropertyKeyType::StringLiteral(3)),
        None,
        None,
    ];
    assert_eq!(
        Analyzer::new().construct_class(&c, &keys),
        vec![
            ConstructStep::MutateSuperClass,
            ConstructStep::MutateKey(0),
            ConstructStep::MutateKey(1),
            ConstructStep::RunMethod(0),
            ConstructStep::EnterConstructor,
            ConstructStep::InitProperty(1),
            ConstructStep::LeaveConstructor,
        ]
    );
}

#[test]
fn unary_operators() {
    let mut a = Analyzer::new();
    let facts = vec![false; 8];
    let atoms: Vec<u64> = (10..18).collect();
    assert_eq!(a.exec_unary_expression(UnaryOperator::Delete, Ty::Number, &facts, &atoms), UnaryType::Known(Ty::Boolean));
    assert_eq!(a.exec_unary_expression(UnaryOperator::LogicalNot, Ty::Number, &facts, &atoms), UnaryType::Known(Ty::Boolean));
    assert_eq!(a.exec_unary_expression(UnaryOperator::Void, Ty::Number, &facts, &atoms), UnaryType::Known(Ty::Undefined));
    assert_eq!(a.exec_unary_expression(UnaryOperator::UnaryPlus, Ty::String, &facts, &atoms), UnaryType::ToNumeric(Ty::String));
    assert_eq!(a.exec_unary_expression(UnaryOperator::BitwiseNot, Ty::Any, &facts, &atoms), UnaryType::ToNumeric(Ty::Any));
    assert!(a.arena.unions.is_empty());
}

#[test]
fn typeof_gives_the_possible_names() {
    let mut a = Analyzer::new();
    let atoms: Vec<u64> = (10..18).collect();
    let none = vec![false; 8];
    assert_eq!(a.exec_unary_expression(UnaryOperator::Typeof, Ty::Never, &none, &atoms), UnaryType::Known(Ty::Never));
    let mut number = vec![false; 8];
    number[4] = true;
    assert_eq!(
        a.exec_unary_expression(UnaryOperator::Typeof, Ty::Number, &number, &atoms),
        UnaryType::Known(Ty::StringLiteral(14))
    );
    let mut two = vec![false; 8];
    two[0] = true;
    two[6] = true;
    match a.exec_unary_expression(UnaryOperator::Typeof, Ty::Any, &two, &atoms) {
        UnaryType::Known(Ty::Union(i)) => {
            let mut members = a.arena.unions[i as usize].for_each();
            members.sort_by_key(|t| format!("{:?}", t));
            assert_eq!(members, vec![Ty::StringLiteral(10), Ty::StringLiteral(16)]);
        }
        other => panic!("expected a union, got {:?}", other),
    }
}

#[test]
fn signature_layout_names_parameters_by_position() {
    let mut a = Analyzer::new();
    let f = a.arena.alloc_function(CallableType {
        type_params: vec![],
        this_type: Some(Ty::Object),
        params: vec![(true, Ty::String), (false, Ty::Boolean)],
        rest_param: Some(Ty::Any),
        return_type: Ty::Void,
    });
    let i = match f {
        Ty::Function(i) => i,
        _ => panic!("expected a function type"),
    };
    let l = a.print_callable_type::<false>(i);
    assert_eq!(l.this_param, Some(Ty::Object));
    assert_eq!(
        l.params,
        vec![
            ParamLayout { index: 0, optional: true, ty: Ty::String },
            ParamLayout { index: 1, optional: false, ty: Ty::Boolean },
        ]
    );
    assert_eq!(l.rest, Some(Ty::Any));
    assert_eq!(l.return_type, Ty::Void);
    let g = a.arena.alloc_function(CallableType {
        type_params: vec![],
        this_type: None,
        params: vec![],
        rest_param: None,
        return_type: Ty::Number,
    });
    let j = match g {
        Ty::Function(j) => j,
        _ => panic!("expected a function type"),
    };
    let l = a.print_callable_type::<false>(j);
    assert_eq!(l.this_param, None);
    assert!(l.params.is_empty());
    assert_eq!(l.rest, None);
    assert_eq!(l.return_type, Ty::Number);
}

#[test]
fn a_call_without_callee_is_an_error() {
    let mut a = Analyzer::new();
    let r = a.exec_call::<false>(None, &vec![false, true], false);
    assert_eq!(r.arguments, Some(vec![None, None]));
    assert_eq!(r.instantiate, None);
    assert_eq!(r.result, Ty::Error);
}

#[test]
fn a_call_with_type_arguments_checks_arguments_in_order() {
    let mut a = Analyzer::new();
    let f = a.arena.alloc_function(CallableType {
        type_params: vec![],
        this_type: None,
        params: vec![(false, Ty::Number), (false, Ty::String)],
        rest_param: None,
        return_type: Ty::Boolean,
    });
    let i = match f {
        Ty::Function(i) => i,
        _ => panic!("expected a function type"),
    };
    let r = a.exec_call::<false>(Some(ExtractedCallable::Single(i)), &vec![false, false, false, true, false], true);
    assert_eq!(r.arguments, Some(vec![Some(Ty::Number), Some(Ty::String), Some(Ty::Error), None, None]));
    assert_eq!(r.instantiate, Some(i));
    assert_eq!(r.result, Ty::Boolean);
    let s = a.exec_call::<false>(Some(ExtractedCallable::Single(i)), &vec![true, false], true);
    assert_eq!(s.arguments, Some(vec![None, None]));
}

#[test]
fn a_call_of_no_overloads_evaluates_nothing() {
    let mut a = Analyzer::new();
    let r = a.exec_call::<false>(Some(ExtractedCallable::Overloaded(vec![])), &vec![false], false);
    assert_eq!(r.arguments, None);
    assert_eq!(r.instantiate, None);
    assert_eq!(r.result, Ty::Error);
}

#[test]
fn logical_operands_join() {
    let mut a = Analyzer::new();
    assert_eq!(a.exec_logical_expression(Ty::Number, Ty::Number), Ty::Union(0));
    assert_eq!(a.arena.unions[0].for_each(), vec![Ty::Number]);
    match a.exec_logical_expression(Ty::String, Ty::Null) {
        Ty::Union(i) => {
            let mut members = a.arena.unions[i as usize].for_each();
            members.sort_by_key(|t| format!("{:?}", t));
            assert_eq!(members, vec![Ty::Null, Ty::String]);
        }
        other => panic!("expected a union, got {:?}", other),
    }
}

#[test]
fn a_default_joins_the_bound_value() {
    let mut a = Analyzer::new();
    match a.exec_with_default(Ty::Number, Ty::Undefined) {
        Ty::Union(i) => {
            let mut members = a.arena.unions[i as usize].for_each();
            members.sort_by_key(|t| format!("{:?}", t));
            assert_eq!(members, vec![Ty::Number, Ty::Undefined]);
        }
        other => panic!("expected a union, got {:?}", other),
    }
}

#[test]
fn an_optional_chain_may_be_undefined() {
    let mut a = Analyzer::new();
    a.cf_scopes.push(CfScope { exited: false, indeterminate: false });
    assert_eq!(a.exec_chain_expression(false, Ty::Number), Ty::Number);
    assert!(a.arena.unions.is_empty());
    assert_eq!(a.cf_scopes.len(), 1);
    a.cf_scopes.push(CfScope { exited: false, indeterminate: true });
    assert!(matches!(a.exec_chain_expression(true, Ty::Number), Ty::Union(0)));
    assert_eq!(a.cf_scopes.len(), 1);
    assert!(!a.cf_scopes[0].indeterminate);
    a.cf_scopes.push(CfScope { exited: false, indeterminate: true });
    assert_eq!(a.exec_chain_expression(true, Ty::Undefined), Ty::Union(1));
    assert_eq!(a.arena.unions[1].for_each(), vec![Ty::Undefined]);
    assert_eq!(a.cf_scopes.len(), 1);
}

#[test]
fn a_sequence_has_its_last_type() {
    let a = Analyzer::new();
    assert_eq!(a.exec_sequence_expression(&vec![Ty::Number, Ty::String, Ty::Boolean]), Ty::Boolean);
    assert_eq!(a.exec_sequence_expression(&vec![Ty::Null]), Ty::Null);
}

#[test]
fn an_annotation_wins_over_the_inferred_type() {
    let mut a = Analyzer::new();
    a.type_scopes.push(3);
    a.type_scopes.push(7);
    assert_eq!(a.ctx_ty_from_annotation(Some(40), Some(Ty::Number)), AnnotationStep::Ready(CtxTy::WithCtx(7, 40)));
    assert_eq!(a.ctx_ty_from_annotation(None, Some(Ty::Number)), AnnotationStep::Serialize(Ty::Number));
    assert_eq!(a.ctx_ty_from_annotation(None, None), AnnotationStep::Ready(CtxTy::Static(Ty::Any)));
}

#[test]
fn resolving_swaps_the_type_scope_and_back() {
    let mut a = Analyzer::new();
    a.type_scopes.push(3);
    a.type_scopes.push(7);
    let step = a.begin_resolve_ctx_ty(CtxTy::Static(Ty::String));
    assert_eq!(step, CtxResolveStep::Done(Ty::String));
    assert_eq!(a.type_scopes, vec![3, 7]);
    assert_eq!(a.resolve_ctx_ty(step, Ty::Never), Ty::String);
    assert_eq!(a.type_scopes, vec![3, 7]);
    let step = a.begin_resolve_ctx_ty(CtxTy::WithCtx(5, 41));
    assert_eq!(step, CtxResolveStep::Resolve { node: 41, old_top: 7 });
    assert_eq!(a.type_scopes, vec![3, 5]);
    assert_eq!(a.resolve_ctx_ty(step, Ty::Number), Ty::Number);
    assert_eq!(a.type_scopes, vec![3, 7]);
}

#[test]
fn deleting_each_kind_of_argument() {
    assert_eq!(
        delete_steps(DeleteArgument::StaticMember { property: 5 }),
        vec![DeleteStep::EvalObject, DeleteStep::DeleteProperty { key: Some(Ty::StringLiteral(5)) }]
    );
    assert_eq!(
        delete_steps(DeleteArgument::ComputedMember),
        vec![DeleteStep::EvalObject, DeleteStep::EvalKey, DeleteStep::DeleteProperty { key: None }]
    );
    assert_eq!(
        delete_steps(DeleteArgument::PrivateField),
        vec![DeleteStep::Report(DeleteDiagnostic::PrivateField), DeleteStep::EvalObject]
    );
    assert_eq!(
        delete_steps(DeleteArgument::Identifier),
        vec![DeleteStep::Report(DeleteDiagnostic::UnqualifiedIdentifier)]
    );
    assert_eq!(delete_steps(DeleteArgument::Other), vec![DeleteStep::EvalArgument]);
}

#[test]
fn member_keys_and_optional_chains() {
    let mut a = Analyzer::new();
    assert_eq!(a.exec_key(MemberKey::Computed), KeyStep::EvalExpression);
    assert_eq!(a.exec_key(MemberKey::Static(4)), KeyStep::IdentifierName(4));
    assert_eq!(a.exec_key(MemberKey::PrivateField(6)), KeyStep::PrivateIdentifier(6));
    let obj = Ty::Object;
    let key = Ty::StringLiteral(4);
    assert_eq!(
        a.exec_member_expression_read_in_chain(false, obj, false, key),
        ChainRead { indeterminate: false, opens_indeterminate_scope: false, object: obj, key }
    );
    assert!(a.cf_scopes.is_empty());
    assert_eq!(
        a.exec_member_expression_read_in_chain(false, obj, true, key),
        ChainRead { indeterminate: true, opens_indeterminate_scope: true, object: obj, key }
    );
    assert_eq!(a.cf_scopes.len(), 1);
    assert!(a.cf_scopes[0].indeterminate && !a.cf_scopes[0].exited);
    assert_eq!(
        a.exec_member_expression_read_in_chain(true, obj, true, key),
        ChainRead { indeterminate: true, opens_indeterminate_scope: false, object: obj, key }
    );
    assert_eq!(a.cf_scopes.len(), 1);
    assert_eq!(a.exec_member_expression_read(true, Ty::Number, obj, key), (Ty::Number, (obj, key)));
    assert!(a.cf_scopes.is_empty());
    assert_eq!(a.exec_member_expression_read(false, Ty::Any, obj, key), (Ty::Any, (obj, key)));
    assert!(a.cf_scopes.is_empty());
}

#[test]
fn writing_a_member_reuses_the_read() {
    let a = Analyzer::new();
    assert_eq!(
        a.exec_member_expression_write(Some((Ty::Object, Ty::StringLiteral(2)))),
        WriteStep::SetProperty { object: Ty::Object, key: Ty::StringLiteral(2) }
    );
    assert_eq!(a.exec_member_expression_write(None), WriteStep::EvalObjectAndKey);
}

#[test]
fn a_class_declaration_binds_its_name_last() {
    let c = ClassModel {
        has_super_class: false,
        has_id: true,
        elements: vec![el(ClassElementKind::Property { has_value: true }, true)],
    };
    assert_eq!(
        Analyzer::new().init_class(&c),
        vec![
            ClassStep::EvalKey(0),
            ClassStep::PushVariableScope,
            ClassStep::PopVariableScope,
            ClassStep::CreateClass,
            ClassStep::EnterBody,
            ClassStep::BindName,
            ClassStep::SetStaticProperty(0),
            ClassStep::LeaveBody,
            ClassStep::InitName,
        ]
    );
}
