//! Import and export declarations.
use vstd::prelude::*;
use crate::ty::Ty;
use crate::analyzer::Analyzer;

verus! {

/// The identity of a node of the analyzed source.
pub type NodeId = u64;

/// What an `export default` exports.
#[derive(Clone, Copy, Debug, PartialEq, Eq, Structural)]
pub enum ExportDefaultModel {
    Function { has_id: bool, node: NodeId },
    Class { has_id: bool, node: NodeId },
    Interface { node: NodeId },
    Expression { node: NodeId },
}

/// An import or export declaration.
pub enum ModuleDeclModel {
    /// `import ... from source`: the local binding of each specifier, if the
    /// import has a specifier list, and whether the source module is one the
    /// analysis knows.
    Import { specifiers: Option<Vec<NodeId>>, source_known: bool },
    /// `export ...`: whether it re-exports from another module, and its
    /// declaration if it has one.
    ExportNamed { has_source: bool, declaration: Option<NodeId> },
    ExportDefault(ExportDefaultModel),
    ExportAll,
    /// `export = expression`.
    TsExportAssignment { expression: NodeId },
    /// `export as namespace name`.
    TsNamespaceExport,
}

/// A step of declaring a module declaration's bindings.
#[derive(Clone, Copy, Debug, PartialEq, Eq, Structural)]
pub enum DeclAction {
    /// Declare the import's local binding and initialize it to `value`.
    DeclareImport { local: NodeId, value: Ty },
    DeclareDeclaration(NodeId),
    DeclareFunction(NodeId),
    DeclareClass(NodeId),
    DeclareInterface(NodeId),
}

/// A step of initializing a module declaration.
#[derive(Clone, Copy, Debug, PartialEq, Eq, Structural)]
pub enum InitAction {
    InitDeclaration(NodeId),
    ExecFunction(NodeId),
    ExecClass(NodeId),
    InitClass(NodeId),
    InitInterface(NodeId),
    ExecExpression(NodeId),
}

/// Declaring a declaration is defined: the bindings of an import from a
/// known module are not yet handled.
pub open spec fn declare_defined(d: ModuleDeclModel) -> bool {
    match d {
        ModuleDeclModel::Import { specifiers, source_known } => !(source_known && specifiers is Some
            && specifiers->0@.len() > 0),
        _ => true,
    }
}

/// The steps of declaring `d`: each import specifier's local, in order, set
/// to unknown; a named export's own declaration; a default export's named
/// function or class, or interface; nothing else.
pub open spec fn declare_spec(d: ModuleDeclModel) -> Seq<DeclAction> {
    match d {
        ModuleDeclModel::Import { specifiers, source_known } => match specifiers {
            Some(s) => s@.map_values(|l: NodeId| DeclAction::DeclareImport { local: l, value: Ty::Unknown }),
            None => Seq::empty(),
        },
        ModuleDeclModel::ExportNamed { has_source, declaration } => if has_source {
            Seq::empty()
        } else {
            match declaration {
                Some(n) => seq![DeclAction::DeclareDeclaration(n)],
                None => Seq::empty(),
            }
        },
        ModuleDeclModel::ExportDefault(e) => match e {
            ExportDefaultModel::Function { has_id, node } => if has_id {
                seq![DeclAction::DeclareFunction(node)]
            } else {
                Seq::empty()
            },
            ExportDefaultModel::Class { has_id, node } => if has_id {
                seq![DeclAction::DeclareClass(node)]
            } else {
                Seq::empty()
            },
            ExportDefaultModel::Interface { node } => seq![DeclAction::DeclareInterface(node)],
            ExportDefaultModel::Expression { .. } => Seq::empty(),
        },
        _ => Seq::empty(),
    }
}

/// Initializing is defined: `export as namespace` is not yet handled.
pub open spec fn init_defined(d: ModuleDeclModel) -> bool {
    !(d is TsNamespaceExport)
}

/// The steps of initializing `d`: a named export's own declaration; a
/// default export's function run, class run (initialized when it has a
/// name), interface, or expression evaluated; an `export =` expression
/// evaluated; nothing else.
pub open spec fn init_spec(d: ModuleDeclModel) -> Seq<InitAction> {
    match d {
        ModuleDeclModel::ExportNamed { has_source, declaration } => if has_source {
            Seq::empty()
        } else {
            match declaration {
                Some(n) => seq![InitAction::InitDeclaration(n)],
                None => Seq::empty(),
            }
        },
        ModuleDeclModel::ExportDefault(e) => match e {
            ExportDefaultModel::Function { node, .. } => seq![InitAction::ExecFunction(node)],
            ExportDefaultModel::Class { has_id, node } => if has_id {
                seq![InitAction::InitClass(node)]
            } else {
                seq![InitAction::ExecClass(node)]
            },
            ExportDefaultModel::Interface { node } => seq![InitAction::InitInterface(node)],
            ExportDefaultModel::Expression { node } => seq![InitAction::ExecExpression(node)],
        },
        ModuleDeclModel::TsExportAssignment { expression } => seq![InitAction::ExecExpression(expression)],
        _ => Seq::empty(),
    }
}

impl Analyzer {
    /// The steps of declaring the bindings of a module declaration.
    pub fn declare_module_declaration(&self, d: &ModuleDeclModel) -> (a: Vec<DeclAction>)
        requires
            declare_defined(*d),
        ensures
            a@ == declare_spec(*d),
    {
        match d {
            ModuleDeclModel::Import { specifiers, .. } => match specifiers {
                Some(s) => {
                    let mut a: Vec<DeclAction> = Vec::new();
                    let mut i: usize = 0;
                    while i < s.len()
                        invariant
                            0 <= i <= s@.len(),
                            a@ == s@.take(i as int).map_values(
                                |l: NodeId| DeclAction::DeclareImport { local: l, value: Ty::Unknown },
                            ),
                        decreases s@.len() - i,
                    {
                        a.push(DeclAction::DeclareImport { local: s[i], value: Ty::Unknown });
                        i += 1;
                        proof {
                            assert(a@ =~= s@.take(i as int).map_values(
                                |l: NodeId| DeclAction::DeclareImport { local: l, value: Ty::Unknown },
                            ));
                        }
                    }
                    proof {
                        assert(s@.take(s@.len() as int) =~= s@);
                    }
                    a
                },
                None => Vec::new(),
            },
            ModuleDeclModel::ExportNamed { has_source, declaration } => {
                if *has_source {
                    return Vec::new();
                }
                match declaration {
                    Some(n) => vec![DeclAction::DeclareDeclaration(*n)],
                    None => Vec::new(),
                }
            },
            ModuleDeclModel::ExportDefault(e) => match e {
                ExportDefaultModel::Function { has_id, node } => if *has_id {
                    vec![DeclAction::DeclareFunction(*node)]
                } else {
                    Vec::new()
                },
                ExportDefaultModel::Class { has_id, node } => if *has_id {
                    vec![DeclAction::DeclareClass(*node)]
                } else {
                    Vec::new()
                },
                ExportDefaultModel::Interface { node } => vec![DeclAction::DeclareInterface(*node)],
                ExportDefaultModel::Expression { .. } => Vec::new(),
            },
            _ => Vec::new(),
        }
    }

    /// The steps of initializing a module declaration.
    pub fn init_module_declaration(&self, d: &ModuleDeclModel) -> (a: Vec<InitAction>)
        requires
            init_defined(*d),
        ensures
            a@ == init_spec(*d),
    {
        match d {
            ModuleDeclModel::ExportNamed { has_source, declaration } => {
                if *has_source {
                    return Vec::new();
                }
                match declaration {
                    Some(n) => vec![InitAction::InitDeclaration(*n)],
                    None => Vec::new(),
                }
            },
            ModuleDeclModel::ExportDefault(e) => match e {
                ExportDefaultModel::Function { node, .. } => vec![InitAction::ExecFunction(*node)],
                ExportDefaultModel::Class { has_id, node } => if *has_id {
                    vec![InitAction::InitClass(*node)]
                } else {
                    vec![InitAction::ExecClass(*node)]
                },
                ExportDefaultModel::Interface { node } => vec![InitAction::InitInterface(*node)],
                ExportDefaultModel::Expression { node } => vec![InitAction::ExecExpression(*node)],
            },
            ModuleDeclModel::TsExportAssignment { expression } => vec![InitAction::ExecExpression(*expression)],
            _ => Vec::new(),
        }
    }
}

/// Whether a default export declares a binding: a function or class with
/// a name, or an interface.
pub open spec fn default_export_named(e: ExportDefaultModel) -> bool {
    match e {
        ExportDefaultModel::Function { has_id, .. } => has_id,
        ExportDefaultModel::Class { has_id, .. } => has_id,
        ExportDefaultModel::Interface { .. } => true,
        ExportDefaultModel::Expression { .. } => false,
    }
}

/// The node a default export exports.
pub open spec fn default_export_node(e: ExportDefaultModel) -> NodeId {
    match e {
        ExportDefaultModel::Function { node, .. } => node,
        ExportDefaultModel::Class { node, .. } => node,
        ExportDefaultModel::Interface { node } => node,
        ExportDefaultModel::Expression { node } => node,
    }
}

/// Declaring a default export declares exactly the exported declaration
/// when it has a name, as what it is (a function as a function, a class
/// as a class, an interface as an interface), and nothing otherwise; and
/// initializing it then acts on that same node, once.
pub proof fn law_default_export_declares_named_declarations(e: ExportDefaultModel)
    ensures
        declare_spec(ModuleDeclModel::ExportDefault(e)).len() == (if default_export_named(e) { 1int } else { 0int }),
        default_export_named(e) ==> declare_spec(ModuleDeclModel::ExportDefault(e))[0] == match e {
            ExportDefaultModel::Function { node, .. } => DeclAction::DeclareFunction(node),
            ExportDefaultModel::Class { node, .. } => DeclAction::DeclareClass(node),
            _ => DeclAction::DeclareInterface(default_export_node(e)),
        },
        init_spec(ModuleDeclModel::ExportDefault(e)).len() == 1,
        init_action_node(init_spec(ModuleDeclModel::ExportDefault(e))[0]) == default_export_node(e),
{
}

/// The node an initialization step acts on.
pub open spec fn init_action_node(a: InitAction) -> NodeId {
    match a {
        InitAction::InitDeclaration(n) => n,
        InitAction::ExecFunction(n) => n,
        InitAction::ExecClass(n) => n,
        InitAction::InitClass(n) => n,
        InitAction::InitInterface(n) => n,
        InitAction::ExecExpression(n) => n,
    }
}

/// The node a declaration step declares.
pub open spec fn decl_action_node(a: DeclAction) -> NodeId {
    match a {
        DeclAction::DeclareImport { local, .. } => local,
        DeclAction::DeclareDeclaration(n) => n,
        DeclAction::DeclareFunction(n) => n,
        DeclAction::DeclareClass(n) => n,
        DeclAction::DeclareInterface(n) => n,
    }
}

/// Every declaration that an export declares is initialized too: for each
/// declared node of an export there is an initialization of that node.
pub proof fn law_declared_exports_are_initialized(d: ModuleDeclModel, k: int)
    requires
        !(d is Import),
        0 <= k < declare_spec(d).len(),
    ensures
        exists|j: int|
            0 <= j < init_spec(d).len() && init_action_node(#[trigger] init_spec(d)[j]) == decl_action_node(
                declare_spec(d)[k],
            ),
{
    assert(init_action_node(init_spec(d)[0]) == decl_action_node(declare_spec(d)[k]));
}

/// Declaring an import whose source is not a known module declares each
/// specifier's local binding once, in order, as unknown; an import with no
/// specifier list declares nothing; and initializing an import does
/// nothing.
pub proof fn law_import_declares_each_specifier(d: ModuleDeclModel, k: int)
    requires
        d is Import,
        declare_defined(d),
    ensures
        (d->specifiers is None) ==> declare_spec(d).len() == 0,
        (d->specifiers is Some) ==> declare_spec(d).len() == d->specifiers->0@.len(),
        (d->specifiers is Some) && 0 <= k < d->specifiers->0@.len() ==> (declare_spec(d)[k] == (DeclAction::DeclareImport {
            local: d->specifiers->0@[k],
            value: Ty::Unknown,
        })),
        init_spec(d).len() == 0,
{
}

/// A re-export (`export ... from`), `export *` and `export as namespace`
/// declare nothing; a local named export declares and initializes exactly
/// its own declaration, if it has one; `export =` declares nothing and
/// evaluates its expression.
pub proof fn law_exports_declare_only_their_declarations(d: ModuleDeclModel)
    ensures
        (d is ExportNamed && d->has_source) ==> declare_spec(d).len() == 0 && init_spec(d).len() == 0,
        (d is ExportAll || d is TsNamespaceExport) ==> declare_spec(d).len() == 0 && init_spec(d).len() == 0,
        (d is ExportNamed && !d->has_source) ==> {
            &&& declare_spec(d).len() == (if d->declaration is Some { 1int } else { 0int })
            &&& init_spec(d).len() == declare_spec(d).len()
            &&& d->declaration is Some ==> decl_action_node(declare_spec(d)[0]) == d->declaration->0
                && init_action_node(init_spec(d)[0]) == d->declaration->0
        },
        (d is TsExportAssignment) ==> declare_spec(d).len() == 0 && init_spec(d) == seq![
            InitAction::ExecExpression(d->expression),
        ],
{
}

} // verus!
