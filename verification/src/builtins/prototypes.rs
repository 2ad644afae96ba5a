//! The prototypes of builtin objects: the members their instances inherit.
use vstd::prelude::*;
use crate::ty::Ty;
use crate::ty::arena::TyArena;
use crate::ty::callable::FunctionType;

verus! {

/// The prototype of a builtin object: its name, the prototype it inherits
/// from, and its own members with their types, in declaration order.
pub struct Prototype {
    pub name: &'static str,
    pub parent: Option<Box<Prototype>>,
    pub properties: Vec<(&'static str, Ty)>,
}

/// The members of a prototype as text and types.
pub open spec fn members_of(p: Prototype) -> Seq<(Seq<char>, Ty)> {
    p.properties@.map_values(|e: (&'static str, Ty)| (e.0@, e.1))
}

/// The types the builtins share: signatures of pure functions that take
/// nothing and return a boolean, a string, or something unknown.
pub struct EntityFactory {
    pub pure_fn_returns_boolean: Ty,
    pub pure_fn_returns_string: Ty,
    pub pure_fn_returns_unknown: Ty,
}

/// The signature `() => ret`.
pub open spec fn pure_fn_sig(c: FunctionType, ret: Ty) -> bool {
    &&& c.type_params@.len() == 0
    &&& c.this_type is None
    &&& c.params@.len() == 0
    &&& c.rest_param is None
    &&& c.return_type == ret
}

fn pure_fn(arena: &mut TyArena, ret: Ty) -> (t: Ty)
    requires
        old(arena).wf(),
        old(arena).functions@.len() < u32::MAX,
        !(ret is Union || ret is Intersection || ret is Function || ret is Constructor),
    ensures
        final(arena).wf(),
        final(arena).extends(*old(arena)),
        t == Ty::Function(old(arena).functions@.len() as u32),
        final(arena).functions@.len() == old(arena).functions@.len() + 1,
        pure_fn_sig(final(arena).functions@[old(arena).functions@.len() as int], ret),
        final(arena).unions@ == old(arena).unions@,
        final(arena).intersections@ == old(arena).intersections@,
        final(arena).constructors@ == old(arena).constructors@,
{
    let c = FunctionType {
        type_params: Vec::new(),
        this_type: None,
        params: Vec::new(),
        rest_param: None,
        return_type: ret,
    };
    proof {
        let constraints = c.type_params@.map_values(
            |p: crate::ty::callable::GenericParam| if p.constraint is Some { p.constraint->0 } else { Ty::Never },
        );
        assert(constraints =~= Seq::<Ty>::empty());
        assert(c.params@.map_values(|p: (bool, Ty)| p.1) =~= Seq::<Ty>::empty());
        let s = constraints + c.params@.map_values(|p: (bool, Ty)| p.1) + seq![Ty::Never, Ty::Never, ret];
        assert(s =~= seq![Ty::Never, Ty::Never, ret]);
        assert(seq![Ty::Never, Ty::Never, ret].drop_last() =~= seq![Ty::Never, Ty::Never]);
        assert(seq![Ty::Never, Ty::Never].drop_last() =~= seq![Ty::Never]);
        assert(seq![Ty::Never].drop_last() =~= Seq::<Ty>::empty());
    }
    arena.alloc_function(c)
}

impl EntityFactory {
    /// Stores the shared signatures in `arena`.
    pub fn new(arena: &mut TyArena) -> (f: Self)
        requires
            old(arena).wf(),
            old(arena).functions@.len() + 3 < u32::MAX,
        ensures
            final(arena).wf(),
            final(arena).extends(*old(arena)),
            final(arena).functions@.len() == old(arena).functions@.len() + 3,
            f.pure_fn_returns_boolean == Ty::Function(old(arena).functions@.len() as u32),
            f.pure_fn_returns_string == Ty::Function((old(arena).functions@.len() + 1) as u32),
            f.pure_fn_returns_unknown == Ty::Function((old(arena).functions@.len() + 2) as u32),
            pure_fn_sig(final(arena).functions@[old(arena).functions@.len() as int], Ty::Boolean),
            pure_fn_sig(final(arena).functions@[old(arena).functions@.len() + 1int], Ty::String),
            pure_fn_sig(final(arena).functions@[old(arena).functions@.len() + 2int], Ty::Unknown),
    {
        let ghost n = arena.functions@.len();
        let b = pure_fn(arena, Ty::Boolean);
        let ghost a1 = *arena;
        let s = pure_fn(arena, Ty::String);
        proof {
            assert(arena.functions@[n as int] == a1.functions@[n as int]);
        }
        let ghost a2 = *arena;
        let u = pure_fn(arena, Ty::Unknown);
        proof {
            assert(arena.functions@[n as int] == a2.functions@[n as int]);
            assert(arena.functions@[n + 1int] == a2.functions@[n + 1int]);
        }
        EntityFactory { pure_fn_returns_boolean: b, pure_fn_returns_string: s, pure_fn_returns_unknown: u }
    }
}

/// The root prototype, `Object.prototype`; no member of its own is modelled.
pub fn create_object_prototype(factory: &EntityFactory) -> (p: Prototype)
    ensures
        p.name@ == "Object"@,
        p.parent is None,
        members_of(p) == Seq::<(Seq<char>, Ty)>::empty(),
{
    let p = Prototype { name: "Object", parent: None, properties: Vec::new() };
    proof {
        assert(members_of(p) =~= Seq::<(Seq<char>, Ty)>::empty());
    }
    p
}

/// The members of `Boolean.prototype`.
pub open spec fn boolean_members(f: EntityFactory) -> Seq<(Seq<char>, Ty)> {
    seq![("valueOf"@, f.pure_fn_returns_boolean)]
}

/// `Boolean.prototype`: inherits from `Object.prototype`.
pub fn create_boolean_prototype(factory: &EntityFactory) -> (p: Prototype)
    ensures
        p.name@ == "Boolean"@,
        p.parent matches Some(o) && o.name@ == "Object"@ && o.parent is None && members_of(*o) == Seq::<(Seq<char>, Ty)>::empty(),
        members_of(p) == boolean_members(*factory),
{
    let p = Prototype {
        name: "Boolean",
        parent: Some(Box::new(create_object_prototype(factory))),
        properties: vec![("valueOf", factory.pure_fn_returns_boolean)],
    };
    proof {
        assert(members_of(p) =~= boolean_members(*factory));
    }
    p
}

/// The members of `String.prototype`, in declaration order.
pub open spec fn string_members(f: EntityFactory) -> Seq<(Seq<char>, Ty)> {
    seq![
        ("anchor"@, f.pure_fn_returns_string),
        ("at"@, f.pure_fn_returns_unknown),
        ("big"@, f.pure_fn_returns_string),
        ("blink"@, f.pure_fn_returns_string),
        ("bold"@, f.pure_fn_returns_string),
        ("charAt"@, f.pure_fn_returns_string),
        ("charCodeAt"@, f.pure_fn_returns_unknown),
        ("codePointAt"@, f.pure_fn_returns_unknown),
        ("concat"@, f.pure_fn_returns_string),
        ("endsWith"@, f.pure_fn_returns_unknown),
        ("fixed"@, f.pure_fn_returns_string),
        ("fontcolor"@, f.pure_fn_returns_string),
        ("fontsize"@, f.pure_fn_returns_string),
        ("includes"@, f.pure_fn_returns_unknown),
        ("indexOf"@, f.pure_fn_returns_unknown),
        ("italics"@, f.pure_fn_returns_string),
        ("lastIndexOf"@, f.pure_fn_returns_unknown),
        ("link"@, f.pure_fn_returns_string),
        ("localeCompare"@, f.pure_fn_returns_unknown),
        ("match"@, f.pure_fn_returns_unknown),
        ("matchAll"@, f.pure_fn_returns_unknown),
        ("normalize"@, f.pure_fn_returns_string),
        ("padEnd"@, f.pure_fn_returns_string),
        ("padStart"@, f.pure_fn_returns_string),
        ("repeat"@, f.pure_fn_returns_string),
        ("replace"@, f.pure_fn_returns_unknown),
        ("replaceAll"@, f.pure_fn_returns_unknown),
        ("search"@, f.pure_fn_returns_unknown),
        ("slice"@, f.pure_fn_returns_string),
        ("small"@, f.pure_fn_returns_string),
        ("split"@, f.pure_fn_returns_unknown),
        ("startsWith"@, f.pure_fn_returns_unknown),
        ("strike"@, f.pure_fn_returns_string),
        ("sub"@, f.pure_fn_returns_string),
        ("substr"@, f.pure_fn_returns_string),
        ("substring"@, f.pure_fn_returns_string),
        ("sup"@, f.pure_fn_returns_string),
        ("toLocaleLowerCase"@, f.pure_fn_returns_string),
        ("toLocaleUpperCase"@, f.pure_fn_returns_string),
        ("toLowerCase"@, f.pure_fn_returns_string),
        ("toString"@, f.pure_fn_returns_string),
        ("toUpperCase"@, f.pure_fn_returns_string),
        ("trim"@, f.pure_fn_returns_string),
        ("trimEnd"@, f.pure_fn_returns_string),
        ("trimLeft"@, f.pure_fn_returns_string),
        ("trimRight"@, f.pure_fn_returns_string),
        ("trimStart"@, f.pure_fn_returns_string),
        ("valueOf"@, f.pure_fn_returns_string)
    ]
}

/// `String.prototype`: inherits from `Object.prototype`.
pub fn create_string_prototype(factory: &EntityFactory) -> (p: Prototype)
    ensures
        p.name@ == "String"@,
        p.parent matches Some(o) && o.name@ == "Object"@ && o.parent is None && members_of(*o) == Seq::<(Seq<char>, Ty)>::empty(),
        members_of(p) == string_members(*factory),
{
    let p = Prototype {
        name: "String",
        parent: Some(Box::new(create_object_prototype(factory))),
        properties: vec![
            ("anchor", factory.pure_fn_returns_string),
            ("at", factory.pure_fn_returns_unknown),
            ("big", factory.pure_fn_returns_string),
            ("blink", factory.pure_fn_returns_string),
            ("bold", factory.pure_fn_returns_string),
            ("charAt", factory.pure_fn_returns_string),
            ("charCodeAt", factory.pure_fn_returns_unknown),
            ("codePointAt", factory.pure_fn_returns_unknown),
            ("concat", factory.pure_fn_returns_string),
            ("endsWith", factory.pure_fn_returns_unknown),
            ("fixed", factory.pure_fn_returns_string),
            ("fontcolor", factory.pure_fn_returns_string),
            ("fontsize", factory.pure_fn_returns_string),
            ("includes", factory.pure_fn_returns_unknown),
            ("indexOf", factory.pure_fn_returns_unknown),
            ("italics", factory.pure_fn_returns_string),
            ("lastIndexOf", factory.pure_fn_returns_unknown),
            ("link", factory.pure_fn_returns_string),
            ("localeCompare", factory.pure_fn_returns_unknown),
            ("match", factory.pure_fn_returns_unknown),
            ("matchAll", factory.pure_fn_returns_unknown),
            ("normalize", factory.pure_fn_returns_string),
            ("padEnd", factory.pure_fn_returns_string),
            ("padStart", factory.pure_fn_returns_string),
            ("repeat", factory.pure_fn_returns_string),
            ("replace", factory.pure_fn_returns_unknown),
            ("replaceAll", factory.pure_fn_returns_unknown),
            ("search", factory.pure_fn_returns_unknown),
            ("slice", factory.pure_fn_returns_string),
            ("small", factory.pure_fn_returns_string),
            ("split", factory.pure_fn_returns_unknown),
            ("startsWith", factory.pure_fn_returns_unknown),
            ("strike", factory.pure_fn_returns_string),
            ("sub", factory.pure_fn_returns_string),
            ("substr", factory.pure_fn_returns_string),
            ("substring", factory.pure_fn_returns_string),
            ("sup", factory.pure_fn_returns_string),
            ("toLocaleLowerCase", factory.pure_fn_returns_string),
            ("toLocaleUpperCase", factory.pure_fn_returns_string),
            ("toLowerCase", factory.pure_fn_returns_string),
            ("toString", factory.pure_fn_returns_string),
            ("toUpperCase", factory.pure_fn_returns_string),
            ("trim", factory.pure_fn_returns_string),
            ("trimEnd", factory.pure_fn_returns_string),
            ("trimLeft", factory.pure_fn_returns_string),
            ("trimRight", factory.pure_fn_returns_string),
            ("trimStart", factory.pure_fn_returns_string),
            ("valueOf", factory.pure_fn_returns_string)
        ],
    };
    proof {
        assert(members_of(p) =~= string_members(*factory));
    }
    p
}

} // verus!
