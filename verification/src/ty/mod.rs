//! Types of the analyzed program, held as plain values: primitive types,
//! literal types, and indices into a [`arena::TyArena`] for the composite ones.
use vstd::prelude::*;

pub mod arena;
pub mod callable;
pub mod ctx;
pub mod union;
pub mod union_laws;
pub mod interface;
pub mod intersection;
pub mod matching;
pub mod matching_laws;
pub mod signature_laws;

verus! {

/// An interned string (a property name or the text of a string literal).
pub type AtomId = u64;

/// The identity of a program symbol.
pub type SymbolId = u64;

/// An index into one of the tables of a [`arena::TyArena`].
pub type TyId = u32;

/// A type that names something not yet resolved.
#[derive(Clone, Copy, Debug, PartialEq, Eq, Structural)]
pub enum UnresolvedType {
    /// `infer T` inside a conditional type.
    InferType(SymbolId),
    /// A reference to a type declaration not yet resolved.
    TypeReference(SymbolId),
    /// The type of a variable not yet initialized.
    Variable(SymbolId),
}

/// A type.
#[derive(Clone, Copy, Debug, PartialEq, Eq, Structural)]
pub enum Ty {
    Error,
    Any,
    Unknown,
    Never,
    Void,
    Null,
    Undefined,
    Object,
    String,
    Number,
    BigInt,
    Symbol,
    Boolean,
    StringLiteral(AtomId),
    /// A number literal, identified by the bit pattern of its value.
    NumericLiteral(u64),
    BigIntLiteral(AtomId),
    BooleanLiteral(bool),
    UniqueSymbol(SymbolId),
    Record(TyId),
    Function(TyId),
    Constructor(TyId),
    Namespace(TyId),
    Intersection(TyId),
    Interface(TyId),
    Union(TyId),
    Unresolved(UnresolvedType),
    Generic(TyId),
    Intrinsic(TyId),
}

/// `Error`, `Any` and `Unknown`: types that swallow every other member of a union.
pub open spec fn is_top(t: Ty) -> bool {
    t is Error || t is Any || t is Unknown
}

/// Type-level entities that are not types of values.
pub open spec fn is_non_value(t: Ty) -> bool {
    t is Generic || t is Intrinsic
}

/// Object-like types that a union keeps by identity.
pub open spec fn is_complex(t: Ty) -> bool {
    t is Record || t is Function || t is Constructor || t is Namespace || t is Intersection
        || t is Interface
}

/// Types that a union stores among its resolved members.
pub open spec fn is_compound_member(t: Ty) -> bool {
    !is_top(t) && !(t is Never) && !(t is Union) && !(t is Unresolved) && !is_non_value(t)
}

pub open spec fn complex_tag(t: Ty) -> u64 {
    match t {
        Ty::Record(_) => 0,
        Ty::Function(_) => 1,
        Ty::Constructor(_) => 2,
        Ty::Namespace(_) => 3,
        Ty::Intersection(_) => 4,
        _ => 5,
    }
}

pub open spec fn complex_id(t: Ty) -> u32 {
    match t {
        Ty::Record(i) => i,
        Ty::Function(i) => i,
        Ty::Constructor(i) => i,
        Ty::Namespace(i) => i,
        Ty::Intersection(i) => i,
        Ty::Interface(i) => i,
        _ => 0,
    }
}

/// The key under which a union's set of complex members holds `t`.
pub open spec fn complex_key(t: Ty) -> u64 {
    (complex_tag(t) * 0x1_0000_0000 + complex_id(t)) as u64
}

/// The complex type that `key` stands for.
pub open spec fn complex_of_key(key: u64) -> Ty {
    let id = (key % 0x1_0000_0000) as u32;
    let tag = key / 0x1_0000_0000;
    if tag == 0 {
        Ty::Record(id)
    } else if tag == 1 {
        Ty::Function(id)
    } else if tag == 2 {
        Ty::Constructor(id)
    } else if tag == 3 {
        Ty::Namespace(id)
    } else if tag == 4 {
        Ty::Intersection(id)
    } else {
        Ty::Interface(id)
    }
}

pub proof fn lemma_complex_key_roundtrip(t: Ty)
    requires
        is_complex(t),
    ensures
        complex_of_key(complex_key(t)) == t,
        complex_key(t) < 6 * 0x1_0000_0000,
{
    let tag = complex_tag(t);
    let id = complex_id(t);
    assert(tag <= 5);
    let k = tag * 0x1_0000_0000 + id;
    assert(k / 0x1_0000_0000 == tag && k % 0x1_0000_0000 == id) by (nonlinear_arith)
        requires
            k == tag * 0x1_0000_0000 + id,
            0 <= id < 0x1_0000_0000,
            0 <= tag <= 5,
    ;
}

pub proof fn lemma_complex_key_injective(a: Ty, b: Ty)
    requires
        is_complex(a),
        is_complex(b),
    ensures
        (complex_key(a) == complex_key(b)) == (a == b),
{
    lemma_complex_key_roundtrip(a);
    lemma_complex_key_roundtrip(b);
}

/// The key of a complex type, computed.
pub fn complex_key_of(t: Ty) -> (key: u64)
    requires
        is_complex(t),
    ensures
        key == complex_key(t),
{
    let (tag, id): (u64, u32) = match t {
        Ty::Record(i) => (0, i),
        Ty::Function(i) => (1, i),
        Ty::Constructor(i) => (2, i),
        Ty::Namespace(i) => (3, i),
        Ty::Intersection(i) => (4, i),
        Ty::Interface(i) => (5, i),
        _ => (5, 0),
    };
    tag * 0x1_0000_0000 + id as u64
}

/// The complex type that a key of a union's complex set stands for.
pub fn complex_from_key(key: u64) -> (t: Ty)
    ensures
        t == complex_of_key(key),
{
    let id = (key % 0x1_0000_0000) as u32;
    let tag = key / 0x1_0000_0000;
    if tag == 0 {
        Ty::Record(id)
    } else if tag == 1 {
        Ty::Function(id)
    } else if tag == 2 {
        Ty::Constructor(id)
    } else if tag == 3 {
        Ty::Namespace(id)
    } else if tag == 4 {
        Ty::Intersection(id)
    } else {
        Ty::Interface(id)
    }
}

} // verus!
