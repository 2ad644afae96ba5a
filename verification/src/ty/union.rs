//! Unions of types, kept normalized: literals absorbed by their general
//! type, `true | false` folded into `boolean`, and `any`, `unknown` and the
//! error type swallowing everything.
use vstd::prelude::*;
use rustc_hash::FxHashSet;
use vstd::multiset::Multiset;
use vstd::seq_lib::lemma_multiset_commutative;
use crate::collections::{fx_set_insert, fx_set_items};
use super::{
    Ty, TyId, is_top, is_non_value, is_complex, is_compound_member, complex_key, complex_of_key,
    complex_key_of, complex_from_key, lemma_complex_key_roundtrip, lemma_complex_key_injective,
};
use super::arena::{TyArena, seq_rank, lemma_seq_rank};

verus! {

broadcast use vstd::seq_lib::group_seq_properties, vstd::set_lib::group_set_properties;

/// The four families of literal types, each with its general type.
#[derive(Clone, Copy, Debug, PartialEq, Eq, Structural)]
pub enum LiteralKind {
    String,
    Number,
    BigInt,
    Symbol,
}

/// The general type of a family of literals.
pub open spec fn general_ty(kind: LiteralKind) -> Ty {
    match kind {
        LiteralKind::String => Ty::String,
        LiteralKind::Number => Ty::Number,
        LiteralKind::BigInt => Ty::BigInt,
        LiteralKind::Symbol => Ty::Symbol,
    }
}

/// The literal type of a family with the given payload.
pub open spec fn literal_ty(kind: LiteralKind, l: u64) -> Ty {
    match kind {
        LiteralKind::String => Ty::StringLiteral(l),
        LiteralKind::Number => Ty::NumericLiteral(l),
        LiteralKind::BigInt => Ty::BigIntLiteral(l),
        LiteralKind::Symbol => Ty::UniqueSymbol(l),
    }
}

/// Whether `t` is a literal of the family `kind`.
pub open spec fn is_literal_of(kind: LiteralKind, t: Ty) -> bool {
    match kind {
        LiteralKind::String => t is StringLiteral,
        LiteralKind::Number => t is NumericLiteral,
        LiteralKind::BigInt => t is BigIntLiteral,
        LiteralKind::Symbol => t is UniqueSymbol,
    }
}

/// The payload of a literal type.
pub open spec fn literal_payload(t: Ty) -> u64 {
    match t {
        Ty::StringLiteral(l) => l,
        Ty::NumericLiteral(l) => l,
        Ty::BigIntLiteral(l) => l,
        Ty::UniqueSymbol(l) => l,
        _ => 0,
    }
}

pub fn make_literal(kind: LiteralKind, l: u64) -> (t: Ty)
    ensures
        t == literal_ty(kind, l),
{
    match kind {
        LiteralKind::String => Ty::StringLiteral(l),
        LiteralKind::Number => Ty::NumericLiteral(l),
        LiteralKind::BigInt => Ty::BigIntLiteral(l),
        LiteralKind::Symbol => Ty::UniqueSymbol(l),
    }
}

/// The part of a union that holds one family of literals: none of them, the
/// general type, or a set of literals.
pub enum LiteralAble {
    Vacant,
    Any,
    Literals(FxHashSet<u64>),
}

impl Default for LiteralAble {
    fn default() -> (r: Self)
        ensures
            r is Vacant,
    {
        LiteralAble::Vacant
    }
}

impl LiteralAble {
    /// The literals held.
    pub open spec fn lits(&self) -> Set<u64> {
        match self {
            LiteralAble::Literals(s) => s@,
            _ => Set::empty(),
        }
    }

    /// Whether `t` is among the types this part stands for.
    pub open spec fn has(&self, kind: LiteralKind, t: Ty) -> bool {
        ||| (self is Any && t == general_ty(kind))
        ||| (is_literal_of(kind, t) && self.lits().contains(literal_payload(t)))
    }

    /// Adds a literal: the general type absorbs it, else it joins the set.
    pub fn add(&mut self, literal: u64)
        ensures
            *old(self) is Any ==> *final(self) is Any,
            !(*old(self) is Any) ==> *final(self) is Literals && final(self).lits() == old(
                self,
            ).lits().insert(literal),
    {
        match self {
            LiteralAble::Vacant => {
                let mut set: FxHashSet<u64> = FxHashSet::default();
                fx_set_insert(&mut set, literal);
                *self = LiteralAble::Literals(set);
            },
            LiteralAble::Any => {},
            LiteralAble::Literals(set) => {
                fx_set_insert(set, literal);
            },
        }
    }

    /// The types this part stands for: the general type, or each literal.
    pub fn for_each(&self, any: Ty, ctor: LiteralKind) -> (r: Vec<Ty>)
        requires
            any == general_ty(ctor),
        ensures
            r@.no_duplicates(),
            forall|t: Ty| r@.contains(t) <==> self.has(ctor, t),
    {
        match self {
            LiteralAble::Vacant => Vec::new(),
            LiteralAble::Any => {
                let mut r = Vec::new();
                r.push(any);
                assert(r@ =~= seq![any]);
                r
            },
            LiteralAble::Literals(set) => {
                let items = fx_set_items(set);
                let mut r: Vec<Ty> = Vec::new();
                let mut i: usize = 0;
                while i < items.len()
                    invariant
                        0 <= i <= items.len(),
                        items@.no_duplicates(),
                        items@.to_set() == set@,
                        r@.len() == i,
                        forall|j: int| 0 <= j < i ==> r@[j] == literal_ty(ctor, #[trigger] items@[j]),
                        r@.no_duplicates(),
                    decreases items.len() - i,
                {
                    let t = make_literal(ctor, items[i]);
                    assert forall|j: int| 0 <= j < r@.len() implies r@[j] != t by {
                        assert(items@[j] != items@[i as int]);
                    }
                    r.push(t);
                    i += 1;
                }
                assert forall|t: Ty| r@.contains(t) <==> self.has(ctor, t) by {
                    if self.has(ctor, t) {
                        assert(items@.to_set().contains(literal_payload(t)));
                        let j = choose|j: int| 0 <= j < items@.len() && items@[j] == literal_payload(t);
                        assert(r@[j] == t);
                    }
                    if r@.contains(t) {
                        let j = choose|j: int| 0 <= j < r@.len() && r@[j] == t;
                        assert(items@.to_set().contains(items@[j]));
                    }
                }
                r
            },
        }
    }
}


/// Normalization of a set of union members: a literal is dropped when its
/// general type is present, and `true` with `false` becomes `boolean`.
pub open spec fn norm_has(s: Set<Ty>, u: Ty) -> bool {
    match u {
        Ty::StringLiteral(_) => s.contains(u) && !s.contains(Ty::String),
        Ty::NumericLiteral(_) => s.contains(u) && !s.contains(Ty::Number),
        Ty::BigIntLiteral(_) => s.contains(u) && !s.contains(Ty::BigInt),
        Ty::UniqueSymbol(_) => s.contains(u) && !s.contains(Ty::Symbol),
        Ty::BooleanLiteral(b) => s.contains(u) && !s.contains(Ty::Boolean) && !s.contains(
            Ty::BooleanLiteral(!b),
        ),
        Ty::Boolean => s.contains(Ty::Boolean) || (s.contains(Ty::BooleanLiteral(true))
            && s.contains(Ty::BooleanLiteral(false))),
        _ => s.contains(u),
    }
}

/// The normalized form of a set of union members.
pub open spec fn norm(s: Set<Ty>) -> Set<Ty> {
    Set::new(|u: Ty| norm_has(s, u))
}

/// Normalizing after adding more members to a normalized set is the same as
/// normalizing all of them at once.
pub proof fn lemma_norm_absorb(a: Set<Ty>, b: Set<Ty>)
    ensures
        norm(norm(a).union(b)) == norm(a.union(b)),
{
    assert forall|u: Ty| norm_has(norm(a).union(b), u) == norm_has(a.union(b), u) by {
        assert(norm(a).contains(u) == norm_has(a, u));
        assert(norm(a).contains(Ty::Boolean) == norm_has(a, Ty::Boolean));
        assert(norm(a).contains(Ty::BooleanLiteral(true)) == norm_has(a, Ty::BooleanLiteral(true)));
        assert(norm(a).contains(Ty::BooleanLiteral(false)) == norm_has(a, Ty::BooleanLiteral(false)));
        assert(norm(a).contains(Ty::String) == norm_has(a, Ty::String));
        assert(norm(a).contains(Ty::Number) == norm_has(a, Ty::Number));
        assert(norm(a).contains(Ty::BigInt) == norm_has(a, Ty::BigInt));
        assert(norm(a).contains(Ty::Symbol) == norm_has(a, Ty::Symbol));
    }
    assert(norm(norm(a).union(b)) =~= norm(a.union(b)));
}

/// The resolved members of a union besides literals of the four families:
/// flags for the unit-like types, a pair for the booleans and a set of keys
/// for the object-like types.
pub struct CompoundUnion {
    pub string: LiteralAble,
    pub number: LiteralAble,
    pub bigint: LiteralAble,
    pub symbol: LiteralAble,
    pub object: bool,
    pub void: bool,
    pub null: bool,
    pub undefined: bool,
    /// (has_true, has_false)
    pub boolean: (bool, bool),
    pub complex: FxHashSet<u64>,
}

impl Default for CompoundUnion {
    fn default() -> (r: Self)
        ensures
            r.wf(),
            r.members() == Set::<Ty>::empty(),
    {
        let r = CompoundUnion {
            string: LiteralAble::Vacant,
            number: LiteralAble::Vacant,
            bigint: LiteralAble::Vacant,
            symbol: LiteralAble::Vacant,
            object: false,
            void: false,
            null: false,
            undefined: false,
            boolean: (false, false),
            complex: FxHashSet::default(),
        };
        assert(r.members() =~= Set::<Ty>::empty());
        r
    }
}

impl CompoundUnion {
    /// Every key of the complex set stands for a complex type.
    pub open spec fn wf(&self) -> bool {
        forall|k: u64| #[trigger] self.complex@.contains(k) ==> k < 6 * 0x1_0000_0000
    }

    /// Whether `t` is a member.
    pub open spec fn has(&self, t: Ty) -> bool {
        match t {
            Ty::String => self.string.has(LiteralKind::String, t),
            Ty::StringLiteral(_) => self.string.has(LiteralKind::String, t),
            Ty::Number => self.number.has(LiteralKind::Number, t),
            Ty::NumericLiteral(_) => self.number.has(LiteralKind::Number, t),
            Ty::BigInt => self.bigint.has(LiteralKind::BigInt, t),
            Ty::BigIntLiteral(_) => self.bigint.has(LiteralKind::BigInt, t),
            Ty::Symbol => self.symbol.has(LiteralKind::Symbol, t),
            Ty::UniqueSymbol(_) => self.symbol.has(LiteralKind::Symbol, t),
            Ty::Object => self.object,
            Ty::Void => self.void,
            Ty::Null => self.null,
            Ty::Undefined => self.undefined,
            Ty::Boolean => self.boolean.0 && self.boolean.1,
            Ty::BooleanLiteral(b) => if b {
                self.boolean.0 && !self.boolean.1
            } else {
                !self.boolean.0 && self.boolean.1
            },
            Ty::Record(_) => self.complex@.contains(complex_key(t)),
            Ty::Function(_) => self.complex@.contains(complex_key(t)),
            Ty::Constructor(_) => self.complex@.contains(complex_key(t)),
            Ty::Namespace(_) => self.complex@.contains(complex_key(t)),
            Ty::Intersection(_) => self.complex@.contains(complex_key(t)),
            Ty::Interface(_) => self.complex@.contains(complex_key(t)),
            _ => false,
        }
    }

    /// The members.
    pub open spec fn members(&self) -> Set<Ty> {
        Set::new(|t: Ty| self.has(t))
    }

    /// Adds a member, keeping the members normalized.
    pub fn add(&mut self, ty: Ty)
        requires
            old(self).wf(),
            is_compound_member(ty),
        ensures
            final(self).wf(),
            final(self).members() == norm(old(self).members().insert(ty)),
    {
        let ghost old_self = *self;
        match ty {
            Ty::Void => self.void = true,
            Ty::Null => self.null = true,
            Ty::Undefined => self.undefined = true,
            Ty::Object => self.object = true,
            Ty::String => self.string = LiteralAble::Any,
            Ty::Number => self.number = LiteralAble::Any,
            Ty::BigInt => self.bigint = LiteralAble::Any,
            Ty::Symbol => self.symbol = LiteralAble::Any,
            Ty::Boolean => self.boolean = (true, true),
            Ty::StringLiteral(s) => self.string.add(s),
            Ty::NumericLiteral(n) => self.number.add(n),
            Ty::BigIntLiteral(b) => self.bigint.add(b),
            Ty::UniqueSymbol(s) => self.symbol.add(s),
            Ty::BooleanLiteral(b) => {
                if b {
                    self.boolean.0 = true;
                } else {
                    self.boolean.1 = true;
                }
            },
            _ => {
                proof {
                    lemma_complex_key_roundtrip(ty);
                }
                let key = complex_key_of(ty);
                fx_set_insert(&mut self.complex, key);
            },
        }
        proof {
            let s = old_self.members().insert(ty);
            assert forall|u: Ty| #[trigger] self.has(u) == norm_has(s, u) by {
                assert(s.contains(u) == (old_self.has(u) || u == ty));
                assert(s.contains(Ty::String) == (old_self.has(Ty::String) || Ty::String == ty));
                assert(s.contains(Ty::Number) == (old_self.has(Ty::Number) || Ty::Number == ty));
                assert(s.contains(Ty::BigInt) == (old_self.has(Ty::BigInt) || Ty::BigInt == ty));
                assert(s.contains(Ty::Symbol) == (old_self.has(Ty::Symbol) || Ty::Symbol == ty));
                assert(s.contains(Ty::Boolean) == (old_self.has(Ty::Boolean) || Ty::Boolean == ty));
                assert(s.contains(Ty::BooleanLiteral(true)) == (old_self.has(Ty::BooleanLiteral(true))
                    || Ty::BooleanLiteral(true) == ty));
                assert(s.contains(Ty::BooleanLiteral(false)) == (old_self.has(
                    Ty::BooleanLiteral(false),
                ) || Ty::BooleanLiteral(false) == ty));
                if is_complex(u) && is_complex(ty) {
                    lemma_complex_key_injective(u, ty);
                }
            }
            assert(self.members() =~= norm(s));
        }
    }

    /// The object-like members, each once.
    fn complex_items(&self) -> (complex: Vec<Ty>)
        requires
            self.wf(),
        ensures
            complex@.no_duplicates(),
            forall|t: Ty| complex@.contains(t) <==> (is_complex(t) && self.complex@.contains(complex_key(t))),
            forall|i: int| 0 <= i < complex@.len() ==> family(#[trigger] complex@[i]) == 9,
    {
        let keys = fx_set_items(&self.complex);
        let mut complex: Vec<Ty> = Vec::new();
        let mut i: usize = 0;
        while i < keys.len()
            invariant
                0 <= i <= keys.len(),
                keys@.no_duplicates(),
                keys@.to_set() == self.complex@,
                self.wf(),
                complex@.len() == i,
                forall|j: int| 0 <= j < i ==> complex@[j] == complex_of_key(#[trigger] keys@[j]),
                forall|j: int| 0 <= j < i ==> family(#[trigger] complex@[j]) == 9,
                complex@.no_duplicates(),
            decreases keys.len() - i,
        {
            let t = complex_from_key(keys[i]);
            proof {
                assert(keys@.to_set().contains(keys@[i as int]));
                lemma_key_roundtrip(keys@[i as int]);
                assert forall|j: int| 0 <= j < complex@.len() implies complex@[j] != t by {
                    assert(keys@.to_set().contains(keys@[j]));
                    lemma_key_roundtrip(keys@[j]);
                    assert(keys@[j] != keys@[i as int]);
                }
            }
            complex.push(t);
            i += 1;
        }
        proof {
            assert forall|t: Ty| complex@.contains(t) <==> (is_complex(t) && self.complex@.contains(complex_key(t))) by {
                if complex@.contains(t) {
                    let j = choose|j: int| 0 <= j < complex@.len() && complex@[j] == t;
                    assert(keys@.to_set().contains(keys@[j]));
                    lemma_key_roundtrip(keys@[j]);
                }
                if is_complex(t) && self.complex@.contains(complex_key(t)) {
                    assert(keys@.to_set().contains(complex_key(t)));
                    let j = choose|j: int| 0 <= j < keys@.len() && keys@[j] == complex_key(t);
                    lemma_complex_key_roundtrip(t);
                    assert(complex@[j] == t);
                }
            }
        }
        complex
    }

    /// The members that are literals or general types of the four families.
    fn literal_items(&self) -> (r: Vec<Ty>)
        ensures
            r@.no_duplicates(),
            forall|t: Ty| r@.contains(t) <==> (family(t) < 4 && self.has(t)),
            forall|i: int| 0 <= i < r@.len() ==> family(#[trigger] r@[i]) < 4,
            by_family(r@),
    {
        let mut r = self.string.for_each(Ty::String, LiteralKind::String);
        assert forall|i: int| 0 <= i < r@.len() implies family(#[trigger] r@[i]) == 0 by {
            assert(r@.contains(r@[i]));
        }
        let part = self.number.for_each(Ty::Number, LiteralKind::Number);
        assert forall|i: int| 0 <= i < part@.len() implies family(#[trigger] part@[i]) == 1 by {
            assert(part@.contains(part@[i]));
        }
        proof {
            lemma_by_family_concat(r@, part@);
        }
        append_distinct(&mut r, part);
        let part = self.bigint.for_each(Ty::BigInt, LiteralKind::BigInt);
        assert forall|i: int| 0 <= i < part@.len() implies family(#[trigger] part@[i]) == 2 by {
            assert(part@.contains(part@[i]));
        }
        proof {
            lemma_by_family_concat(r@, part@);
        }
        append_distinct(&mut r, part);
        let part = self.symbol.for_each(Ty::Symbol, LiteralKind::Symbol);
        assert forall|i: int| 0 <= i < part@.len() implies family(#[trigger] part@[i]) == 3 by {
            assert(part@.contains(part@[i]));
        }
        proof {
            lemma_by_family_concat(r@, part@);
        }
        append_distinct(&mut r, part);
        r
    }

    /// The members that are unit-like types or booleans.
    fn unit_items(&self) -> (r: Vec<Ty>)
        ensures
            r@.no_duplicates(),
            forall|t: Ty| r@.contains(t) <==> (4 <= family(t) <= 8 && self.has(t)),
            forall|i: int| 0 <= i < r@.len() ==> 4 <= family(#[trigger] r@[i]) <= 8,
            by_family(r@),
    {
        let mut r: Vec<Ty> = Vec::new();
        push_if(&mut r, self.object, Ty::Object);
        push_if(&mut r, self.void, Ty::Void);
        push_if(&mut r, self.null, Ty::Null);
        push_if(&mut r, self.undefined, Ty::Undefined);
        let (has_true, has_false) = self.boolean;
        let b = if has_true && has_false {
            Ty::Boolean
        } else if has_true {
            Ty::BooleanLiteral(true)
        } else {
            Ty::BooleanLiteral(false)
        };
        push_if(&mut r, has_true || has_false, b);
        r
    }

    /// Every member, each once, family by family; literals of one family
    /// and object-like types come in the order of their hashed sets.
    pub fn for_each(&self) -> (r: Vec<Ty>)
        requires
            self.wf(),
        ensures
            r@.no_duplicates(),
            forall|t: Ty| r@.contains(t) <==> self.has(t),
            by_family(r@),
    {
        let mut r = self.literal_items();
        let units = self.unit_items();
        proof {
            lemma_by_family_concat(r@, units@);
        }
        append_distinct(&mut r, units);
        let complex = self.complex_items();
        proof {
            assert(by_family(complex@));
            lemma_by_family_concat(r@, complex@);
        }
        append_distinct(&mut r, complex);
        proof {
            assert forall|t: Ty| r@.contains(t) <==> self.has(t) by {
                if is_complex(t) {
                    lemma_complex_key_roundtrip(t);
                }
                assert(self.has(t) ==> family(t) <= 9);
            }
        }
        r
    }
}

/// Which part of a union a member lives in.
pub open spec fn family(t: Ty) -> int {
    match t {
        Ty::String | Ty::StringLiteral(_) => 0,
        Ty::Number | Ty::NumericLiteral(_) => 1,
        Ty::BigInt | Ty::BigIntLiteral(_) => 2,
        Ty::Symbol | Ty::UniqueSymbol(_) => 3,
        Ty::Object => 4,
        Ty::Void => 5,
        Ty::Null => 6,
        Ty::Undefined => 7,
        Ty::Boolean | Ty::BooleanLiteral(_) => 8,
        Ty::Record(_) | Ty::Function(_) | Ty::Constructor(_) | Ty::Namespace(_) | Ty::Intersection(_)
        | Ty::Interface(_) => 9,
        _ => 10,
    }
}

/// A key of the complex set names a complex type and is that type's key.
pub proof fn lemma_key_roundtrip(k: u64)
    requires
        k < 6 * 0x1_0000_0000,
    ensures
        is_complex(complex_of_key(k)),
        complex_key(complex_of_key(k)) == k,
{
    let id = k % 0x1_0000_0000;
    let tag = k / 0x1_0000_0000;
    assert(tag * 0x1_0000_0000 + id == k && tag < 6) by (nonlinear_arith)
        requires
            id == k % 0x1_0000_0000,
            tag == k / 0x1_0000_0000,
            k < 6 * 0x1_0000_0000,
    ;
}

/// Appends `t` when `cond` holds; `t` comes from a later part than the items present.
fn push_if(r: &mut Vec<Ty>, cond: bool, t: Ty)
    requires
        old(r)@.no_duplicates(),
        forall|i: int| 0 <= i < old(r)@.len() ==> 4 <= family(#[trigger] old(r)@[i]) < family(t),
    ensures
        final(r)@ == (if cond { old(r)@.push(t) } else { old(r)@ }),
        final(r)@.no_duplicates(),
        by_family(old(r)@) ==> by_family(final(r)@),
{
    if cond {
        proof {
            if by_family(old(r)@) {
                lemma_by_family_concat(old(r)@, seq![t]);
                assert(old(r)@ + seq![t] =~= old(r)@.push(t));
            }
        }
        r.push(t);
    }
}

/// Appends items that are distinct from each other and from those already present.
pub fn append_distinct(r: &mut Vec<Ty>, items: Vec<Ty>)
    requires
        old(r)@.no_duplicates(),
        items@.no_duplicates(),
        forall|i: int, j: int|
            0 <= i < old(r)@.len() && 0 <= j < items@.len() ==> old(r)@[i] != items@[j],
    ensures
        final(r)@ == old(r)@ + items@,
        final(r)@.no_duplicates(),
{
    let mut items = items;
    proof {
        vstd::seq_lib::lemma_no_dup_in_concat(old(r)@, items@);
    }
    r.append(&mut items);
}


/// What a union stands for at its core: nothing yet, one of the three types
/// that swallow everything, or a normalized set of resolved members.
#[verifier::ext_equal]
pub enum UnionBase {
    Never,
    Error,
    Any,
    Unknown,
    Members(Set<Ty>),
}

/// The meaning of a union: its core and the unresolved types it also holds,
/// counted with repetition.
#[verifier::ext_equal]
pub struct UnionView {
    pub base: UnionBase,
    pub unresolved: Multiset<Ty>,
}

pub open spec fn base_is_top(b: UnionBase) -> bool {
    b is Error || b is Any || b is Unknown
}

/// A union that no addition changes.
pub open spec fn outer_top(v: UnionView) -> bool {
    base_is_top(v.base) && v.unresolved.len() == 0
}

pub open spec fn top_base(t: Ty) -> UnionBase {
    match t {
        Ty::Error => UnionBase::Error,
        Ty::Any => UnionBase::Any,
        _ => UnionBase::Unknown,
    }
}

/// The types a core stands for.
pub open spec fn base_set(b: UnionBase) -> Set<Ty> {
    match b {
        UnionBase::Never => set![Ty::Never],
        UnionBase::Error => set![Ty::Error],
        UnionBase::Any => set![Ty::Any],
        UnionBase::Unknown => set![Ty::Unknown],
        UnionBase::Members(m) => m,
    }
}

/// Every type a union holds.
pub open spec fn view_members(v: UnionView) -> Set<Ty> {
    base_set(v.base).union(v.unresolved.dom())
}

/// The empty union.
pub open spec fn never_view() -> UnionView {
    UnionView { base: UnionBase::Never, unresolved: Multiset::empty() }
}

/// The core after adding a resolved member to a core that does not swallow it.
pub open spec fn base_insert(b: UnionBase, t: Ty) -> UnionBase {
    match b {
        UnionBase::Members(m) => UnionBase::Members(norm(m.insert(t))),
        _ => UnionBase::Members(norm(set![t])),
    }
}

/// The core after adding a nonempty set of resolved members to a core that
/// does not swallow them.
pub open spec fn base_merge(b: UnionBase, n: Set<Ty>) -> UnionBase {
    match b {
        UnionBase::Members(m) => UnionBase::Members(norm(m.union(n))),
        _ => UnionBase::Members(norm(n)),
    }
}

/// The meaning of a union after adding a type that is not itself a union.
pub open spec fn view_add(v: UnionView, t: Ty) -> UnionView {
    if outer_top(v) {
        v
    } else if is_top(t) {
        UnionView { base: top_base(t), unresolved: Multiset::empty() }
    } else if t is Never {
        v
    } else if t is Unresolved {
        UnionView { base: v.base, unresolved: v.unresolved.insert(t) }
    } else if base_is_top(v.base) {
        v
    } else {
        UnionView { base: base_insert(v.base, t), unresolved: v.unresolved }
    }
}

/// The meaning of a union after adding every member of a union meaning `w`.
pub open spec fn view_add_union(v: UnionView, w: UnionView) -> UnionView {
    if base_is_top(v.base) {
        v
    } else {
        match w.base {
            UnionBase::Never => UnionView { base: v.base, unresolved: v.unresolved.add(w.unresolved) },
            UnionBase::Members(n) => UnionView {
                base: base_merge(v.base, n),
                unresolved: v.unresolved.add(w.unresolved),
            },
            _ => UnionView { base: w.base, unresolved: v.unresolved },
        }
    }
}

/// Adding `t` is defined: a type-level entity that is not a value type may
/// only meet a union that swallows it.
pub open spec fn add_ok(v: UnionView, t: Ty) -> bool {
    is_non_value(t) ==> base_is_top(v.base)
}

/// A union of types, as built by successive additions.
pub enum UnionType {
    Never,
    Error,
    Any,
    Unknown,
    Compound(Box<CompoundUnion>),
    WithUnresolved(Box<UnionType>, Vec<Ty>),
}

impl Default for UnionType {
    fn default() -> (r: Self)
        ensures
            r is Never,
    {
        UnionType::Never
    }
}

/// `r` lists the members of `u`: its core, each once, then its unresolved
/// types in the order they were added.
pub open spec fn enumerates(r: Seq<Ty>, u: UnionType) -> bool {
    let k = r.len() - u.unresolved_seq().len();
    &&& k >= 0
    &&& r == r.take(k) + u.unresolved_seq()
    &&& r.take(k).no_duplicates()
    &&& r.take(k).to_set() == base_set(u.base())
    &&& by_family(r.take(k))
}

/// `s` lists strings first, then numbers, big integers, symbols, `object`,
/// `void`, `null`, `undefined`, booleans and object-like types.
pub open spec fn by_family(s: Seq<Ty>) -> bool {
    forall|i: int, j: int| 0 <= i < j < s.len() ==> family(#[trigger] s[i]) <= family(#[trigger] s[j])
}

/// Two lists in family order, the first of no later family than the
/// second, make one.
pub proof fn lemma_by_family_concat(a: Seq<Ty>, b: Seq<Ty>)
    requires
        by_family(a),
        by_family(b),
        forall|i: int, j: int| 0 <= i < a.len() && 0 <= j < b.len() ==> family(#[trigger] a[i]) <= family(
            #[trigger] b[j],
        ),
    ensures
        by_family(a + b),
{
    assert forall|i: int, j: int| 0 <= i < j < (a + b).len() implies family(#[trigger] (a + b)[i]) <= family(
        #[trigger] (a + b)[j],
    ) by {
        if j < a.len() {
            assert((a + b)[i] == a[i] && (a + b)[j] == a[j]);
        } else if i < a.len() {
            assert((a + b)[i] == a[i] && (a + b)[j] == b[j - a.len()]);
        } else {
            assert((a + b)[i] == b[i - a.len()] && (a + b)[j] == b[j - a.len()]);
        }
    }
}

/// How adding `ty` to the union `u0` shapes the result `u1`: a union that
/// swallows everything, or an added `never`, leaves it as it was; an added
/// `any`, `unknown` or error type becomes the union; an unresolved type is
/// appended to the unresolved ones (kept aside around the rest when there
/// were none); any other type that is not a union leaves the unresolved
/// types as they were.
#[verifier::opaque]
pub open spec fn add_shape(u0: UnionType, u1: UnionType, ty: Ty) -> bool {
    &&& (u0 is Error || u0 is Any || u0 is Unknown || ty is Never) ==> u1 == u0
    &&& !(u0 is Error || u0 is Any || u0 is Unknown) ==> {
        &&& ty is Error ==> u1 is Error
        &&& ty is Any ==> u1 is Any
        &&& ty is Unknown ==> u1 is Unknown
        &&& ty is Unresolved ==> match u0 {
            UnionType::WithUnresolved(b, ts) => u1 matches UnionType::WithUnresolved(b2, ts2) && *b2 == *b && ts2@
                == ts@.push(ty),
            _ => u1 matches UnionType::WithUnresolved(b2, ts2) && *b2 == u0 && ts2@ == seq![ty],
        }
        &&& !(ty is Unresolved || ty is Union || is_top(ty) || ty is Never) ==> u1.unresolved_seq()
            == u0.unresolved_seq()
    }
}

impl UnionType {
    pub open spec fn wf(&self) -> bool
        decreases self,
    {
        match self {
            UnionType::Compound(c) => c.wf() && exists|t: Ty| c.has(t),
            UnionType::WithUnresolved(s, t) => {
                &&& s.wf()
                &&& t@.len() > 0
                &&& forall|i: int| 0 <= i < t@.len() ==> t@[i] is Unresolved
            },
            _ => true,
        }
    }

    pub open spec fn base(&self) -> UnionBase
        decreases self,
    {
        match self {
            UnionType::Never => UnionBase::Never,
            UnionType::Error => UnionBase::Error,
            UnionType::Any => UnionBase::Any,
            UnionType::Unknown => UnionBase::Unknown,
            UnionType::Compound(c) => UnionBase::Members(c.members()),
            UnionType::WithUnresolved(s, _) => s.base(),
        }
    }

    /// The unresolved types, in the order the union lists them.
    pub open spec fn unresolved_seq(&self) -> Seq<Ty>
        decreases self,
    {
        match self {
            UnionType::WithUnresolved(s, t) => s.unresolved_seq() + t@,
            _ => Seq::empty(),
        }
    }

    pub open spec fn view(&self) -> UnionView {
        UnionView { base: self.base(), unresolved: self.unresolved_seq().to_multiset() }
    }

    /// Whether the union swallows every addition.
    pub fn is_top(&self) -> (r: bool)
        ensures
            r == (*self is Error || *self is Any || *self is Unknown),
    {
        match self {
            UnionType::Error | UnionType::Any | UnionType::Unknown => true,
            _ => false,
        }
    }

    /// Adds a type to the union: a union's members are added one by one,
    /// unresolved types are kept aside, and the rest join the core.
    pub fn add(&mut self, arena: &TyArena, ty: Ty)
        requires
            old(self).wf(),
            arena.wf(),
            arena.contains(ty),
            add_ok(old(self).view(), ty),
        ensures
            final(self).wf(),
            final(self).view() == arena.add_step(old(self).view(), ty),
            add_shape(*old(self), *final(self), ty),
        decreases (if ty is Union { 1nat } else { 0nat }), *old(self), 1nat,
    {
        broadcast use vstd::multiset::group_multiset_axioms, vstd::seq_lib::group_to_multiset_ensures;

        reveal(add_shape);
        let ghost v0 = self.view();
        proof {
            lemma_outer_top(*self);
            assert(Seq::<Ty>::empty().to_multiset() =~= Multiset::<Ty>::empty());
        }
        if self.is_top() {
            assert(self.view() =~= arena.add_step(v0, ty));
            return;
        }
        match ty {
            Ty::Error => {
                *self = UnionType::Error;
                assert(self.view() =~= arena.add_step(v0, ty));
                return;
            },
            Ty::Any => {
                *self = UnionType::Any;
                assert(self.view() =~= arena.add_step(v0, ty));
                return;
            },
            Ty::Unknown => {
                *self = UnionType::Unknown;
                assert(self.view() =~= arena.add_step(v0, ty));
                return;
            },
            Ty::Never => {
                assert(self.view() =~= arena.add_step(v0, ty));
                return;
            },
            _ => {},
        }
        let mut cur = UnionType::Never;
        std::mem::swap(&mut cur, self);
        let next: UnionType = match cur {
            UnionType::WithUnresolved(mut s, mut t) => {
                let ghost s0 = *s;
                let ghost t0 = t@;
                proof {
                    lemma_multiset_commutative(s0.unresolved_seq(), t0);
                    assert(t0.to_multiset().len() == t0.len());
                    assert(v0.unresolved == s0.view().unresolved.add(t0.to_multiset()));
                    assert(v0.unresolved.len() > 0);
                }
                if let Ty::Unresolved(_) = ty {
                    t.push(ty);
                    proof {
                        assert(s0.unresolved_seq() + t@ =~= (s0.unresolved_seq() + t0).push(ty));
                        assert((s0.unresolved_seq() + t0).push(ty).to_multiset() =~= (
                        s0.unresolved_seq() + t0).to_multiset().insert(ty));
                    }
                } else {
                    s.add(arena, ty);
                    proof {
                        lemma_multiset_commutative(s.unresolved_seq(), t0);
                        let sv = s0.view();
                        let mt = t0.to_multiset();
                        if let Ty::Union(j) = ty {
                            let w = arena.union_view(j);
                            assert(sv.unresolved.add(w.unresolved).add(mt) =~= sv.unresolved.add(
                                mt,
                            ).add(w.unresolved));
                        } else {
                            assert(s.view().unresolved == sv.unresolved);
                        }
                    }
                }
                let next = UnionType::WithUnresolved(s, t);
                proof {
                    assert(next.unresolved_seq() == s.unresolved_seq() + t@);
                    lemma_multiset_commutative(s.unresolved_seq(), t@);
                    if let Ty::Unresolved(_) = ty {
                        assert(next.view().unresolved =~= v0.unresolved.insert(ty));
                        assert(arena.add_step(v0, ty).unresolved =~= v0.unresolved.insert(ty));
                        assert(next.view() =~= arena.add_step(v0, ty));
                    } else if let Ty::Union(j) = ty {
                        assert(next.view().unresolved =~= arena.add_step(v0, ty).unresolved);
                        assert(next.view() =~= arena.add_step(v0, ty));
                    } else {
                        assert(next.view().unresolved =~= v0.unresolved);
                        assert(arena.add_step(v0, ty).unresolved =~= v0.unresolved);
                        assert(next.view() =~= arena.add_step(v0, ty));
                    }
                }
                next
            },
            prev => {
                proof {
                    assert(prev.unresolved_seq() =~= Seq::<Ty>::empty());
                    assert(v0.unresolved =~= Multiset::empty());
                }
                if let Ty::Unresolved(_) = ty {
                    proof {
                        assert(prev.unresolved_seq() + seq![ty] =~= seq![ty]);
                        assert(seq![ty] =~= Seq::<Ty>::empty().push(ty));
                        assert(Seq::<Ty>::empty().push(ty).to_multiset() =~= Seq::<Ty>::empty().to_multiset().insert(ty));
                    }
                    let t = vec![ty];
                    assert(t@ =~= seq![ty]);
                    let next = UnionType::WithUnresolved(Box::new(prev), t);
                    assert(next.unresolved_seq() =~= seq![ty]);
                    assert(next.view().unresolved =~= v0.unresolved.insert(ty));
                    assert(next.view() =~= arena.add_step(v0, ty));
                    next
                } else if let Ty::Union(j) = ty {
                    let mut next = prev;
                    next.add_members_of(arena, j);
                    assert(next.view() =~= arena.add_step(v0, ty));
                    next
                } else {
                    let mut c = match prev {
                        UnionType::Compound(c) => c,
                        _ => Box::new(CompoundUnion::default()),
                    };
                    let ghost m0 = c.members();
                    proof {
                        assert(prev is Never ==> m0 == Set::<Ty>::empty());
                        assert(m0.insert(ty) =~= set![ty] || v0.base == UnionBase::Members(m0));
                    }
                    c.add(ty);
                    proof {
                        lemma_norm_insert_member(m0, ty);
                        assert(c.has(norm_witness(m0, ty)));
                    }
                    let next = UnionType::Compound(c);
                    assert(next.view() =~= arena.add_step(v0, ty));
                    next
                }
            },
        };
        assert(next.view() =~= arena.add_step(v0, ty));
        *self = next;
    }

    /// Adds every member of the stored union `j` to a union that has no
    /// unresolved members and does not swallow them.
    fn add_members_of(&mut self, arena: &TyArena, j: TyId)
        requires
            old(self).wf(),
            arena.wf(),
            j < arena.unions@.len(),
            !(*old(self) is WithUnresolved),
            !base_is_top(old(self).base()),
        ensures
            final(self).wf(),
            final(self).view() == view_add_union(old(self).view(), arena.union_view(j)),
        decreases 1nat, *old(self), 0nat,
    {
        broadcast use vstd::multiset::group_multiset_axioms, vstd::seq_lib::group_to_multiset_ensures;

        let ghost v0 = self.view();
        let ghost u = arena.unions@[j as int];
        assert(arena.union_ok(j as int));
        let members = arena.unions[j as usize].for_each();
        proof {
            assert(v0.unresolved =~= Multiset::empty());
            let k = members@.len() - u.unresolved_seq().len();
            assert forall|i: int| 0 <= i < members@.len() implies view_members(u.view()).contains(
                #[trigger] members@[i],
            ) by {
                if i < k {
                    assert(members@.take(k)[i] == members@[i]);
                    assert(members@.take(k).to_set().contains(members@[i]));
                } else {
                    assert(members@[i] == u.unresolved_seq()[i - k]);
                    assert(u.unresolved_seq().contains(members@[i]));
                }
            }
        }
        let mut i: usize = 0;
        while i < members.len()
            invariant
                0 <= i <= members@.len(),
                arena.wf(),
                self.wf(),
                forall|x: int| 0 <= x < members@.len() ==> view_members(u.view()).contains(#[trigger] members@[x]),
                u == arena.unions@[j as int],
                j < arena.unions@.len(),
                self.view() == fold_view(v0, members@.take(i as int)),
            decreases members@.len() - i,
        {
            let m = members[i];
            proof {
                assert(arena.union_ok(j as int));
                assert(view_members(u.view()).contains(m));
            }
            self.add(arena, m);
            proof {
                assert(members@.take(i + 1).drop_last() =~= members@.take(i as int));
            }
            i += 1;
        }
        proof {
            assert(members@.take(members@.len() as int) =~= members@);
            lemma_flatten(v0, u, members@);
        }
    }

    /// Every member: the core's members, each once, then the unresolved types.
    pub fn for_each(&self) -> (r: Vec<Ty>)
        requires
            self.wf(),
        ensures
            enumerates(r@, *self),
        decreases self,
    {
        match self {
            UnionType::Never => {
                let r = vec![Ty::Never];
                assert(r@.take(1) =~= r@);
                assert(r@.to_set() =~= set![Ty::Never]);
                r
            },
            UnionType::Error => {
                let r = vec![Ty::Error];
                assert(r@.take(1) =~= r@);
                assert(r@.to_set() =~= set![Ty::Error]);
                r
            },
            UnionType::Any => {
                let r = vec![Ty::Any];
                assert(r@.take(1) =~= r@);
                assert(r@.to_set() =~= set![Ty::Any]);
                r
            },
            UnionType::Unknown => {
                let r = vec![Ty::Unknown];
                assert(r@.take(1) =~= r@);
                assert(r@.to_set() =~= set![Ty::Unknown]);
                r
            },
            UnionType::Compound(c) => {
                let r = c.for_each();
                assert(r@.take(r@.len() as int) =~= r@);
                assert(r@.to_set() =~= c.members());
                r
            },
            UnionType::WithUnresolved(s, t) => {
                let mut r = s.for_each();
                let ghost r0 = r@;
                let mut rest = t.clone();
                assert(rest@ =~= t@);
                r.append(&mut rest);
                proof {
                    let k0 = r0.len() - s.unresolved_seq().len();
                    assert(r@.take(k0) =~= r0.take(k0));
                    assert(r@ =~= r0.take(k0) + (s.unresolved_seq() + t@));
                }
                r
            },
        }
    }
}


impl TyArena {
    /// The meaning of a union after adding `t`, whose members, when `t` is a
    /// union stored here, are added one by one.
    pub open spec fn add_step(&self, v: UnionView, t: Ty) -> UnionView {
        match t {
            Ty::Union(j) => view_add_union(v, self.union_view(j)),
            _ => view_add(v, t),
        }
    }
}

/// The meaning of a union after adding each type of `s` in turn, none of them a union.
pub open spec fn fold_view(v: UnionView, s: Seq<Ty>) -> UnionView
    decreases s.len(),
{
    if s.len() == 0 {
        v
    } else {
        view_add(fold_view(v, s.drop_last()), s.last())
    }
}

proof fn lemma_fold_append(v: UnionView, p: Seq<Ty>, q: Seq<Ty>)
    ensures
        fold_view(v, p + q) == fold_view(fold_view(v, p), q),
    decreases q.len(),
{
    if q.len() == 0 {
        assert(p + q =~= p);
    } else {
        lemma_fold_append(v, p, q.drop_last());
        assert((p + q).drop_last() =~= p + q.drop_last());
    }
}

proof fn lemma_fold_unresolved(v: UnionView, q: Seq<Ty>)
    requires
        forall|i: int| 0 <= i < q.len() ==> q[i] is Unresolved,
    ensures
        outer_top(v) ==> fold_view(v, q) == v,
        !base_is_top(v.base) ==> fold_view(v, q) == (UnionView {
            base: v.base,
            unresolved: v.unresolved.add(q.to_multiset()),
        }),
    decreases q.len(),
{
    broadcast use vstd::multiset::group_multiset_axioms, vstd::seq_lib::group_to_multiset_ensures;

    if q.len() == 0 {
        assert(v.unresolved.add(q.to_multiset()) =~= v.unresolved);
    } else {
        lemma_fold_unresolved(v, q.drop_last());
        assert(q =~= q.drop_last().push(q.last()));
        assert(q.to_multiset() =~= q.drop_last().to_multiset().insert(q.last()));
        assert(v.unresolved.add(q.drop_last().to_multiset()).insert(q.last()) =~= v.unresolved.add(
            q.to_multiset(),
        ));
    }
}

/// Resolved members of a compound union are the types a union stores as such.
pub proof fn lemma_compound_members(c: CompoundUnion, t: Ty)
    requires
        c.has(t),
    ensures
        is_compound_member(t),
{
}

proof fn lemma_fold_members(v0: UnionView, p: Seq<Ty>)
    requires
        !base_is_top(v0.base),
        forall|i: int| 0 <= i < p.len() ==> is_compound_member(#[trigger] p[i]),
        p.len() > 0,
    ensures
        fold_view(v0, p) == (UnionView { base: base_merge(v0.base, p.to_set()), unresolved: v0.unresolved }),
    decreases p.len(),
{
    let x = p.last();
    if p.len() == 1 {
        assert(p.drop_last() =~= Seq::<Ty>::empty());
        assert(p.to_set() =~= set![x]);
        match v0.base {
            UnionBase::Members(m) => {
                assert(m.insert(x) =~= m.union(set![x]));
            },
            _ => {},
        }
    } else {
        let q = p.drop_last();
        lemma_fold_members(v0, q);
        assert(p.to_set() =~= q.to_set().insert(x));
        match v0.base {
            UnionBase::Members(m) => {
                lemma_norm_absorb(m.union(q.to_set()), set![x]);
                assert(norm(m.union(q.to_set())).insert(x) =~= norm(m.union(q.to_set())).union(set![x]));
                assert(m.union(q.to_set()).union(set![x]) =~= m.union(p.to_set()));
            },
            _ => {
                lemma_norm_absorb(q.to_set(), set![x]);
                assert(norm(q.to_set()).insert(x) =~= norm(q.to_set()).union(set![x]));
                assert(q.to_set().union(set![x]) =~= p.to_set());
            },
        }
    }
}

proof fn lemma_singleton_enum(p: Seq<Ty>, x: Ty)
    requires
        p.no_duplicates(),
        p.to_set() == set![x],
    ensures
        p == seq![x],
{
    assert(p.to_set().contains(x));
    let i = choose|i: int| 0 <= i < p.len() && p[i] == x;
    assert forall|j: int| 0 <= j < p.len() implies p[j] == x by {
        assert(p.to_set().contains(p[j]));
    }
    if p.len() > 1 {
        assert(p[0] == p[1]);
    }
    assert(p =~= seq![x]);
}

/// Adding, one by one, the members that `r` lists of union `u` to a union
/// with no unresolved members adds `u` as a whole.
pub proof fn lemma_flatten(v0: UnionView, u: UnionType, r: Seq<Ty>)
    requires
        enumerates(r, u),
        u.wf(),
        !base_is_top(v0.base),
        v0.unresolved.len() == 0,
    ensures
        fold_view(v0, r) == view_add_union(v0, u.view()),
{
    broadcast use vstd::multiset::group_multiset_axioms;

    let q = u.unresolved_seq();
    let k = r.len() - q.len();
    let p = r.take(k);
    lemma_unresolved_seq(u);
    lemma_fold_append(v0, p, q);
    match u.base() {
        UnionBase::Members(n) => {
            lemma_base_members(u);
            assert forall|i: int| 0 <= i < p.len() implies is_compound_member(#[trigger] p[i]) by {
                assert(p.to_set().contains(p[i]));
            }
            let t = union_witness(u);
            assert(p.to_set().contains(t));
            lemma_fold_members(v0, p);
            assert(fold_view(v0, p) == (UnionView { base: base_merge(v0.base, n), unresolved: v0.unresolved }));
            lemma_fold_unresolved(fold_view(v0, p), q);
            assert(fold_view(v0, r) == fold_view(fold_view(v0, p), q));
        },
        UnionBase::Never => {
            lemma_singleton_enum(p, Ty::Never);
            assert(p.drop_last() =~= Seq::<Ty>::empty());
            assert(fold_view(v0, p.drop_last()) == v0);
            assert(p.last() == Ty::Never);
            assert(fold_view(v0, p) == v0);
            lemma_fold_unresolved(fold_view(v0, p), q);
        },
        UnionBase::Error => {
            lemma_singleton_enum(p, Ty::Error);
            assert(p.drop_last() =~= Seq::<Ty>::empty());
            assert(fold_view(v0, p.drop_last()) == v0);
            assert(p.last() == Ty::Error);
            lemma_fold_unresolved(fold_view(v0, p), q);
            assert(v0.unresolved =~= Multiset::empty());
        },
        UnionBase::Any => {
            lemma_singleton_enum(p, Ty::Any);
            assert(p.drop_last() =~= Seq::<Ty>::empty());
            assert(fold_view(v0, p.drop_last()) == v0);
            assert(p.last() == Ty::Any);
            lemma_fold_unresolved(fold_view(v0, p), q);
            assert(v0.unresolved =~= Multiset::empty());
        },
        UnionBase::Unknown => {
            lemma_singleton_enum(p, Ty::Unknown);
            assert(p.drop_last() =~= Seq::<Ty>::empty());
            assert(fold_view(v0, p.drop_last()) == v0);
            assert(p.last() == Ty::Unknown);
            lemma_fold_unresolved(fold_view(v0, p), q);
            assert(v0.unresolved =~= Multiset::empty());
        },
    }
}

/// The unresolved part of a well-formed union holds only unresolved types.
pub proof fn lemma_unresolved_seq(u: UnionType)
    requires
        u.wf(),
    ensures
        forall|i: int| 0 <= i < u.unresolved_seq().len() ==> u.unresolved_seq()[i] is Unresolved,
    decreases u,
{
    match u {
        UnionType::WithUnresolved(s, _) => {
            lemma_unresolved_seq(*s);
        },
        _ => {},
    }
}

/// A well-formed union swallows every addition exactly when it is one of the
/// three types that swallow everything.
pub proof fn lemma_outer_top(u: UnionType)
    requires
        u.wf(),
    ensures
        outer_top(u.view()) == (u is Error || u is Any || u is Unknown),
{
    broadcast use vstd::seq_lib::group_to_multiset_ensures;

    if let UnionType::WithUnresolved(s, t) = u {
        assert(u.unresolved_seq().len() > 0);
        assert(u.unresolved_seq().to_multiset().len() == u.unresolved_seq().len());
    }
}

/// A member of the normalized set after inserting `t`.
pub open spec fn norm_witness(m: Set<Ty>, t: Ty) -> Ty {
    if norm_has(m.insert(t), t) {
        t
    } else {
        match t {
            Ty::StringLiteral(_) => Ty::String,
            Ty::NumericLiteral(_) => Ty::Number,
            Ty::BigIntLiteral(_) => Ty::BigInt,
            Ty::UniqueSymbol(_) => Ty::Symbol,
            _ => Ty::Boolean,
        }
    }
}

/// Inserting a resolved member leaves the normalized set nonempty.
pub proof fn lemma_norm_insert_member(m: Set<Ty>, t: Ty)
    requires
        is_compound_member(t),
    ensures
        norm(m.insert(t)).contains(norm_witness(m, t)),
{
}

/// A member of the core of a union whose core is a set of members.
pub open spec fn union_witness(u: UnionType) -> Ty
    decreases u,
{
    match u {
        UnionType::WithUnresolved(s, _) => union_witness(*s),
        UnionType::Compound(c) => choose|t: Ty| c.has(t),
        _ => Ty::Never,
    }
}

/// The core of a well-formed union, when a set of members, is a nonempty set
/// of resolved value types.
pub proof fn lemma_base_members(u: UnionType)
    requires
        u.wf(),
    ensures
        u.base() is Members ==> u.base()->Members_0.contains(union_witness(u)),
        u.base() is Members ==> forall|t: Ty| #[trigger] u.base()->Members_0.contains(t) ==> is_compound_member(t),
    decreases u,
{
    if let UnionType::WithUnresolved(s, _) = u {
        lemma_base_members(*s);
    } else if let UnionType::Compound(c) = u {
        let t = choose|t: Ty| c.has(t);
        assert(c.members().contains(t));
        assert forall|x: Ty| c.members().contains(x) implies is_compound_member(x) by {
            lemma_compound_members(*c, x);
        }
    }
}


/// Every member of `v` is a stored value type, not a union, of rank below `rank`.
pub open spec fn members_within(arena: TyArena, v: UnionView, rank: nat) -> bool {
    forall|m: Ty| #[trigger] view_members(v).contains(m) ==> {
        &&& !(m is Union)
        &&& !is_non_value(m)
        &&& arena.contains(m)
        &&& arena.rank(m) < rank
    }
}

/// The meaning of a union after adding each type of `s` in turn.
pub open spec fn fold_steps(arena: TyArena, v: UnionView, s: Seq<Ty>) -> UnionView
    decreases s.len(),
{
    if s.len() == 0 {
        v
    } else {
        arena.add_step(fold_steps(arena, v, s.drop_last()), s.last())
    }
}

/// Every addition of the types of `s` in turn is defined.
pub open spec fn steps_ok(arena: TyArena, v: UnionView, s: Seq<Ty>) -> bool {
    forall|i: int| 0 <= i < s.len() ==> add_ok(#[trigger] fold_steps(arena, v, s.take(i)), s[i])
}

/// When no type of `s` is a type-level entity, every addition is defined.
pub proof fn lemma_steps_ok(arena: TyArena, v: UnionView, s: Seq<Ty>)
    requires
        forall|i: int| 0 <= i < s.len() ==> !is_non_value(#[trigger] s[i]),
    ensures
        steps_ok(arena, v, s),
{
}

/// Normalizing adds no member but `boolean`.
proof fn lemma_norm_subset(s: Set<Ty>, u: Ty)
    requires
        norm(s).contains(u),
    ensures
        s.contains(u) || u == Ty::Boolean,
{
}

/// An addition keeps the members within a rank when the added type is.
pub proof fn lemma_step_within(arena: TyArena, v: UnionView, t: Ty, rank: nat)
    requires
        arena.wf(),
        members_within(arena, v, rank),
        arena.contains(t),
        arena.rank(t) < rank,
        add_ok(v, t),
    ensures
        members_within(arena, arena.add_step(v, t), rank),
{
    broadcast use vstd::multiset::group_multiset_axioms;

    let r = arena.add_step(v, t);
    assert forall|m: Ty| #[trigger] view_members(r).contains(m) implies {
        &&& !(m is Union)
        &&& !is_non_value(m)
        &&& arena.contains(m)
        &&& arena.rank(m) < rank
    } by {
        if let Ty::Union(j) = t {
            let w = arena.union_view(j);
            assert(arena.union_ok(j as int));
            if base_is_top(v.base) {
            } else {
                match w.base {
                    UnionBase::Members(n) => {
                        if base_set(r.base).contains(m) {
                            match v.base {
                                UnionBase::Members(m0) => lemma_norm_subset(m0.union(n), m),
                                _ => lemma_norm_subset(n, m),
                            }
                            assert(view_members(v).contains(m) || view_members(w).contains(m) || m
                                == Ty::Boolean);
                        } else {
                            assert(r.unresolved.count(m) > 0);
                            assert(view_members(v).contains(m) || view_members(w).contains(m));
                        }
                    },
                    UnionBase::Never => {
                        if base_set(r.base).contains(m) {
                            assert(view_members(v).contains(m));
                        } else {
                            assert(r.unresolved.count(m) > 0);
                            assert(view_members(v).contains(m) || view_members(w).contains(m));
                        }
                    },
                    _ => {
                        if base_set(r.base).contains(m) {
                            assert(view_members(w).contains(m));
                        } else {
                            assert(view_members(v).contains(m));
                        }
                    },
                }
            }
        } else {
            if outer_top(v) {
            } else if is_top(t) {
                assert(r.unresolved.count(m) == 0);
            } else if t is Never {
            } else if t is Unresolved {
                if m != t {
                    assert(view_members(v).contains(m));
                }
            } else if base_is_top(v.base) {
            } else {
                if base_set(r.base).contains(m) {
                    match v.base {
                        UnionBase::Members(m0) => lemma_norm_subset(m0.insert(t), m),
                        _ => lemma_norm_subset(set![t], m),
                    }
                    assert(view_members(v).contains(m) || m == t || m == Ty::Boolean);
                } else {
                    assert(view_members(v).contains(m));
                }
            }
        }
    }
}

/// Stores a new union of all of `types`, added in turn, however many there are.
pub fn alloc_union_of(arena: &mut TyArena, types: Vec<Ty>) -> (id: TyId)
    requires
        old(arena).wf(),
        forall|i: int| 0 <= i < types@.len() ==> old(arena).contains(#[trigger] types@[i]),
        steps_ok(*old(arena), never_view(), types@),
        old(arena).unions@.len() < u32::MAX,
    ensures
        final(arena).wf(),
        final(arena).extends(*old(arena)),
        id == old(arena).unions@.len(),
        final(arena).unions@.len() == old(arena).unions@.len() + 1,
        final(arena).union_view(id) == fold_steps(*old(arena), never_view(), types@),
        final(arena).rank(Ty::Union(id)) == seq_rank(*old(arena), types@) + 1,
        final(arena).intersections@ == old(arena).intersections@,
        final(arena).functions@ == old(arena).functions@,
        final(arena).constructors@ == old(arena).constructors@,
{
    let ghost rank = seq_rank(*arena, types@) + 1;
    let mut union = UnionType::Never;
    proof {
        assert(Seq::<Ty>::empty().to_multiset() =~= Multiset::<Ty>::empty());
        assert(union.view() =~= never_view());
        assert forall|m: Ty| #[trigger] view_members(never_view()).contains(m) implies m == Ty::Never by {
        }
    }
    let mut i: usize = 0;
    while i < types.len()
        invariant
            0 <= i <= types@.len(),
            arena.wf(),
            forall|x: int| 0 <= x < types@.len() ==> arena.contains(#[trigger] types@[x]),
            steps_ok(*arena, never_view(), types@),
            rank == seq_rank(*arena, types@) + 1,
            union.wf(),
            union.view() == fold_steps(*arena, never_view(), types@.take(i as int)),
            members_within(*arena, union.view(), rank),
        decreases types@.len() - i,
    {
        let t = types[i];
        proof {
            lemma_seq_rank(*arena, types@, i as int);
            assert(add_ok(fold_steps(*arena, never_view(), types@.take(i as int)), types@[i as int]));
            lemma_step_within(*arena, union.view(), t, rank);
        }
        union.add(arena, t);
        proof {
            assert(types@.take(i + 1).drop_last() =~= types@.take(i as int));
        }
        i += 1;
    }
    proof {
        assert(types@.take(types@.len() as int) =~= types@);
    }
    arena.alloc_union(union, Ghost(rank))
}

/// Builds the union of `types`: no type gives `never`, one type gives
/// itself, and more give a new stored union of all of them.
pub fn into_union(arena: &mut TyArena, types: Vec<Ty>) -> (r: Ty)
    requires
        old(arena).wf(),
        forall|i: int| 0 <= i < types@.len() ==> old(arena).contains(#[trigger] types@[i]),
        types@.len() >= 2 ==> steps_ok(*old(arena), never_view(), types@),
        types@.len() >= 2 ==> old(arena).unions@.len() < u32::MAX,
    ensures
        final(arena).wf(),
        final(arena).extends(*old(arena)),
        final(arena).contains(r),
        final(arena).intersections@ == old(arena).intersections@,
        types@.len() == 0 ==> r == Ty::Never && *final(arena) == *old(arena),
        types@.len() == 1 ==> r == types@[0] && *final(arena) == *old(arena),
        types@.len() >= 2 ==> {
            &&& r == Ty::Union(old(arena).unions@.len() as u32)
            &&& final(arena).unions@.len() == old(arena).unions@.len() + 1
            &&& final(arena).union_view(old(arena).unions@.len() as u32) == fold_steps(
                *old(arena),
                never_view(),
                types@,
            )
            &&& final(arena).rank(r) == seq_rank(*old(arena), types@) + 1
        },
        final(arena).functions@ == old(arena).functions@,
        final(arena).constructors@ == old(arena).constructors@,
{
    if types.len() == 0 {
        return Ty::Never;
    }
    if types.len() == 1 {
        return types[0];
    }
    let id = alloc_union_of(arena, types);
    Ty::Union(id)
}

} // verus!
