//! Interface types: a record of properties, call and construct signatures,
//! and methods keyed by name or by symbol, built up by extending.
use vstd::prelude::*;
use rustc_hash::FxHashMap;
use super::{Ty, TyId, AtomId, SymbolId, UnresolvedType};
use super::arena::TyArena;
use crate::collections::{fx_map_extend, fx_map_get};

verus! {

/// The key of a property.
#[derive(Clone, Copy, Debug, PartialEq, Eq, Structural)]
pub enum PropertyKeyType {
    StringLiteral(AtomId),
    /// A number literal key, held as the atom of its JavaScript string form,
    /// which is the name the property is stored under.
    NumericLiteral(AtomId),
    UniqueSymbol(SymbolId),
    /// Any string, number or symbol.
    AnyString,
    AnyNumber,
    AnySymbol,
}

/// Properties keyed by name or by symbol.
pub struct RecordType {
    pub string_keyed: FxHashMap<AtomId, Ty>,
    pub symbol_keyed: FxHashMap<SymbolId, Ty>,
}

impl Default for RecordType {
    fn default() -> (r: Self)
        ensures
            r.string_keyed@ == Map::<AtomId, Ty>::empty(),
            r.symbol_keyed@ == Map::<SymbolId, Ty>::empty(),
    {
        RecordType { string_keyed: FxHashMap::default(), symbol_keyed: FxHashMap::default() }
    }
}

/// The type a record gives for a key: the property's type when it has one,
/// an error otherwise.
pub open spec fn record_property(strings: Map<AtomId, Ty>, symbols: Map<SymbolId, Ty>, key: PropertyKeyType) -> Ty {
    match key {
        PropertyKeyType::StringLiteral(s) | PropertyKeyType::NumericLiteral(s) => if strings.dom().contains(s) {
            strings[s]
        } else {
            Ty::Error
        },
        PropertyKeyType::UniqueSymbol(s) => if symbols.dom().contains(s) {
            symbols[s]
        } else {
            Ty::Error
        },
        _ => Ty::Error,
    }
}

impl RecordType {
    /// Adds the properties of `other`; on a shared key, `other`'s wins.
    pub fn extend(&mut self, other: &RecordType)
        ensures
            final(self).string_keyed@ == old(self).string_keyed@.union_prefer_right(other.string_keyed@),
            final(self).symbol_keyed@ == old(self).symbol_keyed@.union_prefer_right(other.symbol_keyed@),
    {
        fx_map_extend(&mut self.string_keyed, &other.string_keyed);
        fx_map_extend(&mut self.symbol_keyed, &other.symbol_keyed);
    }

    /// The type of the property under `key`.
    pub fn get_property(&self, key: PropertyKeyType) -> (r: Ty)
        ensures
            r == record_property(self.string_keyed@, self.symbol_keyed@, key),
    {
        let found = match key {
            PropertyKeyType::StringLiteral(s) | PropertyKeyType::NumericLiteral(s) => fx_map_get(&self.string_keyed, s),
            PropertyKeyType::UniqueSymbol(s) => fx_map_get(&self.symbol_keyed, s),
            _ => None,
        };
        match found {
            Some(t) => t,
            None => Ty::Error,
        }
    }

    /// Whether the record has no property.
    pub fn is_empty(&self) -> (r: bool)
        ensures
            r == (self.string_keyed@.is_empty() && self.symbol_keyed@.is_empty()),
    {
        self.string_keyed.is_empty() && self.symbol_keyed.is_empty()
    }
}

/// The parts of an interface.
pub struct InterfaceTypeInner {
    pub record: RecordType,
    /// Call and construct signatures.
    pub callables: Vec<Ty>,
    /// Methods by name, as indices of function types.
    pub string_keyed_methods: FxHashMap<AtomId, TyId>,
    /// Methods by symbol, as indices of function types.
    pub symbol_keyed_methods: FxHashMap<SymbolId, TyId>,
    /// Extended types not yet resolved.
    pub unresolved_extends: Vec<UnresolvedType>,
}

impl Default for InterfaceTypeInner {
    fn default() -> (r: Self)
        ensures
            r.view() == empty_interface(),
    {
        InterfaceTypeInner {
            record: RecordType::default(),
            callables: Vec::new(),
            string_keyed_methods: FxHashMap::default(),
            symbol_keyed_methods: FxHashMap::default(),
            unresolved_extends: Vec::new(),
        }
    }
}

/// An interface type.
pub struct InterfaceType(pub InterfaceTypeInner);

/// What an interface holds, as plain values.
pub struct InterfaceView {
    pub strings: Map<AtomId, Ty>,
    pub symbols: Map<SymbolId, Ty>,
    pub callables: Seq<Ty>,
    pub string_methods: Map<AtomId, TyId>,
    pub symbol_methods: Map<SymbolId, TyId>,
    pub unresolved: Seq<UnresolvedType>,
}

pub open spec fn empty_interface() -> InterfaceView {
    InterfaceView {
        strings: Map::empty(),
        symbols: Map::empty(),
        callables: Seq::empty(),
        string_methods: Map::empty(),
        symbol_methods: Map::empty(),
        unresolved: Seq::empty(),
    }
}

impl InterfaceTypeInner {
    pub open spec fn view(&self) -> InterfaceView {
        InterfaceView {
            strings: self.record.string_keyed@,
            symbols: self.record.symbol_keyed@,
            callables: self.callables@,
            string_methods: self.string_keyed_methods@,
            symbol_methods: self.symbol_keyed_methods@,
            unresolved: self.unresolved_extends@,
        }
    }
}

/// `v` after taking in what the interface `w` holds; its unresolved
/// extends stay its own.
pub open spec fn merge_interface(v: InterfaceView, w: InterfaceView) -> InterfaceView {
    InterfaceView {
        strings: v.strings.union_prefer_right(w.strings),
        symbols: v.symbols.union_prefer_right(w.symbols),
        callables: v.callables + w.callables,
        string_methods: v.string_methods.union_prefer_right(w.string_methods),
        symbol_methods: v.symbol_methods.union_prefer_right(w.symbol_methods),
        unresolved: v.unresolved,
    }
}

/// Extending by `ty` is defined: no namespace is reached, and every
/// interface and intersection reached is stored.
pub open spec fn extend_ok(arena: TyArena, ty: Ty) -> bool
    decreases arena.rank(ty), 1nat, 0nat,
{
    match ty {
        Ty::Namespace(_) => false,
        Ty::Interface(i) => (i as int) < arena.interfaces@.len(),
        Ty::Intersection(j) => (j as int) < arena.intersections@.len() && extend_seq_ok(
            arena,
            arena.intersections@[j as int]@,
            arena.rank(ty),
        ),
        _ => true,
    }
}

pub open spec fn extend_seq_ok(arena: TyArena, s: Seq<Ty>, bound: nat) -> bool
    decreases bound, 0nat, s.len(),
{
    if s.len() == 0 {
        true
    } else {
        extend_seq_ok(arena, s.drop_last(), bound) && arena.rank(s.last()) < bound && extend_ok(arena, s.last())
    }
}

/// What extending an interface holding `v` by `ty` gives: a call or
/// construct signature joins the callables; an interface's contents are
/// taken in; an intersection's types extend it in turn; an unresolved type
/// is kept aside; anything else changes nothing.
pub open spec fn extend_view(arena: TyArena, v: InterfaceView, ty: Ty) -> InterfaceView
    decreases arena.rank(ty), 1nat, 0nat,
{
    match ty {
        Ty::Function(_) | Ty::Constructor(_) => InterfaceView { callables: v.callables.push(ty), ..v },
        Ty::Interface(i) => merge_interface(v, arena.interfaces@[i as int].0.view()),
        Ty::Intersection(j) => if (j as int) < arena.intersections@.len() {
            extend_seq(arena, v, arena.intersections@[j as int]@, arena.rank(ty))
        } else {
            v
        },
        Ty::Unresolved(u) => InterfaceView { unresolved: v.unresolved.push(u), ..v },
        _ => v,
    }
}

pub open spec fn extend_seq(arena: TyArena, v: InterfaceView, s: Seq<Ty>, bound: nat) -> InterfaceView
    decreases bound, 0nat, s.len(),
{
    if s.len() == 0 {
        v
    } else if arena.rank(s.last()) < bound {
        extend_view(arena, extend_seq(arena, v, s.drop_last(), bound), s.last())
    } else {
        extend_seq(arena, v, s.drop_last(), bound)
    }
}

impl InterfaceTypeInner {
    /// Extends the interface by `ty`, a type it is declared to extend.
    pub fn extend(&mut self, arena: &TyArena, ty: Ty)
        requires
            arena.wf(),
            arena.contains(ty),
            extend_ok(*arena, ty),
        ensures
            final(self).view() == extend_view(*arena, old(self).view(), ty),
        decreases arena.rank(ty),
    {
        match ty {
            Ty::Function(_) | Ty::Constructor(_) => {
                self.callables.push(ty);
            },
            Ty::Interface(i) => {
                let other = &arena.interfaces[i as usize].0;
                self.record.extend(&other.record);
                let mut callables = other.callables.clone();
                proof {
                    assert(callables@ =~= other.callables@);
                }
                self.callables.append(&mut callables);
                fx_map_extend(&mut self.string_keyed_methods, &other.string_keyed_methods);
                fx_map_extend(&mut self.symbol_keyed_methods, &other.symbol_keyed_methods);
            },
            Ty::Intersection(j) => {
                let types = arena.intersections[j as usize].clone();
                proof {
                    assert(types@ =~= arena.intersections@[j as int]@);
                    assert(arena.intersection_ok(j as int));
                }
                let ghost v0 = self.view();
                let mut k: usize = 0;
                while k < types.len()
                    invariant
                        0 <= k <= types@.len(),
                        arena.wf(),
                        ty == Ty::Intersection(j),
                        (j as int) < arena.intersections@.len(),
                        types@ == arena.intersections@[j as int]@,
                        arena.intersection_ok(j as int),
                        extend_seq_ok(*arena, types@, arena.rank(ty)),
                        self.view() == extend_seq(*arena, v0, types@.take(k as int), arena.rank(ty)),
                    decreases types@.len() - k,
                {
                    let t = types[k];
                    proof {
                        assert(types@.take(k + 1).drop_last() =~= types@.take(k as int));
                        assert(types@.take(k + 1).last() == t);
                        lemma_extend_seq_ok_at(*arena, types@, arena.rank(ty), k as int);
                    }
                    self.extend(arena, t);
                    k += 1;
                }
                proof {
                    assert(types@.take(types@.len() as int) =~= types@);
                }
            },
            Ty::Unresolved(u) => {
                self.unresolved_extends.push(u);
            },
            _ => {},
        }
    }
}

/// Every type of a sequence that may extend an interface may do so.
pub proof fn lemma_extend_seq_ok_at(arena: TyArena, s: Seq<Ty>, bound: nat, k: int)
    requires
        extend_seq_ok(arena, s, bound),
        0 <= k < s.len(),
    ensures
        arena.rank(s[k]) < bound,
        extend_ok(arena, s[k]),
    decreases s.len(),
{
    if k < s.len() - 1 {
        lemma_extend_seq_ok_at(arena, s.drop_last(), bound, k);
    }
}

/// The type an interface gives for a key: a method under that name or
/// symbol, else what its record gives.
pub open spec fn interface_property(v: InterfaceView, key: PropertyKeyType) -> Ty {
    match key {
        PropertyKeyType::StringLiteral(s) | PropertyKeyType::NumericLiteral(s) => if v.string_methods.dom().contains(s) {
            Ty::Function(v.string_methods[s])
        } else {
            record_property(v.strings, v.symbols, key)
        },
        PropertyKeyType::UniqueSymbol(s) => if v.symbol_methods.dom().contains(s) {
            Ty::Function(v.symbol_methods[s])
        } else {
            record_property(v.strings, v.symbols, key)
        },
        _ => record_property(v.strings, v.symbols, key),
    }
}

/// Whether an interface holds nothing at all.
pub open spec fn interface_empty(v: InterfaceView) -> bool {
    &&& v.strings.is_empty()
    &&& v.symbols.is_empty()
    &&& v.callables.len() == 0
    &&& v.string_methods.is_empty()
    &&& v.symbol_methods.is_empty()
    &&& v.unresolved.len() == 0
}

impl InterfaceType {
    /// The type of the property under `key`.
    pub fn get_interface_property(&self, key: PropertyKeyType) -> (r: Ty)
        ensures
            r == interface_property(self.0.view(), key),
    {
        let inner = &self.0;
        match key {
            PropertyKeyType::StringLiteral(s) | PropertyKeyType::NumericLiteral(s) => {
                if let Some(property) = fx_map_get(&inner.string_keyed_methods, s) {
                    return Ty::Function(property);
                }
            },
            PropertyKeyType::UniqueSymbol(s) => {
                if let Some(property) = fx_map_get(&inner.symbol_keyed_methods, s) {
                    return Ty::Function(property);
                }
            },
            _ => {},
        }
        inner.record.get_property(key)
    }

    /// Whether the interface has no property, signature, method or pending extend.
    pub fn is_empty(&self) -> (r: bool)
        ensures
            r == interface_empty(self.0.view()),
    {
        let inner = &self.0;
        inner.record.is_empty() && inner.callables.len() == 0 && inner.string_keyed_methods.is_empty()
            && inner.symbol_keyed_methods.is_empty() && inner.unresolved_extends.len() == 0
    }
}

/// A new interface holds nothing.
pub proof fn law_new_interface_is_empty()
    ensures
        interface_empty(empty_interface()),
{
}

/// Extending by an interface makes its named methods found under their
/// names, whatever the extended interface held before.
pub proof fn law_extended_methods_are_found(arena: TyArena, v: InterfaceView, i: TyId, s: AtomId)
    requires
        (i as int) < arena.interfaces@.len(),
        arena.interfaces@[i as int].0.view().string_methods.dom().contains(s),
    ensures
        interface_property(extend_view(arena, v, Ty::Interface(i)), PropertyKeyType::StringLiteral(s)) == Ty::Function(
            arena.interfaces@[i as int].0.view().string_methods[s],
        ),
{
}

/// Extending never loses a call signature already held, and adds one for
/// each signature extended by.
pub proof fn law_extend_keeps_callables(arena: TyArena, v: InterfaceView, ty: Ty)
    requires
        ty is Function || ty is Constructor,
    ensures
        extend_view(arena, v, ty).callables == v.callables.push(ty),
        extend_view(arena, v, ty).unresolved == v.unresolved,
{
}

/// Extending by an interface makes its symbol-keyed methods found under
/// their symbols, whatever the extending interface held before.
pub proof fn law_extended_symbol_methods_are_found(arena: TyArena, v: InterfaceView, i: TyId, s: SymbolId)
    requires
        (i as int) < arena.interfaces@.len(),
        arena.interfaces@[i as int].0.view().symbol_methods.dom().contains(s),
    ensures
        interface_property(extend_view(arena, v, Ty::Interface(i)), PropertyKeyType::UniqueSymbol(s)) == Ty::Function(
            arena.interfaces@[i as int].0.view().symbol_methods[s],
        ),
{
}

/// Extending by an interface inherits the properties of its record, keyed
/// by name or by symbol: where no method takes the key, the property's type
/// is found under it, whatever the extending interface's record held.
pub proof fn law_extended_properties_are_found(arena: TyArena, v: InterfaceView, i: TyId, key: PropertyKeyType)
    requires
        (i as int) < arena.interfaces@.len(),
    ensures
        ({
            let w = arena.interfaces@[i as int].0.view();
            let r = interface_property(extend_view(arena, v, Ty::Interface(i)), key);
            &&& (key matches PropertyKeyType::UniqueSymbol(s) ==> (w.symbols.dom().contains(s)
                && !w.symbol_methods.dom().contains(s) && !v.symbol_methods.dom().contains(s) ==> r == w.symbols[s]))
            &&& (key matches PropertyKeyType::StringLiteral(s) ==> (w.strings.dom().contains(s)
                && !w.string_methods.dom().contains(s) && !v.string_methods.dom().contains(s) ==> r == w.strings[s]))
            &&& (key matches PropertyKeyType::NumericLiteral(s) ==> (w.strings.dom().contains(s)
                && !w.string_methods.dom().contains(s) && !v.string_methods.dom().contains(s) ==> r == w.strings[s]))
        }),
{
}

/// Extending by an interface that holds nothing under a key leaves what
/// that key gives unchanged.
pub proof fn law_extend_keeps_other_keys(arena: TyArena, v: InterfaceView, i: TyId, key: PropertyKeyType)
    requires
        (i as int) < arena.interfaces@.len(),
    ensures
        ({
            let w = arena.interfaces@[i as int].0.view();
            let absent = match key {
                PropertyKeyType::StringLiteral(s) => !w.strings.dom().contains(s) && !w.string_methods.dom().contains(s),
                PropertyKeyType::NumericLiteral(s) => !w.strings.dom().contains(s) && !w.string_methods.dom().contains(s),
                PropertyKeyType::UniqueSymbol(s) => !w.symbols.dom().contains(s) && !w.symbol_methods.dom().contains(s),
                _ => true,
            };
            absent ==> interface_property(extend_view(arena, v, Ty::Interface(i)), key) == interface_property(v, key)
        }),
{
}

/// Extending by an interface appends its call signatures after those held,
/// and keeps the unresolved extends as they were; extending by an
/// unresolved type sets it aside after the others and changes nothing else;
/// extending by a type that is no signature, interface, intersection or
/// unresolved type changes nothing.
pub proof fn law_extend_by_kind(arena: TyArena, v: InterfaceView, ty: Ty)
    ensures
        (ty is Interface && (ty->Interface_0 as int) < arena.interfaces@.len()) ==> {
            &&& extend_view(arena, v, ty).callables == v.callables + arena.interfaces@[ty->Interface_0 as int].0.view().callables
            &&& extend_view(arena, v, ty).unresolved == v.unresolved
        },
        (ty is Unresolved) ==> extend_view(arena, v, ty) == (InterfaceView {
            unresolved: v.unresolved.push(ty->Unresolved_0),
            ..v
        }),
        !(ty is Function || ty is Constructor || ty is Interface || ty is Intersection || ty is Unresolved)
            ==> extend_view(arena, v, ty) == v,
{
}

} // verus!
