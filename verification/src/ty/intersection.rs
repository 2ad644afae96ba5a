//! Building an intersection type from types added one at a time.
use vstd::prelude::*;
use super::Ty;
use super::arena::TyArena;

verus! {

/// Collects the types of an intersection in the order they are added.
pub struct IntersectionTypeBuilder {
    pub types: Vec<Ty>,
}

impl Default for IntersectionTypeBuilder {
    fn default() -> (r: Self)
        ensures
            r.types@ == Seq::<Ty>::empty(),
    {
        IntersectionTypeBuilder { types: Vec::new() }
    }
}

impl IntersectionTypeBuilder {
    /// Adds a type to the intersection.
    pub fn add(&mut self, ty: Ty)
        ensures
            final(self).types@ == old(self).types@.push(ty),
    {
        self.types.push(ty);
    }

    /// The intersection of the added types: the type itself when one was
    /// added, otherwise a new stored intersection of them, in order.
    pub fn build(self, arena: &mut TyArena) -> (t: Ty)
        requires
            old(arena).wf(),
            forall|i: int| 0 <= i < self.types@.len() ==> old(arena).contains(#[trigger] self.types@[i]),
            self.types@.len() != 1 ==> old(arena).intersections@.len() < u32::MAX,
        ensures
            final(arena).wf(),
            final(arena).extends(*old(arena)),
            final(arena).unions@ == old(arena).unions@,
            final(arena).functions@ == old(arena).functions@,
            final(arena).constructors@ == old(arena).constructors@,
            self.types@.len() == 1 ==> t == self.types@[0] && *final(arena) == *old(arena),
            self.types@.len() != 1 ==> {
                &&& t == Ty::Intersection(old(arena).intersections@.len() as u32)
                &&& final(arena).intersections@ == old(arena).intersections@.push(self.types)
            },
    {
        if self.types.len() == 1 {
            self.types[0]
        } else {
            arena.alloc_intersection(self.types)
        }
    }
}

} // verus!
