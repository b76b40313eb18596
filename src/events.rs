//! Notifications of the board.

use vstd::prelude::*;
use crate::geometry::Area;

verus! {

/// Two sprites, by identity, whose boxes overlap.
#[derive(Debug)]
pub struct CollisionEvent(pub String, pub String);

impl View for CollisionEvent {
    type V = (Seq<char>, Seq<char>);

    open spec fn view(&self) -> (Seq<char>, Seq<char>) {
        (self.0@, self.1@)
    }
}

impl Clone for CollisionEvent {
    fn clone(&self) -> (r: Self)
        ensures
            r@ == self@,
    {
        CollisionEvent(self.0.clone(), self.1.clone())
    }
}

impl CollisionEvent {
    /// Whether `id` is one of the two sprites.
    pub open spec fn names(self, id: Seq<char>) -> bool {
        self.0@ == id || self.1@ == id
    }

    /// Hands the notification on to a container's children: every child gets
    /// the same notification, whatever its place.
    pub fn pass(&self, children: &Vec<Area>) -> (r: Vec<Option<CollisionEvent>>)
        ensures
            r@.len() == children@.len(),
            forall|i: int|
                0 <= i < r@.len() ==> (#[trigger] r@[i]) is Some && r@[i]->Some_0@ == self@,
    {
        let mut out: Vec<Option<CollisionEvent>> = Vec::new();
        let mut i: usize = 0;
        while i < children.len()
            invariant
                i <= children@.len(),
                out@.len() == i,
                forall|k: int| 0 <= k < i ==> (#[trigger] out@[k]) is Some && out@[k]->Some_0@ == self@,
            decreases children@.len() - i,
        {
            out.push(Some(self.clone()));
            i = i + 1;
        }
        out
    }
}

/// The notifications that reach the board.
#[derive(Debug)]
pub enum BoardEvent {
    /// The periodic step that drives the collision scan.
    Tick,
    Collision(CollisionEvent),
}

} // verus!
