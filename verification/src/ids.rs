//! The player-id pool: one byte of id space, claimed on connection and
//! released when a session leaves.

use vstd::prelude::*;

verus! {

/// Which of the 256 player ids are taken.
pub struct IdPool {
    taken: Vec<bool>,
}

impl IdPool {
    /// The pool always covers the whole one-byte id space.
    pub closed spec fn wf(&self) -> bool {
        self.taken@.len() == 256
    }

    /// Is this id currently claimed?
    pub closed spec fn is_taken(&self, id: u8) -> bool {
        self.taken@[id as int]
    }

    /// The set of claimed ids.
    pub open spec fn taken_set(&self) -> Set<u8> {
        Set::new(|id: u8| self.is_taken(id))
    }

    /// A pool with every id free.
    pub fn new() -> (r: Self)
        ensures
            r.wf(),
            forall|id: u8| !r.is_taken(id),
    {
        let taken: Vec<bool> = vec![false; 256];
        IdPool { taken }
    }

    pub fn contains(&self, id: u8) -> (r: bool)
        requires
            self.wf(),
        ensures
            r == self.is_taken(id),
    {
        self.taken[id as usize]
    }

    /// Claim the smallest free id; fails cleanly when all 256 are taken.
    pub fn claim(&mut self) -> (r: Result<u8, ()>)
        requires
            old(self).wf(),
        ensures
            final(self).wf(),
            match r {
                Ok(id) => {
                    &&& !old(self).is_taken(id)
                    &&& forall|w: u8| w < id ==> old(self).is_taken(w)
                    &&& final(self).is_taken(id)
                    &&& forall|w: u8| w != id ==> final(self).is_taken(w) == old(self).is_taken(w)
                },
                Err(()) => {
                    &&& forall|id: u8| old(self).is_taken(id)
                    &&& *final(self) == *old(self)
                },
            },
    {
        let mut i: usize = 0;
        while i < 256
            invariant
                old(self).wf(),
                *self == *old(self),
                i <= 256,
                forall|w: u8| w < i ==> old(self).is_taken(w),
            decreases 256 - i,
        {
            if !self.taken[i] {
                self.taken[i] = true;
                proof {
                    assert(final(self).taken@ =~= old(self).taken@.update(i as int, true));
                }
                return Ok(i as u8);
            }
            i = i + 1;
        }
        Err(())
    }

    /// Release an id; a no-op when it was already free.
    pub fn release(&mut self, id: u8)
        requires
            old(self).wf(),
        ensures
            final(self).wf(),
            !final(self).is_taken(id),
            forall|w: u8| w != id ==> final(self).is_taken(w) == old(self).is_taken(w),
    {
        self.taken[id as usize] = false;
    }
}

} // verus!
