use crate::figure::Figure;
use vstd::prelude::*;

verus! {

/// One of the two participants: a display name, an id and a fixed roster of
/// eight figures, each carrying its assigned starting square.
#[derive(Debug)]
pub struct Player {
    pub name: String,
    pub id: u128,
    pub set: [Figure; 8],
}

impl Clone for Player {
    fn clone(&self) -> (r: Self)
        ensures
            r == *self,
    {
        let roster = [
            self.set[0].clone(),
            self.set[1].clone(),
            self.set[2].clone(),
            self.set[3].clone(),
            self.set[4].clone(),
            self.set[5].clone(),
            self.set[6].clone(),
            self.set[7].clone(),
        ];
        proof {
            assert(roster =~= self.set);
        }
        Player { name: self.name.clone(), id: self.id, set: roster }
    }
}

impl Player {
    pub fn new(name: String, id: u128, set: [Figure; 8]) -> (r: Self)
        ensures
            r == (Player { name, id, set }),
    {
        Player { name, id, set }
    }

    /// Get the roster figure at `index`.
    pub fn fig(&self, index: usize) -> (r: &Figure)
        requires
            index < 8,
        ensures
            *r == self.set[index as int],
    {
        &self.set[index]
    }

    /// Get the player's roster.
    pub fn set(&self) -> (r: &[Figure; 8])
        ensures
            *r == self.set,
    {
        &self.set
    }

    /// Replace the player's roster.
    pub fn set_set(&mut self, set: [Figure; 8])
        ensures
            final(self).set == set,
            final(self).name == old(self).name,
            final(self).id == old(self).id,
    {
        self.set = set;
    }

    /// Get the player's name.
    pub fn name(&self) -> (r: &str)
        ensures
            r@ == self.name@,
    {
        self.name.as_str()
    }
}

} // verus!
