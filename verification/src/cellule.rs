//! The two-valued cell state and the classification of a neighbor sample.

use vstd::prelude::*;

use crate::rules::count_alive8;

verus! {

/// One cell of the grid: alive or dead, with no identity beyond its state.
#[derive(Clone, Copy, PartialEq, Eq, Structural, Debug)]
pub enum Cellule {
    Alive,
    Dead,
}

impl Cellule {
    /// The opposite state.
    pub open spec fn flipped(self) -> Cellule {
        if self is Alive {
            Cellule::Dead
        } else {
            Cellule::Alive
        }
    }

    pub fn new_dead() -> (c: Cellule)
        ensures
            c is Dead,
    {
        Cellule::Dead
    }

    pub fn is_alive(&self) -> (r: bool)
        ensures
            r == (*self is Alive),
    {
        match self {
            Cellule::Alive => true,
            Cellule::Dead => false,
        }
    }

    pub fn set_alive(&mut self)
        ensures
            *final(self) is Alive,
    {
        *self = Cellule::Alive;
    }

    pub fn set_dead(&mut self)
        ensures
            *final(self) is Dead,
    {
        *self = Cellule::Dead;
    }

    /// Flips the cell between alive and dead.
    pub fn toggle(&mut self)
        ensures
            *final(self) == (*old(self)).flipped(),
    {
        *self = if self.is_alive() {
            Cellule::Dead
        } else {
            Cellule::Alive
        };
    }

    /// How many of the eight sampled neighbors are alive.
    pub fn count_alive(neighbors: &[Cellule; 8]) -> (n: usize)
        ensures
            n as int == count_alive8(neighbors@),
    {
        let mut n: usize = 0;
        if neighbors[0].is_alive() {
            n = n + 1;
        }
        if neighbors[1].is_alive() {
            n = n + 1;
        }
        if neighbors[2].is_alive() {
            n = n + 1;
        }
        if neighbors[3].is_alive() {
            n = n + 1;
        }
        if neighbors[4].is_alive() {
            n = n + 1;
        }
        if neighbors[5].is_alive() {
            n = n + 1;
        }
        if neighbors[6].is_alive() {
            n = n + 1;
        }
        if neighbors[7].is_alive() {
            n = n + 1;
        }
        n
    }

    /// Underpopulation: fewer than two live neighbors.
    pub fn alone(neighbors: &[Cellule; 8]) -> (r: bool)
        ensures
            r == (count_alive8(neighbors@) < 2),
    {
        Self::count_alive(neighbors) < 2
    }

    /// Overpopulation: more than three live neighbors.
    pub fn overpopulated(neighbors: &[Cellule; 8]) -> (r: bool)
        ensures
            r == (count_alive8(neighbors@) > 3),
    {
        Self::count_alive(neighbors) > 3
    }

    /// Reproduction threshold: exactly three live neighbors.
    pub fn can_be_revived(neighbors: &[Cellule; 8]) -> (r: bool)
        ensures
            r == (count_alive8(neighbors@) == 3),
    {
        Self::count_alive(neighbors) == 3
    }
}

} // verus!
