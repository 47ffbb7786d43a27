//! The world: the grid and everything that moves over it, each kind of thing
//! in a slot table of its own. A slot's index is the thing's handle; a
//! removed thing leaves its slot empty, so a stale handle finds nothing.

use vstd::prelude::*;
use crate::components::PlayerBundle;
use crate::grab::{GrabState, ParentObject, Rock};
use crate::sandbox::Sandbox;
use crate::vector::Vector;

verus! {

/// A player: where it stands, its number, and what it carries.
#[derive(Clone, Copy, Debug, PartialEq, Eq)]
pub struct Player {
    pub position: Vector,
    pub index: usize,
    pub bundle: PlayerBundle,
}

/// What took part in a collision.
#[derive(Clone, Copy, Debug, PartialEq, Eq)]
pub enum Body {
    Rock(usize),
    Player(usize),
    Ground,
    Other,
}

/// A contact between two bodies beginning or ending.
#[derive(Clone, Copy, Debug, PartialEq, Eq)]
pub enum CollisionEvent {
    Started(Body, Body),
    Stopped(Body, Body),
}

/// Everything there is: the grid, the players, the clusters and the rocks,
/// and whether anybody is holding a cluster.
pub struct World {
    pub sandbox: Sandbox,
    pub players: Vec<Option<Player>>,
    pub clusters: Vec<Option<ParentObject>>,
    pub rocks: Vec<Option<Rock>>,
    pub grab_state: GrabState,
}

/// What a slot table holds under a handle; nothing under a handle it never
/// gave out.
pub open spec fn slot<T>(table: Seq<Option<T>>, handle: int) -> Option<T> {
    if 0 <= handle < table.len() {
        table[handle]
    } else {
        None
    }
}

/// What a slot table holds under a handle.
pub fn lookup<T: Copy>(table: &Vec<Option<T>>, handle: usize) -> (r: Option<T>)
    ensures
        r == slot(table@, handle as int),
{
    if handle < table.len() {
        table[handle]
    } else {
        None
    }
}

impl World {
    /// The grid is well formed, and every rock with a parent names a
    /// cluster handle that was given out. Every world this crate hands out
    /// is well formed, and every operation keeps it so.
    pub open spec fn wf(&self) -> bool {
        &&& self.sandbox.wf()
        &&& forall|k: int|
            0 <= k < self.rocks@.len() ==> match #[trigger] self.rocks@[k] {
                Some(rock) => match rock.parent {
                    Some(c) => c < self.clusters@.len(),
                    None => true,
                },
                None => true,
            }
    }

    /// The rock under a handle.
    pub open spec fn spec_rock(&self, handle: int) -> Option<Rock> {
        slot(self.rocks@, handle)
    }

    /// The cluster under a handle.
    pub open spec fn spec_cluster(&self, handle: int) -> Option<ParentObject> {
        slot(self.clusters@, handle)
    }

    /// The player under a handle.
    pub open spec fn spec_player(&self, handle: int) -> Option<Player> {
        slot(self.players@, handle)
    }

    /// The cluster a body belongs to: the body is a rock, the rock has a
    /// parent, and the parent exists.
    pub open spec fn spec_cluster_of(&self, body: Body) -> Option<usize> {
        match body {
            Body::Rock(r) => match self.spec_rock(r as int) {
                Some(rock) => match rock.parent {
                    Some(c) => if self.spec_cluster(c as int) is Some {
                        Some(c)
                    } else {
                        None
                    },
                    None => None,
                },
                None => None,
            },
            _ => None,
        }
    }

    /// Whether the world is well formed. Code that is not verified can ask
    /// this before it calls a function that requires it.
    pub fn is_wf(&self) -> (b: bool)
        ensures
            b == self.wf(),
    {
        if !self.sandbox.is_wf() {
            return false;
        }
        let count: usize = self.rocks.len();
        let total: usize = self.clusters.len();
        let mut k: usize = 0;
        while k < count
            invariant
                k <= count,
                count == self.rocks@.len(),
                total == self.clusters@.len(),
                forall|j: int|
                    0 <= j < k ==> match #[trigger] self.rocks@[j] {
                        Some(rock) => match rock.parent {
                            Some(c) => c < self.clusters@.len(),
                            None => true,
                        },
                        None => true,
                    },
            decreases count - k,
        {
            if let Some(rock) = self.rocks[k] {
                if let Some(c) = rock.parent {
                    if c >= total {
                        return false;
                    }
                }
            }
            k += 1;
        }
        true
    }

    /// A world with the given grid and nothing on it.
    pub fn new(sandbox: Sandbox) -> (w: World)
        requires
            sandbox.wf(),
        ensures
            w.wf(),
            w.sandbox == sandbox,
            w.players@.len() == 0,
            w.clusters@.len() == 0,
            w.rocks@.len() == 0,
            w.grab_state == GrabState::Empty,
    {
        World {
            sandbox,
            players: Vec::new(),
            clusters: Vec::new(),
            rocks: Vec::new(),
            grab_state: GrabState::Empty,
        }
    }

    /// The rock under a handle.
    pub fn rock(&self, handle: usize) -> (r: Option<Rock>)
        ensures
            r == self.spec_rock(handle as int),
    {
        lookup(&self.rocks, handle)
    }

    /// The cluster under a handle.
    pub fn cluster(&self, handle: usize) -> (r: Option<ParentObject>)
        ensures
            r == self.spec_cluster(handle as int),
    {
        lookup(&self.clusters, handle)
    }

    /// The player under a handle.
    pub fn player(&self, handle: usize) -> (r: Option<Player>)
        ensures
            r == self.spec_player(handle as int),
    {
        lookup(&self.players, handle)
    }

    /// The cluster a body belongs to, if it is a rock of an existing cluster.
    pub fn cluster_of(&self, body: Body) -> (r: Option<usize>)
        ensures
            r == self.spec_cluster_of(body),
    {
        match body {
            Body::Rock(r) => match self.rock(r) {
                Some(rock) => match rock.parent {
                    Some(c) => if self.cluster(c).is_some() {
                        Some(c)
                    } else {
                        None
                    },
                    None => None,
                },
                None => None,
            },
            _ => None,
        }
    }
}

} // verus!
