//! Settling: rocks that have come to rest go back into the grid as dirt.

use vstd::prelude::*;
use crate::sandbox::{get_particle, spec_get_particle, ParticleTypes, Sandbox};
use crate::vector::Vector;
use crate::world::World;

verus! {

/// Squared speed below which a body counts as at rest: a tenth of a
/// squared unit per second.
pub const RESTTHRESHOLD: u64 = 100_000;

/// Which rocks a sweep returns to the grid.
#[derive(Clone, Copy, Debug, PartialEq, Eq)]
pub enum Sweep {
    /// The rocks of one cluster, whatever its state; the cluster goes too.
    Cluster(usize),
    /// The rocks of every cluster that is at rest and not held; those
    /// clusters go too.
    SettledClusters,
    /// Marked rocks at rest that have a parent which is not held.
    SettledMembers,
    /// Marked rocks at rest that have no parent.
    SettledDebris,
}

/// Whether a body with this velocity counts as at rest.
pub open spec fn spec_at_rest(velocity: Vector) -> bool {
    velocity.spec_length_squared() < RESTTHRESHOLD
}

/// Whether a body with this velocity counts as at rest.
pub fn at_rest(velocity: &Vector) -> (b: bool)
    ensures
        b == spec_at_rest(*velocity),
{
    velocity.length_squared() < RESTTHRESHOLD
}

impl World {
    /// Whether the handle names a cluster that is at rest and not held.
    pub open spec fn spec_settled(&self, cluster: int) -> bool {
        match self.spec_cluster(cluster) {
            Some(c) => c.held is None && spec_at_rest(c.velocity),
            None => false,
        }
    }

    /// Whether the handle names a cluster that is held.
    pub open spec fn spec_is_held(&self, cluster: int) -> bool {
        match self.spec_cluster(cluster) {
            Some(c) => c.held is Some,
            None => false,
        }
    }

    /// Whether a sweep returns the rock under the handle to the grid.
    pub open spec fn absorbs(&self, sweep: Sweep, rock: int) -> bool {
        match self.spec_rock(rock) {
            Some(r) => match sweep {
                Sweep::Cluster(c) => r.parent == Some(c),
                Sweep::SettledClusters => match r.parent {
                    Some(c) => self.spec_settled(c as int),
                    None => false,
                },
                Sweep::SettledMembers => match r.parent {
                    Some(c) => r.put_back is Some && spec_at_rest(r.velocity)
                        && !self.spec_is_held(c as int),
                    None => false,
                },
                Sweep::SettledDebris => r.put_back is Some && r.parent is None && spec_at_rest(
                    r.velocity,
                ),
            },
            None => false,
        }
    }

    /// Whether a sweep removes the cluster under the handle.
    pub open spec fn removes(&self, sweep: Sweep, cluster: int) -> bool {
        match sweep {
            Sweep::Cluster(c) => cluster == c,
            Sweep::SettledClusters => self.spec_settled(cluster),
            _ => false,
        }
    }

    /// Whether the rock under the handle lies in cell `(x, y)`.
    pub open spec fn rock_in_cell(&self, rock: int, x: int, y: int) -> bool {
        match self.spec_rock(rock) {
            Some(r) => Sandbox::spec_cell(r.position.x as int, self.sandbox.spec_width()) == x
                && Sandbox::spec_cell(r.position.y as int, self.sandbox.spec_height()) == y,
            None => false,
        }
    }

    /// Whether a sweep fills cell `(x, y)`: the cell is in the grid and one
    /// of the first `count` rocks lies in it and is returned by the sweep.
    pub open spec fn refills(&self, sweep: Sweep, count: int, x: int, y: int) -> bool {
        self.sandbox.contains(x, y) && exists|k: int|
            0 <= k < count && #[trigger] self.absorbs(sweep, k) && self.rock_in_cell(k, x, y)
    }

    /// What a sweep does to grid, rocks and clusters, `self` being the world
    /// before and `after` the world after: the cell of every returned rock
    /// holds plain dirt, the returned rocks and the removed clusters are
    /// gone, and no other cell, rock or cluster has changed.
    pub open spec fn swept(&self, after: &World, sweep: Sweep) -> bool {
        &&& after.sandbox.wf()
        &&& after.sandbox.spec_width() == self.sandbox.spec_width()
        &&& after.sandbox.spec_height() == self.sandbox.spec_height()
        &&& forall|x: int, y: int|
            after.sandbox.at(x, y) == if self.refills(sweep, self.rocks@.len() as int, x, y) {
                Some(spec_get_particle(ParticleTypes::Dirt))
            } else {
                self.sandbox.at(x, y)
            }
        &&& after.rocks@.len() == self.rocks@.len()
        &&& forall|k: int|
            0 <= k < self.rocks@.len() ==> #[trigger] after.rocks@[k] == if self.absorbs(sweep, k) {
                None
            } else {
                self.rocks@[k]
            }
        &&& after.clusters@.len() == self.clusters@.len()
        &&& forall|c: int|
            0 <= c < self.clusters@.len() ==> #[trigger] after.clusters@[c] == if self.removes(
                sweep,
                c,
            ) {
                None
            } else {
                self.clusters@[c]
            }
    }

    /// What a sweep leaves behind: grid, rocks and clusters are swept, the
    /// players and the hold state are as before.
    pub open spec fn absorbed(&self, after: &World, sweep: Sweep) -> bool {
        &&& self.swept(after, sweep)
        &&& after.players@ == self.players@
        &&& after.grab_state == self.grab_state
    }

    /// Whether the handle names a cluster that is at rest and not held.
    pub fn settled(&self, cluster: usize) -> (b: bool)
        ensures
            b == self.spec_settled(cluster as int),
    {
        match self.cluster(cluster) {
            Some(c) => c.held.is_none() && at_rest(&c.velocity),
            None => false,
        }
    }

    /// Whether the handle names a cluster that is held.
    pub fn is_held(&self, cluster: usize) -> (b: bool)
        ensures
            b == self.spec_is_held(cluster as int),
    {
        match self.cluster(cluster) {
            Some(c) => c.held.is_some(),
            None => false,
        }
    }

    /// Whether a sweep returns the rock under the handle to the grid.
    pub fn should_absorb(&self, sweep: Sweep, rock: usize) -> (b: bool)
        ensures
            b == self.absorbs(sweep, rock as int),
    {
        match self.rock(rock) {
            Some(r) => match sweep {
                Sweep::Cluster(c) => match r.parent {
                    Some(p) => p == c,
                    None => false,
                },
                Sweep::SettledClusters => match r.parent {
                    Some(c) => self.settled(c),
                    None => false,
                },
                Sweep::SettledMembers => match r.parent {
                    Some(c) => r.put_back.is_some() && at_rest(&r.velocity) && !self.is_held(c),
                    None => false,
                },
                Sweep::SettledDebris => r.put_back.is_some() && r.parent.is_none() && at_rest(
                    &r.velocity,
                ),
            },
            None => false,
        }
    }

    /// Whether a sweep removes the cluster under the handle.
    pub fn should_remove(&self, sweep: Sweep, cluster: usize) -> (b: bool)
        ensures
            b == self.removes(sweep, cluster as int),
    {
        match sweep {
            Sweep::Cluster(c) => cluster == c,
            Sweep::SettledClusters => self.settled(cluster),
            _ => false,
        }
    }

    /// Returns the rocks a sweep selects to the grid: where such a rock lies
    /// in the grid, its cell is filled with plain dirt, and the rock is
    /// removed. Then removes the clusters the sweep selects.
    pub fn absorb(&mut self, sweep: Sweep)
        requires
            old(self).wf(),
        ensures
            final(self).wf(),
            old(self).absorbed(final(self), sweep),
    {
        let count: usize = self.rocks.len();
        let mut k: usize = 0;
        while k < count
            invariant
                k <= count,
                count == old(self).rocks@.len(),
                old(self).wf(),
                self.sandbox.wf(),
                self.sandbox.spec_width() == old(self).sandbox.spec_width(),
                self.sandbox.spec_height() == old(self).sandbox.spec_height(),
                forall|x: int, y: int|
                    self.sandbox.at(x, y) == if old(self).refills(sweep, k as int, x, y) {
                        Some(spec_get_particle(ParticleTypes::Dirt))
                    } else {
                        old(self).sandbox.at(x, y)
                    },
                self.rocks@.len() == count,
                forall|j: int|
                    0 <= j < k ==> #[trigger] self.rocks@[j] == if old(self).absorbs(sweep, j) {
                        None
                    } else {
                        old(self).rocks@[j]
                    },
                forall|j: int| k <= j < count ==> self.rocks@[j] == old(self).rocks@[j],
                self.clusters == old(self).clusters,
                self.players == old(self).players,
                self.grab_state == old(self).grab_state,
            decreases count - k,
        {
            if self.should_absorb(sweep, k) {
                let rock = self.rocks[k].unwrap();
                let (x, y) = self.sandbox.cell_of(rock.position);
                self.sandbox.checked_set(x as i64, y as i64, Some(get_particle(ParticleTypes::Dirt)));
                self.rocks.set(k, None);
                proof {
                    assert(old(self).absorbs(sweep, k as int));
                    assert(old(self).rock_in_cell(k as int, x as int, y as int));
                    assert forall|i: int, j: int|
                        self.sandbox.at(i, j) == if old(self).refills(sweep, k + 1, i, j) {
                            Some(spec_get_particle(ParticleTypes::Dirt))
                        } else {
                            old(self).sandbox.at(i, j)
                        } by {
                        if old(self).refills(sweep, k as int, i, j) {
                            assert(old(self).refills(sweep, k + 1, i, j));
                        }
                        if old(self).refills(sweep, k + 1, i, j) && !old(self).refills(
                            sweep,
                            k as int,
                            i,
                            j,
                        ) {
                            let w = choose|w: int|
                                0 <= w < k + 1 && #[trigger] old(self).absorbs(sweep, w) && old(
                                    self,
                                ).rock_in_cell(w, i, j);
                            assert(w == k);
                        }
                    }
                }
            } else {
                proof {
                    assert(!old(self).absorbs(sweep, k as int));
                    assert forall|i: int, j: int|
                        old(self).refills(sweep, k + 1, i, j) == old(self).refills(
                            sweep,
                            k as int,
                            i,
                            j,
                        ) by {
                        if old(self).refills(sweep, k + 1, i, j) {
                            let w = choose|w: int|
                                0 <= w < k + 1 && #[trigger] old(self).absorbs(sweep, w) && old(
                                    self,
                                ).rock_in_cell(w, i, j);
                            assert(w < k);
                        }
                    }
                }
            }
            k += 1;
        }
        let total: usize = self.clusters.len();
        let mut c: usize = 0;
        while c < total
            invariant
                c <= total,
                total == old(self).clusters@.len(),
                self.clusters@.len() == total,
                forall|j: int|
                    0 <= j < c ==> #[trigger] self.clusters@[j] == if old(self).removes(sweep, j) {
                        None
                    } else {
                        old(self).clusters@[j]
                    },
                forall|j: int| c <= j < total ==> self.clusters@[j] == old(self).clusters@[j],
                self.rocks@.len() == old(self).rocks@.len(),
                forall|j: int|
                    0 <= j < self.rocks@.len() ==> #[trigger] self.rocks@[j] == if old(
                        self,
                    ).absorbs(sweep, j) {
                        None
                    } else {
                        old(self).rocks@[j]
                    },
                self.sandbox.wf(),
                self.sandbox.spec_width() == old(self).sandbox.spec_width(),
                self.sandbox.spec_height() == old(self).sandbox.spec_height(),
                forall|x: int, y: int|
                    self.sandbox.at(x, y) == if old(self).refills(
                        sweep,
                        old(self).rocks@.len() as int,
                        x,
                        y,
                    ) {
                        Some(spec_get_particle(ParticleTypes::Dirt))
                    } else {
                        old(self).sandbox.at(x, y)
                    },
                self.players == old(self).players,
                self.grab_state == old(self).grab_state,
            decreases total - c,
        {
            proof {
                assert(self.clusters@[c as int] == old(self).clusters@[c as int]);
            }
            if self.should_remove(sweep, c) {
                self.clusters.set(c, None);
            }
            c += 1;
        }
    }

    /// Returns every cluster that is at rest and not held to the grid.
    pub fn place_back(&mut self)
        requires
            old(self).wf(),
        ensures
            final(self).wf(),
            old(self).absorbed(final(self), Sweep::SettledClusters),
    {
        self.absorb(Sweep::SettledClusters)
    }

    /// Returns to the grid every marked rock at rest whose parent is not
    /// held.
    pub fn place_back_mini(&mut self)
        requires
            old(self).wf(),
        ensures
            final(self).wf(),
            old(self).absorbed(final(self), Sweep::SettledMembers),
    {
        self.absorb(Sweep::SettledMembers)
    }

    /// Returns to the grid every marked rock at rest that has no parent.
    pub fn place_back_particle(&mut self)
        requires
            old(self).wf(),
        ensures
            final(self).wf(),
            old(self).absorbed(final(self), Sweep::SettledDebris),
    {
        self.absorb(Sweep::SettledDebris)
    }
}

/// Sweeping twice is sweeping once: after a sweep, the same sweep finds
/// nothing more to return or remove, writes no cell and leaves the world as
/// the first sweep left it.
pub proof fn law_second_sweep_changes_nothing(
    start: &World,
    once: &World,
    twice: &World,
    sweep: Sweep,
)
    requires
        start.swept(once, sweep),
        once.swept(twice, sweep),
    ensures
        forall|k: int| !once.absorbs(sweep, k),
        twice.rocks@ == once.rocks@,
        twice.clusters@ == once.clusters@,
        twice.sandbox.same_cells(&once.sandbox),
{
    assert forall|k: int| !once.absorbs(sweep, k) by {
        if 0 <= k < once.rocks@.len() {
            assert(once.rocks@[k] == if start.absorbs(sweep, k) {
                None
            } else {
                start.rocks@[k]
            });
            if let Some(r) = once.rocks@[k] {
                if let Some(c) = r.parent {
                    if 0 <= c < start.clusters@.len() {
                        assert(once.clusters@[c as int] == if start.removes(sweep, c as int) {
                            None
                        } else {
                            start.clusters@[c as int]
                        });
                    }
                }
            }
        }
    }
    assert forall|c: int| 0 <= c < once.clusters@.len() implies twice.clusters@[c]
        == once.clusters@[c] by {
        assert(once.clusters@[c] == if start.removes(sweep, c) {
            None
        } else {
            start.clusters@[c]
        });
        assert(twice.clusters@[c] == if once.removes(sweep, c) {
            None
        } else {
            once.clusters@[c]
        });
    }
    assert(twice.rocks@ =~= once.rocks@);
    assert(twice.clusters@ =~= once.clusters@);
}

} // verus!
