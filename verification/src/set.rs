//! Setting a held cluster down: its rocks go straight back into the grid.

use vstd::prelude::*;
use crate::components::{HeldObject, PlayerBundle};
use crate::grab::{
    has_rock_from, in_columns, lemma_carved_rock_cell, lemma_region_rocks, made_from,
    made_in_columns, region_rocks, spec_half_extent,
};
use crate::place_back::Sweep;
use crate::sandbox::{spec_get_particle, ParticleTypes, Sandbox};
use crate::vector::Vector;
use crate::world::{Player, World};

verus! {

impl World {
    /// The cluster the player would set down: the player exists and holds a
    /// cluster that exists and is marked as held.
    pub open spec fn spec_set_target(&self, player: usize) -> Option<usize> {
        match self.spec_player(player as int) {
            Some(p) => match p.bundle.held.0 {
                Some(c) => if self.spec_is_held(c as int) {
                    Some(c)
                } else {
                    None
                },
                None => None,
            },
            None => None,
        }
    }

    /// What setting down leaves behind, `self` being the world before and
    /// `after` the world after. With nothing to set down, nothing changes.
    /// Otherwise the held cluster is swept into the grid and the player
    /// holds nothing.
    pub open spec fn was_set(&self, after: &World, player: usize) -> bool {
        match self.spec_set_target(player) {
            Some(c) => {
                let p = self.spec_player(player as int).unwrap();
                &&& self.swept(after, Sweep::Cluster(c))
                &&& after.players@ == self.players@.update(
                    player as int,
                    Some(Player { bundle: PlayerBundle { held: HeldObject(None), ..p.bundle }, ..p }),
                )
                &&& after.grab_state == self.grab_state
            },
            None => {
                &&& after.sandbox == self.sandbox
                &&& after.rocks@ == self.rocks@
                &&& after.clusters@ == self.clusters@
                &&& after.players@ == self.players@
                &&& after.grab_state == self.grab_state
            },
        }
    }

    /// The cluster the player would set down.
    pub fn set_target(&self, player: usize) -> (r: Option<usize>)
        ensures
            r == self.spec_set_target(player),
    {
        match self.player(player) {
            Some(p) => match p.bundle.held.0 {
                Some(c) => if self.is_held(c) {
                    Some(c)
                } else {
                    None
                },
                None => None,
            },
            None => None,
        }
    }

    /// Sets down what the player holds: every rock of the held cluster goes
    /// back into the grid as plain dirt, the cluster is removed, and the
    /// player holds nothing.
    pub fn set(&mut self, player: usize)
        requires
            old(self).wf(),
        ensures
            final(self).wf(),
            old(self).was_set(final(self), player),
    {
        if let Some(c) = self.set_target(player) {
            let p = self.player(player).unwrap();
            self.absorb(Sweep::Cluster(c));
            self.players.set(
                player,
                Some(Player { bundle: PlayerBundle { held: HeldObject(None), ..p.bundle }, ..p }),
            );
        }
    }
}

/// The rocks of a carve lie behind the first `first` rocks of a world. A
/// sweep that returns all of those rocks fills the cells of the carve square
/// that held a particle in `sandbox`, and besides them only the cells that
/// the earlier rocks it returns lie in.
pub proof fn lemma_carved_rocks_refill(
    sandbox: &Sandbox,
    target: Vector,
    half: int,
    handle: usize,
    first: int,
    later: &World,
    sweep: Sweep,
)
    requires
        sandbox.wf(),
        half >= 0,
        first >= 0,
        later.sandbox.spec_width() == sandbox.spec_width(),
        later.sandbox.spec_height() == sandbox.spec_height(),
        later.rocks@.len() == first + region_rocks(
            sandbox,
            target,
            half,
            (2 * half + 1) as nat,
            handle,
        ).len(),
        forall|j: int|
            0 <= j < later.rocks@.len() - first ==> later.rocks@[first + j]
                == #[trigger] region_rocks(
                sandbox,
                target,
                half,
                (2 * half + 1) as nat,
                handle,
            )[j],
        forall|k: int| first <= k < later.rocks@.len() ==> #[trigger] later.absorbs(sweep, k),
    ensures
        forall|x: int, y: int|
            #[trigger] later.refills(sweep, later.rocks@.len() as int, x, y) <==> (
            Sandbox::in_square(
                Sandbox::spec_cell(target.x as int, sandbox.spec_width()),
                Sandbox::spec_cell(target.y as int, sandbox.spec_height()),
                half,
                x,
                y,
            ) && sandbox.occupied(x, y)) || later.refills(sweep, first, x, y),
{
    let cx = Sandbox::spec_cell(target.x as int, sandbox.spec_width());
    let cy = Sandbox::spec_cell(target.y as int, sandbox.spec_height());
    let columns = (2 * half + 1) as nat;
    let made = region_rocks(sandbox, target, half, columns, handle);
    let count = later.rocks@.len() as int;
    lemma_region_rocks(sandbox, target, half, columns, handle);
    assert forall|x: int, y: int|
        #[trigger] later.refills(sweep, count, x, y) <==> (Sandbox::in_square(cx, cy, half, x, y)
            && sandbox.occupied(x, y)) || later.refills(sweep, first, x, y) by {
        if later.refills(sweep, count, x, y) && !later.refills(sweep, first, x, y) {
            let k = choose|k: int|
                0 <= k < count && #[trigger] later.absorbs(sweep, k) && later.rock_in_cell(k, x, y);
            assert(k >= first);
            let j = k - first;
            assert(later.rocks@[first + j] == made[j]);
            assert(made_in_columns(sandbox, target, handle, made[j], half, columns as int));
            let (u, v) = choose|u: int, v: int|
                in_columns(cx, cy, half, columns as int, u, v) && #[trigger] made_from(
                    sandbox,
                    target,
                    handle,
                    made[j],
                    u,
                    v,
                );
            lemma_carved_rock_cell(sandbox, target, handle, made[j], u, v);
            assert(u == x && v == y);
        }
        if later.refills(sweep, first, x, y) {
            let k = choose|k: int|
                0 <= k < first && #[trigger] later.absorbs(sweep, k) && later.rock_in_cell(k, x, y);
            assert(later.absorbs(sweep, k) && later.rock_in_cell(k, x, y) && k < count);
        }
        if Sandbox::in_square(cx, cy, half, x, y) && sandbox.occupied(x, y) {
            assert(in_columns(cx, cy, half, columns as int, x, y));
            assert(has_rock_from(sandbox, target, handle, made, x, y));
            let j = choose|j: int|
                0 <= j < made.len() && #[trigger] made_from(sandbox, target, handle, made[j], x, y);
            lemma_carved_rock_cell(sandbox, target, handle, made[j], x, y);
            assert(later.rocks@[first + j] == made[j]);
            assert(later.absorbs(sweep, first + j));
            assert(later.rock_in_cell(first + j, x, y));
            if !sandbox.contains(x, y) {
                sandbox.lemma_outside_empty(x, y);
            }
        }
    }
}

/// A carve that finds no particle leaves every cell as it was.
pub proof fn lemma_empty_carve_keeps_the_grid(
    start: &World,
    carved: &World,
    player: usize,
)
    requires
        start.wf(),
        start.spec_player(player as int) is Some,
        start.spec_player(player as int).unwrap().bundle.held.0 is None,
        start.grabbed(carved, player, None),
    ensures
        forall|x: int, y: int| carved.sandbox.at(x, y) == start.sandbox.at(x, y),
{
    let p = start.spec_player(player as int).unwrap();
    let target = p.spec_hold_target();
    let half = spec_half_extent(p.bundle.radius.current);
    let cx = Sandbox::spec_cell(target.x as int, start.sandbox.spec_width());
    let cy = Sandbox::spec_cell(target.y as int, start.sandbox.spec_height());
    let handle = start.clusters.len();
    let made = start.spec_carved(player);
    let columns = (2 * half + 1) as nat;
    lemma_region_rocks(&start.sandbox, target, half, columns, handle);
    assert forall|x: int, y: int| carved.sandbox.at(x, y) == start.sandbox.at(x, y) by {
        if Sandbox::in_square(cx, cy, half, x, y) && start.sandbox.occupied(x, y) {
            assert(in_columns(cx, cy, half, columns as int, x, y));
            assert(has_rock_from(&start.sandbox, target, handle, made, x, y));
        }
    }
}

/// A player carves and sets the cluster down again before anything has
/// moved. Afterwards exactly the cells that held a particle before hold one
/// again: the carved cells hold plain dirt, whatever they held before, and
/// every other cell is untouched.
pub proof fn law_carve_then_set_restores_the_grid(
    start: &World,
    carved: &World,
    restored: &World,
    player: usize,
    result: Option<usize>,
)
    requires
        start.wf(),
        start.spec_player(player as int) is Some,
        start.spec_player(player as int).unwrap().bundle.held.0 is None,
        start.grabbed(carved, player, result),
        carved.was_set(restored, player),
    ensures
        restored.sandbox.spec_width() == start.sandbox.spec_width(),
        restored.sandbox.spec_height() == start.sandbox.spec_height(),
        forall|x: int, y: int|
            restored.sandbox.occupied(x, y) == #[trigger] start.sandbox.occupied(x, y),
        forall|x: int, y: int|
            #[trigger] restored.sandbox.at(x, y) == start.sandbox.at(x, y) || (
            start.sandbox.occupied(x, y) && restored.sandbox.at(x, y) == Some(
                spec_get_particle(ParticleTypes::Dirt),
            )),
{
    let first = start.rocks@.len() as int;
    match result {
        None => {
            lemma_empty_carve_keeps_the_grid(start, carved, player);
            assert(carved.spec_set_target(player) is None);
        },
        Some(handle) => {
            assert(carved.clusters@[handle as int] is Some);
            assert(carved.spec_is_held(handle as int));
            assert(carved.spec_set_target(player) == Some(handle));
            let sweep = Sweep::Cluster(handle);
            assert forall|k: int| 0 <= k < carved.rocks@.len() implies (#[trigger] carved.absorbs(
                sweep,
                k,
            ) <==> k >= first) by {
                lemma_carved_parents(start, carved, player, handle, k);
            }
            assert forall|x: int, y: int| !carved.refills(sweep, first, x, y) by {
                if carved.refills(sweep, first, x, y) {
                    let k = choose|k: int|
                        0 <= k < first && #[trigger] carved.absorbs(sweep, k)
                            && carved.rock_in_cell(k, x, y);
                    assert(false);
                }
            }
            let p = start.spec_player(player as int).unwrap();
            lemma_carved_rocks_refill(
                &start.sandbox,
                p.spec_hold_target(),
                spec_half_extent(p.bundle.radius.current),
                handle,
                first,
                carved,
                sweep,
            );
        },
    }
}

/// After a carve that made a cluster, the rocks of that cluster are exactly
/// the rocks the carve made.
pub proof fn lemma_carved_parents(
    start: &World,
    carved: &World,
    player: usize,
    handle: usize,
    k: int,
)
    requires
        start.wf(),
        start.spec_player(player as int) is Some,
        start.spec_player(player as int).unwrap().bundle.held.0 is None,
        start.grabbed(carved, player, Some(handle)),
        0 <= k < carved.rocks@.len(),
    ensures
        handle == start.clusters@.len(),
        k >= start.rocks@.len() ==> carved.rocks@[k] is Some && carved.rocks@[k].unwrap().parent
            == Some(handle),
        k < start.rocks@.len() ==> carved.rocks@[k] == start.rocks@[k] && (carved.rocks@[k]
            matches Some(r) ==> r.parent != Some(handle)),
{
    let p = start.spec_player(player as int).unwrap();
    let target = p.spec_hold_target();
    let half = spec_half_extent(p.bundle.radius.current);
    let first = start.rocks@.len() as int;
    let made = start.spec_carved(player);
    let columns = (2 * half + 1) as nat;
    lemma_region_rocks(&start.sandbox, target, half, columns, handle);
    if k < first {
        assert(carved.rocks@[k] == start.rocks@[k]);
    } else {
        assert(carved.rocks@[k] == made[k - first]);
        assert(made_in_columns(
            &start.sandbox,
            target,
            handle,
            made[k - first],
            half,
            columns as int,
        ));
    }
}

/// A player carves, lets go at once, and the cluster, which has not moved,
/// settles back into the grid. Unless some rock that was ready to settle
/// before the carve lay over an empty cell of the grid, exactly the cells
/// that held a particle before the carve hold one again: the carved cells
/// and the cells under settled rocks hold plain dirt, and every other cell
/// is untouched.
pub proof fn law_carve_release_settle_restores_the_grid(
    start: &World,
    carved: &World,
    released: &World,
    restored: &World,
    player: usize,
    result: Option<usize>,
)
    requires
        start.wf(),
        start.spec_player(player as int) is Some,
        start.spec_player(player as int).unwrap().bundle.held.0 is None,
        forall|k: int, x: int, y: int|
            #[trigger] start.absorbs(Sweep::SettledClusters, k) && #[trigger] start.rock_in_cell(
                k,
                x,
                y,
            ) && start.sandbox.contains(x, y) ==> start.sandbox.occupied(x, y),
        start.grabbed(carved, player, result),
        carved.released(released, player),
        released.absorbed(restored, Sweep::SettledClusters),
    ensures
        restored.sandbox.spec_width() == start.sandbox.spec_width(),
        restored.sandbox.spec_height() == start.sandbox.spec_height(),
        forall|x: int, y: int|
            restored.sandbox.occupied(x, y) == #[trigger] start.sandbox.occupied(x, y),
        forall|x: int, y: int|
            #[trigger] restored.sandbox.at(x, y) == start.sandbox.at(x, y) || (
            start.sandbox.occupied(x, y) && restored.sandbox.at(x, y) == Some(
                spec_get_particle(ParticleTypes::Dirt),
            )),
        result is Some ==> restored.spec_cluster(result.unwrap() as int) is None,
{
    let first = start.rocks@.len() as int;
    let sweep = Sweep::SettledClusters;
    // what was ready to settle before the carve is what settles of the earlier rocks
    assert forall|k: int| 0 <= k < first implies (released.absorbs(sweep, k) <==> start.absorbs(
        sweep,
        k,
    )) && released.rocks@[k] == start.rocks@[k] by {
        assert(released.rocks@[k] == carved.rocks@[k]);
        assert(carved.rocks@[k] == start.rocks@[k]);
        if let Some(r) = start.rocks@[k] {
            if let Some(c) = r.parent {
                assert(c < start.clusters@.len());
                assert(carved.clusters@[c as int] == start.clusters@[c as int]);
                assert(released.clusters@[c as int] == start.clusters@[c as int]);
            }
        }
    }
    assert forall|x: int, y: int| released.refills(sweep, first, x, y) implies start.sandbox.occupied(
        x,
        y,
    ) by {
        let k = choose|k: int|
            0 <= k < first && #[trigger] released.absorbs(sweep, k) && released.rock_in_cell(
                k,
                x,
                y,
            );
        assert(start.absorbs(sweep, k));
        assert(start.rock_in_cell(k, x, y));
    }
    match result {
        None => {
            lemma_empty_carve_keeps_the_grid(start, carved, player);
            assert(released.rocks@.len() == first);
        },
        Some(handle) => {
            assert(carved.clusters@[handle as int] is Some);
            assert(carved.spec_is_held(handle as int));
            assert(released.spec_settled(handle as int)) by {
                assert(released.spec_cluster(handle as int).unwrap().velocity == (Vector {
                    x: 0,
                    y: 0,
                }));
            }
            assert forall|k: int| first <= k < released.rocks@.len() implies #[trigger] released.absorbs(
                sweep,
                k,
            ) by {
                lemma_carved_parents(start, carved, player, handle, k);
            }
            let p = start.spec_player(player as int).unwrap();
            lemma_carved_rocks_refill(
                &start.sandbox,
                p.spec_hold_target(),
                spec_half_extent(p.bundle.radius.current),
                handle,
                first,
                released,
                sweep,
            );
        },
    }
}

} // verus!
