//! Rocks and the clusters that carry them, and carving them out of the grid.

use vstd::prelude::*;
use crate::components::{HeldObject, PlayerBundle, Radius};
use crate::sandbox::{Sandbox, CELL};
use crate::vector::{clamp_i32, clamped, floor_div, Vector, SCALE};
use crate::world::{Player, World};

verus! {

/// Marks a cluster that a player is carrying.
#[derive(Clone, Copy, Debug, PartialEq, Eq, Structural)]
pub struct Held;

/// Marks a rock that returns to the grid once it comes to rest.
#[derive(Clone, Copy, Debug, PartialEq, Eq, Structural)]
pub struct PutBackIntoSandbox;

/// The player a cluster answers to.
#[derive(Clone, Copy, Debug, PartialEq, Eq, Structural)]
pub struct Owner(pub usize);

/// Whether anybody is carrying a cluster.
#[derive(Clone, Copy, Debug, PartialEq, Eq, Structural)]
pub enum GrabState {
    Empty,
    Holding,
}

/// Velocity measured from displacement: the last step's movement and the
/// position it was measured from.
#[derive(Clone, Copy, Debug, PartialEq, Eq, Structural)]
pub struct ActualVelocity {
    pub linvel: Vector,
    pub previous_pos: Vector,
}

/// One former grid cell. `parent` names the cluster it belongs to, if any.
#[derive(Clone, Copy, Debug, PartialEq, Eq)]
pub struct Rock {
    pub position: Vector,
    pub velocity: Vector,
    pub parent: Option<usize>,
    pub put_back: Option<PutBackIntoSandbox>,
}

/// How strongly a body resists spinning.
#[derive(Clone, Copy, Debug, PartialEq, Eq)]
pub enum AngularDamping {
    /// Spin dies down at this rate, in thousandths.
    Finite(u32),
    /// The body cannot spin at all.
    Infinite,
}

/// A cluster: the rigid body its rocks move with. `gravity_scale` is in
/// thousandths of normal gravity.
#[derive(Clone, Copy, Debug, PartialEq, Eq)]
pub struct ParentObject {
    pub position: Vector,
    pub velocity: Vector,
    pub mass: u32,
    pub gravity_scale: u32,
    pub angular_damping: AngularDamping,
    pub actual: ActualVelocity,
    pub owner: Owner,
    pub held: Option<Held>,
}

/// The gravity scale of a cluster that falls like anything else.
pub const NORMAL_GRAVITY: u32 = 1000;


impl Default for ActualVelocity {
    fn default() -> (r: Self)
        ensures
            r == (ActualVelocity {
                linvel: Vector { x: 0, y: 0 },
                previous_pos: Vector { x: 0, y: 0 },
            }),
    {
        ActualVelocity { linvel: Vector::zero(), previous_pos: Vector::zero() }
    }
}

impl ParentObject {
    /// Speed, rounded down to a whole step.
    pub open spec fn spec_speed(self) -> nat {
        self.velocity.spec_length()
    }

    /// Speed times mass.
    pub open spec fn spec_momentum(self) -> nat {
        self.spec_speed() * (self.mass as nat)
    }

    /// Speed, rounded down to a whole step.
    pub fn speed(&self) -> (s: u32)
        ensures
            s == self.spec_speed(),
    {
        self.velocity.length()
    }

    /// Speed times mass.
    pub fn momentum(&self) -> (m: u64)
        ensures
            m == self.spec_momentum(),
    {
        let s: u64 = self.velocity.length() as u64;
        let m: u64 = self.mass as u64;
        assert(s * m <= 0xFFFF_FFFF * 0xFFFF_FFFF) by (nonlinear_arith)
            requires
                0 <= s <= 0xFFFF_FFFF,
                0 <= m <= 0xFFFF_FFFF,
        ;
        s * m
    }
}

/// The carve square reaches this many cells from its centre in every
/// direction: the radius in cells, rounded to the nearest whole cell.
pub open spec fn spec_half_extent(radius: u32) -> int {
    (radius + CELL / 2) / (CELL as int)
}

/// The carve square reaches this many cells from its centre in every
/// direction.
pub fn half_extent(radius: u32) -> (half: u32)
    ensures
        half == spec_half_extent(radius),
{
    ((radius as u64 + 4000) / 8000) as u32
}

/// The rock made from the cell `(ox, oy)` cells away from the centre of a
/// carve at `target`: it sits where the cell was, relative to the target.
pub open spec fn carved_rock(target: Vector, ox: int, oy: int, parent: usize) -> Rock {
    Rock {
        position: Vector { x: (target.x + ox * CELL) as i32, y: (target.y + oy * CELL) as i32 },
        velocity: Vector { x: 0, y: 0 },
        parent: Some(parent),
        put_back: None,
    }
}

/// The rocks made from the first `rows` cells of one column of a carve
/// square, lowest first. `ox` is the column's distance from the centre.
pub open spec fn column_rocks(
    sandbox: &Sandbox,
    target: Vector,
    half: int,
    ox: int,
    rows: nat,
    parent: usize,
) -> Seq<Option<Rock>>
    decreases rows,
{
    if rows == 0 {
        Seq::empty()
    } else {
        let below = column_rocks(sandbox, target, half, ox, (rows - 1) as nat, parent);
        let oy = rows - 1 - half;
        let x = Sandbox::spec_cell(target.x as int, sandbox.spec_width()) + ox;
        let y = Sandbox::spec_cell(target.y as int, sandbox.spec_height()) + oy;
        if sandbox.occupied(x, y) {
            below.push(Some(carved_rock(target, ox, oy, parent)))
        } else {
            below
        }
    }
}

/// The rocks made from the first `columns` columns of a carve square,
/// leftmost column first.
pub open spec fn region_rocks(
    sandbox: &Sandbox,
    target: Vector,
    half: int,
    columns: nat,
    parent: usize,
) -> Seq<Option<Rock>>
    decreases columns,
{
    if columns == 0 {
        Seq::empty()
    } else {
        region_rocks(sandbox, target, half, (columns - 1) as nat, parent) + column_rocks(
            sandbox,
            target,
            half,
            columns - 1 - half,
            (2 * half + 1) as nat,
            parent,
        )
    }
}

impl Player {
    /// Where a held cluster is pulled to, and where a carve is centred: the
    /// point `range + radius` along the aim from the player.
    pub open spec fn spec_hold_target(self) -> Vector {
        let reach = self.bundle.range.0 + self.bundle.radius.current;
        Vector {
            x: clamped(self.position.x + (self.bundle.aim_direction.0.x * reach) / (SCALE as int)) as i32,
            y: clamped(self.position.y + (self.bundle.aim_direction.0.y * reach) / (SCALE as int)) as i32,
        }
    }

    /// Where a held cluster is pulled to, and where a carve is centred.
    pub fn hold_target(&self) -> (target: Vector)
        ensures
            target == self.spec_hold_target(),
    {
        let reach: i128 = self.bundle.range.0 as i128 + self.bundle.radius.current as i128;
        let ax: i128 = self.bundle.aim_direction.0.x as i128;
        let ay: i128 = self.bundle.aim_direction.0.y as i128;
        assert(-0x1_0000_0000_0000_0000 <= ax * reach <= 0x1_0000_0000_0000_0000) by (nonlinear_arith)
            requires
                -0x8000_0000 <= ax <= 0x8000_0000,
                0 <= reach <= 0x2_0000_0000,
        ;
        assert(-0x1_0000_0000_0000_0000 <= ay * reach <= 0x1_0000_0000_0000_0000) by (nonlinear_arith)
            requires
                -0x8000_0000 <= ay <= 0x8000_0000,
                0 <= reach <= 0x2_0000_0000,
        ;
        let dx: i128 = floor_div(ax * reach, SCALE as i128);
        let dy: i128 = floor_div(ay * reach, SCALE as i128);
        Vector {
            x: clamp_i32(self.position.x as i128 + dx),
            y: clamp_i32(self.position.y as i128 + dy),
        }
    }
}

impl World {
    /// The rocks a carve by the player would make.
    pub open spec fn spec_carved(&self, player: usize) -> Seq<Option<Rock>> {
        let p = self.spec_player(player as int).unwrap();
        let half = spec_half_extent(p.bundle.radius.current);
        region_rocks(
            &self.sandbox,
            p.spec_hold_target(),
            half,
            (2 * half + 1) as nat,
            self.clusters.len(),
        )
    }

    /// What a carve by the player leaves behind, `self` being the world
    /// before and `after` the world after.
    ///
    /// A player that does not exist or already holds a cluster carves
    /// nothing. Otherwise every cell of the carve square is empty afterwards
    /// and no other cell has changed; each cell of the square that held a
    /// particle has become a rock. If there is at least one rock, a new
    /// cluster owns them all: it floats at the target, weightless, unable
    /// to spin and without mass or motion so far, answers to the player and
    /// is held; the player holds it, and somebody is holding.
    pub open spec fn grabbed(&self, after: &World, player: usize, result: Option<usize>) -> bool {
        match self.spec_player(player as int) {
            Some(p) if p.bundle.held.0 is None => {
                let target = p.spec_hold_target();
                let half = spec_half_extent(p.bundle.radius.current);
                let cx = Sandbox::spec_cell(target.x as int, self.sandbox.spec_width());
                let cy = Sandbox::spec_cell(target.y as int, self.sandbox.spec_height());
                let handle = self.clusters.len();
                let carved = self.spec_carved(player);
                &&& after.sandbox.wf()
                &&& after.sandbox.spec_width() == self.sandbox.spec_width()
                &&& after.sandbox.spec_height() == self.sandbox.spec_height()
                &&& forall|x: int, y: int|
                    after.sandbox.at(x, y) == if Sandbox::in_square(cx, cy, half, x, y) {
                        None
                    } else {
                        self.sandbox.at(x, y)
                    }
                &&& after.rocks@ == self.rocks@ + carved
                &&& if carved.len() == 0 {
                    &&& result is None
                    &&& after.clusters@ == self.clusters@
                    &&& after.players@ == self.players@
                    &&& after.grab_state == self.grab_state
                } else {
                    &&& result == Some(handle)
                    &&& after.clusters@ == self.clusters@.push(
                        Some(
                            ParentObject {
                                position: target,
                                velocity: Vector { x: 0, y: 0 },
                                mass: 0,
                                gravity_scale: 0,
                                angular_damping: AngularDamping::Infinite,
                                actual: ActualVelocity {
                                    linvel: Vector { x: 0, y: 0 },
                                    previous_pos: Vector { x: 0, y: 0 },
                                },
                                owner: Owner(player),
                                held: Some(Held),
                            },
                        ),
                    )
                    &&& after.players@ == self.players@.update(
                        player as int,
                        Some(
                            Player {
                                bundle: PlayerBundle { held: HeldObject(Some(handle)), ..p.bundle },
                                ..p
                            },
                        ),
                    )
                    &&& after.grab_state == GrabState::Holding
                }
            },
            _ => {
                &&& result is None
                &&& after.sandbox == self.sandbox
                &&& after.rocks@ == self.rocks@
                &&& after.clusters@ == self.clusters@
                &&& after.players@ == self.players@
                &&& after.grab_state == self.grab_state
            },
        }
    }

    /// Carves the square in front of the player out of the grid. Every
    /// particle in it becomes a rock of a new cluster, which the player then
    /// holds. Returns the cluster, or nothing if nothing was carved.
    pub fn grab_dirt(&mut self, player: usize) -> (result: Option<usize>)
        requires
            old(self).wf(),
        ensures
            final(self).wf(),
            old(self).grabbed(final(self), player, result),
    {
        let p: Player = match self.player(player) {
            Some(p) => p,
            None => {
                return None;
            },
        };
        if p.bundle.held.0.is_some() {
            return None;
        }
        let target: Vector = p.hold_target();
        let half: i64 = half_extent(p.bundle.radius.current) as i64;
        let side: i64 = 2 * half + 1;
        let (cx, cy) = self.sandbox.cell_of(target);
        let handle: usize = self.clusters.len();
        let width: usize = self.sandbox.width();
        let height: usize = self.sandbox.height();
        let mut found: bool = false;
        let mut m: i64 = 0;
        while m < side
            invariant
                0 <= m <= side,
                side == 2 * half + 1,
                0 <= half <= 0x10_0000,
                self.sandbox.wf(),
                old(self).wf(),
                handle == old(self).clusters@.len(),
                self.rocks@.len() >= old(self).rocks@.len(),
                forall|k: int|
                    old(self).rocks@.len() <= k < self.rocks@.len() ==> (#[trigger] self.rocks@[k])
                        is Some && self.rocks@[k].unwrap().parent == Some(handle),
                cx == Sandbox::spec_cell(target.x as int, old(self).sandbox.spec_width()),
                cy == Sandbox::spec_cell(target.y as int, old(self).sandbox.spec_height()),
                width == old(self).sandbox.spec_width(),
                height == old(self).sandbox.spec_height(),
                width <= 0x4_0000,
                height <= 0x4_0000,
                self.sandbox.spec_width() == old(self).sandbox.spec_width(),
                self.sandbox.spec_height() == old(self).sandbox.spec_height(),
                forall|i: int, j: int|
                    self.sandbox.at(i, j) == if cx - half <= i < cx - half + m && cy - half <= j
                        <= cy + half {
                        None
                    } else {
                        old(self).sandbox.at(i, j)
                    },
                self.rocks@ == old(self).rocks@ + region_rocks(
                    &old(self).sandbox,
                    target,
                    half as int,
                    m as nat,
                    handle,
                ),
                found == (self.rocks@.len() > old(self).rocks@.len()),
                self.clusters == old(self).clusters,
                self.players == old(self).players,
                self.grab_state == old(self).grab_state,
            decreases side - m,
        {
            let ox: i64 = m - half;
            let x: i64 = cx as i64 + ox;
            let ghost before = self.rocks@;
            let mut n: i64 = 0;
            while n < side
                invariant
                    0 <= n <= side,
                    0 <= m < side,
                    side == 2 * half + 1,
                    0 <= half <= 0x10_0000,
                    ox == m - half,
                    x == cx + ox,
                    self.sandbox.wf(),
                    old(self).wf(),
                    handle == old(self).clusters@.len(),
                    self.rocks@.len() >= old(self).rocks@.len(),
                    forall|k: int|
                        old(self).rocks@.len() <= k < self.rocks@.len() ==> (
                        #[trigger] self.rocks@[k]) is Some && self.rocks@[k].unwrap().parent
                            == Some(handle),
                    cx == Sandbox::spec_cell(target.x as int, old(self).sandbox.spec_width()),
                    cy == Sandbox::spec_cell(target.y as int, old(self).sandbox.spec_height()),
                    width == old(self).sandbox.spec_width(),
                    height == old(self).sandbox.spec_height(),
                    width <= 0x4_0000,
                    height <= 0x4_0000,
                    self.sandbox.spec_width() == old(self).sandbox.spec_width(),
                    self.sandbox.spec_height() == old(self).sandbox.spec_height(),
                    forall|i: int, j: int|
                        self.sandbox.at(i, j) == if (cx - half <= i < cx - half + m && cy - half
                            <= j <= cy + half) || (i == x && cy - half <= j < cy - half + n) {
                            None
                        } else {
                            old(self).sandbox.at(i, j)
                        },
                    self.rocks@ == before + column_rocks(
                        &old(self).sandbox,
                        target,
                        half as int,
                        ox as int,
                        n as nat,
                        handle,
                    ),
                    before.len() >= old(self).rocks@.len(),
                    found == (self.rocks@.len() > old(self).rocks@.len()),
                    self.clusters == old(self).clusters,
                    self.players == old(self).players,
                    self.grab_state == old(self).grab_state,
                decreases side - n,
            {
                let oy: i64 = n - half;
                let y: i64 = cy as i64 + oy;
                if self.sandbox.in_bounds(x, y) && self.sandbox.get(x as usize, y as usize).is_some() {
                    self.sandbox.set(x as usize, y as usize, None);
                    let px: i64 = target.x as i64 + ox * 8000;
                    let py: i64 = target.y as i64 + oy * 8000;
                    assert(-0x7FFF_FFFF <= px <= 0x7FFF_FFFF && -0x7FFF_FFFF <= py <= 0x7FFF_FFFF);
                    self.rocks.push(
                        Some(
                            Rock {
                                position: Vector { x: px as i32, y: py as i32 },
                                velocity: Vector::zero(),
                                parent: Some(handle),
                                put_back: None,
                            },
                        ),
                    );
                    found = true;
                } else {
                    proof {
                        if !self.sandbox.contains(x as int, y as int) {
                            old(self).sandbox.lemma_outside_empty(x as int, y as int);
                        }
                    }
                }
                n += 1;
            }
            m += 1;
        }
        if found {
            self.clusters.push(
                Some(
                    ParentObject {
                        position: target,
                        velocity: Vector::zero(),
                        mass: 0,
                        gravity_scale: 0,
                        angular_damping: AngularDamping::Infinite,
                        actual: ActualVelocity::default(),
                        owner: Owner(player),
                        held: Some(Held),
                    },
                ),
            );
            self.players.set(
                player,
                Some(
                    Player {
                        bundle: PlayerBundle { held: HeldObject(Some(handle)), ..p.bundle },
                        ..p
                    },
                ),
            );
            self.grab_state = GrabState::Holding;
            Some(handle)
        } else {
            None
        }
    }
}

/// The easing speed, in millionths, of a radius with the given rate (in
/// thousandths per second) over `delta` microseconds; at most the largest
/// number there is.
pub open spec fn spec_easing_speed(rate: u32, delta: u64) -> u32 {
    let speed = (rate * delta) / (SCALE as int);
    if speed > u32::MAX {
        u32::MAX
    } else {
        speed as u32
    }
}

/// The easing speed of a radius over `delta` microseconds.
pub fn easing_speed(rate: u32, delta: u64) -> (speed: u32)
    ensures
        speed == spec_easing_speed(rate, delta),
{
    let r: u128 = rate as u128;
    let d: u128 = delta as u128;
    assert(r * d <= 0xFFFF_FFFF * 0xFFFF_FFFF_FFFF_FFFF) by (nonlinear_arith)
        requires
            0 <= r <= 0xFFFF_FFFF,
            0 <= d <= 0xFFFF_FFFF_FFFF_FFFF,
    ;
    let speed: u128 = (r * d) / 1000;
    if speed > u32::MAX as u128 {
        u32::MAX
    } else {
        speed as u32
    }
}

/// A radius after the carve button was held for `delta` microseconds: it
/// eases outwards; a radius of zero has nothing to ease from and stays zero.
pub open spec fn widened(radius: Radius, delta: u64) -> Radius {
    if radius.spec_can_ease() {
        radius.eased(spec_easing_speed(radius.speed, delta))
    } else {
        radius
    }
}

impl World {
    /// Answers the carve button being held for `delta` microseconds: the
    /// player's carve radius eases outwards. An unknown player is ignored.
    pub fn increase_grab_radius(&mut self, player: usize, delta: u64)
        ensures
            final(self).players@ == match old(self).spec_player(player as int) {
                Some(p) => old(self).players@.update(
                    player as int,
                    Some(
                        Player {
                            bundle: PlayerBundle {
                                radius: widened(p.bundle.radius, delta),
                                ..p.bundle
                            },
                            ..p
                        },
                    ),
                ),
                None => old(self).players@,
            },
            final(self).sandbox == old(self).sandbox,
            final(self).rocks == old(self).rocks,
            final(self).clusters == old(self).clusters,
            final(self).grab_state == old(self).grab_state,
    {
        if let Some(p) = self.player(player) {
            let mut radius = p.bundle.radius;
            if radius.can_ease() {
                radius.ease_out_expo(easing_speed(radius.speed, delta));
            }
            self.players.set(
                player,
                Some(Player { bundle: PlayerBundle { radius, ..p.bundle }, ..p }),
            );
        }
    }
}

/// Whether `rock` is the rock a carve at `target` makes from the particle in
/// cell `(x, y)`.
pub open spec fn made_from(
    sandbox: &Sandbox,
    target: Vector,
    parent: usize,
    rock: Option<Rock>,
    x: int,
    y: int,
) -> bool {
    let cx = Sandbox::spec_cell(target.x as int, sandbox.spec_width());
    let cy = Sandbox::spec_cell(target.y as int, sandbox.spec_height());
    sandbox.occupied(x, y) && rock == Some(carved_rock(target, x - cx, y - cy, parent))
}

/// Whether `rock` is made from a particle in column `x`, rows `low` up to
/// but not including `high`.
pub open spec fn made_in_column(
    sandbox: &Sandbox,
    target: Vector,
    parent: usize,
    rock: Option<Rock>,
    x: int,
    low: int,
    high: int,
) -> bool {
    exists|y: int| low <= y < high && #[trigger] made_from(sandbox, target, parent, rock, x, y)
}

/// Whether `(x, y)` lies in the first `columns` columns of the carve square
/// reaching `half` cells from `(cx, cy)`.
pub open spec fn in_columns(cx: int, cy: int, half: int, columns: int, x: int, y: int) -> bool {
    cx - half <= x < cx - half + columns && cy - half <= y <= cy + half
}

/// Whether `rock` is made from a particle in the first `columns` columns of
/// the carve square.
pub open spec fn made_in_columns(
    sandbox: &Sandbox,
    target: Vector,
    parent: usize,
    rock: Option<Rock>,
    half: int,
    columns: int,
) -> bool {
    let cx = Sandbox::spec_cell(target.x as int, sandbox.spec_width());
    let cy = Sandbox::spec_cell(target.y as int, sandbox.spec_height());
    exists|x: int, y: int|
        in_columns(cx, cy, half, columns, x, y) && #[trigger] made_from(
            sandbox,
            target,
            parent,
            rock,
            x,
            y,
        )
}

/// Whether one of `rocks` is made from the particle in cell `(x, y)`.
pub open spec fn has_rock_from(
    sandbox: &Sandbox,
    target: Vector,
    parent: usize,
    rocks: Seq<Option<Rock>>,
    x: int,
    y: int,
) -> bool {
    exists|k: int|
        0 <= k < rocks.len() && #[trigger] made_from(sandbox, target, parent, rocks[k], x, y)
}

/// The rocks of a column are exactly the rocks made from its particles.
pub proof fn lemma_column_rocks(
    sandbox: &Sandbox,
    target: Vector,
    half: int,
    ox: int,
    rows: nat,
    parent: usize,
)
    ensures
        ({
            let cx = Sandbox::spec_cell(target.x as int, sandbox.spec_width());
            let cy = Sandbox::spec_cell(target.y as int, sandbox.spec_height());
            let column = column_rocks(sandbox, target, half, ox, rows, parent);
            &&& forall|k: int|
                0 <= k < column.len() ==> made_in_column(
                    sandbox,
                    target,
                    parent,
                    #[trigger] column[k],
                    cx + ox,
                    cy - half,
                    cy - half + rows,
                )
            &&& forall|y: int|
                cy - half <= y < cy - half + rows && #[trigger] sandbox.occupied(cx + ox, y)
                    ==> has_rock_from(sandbox, target, parent, column, cx + ox, y)
        }),
    decreases rows,
{
    if rows > 0 {
        let cx = Sandbox::spec_cell(target.x as int, sandbox.spec_width());
        let cy = Sandbox::spec_cell(target.y as int, sandbox.spec_height());
        let below = column_rocks(sandbox, target, half, ox, (rows - 1) as nat, parent);
        let column = column_rocks(sandbox, target, half, ox, rows, parent);
        let top = cy + rows - 1 - half;
        lemma_column_rocks(sandbox, target, half, ox, (rows - 1) as nat, parent);
        assert forall|k: int| 0 <= k < column.len() implies made_in_column(
            sandbox,
            target,
            parent,
            #[trigger] column[k],
            cx + ox,
            cy - half,
            cy - half + rows,
        ) by {
            if k < below.len() {
                assert(made_in_column(
                    sandbox,
                    target,
                    parent,
                    below[k],
                    cx + ox,
                    cy - half,
                    cy - half + rows - 1,
                ));
                let y = choose|y: int|
                    cy - half <= y < cy - half + rows - 1 && #[trigger] made_from(
                        sandbox,
                        target,
                        parent,
                        below[k],
                        cx + ox,
                        y,
                    );
                assert(made_from(sandbox, target, parent, column[k], cx + ox, y));
            } else {
                assert(made_from(sandbox, target, parent, column[k], cx + ox, top));
            }
        }
        assert forall|y: int|
            cy - half <= y < cy - half + rows && #[trigger] sandbox.occupied(
                cx + ox,
                y,
            ) implies has_rock_from(sandbox, target, parent, column, cx + ox, y) by {
            if y < top {
                assert(has_rock_from(sandbox, target, parent, below, cx + ox, y));
                let k = choose|k: int|
                    0 <= k < below.len() && #[trigger] made_from(
                        sandbox,
                        target,
                        parent,
                        below[k],
                        cx + ox,
                        y,
                    );
                assert(made_from(sandbox, target, parent, column[k], cx + ox, y));
            } else {
                assert(made_from(
                    sandbox,
                    target,
                    parent,
                    column[column.len() - 1],
                    cx + ox,
                    y,
                ));
            }
        }
    }
}

/// The rocks of a carve are exactly the rocks made from the particles in
/// its square.
pub proof fn lemma_region_rocks(
    sandbox: &Sandbox,
    target: Vector,
    half: int,
    columns: nat,
    parent: usize,
)
    requires
        half >= 0,
    ensures
        ({
            let cx = Sandbox::spec_cell(target.x as int, sandbox.spec_width());
            let cy = Sandbox::spec_cell(target.y as int, sandbox.spec_height());
            let region = region_rocks(sandbox, target, half, columns, parent);
            &&& forall|k: int|
                0 <= k < region.len() ==> made_in_columns(
                    sandbox,
                    target,
                    parent,
                    #[trigger] region[k],
                    half,
                    columns as int,
                )
            &&& forall|x: int, y: int|
                in_columns(cx, cy, half, columns as int, x, y) && #[trigger] sandbox.occupied(x, y)
                    ==> has_rock_from(sandbox, target, parent, region, x, y)
        }),
    decreases columns,
{
    if columns > 0 {
        let cx = Sandbox::spec_cell(target.x as int, sandbox.spec_width());
        let cy = Sandbox::spec_cell(target.y as int, sandbox.spec_height());
        let ox = columns - 1 - half;
        let rows = (2 * half + 1) as nat;
        let before = region_rocks(sandbox, target, half, (columns - 1) as nat, parent);
        let column = column_rocks(sandbox, target, half, ox, rows, parent);
        let region = region_rocks(sandbox, target, half, columns, parent);
        assert(region == before + column);
        lemma_region_rocks(sandbox, target, half, (columns - 1) as nat, parent);
        lemma_column_rocks(sandbox, target, half, ox, rows, parent);
        assert forall|k: int| 0 <= k < region.len() implies made_in_columns(
            sandbox,
            target,
            parent,
            #[trigger] region[k],
            half,
            columns as int,
        ) by {
            if k < before.len() {
                assert(made_in_columns(sandbox, target, parent, before[k], half, columns - 1));
                let (x, y) = choose|x: int, y: int|
                    in_columns(cx, cy, half, columns - 1, x, y) && #[trigger] made_from(
                        sandbox,
                        target,
                        parent,
                        before[k],
                        x,
                        y,
                    );
                assert(in_columns(cx, cy, half, columns as int, x, y) && made_from(
                    sandbox,
                    target,
                    parent,
                    region[k],
                    x,
                    y,
                ));
            } else {
                let j = k - before.len();
                assert(made_in_column(
                    sandbox,
                    target,
                    parent,
                    column[j],
                    cx + ox,
                    cy - half,
                    cy - half + rows,
                ));
                let y = choose|y: int|
                    cy - half <= y < cy - half + rows && #[trigger] made_from(
                        sandbox,
                        target,
                        parent,
                        column[j],
                        cx + ox,
                        y,
                    );
                assert(in_columns(cx, cy, half, columns as int, cx + ox, y) && made_from(
                    sandbox,
                    target,
                    parent,
                    region[k],
                    cx + ox,
                    y,
                ));
            }
        }
        assert forall|x: int, y: int|
            in_columns(cx, cy, half, columns as int, x, y) && #[trigger] sandbox.occupied(
                x,
                y,
            ) implies has_rock_from(sandbox, target, parent, region, x, y) by {
            if x < cx + ox {
                assert(in_columns(cx, cy, half, columns - 1, x, y));
                assert(has_rock_from(sandbox, target, parent, before, x, y));
                let k = choose|k: int|
                    0 <= k < before.len() && #[trigger] made_from(
                        sandbox,
                        target,
                        parent,
                        before[k],
                        x,
                        y,
                    );
                assert(made_from(sandbox, target, parent, region[k], x, y));
            } else {
                assert(x == cx + ox);
                assert(sandbox.occupied(cx + ox, y));
                assert(has_rock_from(sandbox, target, parent, column, cx + ox, y));
                let j = choose|j: int|
                    0 <= j < column.len() && #[trigger] made_from(
                        sandbox,
                        target,
                        parent,
                        column[j],
                        cx + ox,
                        y,
                    );
                assert(region[before.len() + j] == column[j]);
                assert(made_from(sandbox, target, parent, region[before.len() + j], x, y));
            }
        }
    }
}

/// The rock made from a particle of the grid lies in that particle's cell.
pub proof fn lemma_carved_rock_cell(
    sandbox: &Sandbox,
    target: Vector,
    parent: usize,
    rock: Option<Rock>,
    x: int,
    y: int,
)
    requires
        sandbox.wf(),
        made_from(sandbox, target, parent, rock, x, y),
    ensures
        rock is Some,
        rock.unwrap().parent == Some(parent),
        Sandbox::spec_cell(rock.unwrap().position.x as int, sandbox.spec_width()) == x,
        Sandbox::spec_cell(rock.unwrap().position.y as int, sandbox.spec_height()) == y,
{
    sandbox.lemma_sides();
    if !sandbox.contains(x, y) {
        sandbox.lemma_outside_empty(x, y);
    }
    let cx = Sandbox::spec_cell(target.x as int, sandbox.spec_width());
    let cy = Sandbox::spec_cell(target.y as int, sandbox.spec_height());
    let px = target.x + (x - cx) * CELL;
    let py = target.y + (y - cy) * CELL;
    assert(-0x7FFF_FFFF <= px <= 0x7FFF_FFFF);
    assert(-0x7FFF_FFFF <= py <= 0x7FFF_FFFF);
    assert(px / (CELL as int) == target.x as int / (CELL as int) + (x - cx));
    assert(py / (CELL as int) == target.y as int / (CELL as int) + (y - cy));
}

impl World {
    /// Whether one of the rocks from handle `first` on lies in cell `(x, y)`.
    pub open spec fn has_rock_in_cell(&self, first: int, x: int, y: int) -> bool {
        exists|k: int| first <= k < self.rocks@.len() && #[trigger] self.rock_in_cell(k, x, y)
    }

    /// Whether the rock under the handle lies in a cell of the square that
    /// held a particle in `before`.
    pub open spec fn lies_on_particle(
        &self,
        before: &World,
        rock: int,
        cx: int,
        cy: int,
        half: int,
    ) -> bool {
        exists|x: int, y: int|
            Sandbox::in_square(cx, cy, half, x, y) && before.sandbox.occupied(x, y)
                && #[trigger] self.rock_in_cell(rock, x, y)
    }
}

/// A carve empties exactly the cells of its square that lie in the grid and
/// held a particle, turns each of them into one rock of the new cluster that
/// lies where the cell was, and touches nothing outside the grid. If no
/// cell of the square held a particle, the world stays as it was: no rock,
/// no cluster, nobody holding.
pub proof fn law_carve_takes_the_square(
    before: &World,
    after: &World,
    player: usize,
    result: Option<usize>,
)
    requires
        before.wf(),
        before.grabbed(after, player, result),
        before.spec_player(player as int) is Some,
        before.spec_player(player as int).unwrap().bundle.held.0 is None,
    ensures
        ({
            let p = before.spec_player(player as int).unwrap();
            let target = p.spec_hold_target();
            let half = spec_half_extent(p.bundle.radius.current);
            let cx = Sandbox::spec_cell(target.x as int, before.sandbox.spec_width());
            let cy = Sandbox::spec_cell(target.y as int, before.sandbox.spec_height());
            let first = before.rocks@.len() as int;
            &&& forall|x: int, y: int| !before.sandbox.contains(x, y) ==> after.sandbox.at(x, y) is None
            &&& forall|x: int, y: int|
                after.sandbox.at(x, y) != before.sandbox.at(x, y) <==> Sandbox::in_square(
                    cx,
                    cy,
                    half,
                    x,
                    y,
                ) && #[trigger] before.sandbox.occupied(x, y)
            &&& forall|x: int, y: int|
                Sandbox::in_square(cx, cy, half, x, y) && #[trigger] before.sandbox.occupied(x, y)
                    ==> after.has_rock_in_cell(first, x, y)
            &&& forall|k: int|
                first <= k < after.rocks@.len() ==> #[trigger] after.lies_on_particle(
                    before,
                    k,
                    cx,
                    cy,
                    half,
                )
            &&& (forall|x: int, y: int|
                Sandbox::in_square(cx, cy, half, x, y) ==> !#[trigger] before.sandbox.occupied(x, y))
                ==> {
                &&& result is None
                &&& after.rocks@ == before.rocks@
                &&& after.clusters@ == before.clusters@
                &&& after.players@ == before.players@
                &&& after.grab_state == before.grab_state
            }
        }),
{
    let p = before.spec_player(player as int).unwrap();
    let target = p.spec_hold_target();
    let half = spec_half_extent(p.bundle.radius.current);
    let cx = Sandbox::spec_cell(target.x as int, before.sandbox.spec_width());
    let cy = Sandbox::spec_cell(target.y as int, before.sandbox.spec_height());
    let first = before.rocks@.len() as int;
    let handle = before.clusters.len();
    let carved = before.spec_carved(player);
    let columns = (2 * half + 1) as nat;
    lemma_region_rocks(&before.sandbox, target, half, columns, handle);
    assert forall|x: int, y: int| !before.sandbox.contains(x, y) implies after.sandbox.at(x, y)
        is None by {
        before.sandbox.lemma_outside_empty(x, y);
    }
    assert forall|x: int, y: int|
        Sandbox::in_square(cx, cy, half, x, y) && #[trigger] before.sandbox.occupied(
            x,
            y,
        ) implies after.has_rock_in_cell(first, x, y) by {
        assert(in_columns(cx, cy, half, columns as int, x, y));
        assert(has_rock_from(&before.sandbox, target, handle, carved, x, y));
        let j = choose|j: int|
            0 <= j < carved.len() && #[trigger] made_from(
                &before.sandbox,
                target,
                handle,
                carved[j],
                x,
                y,
            );
        lemma_carved_rock_cell(&before.sandbox, target, handle, carved[j], x, y);
        assert(after.rocks@[first + j] == carved[j]);
        assert(after.rock_in_cell(first + j, x, y));
    }
    assert forall|k: int| first <= k < after.rocks@.len() implies #[trigger] after.lies_on_particle(
        before,
        k,
        cx,
        cy,
        half,
    ) by {
        let j = k - first;
        assert(after.rocks@[k] == carved[j]);
        assert(made_in_columns(&before.sandbox, target, handle, carved[j], half, columns as int));
        let (x, y) = choose|x: int, y: int|
            in_columns(cx, cy, half, columns as int, x, y) && #[trigger] made_from(
                &before.sandbox,
                target,
                handle,
                carved[j],
                x,
                y,
            );
        lemma_carved_rock_cell(&before.sandbox, target, handle, carved[j], x, y);
        assert(Sandbox::in_square(cx, cy, half, x, y) && before.sandbox.occupied(x, y)
            && after.rock_in_cell(k, x, y));
    }
    if forall|x: int, y: int|
        Sandbox::in_square(cx, cy, half, x, y) ==> !#[trigger] before.sandbox.occupied(x, y) {
        if carved.len() > 0 {
            assert(made_in_columns(
                &before.sandbox,
                target,
                handle,
                carved[0],
                half,
                columns as int,
            ));
            let (x, y) = choose|x: int, y: int|
                in_columns(cx, cy, half, columns as int, x, y) && #[trigger] made_from(
                    &before.sandbox,
                    target,
                    handle,
                    carved[0],
                    x,
                    y,
                );
            assert(Sandbox::in_square(cx, cy, half, x, y));
            assert(before.sandbox.occupied(x, y));
        }
        assert(after.rocks@ == before.rocks@);
    }
}

} // verus!
