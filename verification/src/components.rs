//! What a player carries: aim, reach, carve radius, held cluster, health,
//! spare jumps and parry state.

use vstd::prelude::*;
use crate::parry::Parry;
use crate::vector::Vector;

verus! {

/// Where the player aims, in thousandths; `(1000, 0)` points along `x`.
#[derive(Clone, Copy, Debug, PartialEq, Eq, Structural)]
pub struct AimDirection(pub Vector);

impl Default for AimDirection {
    fn default() -> (r: Self)
        ensures
            r == AimDirection(Vector { x: 1000, y: 0 }),
    {
        AimDirection(Vector { x: 1000, y: 0 })
    }
}

/// How far from the player the carve circle floats.
#[derive(Clone, Copy, Debug, PartialEq, Eq, Structural)]
pub struct Range(pub u32);

impl Default for Range {
    fn default() -> (r: Self)
        ensures
            r == Range(200_000),
    {
        Range(200_000)
    }
}

/// The carve radius and the limits it moves between. `speed` is the easing
/// rate in thousandths per second.
#[derive(Clone, Copy, Debug, PartialEq, Eq, Structural)]
pub struct Radius {
    pub min: u32,
    pub current: u32,
    pub max: u32,
    pub speed: u32,
}

impl Default for Radius {
    fn default() -> (r: Self)
        ensures
            r == (Radius { min: 30_000, current: 30_000, max: 80_000, speed: 200 }),
    {
        Radius { min: 30_000, current: 30_000, max: 80_000, speed: 200 }
    }
}

/// One of the four steps of easing: a quantity times `max / current`,
/// rounded down.
pub open spec fn spec_ease_step(quantity: int, max: int, current: int) -> int {
    (quantity * max) / current
}

/// A step of easing does not shrink what it is given if `max` is at least
/// `current`, and does not grow it if `max` is at most `current`.
pub proof fn lemma_ease_step(quantity: int, max: int, current: int)
    requires
        quantity >= 0,
        max >= 0,
        current > 0,
    ensures
        spec_ease_step(quantity, max, current) >= 0,
        max <= current ==> spec_ease_step(quantity, max, current) <= quantity,
        max >= current ==> spec_ease_step(quantity, max, current) >= quantity,
{
    let product = quantity * max;
    let same = current * quantity;
    assert(product >= 0 && same >= 0 && (max <= current ==> product <= same) && (max >= current
        ==> product >= same)) by (nonlinear_arith)
        requires
            product == quantity * max,
            same == current * quantity,
            quantity >= 0,
            max >= 0,
            current > 0,
    ;
    vstd::arithmetic::div_mod::lemma_div_multiples_vanish(quantity, current);
    vstd::arithmetic::div_mod::lemma_div_is_ordered(0, product, current);
    if max <= current {
        vstd::arithmetic::div_mod::lemma_div_is_ordered(product, same, current);
    }
    if max >= current {
        vstd::arithmetic::div_mod::lemma_div_is_ordered(same, product, current);
    }
}

/// One of the four steps of easing.
fn ease_step(quantity: u128, max: u32, current: u32) -> (r: u128)
    requires
        quantity < 0x1_0000_0000_0000_0000,
        current > 0,
    ensures
        r == spec_ease_step(quantity as int, max as int, current as int),
        r < 0x1_0000_0000_0000_0000_0000_0000,
{
    assert(quantity * max < 0x1_0000_0000_0000_0000_0000_0000) by (nonlinear_arith)
        requires
            0 <= quantity < 0x1_0000_0000_0000_0000,
            0 <= max <= 0xFFFF_FFFF,
    ;
    (quantity * max as u128) / (current as u128)
}

impl Radius {
    /// The radius after easing at `speed`, which is in millionths. With
    /// `x = current / max`, the radius becomes `max * (x + speed * x^-4)`:
    /// it grows by `speed * max` times `max / current` four times over, each
    /// step rounded down; fast while it is small and ever slower as it nears
    /// `max`. It stops at the largest number there is.
    pub open spec fn eased(self, speed: u32) -> Radius {
        let max = self.max as int;
        let current = self.current as int;
        let once = spec_ease_step(speed * max, max, current);
        let twice = spec_ease_step(once, max, current);
        let thrice = spec_ease_step(twice, max, current);
        let last = spec_ease_step(thrice, max, current);
        let grown = current + last / 1_000_000;
        Radius {
            current: if grown > u32::MAX {
                u32::MAX
            } else {
                grown as u32
            },
            ..self
        }
    }

    /// Whether the radius can be eased: it is not zero.
    pub open spec fn spec_can_ease(self) -> bool {
        self.current > 0
    }

    /// Whether the radius can be eased.
    pub fn can_ease(&self) -> (b: bool)
        ensures
            b == self.spec_can_ease(),
    {
        self.current > 0
    }

    /// Eases the radius outwards at `speed`, which is in millionths.
    pub fn ease_out_expo(&mut self, speed: u32)
        requires
            old(self).spec_can_ease(),
        ensures
            *final(self) == old(self).eased(speed),
    {
        let max: u32 = self.max;
        let current: u32 = self.current;
        assert(speed * max <= 0xFFFF_FFFF * 0xFFFF_FFFF) by (nonlinear_arith)
            requires
                0 <= speed <= 0xFFFF_FFFF,
                0 <= max <= 0xFFFF_FFFF,
        ;
        let start: u128 = speed as u128 * max as u128;
        let ghost once = spec_ease_step(start as int, max as int, current as int);
        let ghost twice = spec_ease_step(once, max as int, current as int);
        let ghost thrice = spec_ease_step(twice, max as int, current as int);
        let ghost last = spec_ease_step(thrice, max as int, current as int);
        proof {
            lemma_ease_step(start as int, max as int, current as int);
            lemma_ease_step(once, max as int, current as int);
            lemma_ease_step(twice, max as int, current as int);
            lemma_ease_step(thrice, max as int, current as int);
        }
        let limit: u128 = 0x1_0000_0000_0000_0000;
        let first: u128 = ease_step(start, max, current);
        if first >= limit {
            self.current = u32::MAX;
            return ;
        }
        let second: u128 = ease_step(first, max, current);
        if second >= limit {
            self.current = u32::MAX;
            return ;
        }
        let third: u128 = ease_step(second, max, current);
        if third >= limit {
            self.current = u32::MAX;
            return ;
        }
        let fourth: u128 = ease_step(third, max, current);
        let grown: u128 = current as u128 + fourth / 1_000_000;
        if grown > u32::MAX as u128 {
            self.current = u32::MAX;
        } else {
            self.current = grown as u32;
        }
    }
}

/// The cluster a player is carrying, if any.
#[derive(Clone, Copy, Debug, PartialEq, Eq)]
pub struct HeldObject(pub Option<usize>);

impl Default for HeldObject {
    fn default() -> (r: Self)
        ensures
            r == HeldObject(None),
    {
        HeldObject(None)
    }
}

/// Remaining health; the player is removed once it is zero or less.
#[derive(Clone, Copy, Debug, PartialEq, Eq, Structural)]
pub struct PlayerHealth(pub i64);

impl Default for PlayerHealth {
    fn default() -> (r: Self)
        ensures
            r == PlayerHealth(0),
    {
        PlayerHealth(0)
    }
}

/// Jumps a player may still start in mid-air.
#[derive(Clone, Copy, Debug, PartialEq, Eq, Structural)]
pub struct ExtraJumps {
    pub max: i32,
    pub current: i32,
}

impl Default for ExtraJumps {
    fn default() -> (r: Self)
        ensures
            r == (ExtraJumps { max: 1, current: 1 }),
    {
        let jumps: i32 = 1;
        ExtraJumps { max: jumps, current: jumps }
    }
}

/// Everything a player carries.
#[derive(Clone, Copy, Debug, PartialEq, Eq)]
pub struct PlayerBundle {
    pub aim_direction: AimDirection,
    pub range: Range,
    pub radius: Radius,
    pub parry: Parry,
    pub jumps: ExtraJumps,
    pub held: HeldObject,
    pub health: PlayerHealth,
}

impl PlayerBundle {
    /// What a player carries before anything has happened to it.
    pub open spec fn spec_default() -> PlayerBundle {
        PlayerBundle {
            aim_direction: AimDirection(Vector { x: 1000, y: 0 }),
            range: Range(200_000),
            radius: Radius { min: 30_000, current: 30_000, max: 80_000, speed: 200 },
            parry: Parry::spec_default(),
            jumps: ExtraJumps { max: 1, current: 1 },
            held: HeldObject(None),
            health: PlayerHealth(0),
        }
    }
}

impl Default for PlayerBundle {
    fn default() -> (r: Self)
        ensures
            r == PlayerBundle::spec_default(),
    {
        PlayerBundle {
            aim_direction: AimDirection::default(),
            range: Range::default(),
            radius: Radius::default(),
            parry: Parry::default(),
            jumps: ExtraJumps::default(),
            held: HeldObject::default(),
            health: PlayerHealth::default(),
        }
    }
}

} // verus!
