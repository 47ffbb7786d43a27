//! Destructible terrain: a particle grid whose cells can be carved out into
//! rigid rock clusters, carried, thrown, shattered, parried and absorbed
//! again.
//!
//! The crate holds the rules of the game and proves them; a host runs the
//! physics engine, reads the input devices and draws. Once per step the host
//! writes what the physics engine measured into the [`world::World`]
//! (positions, velocities, masses), hands over the step's collision events,
//! calls the engines, and carries the changes back: rocks and clusters that
//! appeared or went, velocities that were set, pushes on players.
//!
//! # Numbers
//!
//! There is no floating point here. Lengths, positions, speeds and masses are
//! whole thousandths of a unit ([`vector::SCALE`]), directions have length
//! one million ([`vector::UNIT`]), and time is in microseconds. Where a
//! result does not fit, it stops at the limit of its type; where a division
//! or a square root is not whole, it is rounded down. Every contract says so
//! in its own terms.
//!
//! # Handles
//!
//! Players, clusters and rocks live in slot tables. The index of a slot is
//! the handle of what it holds, and it is never given out again: what is
//! removed leaves its slot empty, and whoever still holds the handle finds
//! nothing there.
//!
//! # Engines
//!
//! - [`grab`]: carving a square of the grid into a cluster of rocks.
//! - [`carry`]: pulling a held cluster along, measuring its real movement,
//!   letting it go.
//! - [`fracture`]: clusters that collide shatter each other.
//! - [`damage`]: rocks hurt the players they hit; the lost are removed.
//! - [`ground`]: rocks that strike the ground break loose and crater it.
//! - [`parry`]: a player turns nearby clusters around and takes them over.
//! - [`place_back`] and [`set`]: rocks return to the grid.

pub mod aim_direction;
pub mod carry;
pub mod components;
pub mod damage;
pub mod fracture;
pub mod grab;
pub mod ground;
pub mod load_level;
pub mod parry;
pub mod place_back;
pub mod player;
pub mod player_movement;
pub mod sandbox;
pub mod set;
pub mod spawn_player;
pub mod vector;
pub mod visited;
pub mod world;
