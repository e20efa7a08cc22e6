//! An entity-component registry with a scheduler that runs systems side by
//! side where their declared data accesses do not conflict.
//!
//! A [`world::World`] stores entities, the components attached to them and
//! resources, each kind of data under a type identity. A
//! [`system::System`] is a unit of logic that declares, through the kinds
//! of its parameters, which data it reads and which it writes. A
//! [`schedule::Schedule`] partitions the systems that are added to it into
//! steps: groups of systems that may run in parallel because no two of
//! them conflict, runs of systems that must run alone, and barriers.
//!
//! What is proved, and what is trusted:
//!
//! - The conflict relation, the placement of systems into steps, the order
//!   of labels, the command queue and the structure of the world (which
//!   entities exist, which of them have a component of which type, which
//!   resources exist) are verified against mathematical models.
//! - The values of components and resources live in cells that are borrowed
//!   under run-time checks, so that systems of one parallel step can reach
//!   them through a shared view of the world. Their content is not visible
//!   to proofs: no contract speaks of it.
//! - The calls into the crates that provide the cells, the worker threads
//!   and the hash map of the sets are made through small functions whose
//!   contracts are believed, not proved. Each says so in its
//!   documentation.
//! - What a system does when it runs is the business of its author. The
//!   scheduler promises when and in which company a system runs, and that
//!   what it deferred is applied before the next step begins.

pub mod entity;
pub mod prelude;
pub mod resource;
pub mod schedule;
pub mod system;
pub mod util;
pub mod world;
