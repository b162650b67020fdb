//! BeaverBuilds: a colony simulation and the change-tick-driven reactive
//! layer that keeps its scenes in line with the state they are drawn from.
use vstd::prelude::*;

pub mod async_value;
pub mod chronicle;
pub mod cinema;
pub mod dep;
pub mod ecs;
pub mod hierarchy;
pub mod hud;
pub mod interact;
pub mod look;
pub mod manners;
pub mod menu;
pub mod model;
pub mod reactor;
pub mod runner;
pub mod scan;
pub mod session;
pub mod settle;
pub mod sim;
pub mod table;
pub mod text;
pub mod tick;
pub mod trace;
pub mod wake;

verus! {

} // verus!
