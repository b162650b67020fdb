//! The colony: its map, its water and trees, what is built and who lives there.
//!
//! All quantities are integers. Depths of water are in millionths of a terrain
//! level, positions in millionths of a tile, times in microseconds, and walking
//! costs in hundredths. Entities are given by their bits.
pub mod map;
pub mod terrain;
pub mod river;
pub mod water;
pub mod pathfind;
pub mod season;
pub mod calendar;
pub mod stock;
pub mod trees;
pub mod growth;
pub mod beavers;
pub mod meals;
pub mod buildings;
pub mod rules;
pub mod production;
pub mod reach;
pub mod trade;
pub mod notices;
pub mod claims;
pub mod board;
pub mod colony;
pub mod accord;
pub mod walking;
pub mod gait;
pub mod work;
pub mod labour;
pub mod sites;
pub mod crossing;
pub mod governor;
pub mod demo;
pub mod counsel;
pub mod ways;
pub mod walls;
pub mod census;
