//! Geometry for a game on a hexagonal grid.
//!
//! - `coord`: axial coordinates, the six directions, neighbors and distance.
//! - `ring`: the cells at a fixed distance around a cell, in walking order.
//! - `layout`: the exact layout of pointy-top hexagons: centers, corners and
//!   edges.
//! - `edge`: the boundaries between cells and the set of claimed ones.
//! - `path`: a random walk that never claims a boundary twice and never
//!   turns straight back.
//! - `fraction`, `transforms`: exact rational numbers, and the letterboxed
//!   fit of one rectangle into another with its inverse.
//! - `game`: the board.
//!
//! The functions that compute with the `hex2d` crate or draw from `rand`
//! reach them through `bridge`, whose contracts are believed, not proved.

mod bridge;
pub mod coord;
pub mod edge;
pub mod fraction;
pub mod game;
pub mod layout;
pub mod path;
pub mod ring;
pub mod transforms;
