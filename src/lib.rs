//! Interest management for a chunked multiplayer world: per-player views,
//! view-change detection, and proximity broadcast.
pub mod entity;
pub mod game;
pub mod mob;
pub mod systems;
pub mod view;
