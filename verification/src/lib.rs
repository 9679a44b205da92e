pub mod components;
pub mod fov;
pub mod game_map;
pub mod geometry;
pub mod monster_ai_system;
pub mod player;
pub mod rect;
pub mod rng;
pub mod spawn;
pub mod state;
pub mod visibility_system;
pub mod world;
