pub mod hex;
pub mod rng;
pub mod world;
pub mod creature;
pub mod sight;
pub mod control;
pub mod ui;
pub mod view;
