pub mod browser;
pub mod collision;
pub mod command;
pub mod coordinate;
pub mod engine;
pub mod feed;
pub mod map;
pub mod motion;
pub mod palette;
pub mod pellet;
pub mod pellet_table;
mod random;
pub mod session;
pub mod snake;
pub mod steering;
pub mod view;
pub mod viewport;
