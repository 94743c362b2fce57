pub mod ballistics;
pub mod controls;
pub mod creature;
pub mod dice;
pub mod distance;
pub mod errors;
pub mod gamemode;
pub mod grid;
pub mod holder;
pub mod item;
pub mod lobby;
pub mod mapgen;
pub mod planner;
pub mod player;
pub mod playerid;
pub mod pos;
pub mod posmap;
pub mod render;
pub mod round;
pub mod sprite;
pub mod step;
pub mod text;
pub mod tick;
pub mod tile;
pub mod timestamp;
pub mod util;
pub mod view;
pub mod waves;
pub mod weapon;
pub mod world;
pub mod worldmessages;

pub use playerid::PlayerId;
pub use pos::{Direction, Pos};
pub use sprite::Sprite;
pub use timestamp::Timestamp;
