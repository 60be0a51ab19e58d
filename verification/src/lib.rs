//! Plot state of a role-playing trilogy's save games: the bit-packed flag
//! store, the plot tables and their binary form, the catalogue of known plot
//! ids, and the rules that keep a character's gender, origin and notoriety
//! consistent between the player record and the plot tables.

pub mod bool_vec;
pub mod codec;
pub mod general;
pub mod known_plot;
pub mod mapper;
pub mod ordered_map;
pub mod player;
pub mod plot;
pub mod session;
pub mod wire;
pub mod word;
