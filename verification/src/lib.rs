//! Rooms in which players gather options, mark themselves ready and rank the options.
pub mod lobby;
pub mod message;
pub mod ranking;
pub mod rooms;
pub mod state;
pub mod text;
