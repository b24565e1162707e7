pub mod basic_game;
pub mod bot;
pub mod bot_handlers;
pub mod bot_manager;
pub mod cards;
pub mod errors;
pub mod events;
pub mod game;
pub mod game_events;
pub mod game_service;
pub mod hands;
pub mod lobby;
pub mod players;
pub mod room;
pub mod room_service;
pub mod service;
pub mod session;
pub mod stats;
pub mod strategy;
pub mod text;
