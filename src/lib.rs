pub mod position;

pub use position::Position;
pub mod ship;
pub mod board;
pub mod raw;
pub mod logic;
pub mod client_message;
pub mod server_message;
pub mod session;
pub mod game;
pub mod client;
pub mod ui;
