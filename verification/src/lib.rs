pub mod audio;
pub mod config;
pub mod network;
pub mod ring;
pub mod session;
pub mod state;
