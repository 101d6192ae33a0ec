pub mod attach;
pub mod cli;
pub mod config;
pub mod csi;
pub mod encoding;
pub mod inspect;
pub mod mouse;
pub mod pattern;
pub mod protocol;
pub mod recording;
pub mod replay;
pub mod server;
pub mod session;
pub mod sgr;
pub mod ringbuf;
pub mod term_emulator;
pub mod text;
pub mod vte_grid;
