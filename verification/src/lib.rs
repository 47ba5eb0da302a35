//! Interactive SSH authentication of a client: badges, the popup, and the program on its PTY.
pub mod endpoint;
pub mod error;
pub mod input;
pub mod input_epoch;
pub mod laws;
pub mod rect;
pub mod shell;
pub mod ssh_auth;
pub mod ssh_authentication;
pub mod style;
pub mod text;
