//! The pure parts of the built-in commands.

pub mod ls;
pub mod cd;
pub mod errors;
pub mod transfer;
pub mod exit;
pub mod echo;
pub mod rm;
pub mod pwd;
