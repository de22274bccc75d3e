//! The computing parts of the launcher's UI commands.
pub mod fomod;
pub mod debug;
pub mod profiles;
pub mod ini;
