pub mod cli;
pub mod command;
pub mod device;
pub mod error;
pub mod extension;
pub mod format;
pub mod job;
pub mod layout;
pub mod mt;
pub mod mtio;
pub mod tape;
pub mod util;
