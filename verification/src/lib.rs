//! The decisions behind a command line client for release and crash tracking:
//! what an Xcode project is called, what a log file says, how a file is
//! identified by its checksums.

pub mod ancestry;
pub mod calendar;
pub mod checksum;
pub mod commands;
pub mod discovery;
pub mod event;
pub mod expand;
pub mod gzip;
pub mod paths;
pub mod release;
pub mod settings;
pub mod stamp;
pub mod temp;
pub mod text;
pub mod vars;
pub mod xcode;
