//! A personal task list: the store of a command-line todo program, its file
//! format and its commands, and named lists of items, each with a verified
//! contract.

pub mod codec;
pub mod command;
pub mod help;
pub mod item;
pub mod lists;
pub mod order;
pub mod paths;
pub mod platform;
pub mod round_trip;
pub mod session;
pub mod split;
pub mod store;
pub mod text;
