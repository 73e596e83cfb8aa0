//! Keeps a downloads folder tidy: each file is moved into a category folder
//! chosen by its extension, while partial downloads hold a pass back.
//!
//! The library holds the decisions; moving files and watching the folder is
//! left to the caller, which performs what the library plans.
pub mod pass;
pub mod settle;
pub mod table;
pub mod watch;
