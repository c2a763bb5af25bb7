//! A git-native task board: the board, its tickets, forum, inbox and trash,
//! with verified operations over their in-memory model.

pub mod text;
pub mod error;
pub mod id;
pub mod model;
pub mod keyed;
pub mod store;
pub mod trash;
pub mod ops;
pub mod config;
pub mod parse;
pub mod git;
pub mod vcs;
pub mod forum;
pub mod order;
pub mod inbox;
pub mod registry;
pub mod keys;
pub mod identity;
pub mod onboard;
pub mod update_check;
pub mod daemon;
pub mod commands;
pub mod forum_cmd;
