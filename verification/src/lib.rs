//! A line-oriented chat protocol library: a parser for the textual command
//! grammar, a registry of active connections, and the dispatch rules that
//! decide what a received line does to the registry and which peers a chat
//! message reaches.

pub mod commands;
pub mod error;
pub mod server;
pub mod strutil;
