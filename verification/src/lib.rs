//! Domain availability search: which sources to ask for a domain, how their
//! replies are read and merged, and what is shown and remembered of the result.

pub mod text;
pub mod unicode;
pub mod model;
pub mod dates;
pub mod calendar;
pub mod config;
pub mod json;
pub mod rdap;
pub mod dns;
pub mod whois;
pub mod merge;
pub mod paint;
pub mod format;
pub mod search;
pub mod suggest;
pub mod cache;
pub mod watch;
pub mod notify;
pub mod update;
pub mod input;
pub mod command;
pub mod screens;
pub mod cli;
