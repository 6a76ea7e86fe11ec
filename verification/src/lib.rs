//! The verified core of an SSH daemon that maps clients onto persistent
//! sandbox workspaces.

pub mod account;
pub mod auth;
pub mod broker;
pub mod config;
pub mod endpoint;
pub mod env;
pub mod hostkey;
pub mod lockfile;
pub mod paths;
pub mod platform;
pub mod quote;
pub mod sandbox;
pub mod server;
pub mod tables;
pub mod text;
pub mod token;
pub mod ws;
