pub mod text;
pub mod parse;
pub mod fanout;
pub mod registry;
pub mod auth;
pub mod auth_laws;
pub mod tmux;
pub mod mirror;
pub mod pty;
pub mod bridge;
pub mod web;
