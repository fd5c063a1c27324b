//! Finding AI coding agents in tmux panes, reporting their status, and installing
//! the integrations that let them report it.
pub mod agent;
pub mod cli;
pub mod error;
pub mod paths;
pub mod text;
pub mod tmux;
