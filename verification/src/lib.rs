//! The logic of a debugging proxy for HTTP, HTTPS and WebSocket: rules and what they change in
//! requests and responses, what is captured of an exchange, and the dashboard that shows it.
//!
//! Each function states in its contract what it computes. Sockets, files and the log are left to
//! the program around this library, which performs what the library decides and hands back what
//! happened.
pub mod action;
pub mod capture;
pub mod config;
pub mod exchange;
pub mod form;
pub mod forward;
pub mod frames;
pub mod headers;
pub mod inspect;
pub mod intake;
pub mod message;
pub mod operation;
pub mod panel;
pub mod pattern;
pub mod pid;
pub mod regexes;
pub mod relay;
pub mod rewrite;
pub mod routes;
pub mod rules;
pub mod seqs;
pub mod sessions;
pub mod socks;
pub mod sources;
pub mod store;
pub mod text;
pub mod tls;
pub mod wire;
