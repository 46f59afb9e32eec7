//! Decisions behind the HTTP API: what each request reads, writes and answers.

pub mod admin;
pub mod gpio;
pub mod status;
pub mod update;
