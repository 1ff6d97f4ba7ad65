//! omnidl's core logic: link detection, file names, status lines, the
//! download list, request parsing and the rules around them.

pub mod text;

pub mod util;
pub mod detect;
pub mod config;
pub mod update;
pub mod launch;
pub mod schedule;
pub mod job;
pub mod jobs;
pub mod term;
pub mod files;
pub mod ytdlp;
pub mod deps;
pub mod bridge;
pub mod auth;
pub mod get;
pub mod matcher;
pub mod spotify;
pub mod engine;
pub mod hub;
pub mod gallery;
pub mod sys;
pub mod peek;
pub mod web;
pub mod journal;
pub mod ui;
pub mod fonts;
