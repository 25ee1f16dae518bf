//! Core of `mctop`, a terminal monitor for Folia and Paper Minecraft servers.
//!
//! Readings come from two places. TPS, tick times, the player list, and — on
//! Folia — the per-region breakdown are asked for over RCON. CPU, memory, heap
//! occupancy, and world sizes cannot be: the game does not know them. Those are
//! sampled from the machine mctop runs on.

pub mod app;
pub mod cli;
pub mod clock;
pub mod config;
pub mod format;
pub mod metrics;
pub mod panels;
pub mod report;
pub mod server;
pub mod source;
pub mod text;
pub mod view;
