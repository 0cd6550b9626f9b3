//! Resurfacer: a tab hygiene daemon.

pub mod bridge;
pub mod clock;
pub mod cluster_laws;
pub mod clusters;
pub mod config;
pub mod daemon;
pub mod daemon_laws;
pub mod idle_check;
pub mod idle_detector;
pub mod idle_laws;
pub mod message_laws;
pub mod messages;
pub mod night_mode;
pub mod presenter;
pub mod presenter_laws;
pub mod rabbit_hole_laws;
pub mod ram_flush;
pub mod store_laws;
pub mod summarizer;
pub mod summary_laws;
pub mod sweep_laws;
pub mod tab_store;
pub mod tab_tracker;
pub mod text;
pub mod text_laws;
pub mod tool_laws;
pub mod tracker_laws;
pub mod turn_laws;
