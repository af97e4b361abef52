//! Verified core logic of the desktop agent-monitoring pet.
pub mod text;
pub mod messages;
pub mod json;
pub mod types;
pub mod gateway;
pub mod events;
pub mod hook_session;
pub mod hook_config;
pub mod metrics;
pub mod sessions;
pub mod clock;
pub mod daily;
pub mod claude_stats;
pub mod num;
pub mod asset;
pub mod codex_pet;
pub mod gateway_metrics;
pub mod health;
pub mod control;
pub mod file_data;
pub mod media;
