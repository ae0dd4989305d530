pub mod cli;
pub mod clock;
pub mod config;
pub mod config_laws;
pub mod daemon;
pub mod diagnostics;
pub mod event_laws;
pub mod hasher;
pub mod laws;
pub mod lines;
pub mod parser;
pub mod parser_laws;
pub mod procfs;
pub mod reactor;
pub mod reaping;
pub mod reaping_laws;
pub mod record_laws;
pub mod records;
pub mod render;
pub mod setup;
pub mod spawnprobe;
pub mod stream;
pub mod system;
pub mod system_laws;
pub mod telemetry;
pub mod text;
pub mod text_laws;
