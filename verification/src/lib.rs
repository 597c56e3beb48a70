//! Turns container-registry images into bootable flat disk images.
//!
//! The crate holds the logic of the tool: the local state store that makes
//! builds incremental, the build orchestrator's cache decisions, the overlay
//! semantics of layer decompression, the disk-assembly state machine, and the
//! codec for the persisted state document. Network, disk and host-tool
//! invocations are left to the surrounding binary, which drives these
//! components and performs the actions they request.

pub mod application_state;
pub mod assembler;
pub mod cli_commands;
pub mod commands;
pub mod docker_client;
pub mod errors;
pub mod kv;
pub mod models;
pub mod overlay;
pub mod paths;
pub mod state_codec;
pub mod text;
