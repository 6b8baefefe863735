//! Verified core of a trusted local-network file transfer tool.
pub mod bytes;
pub mod crypto;
pub mod text;
pub mod identity;
pub mod protocol;
pub mod transfer;
pub mod network;
pub mod engine;
pub mod records;
pub mod error;
pub mod settings_ops;
pub mod commands;
pub mod lifecycle_monitor;
pub mod logging;
pub mod desktop_actions;
pub mod discovery;
pub mod pairing;
pub mod pairing_exchange;
pub mod pairing_flow;
pub mod sender;
pub mod receiver;
pub mod listener_lifecycle;
pub mod discovery_coordinator;
pub mod pairing_service;
pub mod source_manifest;
pub mod receive_flow;
pub mod send_flow;
pub mod recovery;
