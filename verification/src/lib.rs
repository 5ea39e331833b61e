//! Logic of a Miracast receiver: the RTSP and Wi-Fi Display messages, the
//! Wi-Fi Direct bring-up decisions, the DHCP replies, the session state
//! machines and the stored configuration and history.

pub mod advertiser;
pub mod capabilities;
pub mod config;
pub mod connection;
pub mod events;
pub mod history;
pub mod json;
pub mod models;
pub mod net_backend;
pub mod outside;
pub mod p2p_backend;
pub mod p2p_supplicant;
pub mod receiver;
pub mod rtsp;
pub mod service;
pub mod text;
pub mod ui;
pub mod utils;
