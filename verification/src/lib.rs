//! Lighting control for fan banks on a 2.4 GHz wireless dongle.

pub mod action;
pub mod bank;
pub mod bank_laws;
pub mod capabilities;
pub mod color_laws;
pub mod config;
pub mod config_laws;
pub mod controller;
pub mod controller_laws;
pub mod direct_color;
pub mod discovery;
pub mod discovery_laws;
pub mod effect;
pub mod fan_type;
pub mod history_laws;
pub mod layout_laws;
pub mod mac;
pub mod model;
pub mod network;
pub mod network_laws;
pub mod offer_laws;
pub mod poll_laws;
pub mod request_laws;
pub mod restore_laws;
pub mod slot_laws;
pub mod slots;
pub mod stream_laws;
pub mod text;
pub mod text_laws;
pub mod turn_laws;
pub mod vec_map;
pub mod view_laws;
pub mod zones;
