//! A gateway for PENGUIN0 video intercoms.

pub mod bytes;
pub mod net;
pub mod protocol;
pub mod state;
pub mod text;
pub mod time;
pub mod transport;
pub mod ethernet;
pub mod pcap;
pub mod config;
pub mod firewall;
pub mod agent_api;
pub mod peers;
pub mod desk;
pub mod media;
pub mod agent;
pub mod socket_agent;
pub mod replay_agent;
pub mod door_station;
pub mod door_call;
pub mod emitter;
pub mod discovery;
pub mod wire_tap;
pub mod wire_udp;
pub mod digest;
pub mod json;
pub mod hap;
pub mod http;
pub mod negotiation;
pub mod assets;
pub mod agent_server;
pub mod streams;
pub mod cli;
