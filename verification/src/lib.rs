//! Screen sharing origin: capture framing, fan-out, viewer access, remote
//! control and file transfer rules, each with its behaviour stated and proved.

pub mod access;
pub mod api;
pub mod b64;
pub mod capture;
pub mod chat;
pub mod clips;
pub mod computer_use;
pub mod config;
pub mod device;
pub mod encoder;
pub mod entropy;
pub mod files;
pub mod float;
pub mod frame;
pub mod headers;
pub mod hub;
pub mod inbound;
pub mod inject;
pub mod input;
pub mod json;
pub mod keys;
pub mod link;
pub mod names;
pub mod octets;
pub mod otp;
pub mod panel;
pub mod patch;
pub mod pattern;
pub mod perm;
pub mod power;
pub mod protocol;
pub mod publisher;
pub mod record;
pub mod server;
pub mod snapshot;
pub mod status;
pub mod table;
pub mod text;
pub mod thumbs;
pub mod transfer;
pub mod upkeep;
pub mod voice;
pub mod watch;
pub mod wol;
pub mod ws;
pub mod zip;
