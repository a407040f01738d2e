//! Hostnames for the devices of a Wi-Fi access point: a registry of static mappings between
//! MAC addresses and hostnames, the tables behind the DNS and mDNS resolvers of the local
//! domain, and the rules that turn arbitrary text into DNS labels.
//!
//! Every function carries a contract over plain mathematical models, a sequence of
//! characters for a string and a sequence of pairs for a registry, and is verified against it.

pub mod chars;
pub mod config_format;
pub mod device_join;
pub mod dns_server;
pub mod dns_utils;
pub mod error;
pub mod hostname;
pub mod mac;
pub mod mac_hostname_config;
pub mod mac_hostname_demo;
pub mod mdns_service;
pub mod resolution;
pub mod selection;
pub mod text;
