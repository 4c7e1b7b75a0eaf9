//! Lifecycle management of compute instances across the sleds of a rack.
//!
//! The heart of the crate is the instance state machine ([`sim_instance`])
//! and the registries that drive it: one per sled ([`server_controller`])
//! and one for the whole rack ([`api_impl`]).  Every function is verified
//! against a contract stated over the mathematical models in [`model`].

pub mod api_impl;
pub mod api_server;
pub mod collection;
pub mod endpoint;
pub mod error;
pub mod id;
pub mod id_order;
pub mod initial_data;
pub mod model;
pub mod name;
pub mod outside;
pub mod page_walk;
pub mod saga_interface;
pub mod server_controller;
pub mod sim_instance;
pub mod trust_quorum;
pub mod vlan;
