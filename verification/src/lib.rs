//! Storage and placement core of a replicated blob store.
//!
//! A key belongs to a virtual disk, and a virtual disk has replicas on the
//! disks of nodes (`mapper`). A node keeps the records of a virtual disk in
//! time partitions (`holder`), each over a window of timestamps, which a
//! group holds in the order of their windows (`group`). The engine holds the
//! groups of the node's own data and those of alien data (`pearl`); two
//! simpler engines keep data in memory or not at all (`mem_backend`,
//! `stub_backend`). The front door (`backend`) turns a request into
//! operations and falls back to the alien area when a local write fails; the
//! router (`grinder`) decides between the local storage and the cluster.
//! What holds of all this is stated and proved in `laws`.

pub mod api;
pub mod backend;
pub mod configs;
pub mod data;
pub mod decimal;
pub mod error;
pub mod grinder;
pub mod group;
pub mod grpc;
pub mod holder;
pub mod laws;
pub mod link_manager;
pub mod mapper;
pub mod mem_backend;
pub mod operation;
pub mod pearl;
pub mod settings;
pub mod stub_backend;
pub mod text;
