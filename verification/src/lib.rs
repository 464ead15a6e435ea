//! Best-effort delivery of state-change notifications to subscriber endpoints.
//!
//! The crate holds the decisions of a push delivery manager as a state machine
//! over plain values: which subscription gets a request and when, how queued
//! changes are coalesced, how retries are paced and when they are given up.
//! Sending the requests, keeping the clock and running the event loop are left
//! to the caller.
//!
//! - [`manager`] holds the manager itself, [`model`] what it does as a
//!   mathematical state machine, and [`laws`] what follows from that.
//! - [`response`], [`payload`] and [`request`] make the body and the request
//!   of a delivery and read its outcome.
//! - [`config`] reads the settings from their written form.
//! - [`sort_text`], [`trim_text`] and [`header`] prepare the texts of message
//!   headers for the index.
//! - [`status`] plans the answer to a mailbox status request.

pub mod clock;
pub mod config;
pub mod event;
pub mod header;
pub mod laws;
pub mod manager;
pub mod model;
pub mod payload;
pub mod request;
pub mod response;
pub mod settings;
pub mod sort_text;
pub mod state_change;
pub mod status;
pub mod subscription;
pub mod tables;
pub mod text;
pub mod trim_text;
