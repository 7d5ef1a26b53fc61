//! Keeps a local mirror of remote collaborative shopping lists and, on each
//! change signal, reconciles the mirror against a freshly fetched snapshot to
//! produce precise change events, rendered as notifications.

pub mod config;
pub mod diff;
pub mod handler;
pub mod laws;
pub mod models;
pub mod notify;
pub mod store;
pub mod time;
