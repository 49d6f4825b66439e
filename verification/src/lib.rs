//! Loom: the verified core of a Linux init and service manager.

pub mod catalog;
pub mod config;
pub mod config_edit;
pub mod control;
pub mod critical;
pub mod deadline;
pub mod dispatch;
pub mod environment;
pub mod events;
pub mod graph;
pub mod identity;
pub mod laws;
pub mod lifecycle;
pub mod linux;
pub mod loader;
pub mod manager;
pub mod messages;
pub mod model;
pub mod pending;
pub mod promises;
pub mod protocol;
pub mod query;
pub mod report;
pub mod request;
pub mod response;
pub mod runtime;
pub mod sage;
pub mod search;
pub mod shutdown;
pub mod steps;
pub mod supervise;
pub mod text;
