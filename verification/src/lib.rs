//! Lifecycle management for a group of containers that sits behind a lazy
//! TCP proxy: the group is started when traffic asks for it and stopped once
//! no byte has crossed the proxy for a configured time.

pub mod docker_mgr;
pub mod iotracker;
