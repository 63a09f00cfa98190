//! A local development service: names under `.test` resolve to loopback,
//! and each name serves a directory or proxies a local port, over HTTP and
//! HTTPS. This crate holds its verified logic; sockets, files and TLS are
//! driven by the program around it.

pub mod addr;
pub mod app_defaults;
pub mod client;
pub mod dns;
pub mod management;
pub mod reverse_proxy;
pub mod setup;
pub mod ssl;
pub mod state;
pub mod static_files;
pub mod text;
pub mod web;
