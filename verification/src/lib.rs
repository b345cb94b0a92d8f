//! A passive network-traffic inspection toolkit: captured frames are decoded
//! and tested against a set of detection rules by a multi-pattern inspection
//! engine, and the surrounding helpers (capture-file record splitting, packet
//! statistics, service identification, port-list parsing, crawl bookkeeping)
//! are verified alongside it.

pub mod capture;
pub mod cli;
pub mod config;
pub mod engine;
pub mod frame;
pub mod monitor;
pub mod ports;
pub mod rules;
pub mod service;
pub mod stats;
pub mod text;
pub mod web;
