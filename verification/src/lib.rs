//! Verified core of the Blitzortung lightning data service.

pub mod area;
pub mod builder;
pub mod cache;
pub mod cli;
pub mod clock;
pub mod config;
pub mod data;
pub mod dataimport;
pub mod db;
pub mod decimal;
pub mod executor;
pub mod feed;
pub mod geom;
pub mod http;
pub mod ieee;
pub mod json;
pub mod jsonrpc;
pub mod metrics;
pub mod mock;
pub mod natural;
pub mod number;
pub mod postgres;
pub mod query;
pub mod raster;
pub mod request;
pub mod service;
pub mod service_log;
pub mod text;
pub mod transport;
pub mod util;
pub mod websocket;
pub mod wkb;
