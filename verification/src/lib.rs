//! Request planning and text production for a WMTS tile service: query
//! handling, tile cache naming, WMS GetMap URLs and template filling.

pub mod cache;
pub mod capabilities;
pub mod clock;
pub mod numbers;
pub mod pages;
pub mod query;
pub mod requests;
pub mod service;
pub mod text;
pub mod tiles;
