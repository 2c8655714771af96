//! Client-side logic for the Rack Manager service: connection configuration,
//! connection providers with their retry and staleness decisions, API client
//! construction, error rendering, and the protobuf wire encoding of the
//! messages that the service exchanges.

pub mod api;
pub mod config;
pub mod error;
pub mod message;
pub mod protos;
pub mod provider;
pub mod timestamp;
pub mod wire;
