//! Session plane of a browser-facing SSH terminal gateway: the frame codec,
//! the multi-index session registry, the bridge decisions, the SSH open
//! ladder and the endpoint answers, each with its contract.
pub mod bootstrap;
pub mod bridge;
pub mod gateway;
pub mod index;
pub mod protocol;
pub mod registry;
pub mod text;
