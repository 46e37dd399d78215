//! A small, stateless HTTP request executor core.
//!
//! A [`Request`] describes one HTTP call. The library normalizes it, turns it
//! into the call that a transport has to make, and turns what the transport
//! reports into a [`Response`] or an [`Error`]. The network itself is left to
//! the caller.

pub mod casing;
pub mod fault;
pub mod mapping;
pub mod measure;
pub mod method;
pub mod request;
pub mod response;
pub mod wire;

pub use fault::Fault;
pub use mapping::Mapping;
pub use method::RequestMethod;
pub use casing::is_kebab;
pub use request::{Outbound, Request};
pub use response::{settle, Error, Outcome, Reply, Response};
