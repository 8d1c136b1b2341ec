//! An artifact-repository gateway.
//!
//! A gateway exposes listening endpoints; each routes requests by the first
//! segment of their path to a repository, which speaks the protocol of a
//! package ecosystem and reads and writes artifacts through a storage
//! endpoint.
//!
//! This library is the wiring and dispatch engine of the gateway: it builds
//! the instance that a configuration declares and links it both ways
//! ([`config::factory`], [`wiring::wire_holger`]), it routes in a table that
//! is built once per endpoint ([`exposed::fast_routes::FastRoutes`]), and it
//! answers requests ([`config::HolgerInstance::handle_request`]).  Reading
//! configuration files, loading certificates and running the listeners are
//! left to the program around it.

pub mod config;
pub mod exposed;
pub mod registry;
pub mod repository;
pub mod search;
pub mod storage;
pub mod summary;
pub mod text;
pub mod types;
pub mod wiring;

pub use crate::config::{factory, HolgerInstance};
pub use crate::repository::backend::Backend;
pub use crate::repository::types::{RepositoryBackend, RepositoryInstance};
pub use crate::storage::StorageEndpointInstance;
pub use crate::types::{ArtifactFormat, ArtifactId, HolgerConfig, RepositoryType, StorageType};
pub use crate::wiring::{wire_holger, WireError};
