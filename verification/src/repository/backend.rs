//! The backend of a repository of an instance: one of the formats that the
//! gateway implements, or a backend that the user of the library brings.

use vstd::prelude::*;
use vstd::string::*;
use std::sync::Arc;
use crate::repository::rust::RustRepo;
use crate::repository::rust_znippy::RustRepoZnippy;
use crate::repository::types::{FetchAnswer, ProtocolAnswer, RepositoryBackend, RepositoryError};
use crate::types::{ArtifactFormat, ArtifactId, ArtifactIdView};

verus! {

/// A backend behind the backend interface, shared by reference count: the
/// form in which an implementation from outside the library is held.
pub struct SharedBackend {
    pub shared: Arc<dyn RepositoryBackend>,
}

/// The backend of a repository.  Requests are dispatched to whichever
/// variant a repository holds.
pub enum Backend {
    /// The Cargo sparse-index repository.
    Rust(RustRepo),
    /// The Cargo sparse-index repository over a Znippy archive.
    RustZnippy(RustRepoZnippy),
    /// Any other implementation of the backend interface.
    Custom(SharedBackend),
}

impl Backend {
    /// The Cargo sparse-index repository, where the backend is one.
    pub open spec fn rust(self) -> Option<RustRepo> {
        match self {
            Backend::Rust(repo) => Some(repo),
            _ => None,
        }
    }

    /// The repository's name: that of the backend held.
    pub open spec fn spec_name(&self) -> Seq<char> {
        match self {
            Backend::Rust(repo) => repo.spec_name(),
            Backend::RustZnippy(repo) => repo.spec_name(),
            Backend::Custom(backend) => backend.shared.spec_name(),
        }
    }

    /// The format that the repository serves: that of the backend held.
    pub open spec fn spec_format(&self) -> ArtifactFormat {
        match self {
            Backend::Rust(repo) => repo.spec_format(),
            Backend::RustZnippy(repo) => repo.spec_format(),
            Backend::Custom(backend) => backend.shared.spec_format(),
        }
    }

    /// Whether an input storage link exists.
    pub open spec fn writable(&self) -> bool {
        match self {
            Backend::Rust(repo) => repo.writable(),
            Backend::RustZnippy(repo) => repo.writable(),
            Backend::Custom(backend) => backend.shared.writable(),
        }
    }

    /// Whether `answer` is something that `fetch` may return for `id`.
    pub open spec fn answers(&self, id: ArtifactIdView, answer: FetchAnswer) -> bool {
        match self {
            Backend::Rust(repo) => repo.answers(id, answer),
            Backend::RustZnippy(repo) => repo.answers(id, answer),
            Backend::Custom(backend) => backend.shared.answers(id, answer),
        }
    }

    /// Whether `outcome` is something that `put` may return.
    pub open spec fn stores(
        &self,
        id: ArtifactIdView,
        data: Seq<u8>,
        outcome: Result<(), RepositoryError>,
    ) -> bool {
        match self {
            Backend::Rust(repo) => repo.stores(id, data, outcome),
            Backend::RustZnippy(repo) => repo.stores(id, data, outcome),
            Backend::Custom(backend) => backend.shared.stores(id, data, outcome),
        }
    }

    /// Whether `answer` is something that `handle_http2_request` may return.
    pub open spec fn responds(&self, suburl: Seq<u8>, body: Seq<u8>, answer: ProtocolAnswer) -> bool {
        match self {
            Backend::Rust(repo) => repo.responds(suburl, body, answer),
            Backend::RustZnippy(repo) => repo.responds(suburl, body, answer),
            Backend::Custom(backend) => backend.shared.responds(suburl, body, answer),
        }
    }

    /// The repository's name: the backend held is asked.
    pub fn name(&self) -> (name: &str)
        ensures
            name@ == self.spec_name(),
    {
        match self {
            Backend::Rust(repo) => repo.name(),
            Backend::RustZnippy(repo) => repo.name(),
            Backend::Custom(backend) => backend.shared.name(),
        }
    }

    /// The format that the repository serves: the backend held is asked.
    pub fn format(&self) -> (format: ArtifactFormat)
        ensures
            format == self.spec_format(),
    {
        match self {
            Backend::Rust(repo) => repo.format(),
            Backend::RustZnippy(repo) => repo.format(),
            Backend::Custom(backend) => backend.shared.format(),
        }
    }

    /// Whether the repository accepts writes: the backend held is asked.
    pub fn is_writable(&self) -> (w: bool)
        ensures
            w == self.writable(),
    {
        match self {
            Backend::Rust(repo) => repo.is_writable(),
            Backend::RustZnippy(repo) => repo.is_writable(),
            Backend::Custom(backend) => backend.shared.is_writable(),
        }
    }

    /// Looks an artifact up in the repository's own storage.
    pub fn fetch(&self, id: &ArtifactId) -> (answer: FetchAnswer)
        ensures
            self.answers(id@, answer),
    {
        match self {
            Backend::Rust(repo) => repo.fetch(id),
            Backend::RustZnippy(repo) => repo.fetch(id),
            Backend::Custom(backend) => backend.shared.fetch(id),
        }
    }

    /// Stores an artifact: the backend held is asked.  A repository that is
    /// not writable refuses with `ReadOnly`; a Cargo sparse-index repository
    /// that is writable accepts.
    pub fn put(&self, id: &ArtifactId, data: &[u8]) -> (r: Result<(), RepositoryError>)
        ensures
            !self.writable() ==> r is Err && r->Err_0 is ReadOnly,
            self.stores(id@, data@, r),
    {
        match self {
            Backend::Rust(repo) => repo.put(id, data),
            Backend::RustZnippy(repo) => repo.put(id, data),
            Backend::Custom(backend) => backend.shared.put(id, data),
        }
    }

    /// Answers a protocol request for `suburl`, the request path below the
    /// repository's routing prefix: the held backend answers.
    pub fn handle_http2_request(&self, suburl: &str, body: &[u8]) -> (answer: ProtocolAnswer)
        ensures
            self.responds(suburl.spec_bytes(), body@, answer),
    {
        match self {
            Backend::Rust(repo) => repo.handle_http2_request(suburl, body),
            Backend::RustZnippy(repo) => repo.handle_http2_request(suburl, body),
            Backend::Custom(backend) => backend.shared.handle_http2_request(suburl, body),
        }
    }
}

} // verus!
