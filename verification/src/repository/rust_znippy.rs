//! The Cargo sparse-index repository over a Znippy archive.  It advertises
//! the registry and serves downloads; it keeps no crate metadata.

use vstd::prelude::*;
use vstd::string::*;
use crate::repository::rust::{append_text, content_type, lemma_segments};
use crate::repository::rust::{config_body, is_content_type, path_segments, placeholder_crate, rust_route, RustRoute};
use crate::repository::types::{FetchAnswer, ProtocolAnswer, RepositoryBackend, RepositoryError};
use crate::text::SLASH;
use crate::text::{str_equal, str_split, str_trim_start, utf8};
use crate::types::{ArtifactFormat, ArtifactId, ArtifactIdView};

verus! {

/// A Cargo sparse-index repository over a Znippy archive.
#[derive(Debug, Clone, PartialEq, Eq)]
pub struct RustRepoZnippy {
    pub name: String,
    /// The public address of the endpoint that serves the repository, as
    /// `scheme://host[:port]`.
    pub public_url: String,
    /// The artifacts known to be stored.
    pub artifacts: Vec<ArtifactId>,
}

/// What the repository answers on a route: as the plain Rust repository
/// does, but crate metadata is never found.
pub open spec fn znippy_response(
    route: RustRoute,
    public_url: Seq<u8>,
    repo: Seq<u8>,
    status: u16,
    headers: Seq<(String, String)>,
    body: Seq<u8>,
) -> bool {
    match route {
        RustRoute::Config => status == 200 && is_content_type(headers, "application/json"@) && body
            == config_body(public_url, repo),
        RustRoute::Download { crate_name, version } => status == 200 && is_content_type(
            headers,
            "application/octet-stream"@,
        ) && body == placeholder_crate(),
        RustRoute::Metadata { crate_name } => status == 404 && headers.len() == 0 && body.len()
            == 0,
        RustRoute::Unknown => status == 404 && headers.len() == 0 && body.len() == 0,
    }
}

impl RustRepoZnippy {
    /// A repository that knows no artifacts, served from the default local
    /// address.
    pub fn new(name: String) -> (repo: RustRepoZnippy)
        ensures
            repo.name@ == name@,
            repo.public_url@ == "https://127.0.0.1:8443"@,
            repo.artifacts@.len() == 0,
    {
        RustRepoZnippy {
            name,
            public_url: "https://127.0.0.1:8443".to_owned(),
            artifacts: Vec::new(),
        }
    }

    fn config_response(&self) -> (r: (u16, Vec<(String, String)>, Vec<u8>))
        ensures
            r.0 == 200,
            is_content_type(r.1@, "application/json"@),
            r.2@ == config_body(utf8(self.public_url@), utf8(self.name@)),
    {
        let mut body: Vec<u8> = Vec::new();
        append_text(&mut body, "{\"dl\":\"");
        append_text(&mut body, self.public_url.as_str());
        append_text(&mut body, "/");
        append_text(&mut body, self.name.as_str());
        append_text(&mut body, "/crates\",\"api\":null}");
        (200, content_type("application/json"), body)
    }
}

impl RepositoryBackend for RustRepoZnippy {
    /// An archive is read-only.
    open spec fn writable(&self) -> bool {
        false
    }

    /// No archive reader is linked in: every fetch is a miss.
    open spec fn answers(&self, id: ArtifactIdView, answer: FetchAnswer) -> bool {
        answer == FetchAnswer::Ok(None)
    }

    /// The one answer of the archive-backed repository to the path.
    open spec fn responds(&self, suburl: Seq<u8>, body: Seq<u8>, answer: ProtocolAnswer) -> bool {
        answer matches Ok((status, headers, data)) && znippy_response(
            rust_route(path_segments(suburl), utf8(self.name@)),
            utf8(self.public_url@),
            utf8(self.name@),
            status,
            headers@,
            data@,
        )
    }

    open spec fn spec_name(&self) -> Seq<char> {
        self.name@
    }

    open spec fn spec_format(&self) -> ArtifactFormat {
        ArtifactFormat::Rust
    }

    /// An archive refuses every artifact in its own name.
    open spec fn stores(
        &self,
        id: ArtifactIdView,
        data: Seq<u8>,
        outcome: Result<(), RepositoryError>,
    ) -> bool {
        outcome matches Err(RepositoryError::ReadOnly { repository }) && repository@ == self.name@
    }

    fn name(&self) -> (name: &str)
        ensures
            name@ == self.name@,
    {
        self.name.as_str()
    }

    fn format(&self) -> (format: ArtifactFormat)
        ensures
            format == ArtifactFormat::Rust,
    {
        ArtifactFormat::Rust
    }

    fn is_writable(&self) -> (w: bool)
        ensures
            w == self.writable(),
    {
        false
    }

    fn fetch(&self, id: &ArtifactId) -> (answer: FetchAnswer) {
        Ok(None)
    }

    fn put(&self, id: &ArtifactId, data: &[u8]) -> (r: Result<(), RepositoryError>)
        ensures
            r matches Err(RepositoryError::ReadOnly { repository }) && repository@ == self.name@,
    {
        Err(RepositoryError::ReadOnly { repository: self.name.clone() })
    }

    /// Serves the registry configuration and crate downloads; every other
    /// path, crate metadata included, is answered with 404 and an empty body.
    fn handle_http2_request(&self, suburl: &str, body: &[u8]) -> (r: ProtocolAnswer)
        ensures
            r matches Ok((status, headers, data)) && znippy_response(
                rust_route(path_segments(suburl.spec_bytes()), utf8(self.name@)),
                utf8(self.public_url@),
                utf8(self.name@),
                status,
                headers@,
                data@,
            ),
    {
        let path = str_trim_start(suburl, SLASH);
        let parts = str_split(path, SLASH);
        proof {
            lemma_segments(parts@, path_segments(suburl.spec_bytes()));
        }
        let n: usize = parts.len();
        if n == 2 && str_equal(parts[0], "index") && str_equal(parts[1], "config.json") {
            Ok(self.config_response())
        } else if n == 3 && str_equal(parts[0], self.name.as_str()) && str_equal(parts[1], "index")
            && str_equal(parts[2], "config.json") {
            Ok(self.config_response())
        } else if n == 4 && str_equal(parts[0], "index") {
            Ok((404, Vec::new(), Vec::new()))
        } else if n == 5 && str_equal(parts[0], self.name.as_str()) && str_equal(parts[1], "index") {
            Ok((404, Vec::new(), Vec::new()))
        } else if n == 4 && str_equal(parts[0], "crates") && str_equal(parts[3], "download") {
            let mut file: Vec<u8> = Vec::new();
            append_text(&mut file, "FAKE_CRATE_CONTENT");
            Ok((200, content_type("application/octet-stream"), file))
        } else {
            Ok((404, Vec::new(), Vec::new()))
        }
    }
}

} // verus!
