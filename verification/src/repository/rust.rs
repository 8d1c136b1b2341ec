//! The Cargo sparse-index repository.

use vstd::prelude::*;
use vstd::string::*;
use sha2::{Digest, Sha256};
use crate::repository::types::{FetchAnswer, ProtocolAnswer, RepositoryBackend, RepositoryError};
use crate::storage::ResolvedStorage;
use crate::text::SLASH;
use crate::text::{slice_str, split, str_equal, str_split, str_trim_start, texts_bytes, trim_start, utf8};
use crate::types::{ArtifactFormat, ArtifactId, ArtifactIdView};

verus! {

/// The SHA-256 digest of a byte string, as the `sha2` crate computes it.
pub uninterp spec fn sha256(data: Seq<u8>) -> Seq<u8>;

/// `sha2::Sha256::digest`: hashes `data` in one call.  The digest is a
/// function of the data alone and is 32 bytes long.
#[verifier::external_body]
fn sha256_digest(data: &[u8]) -> (digest: Vec<u8>)
    ensures
        digest@ == sha256(data@),
        digest@.len() == 32,
{
    Sha256::digest(data).to_vec()
}

/// The lower-case hexadecimal digit of a value below 16.
pub open spec fn hex_digit(n: u8) -> char {
    if n < 10 {
        (0x30 + n) as char
    } else {
        (0x61 + (n - 10)) as char
    }
}

/// A byte string in lower-case hexadecimal: two digits per byte, the high
/// four bits first.
pub open spec fn hex_lower(data: Seq<u8>) -> Seq<char>
    decreases data.len(),
{
    if data.len() == 0 {
        Seq::empty()
    } else {
        hex_lower(data.drop_last()) + seq![hex_digit(data.last() / 16), hex_digit(data.last() % 16)]
    }
}

/// Whether a character is a lower-case hexadecimal digit.
pub open spec fn is_hex_digit(c: char) -> bool {
    ('0' <= c && c <= '9') || ('a' <= c && c <= 'f')
}

/// A byte string in hexadecimal has two digits per byte, each of them a
/// lower-case hexadecimal digit.
pub proof fn lemma_hex_lower(data: Seq<u8>)
    ensures
        hex_lower(data).len() == 2 * data.len(),
        forall|i: int| 0 <= i < hex_lower(data).len() ==> is_hex_digit(#[trigger] hex_lower(data)[i]),
    decreases data.len(),
{
    if data.len() > 0 {
        lemma_hex_lower(data.drop_last());
        let before = hex_lower(data.drop_last());
        let high = data.last() / 16;
        let low = data.last() % 16;
        assert(is_hex_digit(hex_digit(high)));
        assert(is_hex_digit(hex_digit(low)));
        assert forall|i: int| 0 <= i < hex_lower(data).len() implies is_hex_digit(
            #[trigger] hex_lower(data)[i],
        ) by {
            if i < before.len() {
                assert(hex_lower(data)[i] == before[i]);
            }
        }
    }
}

/// `hex::encode`: `data` as a lower-case hexadecimal string.
#[verifier::external_body]
fn hex_encode(data: &[u8]) -> (text: String)
    ensures
        text@ == hex_lower(data@),
{
    hex::encode(data)
}

/// A crate name with the two directories under which a sparse index files it.
#[derive(Debug, PartialEq, PartialOrd)]
pub struct RepoPath<'a> {
    pub p1: &'a str,
    pub p2: &'a str,
    pub name: &'a str,
}

impl<'a> From<RepoPath<'a>> for (&'a str, &'a str, &'a str) {
    fn from(path: RepoPath<'a>) -> (parts: Self) {
        (path.p1, path.p2, path.name)
    }
}

impl<'a> vstd::std_specs::convert::FromSpecImpl<RepoPath<'a>> for (&'a str, &'a str, &'a str) {
    open spec fn obeys_from_spec() -> bool {
        true
    }

    open spec fn from_spec(path: RepoPath<'a>) -> Self {
        (path.p1, path.p2, path.name)
    }
}

/// The two shard directories of a crate name: names of one or two bytes are
/// filed under `1` or `2` and their own name, names of three bytes under `3`
/// and their first byte, longer names under their first two and their next
/// two bytes.
pub open spec fn sparse_shard(name: Seq<u8>) -> (Seq<u8>, Seq<u8>) {
    if name.len() == 1 {
        ("1".spec_bytes(), name)
    } else if name.len() == 2 {
        ("2".spec_bytes(), name)
    } else if name.len() == 3 {
        ("3".spec_bytes(), name.subrange(0, 1))
    } else {
        (name.subrange(0, 2), name.subrange(2, 4))
    }
}

/// Whether a crate name can be sharded: it is not empty, and no shard
/// directory would end inside a multi-byte character.
pub open spec fn shardable(name: Seq<u8>) -> bool {
    &&& name.len() >= 1
    &&& name.len() == 3 ==> vstd::utf8::is_char_boundary(name, 1)
    &&& name.len() >= 4 ==> vstd::utf8::is_char_boundary(name, 2) && vstd::utf8::is_char_boundary(
        name,
        4,
    )
}

/// The crate name that a sparse path of three parts names: its third part.
/// A path of any other length names none.
pub open spec fn crate_of_parts(parts: Seq<Seq<u8>>) -> Option<Seq<u8>> {
    if parts.len() == 3 {
        Some(parts[2])
    } else {
        None
    }
}

/// The sparse path of a crate name: its two shard directories, then the name.
pub open spec fn sparse_parts(name: Seq<u8>) -> Seq<Seq<u8>> {
    seq![sparse_shard(name).0, sparse_shard(name).1, name]
}

/// Sharding round trip: the sparse path of a crate name of four bytes or
/// more names that crate again.
pub proof fn sharding_round_trip(name: Seq<u8>)
    requires
        name.len() >= 4,
    ensures
        sparse_parts(name) == seq![name.subrange(0, 2), name.subrange(2, 4), name],
        crate_of_parts(sparse_parts(name)) == Some(name),
{
}

/// The content served for every crate while no storage is wired.
pub open spec fn placeholder_crate() -> Seq<u8> {
    "FAKE_CRATE_CONTENT".spec_bytes()
}

/// What a sub-path asks of a Cargo sparse-index repository.
pub enum RustRoute {
    /// `index/config.json`: the registry configuration.
    Config,
    /// `index/<p1>/<p2>/<crate>`: the metadata of a crate.
    Metadata { crate_name: Seq<u8> },
    /// `crates/<crate>/<version>/download`: the crate file.
    Download { crate_name: Seq<u8>, version: Seq<u8> },
    /// Anything else.
    Unknown,
}

/// The route of the path segments `segments` at the repository `repo`.  The
/// index may be addressed directly (`index/...`) or under the repository's
/// own name (`<repo>/index/...`).
pub open spec fn rust_route(segments: Seq<Seq<u8>>, repo: Seq<u8>) -> RustRoute {
    let index = "index".spec_bytes();
    let config = "config.json".spec_bytes();
    let crates = "crates".spec_bytes();
    let download = "download".spec_bytes();
    if segments.len() == 2 && segments[0] == index && segments[1] == config {
        RustRoute::Config
    } else if segments.len() == 3 && segments[0] == repo && segments[1] == index && segments[2]
        == config {
        RustRoute::Config
    } else if segments.len() == 4 && segments[0] == index {
        RustRoute::Metadata { crate_name: segments[3] }
    } else if segments.len() == 5 && segments[0] == repo && segments[1] == index {
        RustRoute::Metadata { crate_name: segments[4] }
    } else if segments.len() == 4 && segments[0] == crates && segments[3] == download {
        RustRoute::Download { crate_name: segments[1], version: segments[2] }
    } else {
        RustRoute::Unknown
    }
}

/// The segments of a sub-path: leading slashes are dropped, the rest is cut
/// at every `/`.
pub open spec fn path_segments(suburl: Seq<u8>) -> Seq<Seq<u8>> {
    split(trim_start(suburl, SLASH), SLASH)
}

/// The path `index/config.json` asks every repository for its registry
/// configuration.
pub proof fn lemma_config_path(repo: Seq<u8>)
    ensures
        path_segments("index/config.json".spec_bytes()) == seq![
            "index".spec_bytes(),
            "config.json".spec_bytes(),
        ],
        rust_route(path_segments("index/config.json".spec_bytes()), repo) == RustRoute::Config,
{
    reveal_strlit("index/config.json");
    reveal_strlit("index");
    reveal_strlit("config.json");
    is_ascii_spec_bytes("index/config.json");
    is_ascii_spec_bytes("index");
    is_ascii_spec_bytes("config.json");
    let path = "index/config.json".spec_bytes();
    let index = "index".spec_bytes();
    let config = "config.json".spec_bytes();
    assert(path.len() == 17 && index.len() == 5 && config.len() == 11);
    assert(path[5] == SLASH);
    assert(trim_start(path, SLASH) == path);
    assert forall|k: int| 0 <= k < 5 implies path[k] != SLASH by {
        assert(path[k] == index[k]);
    }
    crate::text::lemma_index_of_unique(path, SLASH, 5);
    let tail = path.skip(6);
    assert(tail =~= config);
    assert forall|k: int| 0 <= k < 11 implies tail[k] != SLASH by {
        assert(tail[k] == config[k]);
    }
    crate::text::lemma_index_of_unique(tail, SLASH, 11);
    assert(path.take(5) =~= index);
    assert(split(tail, SLASH) =~= seq![tail]);
    assert(split(path, SLASH) =~= seq![index] + split(tail, SLASH));
    assert(path_segments(path) =~= seq![index, config]);
}

/// The registry configuration: where crates are downloaded from.
pub open spec fn config_body(public_url: Seq<u8>, repo: Seq<u8>) -> Seq<u8> {
    "{\"dl\":\"".spec_bytes() + public_url + "/".spec_bytes() + repo
        + "/crates\",\"api\":null}".spec_bytes()
}

/// The metadata of a crate: one record for version 1.0.0 with the checksum
/// of the crate file.
pub open spec fn metadata_body(crate_file: Seq<u8>) -> Seq<u8> {
    "[{\"vers\":\"1.0.0\",\"deps\":[],\"cksum\":\"".spec_bytes() + utf8(
        hex_lower(sha256(crate_file)),
    ) + "\"}]".spec_bytes()
}

/// Whether `headers` is the single header `Content-Type: content_type`.
pub open spec fn is_content_type(headers: Seq<(String, String)>, content_type: Seq<char>) -> bool {
    headers.len() == 1 && headers[0].0@ == "Content-Type"@ && headers[0].1@ == content_type
}

/// What the repository answers on a route: status, headers and body.
pub open spec fn rust_response(
    route: RustRoute,
    public_url: Seq<u8>,
    repo: Seq<u8>,
    status: u16,
    headers: Seq<(String, String)>,
    body: Seq<u8>,
) -> bool {
    match route {
        RustRoute::Config => status == 200 && is_content_type(headers, "application/json"@) && body
            == config_body(public_url, repo),
        RustRoute::Metadata { crate_name } => status == 200 && is_content_type(
            headers,
            "application/json"@,
        ) && body == metadata_body(placeholder_crate()),
        RustRoute::Download { crate_name, version } => status == 200 && is_content_type(
            headers,
            "application/octet-stream"@,
        ) && body == placeholder_crate(),
        RustRoute::Unknown => status == 404 && headers.len() == 0 && body.len() == 0,
    }
}

/// A Cargo sparse-index repository.
#[derive(Debug, Clone, PartialEq, Eq)]
pub struct RustRepo {
    pub name: String,
    /// The public address of the endpoint that serves the repository, as
    /// `scheme://host[:port]`.
    pub public_url: String,
    /// The storage that uploads are written to; a repository without one is
    /// read-only.
    pub in_backend: Option<ResolvedStorage>,
    /// The storage that downloads are read from.
    pub out_backend: Option<ResolvedStorage>,
    /// The artifacts known to be stored.
    pub artifacts: Vec<ArtifactId>,
}

pub(crate) fn content_type(value: &str) -> (headers: Vec<(String, String)>)
    ensures
        is_content_type(headers@, value@),
{
    let mut headers: Vec<(String, String)> = Vec::new();
    headers.push(("Content-Type".to_owned(), value.to_owned()));
    headers
}

pub(crate) fn append_text(out: &mut Vec<u8>, text: &str)
    ensures
        final(out)@ == old(out)@ + text.spec_bytes(),
{
    let bytes = text.as_bytes();
    let mut i: usize = 0;
    while i < bytes.len()
        invariant
            i <= bytes@.len(),
            out@ == old(out)@ + bytes@.take(i as int),
        decreases bytes@.len() - i,
    {
        out.push(bytes[i]);
        assert(bytes@.take(i + 1) =~= bytes@.take(i as int).push(bytes@[i as int]));
        i += 1;
    }
    assert(bytes@.take(bytes@.len() as int) =~= bytes@);
}

impl RustRepo {
    /// A repository without storage, served from the default local address.
    pub fn new(name: String) -> (repo: RustRepo)
        ensures
            repo.name@ == name@,
            repo.public_url@ == "https://127.0.0.1:8443"@,
            repo.in_backend is None,
            repo.out_backend is None,
            repo.artifacts@.len() == 0,
    {
        RustRepo {
            name,
            public_url: "https://127.0.0.1:8443".to_owned(),
            in_backend: None,
            out_backend: None,
            artifacts: Vec::new(),
        }
    }

    /// The sparse path of a crate name.
    pub fn sparse_path<'a>(crate_name: &'a str) -> (path: RepoPath<'a>)
        requires
            shardable(crate_name.spec_bytes()),
        ensures
            path.p1.spec_bytes() == sparse_shard(crate_name.spec_bytes()).0,
            path.p2.spec_bytes() == sparse_shard(crate_name.spec_bytes()).1,
            path.name == crate_name,
    {
        let len: usize = crate_name.as_bytes().len();
        proof {
            vstd::utf8::encode_utf8_valid_utf8(crate_name@);
            vstd::utf8::is_char_boundary_start_end_of_seq(crate_name.spec_bytes());
        }
        if len == 1 {
            RepoPath { p1: "1", p2: crate_name, name: crate_name }
        } else if len == 2 {
            RepoPath { p1: "2", p2: crate_name, name: crate_name }
        } else if len == 3 {
            RepoPath { p1: "3", p2: slice_str(crate_name, 0, 1), name: crate_name }
        } else {
            RepoPath {
                p1: slice_str(crate_name, 0, 2),
                p2: slice_str(crate_name, 2, 4),
                name: crate_name,
            }
        }
    }

    /// The sparse path of a crate name that can be sharded; none for a name
    /// that cannot.
    pub fn try_sparse_path<'a>(crate_name: &'a str) -> (path: Option<RepoPath<'a>>)
        ensures
            match path {
                Some(path) => shardable(crate_name.spec_bytes()) && path.p1.spec_bytes()
                    == sparse_shard(crate_name.spec_bytes()).0 && path.p2.spec_bytes()
                    == sparse_shard(crate_name.spec_bytes()).1 && path.name == crate_name,
                None => !shardable(crate_name.spec_bytes()),
            },
    {
        let len: usize = crate_name.as_bytes().len();
        let cuts_fit: bool = if len == 0 {
            false
        } else if len == 3 {
            crate_name.is_char_boundary(1)
        } else if len >= 4 {
            crate_name.is_char_boundary(2) && crate_name.is_char_boundary(4)
        } else {
            true
        };
        if cuts_fit {
            Some(RustRepo::sparse_path(crate_name))
        } else {
            None
        }
    }

    /// The crate that a sparse path names: the third of exactly three parts.
    pub fn sparse_crate_from_parts<'a>(parts: &'a [&'a str]) -> (name: Option<&'a str>)
        ensures
            parts@.len() == 3 ==> name == Some(parts@[2]),
            parts@.len() != 3 ==> name is None,
            match name {
                Some(n) => crate_of_parts(texts_bytes(parts@)) == Some(n.spec_bytes()),
                None => crate_of_parts(texts_bytes(parts@)) is None,
            },
    {
        if parts.len() == 3 {
            Some(parts[2])
        } else {
            None
        }
    }

    /// The checksum of a crate file: its SHA-256 digest in lower-case
    /// hexadecimal.
    pub fn crate_sha256_hex(data: &[u8]) -> (checksum: String)
        ensures
            checksum@ == hex_lower(sha256(data@)),
            sha256(data@).len() == 32,
            checksum@.len() == 64,
            forall|i: int| 0 <= i < 64 ==> is_hex_digit(#[trigger] checksum@[i]),
    {
        let digest = sha256_digest(data);
        proof {
            lemma_hex_lower(digest@);
        }
        hex_encode(digest.as_slice())
    }
}

/// Lists how `parts` stand for the segments of `suburl`.
pub(crate) proof fn lemma_segments(parts: Seq<&str>, segments: Seq<Seq<u8>>)
    requires
        texts_bytes(parts) == segments,
    ensures
        parts.len() == segments.len(),
        forall|i: int| 0 <= i < parts.len() ==> (#[trigger] parts[i]).spec_bytes() == segments[i],
{
    assert forall|i: int| 0 <= i < parts.len() implies (#[trigger] parts[i]).spec_bytes()
        == segments[i] by {
        assert(texts_bytes(parts)[i] == parts[i].spec_bytes());
    }
}

impl RustRepo {
    /// The answer to a request for the registry configuration.
    fn config_response(&self) -> (r: (u16, Vec<(String, String)>, Vec<u8>))
        ensures
            rust_response(
                RustRoute::Config,
                utf8(self.public_url@),
                utf8(self.name@),
                r.0,
                r.1@,
                r.2@,
            ),
    {
        let mut body: Vec<u8> = Vec::new();
        append_text(&mut body, "{\"dl\":\"");
        append_text(&mut body, self.public_url.as_str());
        append_text(&mut body, "/");
        append_text(&mut body, self.name.as_str());
        append_text(&mut body, "/crates\",\"api\":null}");
        (200, content_type("application/json"), body)
    }

    /// The answer to a request for the metadata of a crate.
    fn metadata_response() -> (r: (u16, Vec<(String, String)>, Vec<u8>))
        ensures
            r.0 == 200,
            is_content_type(r.1@, "application/json"@),
            r.2@ == metadata_body(placeholder_crate()),
    {
        let checksum = RustRepo::crate_sha256_hex("FAKE_CRATE_CONTENT".as_bytes());
        let mut body: Vec<u8> = Vec::new();
        append_text(&mut body, "[{\"vers\":\"1.0.0\",\"deps\":[],\"cksum\":\"");
        append_text(&mut body, checksum.as_str());
        append_text(&mut body, "\"}]");
        (200, content_type("application/json"), body)
    }

    /// The answer to a request for a crate file: the stored file, or the
    /// placeholder while the repository has none.
    fn download_response(&self, crate_name: &str, version: &str) -> (r: (
        u16,
        Vec<(String, String)>,
        Vec<u8>,
    ))
        ensures
            r.0 == 200,
            is_content_type(r.1@, "application/octet-stream"@),
            r.2@ == placeholder_crate(),
    {
        let id = ArtifactId {
            namespace: None,
            name: crate_name.to_owned(),
            version: version.to_owned(),
        };
        let body: Vec<u8> = match self.fetch(&id) {
            Ok(Some(stored)) => stored,
            _ => {
                let mut body: Vec<u8> = Vec::new();
                append_text(&mut body, "FAKE_CRATE_CONTENT");
                body
            },
        };
        (200, content_type("application/octet-stream"), body)
    }
}

impl RepositoryBackend for RustRepo {
    open spec fn writable(&self) -> bool {
        self.in_backend is Some
    }

    /// No storage engine is linked in: every fetch is a miss.
    open spec fn answers(&self, id: ArtifactIdView, answer: FetchAnswer) -> bool {
        answer == FetchAnswer::Ok(None)
    }

    /// The one answer of the Cargo sparse-index protocol to the path.
    open spec fn responds(&self, suburl: Seq<u8>, body: Seq<u8>, answer: ProtocolAnswer) -> bool {
        answer matches Ok((status, headers, data)) && rust_response(
            rust_route(path_segments(suburl), utf8(self.name@)),
            utf8(self.public_url@),
            utf8(self.name@),
            status,
            headers@,
            data@,
        )
    }

    open spec fn spec_name(&self) -> Seq<char> {
        self.name@
    }

    open spec fn spec_format(&self) -> ArtifactFormat {
        ArtifactFormat::Rust
    }

    /// A writable repository takes every artifact; one that is not refuses
    /// each in its own name.
    open spec fn stores(
        &self,
        id: ArtifactIdView,
        data: Seq<u8>,
        outcome: Result<(), RepositoryError>,
    ) -> bool {
        if self.writable() {
            outcome is Ok
        } else {
            outcome matches Err(RepositoryError::ReadOnly { repository }) && repository@
                == self.name@
        }
    }

    fn name(&self) -> (name: &str)
        ensures
            name@ == self.name@,
    {
        self.name.as_str()
    }

    fn format(&self) -> (format: ArtifactFormat)
        ensures
            format == ArtifactFormat::Rust,
    {
        ArtifactFormat::Rust
    }

    fn is_writable(&self) -> (w: bool)
        ensures
            w == self.writable(),
    {
        self.in_backend.is_some()
    }

    fn fetch(&self, id: &ArtifactId) -> (answer: FetchAnswer) {
        Ok(None)
    }

    fn put(&self, id: &ArtifactId, data: &[u8]) -> (r: Result<(), RepositoryError>)
        ensures
            self.writable() ==> r is Ok,
            !self.writable() ==> (r matches Err(RepositoryError::ReadOnly { repository })
                && repository@ == self.name@),
    {
        if self.in_backend.is_none() {
            return Err(RepositoryError::ReadOnly { repository: self.name.clone() });
        }
        Ok(())
    }

    /// Serves the Cargo sparse-index protocol: the registry configuration,
    /// crate metadata and crate downloads; every other path is answered with
    /// 404 and an empty body.
    fn handle_http2_request(&self, suburl: &str, body: &[u8]) -> (r: ProtocolAnswer)
        ensures
            r matches Ok((status, headers, data)) && rust_response(
                rust_route(path_segments(suburl.spec_bytes()), utf8(self.name@)),
                utf8(self.public_url@),
                utf8(self.name@),
                status,
                headers@,
                data@,
            ),
    {
        let path = str_trim_start(suburl, SLASH);
        let parts = str_split(path, SLASH);
        proof {
            lemma_segments(parts@, path_segments(suburl.spec_bytes()));
        }
        let n: usize = parts.len();
        if n == 2 && str_equal(parts[0], "index") && str_equal(parts[1], "config.json") {
            Ok(self.config_response())
        } else if n == 3 && str_equal(parts[0], self.name.as_str()) && str_equal(parts[1], "index")
            && str_equal(parts[2], "config.json") {
            Ok(self.config_response())
        } else if n == 4 && str_equal(parts[0], "index") {
            let shard: [&str; 3] = [parts[1], parts[2], parts[3]];
            match RustRepo::sparse_crate_from_parts(shard.as_slice()) {
                Some(_) => Ok(RustRepo::metadata_response()),
                None => Ok((404, Vec::new(), Vec::new())),
            }
        } else if n == 5 && str_equal(parts[0], self.name.as_str()) && str_equal(parts[1], "index") {
            let shard: [&str; 3] = [parts[2], parts[3], parts[4]];
            match RustRepo::sparse_crate_from_parts(shard.as_slice()) {
                Some(_) => Ok(RustRepo::metadata_response()),
                None => Ok((404, Vec::new(), Vec::new())),
            }
        } else if n == 4 && str_equal(parts[0], "crates") && str_equal(parts[3], "download") {
            Ok(self.download_response(parts[1], parts[2]))
        } else {
            Ok((404, Vec::new(), Vec::new()))
        }
    }
}

} // verus!
