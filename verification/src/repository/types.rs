//! The capability set of a repository backend, and the fetch that falls back
//! to upstream repositories.

use vstd::prelude::*;
use vstd::string::*;
use std::sync::Arc;
use crate::repository::backend::Backend;
use crate::repository::rust::RustRepo;
use crate::types::{ArtifactFormat, ArtifactId, ArtifactIdView, InOut, Repository, RepositoryType};

verus! {

/// Why a backend refused or failed a request.
#[derive(Debug, Clone, PartialEq, Eq)]
pub enum RepositoryError {
    /// A write was asked of a repository without an input storage link.
    ReadOnly { repository: String },
    /// The backend could not complete the request.
    Failed { message: String },
}

impl RepositoryError {
    /// The error as a sentence.
    pub open spec fn spec_message(self) -> Seq<char> {
        match self {
            RepositoryError::ReadOnly { repository } => "Repository '"@ + repository@
                + "' is read-only"@,
            RepositoryError::Failed { message } => message@,
        }
    }

    /// The error as a sentence.
    pub fn message(&self) -> (text: String)
        ensures
            text@ == self.spec_message(),
    {
        match self {
            RepositoryError::ReadOnly { repository } => {
                let mut text = "Repository '".to_owned();
                text.append(repository.as_str());
                text.append("' is read-only");
                text
            },
            RepositoryError::Failed { message } => message.clone(),
        }
    }
}

/// What a backend answers to a fetch: the bytes, a miss, or a failure.
pub type FetchAnswer = Result<Option<Vec<u8>>, RepositoryError>;

/// What a backend answers to a protocol request: status code, headers and
/// body.
pub type ProtocolAnswer = Result<(u16, Vec<(String, String)>, Vec<u8>), RepositoryError>;

/// The interface that every repository format implements.
pub trait RepositoryBackend: Send + Sync {
    /// The repository's name.  A backend states its name here; the name of
    /// one that does not is the empty text.
    open spec fn spec_name(&self) -> Seq<char> {
        Seq::empty()
    }

    /// The format that the repository serves.  A backend states its format
    /// here; one that does not serves raw artifacts.
    open spec fn spec_format(&self) -> ArtifactFormat {
        ArtifactFormat::Raw
    }

    /// Whether an input storage link exists.  A backend states it here; one
    /// that does not is writable, and `put` promises nothing of it.
    open spec fn writable(&self) -> bool {
        true
    }

    /// Whether `answer` is something that `fetch` may return for `id`.  A
    /// backend over a store that changes, or that can fail, admits several
    /// answers for one id; unless a backend says otherwise, it admits any.
    open spec fn answers(&self, id: ArtifactIdView, answer: FetchAnswer) -> bool {
        true
    }

    /// Whether `outcome` is something that `put` may return for `id` and
    /// `data`.  Unless a backend says otherwise, it admits any outcome.
    open spec fn stores(
        &self,
        id: ArtifactIdView,
        data: Seq<u8>,
        outcome: Result<(), RepositoryError>,
    ) -> bool {
        true
    }

    /// The repository's name.
    fn name(&self) -> (name: &str)
        ensures
            name@ == self.spec_name(),
    ;

    /// The format that the repository serves.
    fn format(&self) -> (format: ArtifactFormat)
        ensures
            format == self.spec_format(),
    ;

    /// Whether the repository accepts writes: whether an input storage link
    /// exists.
    fn is_writable(&self) -> (w: bool)
        ensures
            w == self.writable(),
    ;

    /// Looks an artifact up in the repository's own storage; upstreams are
    /// not consulted.
    fn fetch(&self, id: &ArtifactId) -> (answer: FetchAnswer)
        ensures
            self.answers(id@, answer),
    ;

    /// Stores an artifact.  A repository that is not writable refuses with
    /// `ReadOnly`.
    fn put(&self, id: &ArtifactId, data: &[u8]) -> (r: Result<(), RepositoryError>)
        ensures
            !self.writable() ==> r is Err && r->Err_0 is ReadOnly,
            self.stores(id@, data@, r),
    ;

    /// Whether `answer` is something that `handle_http2_request` may return
    /// for the path `suburl` and the request body `body`.  Unless a backend
    /// says otherwise, it admits any answer.
    open spec fn responds(&self, suburl: Seq<u8>, body: Seq<u8>, answer: ProtocolAnswer) -> bool {
        true
    }

    /// Answers a protocol request for `suburl`, the request path below the
    /// repository's routing prefix.
    fn handle_http2_request(&self, suburl: &str, body: &[u8]) -> (answer: ProtocolAnswer)
        ensures
            self.responds(suburl.spec_bytes(), body@, answer),
    ;
}

/// Whether upstream `j` may decline `id`: with a miss, or with a failure,
/// which counts as a miss.
pub open spec fn declines(
    upstreams: Seq<Arc<dyn RepositoryBackend>>,
    j: int,
    id: ArtifactIdView,
) -> bool {
    upstreams[j].answers(id, Ok(None)) || exists|e: RepositoryError|
        upstreams[j].answers(id, Err::<Option<Vec<u8>>, _>(e))
}

/// Whether upstream `k` may serve `data` for `id` after every upstream
/// before it declined.
pub open spec fn served_by_upstream(
    upstreams: Seq<Arc<dyn RepositoryBackend>>,
    id: ArtifactIdView,
    data: Vec<u8>,
    k: int,
) -> bool {
    &&& 0 <= k < upstreams.len()
    &&& upstreams[k].answers(id, Ok(Some(data)))
    &&& forall|j: int| 0 <= j < k ==> #[trigger] declines(upstreams, j, id)
}

/// Whether `data` may be what a fetch through `local` and `upstreams`
/// yields for `id`: the local copy, or after a local miss the copy of the
/// first upstream, in declared order, that does not decline.
pub open spec fn served<R: RepositoryBackend + ?Sized>(
    local: &R,
    upstreams: Seq<Arc<dyn RepositoryBackend>>,
    id: ArtifactIdView,
    data: Vec<u8>,
) -> bool {
    local.answers(id, Ok(Some(data))) || (local.answers(id, Ok(None)) && exists|k: int|
        served_by_upstream(upstreams, id, data, k))
}

/// Whether a fetch through `local` and `upstreams` may find nothing for
/// `id`: a local miss, and every upstream declines.
pub open spec fn missed<R: RepositoryBackend + ?Sized>(
    local: &R,
    upstreams: Seq<Arc<dyn RepositoryBackend>>,
    id: ArtifactIdView,
) -> bool {
    local.answers(id, Ok(None)) && forall|j: int|
        0 <= j < upstreams.len() ==> #[trigger] declines(upstreams, j, id)
}

/// Whether `entry` may be what a fetch yields for one of `ids`: it is for
/// the artifact of one of them, and its data is served for that id.
pub open spec fn entry_served<R: RepositoryBackend + ?Sized>(
    local: &R,
    upstreams: Seq<Arc<dyn RepositoryBackend>>,
    ids: Seq<ArtifactId>,
    entry: (ArtifactId, Vec<u8>),
) -> bool {
    exists|k: int|
        0 <= k < ids.len() && (#[trigger] ids[k])@ == entry.0@ && served(
            local,
            upstreams,
            ids[k]@,
            entry.1,
        )
}

/// Whether `found` holds an entry for the artifact `id`.
pub open spec fn has_entry(found: Seq<(ArtifactId, Vec<u8>)>, id: ArtifactIdView) -> bool {
    exists|e: int| 0 <= e < found.len() && (#[trigger] found[e]).0@ == id
}

/// No two entries are for the same artifact.
pub open spec fn distinct_entries(found: Seq<(ArtifactId, Vec<u8>)>) -> bool {
    forall|a: int, b: int|
        0 <= a < b < found.len() ==> (#[trigger] found[a]).0@ != (#[trigger] found[b]).0@
}

/// Records `data` for `id`: the entry of an artifact already present is
/// overwritten, a new artifact is added at the end.
fn record(found: &mut Vec<(ArtifactId, Vec<u8>)>, id: &ArtifactId, data: Vec<u8>) -> (at: usize)
    requires
        distinct_entries(old(found)@),
    ensures
        distinct_entries(final(found)@),
        at < final(found)@.len(),
        final(found)@[at as int].0@ == id@,
        final(found)@[at as int].1 == data,
        forall|e: int|
            0 <= e < old(found)@.len() ==> (#[trigger] final(found)@[e]).0@ == old(found)@[e].0@,
        forall|e: int|
            0 <= e < old(found)@.len() && e != at ==> #[trigger] final(found)@[e] == old(found)@[e],
        final(found)@.len() == old(found)@.len() || (final(found)@.len() == old(found)@.len() + 1
            && at == old(found)@.len()),
{
    let mut e: usize = 0;
    while e < found.len()
        invariant
            e <= found@.len(),
            found@ == old(found)@,
            distinct_entries(found@),
            forall|x: int| 0 <= x < e ==> (#[trigger] found@[x]).0@ != id@,
        decreases found@.len() - e,
    {
        if found[e].0.same_as(id) {
            let key = found[e].0.duplicate();
            found.set(e, (key, data));
            proof {
                assert forall|a: int, b: int| 0 <= a < b < found@.len() implies (
                #[trigger] found@[a]).0@ != (#[trigger] found@[b]).0@ by {
                    assert(found@[a].0@ == old(found)@[a].0@);
                    assert(found@[b].0@ == old(found)@[b].0@);
                }
            }
            return e;
        }
        e += 1;
    }
    found.push((id.duplicate(), data));
    e
}

/// Where an artifact was found.
#[derive(Debug, Clone, Copy, PartialEq, Eq, Structural)]
pub enum Source {
    /// In the repository's own storage.
    Local,
    /// In the upstream at this position of the list.
    Upstream(usize),
}

/// Fetches one artifact, falling back to upstreams.  The artifact is asked
/// of `local` first and, on a miss, of each upstream in declared order until
/// one has it; an upstream that fails counts as a miss.  The answer names
/// the source of what was found.  A failure of `local` is the answer.
pub fn fetch_with_upstreams<R: RepositoryBackend + ?Sized>(
    local: &R,
    upstreams: &[Arc<dyn RepositoryBackend>],
    id: &ArtifactId,
) -> (r: Result<Option<(Vec<u8>, Source)>, RepositoryError>)
    ensures
        match r {
            Ok(Some((data, Source::Local))) => local.answers(id@, Ok(Some(data))),
            Ok(Some((data, Source::Upstream(k)))) => local.answers(id@, Ok(None))
                && served_by_upstream(upstreams@, id@, data, k as int),
            Ok(None) => missed(local, upstreams@, id@),
            Err(e) => local.answers(id@, Err::<Option<Vec<u8>>, _>(e)),
        },
{
    match local.fetch(id) {
        Err(e) => Err(e),
        Ok(Some(data)) => Ok(Some((data, Source::Local))),
        Ok(None) => {
            let mut k: usize = 0;
            while k < upstreams.len()
                invariant
                    k <= upstreams@.len(),
                    local.answers(id@, Ok(None)),
                    forall|j: int| 0 <= j < k ==> #[trigger] declines(upstreams@, j, id@),
                decreases upstreams@.len() - k,
            {
                match upstreams[k].fetch(id) {
                    Ok(Some(data)) => {
                        return Ok(Some((data, Source::Upstream(k))));
                    },
                    Ok(None) => {},
                    Err(e) => {
                        assert(upstreams@[k as int].answers(id@, Err::<Option<Vec<u8>>, _>(e)));
                    },
                }
                k += 1;
            }
            Ok(None)
        },
    }
}

/// Fetches many artifacts, falling back to upstreams: every id is fetched as
/// `fetch_with_upstreams` fetches it.  An id that misses everywhere is
/// absent from the result.  A failure of `local` ends the fetch.
///
/// The result holds one entry per artifact found.
pub fn fetch_many_with_upstreams<R: RepositoryBackend + ?Sized>(
    local: &R,
    upstreams: &[Arc<dyn RepositoryBackend>],
    ids: &[ArtifactId],
) -> (r: Result<Vec<(ArtifactId, Vec<u8>)>, RepositoryError>)
    ensures
        match r {
            Ok(found) => {
                &&& distinct_entries(found@)
                &&& forall|e: int|
                    0 <= e < found@.len() ==> entry_served(
                        local,
                        upstreams@,
                        ids@,
                        #[trigger] found@[e],
                    )
                &&& forall|k: int|
                    0 <= k < ids@.len() ==> has_entry(found@, (#[trigger] ids@[k])@) || missed(
                        local,
                        upstreams@,
                        ids@[k]@,
                    )
            },
            Err(e) => exists|k: int|
                0 <= k < ids@.len() && local.answers((#[trigger] ids@[k])@, Err::<Option<Vec<u8>>, _>(e)),
        },
        ids@.len() == 0 ==> r is Ok,
{
    let mut found: Vec<(ArtifactId, Vec<u8>)> = Vec::new();
    let mut i: usize = 0;
    while i < ids.len()
        invariant
            i <= ids@.len(),
            distinct_entries(found@),
            forall|e: int|
                0 <= e < found@.len() ==> entry_served(
                    local,
                    upstreams@,
                    ids@.take(i as int),
                    #[trigger] found@[e],
                ),
            forall|k: int|
                0 <= k < i ==> has_entry(found@, (#[trigger] ids@[k])@) || missed(
                    local,
                    upstreams@,
                    ids@[k]@,
                ),
        decreases ids@.len() - i,
    {
        let id = &ids[i];
        let ghost before = found@;
        let ghost seen = ids@.take(i as int);
        let ghost now = ids@.take(i + 1);
        match fetch_with_upstreams(local, upstreams, id) {
            Err(e) => {
                return Err(e);
            },
            Ok(Some((data, _))) => {
                assert(served(local, upstreams@, id@, data));
                let at: usize = record(&mut found, id, data);
                proof {
                    assert forall|e: int| 0 <= e < found@.len() implies entry_served(
                        local,
                        upstreams@,
                        now,
                        #[trigger] found@[e],
                    ) by {
                        if e == at {
                            assert(now[i as int]@ == found@[e].0@);
                        } else {
                            assert(entry_served(local, upstreams@, seen, before[e]));
                            let k = choose|k: int|
                                0 <= k < seen.len() && (#[trigger] seen[k])@ == before[e].0@
                                    && served(local, upstreams@, seen[k]@, before[e].1);
                            assert(now[k] == seen[k]);
                        }
                    }
                    assert forall|k: int| 0 <= k < i + 1 implies has_entry(
                        found@,
                        (#[trigger] ids@[k])@,
                    ) || missed(local, upstreams@, ids@[k]@) by {
                        if k == i {
                            assert(found@[at as int].0@ == ids@[k]@);
                        } else if has_entry(before, ids@[k]@) {
                            let e = choose|e: int|
                                0 <= e < before.len() && (#[trigger] before[e]).0@ == ids@[k]@;
                            assert(found@[e].0@ == ids@[k]@);
                        }
                    }
                }
            },
            Ok(None) => {
                proof {
                    assert forall|e: int| 0 <= e < found@.len() implies entry_served(
                        local,
                        upstreams@,
                        now,
                        #[trigger] found@[e],
                    ) by {
                        let k = choose|k: int|
                            0 <= k < seen.len() && (#[trigger] seen[k])@ == found@[e].0@ && served(
                                local,
                                upstreams@,
                                seen[k]@,
                                found@[e].1,
                            );
                        assert(now[k] == seen[k]);
                    }
                }
            },
        }
        i += 1;
    }
    proof {
        assert(ids@.take(i as int) =~= ids@);
    }
    Ok(found)
}

/// Upstream fallback ordering.  Where the local repository has no copy of an
/// artifact, the upstreams before the `k`-th have none either, and the `k`-th
/// upstream has exactly `copy`, a fetch that yields anything yields `copy`,
/// and yields it from the `k`-th upstream: the first upstream in declared
/// order that has the artifact is its source.
pub proof fn fallback_takes_first_upstream_hit<R: RepositoryBackend + ?Sized>(
    local: &R,
    upstreams: Seq<Arc<dyn RepositoryBackend>>,
    id: ArtifactIdView,
    k: int,
    copy: Vec<u8>,
    data: Vec<u8>,
)
    requires
        0 <= k < upstreams.len(),
        forall|a: FetchAnswer| #[trigger] local.answers(id, a) ==> a == FetchAnswer::Ok(None),
        forall|j: int, a: FetchAnswer|
            0 <= j < k && #[trigger] upstreams[j].answers(id, a) ==> !(a matches Ok(Some(_))),
        forall|a: FetchAnswer| #[trigger] upstreams[k].answers(id, a) ==> a == FetchAnswer::Ok(Some(copy)),
        served(local, upstreams, id, data),
    ensures
        data == copy,
        forall|from: int| #[trigger] served_by_upstream(upstreams, id, data, from) ==> from == k,
{
    assert forall|from: int| #[trigger] served_by_upstream(upstreams, id, data, from) implies from
        == k by {
        if from > k {
            assert(declines(upstreams, k, id));
        }
    }
    let from = choose|from: int| served_by_upstream(upstreams, id, data, from);
    assert(from == k);
}

/// One direction of a repository in an instance: the storage endpoint and
/// the exposed endpoint it names and, once wired, their positions in the
/// instance.
#[derive(Debug, Clone, PartialEq, Eq)]
pub struct RepositoryIO {
    pub storage_backend: String,
    pub endpoint: String,
    pub wired_storage: Option<usize>,
    pub wired_exposed: Option<usize>,
}

/// A repository of an instance.  It is routable when `out_io` is present
/// and wired, and writable when `in_io` is present.
pub struct RepositoryInstance {
    pub name: String,
    pub format: ArtifactFormat,
    pub repo_type: RepositoryType,
    pub in_io: Option<RepositoryIO>,
    pub out_io: Option<RepositoryIO>,
    /// The upstream repositories, by name and in priority order.
    pub upstreams: Vec<String>,
    /// The positions of the upstream repositories, once wired.
    pub wired_upstreams: Vec<usize>,
    /// The backend, once instantiated.  Requests are dispatched to it,
    /// whichever variant it is.
    pub backend: Option<Backend>,
}

/// What a repository declares of one direction: two names.
pub struct IoDeclaration {
    pub storage: Seq<char>,
    pub endpoint: Seq<char>,
}

/// What a repository declares: its name, its format, and the names it
/// refers to.
pub struct RepositoryDeclaration {
    pub name: Seq<char>,
    pub format: ArtifactFormat,
    pub upstreams: Seq<Seq<char>>,
    pub in_io: Option<IoDeclaration>,
    pub out_io: Option<IoDeclaration>,
}

/// The texts of a list of names.
pub open spec fn name_texts(names: Seq<String>) -> Seq<Seq<char>> {
    Seq::new(names.len(), |i: int| names[i]@)
}

impl RepositoryIO {
    /// The names that this direction declares.
    pub open spec fn declaration(self) -> IoDeclaration {
        IoDeclaration { storage: self.storage_backend@, endpoint: self.endpoint@ }
    }

    /// The unwired direction of a declaration.
    pub fn from_config(cfg: &InOut) -> (io: RepositoryIO)
        ensures
            io.storage_backend == cfg.storage_backend,
            io.endpoint == cfg.exposed_endpoint,
            io.wired_storage is None,
            io.wired_exposed is None,
    {
        RepositoryIO {
            storage_backend: cfg.storage_backend.clone(),
            endpoint: cfg.exposed_endpoint.clone(),
            wired_storage: None,
            wired_exposed: None,
        }
    }
}

impl InOut {
    /// The names that this direction declares.
    pub open spec fn declaration(self) -> IoDeclaration {
        IoDeclaration { storage: self.storage_backend@, endpoint: self.exposed_endpoint@ }
    }
}

/// The declaration of an optional direction of an instance.
pub open spec fn io_declaration(io: Option<RepositoryIO>) -> Option<IoDeclaration> {
    match io {
        Some(io) => Some(io.declaration()),
        None => None,
    }
}

/// The declaration of an optional direction of a configuration.
pub open spec fn in_out_declaration(io: Option<InOut>) -> Option<IoDeclaration> {
    match io {
        Some(io) => Some(io.declaration()),
        None => None,
    }
}

impl Repository {
    /// What the configuration declares of this repository.
    pub open spec fn declaration(self) -> RepositoryDeclaration {
        RepositoryDeclaration {
            name: self.name@,
            format: self.ty.spec_format(),
            upstreams: name_texts(self.upstreams@),
            in_io: in_out_declaration(self.in_),
            out_io: in_out_declaration(self.out),
        }
    }
}

/// A copy of a list of names.
pub fn copy_names(names: &Vec<String>) -> (copy: Vec<String>)
    ensures
        copy@ == names@,
{
    let mut copy: Vec<String> = Vec::new();
    let mut i: usize = 0;
    while i < names.len()
        invariant
            i <= names@.len(),
            copy@ == names@.take(i as int),
        decreases names@.len() - i,
    {
        copy.push(names[i].clone());
        assert(names@.take(i + 1) =~= names@.take(i as int).push(names@[i as int]));
        i += 1;
    }
    assert(names@.take(names@.len() as int) =~= names@);
    copy
}

impl RepositoryInstance {
    /// What this repository declares.
    pub open spec fn declaration(self) -> RepositoryDeclaration {
        RepositoryDeclaration {
            name: self.name@,
            format: self.format,
            upstreams: name_texts(self.upstreams@),
            in_io: io_declaration(self.in_io),
            out_io: io_declaration(self.out_io),
        }
    }

    /// Whether nothing of this repository is wired yet.
    pub open spec fn unwired(self) -> bool {
        &&& self.backend is None
        &&& self.wired_upstreams@.len() == 0
        &&& self.in_io matches Some(io) ==> io.wired_storage is None && io.wired_exposed is None
        &&& self.out_io matches Some(io) ==> io.wired_storage is None && io.wired_exposed is None
    }

    /// The unwired repository of a declaration: names only, no backend.
    pub fn from_config(cfg: &Repository) -> (repository: RepositoryInstance)
        ensures
            repository.declaration() == cfg.declaration(),
            repository.repo_type == cfg.ty,
            repository.unwired(),
    {
        let in_io = match &cfg.in_ {
            Some(io) => Some(RepositoryIO::from_config(io)),
            None => None,
        };
        let out_io = match &cfg.out {
            Some(io) => Some(RepositoryIO::from_config(io)),
            None => None,
        };
        RepositoryInstance {
            name: cfg.name.clone(),
            format: cfg.ty.format(),
            repo_type: cfg.ty,
            in_io,
            out_io,
            upstreams: copy_names(&cfg.upstreams),
            wired_upstreams: Vec::new(),
            backend: None,
        }
    }

    /// Whether the repository takes writes: whether it has an input side.
    pub fn is_writable(&self) -> (w: bool)
        ensures
            w == (self.in_io is Some),
    {
        self.in_io.is_some()
    }

    /// The name of the exposed endpoint that serves the repository; empty
    /// for a repository without an output side.
    pub fn exposed_endpoint_name(&self) -> (name: &str)
        ensures
            match self.out_io {
                Some(io) => name@ == io.endpoint@,
                None => name@.len() == 0,
            },
    {
        match &self.out_io {
            Some(io) => io.endpoint.as_str(),
            None => {
                proof {
                    reveal_strlit("");
                }
                ""
            },
        }
    }

    /// The Cargo sparse-index backend of the repository, where it has one.
    pub open spec fn rust_backend(self) -> Option<RustRepo> {
        match self.backend {
            Some(backend) => backend.rust(),
            None => None,
        }
    }

    /// The backend, once instantiated.
    pub fn backend(&self) -> (backend: Option<&Backend>)
        ensures
            match backend {
                Some(b) => self.backend == Some(*b),
                None => self.backend is None,
            },
    {
        self.backend.as_ref()
    }
}

} // verus!
