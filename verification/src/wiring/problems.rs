//! What keeps declarations from being wired.

use vstd::prelude::*;
use vstd::string::*;
use crate::repository::types::{IoDeclaration, RepositoryDeclaration};
use crate::search::{first_where, lemma_first_where, lemma_first_where_is};
use crate::storage::StorageError;
use crate::types::ArtifactFormat;
use crate::wiring::names::{first_duplicate, resolves, unique};

verus! {

/// What keeps an instance from being wired, with names as texts.
pub enum WireProblem {
    DuplicateStorageEndpoint { name: Seq<char> },
    DuplicateExposedEndpoint { name: Seq<char> },
    DuplicateRepository { name: Seq<char> },
    MissingUpstream { repository: Seq<char>, upstream: Seq<char> },
    MissingStorageEndpoint { repository: Seq<char>, name: Seq<char> },
    MissingExposedEndpoint { repository: Seq<char>, name: Seq<char> },
    UnsupportedFormat { repository: Seq<char>, format: ArtifactFormat },
    Storage { endpoint: Seq<char> },
}

/// Why a configuration cannot be built or an instance cannot be wired.
#[derive(Debug, Clone, PartialEq, Eq)]
pub enum WireError {
    /// Two storage endpoints have the same name.
    DuplicateStorageEndpoint { name: String },
    /// Two exposed endpoints have the same name.
    DuplicateExposedEndpoint { name: String },
    /// Two repositories have the same name.
    DuplicateRepository { name: String },
    /// A repository names an upstream that is no repository.
    MissingUpstream { repository: String, upstream: String },
    /// A repository names a storage endpoint that does not exist.
    MissingStorageEndpoint { repository: String, name: String },
    /// A repository names an exposed endpoint that does not exist.
    MissingExposedEndpoint { repository: String, name: String },
    /// No backend serves the format of a repository.
    UnsupportedFormat { repository: String, format: ArtifactFormat },
    /// The declaration of a storage endpoint does not resolve.
    Storage { endpoint: String, error: StorageError },
}

impl View for WireError {
    type V = WireProblem;

    open spec fn view(&self) -> WireProblem {
        match *self {
            WireError::DuplicateStorageEndpoint { name } => WireProblem::DuplicateStorageEndpoint {
                name: name@,
            },
            WireError::DuplicateExposedEndpoint { name } => WireProblem::DuplicateExposedEndpoint {
                name: name@,
            },
            WireError::DuplicateRepository { name } => WireProblem::DuplicateRepository {
                name: name@,
            },
            WireError::MissingUpstream { repository, upstream } => WireProblem::MissingUpstream {
                repository: repository@,
                upstream: upstream@,
            },
            WireError::MissingStorageEndpoint {
                repository,
                name,
            } => WireProblem::MissingStorageEndpoint { repository: repository@, name: name@ },
            WireError::MissingExposedEndpoint {
                repository,
                name,
            } => WireProblem::MissingExposedEndpoint { repository: repository@, name: name@ },
            WireError::UnsupportedFormat { repository, format } => WireProblem::UnsupportedFormat {
                repository: repository@,
                format,
            },
            WireError::Storage { endpoint, error } => WireProblem::Storage { endpoint: endpoint@ },
        }
    }
}

/// The sentence `prefix` followed by `name`.
fn sentence(prefix: &str, name: &String) -> (text: String)
    ensures
        text@ == prefix@ + name@,
{
    let mut text = prefix.to_owned();
    text.append(name.as_str());
    text
}

impl WireError {
    /// The error as a sentence.
    pub open spec fn spec_message(self) -> Seq<char> {
        match self {
            WireError::DuplicateStorageEndpoint { name } => "Duplicate storage endpoint: "@ + name@,
            WireError::DuplicateExposedEndpoint { name } => "Duplicate exposed endpoint: "@ + name@,
            WireError::DuplicateRepository { name } => "Duplicate repository: "@ + name@,
            WireError::MissingUpstream { repository, upstream } => "Missing upstream repo: "@
                + upstream@,
            WireError::MissingStorageEndpoint { repository, name } => "Missing storage endpoint: "@
                + name@,
            WireError::MissingExposedEndpoint { repository, name } => "Missing exposed endpoint: "@
                + name@,
            WireError::UnsupportedFormat {
                repository,
                format,
            } => "Backend not implemented for format: "@ + format.spec_name(),
            WireError::Storage { endpoint, error } => error.spec_message(),
        }
    }

    /// The error as a sentence.
    pub fn message(&self) -> (text: String)
        ensures
            text@ == self.spec_message(),
    {
        match self {
            WireError::DuplicateStorageEndpoint { name } => sentence(
                "Duplicate storage endpoint: ",
                name,
            ),
            WireError::DuplicateExposedEndpoint { name } => sentence(
                "Duplicate exposed endpoint: ",
                name,
            ),
            WireError::DuplicateRepository { name } => sentence("Duplicate repository: ", name),
            WireError::MissingUpstream { repository, upstream } => sentence(
                "Missing upstream repo: ",
                upstream,
            ),
            WireError::MissingStorageEndpoint { repository, name } => sentence(
                "Missing storage endpoint: ",
                name,
            ),
            WireError::MissingExposedEndpoint { repository, name } => sentence(
                "Missing exposed endpoint: ",
                name,
            ),
            WireError::UnsupportedFormat { repository, format } => {
                let mut text = "Backend not implemented for format: ".to_owned();
                text.append(format.name());
                text
            },
            WireError::Storage { endpoint, error } => error.message(),
        }
    }
}

/// What an instance or a configuration declares: the names of its storage
/// endpoints and of its exposed endpoints, and its repositories.
pub struct Declarations {
    pub storages: Seq<Seq<char>>,
    pub endpoints: Seq<Seq<char>>,
    pub repositories: Seq<RepositoryDeclaration>,
}

/// The names of the declared repositories.
pub open spec fn repository_names(repositories: Seq<RepositoryDeclaration>) -> Seq<Seq<char>> {
    Seq::new(repositories.len(), |i: int| repositories[i].name)
}

/// The position of the first of `upstreams` that is no repository, or the
/// length of `upstreams` when all are.
pub open spec fn first_missing_upstream(upstreams: Seq<Seq<char>>, known: Seq<Seq<char>>) -> int {
    first_where(upstreams.len() as int, is_missing(upstreams, known))
}

/// Whether the upstream at a position is no repository.
pub open spec fn is_missing(upstreams: Seq<Seq<char>>, known: Seq<Seq<char>>) -> spec_fn(
    int,
) -> bool {
    |u: int| !resolves(known, upstreams[u])
}

/// The problem with one direction of a repository: its storage endpoint
/// does not exist or, if that does, its exposed endpoint does not.
pub open spec fn io_problem(
    repository: Seq<char>,
    io: Option<IoDeclaration>,
    storages: Seq<Seq<char>>,
    endpoints: Seq<Seq<char>>,
) -> Option<WireProblem> {
    match io {
        None => None,
        Some(io) => if !resolves(storages, io.storage) {
            Some(WireProblem::MissingStorageEndpoint { repository, name: io.storage })
        } else if !resolves(endpoints, io.endpoint) {
            Some(WireProblem::MissingExposedEndpoint { repository, name: io.endpoint })
        } else {
            None
        },
    }
}

/// The first problem with a repository: a missing upstream, then its input
/// side, then its output side, then its format.  Only the Rust format has a
/// backend.
pub open spec fn repository_problem(
    repository: RepositoryDeclaration,
    storages: Seq<Seq<char>>,
    endpoints: Seq<Seq<char>>,
    known: Seq<Seq<char>>,
) -> Option<WireProblem> {
    let u = first_missing_upstream(repository.upstreams, known);
    if u < repository.upstreams.len() {
        Some(
            WireProblem::MissingUpstream {
                repository: repository.name,
                upstream: repository.upstreams[u],
            },
        )
    } else if io_problem(repository.name, repository.in_io, storages, endpoints) is Some {
        io_problem(repository.name, repository.in_io, storages, endpoints)
    } else if io_problem(repository.name, repository.out_io, storages, endpoints) is Some {
        io_problem(repository.name, repository.out_io, storages, endpoints)
    } else if repository.format != ArtifactFormat::Rust {
        Some(
            WireProblem::UnsupportedFormat {
                repository: repository.name,
                format: repository.format,
            },
        )
    } else {
        None
    }
}

/// The position of the first repository with a problem, or the number of
/// repositories when none has one.
pub open spec fn first_troubled(d: Declarations) -> int {
    first_where(d.repositories.len() as int, is_troubled(d))
}

/// Whether the repository at a position has a problem.
pub open spec fn is_troubled(d: Declarations) -> spec_fn(int) -> bool {
    |r: int|
        repository_problem(
            d.repositories[r],
            d.storages,
            d.endpoints,
            repository_names(d.repositories),
        ) is Some
}

/// The first problem that keeps declarations from being wired: a name
/// that occurs twice among the storage endpoints, the exposed endpoints or
/// the repositories, then the first problem of the first repository that
/// has one.  Declarations without a problem wire.
pub open spec fn wiring_problem(d: Declarations) -> Option<WireProblem> {
    let names = repository_names(d.repositories);
    if !unique(d.storages) {
        Some(WireProblem::DuplicateStorageEndpoint { name: d.storages[first_duplicate(d.storages)] })
    } else if !unique(d.endpoints) {
        Some(
            WireProblem::DuplicateExposedEndpoint { name: d.endpoints[first_duplicate(d.endpoints)] },
        )
    } else if !unique(names) {
        Some(WireProblem::DuplicateRepository { name: names[first_duplicate(names)] })
    } else if first_troubled(d) < d.repositories.len() {
        repository_problem(d.repositories[first_troubled(d)], d.storages, d.endpoints, names)
    } else {
        None
    }
}

/// Whether both names of one direction of a repository resolve.
pub open spec fn io_resolves(io: Option<IoDeclaration>, d: Declarations) -> bool {
    match io {
        Some(io) => resolves(d.storages, io.storage) && resolves(d.endpoints, io.endpoint),
        None => true,
    }
}

/// Whether every name that a repository refers to resolves.
pub open spec fn references_resolve(repository: RepositoryDeclaration, d: Declarations) -> bool {
    &&& forall|u: int|
        0 <= u < repository.upstreams.len() ==> #[trigger] resolves(
            repository_names(d.repositories),
            repository.upstreams[u],
        )
    &&& io_resolves(repository.in_io, d)
    &&& io_resolves(repository.out_io, d)
}

/// Whether every name reference of the declarations resolves.
pub open spec fn all_references_resolve(d: Declarations) -> bool {
    forall|r: int|
        0 <= r < d.repositories.len() ==> references_resolve(#[trigger] d.repositories[r], d)
}

/// Whether every repository has the one format that has a backend.
pub open spec fn all_formats_supported(d: Declarations) -> bool {
    forall|r: int|
        0 <= r < d.repositories.len() ==> (#[trigger] d.repositories[r]).format
            == ArtifactFormat::Rust
}

/// Wiring resolves or fails.  Declarations in which every name reference
/// resolves have no wiring problem, provided that no name occurs twice in
/// a list and every format has a backend; declarations with an unresolved
/// reference have one.  With the contract of `wire_holger`: the first are
/// wired whole, the second not at all.
pub proof fn wiring_resolves_or_fails(d: Declarations)
    ensures
        all_references_resolve(d) && unique(d.storages) && unique(d.endpoints) && unique(
            repository_names(d.repositories),
        ) && all_formats_supported(d) ==> wiring_problem(d) is None,
        !all_references_resolve(d) ==> wiring_problem(d) is Some,
{
    let known = repository_names(d.repositories);
    let troubled = is_troubled(d);
    lemma_first_where(d.repositories.len() as int, troubled);
    if all_references_resolve(d) && all_formats_supported(d) {
        assert forall|r: int| 0 <= r < d.repositories.len() implies !#[trigger] troubled(r) by {
            let repository = d.repositories[r];
            assert(references_resolve(repository, d));
            let missing = is_missing(repository.upstreams, known);
            assert forall|u: int| 0 <= u < repository.upstreams.len() implies !#[trigger] missing(
                u,
            ) by {
                assert(resolves(known, repository.upstreams[u]));
            }
            lemma_first_where_is(
                repository.upstreams.len() as int,
                missing,
                repository.upstreams.len() as int,
            );
        }
        lemma_first_where_is(
            d.repositories.len() as int,
            troubled,
            d.repositories.len() as int,
        );
    }
    if !all_references_resolve(d) {
        let r = choose|r: int|
            0 <= r < d.repositories.len() && !references_resolve(#[trigger] d.repositories[r], d);
        let repository = d.repositories[r];
        let missing = is_missing(repository.upstreams, known);
        lemma_first_where(repository.upstreams.len() as int, missing);
        if exists|u: int|
            0 <= u < repository.upstreams.len() && !#[trigger] resolves(
                known,
                repository.upstreams[u],
            ) {
            let u = choose|u: int|
                0 <= u < repository.upstreams.len() && !#[trigger] resolves(
                    known,
                    repository.upstreams[u],
                );
            assert(missing(u));
        }
        assert(troubled(r));
    }
}

} // verus!
