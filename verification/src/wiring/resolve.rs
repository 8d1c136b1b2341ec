//! The first pass of wiring: every name is resolved to a position, and
//! nothing is changed.

use vstd::prelude::*;
use vstd::string::*;
use crate::config::HolgerInstance;
use crate::exposed::ExposedEndpointInstance;
use crate::repository::types::{io_declaration, IoDeclaration, RepositoryDeclaration, RepositoryIO, RepositoryInstance};
use crate::search::lemma_first_where_is;
use crate::storage::StorageEndpointInstance;
use crate::types::ArtifactFormat;
use crate::wiring::names::{find_duplicate, find_name, name_index, resolves, texts, unique};
use crate::wiring::problems::{Declarations, WireError};
use crate::wiring::problems::{io_problem, is_missing, is_troubled, repository_names, repository_problem, wiring_problem};

verus! {

/// The names of storage endpoints.
pub open spec fn storage_names(storages: Seq<StorageEndpointInstance>) -> Seq<Seq<char>> {
    Seq::new(storages.len(), |i: int| storages[i].name@)
}

/// The names of exposed endpoints.
pub open spec fn endpoint_names(endpoints: Seq<ExposedEndpointInstance>) -> Seq<Seq<char>> {
    Seq::new(endpoints.len(), |i: int| endpoints[i].name@)
}

/// What repositories declare.
pub open spec fn declared(repositories: Seq<RepositoryInstance>) -> Seq<RepositoryDeclaration> {
    Seq::new(repositories.len(), |i: int| repositories[i].declaration())
}

impl HolgerInstance {
    /// What the instance declares.
    pub open spec fn declarations(self) -> Declarations {
        Declarations {
            storages: storage_names(self.storage_endpoints@),
            endpoints: endpoint_names(self.exposed_endpoints@),
            repositories: declared(self.repositories@),
        }
    }
}

pub(crate) fn storage_name_list<'a>(storages: &'a Vec<StorageEndpointInstance>) -> (names: Vec<&'a str>)
    ensures
        texts(names@) == storage_names(storages@),
{
    let mut names: Vec<&'a str> = Vec::new();
    let mut i: usize = 0;
    while i < storages.len()
        invariant
            i <= storages@.len(),
            names@.len() == i,
            forall|k: int| 0 <= k < i ==> (#[trigger] names@[k])@ == storages@[k].name@,
        decreases storages@.len() - i,
    {
        names.push(storages[i].name.as_str());
        i += 1;
    }
    assert(texts(names@) =~= storage_names(storages@));
    names
}

pub(crate) fn endpoint_name_list<'a>(endpoints: &'a Vec<ExposedEndpointInstance>) -> (names: Vec<&'a str>)
    ensures
        texts(names@) == endpoint_names(endpoints@),
{
    let mut names: Vec<&'a str> = Vec::new();
    let mut i: usize = 0;
    while i < endpoints.len()
        invariant
            i <= endpoints@.len(),
            names@.len() == i,
            forall|k: int| 0 <= k < i ==> (#[trigger] names@[k])@ == endpoints@[k].name@,
        decreases endpoints@.len() - i,
    {
        names.push(endpoints[i].name.as_str());
        i += 1;
    }
    assert(texts(names@) =~= endpoint_names(endpoints@));
    names
}

fn repository_name_list<'a>(repositories: &'a Vec<RepositoryInstance>) -> (names: Vec<&'a str>)
    ensures
        texts(names@) == repository_names(declared(repositories@)),
{
    let mut names: Vec<&'a str> = Vec::new();
    let mut i: usize = 0;
    while i < repositories.len()
        invariant
            i <= repositories@.len(),
            names@.len() == i,
            forall|k: int| 0 <= k < i ==> (#[trigger] names@[k])@ == repositories@[k].name@,
        decreases repositories@.len() - i,
    {
        names.push(repositories[i].name.as_str());
        i += 1;
    }
    assert(texts(names@) =~= repository_names(declared(repositories@)));
    names
}

/// The positions that the names of one repository resolve to.
#[derive(Debug)]
pub struct RepositoryLinks {
    pub upstreams: Vec<usize>,
    pub in_io: Option<(usize, usize)>,
    pub out_io: Option<(usize, usize)>,
}

/// Whether `links` holds the positions of the storage endpoint and of the
/// exposed endpoint that `io` names.
pub open spec fn io_links(
    io: Option<IoDeclaration>,
    links: Option<(usize, usize)>,
    storages: Seq<Seq<char>>,
    endpoints: Seq<Seq<char>>,
) -> bool {
    match io {
        None => links is None,
        Some(io) => links matches Some((s, e)) && resolves(storages, io.storage) && s == name_index(
            storages,
            io.storage,
        ) && resolves(endpoints, io.endpoint) && e == name_index(endpoints, io.endpoint),
    }
}

/// Whether `links` holds the positions of the repositories that
/// `upstreams` names, in their order.
pub open spec fn upstream_links(
    upstreams: Seq<Seq<char>>,
    links: Seq<usize>,
    known: Seq<Seq<char>>,
) -> bool {
    &&& links.len() == upstreams.len()
    &&& forall|u: int| 0 <= u < upstreams.len() ==> #[trigger] resolves(known, upstreams[u])
    &&& forall|u: int|
        0 <= u < upstreams.len() ==> (#[trigger] links[u]) == name_index(known, upstreams[u])
}

/// Whether `links` holds the positions that every name of `repository`
/// resolves to.
pub open spec fn links_resolve(
    repository: RepositoryDeclaration,
    links: RepositoryLinks,
    storages: Seq<Seq<char>>,
    endpoints: Seq<Seq<char>>,
    known: Seq<Seq<char>>,
) -> bool {
    &&& upstream_links(repository.upstreams, links.upstreams@, known)
    &&& io_links(repository.in_io, links.in_io, storages, endpoints)
    &&& io_links(repository.out_io, links.out_io, storages, endpoints)
}

pub(crate) fn resolve_io(
    repository: &String,
    io: &Option<RepositoryIO>,
    storages: &Vec<&str>,
    endpoints: &Vec<&str>,
) -> (r: Result<Option<(usize, usize)>, WireError>)
    ensures
        match r {
            Ok(links) => io_problem(
                repository@,
                io_declaration(*io),
                texts(storages@),
                texts(endpoints@),
            ) is None && io_links(
                io_declaration(*io),
                links,
                texts(storages@),
                texts(endpoints@),
            ),
            Err(e) => io_problem(
                repository@,
                io_declaration(*io),
                texts(storages@),
                texts(endpoints@),
            ) == Some(e@),
        },
{
    match io {
        None => Ok(None),
        Some(io) => {
            let s: usize = find_name(storages, io.storage_backend.as_str());
            if s == storages.len() {
                return Err(
                    WireError::MissingStorageEndpoint {
                        repository: repository.clone(),
                        name: io.storage_backend.clone(),
                    },
                );
            }
            let e: usize = find_name(endpoints, io.endpoint.as_str());
            if e == endpoints.len() {
                return Err(
                    WireError::MissingExposedEndpoint {
                        repository: repository.clone(),
                        name: io.endpoint.clone(),
                    },
                );
            }
            Ok(Some((s, e)))
        },
    }
}

fn resolve_repository(
    repository: &RepositoryInstance,
    storages: &Vec<&str>,
    endpoints: &Vec<&str>,
    known: &Vec<&str>,
) -> (r: Result<RepositoryLinks, WireError>)
    ensures
        match r {
            Ok(links) => repository_problem(
                repository.declaration(),
                texts(storages@),
                texts(endpoints@),
                texts(known@),
            ) is None && links_resolve(
                repository.declaration(),
                links,
                texts(storages@),
                texts(endpoints@),
                texts(known@),
            ),
            Err(e) => repository_problem(
                repository.declaration(),
                texts(storages@),
                texts(endpoints@),
                texts(known@),
            ) == Some(e@),
        },
{
    let ghost names = repository.declaration().upstreams;
    let ghost missing = is_missing(names, texts(known@));
    let mut upstreams: Vec<usize> = Vec::new();
    let mut u: usize = 0;
    while u < repository.upstreams.len()
        invariant
            u <= repository.upstreams@.len(),
            names == repository.declaration().upstreams,
            names.len() == repository.upstreams@.len(),
            missing == is_missing(names, texts(known@)),
            upstreams@.len() == u,
            forall|k: int| 0 <= k < u ==> !#[trigger] missing(k),
            forall|k: int| 0 <= k < u ==> #[trigger] resolves(texts(known@), names[k]),
            forall|k: int|
                0 <= k < u ==> (#[trigger] upstreams@[k]) == name_index(texts(known@), names[k]),
        decreases repository.upstreams@.len() - u,
    {
        let at: usize = find_name(known, repository.upstreams[u].as_str());
        assert(names[u as int] == repository.upstreams@[u as int]@);
        if at == known.len() {
            proof {
                assert(missing(u as int));
                lemma_first_where_is(names.len() as int, missing, u as int);
            }
            return Err(
                WireError::MissingUpstream {
                    repository: repository.name.clone(),
                    upstream: repository.upstreams[u].clone(),
                },
            );
        }
        upstreams.push(at);
        proof {
            assert(texts(known@).len() == known@.len());
            assert(resolves(texts(known@), names[u as int]));
            assert(!missing(u as int));
        }
        u += 1;
    }
    proof {
        lemma_first_where_is(names.len() as int, missing, u as int);
    }
    let in_io = match resolve_io(&repository.name, &repository.in_io, storages, endpoints) {
        Ok(links) => links,
        Err(e) => {
            return Err(e);
        },
    };
    let out_io = match resolve_io(&repository.name, &repository.out_io, storages, endpoints) {
        Ok(links) => links,
        Err(e) => {
            return Err(e);
        },
    };
    match repository.format {
        ArtifactFormat::Rust => {},
        _ => {
            return Err(
                WireError::UnsupportedFormat {
                    repository: repository.name.clone(),
                    format: repository.format,
                },
            );
        },
    }
    Ok(RepositoryLinks { upstreams, in_io, out_io })
}

/// Resolves every name of the instance, or finds its first problem.
pub(crate) fn resolve(holger: &HolgerInstance) -> (r: Result<Vec<RepositoryLinks>, WireError>)
    ensures
        match r {
            Ok(links) => {
                let d = holger.declarations();
                &&& wiring_problem(d) is None
                &&& links@.len() == d.repositories.len()
                &&& forall|i: int|
                    0 <= i < links@.len() ==> links_resolve(
                        d.repositories[i],
                        #[trigger] links@[i],
                        d.storages,
                        d.endpoints,
                        repository_names(d.repositories),
                    )
            },
            Err(e) => wiring_problem(holger.declarations()) == Some(e@),
        },
{
    let ghost d = holger.declarations();
    let storages = storage_name_list(&holger.storage_endpoints);
    let endpoints = endpoint_name_list(&holger.exposed_endpoints);
    let known = repository_name_list(&holger.repositories);
    let at: usize = find_duplicate(&storages);
    if at < storages.len() {
        return Err(WireError::DuplicateStorageEndpoint { name: storages[at].to_owned() });
    }
    let at: usize = find_duplicate(&endpoints);
    if at < endpoints.len() {
        return Err(WireError::DuplicateExposedEndpoint { name: endpoints[at].to_owned() });
    }
    let at: usize = find_duplicate(&known);
    if at < known.len() {
        return Err(WireError::DuplicateRepository { name: known[at].to_owned() });
    }
    let ghost troubled = is_troubled(d);
    let mut links: Vec<RepositoryLinks> = Vec::new();
    let mut i: usize = 0;
    while i < holger.repositories.len()
        invariant
            i <= holger.repositories@.len(),
            d == holger.declarations(),
            troubled == is_troubled(d),
            unique(d.storages),
            unique(d.endpoints),
            unique(repository_names(d.repositories)),
            texts(storages@) == d.storages,
            texts(endpoints@) == d.endpoints,
            texts(known@) == repository_names(d.repositories),
            links@.len() == i,
            forall|k: int| 0 <= k < i ==> !#[trigger] troubled(k),
            forall|k: int|
                0 <= k < i ==> links_resolve(
                    d.repositories[k],
                    #[trigger] links@[k],
                    d.storages,
                    d.endpoints,
                    repository_names(d.repositories),
                ),
        decreases holger.repositories@.len() - i,
    {
        assert(d.repositories[i as int] == holger.repositories@[i as int].declaration());
        match resolve_repository(&holger.repositories[i], &storages, &endpoints, &known) {
            Ok(l) => {
                links.push(l);
            },
            Err(e) => {
                proof {
                    assert(troubled(i as int));
                    lemma_first_where_is(d.repositories.len() as int, troubled, i as int);
                }
                return Err(e);
            },
        }
        i += 1;
    }
    proof {
        lemma_first_where_is(d.repositories.len() as int, troubled, i as int);
    }
    Ok(links)
}

} // verus!
