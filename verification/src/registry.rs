//! The repository registry: the backends of a configuration with their
//! storages, without endpoints or routing.

use vstd::prelude::*;
use vstd::string::*;
use crate::config::{first_unresolvable, is_unresolvable};
use crate::repository::rust::RustRepo;
use crate::search::{first_where, lemma_first_where_is};
use crate::storage::{storage_resolves, ResolvedStorage, StorageEndpointInstance};
use crate::types::{HolgerConfig, InOut, Repository, RepositoryType};
use crate::wiring::names::{find_duplicate, find_name};
use crate::wiring::names::{first_duplicate, name_index, resolves, texts, unique};
use crate::wiring::resolve::storage_name_list;
use crate::wiring::resolve::storage_names;
use crate::wiring::{WireError, WireProblem};

verus! {

/// The names of declared storage endpoints.
pub open spec fn declared_storages(config: HolgerConfig) -> Seq<Seq<char>> {
    config.declarations().storages
}

/// The problem with the storage of one direction of a repository: the
/// storage endpoint that it names does not exist.
pub open spec fn storage_link_problem(
    repository: Seq<char>,
    io: Option<InOut>,
    storages: Seq<Seq<char>>,
) -> Option<WireProblem> {
    match io {
        Some(io) => if !resolves(storages, io.storage_backend@) {
            Some(
                WireProblem::MissingStorageEndpoint { repository, name: io.storage_backend@ },
            )
        } else {
            None
        },
        None => None,
    }
}

/// The first problem with a repository of the registry: the storage of its
/// input side, then that of its output side, then its format.
pub open spec fn registry_entry_problem(
    repository: Repository,
    storages: Seq<Seq<char>>,
) -> Option<WireProblem> {
    if storage_link_problem(repository.name@, repository.in_, storages) is Some {
        storage_link_problem(repository.name@, repository.in_, storages)
    } else if storage_link_problem(repository.name@, repository.out, storages) is Some {
        storage_link_problem(repository.name@, repository.out, storages)
    } else if repository.ty != RepositoryType::Rust {
        Some(
            WireProblem::UnsupportedFormat {
                repository: repository.name@,
                format: repository.ty.spec_format(),
            },
        )
    } else {
        None
    }
}

/// Whether the repository at a position has a problem.
pub open spec fn has_entry_problem(config: HolgerConfig) -> spec_fn(int) -> bool {
    |r: int| registry_entry_problem(config.repositories@[r], declared_storages(config)) is Some
}

/// The first problem of a registry: the first storage declaration that does
/// not resolve, then a storage name that occurs twice, then the first
/// problem of the first repository that has one.
pub open spec fn registry_problem(config: HolgerConfig) -> Option<WireProblem> {
    let declarations = config.storage_endpoints@;
    let storages = declared_storages(config);
    let at = first_unresolvable(declarations);
    let troubled = first_where(config.repositories@.len() as int, has_entry_problem(config));
    if at < declarations.len() {
        Some(WireProblem::Storage { endpoint: declarations[at].name@ })
    } else if !unique(storages) {
        Some(WireProblem::DuplicateStorageEndpoint { name: storages[first_duplicate(storages)] })
    } else if troubled < config.repositories@.len() {
        registry_entry_problem(config.repositories@[troubled], storages)
    } else {
        None
    }
}

/// Whether `linked` is the storage that a direction of a repository
/// resolves to: what the declaration of the storage endpoint that it names
/// resolves to.
pub open spec fn storage_linked(
    io: Option<InOut>,
    linked: Option<ResolvedStorage>,
    config: HolgerConfig,
) -> bool {
    match io {
        Some(io) => {
            &&& linked is Some
            &&& resolves(declared_storages(config), io.storage_backend@)
            &&& storage_resolves(
                config.storage_endpoints@[name_index(declared_storages(config), io.storage_backend@)],
                Ok(linked->0),
            )
        },
        None => linked is None,
    }
}

/// The storage that a direction of a repository resolves to.
pub open spec fn registry_storage(
    io: Option<InOut>,
    storages: Seq<Seq<char>>,
    resolved: Seq<StorageEndpointInstance>,
) -> Option<ResolvedStorage> {
    match io {
        Some(io) => Some(resolved[name_index(storages, io.storage_backend@)].storage),
        None => None,
    }
}

fn link_storage(
    repository: &String,
    io: &Option<InOut>,
    names: &Vec<&str>,
    resolved: &Vec<StorageEndpointInstance>,
) -> (r: Result<Option<ResolvedStorage>, WireError>)
    requires
        texts(names@) == storage_names(resolved@),
    ensures
        match r {
            Ok(storage) => storage_link_problem(repository@, *io, texts(names@)) is None && storage
                == registry_storage(*io, texts(names@), resolved@),
            Err(e) => storage_link_problem(repository@, *io, texts(names@)) == Some(e@),
        },
{
    match io {
        None => Ok(None),
        Some(io) => {
            let at: usize = find_name(names, io.storage_backend.as_str());
            assert(texts(names@).len() == resolved@.len());
            if at == names.len() {
                return Err(
                    WireError::MissingStorageEndpoint {
                        repository: repository.clone(),
                        name: io.storage_backend.clone(),
                    },
                );
            }
            Ok(Some(resolved[at].storage.duplicate()))
        },
    }
}

/// Instantiates the repositories of a configuration with their storages.
/// Every storage declaration is resolved first; then every repository is
/// given a backend linked to the storages that it names.  The registry
/// fails as a whole on the first problem.
pub fn load_registry(config: &HolgerConfig) -> (r: Result<Vec<RustRepo>, WireError>)
    ensures
        match r {
            Ok(registry) => {
                &&& registry_problem(*config) is None
                &&& registry@.len() == config.repositories@.len()
                &&& forall|i: int|
                    0 <= i < registry@.len() ==> (#[trigger] registry@[i]).name@
                        == config.repositories@[i].name@ && registry@[i].artifacts@.len() == 0
                        && registry@[i].public_url@ == "https://127.0.0.1:8443"@ && storage_linked(
                        config.repositories@[i].in_,
                        registry@[i].in_backend,
                        *config,
                    ) && storage_linked(
                        config.repositories@[i].out,
                        registry@[i].out_backend,
                        *config,
                    )
            },
            Err(e) => registry_problem(*config) == Some(e@),
        },
        r matches Err(WireError::Storage { endpoint, error }) ==> storage_resolves(
            config.storage_endpoints@[first_unresolvable(config.storage_endpoints@)],
            Err(error),
        ),
{
    let ghost unresolvable = is_unresolvable(config.storage_endpoints@);
    let mut resolved: Vec<StorageEndpointInstance> = Vec::new();
    let mut s: usize = 0;
    while s < config.storage_endpoints.len()
        invariant
            s <= config.storage_endpoints@.len(),
            unresolvable == is_unresolvable(config.storage_endpoints@),
            resolved@.len() == s,
            forall|k: int| 0 <= k < s ==> !#[trigger] unresolvable(k),
            forall|k: int|
                0 <= k < s ==> (#[trigger] resolved@[k]).name@ == config.storage_endpoints@[k].name@
                    && storage_resolves(config.storage_endpoints@[k], Ok(resolved@[k].storage)),
        decreases config.storage_endpoints@.len() - s,
    {
        match StorageEndpointInstance::from_config(&config.storage_endpoints[s]) {
            Ok(instance) => {
                resolved.push(instance);
            },
            Err(error) => {
                proof {
                    assert(unresolvable(s as int));
                    lemma_first_where_is(
                        config.storage_endpoints@.len() as int,
                        unresolvable,
                        s as int,
                    );
                }
                return Err(
                    WireError::Storage { endpoint: config.storage_endpoints[s].name.clone(), error },
                );
            },
        }
        s += 1;
    }
    proof {
        lemma_first_where_is(config.storage_endpoints@.len() as int, unresolvable, s as int);
        assert(storage_names(resolved@) =~= declared_storages(*config));
    }
    let names = storage_name_list(&resolved);
    let at: usize = find_duplicate(&names);
    if at < names.len() {
        return Err(WireError::DuplicateStorageEndpoint { name: names[at].to_owned() });
    }
    let ghost troubled = has_entry_problem(*config);
    let mut registry: Vec<RustRepo> = Vec::new();
    let mut i: usize = 0;
    while i < config.repositories.len()
        invariant
            i <= config.repositories@.len(),
            troubled == has_entry_problem(*config),
            texts(names@) == storage_names(resolved@),
            texts(names@) == declared_storages(*config),
            registry@.len() == i,
            forall|k: int| 0 <= k < i ==> !#[trigger] troubled(k),
            forall|k: int|
                0 <= k < i ==> (#[trigger] registry@[k]).name@ == config.repositories@[k].name@
                    && registry@[k].artifacts@.len() == 0 && registry@[k].public_url@
                    == "https://127.0.0.1:8443"@ && registry@[k].in_backend
                    == registry_storage(
                    config.repositories@[k].in_,
                    declared_storages(*config),
                    resolved@,
                ) && registry@[k].out_backend == registry_storage(
                    config.repositories@[k].out,
                    declared_storages(*config),
                    resolved@,
                ),
            first_unresolvable(config.storage_endpoints@) == config.storage_endpoints@.len(),
            unique(declared_storages(*config)),
        decreases config.repositories@.len() - i,
    {
        let repository = &config.repositories[i];
        let in_backend = match link_storage(&repository.name, &repository.in_, &names, &resolved) {
            Ok(storage) => storage,
            Err(e) => {
                proof {
                    assert(troubled(i as int));
                    lemma_first_where_is(config.repositories@.len() as int, troubled, i as int);
                }
                return Err(e);
            },
        };
        let out_backend = match link_storage(&repository.name, &repository.out, &names, &resolved) {
            Ok(storage) => storage,
            Err(e) => {
                proof {
                    assert(troubled(i as int));
                    lemma_first_where_is(config.repositories@.len() as int, troubled, i as int);
                }
                return Err(e);
            },
        };
        match repository.ty {
            RepositoryType::Rust => {},
            _ => {
                proof {
                    assert(troubled(i as int));
                    lemma_first_where_is(config.repositories@.len() as int, troubled, i as int);
                }
                return Err(
                    WireError::UnsupportedFormat {
                        repository: repository.name.clone(),
                        format: repository.ty.format(),
                    },
                );
            },
        }
        let mut repo = RustRepo::new(repository.name.clone());
        repo.in_backend = in_backend;
        repo.out_backend = out_backend;
        registry.push(repo);
        i += 1;
    }
    proof {
        lemma_first_where_is(config.repositories@.len() as int, troubled, i as int);
        assert forall|k: int| 0 <= k < registry@.len() implies (#[trigger] registry@[k]).name@
            == config.repositories@[k].name@ && registry@[k].artifacts@.len() == 0
            && registry@[k].public_url@ == "https://127.0.0.1:8443"@ && storage_linked(config.repositories@[k].in_, registry@[k].in_backend, *config)
            && storage_linked(config.repositories@[k].out, registry@[k].out_backend, *config) by {
            assert(!troubled(k));
            let storages = declared_storages(*config);
            let repository = config.repositories@[k];
            assert(registry_entry_problem(repository, storages) is None);
            assert(storage_link_problem(repository.name@, repository.in_, storages) is None);
            assert(storage_link_problem(repository.name@, repository.out, storages) is None);
            assert(storages.len() == config.storage_endpoints@.len());
            assert(resolved@.len() == config.storage_endpoints@.len());
            if repository.in_ is Some {
                crate::wiring::names::lemma_name_index(storages, repository.in_->0.storage_backend@);
            }
            if repository.out is Some {
                crate::wiring::names::lemma_name_index(storages, repository.out->0.storage_backend@);
            }
            if repository.in_ is Some {
                let at = name_index(storages, repository.in_->0.storage_backend@);
                assert(storage_resolves(config.storage_endpoints@[at], Ok(resolved@[at].storage)));
            }
            if repository.out is Some {
                let at = name_index(storages, repository.out->0.storage_backend@);
                assert(storage_resolves(config.storage_endpoints@[at], Ok(resolved@[at].storage)));
            }
        }
    }
    Ok(registry)
}

} // verus!
