//! The wiring engine: resolves the names by which repositories refer to
//! storage endpoints, exposed endpoints and each other, and links the
//! instance both ways.
//!
//! Wiring is atomic.  Every name is resolved before anything is changed; an
//! instance that fails to wire is left as it was.

pub mod graph;
pub mod names;
pub mod problems;
pub mod resolve;

pub use crate::wiring::problems::{Declarations, WireError, WireProblem};

use vstd::prelude::*;
use vstd::string::*;
use crate::config::HolgerInstance;
use crate::exposed::ExposedEndpointInstance;
use crate::exposed::fast_routes::{as_routes, stable_sorted, FastRoutes};
use crate::repository::backend::Backend;
use crate::repository::rust::RustRepo;
use crate::repository::types::{in_out_declaration, io_declaration, name_texts};
use crate::repository::types::{RepositoryIO, RepositoryInstance};
use crate::search::lemma_first_where;
use crate::storage::{ResolvedStorage, StorageEndpointInstance};
use crate::text::{str_equal, str_trim_end, trim_end, utf8, SLASH};
use crate::types::{ArtifactFormat, Repository};
use crate::wiring::graph::{default_public_url, endpoint_urls, endpoint_wired, io_wired, linked_storage};
use crate::wiring::graph::{lemma_referrers, public_url, referrers, repository_wired, routes_through};
use crate::wiring::graph::{storage_kinds, storage_wired};
use crate::wiring::problems::{io_problem, is_troubled, repository_names, wiring_problem};
use crate::wiring::resolve::{declared, endpoint_name_list, endpoint_names, links_resolve, resolve};
use crate::wiring::resolve::{resolve_io, storage_name_list, storage_names, RepositoryLinks};

verus! {

/// One direction of a repository with the positions that its names
/// resolve to.
pub(crate) fn wire_io(io: &Option<RepositoryIO>, links: Option<(usize, usize)>) -> (wired: Option<RepositoryIO>)
    ensures
        match (*io, links) {
            (Some(io), Some((s, e))) => wired is Some && wired->0.storage_backend
                == io.storage_backend && wired->0.endpoint == io.endpoint && wired->0.wired_storage
                == Some(s) && wired->0.wired_exposed == Some(e),
            (Some(io), None) => wired == Some(io),
            (None, _) => wired is None,
        },
{
    match io {
        Some(io) => match links {
            Some((s, e)) => Some(
                RepositoryIO {
                    storage_backend: io.storage_backend.clone(),
                    endpoint: io.endpoint.clone(),
                    wired_storage: Some(s),
                    wired_exposed: Some(e),
                },
            ),
            None => Some(
                RepositoryIO {
                    storage_backend: io.storage_backend.clone(),
                    endpoint: io.endpoint.clone(),
                    wired_storage: io.wired_storage,
                    wired_exposed: io.wired_exposed,
                },
            ),
        },
        None => None,
    }
}

/// The storage at the position that one direction of a repository links to.
pub open spec fn storage_at(
    links: Option<(usize, usize)>,
    kinds: Seq<ResolvedStorage>,
) -> Option<ResolvedStorage> {
    match links {
        Some((s, _)) => Some(kinds[s as int]),
        None => None,
    }
}

/// The public address of the endpoint at the position that the output side
/// of a repository links to.
pub open spec fn public_url_at(out_links: Option<(usize, usize)>, urls: Seq<Seq<char>>) -> Seq<u8> {
    match out_links {
        Some((_, e)) => trim_end(utf8(urls[e as int]), SLASH),
        None => utf8(default_public_url()),
    }
}

/// The backend of a Rust repository, linked to its storages and told the
/// public address of the endpoint that serves it.
fn instantiate_backend(
    name: &String,
    in_links: Option<(usize, usize)>,
    out_links: Option<(usize, usize)>,
    storages: &Vec<StorageEndpointInstance>,
    endpoints: &Vec<ExposedEndpointInstance>,
) -> (backend: RustRepo)
    requires
        in_links matches Some((s, _)) ==> s < storages@.len(),
        out_links matches Some((s, e)) ==> s < storages@.len() && e < endpoints@.len(),
    ensures
        backend.name == *name,
        backend.artifacts@.len() == 0,
        backend.in_backend == storage_at(in_links, storage_kinds(storages@)),
        backend.out_backend == storage_at(out_links, storage_kinds(storages@)),
        utf8(backend.public_url@) == public_url_at(out_links, endpoint_urls(endpoints@)),
{
    let in_backend = match in_links {
        Some((s, _)) => Some(storages[s].storage.duplicate()),
        None => None,
    };
    let out_backend = match out_links {
        Some((s, _)) => Some(storages[s].storage.duplicate()),
        None => None,
    };
    let public_url: String = match out_links {
        Some((_, e)) => str_trim_end(endpoints[e].url_prefix.as_str(), SLASH).to_owned(),
        None => "https://127.0.0.1:8443".to_owned(),
    };
    RustRepo { name: name.clone(), public_url, in_backend, out_backend, artifacts: Vec::new() }
}

/// Forward wiring: gives every repository the positions that its names
/// resolve to, and its backend.
fn link_repositories(
    repositories: &mut Vec<RepositoryInstance>,
    storages: &Vec<StorageEndpointInstance>,
    endpoints: &Vec<ExposedEndpointInstance>,
    links: Vec<RepositoryLinks>,
)
    requires
        links@.len() == old(repositories)@.len(),
        forall|i: int|
            0 <= i < links@.len() ==> links_resolve(
                declared(old(repositories)@)[i],
                #[trigger] links@[i],
                storage_names(storages@),
                endpoint_names(endpoints@),
                repository_names(declared(old(repositories)@)),
            ),
        forall|i: int|
            0 <= i < old(repositories)@.len() ==> (#[trigger] old(repositories)@[i]).format
                == ArtifactFormat::Rust,
    ensures
        final(repositories)@.len() == old(repositories)@.len(),
        declared(final(repositories)@) == declared(old(repositories)@),
        forall|r: int|
            0 <= r < final(repositories)@.len() ==> (#[trigger] final(repositories)@[r]).name == old(
                repositories,
            )@[r].name && final(repositories)@[r].repo_type == old(repositories)@[r].repo_type,
        forall|r: int|
            0 <= r < final(repositories)@.len() ==> repository_wired(
                #[trigger] final(repositories)@[r],
                storage_names(storages@),
                endpoint_names(endpoints@),
                repository_names(declared(old(repositories)@)),
                storage_kinds(storages@),
                endpoint_urls(endpoints@),
            ),
{
    let ghost before = repositories@;
    let ghost sn = storage_names(storages@);
    let ghost en = endpoint_names(endpoints@);
    let ghost known = repository_names(declared(before));
    let ghost kinds = storage_kinds(storages@);
    let ghost urls = endpoint_urls(endpoints@);
    let mut links = links;
    while links.len() > 0
        invariant
            repositories@.len() == before.len(),
            links@.len() <= before.len(),
            sn == storage_names(storages@),
            en == endpoint_names(endpoints@),
            known == repository_names(declared(before)),
            kinds == storage_kinds(storages@),
            urls == endpoint_urls(endpoints@),
            forall|i: int|
                0 <= i < links@.len() ==> links_resolve(
                    declared(before)[i],
                    #[trigger] links@[i],
                    sn,
                    en,
                    known,
                ),
            forall|i: int|
                0 <= i < before.len() ==> (#[trigger] before[i]).format == ArtifactFormat::Rust,
            forall|r: int| 0 <= r < links@.len() ==> #[trigger] repositories@[r] == before[r],
            forall|r: int|
                0 <= r < before.len() ==> (#[trigger] repositories@[r]).declaration()
                    == before[r].declaration() && repositories@[r].name == before[r].name
                    && repositories@[r].repo_type == before[r].repo_type,
            forall|r: int|
                links@.len() <= r < before.len() ==> repository_wired(
                    #[trigger] repositories@[r],
                    sn,
                    en,
                    known,
                    kinds,
                    urls,
                ),
        decreases links@.len(),
    {
        let ghost current = repositories@;
        let link = links.pop().unwrap();
        let r: usize = links.len();
        proof {
            assert(declared(before)[r as int] == before[r as int].declaration());
            assert(current[r as int] == before[r as int]);
            lemma_name_texts(before[r as int].upstreams@);
        }
        let in_io = wire_io(&repositories[r].in_io, link.in_io);
        let out_io = wire_io(&repositories[r].out_io, link.out_io);
        proof {
            assert(sn.len() == storages@.len());
            assert(en.len() == endpoints@.len());
        }
        let backend = instantiate_backend(
            &repositories[r].name,
            link.in_io,
            link.out_io,
            storages,
            endpoints,
        );
        repositories[r].in_io = in_io;
        repositories[r].out_io = out_io;
        repositories[r].wired_upstreams = link.upstreams;
        repositories[r].backend = Some(Backend::Rust(backend));
        proof {
            let now = repositories@[r as int];
            assert(now.name == before[r as int].name);
            assert(now.upstreams == before[r as int].upstreams);
            assert(now.declaration() == before[r as int].declaration());
            assert(repository_wired(now, sn, en, known, kinds, urls));
            assert forall|k: int| 0 <= k < before.len() implies (#[trigger] repositories@[k]).declaration()
                == before[k].declaration() && repositories@[k].name == before[k].name
                && repositories@[k].repo_type == before[k].repo_type by {
                if k != r {
                    assert(repositories@[k] == current[k]);
                }
            }
            assert forall|k: int| links@.len() <= k < before.len() implies repository_wired(
                #[trigger] repositories@[k],
                sn,
                en,
                known,
                kinds,
                urls,
            ) by {
                if k != r {
                    assert(repositories@[k] == current[k]);
                }
            }
            assert forall|k: int| 0 <= k < links@.len() implies #[trigger] repositories@[k]
                == before[k] by {
                assert(repositories@[k] == current[k]);
            }
        }
    }
    proof {
        assert(declared(repositories@) =~= declared(before));
    }
}

proof fn lemma_name_texts(names: Seq<String>)
    ensures
        name_texts(names).len() == names.len(),
        forall|i: int|
            0 <= i < names.len() ==> #[trigger] name_texts(names)[i]
                == names[i]@,
{
}

/// The positions of the repositories that refer to `name` on the given
/// side, in ascending order: one scan of the repository list.
fn collect_referrers(
    repositories: &Vec<RepositoryInstance>,
    input: bool,
    to_storage: bool,
    name: &str,
) -> (list: Vec<usize>)
    ensures
        list@ == referrers(
            declared(repositories@),
            repositories@.len() as int,
            input,
            to_storage,
            name@,
        ),
{
    let ghost d = declared(repositories@);
    let mut list: Vec<usize> = Vec::new();
    let mut r: usize = 0;
    while r < repositories.len()
        invariant
            r <= repositories@.len(),
            d == declared(repositories@),
            list@ == referrers(d, r as int, input, to_storage, name@),
        decreases repositories@.len() - r,
    {
        let repository = &repositories[r];
        assert(d[r as int] == repository.declaration());
        let io = if input {
            &repository.in_io
        } else {
            &repository.out_io
        };
        let refers: bool = match io {
            Some(io) => if to_storage {
                str_equal(io.storage_backend.as_str(), name)
            } else {
                str_equal(io.endpoint.as_str(), name)
            },
            None => false,
        };
        if refers {
            list.push(r);
        }
        r += 1;
    }
    list
}

/// The routing table of the repositories at the positions `out`.
fn build_routes(repositories: &Vec<RepositoryInstance>, out: &Vec<usize>) -> (table: FastRoutes<usize>)
    requires
        forall|k: int| 0 <= k < out@.len() ==> (#[trigger] out@[k]) < repositories@.len(),
    ensures
        stable_sorted(table@, routes_through(repositories@, out@)),
{
    let mut routes: Vec<(String, usize)> = Vec::new();
    let mut k: usize = 0;
    while k < out.len()
        invariant
            k <= out@.len(),
            routes@.len() == k,
            forall|j: int| 0 <= j < out@.len() ==> (#[trigger] out@[j]) < repositories@.len(),
            forall|j: int|
                0 <= j < k ==> (#[trigger] routes@[j]).0 == repositories@[out@[j] as int].name
                    && routes@[j].1 == out@[j],
        decreases out@.len() - k,
    {
        let r: usize = out[k];
        routes.push((repositories[r].name.clone(), r));
        k += 1;
    }
    proof {
        assert(as_routes(routes@) =~= routes_through(repositories@, out@));
    }
    FastRoutes::new(routes)
}

/// Reverse wiring of the exposed endpoints, and route table assembly.
fn link_endpoints(
    endpoints: &mut Vec<ExposedEndpointInstance>,
    repositories: &Vec<RepositoryInstance>,
)
    ensures
        final(endpoints)@.len() == old(endpoints)@.len(),
        forall|e: int|
            0 <= e < final(endpoints)@.len() ==> (#[trigger] final(endpoints)@[e]).name == old(
                endpoints,
            )@[e].name && final(endpoints)@[e].url_prefix == old(endpoints)@[e].url_prefix
                && final(endpoints)@[e].ip == old(endpoints)@[e].ip && final(endpoints)@[e].port
                == old(endpoints)@[e].port && final(endpoints)@[e].backend == old(
                endpoints,
            )@[e].backend,
        forall|e: int|
            0 <= e < final(endpoints)@.len() ==> endpoint_wired(
                #[trigger] final(endpoints)@[e],
                repositories@,
            ),
{
    let ghost before = endpoints@;
    let count: usize = repositories.len();
    let mut e: usize = 0;
    while e < endpoints.len()
        invariant
            count == repositories@.len(),
            e <= endpoints@.len(),
            endpoints@.len() == before.len(),
            forall|k: int| e <= k < before.len() ==> #[trigger] endpoints@[k] == before[k],
            forall|k: int|
                0 <= k < before.len() ==> (#[trigger] endpoints@[k]).name == before[k].name
                    && endpoints@[k].url_prefix == before[k].url_prefix && endpoints@[k].ip
                    == before[k].ip && endpoints@[k].port == before[k].port
                    && endpoints@[k].backend == before[k].backend,
            forall|k: int| 0 <= k < e ==> endpoint_wired(#[trigger] endpoints@[k], repositories@),
        decreases endpoints@.len() - e,
    {
        let ghost current = endpoints@;
        let ins = collect_referrers(repositories, true, false, endpoints[e].name.as_str());
        let outs = collect_referrers(repositories, false, false, endpoints[e].name.as_str());
        proof {
            lemma_referrers(
                declared(repositories@),
                repositories@.len() as int,
                false,
                false,
                endpoints@[e as int].name@,
            );
        }
        let table = build_routes(repositories, &outs);
        endpoints[e].wired_in_repositories = ins;
        endpoints[e].wired_out_repositories = outs;
        endpoints[e].fast_routes = Some(table);
        proof {
            assert(endpoint_wired(endpoints@[e as int], repositories@));
            assert forall|k: int| 0 <= k < e + 1 implies endpoint_wired(
                #[trigger] endpoints@[k],
                repositories@,
            ) by {
                if k < e {
                    assert(endpoints@[k] == current[k]);
                }
            }
            assert forall|k: int| 0 <= k < before.len() implies (#[trigger] endpoints@[k]).name
                == before[k].name && endpoints@[k].url_prefix == before[k].url_prefix
                && endpoints@[k].ip == before[k].ip && endpoints@[k].port == before[k].port
                && endpoints@[k].backend == before[k].backend by {
                if k != e {
                    assert(endpoints@[k] == current[k]);
                }
            }
            assert forall|k: int| e + 1 <= k < before.len() implies #[trigger] endpoints@[k]
                == before[k] by {
                assert(endpoints@[k] == current[k]);
            }
        }
        e += 1;
    }
}

/// Reverse wiring of the storage endpoints.
fn link_storages(storages: &mut Vec<StorageEndpointInstance>, repositories: &Vec<RepositoryInstance>)
    ensures
        final(storages)@.len() == old(storages)@.len(),
        forall|s: int|
            0 <= s < final(storages)@.len() ==> (#[trigger] final(storages)@[s]).name == old(
                storages,
            )@[s].name && final(storages)@[s].storage == old(storages)@[s].storage,
        forall|s: int|
            0 <= s < final(storages)@.len() ==> storage_wired(
                #[trigger] final(storages)@[s],
                repositories@,
            ),
{
    let ghost before = storages@;
    let mut s: usize = 0;
    while s < storages.len()
        invariant
            s <= storages@.len(),
            storages@.len() == before.len(),
            forall|k: int| s <= k < before.len() ==> #[trigger] storages@[k] == before[k],
            forall|k: int|
                0 <= k < before.len() ==> (#[trigger] storages@[k]).name == before[k].name
                    && storages@[k].storage == before[k].storage,
            forall|k: int| 0 <= k < s ==> storage_wired(#[trigger] storages@[k], repositories@),
        decreases storages@.len() - s,
    {
        let ghost current = storages@;
        let ins = collect_referrers(repositories, true, true, storages[s].name.as_str());
        let outs = collect_referrers(repositories, false, true, storages[s].name.as_str());
        storages[s].wired_in_repositories = ins;
        storages[s].wired_out_repositories = outs;
        proof {
            assert(storage_wired(storages@[s as int], repositories@));
            assert forall|k: int| 0 <= k < s + 1 implies storage_wired(
                #[trigger] storages@[k],
                repositories@,
            ) by {
                if k < s {
                    assert(storages@[k] == current[k]);
                }
            }
            assert forall|k: int| 0 <= k < before.len() implies (#[trigger] storages@[k]).name
                == before[k].name && storages@[k].storage == before[k].storage by {
                if k != s {
                    assert(storages@[k] == current[k]);
                }
            }
            assert forall|k: int| s + 1 <= k < before.len() implies #[trigger] storages@[k]
                == before[k] by {
                assert(storages@[k] == current[k]);
            }
        }
        s += 1;
    }
}

/// Wires an instance: resolves the names by which its repositories refer
/// to storage endpoints, exposed endpoints and upstream repositories,
/// instantiates the backends, lists at every endpoint and storage the
/// repositories that use it, and gives every exposed endpoint its routing
/// table.
///
/// Upstreams are resolved against all repositories: a repository may name
/// an upstream that is declared after it.  Cycles among upstreams are not
/// looked for.
///
/// Wiring fails on the first problem of the declarations and then changes
/// nothing: no partly wired instance is ever seen.
pub fn wire_holger(holger: &mut HolgerInstance) -> (r: Result<(), WireError>)
    ensures
        match r {
            Ok(()) => wiring_problem(old(holger).declarations()) is None && final(holger).wired()
                && final(holger).declares_as(*old(holger)),
            Err(e) => wiring_problem(old(holger).declarations()) == Some(e@) && *final(holger) == *old(
                holger,
            ),
        },
{
    let ghost d = holger.declarations();
    let links = match resolve(holger) {
        Ok(links) => links,
        Err(e) => {
            return Err(e);
        },
    };
    proof {
        lemma_first_where(d.repositories.len() as int, is_troubled(d));
        assert forall|i: int| 0 <= i < holger.repositories@.len() implies (
        #[trigger] holger.repositories@[i]).format == ArtifactFormat::Rust by {
            assert(!is_troubled(d)(i));
            assert(d.repositories[i] == holger.repositories@[i].declaration());
        }
    }
    link_repositories(
        &mut holger.repositories,
        &holger.storage_endpoints,
        &holger.exposed_endpoints,
        links,
    );
    link_endpoints(&mut holger.exposed_endpoints, &holger.repositories);
    link_storages(&mut holger.storage_endpoints, &holger.repositories);
    proof {
        let before = *old(holger);
        assert(storage_names(holger.storage_endpoints@) =~= storage_names(before.storage_endpoints@));
        assert(endpoint_names(holger.exposed_endpoints@) =~= endpoint_names(
            before.exposed_endpoints@,
        ));
        assert(storage_kinds(holger.storage_endpoints@) =~= storage_kinds(before.storage_endpoints@));
        assert(endpoint_urls(holger.exposed_endpoints@) =~= endpoint_urls(before.exposed_endpoints@));
        assert(holger.declarations() == d);
    }
    Ok(())
}

/// The first problem with wiring one repository as `cfg` declares it: its
/// input side, then its output side, then its format.
pub open spec fn repository_wire_problem(
    name: Seq<char>,
    format: ArtifactFormat,
    cfg: Repository,
    storages: Seq<Seq<char>>,
    endpoints: Seq<Seq<char>>,
) -> Option<WireProblem> {
    let in_io = in_out_declaration(cfg.in_);
    let out_io = in_out_declaration(cfg.out);
    if io_problem(name, in_io, storages, endpoints) is Some {
        io_problem(name, in_io, storages, endpoints)
    } else if io_problem(name, out_io, storages, endpoints) is Some {
        io_problem(name, out_io, storages, endpoints)
    } else if format != ArtifactFormat::Rust {
        Some(WireProblem::UnsupportedFormat { repository: name, format })
    } else {
        None
    }
}

impl RepositoryInstance {
    /// Wires this repository alone: gives it the two directions that `cfg`
    /// declares, resolved against the given storage endpoints and exposed
    /// endpoints, and its backend.  Upstreams are left as they are.  On
    /// failure nothing is changed.
    pub fn wire(
        &mut self,
        cfg: &Repository,
        storages: &Vec<StorageEndpointInstance>,
        endpoints: &Vec<ExposedEndpointInstance>,
    ) -> (r: Result<(), WireError>)
        ensures
            match r {
                Ok(()) => {
                    let sn = storage_names(storages@);
                    let en = endpoint_names(endpoints@);
                    &&& repository_wire_problem(old(self).name@, old(self).format, *cfg, sn, en)
                        is None
                    &&& io_declaration(final(self).in_io)
                        == in_out_declaration(cfg.in_)
                    &&& io_declaration(final(self).out_io)
                        == in_out_declaration(cfg.out)
                    &&& io_wired(final(self).in_io, sn, en)
                    &&& io_wired(final(self).out_io, sn, en)
                    &&& final(self).rust_backend() is Some
                    &&& final(self).rust_backend()->0.name == old(self).name
                    &&& final(self).rust_backend()->0.artifacts@.len() == 0
                    &&& final(self).rust_backend()->0.in_backend == linked_storage(
                        final(self).in_io,
                        sn,
                        storage_kinds(storages@),
                    )
                    &&& final(self).rust_backend()->0.out_backend == linked_storage(
                        final(self).out_io,
                        sn,
                        storage_kinds(storages@),
                    )
                    &&& utf8(final(self).rust_backend()->0.public_url@) == public_url(
                        final(self).out_io,
                        en,
                        endpoint_urls(endpoints@),
                    )
                    &&& final(self).name == old(self).name
                    &&& final(self).format == old(self).format
                    &&& final(self).repo_type == old(self).repo_type
                    &&& final(self).upstreams == old(self).upstreams
                    &&& final(self).wired_upstreams == old(self).wired_upstreams
                },
                Err(e) => *final(self) == *old(self) && repository_wire_problem(
                    old(self).name@,
                    old(self).format,
                    *cfg,
                    storage_names(storages@),
                    endpoint_names(endpoints@),
                ) == Some(e@),
            },
    {
        let storage_list = storage_name_list(storages);
        let endpoint_list = endpoint_name_list(endpoints);
        let declared_in = match &cfg.in_ {
            Some(io) => Some(RepositoryIO::from_config(io)),
            None => None,
        };
        let declared_out = match &cfg.out {
            Some(io) => Some(RepositoryIO::from_config(io)),
            None => None,
        };
        let in_links = match resolve_io(&self.name, &declared_in, &storage_list, &endpoint_list) {
            Ok(links) => links,
            Err(e) => {
                return Err(e);
            },
        };
        let out_links = match resolve_io(&self.name, &declared_out, &storage_list, &endpoint_list) {
            Ok(links) => links,
            Err(e) => {
                return Err(e);
            },
        };
        match self.format {
            ArtifactFormat::Rust => {},
            _ => {
                return Err(
                    WireError::UnsupportedFormat {
                        repository: self.name.clone(),
                        format: self.format,
                    },
                );
            },
        }
        proof {
            assert(storage_names(storages@).len() == storages@.len());
            assert(endpoint_names(endpoints@).len() == endpoints@.len());
        }
        let backend = instantiate_backend(&self.name, in_links, out_links, storages, endpoints);
        self.in_io = wire_io(&declared_in, in_links);
        self.out_io = wire_io(&declared_out, out_links);
        self.backend = Some(Backend::Rust(backend));
        Ok(())
    }
}

} // verus!
