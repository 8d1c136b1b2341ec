//! What it is for an instance to be wired, and what follows from it.

use vstd::prelude::*;
use vstd::string::*;
use crate::config::HolgerInstance;
use crate::exposed::{lemma_request_path_routes, request_path, routing_key, sub_path};
use crate::exposed::ExposedEndpointInstance;
use crate::exposed::fast_routes::{first_named, position, stable_sorted, FastRoute};
use crate::exposed::fast_routes::{lemma_position_bounds, lookup_returns_registered_backend};
use crate::exposed::http2::responds_with;
use crate::repository::backend::Backend;
use crate::repository::rust::{config_body, is_content_type, lemma_config_path, rust_response, RustRoute};
use crate::repository::types::{ProtocolAnswer, RepositoryBackend};
use crate::repository::types::{name_texts, RepositoryDeclaration, RepositoryIO, RepositoryInstance};
use crate::storage::{ResolvedStorage, StorageEndpointInstance};
use crate::text::{lemma_utf8_injective, trim_end, utf8, SLASH};
use crate::types::ArtifactFormat;
use crate::wiring::names::{lemma_name_index, lemma_unique_names, name_index, resolves, unique};
use crate::wiring::problems::repository_names;
use crate::wiring::resolve::{declared, upstream_links};

verus! {

/// The resolved storages of storage endpoints.
pub open spec fn storage_kinds(storages: Seq<StorageEndpointInstance>) -> Seq<ResolvedStorage> {
    Seq::new(storages.len(), |i: int| storages[i].storage)
}

/// The URL prefixes of exposed endpoints.
pub open spec fn endpoint_urls(endpoints: Seq<ExposedEndpointInstance>) -> Seq<Seq<char>> {
    Seq::new(endpoints.len(), |i: int| endpoints[i].url_prefix@)
}

/// The address under which a repository without an output side advertises
/// itself.
pub open spec fn default_public_url() -> Seq<char> {
    "https://127.0.0.1:8443"@
}

/// Whether one direction of a repository holds the positions of the storage
/// endpoint and of the exposed endpoint that it names.
pub open spec fn io_wired(
    io: Option<RepositoryIO>,
    storages: Seq<Seq<char>>,
    endpoints: Seq<Seq<char>>,
) -> bool {
    match io {
        None => true,
        Some(io) => {
            &&& resolves(storages, io.storage_backend@)
            &&& io.wired_storage == Some(name_index(storages, io.storage_backend@) as usize)
            &&& resolves(endpoints, io.endpoint@)
            &&& io.wired_exposed == Some(name_index(endpoints, io.endpoint@) as usize)
        },
    }
}

/// The storage that one direction of a repository is linked to.
pub open spec fn linked_storage(
    io: Option<RepositoryIO>,
    storages: Seq<Seq<char>>,
    kinds: Seq<ResolvedStorage>,
) -> Option<ResolvedStorage> {
    match io {
        Some(io) => Some(kinds[name_index(storages, io.storage_backend@)]),
        None => None,
    }
}

/// The address under which a repository advertises itself: the URL prefix
/// of the endpoint of its output side, without trailing slashes.
pub open spec fn public_url(
    out_io: Option<RepositoryIO>,
    endpoints: Seq<Seq<char>>,
    urls: Seq<Seq<char>>,
) -> Seq<u8> {
    match out_io {
        Some(io) => trim_end(utf8(urls[name_index(endpoints, io.endpoint@)]), SLASH),
        None => utf8(default_public_url()),
    }
}

/// Whether a repository is wired: both directions and every upstream hold
/// the position of what they name, and the backend is instantiated with
/// the repository's name, its storages and its public address.
pub open spec fn repository_wired(
    repository: RepositoryInstance,
    storages: Seq<Seq<char>>,
    endpoints: Seq<Seq<char>>,
    known: Seq<Seq<char>>,
    kinds: Seq<ResolvedStorage>,
    urls: Seq<Seq<char>>,
) -> bool {
    &&& io_wired(repository.in_io, storages, endpoints)
    &&& io_wired(repository.out_io, storages, endpoints)
    &&& upstream_links(
        name_texts(repository.upstreams@),
        repository.wired_upstreams@,
        known,
    )
    &&& repository.format == ArtifactFormat::Rust
    &&& repository.rust_backend() is Some
    &&& repository.rust_backend()->0.name@ == repository.name@
    &&& repository.rust_backend()->0.artifacts@.len() == 0
    &&& repository.rust_backend()->0.in_backend == linked_storage(repository.in_io, storages, kinds)
    &&& repository.rust_backend()->0.out_backend == linked_storage(repository.out_io, storages, kinds)
    &&& utf8(repository.rust_backend()->0.public_url@) == public_url(repository.out_io, endpoints, urls)
}

/// Whether the given side of a repository names `name` as its storage
/// endpoint or as its exposed endpoint.
pub open spec fn refers(
    repository: RepositoryDeclaration,
    input: bool,
    to_storage: bool,
    name: Seq<char>,
) -> bool {
    let io = if input {
        repository.in_io
    } else {
        repository.out_io
    };
    io is Some && (if to_storage {
        io->0.storage
    } else {
        io->0.endpoint
    }) == name
}

/// The positions, in ascending order, of the first `n` repositories that
/// refer to `name` on the given side.
pub open spec fn referrers(
    repositories: Seq<RepositoryDeclaration>,
    n: int,
    input: bool,
    to_storage: bool,
    name: Seq<char>,
) -> Seq<usize>
    decreases n,
{
    if n <= 0 {
        Seq::empty()
    } else {
        let before = referrers(repositories, n - 1, input, to_storage, name);
        if refers(repositories[n - 1], input, to_storage, name) {
            before.push((n - 1) as usize)
        } else {
            before
        }
    }
}

pub proof fn lemma_referrers(
    repositories: Seq<RepositoryDeclaration>,
    n: int,
    input: bool,
    to_storage: bool,
    name: Seq<char>,
)
    requires
        0 <= n <= repositories.len(),
        n <= usize::MAX,
    ensures
        referrers(repositories, n, input, to_storage, name).len() <= n,
        forall|k: int|
            0 <= k < referrers(repositories, n, input, to_storage, name).len() ==> (
            #[trigger] referrers(repositories, n, input, to_storage, name)[k]) < n,
        forall|k: int|
            0 <= k < referrers(repositories, n, input, to_storage, name).len() ==> refers(
                repositories[(#[trigger] referrers(repositories, n, input, to_storage, name)[k]) as int],
                input,
                to_storage,
                name,
            ),
        forall|r: int|
            0 <= r < n && refers(#[trigger] repositories[r], input, to_storage, name) ==> referrers(
                repositories,
                n,
                input,
                to_storage,
                name,
            ).contains(r as usize),
    decreases n,
{
    if n > 0 {
        lemma_referrers(repositories, n - 1, input, to_storage, name);
        let before = referrers(repositories, n - 1, input, to_storage, name);
        let now = referrers(repositories, n, input, to_storage, name);
        assert forall|r: int|
            0 <= r < n && refers(#[trigger] repositories[r], input, to_storage, name) implies now.contains(
            r as usize,
        ) by {
            if r < n - 1 {
                let k = choose|k: int| 0 <= k < before.len() && before[k] == r as usize;
                assert(now[k] == r as usize);
            } else {
                assert(now[now.len() - 1] == r as usize);
            }
        }
    }
}

/// The routes of the repositories at the positions `out`: each repository
/// under its name, in the order of `out`.
pub open spec fn routes_through(
    repositories: Seq<RepositoryInstance>,
    out: Seq<usize>,
) -> Seq<FastRoute<usize>> {
    Seq::new(
        out.len(),
        |k: int| FastRoute { name: repositories[out[k] as int].name, backend: out[k] },
    )
}

/// Whether an exposed endpoint is wired: it lists the repositories that use
/// it on either side, and its table routes exactly the repositories that
/// serve through it.
pub open spec fn endpoint_wired(
    endpoint: ExposedEndpointInstance,
    repositories: Seq<RepositoryInstance>,
) -> bool {
    &&& endpoint.wired_in_repositories@ == referrers(
        declared(repositories),
        repositories.len() as int,
        true,
        false,
        endpoint.name@,
    )
    &&& endpoint.wired_out_repositories@ == referrers(
        declared(repositories),
        repositories.len() as int,
        false,
        false,
        endpoint.name@,
    )
    &&& endpoint.fast_routes is Some
    &&& stable_sorted(
        endpoint.fast_routes->0@,
        routes_through(repositories, endpoint.wired_out_repositories@),
    )
}

/// Whether a storage endpoint is wired: it lists the repositories that use
/// it on either side.
pub open spec fn storage_wired(
    storage: StorageEndpointInstance,
    repositories: Seq<RepositoryInstance>,
) -> bool {
    &&& storage.wired_in_repositories@ == referrers(
        declared(repositories),
        repositories.len() as int,
        true,
        true,
        storage.name@,
    )
    &&& storage.wired_out_repositories@ == referrers(
        declared(repositories),
        repositories.len() as int,
        false,
        true,
        storage.name@,
    )
}

impl HolgerInstance {
    /// Whether the instance is wired: names are unique within each of the
    /// three lists, every reference of every repository holds the position
    /// of what it names, and every endpoint and storage lists exactly the
    /// repositories that refer to it.
    pub open spec fn wired(self) -> bool {
        let d = self.declarations();
        let known = repository_names(d.repositories);
        &&& unique(d.storages)
        &&& unique(d.endpoints)
        &&& unique(known)
        &&& forall|r: int|
            0 <= r < self.repositories@.len() ==> repository_wired(
                #[trigger] self.repositories@[r],
                d.storages,
                d.endpoints,
                known,
                storage_kinds(self.storage_endpoints@),
                endpoint_urls(self.exposed_endpoints@),
            )
        &&& forall|e: int|
            0 <= e < self.exposed_endpoints@.len() ==> endpoint_wired(
                #[trigger] self.exposed_endpoints@[e],
                self.repositories@,
            )
        &&& forall|s: int|
            0 <= s < self.storage_endpoints@.len() ==> storage_wired(
                #[trigger] self.storage_endpoints@[s],
                self.repositories@,
            )
    }

    /// Whether `self` declares what `before` declares, with the same
    /// addresses, listeners and storages: wiring changes links only.
    pub open spec fn declares_as(self, before: HolgerInstance) -> bool {
        &&& self.declarations() == before.declarations()
        &&& storage_kinds(self.storage_endpoints@) == storage_kinds(before.storage_endpoints@)
        &&& endpoint_urls(self.exposed_endpoints@) == endpoint_urls(before.exposed_endpoints@)
        &&& forall|e: int|
            0 <= e < self.exposed_endpoints@.len() ==> (#[trigger] self.exposed_endpoints@[e]).ip
                == before.exposed_endpoints@[e].ip && self.exposed_endpoints@[e].port
                == before.exposed_endpoints@[e].port && self.exposed_endpoints@[e].backend
                == before.exposed_endpoints@[e].backend
        &&& forall|r: int|
            0 <= r < self.repositories@.len() ==> (#[trigger] self.repositories@[r]).repo_type
                == before.repositories@[r].repo_type
    }
}

/// The routing table of the exposed endpoint at position `e`.
pub open spec fn table_of(holger: HolgerInstance, e: int) -> Seq<FastRoute<usize>> {
    holger.exposed_endpoints@[e].fast_routes->0@
}

/// Every route leads to its repository.  In a wired instance, a name that
/// the table of an endpoint knows is the name of the repository that the
/// route leads to, and that repository has a backend and serves through
/// this endpoint.
pub proof fn routes_lead_to_their_repositories(holger: HolgerInstance, e: int, name: Seq<u8>)
    requires
        holger.wired(),
        0 <= e < holger.exposed_endpoints@.len(),
        first_named(table_of(holger, e), name) is Some,
    ensures
        ({
            let r = first_named(table_of(holger, e), name)->0;
            &&& r < holger.repositories@.len()
            &&& utf8(holger.repositories@[r as int].name@) == name
            &&& holger.repositories@[r as int].backend is Some
            &&& holger.repositories@[r as int].out_io is Some
            &&& holger.repositories@[r as int].out_io->0.endpoint@
                == holger.exposed_endpoints@[e].name@
        }),
{
    let endpoint = holger.exposed_endpoints@[e];
    let repositories = holger.repositories@;
    assert(holger.repositories.len() == repositories.len());
    let outs = endpoint.wired_out_repositories@;
    let given = routes_through(repositories, outs);
    assert(endpoint_wired(endpoint, repositories));
    lookup_returns_registered_backend(given, table_of(holger, e), name);
    lemma_position_bounds(given, name);
    let p = position(given, name);
    lemma_referrers(declared(repositories), repositories.len() as int, false, false, endpoint.name@);
    let r = outs[p];
    assert(given[p].backend == r);
    assert(declared(repositories)[r as int] == repositories[r as int].declaration());
    assert(repository_wired(
        repositories[r as int],
        holger.declarations().storages,
        holger.declarations().endpoints,
        repository_names(holger.declarations().repositories),
        storage_kinds(holger.storage_endpoints@),
        endpoint_urls(holger.exposed_endpoints@),
    ));
}

/// Every routable repository is routed at its endpoint, and only there.  In
/// a wired instance, a repository with an output side is found under its own
/// name in the table of the endpoint that its output side names; a table
/// that knows the name of the repository is the table of that endpoint.
pub proof fn repository_is_routed_at_its_endpoint(holger: HolgerInstance, r: int, other: int)
    requires
        holger.wired(),
        0 <= r < holger.repositories@.len(),
        holger.repositories@[r].out_io is Some,
        0 <= other < holger.exposed_endpoints@.len(),
    ensures
        ({
            let repository = holger.repositories@[r];
            let e = repository.out_io->0.wired_exposed->0;
            &&& repository.out_io->0.wired_exposed is Some
            &&& e < holger.exposed_endpoints@.len()
            &&& holger.exposed_endpoints@[e as int].name@ == repository.out_io->0.endpoint@
            &&& first_named(table_of(holger, e as int), utf8(repository.name@)) == Some(r as usize)
            &&& first_named(table_of(holger, other), utf8(repository.name@)) is Some ==> other == e
        }),
{
    let d = holger.declarations();
    let known = repository_names(d.repositories);
    let repositories = holger.repositories@;
    assert(holger.repositories.len() == repositories.len());
    assert(holger.exposed_endpoints.len() == holger.exposed_endpoints@.len());
    let repository = repositories[r];
    let name = utf8(repository.name@);
    assert(repository_wired(
        repository,
        d.storages,
        d.endpoints,
        known,
        storage_kinds(holger.storage_endpoints@),
        endpoint_urls(holger.exposed_endpoints@),
    ));
    let io = repository.out_io->0;
    lemma_name_index(d.endpoints, io.endpoint@);
    let e = name_index(d.endpoints, io.endpoint@);
    let endpoint = holger.exposed_endpoints@[e];
    assert(d.endpoints[e] == endpoint.name@);
    assert(endpoint_wired(endpoint, repositories));
    let outs = endpoint.wired_out_repositories@;
    let given = routes_through(repositories, outs);
    assert(declared(repositories)[r] == repository.declaration());
    lemma_referrers(declared(repositories), repositories.len() as int, false, false, endpoint.name@);
    assert(outs.contains(r as usize));
    let k = choose|k: int| 0 <= k < outs.len() && outs[k] == r as usize;
    assert(given[k].name_bytes() == name);
    lemma_position_bounds(given, name);
    let p = position(given, name);
    assert(p <= k) by {
        if p > k {
            assert(given[k].name_bytes() != name);
        }
    }
    let first = outs[p];
    assert(given[p].backend == first);
    lemma_utf8_injective(repositories[first as int].name@, repository.name@);
    assert(known[first as int] == repositories[first as int].name@);
    assert(known[r] == repository.name@);
    lemma_unique_names(known, first as int);
    lemma_unique_names(known, r);
    lookup_returns_registered_backend(given, table_of(holger, e), name);
    if first_named(table_of(holger, other), name) is Some {
        routes_lead_to_their_repositories(holger, other, name);
        let found = first_named(table_of(holger, other), name)->0;
        lemma_utf8_injective(repositories[found as int].name@, repository.name@);
        assert(known[found as int] == repositories[found as int].name@);
        lemma_unique_names(known, found as int);
        assert(found == r);
        assert(d.endpoints[other] == holger.exposed_endpoints@[other].name@);
        lemma_unique_names(d.endpoints, other);
        assert(other == e);
    }
    assert(io.wired_exposed == Some(e as usize));
    assert(first_named(table_of(holger, e), name) == Some(r as usize));
}

/// Requests reach their repository.  In a wired instance, a request for
/// `/name/below` at the endpoint that the output side of the repository
/// `name` refers to is routed to that repository, with `below` as the path
/// for its backend, which exists; at every other endpoint it is routed
/// nowhere.  The name must not be empty nor hold a `/`.
pub proof fn requests_reach_their_repository(
    holger: HolgerInstance,
    r: int,
    below: Seq<u8>,
    other: int,
)
    requires
        holger.wired(),
        0 <= r < holger.repositories@.len(),
        holger.repositories@[r].out_io is Some,
        holger.repositories@[r].name@.len() > 0,
        !utf8(holger.repositories@[r].name@).contains(SLASH),
        0 <= other < holger.exposed_endpoints@.len(),
    ensures
        ({
            let repository = holger.repositories@[r];
            let e = repository.out_io->0.wired_exposed->0;
            let path = request_path(utf8(repository.name@), below);
            &&& e < holger.exposed_endpoints@.len()
            &&& holger.routed(e as int, path) == Some(r as usize)
            &&& sub_path(path) == below
            &&& repository.backend is Some
            &&& other != e ==> holger.routed(other, path) is None
        }),
{
    let repository = holger.repositories@[r];
    let name = utf8(repository.name@);
    assert(name.len() > 0) by {
        if name.len() == 0 {
            assert(utf8(Seq::<char>::empty()) =~= Seq::<u8>::empty()) by {
                reveal_with_fuel(vstd::utf8::encode_utf8, 1);
            }
            lemma_utf8_injective(repository.name@, Seq::<char>::empty());
        }
    }
    lemma_request_path_routes(name, below);
    repository_is_routed_at_its_endpoint(holger, r, other);
    let e = repository.out_io->0.wired_exposed->0;
    assert(endpoint_wired(holger.exposed_endpoints@[e as int], holger.repositories@));
    assert(endpoint_wired(holger.exposed_endpoints@[other], holger.repositories@));
    assert(repository_wired(
        repository,
        holger.declarations().storages,
        holger.declarations().endpoints,
        repository_names(holger.declarations().repositories),
        storage_kinds(holger.storage_endpoints@),
        endpoint_urls(holger.exposed_endpoints@),
    ));
}

/// A routable repository serves its registry configuration.  In a wired
/// instance, whatever answers a request for `/name/index/config.json` at the
/// endpoint of the repository `name` is the registry configuration of that
/// repository: status 200, content type JSON, and a body that names the
/// public address of the endpoint and the repository as the place to
/// download crates from.  The name must not be empty nor hold a `/`.
pub proof fn routable_repository_serves_its_configuration(
    holger: HolgerInstance,
    r: int,
    request: Seq<u8>,
    status: u16,
    headers: Seq<(String, String)>,
    body: Seq<u8>,
)
    requires
        holger.wired(),
        0 <= r < holger.repositories@.len(),
        holger.repositories@[r].out_io is Some,
        holger.repositories@[r].name@.len() > 0,
        !utf8(holger.repositories@[r].name@).contains(SLASH),
        holger.answers_request(
            holger.repositories@[r].out_io->0.wired_exposed->0 as int,
            request_path(utf8(holger.repositories@[r].name@), "index/config.json".spec_bytes()),
            request,
            status,
            headers,
            body,
        ),
    ensures
        status == 200,
        is_content_type(headers, "application/json"@),
        body == config_body(
            trim_end(
                utf8(
                    holger.exposed_endpoints@[holger.repositories@[r].out_io->0.wired_exposed->0 as int].url_prefix@,
                ),
                SLASH,
            ),
            utf8(holger.repositories@[r].name@),
        ),
{
    let repository = holger.repositories@[r];
    let name = utf8(repository.name@);
    let e = repository.out_io->0.wired_exposed->0;
    let d = holger.declarations();
    assert(repository_wired(
        repository,
        d.storages,
        d.endpoints,
        repository_names(d.repositories),
        storage_kinds(holger.storage_endpoints@),
        endpoint_urls(holger.exposed_endpoints@),
    ));
    lemma_name_index(d.endpoints, repository.out_io->0.endpoint@);
    assert(holger.exposed_endpoints.len() == holger.exposed_endpoints@.len());
    assert(e == name_index(d.endpoints, repository.out_io->0.endpoint@));
    assert(endpoint_urls(holger.exposed_endpoints@)[e as int]
        == holger.exposed_endpoints@[e as int].url_prefix@);
    requests_reach_their_repository(holger, r, "index/config.json".spec_bytes(), e as int);
    lemma_config_path(name);
    let backend = repository.rust_backend()->0;
    assert(repository.backend == Some(Backend::Rust(backend)));
    assert(utf8(backend.name@) == name);
    assert(utf8(backend.public_url@) == public_url(
        repository.out_io,
        d.endpoints,
        endpoint_urls(holger.exposed_endpoints@),
    ));
    let path = request_path(name, "index/config.json".spec_bytes());
    assert(holger.repositories.len() == holger.repositories@.len());
    assert(holger.routed(e as int, path) == Some(r as usize));
    let answer = choose|answer: ProtocolAnswer| #[trigger]
        holger.repositories@[r].backend->0.responds(sub_path(path), request, answer)
            && responds_with(answer, status, headers, body);
    assert(backend.responds(sub_path(path), request, answer));
    assert(answer is Ok);
    assert(rust_response(
        RustRoute::Config,
        utf8(backend.public_url@),
        utf8(backend.name@),
        status,
        headers,
        body,
    ));
}

/// Unknown names are not found.  In a wired instance, a request whose
/// routing key is not the name of a repository that serves through the
/// endpoint is routed nowhere, and so is answered with 404.
pub proof fn unknown_names_are_not_found(
    holger: HolgerInstance,
    e: int,
    path: Seq<u8>,
    request: Seq<u8>,
    status: u16,
    headers: Seq<(String, String)>,
    body: Seq<u8>,
)
    requires
        holger.wired(),
        0 <= e < holger.exposed_endpoints@.len(),
        forall|r: int|
            0 <= r < holger.repositories@.len() && (#[trigger] holger.repositories@[r]).out_io
                is Some && holger.repositories@[r].out_io->0.endpoint@
                == holger.exposed_endpoints@[e].name@ ==> utf8(holger.repositories@[r].name@)
                != routing_key(path),
        holger.answers_request(e, path, request, status, headers, body),
    ensures
        holger.routed(e, path) is None,
        status == 404,
        headers.len() == 0,
        body == "Repo Not Found".spec_bytes(),
{
    assert(endpoint_wired(holger.exposed_endpoints@[e], holger.repositories@));
    if first_named(table_of(holger, e), routing_key(path)) is Some {
        routes_lead_to_their_repositories(holger, e, routing_key(path));
    }
}

} // verus!
