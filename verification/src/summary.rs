//! The wiring summary: what an operator is shown of an instance after
//! wiring.  The summary holds counts, flags and positions; names are read
//! from the instance at those positions.

use vstd::prelude::*;
use crate::config::HolgerInstance;
use crate::exposed::ExposedEndpointInstance;
use crate::repository::types::RepositoryInstance;

verus! {

/// What is shown of a repository.
#[derive(Debug, Clone, Copy, PartialEq, Eq, Structural)]
pub struct RepositoryLine {
    pub upstreams: usize,
    pub has_in: bool,
    pub has_out: bool,
}

/// What a repository with an output side can lack.
#[derive(Debug, Clone, Copy, PartialEq, Eq, Structural)]
pub enum Missing {
    /// The instance has no exposed endpoint at all.
    ExposedEndpoints,
    /// The instance has no storage endpoint at all.
    StorageEndpoints,
}

/// A repository that has an output side while the instance has nothing to
/// wire it to.
#[derive(Debug, Clone, Copy, PartialEq, Eq, Structural)]
pub struct WiringIssue {
    pub repository: usize,
    pub missing: Missing,
}

/// How many repositories are wired into and out of an endpoint or a storage.
#[derive(Debug, Clone, Copy, PartialEq, Eq, Structural)]
pub struct ReverseLine {
    pub wired_in: usize,
    pub wired_out: usize,
}

/// A repository that serves through an endpoint, and whether its backend is
/// ready to be routed to.
#[derive(Debug, Clone, Copy, PartialEq, Eq, Structural)]
pub struct RouteLine {
    pub repository: usize,
    pub backend_ready: bool,
}

/// What is shown of the routes of an exposed endpoint.
#[derive(Debug)]
pub struct EndpointRoutes {
    /// Whether the endpoint has a routing table.
    pub has_routes: bool,
    /// The repositories wired out through the endpoint.
    pub wired: Vec<RouteLine>,
    /// How many positions in the endpoint's list lead to no repository.
    pub skipped: usize,
    /// How many repositories could be routed: the length of `wired`.
    pub candidates: usize,
    /// How many of them have a backend.
    pub ready: usize,
}

/// What is shown of an instance.
#[derive(Debug)]
pub struct WiringSummary {
    /// One line per repository, in order.
    pub repositories: Vec<RepositoryLine>,
    /// The issues found, by repository.
    pub issues: Vec<WiringIssue>,
    /// Whether no issue was found.
    pub ok: bool,
    /// One line per exposed endpoint, in order.
    pub endpoints: Vec<ReverseLine>,
    /// One line per storage endpoint, in order.
    pub storages: Vec<ReverseLine>,
    /// The routes of every exposed endpoint, in order.
    pub routes: Vec<EndpointRoutes>,
}

/// The line of a repository.
pub open spec fn repository_line(repository: RepositoryInstance) -> RepositoryLine {
    RepositoryLine {
        upstreams: repository.upstreams@.len() as usize,
        has_in: repository.in_io is Some,
        has_out: repository.out_io is Some,
    }
}

/// The issues of the first `n` repositories: every repository with an
/// output side lacks exposed endpoints if the instance has none, and
/// storage endpoints if the instance has none.
pub open spec fn issues_of(
    repositories: Seq<RepositoryInstance>,
    n: int,
    no_endpoints: bool,
    no_storages: bool,
) -> Seq<WiringIssue>
    decreases n,
{
    if n <= 0 {
        Seq::empty()
    } else {
        let before = issues_of(repositories, n - 1, no_endpoints, no_storages);
        let has_out = repositories[n - 1].out_io is Some;
        let first = if has_out && no_endpoints {
            before.push(
                WiringIssue { repository: (n - 1) as usize, missing: Missing::ExposedEndpoints },
            )
        } else {
            before
        };
        if has_out && no_storages {
            first.push(
                WiringIssue { repository: (n - 1) as usize, missing: Missing::StorageEndpoints },
            )
        } else {
            first
        }
    }
}

/// The route lines of the first `k` positions of `out`: one line for every
/// position that leads to a repository.
pub open spec fn route_lines(
    repositories: Seq<RepositoryInstance>,
    out: Seq<usize>,
    k: int,
) -> Seq<RouteLine>
    decreases k,
{
    if k <= 0 {
        Seq::empty()
    } else {
        let before = route_lines(repositories, out, k - 1);
        if out[k - 1] < repositories.len() {
            before.push(
                RouteLine {
                    repository: out[k - 1],
                    backend_ready: repositories[out[k - 1] as int].backend is Some,
                },
            )
        } else {
            before
        }
    }
}

/// How many of the first `k` lines have a backend that is ready.
pub open spec fn ready_among(lines: Seq<RouteLine>, k: int) -> int
    decreases k,
{
    if k <= 0 {
        0
    } else if lines[k - 1].backend_ready {
        ready_among(lines, k - 1) + 1
    } else {
        ready_among(lines, k - 1)
    }
}

proof fn lemma_ready_among_push(lines: Seq<RouteLine>, line: RouteLine, k: int)
    requires
        0 <= k <= lines.len(),
    ensures
        ready_among(lines.push(line), k) == ready_among(lines, k),
        0 <= ready_among(lines, k) <= k,
    decreases k,
{
    if k > 0 {
        lemma_ready_among_push(lines, line, k - 1);
        assert(lines.push(line)[k - 1] == lines[k - 1]);
    }
}

/// Whether `routes` is what is shown of the routes of `endpoint`.
pub open spec fn shows_routes(
    routes: EndpointRoutes,
    endpoint: ExposedEndpointInstance,
    repositories: Seq<RepositoryInstance>,
) -> bool {
    let out = endpoint.wired_out_repositories@;
    &&& routes.has_routes == (endpoint.fast_routes is Some)
    &&& routes.wired@ == route_lines(repositories, out, out.len() as int)
    &&& routes.candidates == routes.wired@.len()
    &&& routes.skipped == out.len() - routes.wired@.len()
    &&& routes.ready == ready_among(routes.wired@, routes.wired@.len() as int)
}

fn endpoint_routes(endpoint: &ExposedEndpointInstance, repositories: &Vec<RepositoryInstance>) -> (routes:
    EndpointRoutes)
    ensures
        shows_routes(routes, *endpoint, repositories@),
{
    let out = &endpoint.wired_out_repositories;
    let mut wired: Vec<RouteLine> = Vec::new();
    let mut ready: usize = 0;
    let mut skipped: usize = 0;
    let mut k: usize = 0;
    while k < out.len()
        invariant
            k <= out@.len(),
            wired@ == route_lines(repositories@, out@, k as int),
            wired@.len() + skipped == k,
            ready == ready_among(wired@, wired@.len() as int),
            ready <= wired@.len(),
        decreases out@.len() - k,
    {
        let at: usize = out[k];
        if at < repositories.len() {
            let line = RouteLine { repository: at, backend_ready: repositories[at].backend.is_some() };
            proof {
                lemma_ready_among_push(wired@, line, wired@.len() as int);
            }
            wired.push(line);
            if line.backend_ready {
                ready += 1;
            }
        } else {
            skipped += 1;
        }
        k += 1;
    }
    let candidates: usize = wired.len();
    EndpointRoutes { has_routes: endpoint.fast_routes.is_some(), wired, skipped, candidates, ready }
}

/// Whether `summary` is what is shown of `holger`.
pub open spec fn summarizes(summary: WiringSummary, holger: HolgerInstance) -> bool {
    let repositories = holger.repositories@;
    &&& summary.repositories@.len() == repositories.len()
    &&& forall|i: int|
        0 <= i < repositories.len() ==> #[trigger] summary.repositories@[i] == repository_line(
            repositories[i],
        )
    &&& summary.issues@ == issues_of(
        repositories,
        repositories.len() as int,
        holger.exposed_endpoints@.len() == 0,
        holger.storage_endpoints@.len() == 0,
    )
    &&& summary.ok == (summary.issues@.len() == 0)
    &&& summary.endpoints@.len() == holger.exposed_endpoints@.len()
    &&& forall|e: int|
        0 <= e < holger.exposed_endpoints@.len() ==> #[trigger] summary.endpoints@[e]
            == (ReverseLine {
            wired_in: holger.exposed_endpoints@[e].wired_in_repositories@.len() as usize,
            wired_out: holger.exposed_endpoints@[e].wired_out_repositories@.len() as usize,
        })
    &&& summary.storages@.len() == holger.storage_endpoints@.len()
    &&& forall|s: int|
        0 <= s < holger.storage_endpoints@.len() ==> #[trigger] summary.storages@[s]
            == (ReverseLine {
            wired_in: holger.storage_endpoints@[s].wired_in_repositories@.len() as usize,
            wired_out: holger.storage_endpoints@[s].wired_out_repositories@.len() as usize,
        })
    &&& summary.routes@.len() == holger.exposed_endpoints@.len()
    &&& forall|e: int|
        0 <= e < holger.exposed_endpoints@.len() ==> shows_routes(
            #[trigger] summary.routes@[e],
            holger.exposed_endpoints@[e],
            repositories,
        )
}

/// Sums an instance up for display: every repository with the number of
/// its upstreams and its sides, the repositories that have an output side
/// while the instance has no exposed endpoint or no storage endpoint, the
/// number of repositories wired into and out of every endpoint and storage,
/// and the routes of every exposed endpoint.
pub fn wiring_summary(holger: &HolgerInstance) -> (summary: WiringSummary)
    ensures
        summarizes(summary, *holger),
{
    let no_endpoints: bool = holger.exposed_endpoints.len() == 0;
    let no_storages: bool = holger.storage_endpoints.len() == 0;
    let mut repositories: Vec<RepositoryLine> = Vec::new();
    let mut issues: Vec<WiringIssue> = Vec::new();
    let mut i: usize = 0;
    while i < holger.repositories.len()
        invariant
            i <= holger.repositories@.len(),
            repositories@.len() == i,
            forall|k: int|
                0 <= k < i ==> #[trigger] repositories@[k] == repository_line(
                    holger.repositories@[k],
                ),
            issues@ == issues_of(holger.repositories@, i as int, no_endpoints, no_storages),
        decreases holger.repositories@.len() - i,
    {
        let repository = &holger.repositories[i];
        repositories.push(
            RepositoryLine {
                upstreams: repository.upstreams.len(),
                has_in: repository.in_io.is_some(),
                has_out: repository.out_io.is_some(),
            },
        );
        if repository.out_io.is_some() && no_endpoints {
            issues.push(WiringIssue { repository: i, missing: Missing::ExposedEndpoints });
        }
        if repository.out_io.is_some() && no_storages {
            issues.push(WiringIssue { repository: i, missing: Missing::StorageEndpoints });
        }
        i += 1;
    }
    let ok: bool = issues.len() == 0;
    let mut endpoints: Vec<ReverseLine> = Vec::new();
    let mut routes: Vec<EndpointRoutes> = Vec::new();
    let mut e: usize = 0;
    while e < holger.exposed_endpoints.len()
        invariant
            e <= holger.exposed_endpoints@.len(),
            endpoints@.len() == e,
            routes@.len() == e,
            forall|k: int|
                0 <= k < e ==> #[trigger] endpoints@[k] == (ReverseLine {
                    wired_in: holger.exposed_endpoints@[k].wired_in_repositories@.len() as usize,
                    wired_out: holger.exposed_endpoints@[k].wired_out_repositories@.len() as usize,
                }),
            forall|k: int|
                0 <= k < e ==> shows_routes(
                    #[trigger] routes@[k],
                    holger.exposed_endpoints@[k],
                    holger.repositories@,
                ),
        decreases holger.exposed_endpoints@.len() - e,
    {
        let endpoint = &holger.exposed_endpoints[e];
        endpoints.push(
            ReverseLine {
                wired_in: endpoint.wired_in_repositories.len(),
                wired_out: endpoint.wired_out_repositories.len(),
            },
        );
        routes.push(endpoint_routes(endpoint, &holger.repositories));
        e += 1;
    }
    let mut storages: Vec<ReverseLine> = Vec::new();
    let mut s: usize = 0;
    while s < holger.storage_endpoints.len()
        invariant
            s <= holger.storage_endpoints@.len(),
            storages@.len() == s,
            forall|k: int|
                0 <= k < s ==> #[trigger] storages@[k] == (ReverseLine {
                    wired_in: holger.storage_endpoints@[k].wired_in_repositories@.len() as usize,
                    wired_out: holger.storage_endpoints@[k].wired_out_repositories@.len() as usize,
                }),
        decreases holger.storage_endpoints@.len() - s,
    {
        let storage = &holger.storage_endpoints[s];
        storages.push(
            ReverseLine {
                wired_in: storage.wired_in_repositories.len(),
                wired_out: storage.wired_out_repositories.len(),
            },
        );
        s += 1;
    }
    WiringSummary { repositories, issues, ok, endpoints, storages, routes }
}

} // verus!
