use holger::config::{factory, HolgerInstance};
use holger::exposed::http2::ListenerState;
use holger::exposed::ExposedEndpointInstance;
use holger::registry::load_registry;
use holger::repository::backend::{Backend, SharedBackend};
use holger::repository::rust::RustRepo;
use holger::repository::rust_znippy::RustRepoZnippy;
use holger::repository::types::{
    FetchAnswer, ProtocolAnswer, RepositoryBackend, RepositoryError, RepositoryIO, RepositoryInstance,
};
use holger::types::ArtifactId;
use std::sync::Arc;
use holger::storage::{ResolvedStorage, StorageEndpointInstance, StorageError};
use holger::summary::{wiring_summary, Missing, RepositoryLine, ReverseLine, RouteLine, WiringIssue};
use holger::types::{
    ArtifactFormat, ExposedEndpoint, HolgerConfig, InOut, Repository, RepositoryType, StorageEndpoint,
    StorageLocation, StorageType,
};
use holger::wiring::{wire_holger, WireError};

fn storage(name: &str) -> StorageEndpoint {
    StorageEndpoint {
        name: name.to_string(),
        ty: StorageType::Znippy,
        location: StorageLocation::Local,
        path: format!("/data/{}", name),
    }
}

fn endpoint(name: &str, url_prefix: &str) -> ExposedEndpoint {
    ExposedEndpoint {
        name: name.to_string(),
        url_prefix: url_prefix.to_string(),
        cert: "cert.pem".to_string(),
        key: "key.pem".to_string(),
    }
}

fn io(storage: &str, endpoint: &str) -> Option<InOut> {
    Some(InOut { storage_backend: storage.to_string(), exposed_endpoint: endpoint.to_string() })
}

fn repository(name: &str, in_: Option<InOut>, out: Option<InOut>, upstreams: &[&str]) -> Repository {
    Repository {
        name: name.to_string(),
        ty: RepositoryType::Rust,
        in_,
        out,
        upstreams: upstreams.iter().map(|u| u.to_string()).collect(),
    }
}

fn small_config() -> HolgerConfig {
    HolgerConfig {
        exposed_endpoints: vec![endpoint("api1", "https://127.0.0.1:8443/")],
        storage_endpoints: vec![storage("local1")],
        repositories: vec![repository("crates1", None, io("local1", "api1"), &[])],
    }
}

fn large_config() -> HolgerConfig {
    HolgerConfig {
        exposed_endpoints: vec![
            endpoint("api1", "https://127.0.0.1:8443/"),
            endpoint("api2", "https://registry.example/"),
            endpoint("idle", "https://idle.example:9000"),
        ],
        storage_endpoints: vec![storage("local1"), storage("local2")],
        repositories: vec![
            repository("crates1", io("local1", "api2"), io("local1", "api1"), &["mirror", "crates2"]),
            repository("mirror", None, io("local2", "api2"), &[]),
            repository("crates2", io("local2", "api1"), io("local2", "api1"), &["crates2"]),
            repository("hidden", io("local1", "api1"), None, &["mirror"]),
        ],
    }
}

fn text(body: Vec<u8>) -> String {
    String::from_utf8(body).unwrap()
}

fn rust(repository: &RepositoryInstance) -> &RustRepo {
    match repository.backend() {
        Some(Backend::Rust(repo)) => repo,
        _ => panic!("the repository should have a Rust backend"),
    }
}

#[test]
fn end_to_end_scenario() {
    let holger = factory(&small_config()).unwrap();
    assert_eq!(holger.exposed_endpoints[0].ip, "127.0.0.1");
    assert_eq!(holger.exposed_endpoints[0].port, 8443);
    let (status, headers, body) = holger.handle_request(0, "/crates1/index/config.json", b"");
    assert_eq!(status, 200);
    assert_eq!(headers, vec![("Content-Type".to_string(), "application/json".to_string())]);
    let body = text(body);
    assert!(body.contains("\"dl\":\"https://127.0.0.1:8443/crates1/crates\""));
    assert_eq!(body, "{\"dl\":\"https://127.0.0.1:8443/crates1/crates\",\"api\":null}");
    let (status, headers, body) = holger.handle_request(0, "/unknown/anything", b"");
    assert_eq!(status, 404);
    assert!(headers.is_empty());
    assert_eq!(body, b"Repo Not Found".to_vec());
}

#[test]
fn requests_below_a_repository_reach_its_backend() {
    let holger = factory(&small_config()).unwrap();
    let (status, headers, body) = holger.handle_request(0, "/crates1/crates/serde/1.0.0/download", b"");
    assert_eq!(status, 200);
    assert_eq!(headers, vec![("Content-Type".to_string(), "application/octet-stream".to_string())]);
    assert_eq!(body, b"FAKE_CRATE_CONTENT".to_vec());
    let (status, _, body) = holger.handle_request(0, "/crates1/index/se/rd/serde", b"");
    assert_eq!(status, 200);
    assert_eq!(
        text(body),
        "[{\"vers\":\"1.0.0\",\"deps\":[],\"cksum\":\"50ccd0badd82e95d6f93cf46a39edd39b662ec9e3ea89a61382e7e274e1952ec\"}]"
    );
    assert_eq!(holger.handle_request(0, "/crates1", b""), (404, Vec::new(), Vec::new()));
    assert_eq!(holger.handle_request(0, "/crates1/nothing", b""), (404, Vec::new(), Vec::new()));
    assert_eq!(holger.handle_request(0, "/", b"").0, 404);
    assert_eq!(holger.handle_request(0, "", b""), (404, Vec::new(), b"Repo Not Found".to_vec()));
    assert_eq!(holger.handle_request(7, "/crates1/index/config.json", b"").0, 404);
}

#[test]
fn every_reference_of_a_built_instance_is_wired() {
    let holger = factory(&large_config()).unwrap();
    let names: Vec<&str> = holger.repositories.iter().map(|r| r.name.as_str()).collect();
    assert_eq!(names, vec!["crates1", "mirror", "crates2", "hidden"]);
    for repo in &holger.repositories {
        for side in [&repo.in_io, &repo.out_io] {
            if let Some(io) = side {
                let s = io.wired_storage.unwrap();
                let e = io.wired_exposed.unwrap();
                assert_eq!(holger.storage_endpoints[s].name, io.storage_backend);
                assert_eq!(holger.exposed_endpoints[e].name, io.endpoint);
            }
        }
        assert_eq!(repo.wired_upstreams.len(), repo.upstreams.len());
        for (u, at) in repo.wired_upstreams.iter().enumerate() {
            assert_eq!(holger.repositories[*at].name, repo.upstreams[u]);
        }
        let backend = rust(repo);
        assert_eq!(backend.name, repo.name);
        assert_eq!(backend.in_backend.is_some(), repo.is_writable());
        assert_eq!(backend.out_backend.is_some(), repo.out_io.is_some());
    }
    let crates1 = &holger.repositories[0];
    assert_eq!(crates1.wired_upstreams, vec![1, 2]);
    assert_eq!(crates1.exposed_endpoint_name(), "api1");
    assert_eq!(crates1.format, ArtifactFormat::Rust);
    assert_eq!(crates1.repo_type, RepositoryType::Rust);
    assert_eq!(crates1.in_io.as_ref().unwrap().wired_exposed, Some(1));
    assert_eq!(crates1.out_io.as_ref().unwrap().wired_exposed, Some(0));
    assert_eq!(
        rust(crates1).in_backend,
        Some(ResolvedStorage::ZnippyLocal { path: "/data/local1".to_string() })
    );
    assert_eq!(rust(&holger.repositories[1]).public_url, "https://registry.example");
    assert_eq!(holger.repositories[2].wired_upstreams, vec![2]);
    let hidden = &holger.repositories[3];
    assert_eq!(hidden.exposed_endpoint_name(), "");
    assert!(hidden.is_writable());
    assert_eq!(rust(hidden).public_url, "https://127.0.0.1:8443");
    assert!(!holger.repositories[1].is_writable());
}

#[test]
fn reverse_indices_list_the_repositories_that_refer() {
    let holger = factory(&large_config()).unwrap();
    let api1 = &holger.exposed_endpoints[0];
    let api2 = &holger.exposed_endpoints[1];
    let idle = &holger.exposed_endpoints[2];
    assert_eq!(api1.wired_in_repositories, vec![2, 3]);
    assert_eq!(api1.wired_out_repositories, vec![0, 2]);
    assert_eq!(api2.wired_in_repositories, vec![0]);
    assert_eq!(api2.wired_out_repositories, vec![1]);
    assert!(idle.wired_in_repositories.is_empty());
    assert!(idle.wired_out_repositories.is_empty());
    assert_eq!(holger.storage_endpoints[0].wired_in_repositories, vec![0, 3]);
    assert_eq!(holger.storage_endpoints[0].wired_out_repositories, vec![0]);
    assert_eq!(holger.storage_endpoints[1].wired_in_repositories, vec![2]);
    assert_eq!(holger.storage_endpoints[1].wired_out_repositories, vec![1, 2]);
}

#[test]
fn a_repository_is_routed_at_the_endpoint_of_its_output_side_only() {
    let holger = factory(&large_config()).unwrap();
    let routed = |e: usize, name: &str| -> Option<usize> {
        holger.exposed_endpoints[e].fast_routes.as_ref().unwrap().lookup(name).copied()
    };
    assert_eq!(routed(0, "crates1"), Some(0));
    assert_eq!(routed(0, "crates2"), Some(2));
    assert_eq!(routed(0, "mirror"), None);
    assert_eq!(routed(0, "hidden"), None);
    assert_eq!(routed(1, "mirror"), Some(1));
    assert_eq!(routed(1, "crates1"), None);
    assert_eq!(routed(2, "crates1"), None);
    assert_eq!(holger.exposed_endpoints[2].fast_routes.as_ref().unwrap().len(), 0);
    assert_eq!(
        holger.exposed_endpoints[0].route("/crates2/index/config.json"),
        Some((2, "index/config.json"))
    );
    assert_eq!(holger.exposed_endpoints[1].route("/crates2/index/config.json"), None);
    let (status, _, body) = holger.handle_request(1, "/mirror/index/config.json", b"");
    assert_eq!(status, 200);
    assert_eq!(text(body), "{\"dl\":\"https://registry.example/mirror/crates\",\"api\":null}");
    assert_eq!(holger.handle_request(2, "/mirror/index/config.json", b"").0, 404);
}

fn problem(config: &HolgerConfig) -> WireError {
    match factory(config) {
        Ok(_) => panic!("the configuration should not build"),
        Err(e) => e,
    }
}

#[test]
fn an_unresolved_reference_fails_the_whole_build() {
    let mut config = large_config();
    config.repositories[2].out = io("local2", "nowhere");
    let e = problem(&config);
    assert_eq!(
        e,
        WireError::MissingExposedEndpoint { repository: "crates2".to_string(), name: "nowhere".to_string() }
    );
    assert_eq!(e.message(), "Missing exposed endpoint: nowhere");

    let mut config = large_config();
    config.repositories[1].out = io("tape", "api2");
    let e = problem(&config);
    assert_eq!(
        e,
        WireError::MissingStorageEndpoint { repository: "mirror".to_string(), name: "tape".to_string() }
    );
    assert_eq!(e.message(), "Missing storage endpoint: tape");

    let mut config = large_config();
    config.repositories[3].upstreams.push("gone".to_string());
    let e = problem(&config);
    assert_eq!(
        e,
        WireError::MissingUpstream { repository: "hidden".to_string(), upstream: "gone".to_string() }
    );
    assert_eq!(e.message(), "Missing upstream repo: gone");
}

#[test]
fn the_first_problem_is_reported() {
    let mut config = large_config();
    config.repositories[0].in_ = io("tape", "nowhere");
    config.repositories[0].out = io("tape2", "api1");
    config.repositories[1].upstreams.push("gone".to_string());
    assert_eq!(
        problem(&config),
        WireError::MissingStorageEndpoint { repository: "crates1".to_string(), name: "tape".to_string() }
    );
    config.repositories[0].upstreams.push("gone-too".to_string());
    assert_eq!(
        problem(&config),
        WireError::MissingUpstream { repository: "crates1".to_string(), upstream: "gone-too".to_string() }
    );
    config.repositories.push(repository("mirror", None, None, &[]));
    assert_eq!(problem(&config), WireError::DuplicateRepository { name: "mirror".to_string() });
    config.exposed_endpoints.push(endpoint("api2", "https://other/"));
    assert_eq!(problem(&config), WireError::DuplicateExposedEndpoint { name: "api2".to_string() });
    config.storage_endpoints.push(storage("local1"));
    assert_eq!(problem(&config), WireError::DuplicateStorageEndpoint { name: "local1".to_string() });
    config.storage_endpoints[1].ty = StorageType::Rocksdb;
    config.storage_endpoints[1].location = StorageLocation::S3;
    let e = problem(&config);
    assert_eq!(
        e,
        WireError::Storage {
            endpoint: "local2".to_string(),
            error: StorageError::RocksdbRemote { path: "/data/local2".to_string() }
        }
    );
    assert_eq!(e.message(), "RocksDB cannot use remote (S3) location: /data/local2");
}

#[test]
fn duplicate_names_are_messages() {
    assert_eq!(
        WireError::DuplicateStorageEndpoint { name: "a".to_string() }.message(),
        "Duplicate storage endpoint: a"
    );
    assert_eq!(
        WireError::DuplicateExposedEndpoint { name: "b".to_string() }.message(),
        "Duplicate exposed endpoint: b"
    );
    assert_eq!(WireError::DuplicateRepository { name: "c".to_string() }.message(), "Duplicate repository: c");
}

#[test]
fn only_the_rust_format_has_a_backend() {
    for (ty, format, name) in [
        (RepositoryType::Pip, ArtifactFormat::Pip, "Pip"),
        (RepositoryType::Maven3, ArtifactFormat::Maven3, "Maven3"),
        (RepositoryType::Raw, ArtifactFormat::Raw, "Raw"),
    ] {
        let mut config = small_config();
        config.repositories[0].ty = ty;
        let e = problem(&config);
        assert_eq!(e, WireError::UnsupportedFormat { repository: "crates1".to_string(), format });
        assert_eq!(e.message(), format!("Backend not implemented for format: {}", name));
        assert_eq!(ty.format(), format);
        assert_eq!(format.name(), name);
    }
    assert_eq!(RepositoryType::Rust.format(), ArtifactFormat::Rust);
}

#[test]
fn an_empty_configuration_builds_an_empty_instance() {
    let config = HolgerConfig {
        exposed_endpoints: vec![],
        storage_endpoints: vec![],
        repositories: vec![],
    };
    let holger = factory(&config).unwrap();
    assert!(holger.exposed_endpoints.is_empty());
    assert!(holger.storage_endpoints.is_empty());
    assert!(holger.repositories.is_empty());
    assert_eq!(holger.handle_request(0, "/crates1/index/config.json", b"").0, 404);
}

fn unwired_instance() -> HolgerInstance {
    let config = large_config();
    HolgerInstance {
        exposed_endpoints: config.exposed_endpoints.iter().map(ExposedEndpointInstance::from_config).collect(),
        storage_endpoints: config
            .storage_endpoints
            .iter()
            .map(|s| StorageEndpointInstance::from_config(s).unwrap())
            .collect(),
        repositories: config.repositories.iter().map(RepositoryInstance::from_config).collect(),
    }
}

fn is_unwired(holger: &HolgerInstance) -> bool {
    holger.repositories.iter().all(|r| {
        r.backend.is_none()
            && r.wired_upstreams.is_empty()
            && r.in_io.iter().chain(r.out_io.iter()).all(|io| io.wired_storage.is_none() && io.wired_exposed.is_none())
    }) && holger
        .exposed_endpoints
        .iter()
        .all(|e| e.fast_routes.is_none() && e.wired_in_repositories.is_empty() && e.wired_out_repositories.is_empty())
        && holger
            .storage_endpoints
            .iter()
            .all(|s| s.wired_in_repositories.is_empty() && s.wired_out_repositories.is_empty())
}

#[test]
fn wiring_in_place_is_all_or_nothing() {
    let mut holger = unwired_instance();
    assert!(is_unwired(&holger));
    holger.repositories[3].upstreams.push("gone".to_string());
    assert_eq!(
        wire_holger(&mut holger),
        Err(WireError::MissingUpstream { repository: "hidden".to_string(), upstream: "gone".to_string() })
    );
    assert!(is_unwired(&holger));
    holger.repositories[3].upstreams.pop();
    assert_eq!(wire_holger(&mut holger), Ok(()));
    assert!(!is_unwired(&holger));
    assert_eq!(holger.exposed_endpoints[0].wired_out_repositories, vec![0, 2]);
    assert_eq!(holger.repositories[0].wired_upstreams, vec![1, 2]);
    assert_eq!(holger.handle_request(0, "/crates2/index/config.json", b"").0, 200);
}

#[test]
fn wiring_twice_gives_the_same_links() {
    let mut holger = unwired_instance();
    assert_eq!(wire_holger(&mut holger), Ok(()));
    assert_eq!(wire_holger(&mut holger), Ok(()));
    assert_eq!(holger.exposed_endpoints[0].wired_in_repositories, vec![2, 3]);
    assert_eq!(holger.exposed_endpoints[0].wired_out_repositories, vec![0, 2]);
    assert_eq!(holger.storage_endpoints[1].wired_out_repositories, vec![1, 2]);
    assert_eq!(holger.repositories[0].wired_upstreams, vec![1, 2]);
}

#[test]
fn a_repository_can_be_wired_alone() {
    let holger = unwired_instance();
    let config = large_config();
    let mut repo = RepositoryInstance::from_config(&config.repositories[0]);
    assert_eq!(repo.wire(&config.repositories[0], &holger.storage_endpoints, &holger.exposed_endpoints), Ok(()));
    let out = repo.out_io.as_ref().unwrap();
    assert_eq!((out.wired_storage, out.wired_exposed), (Some(0), Some(0)));
    let input = repo.in_io.as_ref().unwrap();
    assert_eq!((input.wired_storage, input.wired_exposed), (Some(0), Some(1)));
    assert_eq!(rust(&repo).name, "crates1");
    assert_eq!(rust(&repo).public_url, "https://127.0.0.1:8443");
    assert!(repo.wired_upstreams.is_empty());

    let mut repo = RepositoryInstance::from_config(&config.repositories[1]);
    let mut declared = repository("mirror", io("local1", "api1"), io("local2", "nowhere"), &[]);
    assert_eq!(
        repo.wire(&declared, &holger.storage_endpoints, &holger.exposed_endpoints),
        Err(WireError::MissingExposedEndpoint { repository: "mirror".to_string(), name: "nowhere".to_string() })
    );
    assert!(repo.backend().is_none());
    assert!(repo.in_io.is_none());
    assert_eq!(repo.out_io.as_ref().unwrap().wired_storage, None);
    declared.out = None;
    repo.format = ArtifactFormat::Raw;
    assert_eq!(
        repo.wire(&declared, &holger.storage_endpoints, &holger.exposed_endpoints),
        Err(WireError::UnsupportedFormat { repository: "mirror".to_string(), format: ArtifactFormat::Raw })
    );
    assert!(repo.out_io.is_some());
}

#[test]
fn unwired_directions_copy_their_declaration() {
    let declared = InOut { storage_backend: "s".to_string(), exposed_endpoint: "e".to_string() };
    let io = RepositoryIO::from_config(&declared);
    assert_eq!(io.storage_backend, "s");
    assert_eq!(io.endpoint, "e");
    assert_eq!(io.wired_storage, None);
    assert_eq!(io.wired_exposed, None);
}

#[test]
fn the_registry_links_repositories_to_their_storages() {
    let registry = load_registry(&large_config()).unwrap();
    let names: Vec<&str> = registry.iter().map(|r| r.name.as_str()).collect();
    assert_eq!(names, vec!["crates1", "mirror", "crates2", "hidden"]);
    assert_eq!(registry[0].in_backend, Some(ResolvedStorage::ZnippyLocal { path: "/data/local1".to_string() }));
    assert_eq!(registry[0].out_backend, Some(ResolvedStorage::ZnippyLocal { path: "/data/local1".to_string() }));
    assert_eq!(registry[1].in_backend, None);
    assert_eq!(registry[1].out_backend, Some(ResolvedStorage::ZnippyLocal { path: "/data/local2".to_string() }));
    assert_eq!(registry[3].out_backend, None);

    let mut config = large_config();
    config.repositories[0].in_ = io("tape", "nowhere");
    assert_eq!(
        load_registry(&config),
        Err(WireError::MissingStorageEndpoint { repository: "crates1".to_string(), name: "tape".to_string() })
    );
    let mut config = large_config();
    config.repositories[1].out = io("local2", "nowhere");
    config.repositories[2].ty = RepositoryType::Pip;
    assert_eq!(
        load_registry(&config),
        Err(WireError::UnsupportedFormat { repository: "crates2".to_string(), format: ArtifactFormat::Pip })
    );
    config.storage_endpoints.push(storage("local2"));
    assert_eq!(load_registry(&config), Err(WireError::DuplicateStorageEndpoint { name: "local2".to_string() }));
    config.storage_endpoints[0].location = StorageLocation::S3;
    assert_eq!(
        load_registry(&config),
        Err(WireError::Storage {
            endpoint: "local1".to_string(),
            error: StorageError::MissingS3Scheme { uri: "/data/local1".to_string() }
        })
    );
}

#[test]
fn start_and_stop_reach_every_listener() {
    let mut holger = factory(&large_config()).unwrap();
    let states = |h: &HolgerInstance| -> Vec<ListenerState> {
        h.exposed_endpoints.iter().map(|e| e.backend.as_ref().unwrap().state).collect()
    };
    assert_eq!(states(&holger), vec![ListenerState::Stopped; 3]);
    holger.stop();
    assert_eq!(states(&holger), vec![ListenerState::Stopped; 3]);
    holger.start();
    assert_eq!(states(&holger), vec![ListenerState::Running; 3]);
    assert_eq!(holger.exposed_endpoints[1].backend.as_ref().unwrap().listener_addr, "registry.example:443");
    holger.stop();
    assert_eq!(states(&holger), vec![ListenerState::Stopping; 3]);
    holger.stop();
    assert_eq!(states(&holger), vec![ListenerState::Stopping; 3]);
    assert_eq!(holger.handle_request(0, "/crates1/index/config.json", b"").0, 200);
    let mut lone = ExposedEndpointInstance::new("lone".to_string(), "0.0.0.0".to_string(), 1, None);
    assert!(lone.backend.is_none());
    assert_eq!(lone.route("/crates1/x"), None);
    lone.set_backend(holger.exposed_endpoints.pop().unwrap().backend.unwrap());
    assert_eq!(lone.backend.as_ref().unwrap().name, "idle");
    lone.set_fast_routes(holger::exposed::fast_routes::FastRoutes::new(vec![("crates1".to_string(), 4)]));
    assert_eq!(lone.route("/crates1/x"), Some((4, "x")));
    holger.exposed_endpoints.push(lone);
    assert_eq!(
        holger.handle_request(2, "/crates1/index/config.json", b""),
        (500, Vec::new(), b"Internal Error".to_vec())
    );
    holger.start();
    assert_eq!(holger.exposed_endpoints[2].backend.as_ref().unwrap().state, ListenerState::Running);
}

#[test]
fn the_summary_counts_what_is_wired() {
    let mut holger = factory(&large_config()).unwrap();
    let summary = wiring_summary(&holger);
    assert!(summary.ok);
    assert!(summary.issues.is_empty());
    assert_eq!(
        summary.repositories,
        vec![
            RepositoryLine { upstreams: 2, has_in: true, has_out: true },
            RepositoryLine { upstreams: 0, has_in: false, has_out: true },
            RepositoryLine { upstreams: 1, has_in: true, has_out: true },
            RepositoryLine { upstreams: 1, has_in: true, has_out: false },
        ]
    );
    assert_eq!(
        summary.endpoints,
        vec![
            ReverseLine { wired_in: 2, wired_out: 2 },
            ReverseLine { wired_in: 1, wired_out: 1 },
            ReverseLine { wired_in: 0, wired_out: 0 },
        ]
    );
    assert_eq!(
        summary.storages,
        vec![ReverseLine { wired_in: 2, wired_out: 1 }, ReverseLine { wired_in: 1, wired_out: 2 }]
    );
    assert_eq!(summary.routes.len(), 3);
    assert!(summary.routes[0].has_routes);
    assert_eq!(
        summary.routes[0].wired,
        vec![
            RouteLine { repository: 0, backend_ready: true },
            RouteLine { repository: 2, backend_ready: true },
        ]
    );
    assert_eq!((summary.routes[0].candidates, summary.routes[0].ready, summary.routes[0].skipped), (2, 2, 0));
    assert_eq!((summary.routes[2].candidates, summary.routes[2].ready, summary.routes[2].skipped), (0, 0, 0));

    holger.repositories[2].backend = None;
    holger.exposed_endpoints[0].wired_out_repositories.push(99);
    holger.exposed_endpoints[0].fast_routes = None;
    let summary = wiring_summary(&holger);
    assert!(!summary.routes[0].has_routes);
    assert_eq!(
        summary.routes[0].wired,
        vec![
            RouteLine { repository: 0, backend_ready: true },
            RouteLine { repository: 2, backend_ready: false },
        ]
    );
    assert_eq!((summary.routes[0].candidates, summary.routes[0].ready, summary.routes[0].skipped), (2, 1, 1));
    assert_eq!(summary.endpoints[0], ReverseLine { wired_in: 2, wired_out: 3 });
}

#[test]
fn the_summary_finds_repositories_with_nothing_to_wire_to() {
    let mut holger = unwired_instance();
    holger.exposed_endpoints.clear();
    let summary = wiring_summary(&holger);
    assert!(!summary.ok);
    assert_eq!(
        summary.issues,
        vec![
            WiringIssue { repository: 0, missing: Missing::ExposedEndpoints },
            WiringIssue { repository: 1, missing: Missing::ExposedEndpoints },
            WiringIssue { repository: 2, missing: Missing::ExposedEndpoints },
        ]
    );
    holger.storage_endpoints.clear();
    let summary = wiring_summary(&holger);
    assert_eq!(summary.issues.len(), 6);
    assert_eq!(summary.issues[0], WiringIssue { repository: 0, missing: Missing::ExposedEndpoints });
    assert_eq!(summary.issues[1], WiringIssue { repository: 0, missing: Missing::StorageEndpoints });
    assert_eq!(summary.issues[5], WiringIssue { repository: 2, missing: Missing::StorageEndpoints });
    assert!(summary.endpoints.is_empty());
    assert!(summary.storages.is_empty());
    assert!(summary.routes.is_empty());
}

/// A backend from outside the library: it answers every path with its own
/// name, and fails on the path `fail`.
struct Echo {
    name: String,
}

impl RepositoryBackend for Echo {
    fn name(&self) -> &str {
        &self.name
    }

    fn format(&self) -> ArtifactFormat {
        ArtifactFormat::Raw
    }

    fn is_writable(&self) -> bool {
        true
    }

    fn fetch(&self, _id: &ArtifactId) -> FetchAnswer {
        Ok(Some(self.name.as_bytes().to_vec()))
    }

    fn put(&self, _id: &ArtifactId, _data: &[u8]) -> Result<(), RepositoryError> {
        Ok(())
    }

    fn handle_http2_request(&self, suburl: &str, body: &[u8]) -> ProtocolAnswer {
        if suburl == "fail" {
            return Err(RepositoryError::Failed { message: "no".to_string() });
        }
        let mut data = format!("{}:{}:", self.name, suburl).into_bytes();
        data.extend_from_slice(body);
        Ok((202, vec![("X-Backend".to_string(), self.name.clone())], data))
    }
}

#[test]
fn requests_are_dispatched_to_whichever_backend_a_repository_holds() {
    let mut holger = factory(&large_config()).unwrap();
    holger.repositories[1].backend = Some(Backend::RustZnippy(RustRepoZnippy::new("mirror".to_string())));
    holger.repositories[2].backend =
        Some(Backend::Custom(SharedBackend { shared: Arc::new(Echo { name: "echo".to_string() }) }));

    assert_eq!(holger.handle_request(0, "/crates1/index/se/rd/serde", b"").0, 200);
    assert_eq!(holger.handle_request(1, "/mirror/index/se/rd/serde", b""), (404, Vec::new(), Vec::new()));
    assert_eq!(holger.handle_request(1, "/mirror/index/config.json", b"").0, 200);
    assert_eq!(
        holger.handle_request(0, "/crates2/any/path", b"body"),
        (202, vec![("X-Backend".to_string(), "echo".to_string())], b"echo:any/path:body".to_vec())
    );
    assert_eq!(
        holger.handle_request(0, "/crates2/fail", b""),
        (500, Vec::new(), b"Internal Error".to_vec())
    );

    let id = ArtifactId { namespace: None, name: "x".to_string(), version: "1".to_string() };
    let custom = holger.repositories[2].backend().unwrap();
    assert_eq!(custom.name(), "echo");
    assert_eq!(custom.format(), ArtifactFormat::Raw);
    assert!(custom.is_writable());
    assert_eq!(custom.fetch(&id), Ok(Some(b"echo".to_vec())));
    assert_eq!(custom.put(&id, b"data"), Ok(()));
    let archive = holger.repositories[1].backend().unwrap();
    assert_eq!(archive.name(), "mirror");
    assert_eq!(archive.format(), ArtifactFormat::Rust);
    assert!(!archive.is_writable());
    assert_eq!(archive.fetch(&id), Ok(None));
    assert_eq!(archive.put(&id, b"data"), Err(RepositoryError::ReadOnly { repository: "mirror".to_string() }));
    let plain = holger.repositories[0].backend().unwrap();
    assert_eq!(plain.name(), "crates1");
    assert_eq!(plain.format(), ArtifactFormat::Rust);
    assert!(plain.is_writable());
    let read_only = holger.repositories[1].backend.take();
    holger.repositories[1].backend = Some(Backend::Rust(RustRepo::new("mirror".to_string())));
    let bare = holger.repositories[1].backend().unwrap();
    assert!(!bare.is_writable());
    assert_eq!(bare.put(&id, b"data"), Err(RepositoryError::ReadOnly { repository: "mirror".to_string() }));
    assert!(read_only.is_some());
    let plain = holger.repositories[0].backend().unwrap();
    assert_eq!(plain.put(&id, b"data"), Ok(()));
    assert_eq!(
        plain.handle_http2_request("crates/serde/1.0.0/download", b"").unwrap().2,
        b"FAKE_CRATE_CONTENT".to_vec()
    );

    let summary = wiring_summary(&holger);
    assert_eq!((summary.routes[0].candidates, summary.routes[0].ready), (2, 2));
}
