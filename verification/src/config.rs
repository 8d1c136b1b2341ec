//! From a declarative configuration to a running instance.

use vstd::prelude::*;
use vstd::string::*;
use crate::exposed::http2::{internal_error, listener_address, not_found, respond, responds_with};
use crate::exposed::http2::ListenerState;
use crate::exposed::{sub_path, ExposedEndpointInstance};
use crate::repository::types::{ProtocolAnswer, RepositoryInstance};
use crate::search::{first_where, lemma_first_where_is};
use crate::storage::{storage_resolvable, storage_resolves, StorageEndpointInstance};
use crate::text::{COLON, SLASH};
use crate::text::{decimal_u16, find_from, index_of, occurs_at, utf8};
use crate::text::{find_byte_from, find_triple_from, parse_u16, slice_str};
use crate::text::{lemma_ascii_byte_is_boundary, lemma_find_from_bounds, lemma_find_from_is};
use crate::text::{lemma_index_of_bounds, lemma_index_of_unique};
use crate::types::{HolgerConfig, StorageEndpoint};
use crate::wiring::{Declarations, WireError, WireProblem};
use crate::wiring::problems::wiring_problem;
use crate::wiring::resolve::{declared, endpoint_names, storage_names};
use crate::wiring::wire_holger;

verus! {

/// The text `://` that ends the scheme of a URL.
pub open spec fn scheme_separator() -> Seq<u8> {
    seq![COLON, SLASH, SLASH]
}

/// Whether a URL names its scheme: whether `://` occurs in it.
pub open spec fn has_scheme(url: Seq<u8>) -> bool {
    find_from(url, scheme_separator(), 0) < url.len()
}

/// The authority of a URL, the text that holds host and port: what follows
/// the first `://`, up to the first `/` after it or to the end.  In a URL
/// without `://` it begins with the URL.
pub open spec fn url_authority(url: Seq<u8>) -> Seq<u8> {
    let rest = if has_scheme(url) {
        url.skip(find_from(url, scheme_separator(), 0) + 3)
    } else {
        url
    };
    rest.take(index_of(rest, SLASH))
}

/// The host of a URL: the authority up to its first `:`.  Without `://` the
/// host is `127.0.0.1`.
pub open spec fn url_host(url: Seq<u8>) -> Seq<u8> {
    if has_scheme(url) {
        url_authority(url).take(index_of(url_authority(url), COLON))
    } else {
        "127.0.0.1".spec_bytes()
    }
}

/// The port of a URL: the decimal number that follows the first `:` of the
/// authority and ends with the authority; 443 when the authority has no `:`
/// or no number stands there.
pub open spec fn url_port(url: Seq<u8>) -> u16 {
    let authority = url_authority(url);
    let colon = index_of(authority, COLON);
    if colon < authority.len() {
        match decimal_u16(authority.skip(colon + 1)) {
            Some(port) => port,
            None => 443,
        }
    } else {
        443
    }
}

/// What follows the host and port is not looked at.  A URL that ends with
/// its authority keeps its authority, its host and its port when a path is
/// written after it.
pub proof fn path_does_not_change_host_and_port(url: Seq<u8>, path: Seq<u8>)
    requires
        has_scheme(url),
        !url.skip(find_from(url, scheme_separator(), 0) + 3).contains(SLASH),
        path.len() > 0 ==> path[0] == SLASH,
    ensures
        has_scheme(url + path),
        url_authority(url + path) == url_authority(url),
        url_authority(url) == url.skip(find_from(url, scheme_separator(), 0) + 3),
        url_host(url + path) == url_host(url),
        url_port(url + path) == url_port(url),
{
    let sep = scheme_separator();
    let at = find_from(url, sep, 0);
    let whole = url + path;
    lemma_find_from_bounds(url, sep, 0);
    assert(occurs_at(whole, sep, at)) by {
        assert(whole.subrange(at, at + 3) =~= url.subrange(at, at + 3));
    }
    assert forall|k: int| 0 <= k < at implies !occurs_at(whole, sep, k) by {
        assert(!occurs_at(url, sep, k));
        assert(whole.subrange(k, k + 3) =~= url.subrange(k, k + 3));
    }
    lemma_find_from_is(whole, sep, 0, at);
    let authority = url.skip(at + 3);
    assert(whole.skip(at + 3) =~= authority + path);
    assert forall|k: int| 0 <= k < authority.len() implies authority[k] != SLASH by {
        if authority[k] == SLASH {
            assert(authority.contains(SLASH));
        }
    }
    lemma_index_of_unique(authority, SLASH, authority.len() as int);
    assert forall|k: int| 0 <= k < authority.len() implies (authority + path)[k] != SLASH by {
        assert((authority + path)[k] == authority[k]);
    }
    if path.len() > 0 {
        assert((authority + path)[authority.len() as int] == path[0]);
    }
    lemma_index_of_unique(authority + path, SLASH, authority.len() as int);
    assert(authority.take(authority.len() as int) =~= authority);
    assert((authority + path).take(authority.len() as int) =~= authority);
}

/// Reads host and port from a URL of the form `scheme://host[:port]/...`.
/// What follows the first `/` after the host and port is not looked at.
pub fn parse_ip_port(url: &str) -> (r: (String, u16))
    ensures
        utf8(r.0@) == url_host(url.spec_bytes()),
        r.1 == url_port(url.spec_bytes()),
{
    let bytes = url.as_bytes();
    let at: usize = find_triple_from(bytes, 0, COLON, SLASH, SLASH);
    proof {
        vstd::utf8::encode_utf8_valid_utf8(url@);
        vstd::utf8::is_char_boundary_start_end_of_seq(bytes@);
        lemma_find_from_bounds(bytes@, scheme_separator(), 0);
    }
    let named: bool = at < bytes.len();
    let rest: &str = if named {
        proof {
            let window = bytes@.subrange(at as int, at + 3);
            assert(window[2] == SLASH);
            lemma_ascii_byte_is_boundary(bytes@, at + 2);
            assert(bytes@.subrange(at + 3, bytes@.len() as int) =~= bytes@.skip(at + 3));
        }
        slice_str(url, at + 3, bytes.len())
    } else {
        url
    };
    let rest_bytes = rest.as_bytes();
    let end: usize = find_byte_from(rest_bytes, 0, SLASH);
    proof {
        assert(rest_bytes@.skip(0) =~= rest_bytes@);
        lemma_index_of_bounds(rest_bytes@, SLASH);
        vstd::utf8::encode_utf8_valid_utf8(rest@);
        vstd::utf8::is_char_boundary_start_end_of_seq(rest_bytes@);
        if end < rest_bytes@.len() {
            lemma_ascii_byte_is_boundary(rest_bytes@, end as int);
        }
        assert(rest_bytes@.subrange(0, end as int) =~= rest_bytes@.take(end as int));
    }
    let authority = slice_str(rest, 0, end);
    assert(authority.spec_bytes() == url_authority(url.spec_bytes()));
    let text = authority.as_bytes();
    let colon: usize = find_byte_from(text, 0, COLON);
    proof {
        assert(text@.skip(0) =~= text@);
        lemma_index_of_bounds(text@, COLON);
        vstd::utf8::encode_utf8_valid_utf8(authority@);
        vstd::utf8::is_char_boundary_start_end_of_seq(text@);
        if colon < text@.len() {
            lemma_ascii_byte_is_boundary(text@, colon as int);
        }
        assert(text@.subrange(0, colon as int) =~= text@.take(colon as int));
    }
    let host: String = if named {
        slice_str(authority, 0, colon).to_owned()
    } else {
        "127.0.0.1".to_owned()
    };
    let port: u16 = if colon < text.len() {
        proof {
            assert(text@.subrange(colon + 1, text@.len() as int) =~= text@.skip(colon + 1));
        }
        match parse_u16(slice_str(authority, colon + 1, text.len()).as_bytes()) {
            Some(port) => port,
            None => 443,
        }
    } else {
        443
    };
    (host, port)
}

/// A whole gateway: its exposed endpoints, its storage endpoints and its
/// repositories.  Repositories, endpoints and storages refer to each other
/// by position in these three lists.
pub struct HolgerInstance {
    pub exposed_endpoints: Vec<ExposedEndpointInstance>,
    pub storage_endpoints: Vec<StorageEndpointInstance>,
    pub repositories: Vec<RepositoryInstance>,
}

impl HolgerConfig {
    /// What the configuration declares.
    pub open spec fn declarations(self) -> Declarations {
        Declarations {
            storages: Seq::new(
                self.storage_endpoints@.len(),
                |i: int| self.storage_endpoints@[i].name@,
            ),
            endpoints: Seq::new(
                self.exposed_endpoints@.len(),
                |i: int| self.exposed_endpoints@[i].name@,
            ),
            repositories: Seq::new(
                self.repositories@.len(),
                |i: int| self.repositories@[i].declaration(),
            ),
        }
    }
}

/// Whether the storage declaration at a position does not resolve.
pub open spec fn is_unresolvable(storages: Seq<StorageEndpoint>) -> spec_fn(int) -> bool {
    |i: int| !storage_resolvable(storages[i])
}

/// The position of the first storage declaration that does not resolve, or
/// the number of storage declarations when all resolve.
pub open spec fn first_unresolvable(storages: Seq<StorageEndpoint>) -> int {
    first_where(storages.len() as int, is_unresolvable(storages))
}

/// The first problem of a configuration: the first storage declaration
/// that does not resolve, then the first wiring problem of what it
/// declares.  A configuration without a problem builds.
pub open spec fn config_problem(config: HolgerConfig) -> Option<WireProblem> {
    let storages = config.storage_endpoints@;
    let at = first_unresolvable(storages);
    if at < storages.len() {
        Some(WireProblem::Storage { endpoint: storages[at].name@ })
    } else {
        wiring_problem(config.declarations())
    }
}

impl HolgerInstance {
    /// Whether the instance holds what `config` declares: the same names
    /// in the same order, every storage resolved, every endpoint at the
    /// host and port of its URL prefix with a stopped listener.
    pub open spec fn built_from(self, config: HolgerConfig) -> bool {
        &&& self.declarations() == config.declarations()
        &&& forall|s: int|
            0 <= s < self.storage_endpoints@.len() ==> storage_resolves(
                config.storage_endpoints@[s],
                Ok((#[trigger] self.storage_endpoints@[s]).storage),
            )
        &&& forall|e: int|
            0 <= e < self.exposed_endpoints@.len() ==> {
                let endpoint = #[trigger] self.exposed_endpoints@[e];
                let url = utf8(config.exposed_endpoints@[e].url_prefix@);
                &&& endpoint.url_prefix@ == config.exposed_endpoints@[e].url_prefix@
                &&& utf8(endpoint.ip@) == url_host(url)
                &&& endpoint.port == url_port(url)
                &&& endpoint.backend is Some
                &&& endpoint.backend->0.name@ == endpoint.name@
                &&& endpoint.backend->0.state == ListenerState::Stopped
                &&& endpoint.backend->0.port == endpoint.port
                &&& utf8(endpoint.backend->0.listener_addr@) == listener_address(
                    url_host(url),
                    endpoint.port,
                )
            }
        &&& forall|r: int|
            0 <= r < self.repositories@.len() ==> (#[trigger] self.repositories@[r]).repo_type
                == config.repositories@[r].ty
    }
}

/// Builds the instance that a configuration declares.
///
/// The storage endpoints and the exposed endpoints are made first, then
/// the repositories, then everything is wired.  The build fails as a whole
/// on the first problem of the configuration; no instance is returned then.
pub fn factory(config: &HolgerConfig) -> (r: Result<HolgerInstance, WireError>)
    ensures
        match r {
            Ok(holger) => config_problem(*config) is None && holger.wired() && holger.built_from(
                *config,
            ),
            Err(e) => config_problem(*config) == Some(e@),
        },
        r matches Err(WireError::Storage { endpoint, error }) ==> storage_resolves(
            config.storage_endpoints@[first_unresolvable(config.storage_endpoints@)],
            Err(error),
        ),
{
    let ghost unresolvable = is_unresolvable(config.storage_endpoints@);
    let mut storage_endpoints: Vec<StorageEndpointInstance> = Vec::new();
    let mut s: usize = 0;
    while s < config.storage_endpoints.len()
        invariant
            s <= config.storage_endpoints@.len(),
            unresolvable == is_unresolvable(config.storage_endpoints@),
            storage_endpoints@.len() == s,
            forall|k: int| 0 <= k < s ==> !#[trigger] unresolvable(k),
            forall|k: int|
                0 <= k < s ==> (#[trigger] storage_endpoints@[k]).name@
                    == config.storage_endpoints@[k].name@ && storage_resolves(
                    config.storage_endpoints@[k],
                    Ok(storage_endpoints@[k].storage),
                ) && storage_endpoints@[k].wired_in_repositories@.len() == 0
                    && storage_endpoints@[k].wired_out_repositories@.len() == 0,
        decreases config.storage_endpoints@.len() - s,
    {
        match StorageEndpointInstance::from_config(&config.storage_endpoints[s]) {
            Ok(instance) => {
                storage_endpoints.push(instance);
            },
            Err(error) => {
                proof {
                    assert(unresolvable(s as int));
                    lemma_first_where_is(
                        config.storage_endpoints@.len() as int,
                        unresolvable,
                        s as int,
                    );
                }
                return Err(
                    WireError::Storage { endpoint: config.storage_endpoints[s].name.clone(), error },
                );
            },
        }
        s += 1;
    }
    proof {
        lemma_first_where_is(config.storage_endpoints@.len() as int, unresolvable, s as int);
    }
    let mut exposed_endpoints: Vec<ExposedEndpointInstance> = Vec::new();
    let mut e: usize = 0;
    while e < config.exposed_endpoints.len()
        invariant
            e <= config.exposed_endpoints@.len(),
            exposed_endpoints@.len() == e,
            forall|k: int|
                0 <= k < e ==> {
                    let endpoint = #[trigger] exposed_endpoints@[k];
                    let url = utf8(config.exposed_endpoints@[k].url_prefix@);
                    &&& endpoint.name@ == config.exposed_endpoints@[k].name@
                    &&& endpoint.url_prefix@ == config.exposed_endpoints@[k].url_prefix@
                    &&& utf8(endpoint.ip@) == url_host(url)
                    &&& endpoint.port == url_port(url)
                    &&& endpoint.backend is Some
                    &&& endpoint.backend->0.name@ == endpoint.name@
                    &&& endpoint.backend->0.state == ListenerState::Stopped
                    &&& endpoint.backend->0.port == endpoint.port
                    &&& utf8(endpoint.backend->0.listener_addr@) == listener_address(
                        url_host(url),
                        endpoint.port,
                    )
                },
        decreases config.exposed_endpoints@.len() - e,
    {
        exposed_endpoints.push(ExposedEndpointInstance::from_config(&config.exposed_endpoints[e]));
        e += 1;
    }
    let mut repositories: Vec<RepositoryInstance> = Vec::new();
    let mut i: usize = 0;
    while i < config.repositories.len()
        invariant
            i <= config.repositories@.len(),
            repositories@.len() == i,
            forall|k: int|
                0 <= k < i ==> (#[trigger] repositories@[k]).declaration()
                    == config.repositories@[k].declaration() && repositories@[k].repo_type
                    == config.repositories@[k].ty,
        decreases config.repositories@.len() - i,
    {
        repositories.push(RepositoryInstance::from_config(&config.repositories[i]));
        i += 1;
    }
    let mut holger = HolgerInstance { exposed_endpoints, storage_endpoints, repositories };
    proof {
        assert(storage_names(holger.storage_endpoints@) =~= config.declarations().storages);
        assert(endpoint_names(holger.exposed_endpoints@) =~= config.declarations().endpoints);
        assert(declared(holger.repositories@) =~= config.declarations().repositories);
        assert(holger.declarations() == config.declarations());
    }
    let ghost shell = holger;
    match wire_holger(&mut holger) {
        Ok(()) => {
            proof {
                assert forall|k: int| 0 <= k < holger.storage_endpoints@.len() implies storage_resolves(
                    config.storage_endpoints@[k],
                    Ok((#[trigger] holger.storage_endpoints@[k]).storage),
                ) by {
                    assert(crate::wiring::graph::storage_kinds(holger.storage_endpoints@)[k]
                        == crate::wiring::graph::storage_kinds(shell.storage_endpoints@)[k]);
                }
                assert forall|k: int| 0 <= k < holger.exposed_endpoints@.len() implies {
                    let endpoint = #[trigger] holger.exposed_endpoints@[k];
                    let url = utf8(config.exposed_endpoints@[k].url_prefix@);
                    &&& endpoint.url_prefix@ == config.exposed_endpoints@[k].url_prefix@
                    &&& utf8(endpoint.ip@) == url_host(url)
                    &&& endpoint.port == url_port(url)
                    &&& endpoint.backend is Some
                    &&& endpoint.backend->0.name@ == endpoint.name@
                    &&& endpoint.backend->0.state == ListenerState::Stopped
                    &&& endpoint.backend->0.port == endpoint.port
                    &&& utf8(endpoint.backend->0.listener_addr@) == listener_address(
                        url_host(url),
                        endpoint.port,
                    )
                } by {
                    assert(crate::wiring::graph::endpoint_urls(holger.exposed_endpoints@)[k]
                        == crate::wiring::graph::endpoint_urls(shell.exposed_endpoints@)[k]);
                    assert(shell.exposed_endpoints@[k].backend is Some);
                    assert(endpoint_names(holger.exposed_endpoints@)[k] == endpoint_names(
                        shell.exposed_endpoints@,
                    )[k]);
                }
            }
            Ok(holger)
        },
        Err(e) => Err(e),
    }
}

/// The step of a listener's state at `start`.
pub open spec fn starting() -> spec_fn(ListenerState) -> ListenerState {
    |state: ListenerState| state.started()
}

/// The step of a listener's state at `stop`.
pub open spec fn stopping() -> spec_fn(ListenerState) -> ListenerState {
    |state: ListenerState| state.stopped()
}

impl HolgerInstance {
    /// Starts or stops the listener of every exposed endpoint.
    fn switch_listeners(&mut self, run: bool)
        ensures
            final(self).storage_endpoints == old(self).storage_endpoints,
            final(self).repositories == old(self).repositories,
            final(self).exposed_endpoints@.len() == old(self).exposed_endpoints@.len(),
            forall|e: int|
                0 <= e < old(self).exposed_endpoints@.len() ==> #[trigger] final(self).exposed_endpoints@[e] == old(self).exposed_endpoints@[e].with_listener_state(
                    if run {
                        starting()
                    } else {
                        stopping()
                    },
                ),
    {
        let ghost next = if run {
            starting()
        } else {
            stopping()
        };
        let mut e: usize = 0;
        while e < self.exposed_endpoints.len()
            invariant
                self.storage_endpoints == old(self).storage_endpoints,
                self.repositories == old(self).repositories,
                self.exposed_endpoints@.len() == old(self).exposed_endpoints@.len(),
                e <= self.exposed_endpoints@.len(),
                next == (if run {
                    starting()
                } else {
                    stopping()
                }),
                forall|k: int|
                    e <= k < self.exposed_endpoints@.len() ==> #[trigger] self.exposed_endpoints@[k]
                        == old(self).exposed_endpoints@[k],
                forall|k: int|
                    0 <= k < e ==> #[trigger] self.exposed_endpoints@[k] == old(self).exposed_endpoints@[k].with_listener_state(next),
            decreases self.exposed_endpoints@.len() - e,
        {
            let ghost current = self.exposed_endpoints@;
            match self.exposed_endpoints[e].backend.take() {
                Some(backend) => {
                    let mut backend = backend;
                    if run {
                        backend.start();
                    } else {
                        backend.stop();
                    }
                    self.exposed_endpoints[e].backend = Some(backend);
                },
                None => {},
            }
            proof {
                assert(self.exposed_endpoints@[e as int] == current[e as int].with_listener_state(
                    next,
                ));
                assert forall|k: int| 0 <= k < e + 1 implies #[trigger] self.exposed_endpoints@[k]
                    == old(self).exposed_endpoints@[k].with_listener_state(next) by {
                    if k < e {
                        assert(self.exposed_endpoints@[k] == current[k]);
                    }
                }
                assert forall|k: int|
                    e + 1 <= k < self.exposed_endpoints@.len() implies #[trigger] self.exposed_endpoints@[k]
                    == old(self).exposed_endpoints@[k] by {
                    assert(self.exposed_endpoints@[k] == current[k]);
                }
            }
            e += 1;
        }
    }

    /// Marks the listener of every exposed endpoint as running.  Nothing
    /// else changes.
    pub fn start(&mut self)
        ensures
            final(self).storage_endpoints == old(self).storage_endpoints,
            final(self).repositories == old(self).repositories,
            final(self).exposed_endpoints@.len() == old(self).exposed_endpoints@.len(),
            forall|e: int|
                0 <= e < old(self).exposed_endpoints@.len() ==> #[trigger] final(self).exposed_endpoints@[e] == old(self).exposed_endpoints@[e].with_listener_state(
                    starting(),
                ),
    {
        self.switch_listeners(true);
    }

    /// Asks the listener of every exposed endpoint to stop.  Nothing else
    /// changes: requests in flight are not cancelled, and every accept loop
    /// ends when it next checks.
    pub fn stop(&mut self)
        ensures
            final(self).storage_endpoints == old(self).storage_endpoints,
            final(self).repositories == old(self).repositories,
            final(self).exposed_endpoints@.len() == old(self).exposed_endpoints@.len(),
            forall|e: int|
                0 <= e < old(self).exposed_endpoints@.len() ==> #[trigger] final(self).exposed_endpoints@[e] == old(self).exposed_endpoints@[e].with_listener_state(
                    stopping(),
                ),
    {
        self.switch_listeners(false);
    }

    /// The repository that a request to the exposed endpoint `endpoint` is
    /// routed to, by position.
    pub open spec fn routed(self, endpoint: int, path: Seq<u8>) -> Option<usize> {
        if 0 <= endpoint < self.exposed_endpoints@.len() {
            self.exposed_endpoints@[endpoint].routed(path)
        } else {
            None
        }
    }

    /// Whether status, headers and body answer a request for `path` with the
    /// body `request` at the exposed endpoint `endpoint`.  A path that is
    /// routed nowhere is answered with 404 and a fixed body.  Else the
    /// backend of the repository that it is routed to is asked for the path
    /// below its name, and what it answers is the response; its failure is
    /// answered for with 500 and a fixed body, and so is a route without a
    /// repository or a repository without a backend.
    pub open spec fn answers_request(
        self,
        endpoint: int,
        path: Seq<u8>,
        request: Seq<u8>,
        status: u16,
        headers: Seq<(String, String)>,
        body: Seq<u8>,
    ) -> bool {
        match self.routed(endpoint, path) {
            None => status == 404 && headers.len() == 0 && body == "Repo Not Found".spec_bytes(),
            Some(at) => if at < self.repositories@.len() && self.repositories@[at as int].backend
                is Some {
                exists|answer: ProtocolAnswer| #[trigger]
                    self.repositories@[at as int].backend->0.responds(
                        sub_path(path),
                        request,
                        answer,
                    ) && responds_with(answer, status, headers, body)
            } else {
                status == 500 && headers.len() == 0 && body == "Internal Error".spec_bytes()
            },
        }
    }

    /// Answers one request to an exposed endpoint.  The first segment of
    /// the path selects the repository; a path that selects none is
    /// answered with 404.  The backend of the repository answers for the
    /// path below its name; a backend that fails is answered for with 500.
    pub fn handle_request(&self, endpoint: usize, path: &str, body: &[u8]) -> (r: (
        u16,
        Vec<(String, String)>,
        Vec<u8>,
    ))
        ensures
            self.answers_request(endpoint as int, path.spec_bytes(), body@, r.0, r.1@, r.2@),
    {
        if endpoint >= self.exposed_endpoints.len() {
            return not_found();
        }
        match self.exposed_endpoints[endpoint].route(path) {
            None => not_found(),
            Some((at, below)) => {
                if at >= self.repositories.len() {
                    return internal_error();
                }
                match &self.repositories[at].backend {
                    Some(backend) => {
                        let answer = backend.handle_http2_request(below, body);
                        assert(self.repositories@[at as int].backend->0.responds(
                            sub_path(path.spec_bytes()),
                            body@,
                            answer,
                        ));
                        respond(answer)
                    },
                    None => internal_error(),
                }
            },
        }
    }
}

} // verus!
