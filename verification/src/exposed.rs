//! Exposed endpoints: the named listeners through which repositories are
//! reached.

pub mod fast_routes;
pub mod http2;

use vstd::prelude::*;
use vstd::string::*;
use crate::config::{parse_ip_port, url_host, url_port};
use crate::exposed::fast_routes::{first_named, FastRoutes};
use crate::exposed::http2::{listener_address, Http2Backend, ListenerState};
use crate::text::{find_byte_from, index_of, slice_str, str_trim_start, trim_start, utf8};
use crate::text::{lemma_ascii_byte_is_boundary, lemma_index_of_bounds};
use crate::text::SLASH;
use crate::types::ExposedEndpoint;

verus! {

/// An exposed endpoint of an instance: its address, its listener, its
/// routing table, and the repositories that are wired through it.
#[derive(Debug)]
pub struct ExposedEndpointInstance {
    pub name: String,
    /// The URL prefix under which the endpoint is reached from outside.
    pub url_prefix: String,
    pub ip: String,
    pub port: u16,
    pub backend: Option<Http2Backend>,
    /// The routing table; absent until the repositories are wired.  Every
    /// route leads to the position of a repository.
    pub fast_routes: Option<FastRoutes<usize>>,
    /// Positions of the repositories whose input side uses this endpoint.
    pub wired_in_repositories: Vec<usize>,
    /// Positions of the repositories whose output side uses this endpoint.
    pub wired_out_repositories: Vec<usize>,
}

/// The routing key of a request path: its first segment, leading slashes
/// not counted.
pub open spec fn routing_key(path: Seq<u8>) -> Seq<u8> {
    let p = trim_start(path, SLASH);
    p.take(index_of(p, SLASH))
}

/// The part of a request path below its routing key: what follows the `/`
/// after the key; empty when nothing does.
pub open spec fn sub_path(path: Seq<u8>) -> Seq<u8> {
    let p = trim_start(path, SLASH);
    if index_of(p, SLASH) < p.len() {
        p.skip(index_of(p, SLASH) + 1)
    } else {
        Seq::empty()
    }
}

/// The path of a request for `below` at the repository `name`: `/name/below`.
pub open spec fn request_path(name: Seq<u8>, below: Seq<u8>) -> Seq<u8> {
    seq![SLASH] + name + seq![SLASH] + below
}

/// The routing key of `/name/below` is `name`, and the path below it is
/// `below`, whenever `name` is not empty and holds no `/`.
pub proof fn lemma_request_path_routes(name: Seq<u8>, below: Seq<u8>)
    requires
        name.len() > 0,
        !name.contains(SLASH),
    ensures
        routing_key(request_path(name, below)) == name,
        sub_path(request_path(name, below)) == below,
{
    let path = request_path(name, below);
    let rest = name + seq![SLASH] + below;
    assert(path.drop_first() =~= rest);
    assert(rest[0] == name[0]);
    assert(trim_start(rest, SLASH) == rest);
    assert(trim_start(path, SLASH) == rest);
    assert forall|k: int| 0 <= k < name.len() implies rest[k] != SLASH by {
        assert(rest[k] == name[k]);
    }
    assert(rest[name.len() as int] == SLASH);
    crate::text::lemma_index_of_unique(rest, SLASH, name.len() as int);
    assert(rest.take(name.len() as int) =~= name);
    assert(rest.skip(name.len() as int + 1) =~= below);
}

/// Cuts a request path into its routing key and the path below it.
pub fn split_route<'a>(path: &'a str) -> (r: (&'a str, &'a str))
    ensures
        r.0.spec_bytes() == routing_key(path.spec_bytes()),
        r.1.spec_bytes() == sub_path(path.spec_bytes()),
{
    let p = str_trim_start(path, SLASH);
    let bytes = p.as_bytes();
    let cut: usize = find_byte_from(bytes, 0, SLASH);
    proof {
        assert(bytes@.skip(0) =~= bytes@);
        lemma_index_of_bounds(bytes@, SLASH);
        vstd::utf8::encode_utf8_valid_utf8(p@);
        vstd::utf8::is_char_boundary_start_end_of_seq(bytes@);
        if cut < bytes@.len() {
            lemma_ascii_byte_is_boundary(bytes@, cut as int);
        }
        assert(bytes@.subrange(0, cut as int) =~= bytes@.take(cut as int));
    }
    let key = slice_str(p, 0, cut);
    if cut < bytes.len() {
        proof {
            assert(bytes@.subrange(cut + 1, bytes@.len() as int) =~= bytes@.skip(cut + 1));
        }
        (key, slice_str(p, cut + 1, bytes.len()))
    } else {
        proof {
            assert(bytes@.subrange(cut as int, bytes@.len() as int) =~= Seq::<u8>::empty());
        }
        (key, slice_str(p, cut, bytes.len()))
    }
}

impl ExposedEndpointInstance {
    /// The endpoint with its listener, if it has one, in the state `next`
    /// of its state.
    pub open spec fn with_listener_state(
        self,
        next: spec_fn(ListenerState) -> ListenerState,
    ) -> ExposedEndpointInstance {
        ExposedEndpointInstance {
            backend: match self.backend {
                Some(backend) => Some(Http2Backend { state: next(backend.state), ..backend }),
                None => None,
            },
            ..self
        }
    }

    /// An endpoint without routes and without wired repositories.
    pub fn new(name: String, ip: String, port: u16, backend: Option<Http2Backend>) -> (endpoint:
        ExposedEndpointInstance)
        ensures
            endpoint.name@ == name@,
            endpoint.url_prefix@.len() == 0,
            endpoint.ip@ == ip@,
            endpoint.port == port,
            endpoint.backend == backend,
            endpoint.fast_routes is None,
            endpoint.wired_in_repositories@.len() == 0,
            endpoint.wired_out_repositories@.len() == 0,
    {
        ExposedEndpointInstance {
            name,
            url_prefix: String::new(),
            ip,
            port,
            backend,
            fast_routes: None,
            wired_in_repositories: Vec::new(),
            wired_out_repositories: Vec::new(),
        }
    }

    /// The unwired endpoint of a declaration, with a stopped listener for
    /// the host and port of its URL prefix.
    pub fn from_config(cfg: &ExposedEndpoint) -> (endpoint: ExposedEndpointInstance)
        ensures
            endpoint.name@ == cfg.name@,
            endpoint.url_prefix@ == cfg.url_prefix@,
            utf8(endpoint.ip@) == url_host(utf8(cfg.url_prefix@)),
            endpoint.port == url_port(utf8(cfg.url_prefix@)),
            endpoint.backend matches Some(backend) && backend.name@ == cfg.name@ && backend.port
                == endpoint.port && backend.state == ListenerState::Stopped && utf8(
                backend.listener_addr@,
            ) == listener_address(url_host(utf8(cfg.url_prefix@)), endpoint.port),
            endpoint.fast_routes is None,
            endpoint.wired_in_repositories@.len() == 0,
            endpoint.wired_out_repositories@.len() == 0,
    {
        let (ip, port) = parse_ip_port(cfg.url_prefix.as_str());
        let backend = Http2Backend::from_config(cfg.name.clone(), cfg.url_prefix.as_str());
        ExposedEndpointInstance {
            name: cfg.name.clone(),
            url_prefix: cfg.url_prefix.clone(),
            ip,
            port,
            backend: Some(backend),
            fast_routes: None,
            wired_in_repositories: Vec::new(),
            wired_out_repositories: Vec::new(),
        }
    }

    /// Attaches the routing table.  The table is built whole and swapped
    /// in; routes are never changed in place.
    pub fn set_fast_routes(&mut self, routes: FastRoutes<usize>)
        ensures
            final(self).fast_routes == Some(routes),
            final(self).name == old(self).name,
            final(self).url_prefix == old(self).url_prefix,
            final(self).ip == old(self).ip,
            final(self).port == old(self).port,
            final(self).backend == old(self).backend,
            final(self).wired_in_repositories == old(self).wired_in_repositories,
            final(self).wired_out_repositories == old(self).wired_out_repositories,
    {
        self.fast_routes = Some(routes);
    }

    /// Sets the listener.
    pub fn set_backend(&mut self, backend: Http2Backend)
        ensures
            final(self).backend == Some(backend),
            final(self).name == old(self).name,
            final(self).url_prefix == old(self).url_prefix,
            final(self).ip == old(self).ip,
            final(self).port == old(self).port,
            final(self).fast_routes == old(self).fast_routes,
            final(self).wired_in_repositories == old(self).wired_in_repositories,
            final(self).wired_out_repositories == old(self).wired_out_repositories,
    {
        self.backend = Some(backend);
    }

    /// The repository that a request path is routed to, by position.  An
    /// endpoint without a table routes nothing.
    pub open spec fn routed(&self, path: Seq<u8>) -> Option<usize> {
        match self.fast_routes {
            Some(table) => first_named(table@, routing_key(path)),
            None => None,
        }
    }

    /// Routes a request path: the position of the repository registered
    /// under the routing key of the path, and the path below the key.
    pub fn route<'a>(&self, path: &'a str) -> (r: Option<(usize, &'a str)>)
        ensures
            match r {
                Some((repository, below)) => self.routed(path.spec_bytes()) == Some(repository)
                    && below.spec_bytes() == sub_path(path.spec_bytes()),
                None => self.routed(path.spec_bytes()) is None,
            },
    {
        let (key, below) = split_route(path);
        match &self.fast_routes {
            Some(table) => match table.lookup(key) {
                Some(repository) => Some((*repository, below)),
                None => None,
            },
            None => None,
        }
    }
}

} // verus!
