//! The HTTP/2 listener of an exposed endpoint: its address, its lifecycle,
//! and the fixed answers of the dispatch path.

use vstd::prelude::*;
use vstd::string::*;
use crate::config::{parse_ip_port, url_host, url_port};
use crate::repository::rust::append_text;
use crate::repository::types::ProtocolAnswer;
use crate::search::{first_where, lemma_first_where_is};
use crate::text::{append_decimal, decimal, lemma_utf8_concat, utf8};

verus! {

/// Where a listener stands in its life: stopped, starting, running,
/// stopping, and stopped again.
#[derive(Debug, Clone, Copy, PartialEq, Eq, Structural)]
pub enum ListenerState {
    /// No accept loop runs.
    Stopped,
    /// The socket is being bound.
    Starting,
    /// The accept loop runs and takes connections.
    Running,
    /// A stop was asked for.  The accept loop still waits in its accept
    /// call and keeps the socket bound; it ends when it next checks.
    Stopping,
}

impl ListenerState {
    /// The state after binding has begun: a stopped listener is starting,
    /// every other state stays as it is.
    pub open spec fn binding(self) -> ListenerState {
        match self {
            ListenerState::Stopped => ListenerState::Starting,
            other => other,
        }
    }

    /// The state after `start`: the listener is bound and runs.
    pub open spec fn started(self) -> ListenerState {
        ListenerState::Running
    }

    /// The state after `stop`: a running listener is asked to stop, every
    /// other state stays as it is.
    pub open spec fn stopped(self) -> ListenerState {
        match self {
            ListenerState::Running => ListenerState::Stopping,
            other => other,
        }
    }

    /// The state after the accept loop has checked whether to go on: a loop
    /// that was asked to stop has ended.
    pub open spec fn checked(self) -> ListenerState {
        match self {
            ListenerState::Stopping => ListenerState::Stopped,
            other => other,
        }
    }
}

/// Stopping is idempotent and cooperative.  A second `stop` changes nothing;
/// `start` followed at once by `stop` leaves the listener bound until its
/// accept loop checks again, and stopped after that check.
pub proof fn stop_is_idempotent_and_cooperative(state: ListenerState)
    ensures
        state.stopped().stopped() == state.stopped(),
        state.started().stopped() == ListenerState::Stopping,
        state.started().stopped().checked() == ListenerState::Stopped,
        state.stopped() != ListenerState::Running,
{
}

/// A listener goes through its life in order: stopped, starting, running,
/// stopping, stopped.
pub proof fn listener_life_cycle()
    ensures
        ListenerState::Stopped.binding() == ListenerState::Starting,
        ListenerState::Starting.started() == ListenerState::Running,
        ListenerState::Running.checked() == ListenerState::Running,
        ListenerState::Running.stopped() == ListenerState::Stopping,
        ListenerState::Stopping.checked() == ListenerState::Stopped,
{
}

/// The listener of an exposed endpoint.
#[derive(Debug, Clone, PartialEq, Eq)]
pub struct Http2Backend {
    pub name: String,
    /// The address to bind, as `host:port`.
    pub listener_addr: String,
    pub port: u16,
    pub state: ListenerState,
}

/// Status code of the answer to a request that no route matches.
pub const NOT_FOUND: u16 = 404;

/// Status code of the answer to a request whose backend failed.
pub const INTERNAL_ERROR: u16 = 500;

/// The answer to a request that no route matches.
pub fn not_found() -> (r: (u16, Vec<(String, String)>, Vec<u8>))
    ensures
        r.0 == 404,
        r.1@.len() == 0,
        r.2@ == "Repo Not Found".spec_bytes(),
{
    let mut body: Vec<u8> = Vec::new();
    append_text(&mut body, "Repo Not Found");
    (NOT_FOUND, Vec::new(), body)
}

/// The answer to a request whose backend failed.
pub fn internal_error() -> (r: (u16, Vec<(String, String)>, Vec<u8>))
    ensures
        r.0 == 500,
        r.1@.len() == 0,
        r.2@ == "Internal Error".spec_bytes(),
{
    let mut body: Vec<u8> = Vec::new();
    append_text(&mut body, "Internal Error");
    (INTERNAL_ERROR, Vec::new(), body)
}

/// Whether status, headers and body are the response to what a backend
/// answered: its own status, headers and body, or status 500 with a fixed
/// body when it failed.
pub open spec fn responds_with(
    answer: ProtocolAnswer,
    status: u16,
    headers: Seq<(String, String)>,
    body: Seq<u8>,
) -> bool {
    match answer {
        Ok((s, h, b)) => status == s && headers == h@ && body == b@,
        Err(_) => status == 500 && headers.len() == 0 && body == "Internal Error".spec_bytes(),
    }
}

/// Turns what a backend answered into the response to send: its own status,
/// headers and body, or status 500 with a fixed body when it failed.
pub fn respond(answer: ProtocolAnswer) -> (r: (u16, Vec<(String, String)>, Vec<u8>))
    ensures
        answer matches Ok(response) ==> r == response,
        responds_with(answer, r.0, r.1@, r.2@),
{
    match answer {
        Ok(response) => response,
        Err(_) => internal_error(),
    }
}

/// The address `host:port` as text.
pub open spec fn listener_address(host: Seq<u8>, port: u16) -> Seq<u8> {
    host + utf8(":"@) + utf8(decimal(port as nat))
}

impl Http2Backend {
    /// A stopped listener.
    pub fn new(name: String, listener_addr: String, port: u16) -> (backend: Http2Backend)
        ensures
            backend.name@ == name@,
            backend.listener_addr@ == listener_addr@,
            backend.port == port,
            backend.state == ListenerState::Stopped,
    {
        Http2Backend { name, listener_addr, port, state: ListenerState::Stopped }
    }

    /// Reads host and port from a URL of the form `scheme://host[:port]/`.
    pub fn parse_ip_port(url: &str) -> (r: (String, u16))
        ensures
            utf8(r.0@) == url_host(url.spec_bytes()),
            r.1 == url_port(url.spec_bytes()),
    {
        parse_ip_port(url)
    }

    /// The stopped listener of the endpoint `name` at `url_prefix`: it binds
    /// the host and port of the URL.
    pub fn from_config(name: String, url_prefix: &str) -> (backend: Http2Backend)
        ensures
            backend.name@ == name@,
            backend.port == url_port(url_prefix.spec_bytes()),
            backend.state == ListenerState::Stopped,
            utf8(backend.listener_addr@) == listener_address(
                url_host(url_prefix.spec_bytes()),
                backend.port,
            ),
    {
        let (host, port) = parse_ip_port(url_prefix);
        let ghost host_text = host@;
        let mut listener_addr = host;
        listener_addr.append(":");
        append_decimal(&mut listener_addr, port);
        proof {
            assert(listener_addr@ == host_text + ":"@ + decimal(port as nat));
            lemma_utf8_concat(host_text + ":"@, decimal(port as nat));
            lemma_utf8_concat(host_text, ":"@);
        }
        Http2Backend { name, listener_addr, port, state: ListenerState::Stopped }
    }

    /// Marks the listener as starting: its socket is about to be bound.
    pub fn begin_start(&mut self)
        ensures
            final(self).state == old(self).state.binding(),
            final(self).name == old(self).name,
            final(self).listener_addr == old(self).listener_addr,
            final(self).port == old(self).port,
    {
        match self.state {
            ListenerState::Stopped => {
                self.state = ListenerState::Starting;
            },
            _ => {},
        }
    }

    /// Marks the listener as running.
    pub fn start(&mut self)
        ensures
            final(self).state == old(self).state.started(),
            final(self).name == old(self).name,
            final(self).listener_addr == old(self).listener_addr,
            final(self).port == old(self).port,
    {
        self.state = ListenerState::Running;
    }

    /// Asks the listener to stop.  The accept loop ends when it next checks.
    pub fn stop(&mut self)
        ensures
            final(self).state == old(self).state.stopped(),
            final(self).name == old(self).name,
            final(self).listener_addr == old(self).listener_addr,
            final(self).port == old(self).port,
    {
        match self.state {
            ListenerState::Running => {
                self.state = ListenerState::Stopping;
            },
            _ => {},
        }
    }

    /// The check that the accept loop makes before it accepts again: whether
    /// to go on.  A loop that was asked to stop ends here.
    pub fn keep_accepting(&mut self) -> (go_on: bool)
        ensures
            final(self).state == old(self).state.checked(),
            go_on == (old(self).state == ListenerState::Running),
            final(self).name == old(self).name,
            final(self).listener_addr == old(self).listener_addr,
            final(self).port == old(self).port,
    {
        match self.state {
            ListenerState::Running => true,
            ListenerState::Stopping => {
                self.state = ListenerState::Stopped;
                false
            },
            _ => false,
        }
    }

    /// Whether the listener takes connections.
    pub fn is_running(&self) -> (running: bool)
        ensures
            running == (self.state == ListenerState::Running),
    {
        match self.state {
            ListenerState::Running => true,
            _ => false,
        }
    }
}

/// What an item of a PEM file holds, as far as the choice of a private key
/// goes.
#[derive(Debug, Clone, Copy, PartialEq, Eq, Structural)]
pub enum PemItemKind {
    /// A PKCS#8 private key.
    Pkcs8Key,
    /// An RSA private key.
    RsaKey,
    /// An elliptic-curve private key.
    EcKey,
    /// Anything that is no private key.
    Other,
}

/// Whether the item at a position is a private key.
pub open spec fn is_private_key(items: Seq<PemItemKind>) -> spec_fn(int) -> bool {
    |i: int| items[i] != PemItemKind::Other
}

/// Chooses the private key of a PEM file: the first item that is a private
/// key of any kind.  A file without one has no key.
pub fn first_private_key(items: &[PemItemKind]) -> (key: Option<usize>)
    ensures
        match key {
            Some(at) => at == first_where(items@.len() as int, is_private_key(items@)) && at
                < items@.len(),
            None => first_where(items@.len() as int, is_private_key(items@)) == items@.len(),
        },
{
    let ghost found = is_private_key(items@);
    let mut i: usize = 0;
    while i < items.len()
        invariant
            i <= items@.len(),
            found == is_private_key(items@),
            forall|k: int| 0 <= k < i ==> !#[trigger] found(k),
        decreases items@.len() - i,
    {
        match items[i] {
            PemItemKind::Other => {},
            _ => {
                proof {
                    assert(found(i as int));
                    lemma_first_where_is(items@.len() as int, found, i as int);
                }
                return Some(i);
            },
        }
        i += 1;
    }
    proof {
        lemma_first_where_is(items@.len() as int, found, i as int);
    }
    None
}

} // verus!
