//! Transport-agnostic peer handles: the capability interfaces routing and
//! the manager operate through, and the stream-transport implementations
//! of them. The network calls themselves (probing, connecting, the accept
//! and send loops) belong to the runtime shell; here stand the peer data,
//! the address bookkeeping, and their contracts.

use vstd::prelude::*;
use vstd::string::*;

use crate::bundle::Bundle;
use crate::endpoint::EndpointId;

verus! {

/// A transport's activation surface: a stable descriptive address for
/// deduplication and logging. Running the transport's main loop is the
/// runtime shell's job.
pub trait ConvergenceLayer: Sized {
    fn address(&self) -> String;
}

/// A transport-agnostic handle to a remote node. Implementations add the
/// reachability probe and activation on the shell side; the identity,
/// transport tag and address are plain data and stand here.
pub trait ClaPeer: Sized {
    /// The peer's identity, as a character sequence.
    spec fn spec_peer_eid(&self) -> Seq<char>;

    /// The peer's endpoint identity.
    fn get_peer_endpoint_id(&self) -> (r: EndpointId)
        ensures
            r@ == self.spec_peer_eid(),
    ;

    /// The transport tag for this peer, e.g. `tcp`.
    fn get_cla_type(&self) -> &str;

    /// The connection address or identifier for this peer.
    fn get_connection_address(&self) -> String;

    /// An owned copy of this handle with the same identity, so a peer
    /// snapshot can be taken without holding a registry lock.
    fn clone_peer(&self) -> (r: Self)
        ensures
            r.spec_peer_eid() == self.spec_peer_eid(),
    ;
}

/// Connection details of one stream-transport peer. Probe results
/// (reachability, timings in microseconds, observed socket addresses) are
/// filled in by the runtime shell after a connection attempt.
#[derive(Debug)]
pub struct TcpConnectionInfo {
    pub address: String,
    pub port: u16,
    pub latency_micros: Option<u64>,
    pub connection_time_micros: Option<u64>,
    pub is_reachable: bool,
    pub local_addr: Option<String>,
    pub remote_addr: Option<String>,
}

/// The port encoded after the last `:` of an address string, or zero when
/// there is none or it does not parse as a 16-bit number.
pub open spec fn spec_port_of(s: Seq<char>) -> u16 {
    if exists|i: int| 0 <= i < s.len() && s[i] == ':' {
        let i = choose|i: int|
            0 <= i < s.len() && s[i] == ':' && forall|j: int| i < j < s.len() ==> s[j] != ':';
        crate::text::spec_parse_u16_or_zero(s.subrange(i + 1, s.len() as int))
    } else {
        0
    }
}

impl Clone for TcpConnectionInfo {
    fn clone(&self) -> (r: Self)
        ensures
            r.address@ == self.address@,
            r.port == self.port,
            r.latency_micros == self.latency_micros,
            r.connection_time_micros == self.connection_time_micros,
            r.is_reachable == self.is_reachable,
            self.local_addr matches Some(a) ==> r.local_addr matches Some(b) && b@ == a@,
            self.local_addr is None ==> r.local_addr is None,
            self.remote_addr matches Some(a) ==> r.remote_addr matches Some(b) && b@ == a@,
            self.remote_addr is None ==> r.remote_addr is None,
    {
        TcpConnectionInfo {
            address: self.address.clone(),
            port: self.port,
            latency_micros: self.latency_micros,
            connection_time_micros: self.connection_time_micros,
            is_reachable: self.is_reachable,
            local_addr: match &self.local_addr {
                Some(a) => Some(a.clone()),
                None => None,
            },
            remote_addr: match &self.remote_addr {
                Some(a) => Some(a.clone()),
                None => None,
            },
        }
    }
}

impl TcpConnectionInfo {
    /// Record an address of the form `host:port`, reading the port from
    /// after the last colon; everything else starts out unprobed.
    pub fn new(address: String) -> (r: Self)
        ensures
            r.address@ == address@,
            r.port == spec_port_of(address@),
            r.latency_micros is None,
            r.connection_time_micros is None,
            !r.is_reachable,
            r.local_addr is None,
            r.remote_addr is None,
    {
        let port: u16 = match crate::text::rfind_char(address.as_str(), ':') {
            Some(colon_pos) => {
                let n = address.as_str().unicode_len();
                let tail = address.as_str().substring_char(colon_pos + 1, n);
                let p = crate::text::parse_u16_or_zero(tail);
                proof {
                    let i = choose|i: int|
                        0 <= i < address@.len() && address@[i] == ':' && forall|j: int|
                            i < j < address@.len() ==> address@[j] != ':';
                    assert(i == colon_pos as int);
                }
                p
            },
            None => 0,
        };
        TcpConnectionInfo {
            address,
            port,
            latency_micros: None,
            connection_time_micros: None,
            is_reachable: false,
            local_addr: None,
            remote_addr: None,
        }
    }
}

/// A stream-transport peer handle: identity plus dial address.
#[derive(Debug)]
pub struct TcpPeer {
    pub peer_id: EndpointId,
    pub address: String,
    pub connection_info: Option<TcpConnectionInfo>,
}

impl Clone for TcpPeer {
    fn clone(&self) -> (r: Self)
        ensures
            r.peer_id@ == self.peer_id@,
            r.address@ == self.address@,
            self.connection_info is Some <==> r.connection_info is Some,
    {
        TcpPeer {
            peer_id: self.peer_id.clone(),
            address: self.address.clone(),
            connection_info: match &self.connection_info {
                Some(info) => Some(info.clone()),
                None => None,
            },
        }
    }
}

impl TcpPeer {
    /// A peer with the given identity and dial address.
    pub fn new(peer_id: EndpointId, address: String) -> (r: Self)
        ensures
            r.peer_id@ == peer_id@,
            r.address@ == address@,
            r.connection_info is None,
    {
        TcpPeer { peer_id, address, connection_info: None }
    }

    /// A peer whose endpoint identity doubles as its dial address.
    pub fn from_endpoint_id(peer_id: EndpointId) -> (r: Self)
        ensures
            r.peer_id@ == peer_id@,
            r.address@ == peer_id@,
            r.connection_info is None,
    {
        let address = peer_id.as_str().to_owned();
        TcpPeer { peer_id, address, connection_info: None }
    }

    /// A peer for exercising the routing layer, with the endpoint
    /// identity used as the address.
    pub fn for_test(peer_id: EndpointId) -> (r: Self)
        ensures
            r.peer_id@ == peer_id@,
            r.address@ == peer_id@,
            r.connection_info is None,
    {
        Self::from_endpoint_id(peer_id)
    }

    /// Attach probed connection details.
    pub fn with_connection_info(self, info: TcpConnectionInfo) -> (r: Self)
        ensures
            r.peer_id@ == self.peer_id@,
            r.address@ == self.address@,
            r.connection_info matches Some(i) && i == info,
    {
        TcpPeer { peer_id: self.peer_id, address: self.address, connection_info: Some(info) }
    }

    /// The probed connection details, if a probe stored any.
    pub fn get_connection_info(&self) -> (r: Option<&TcpConnectionInfo>)
        ensures
            match r {
                Some(info) => self.connection_info matches Some(i) && *info == i,
                None => self.connection_info is None,
            },
    {
        self.connection_info.as_ref()
    }
}

impl ConvergenceLayer for TcpPeer {
    fn address(&self) -> (r: String)
        ensures
            r@ == self.address@,
    {
        self.address.clone()
    }
}

impl ClaPeer for TcpPeer {
    open spec fn spec_peer_eid(&self) -> Seq<char> {
        self.peer_id@
    }

    fn get_peer_endpoint_id(&self) -> (r: EndpointId) {
        self.peer_id.clone()
    }

    fn get_cla_type(&self) -> (r: &str)
        ensures
            r@ == "tcp"@,
    {
        "tcp"
    }

    fn get_connection_address(&self) -> (r: String)
        ensures
            self.connection_info matches Some(info) ==> r@ == info.address@ + ":"@
                + crate::text::dec_chars_of(info.port as nat),
            self.connection_info is None ==> r@ == self.address@,
    {
        match &self.connection_info {
            Some(info) => {
                let digits = crate::text::u64_dec_bytes(info.port as u64);
                proof {
                    crate::text::lemma_dec_bytes_ascii(info.port as nat);
                }
                let digits_str = crate::text::ascii_to_string(digits);
                let mut r = info.address.clone();
                r.append(":");
                r.append(digits_str.as_str());
                r
            },
            None => self.address.clone(),
        }
    }

    fn clone_peer(&self) -> (r: Self) {
        self.clone()
    }
}

/// The dialing side of the stream transport: on activation the shell
/// connects to `target_addr`, sends every stored bundle as one frame, and
/// dispatches each bundle whose acknowledgment read did not fail.
#[derive(Debug)]
pub struct TcpClaClient {
    pub target_addr: String,
    pub connection_info: Option<TcpConnectionInfo>,
}

impl TcpClaClient {
    /// A dialer for the given target address.
    pub fn new(target_addr: String) -> (r: Self)
        ensures
            r.target_addr@ == target_addr@,
            r.connection_info is None,
    {
        TcpClaClient { target_addr, connection_info: None }
    }

    /// The stored connection details, if a probe stored any.
    pub fn get_connection_info(&self) -> (r: Option<&TcpConnectionInfo>)
        ensures
            match r {
                Some(info) => self.connection_info matches Some(i) && *info == i,
                None => self.connection_info is None,
            },
    {
        self.connection_info.as_ref()
    }
}

impl ConvergenceLayer for TcpClaClient {
    fn address(&self) -> (r: String)
        ensures
            r@ == self.target_addr@,
    {
        self.target_addr.clone()
    }
}

/// The listening side of the stream transport: the shell binds
/// `bind_addr`, accepts connections, and runs the framed receive loop,
/// handing every decoded bundle to the receive callback it owns.
#[derive(Debug)]
pub struct TcpClaListener {
    pub bind_addr: String,
}

impl ConvergenceLayer for TcpClaListener {
    fn address(&self) -> (r: String)
        ensures
            r@ == self.bind_addr@,
    {
        self.bind_addr.clone()
    }
}

/// Build a bundle for sending over a transport, with the default version,
/// lifetime and report-to endpoint.
pub fn create_bundle(source: &str, destination: &str, payload: Vec<u8>) -> (r: Bundle)
    ensures
        r@.version == 7,
        r@.source == source@,
        r@.destination == destination@,
        r@.report_to == "none"@,
        r@.lifetime == 3600,
        r@.payload == payload@,
{
    Bundle::new(source, destination, payload)
}

} // verus!
