//! Network targets: a URL or a bare socket address.
use crate::address::{parse_socket_v4, socket_canonical, socket_text_of, IpAddress, SocketAddress};
use crate::address::{is_digit, lemma_socket_text_shape};
use crate::errors::NetworkTargetError;
use crate::ipv6::{parse_socket_v6, socket_v6_text_at, socket_v6_text_of};
use vstd::prelude::*;

verus! {

/// The serialization of the URL that `url::Url::parse` reads from `s`, or `None`
/// where it reads none.
pub uninterp spec fn url_serialization(s: Seq<char>) -> Option<Seq<char>>;

/// The port, given or the scheme's well-known one, of the URL read from `s`.
pub uninterp spec fn url_port(s: Seq<char>) -> Option<u16>;

/// The host of the URL read from `s`, as text, where it has one.
pub uninterp spec fn url_host(s: Seq<char>) -> Option<Seq<char>>;

/// The serialization of the URL `u` with the path segment `seg` appended, or
/// `None` where `u` cannot take path segments.
pub uninterp spec fn url_with_segment(u: Seq<char>, seg: Seq<char>) -> Option<Seq<char>>;

/// A parsed URL: its serialization, its host and its port.
#[derive(Debug, Hash, PartialEq, Eq)]
pub struct UrlTarget {
    text: String,
    host: Option<String>,
    port: Option<u16>,
}

impl UrlTarget {
    pub closed spec fn text_view(&self) -> Seq<char> {
        self.text@
    }

    pub closed spec fn port_view(&self) -> Option<u16> {
        self.port
    }

    pub closed spec fn host_view(&self) -> Option<Seq<char>> {
        match self.host {
            Some(h) => Some(h@),
            None => None,
        }
    }

    /// The serialization of the URL.
    pub fn as_str(&self) -> (r: &str)
        ensures
            r@ == self.text_view(),
    {
        self.text.as_str()
    }

    /// The URL's host, where it has one.
    pub fn host(&self) -> (r: Option<&str>)
        ensures
            r matches Some(h) ==> self.host_view() == Some(h@),
            r is None ==> self.host_view() is None,
    {
        match &self.host {
            Some(h) => Some(h.as_str()),
            None => None,
        }
    }

    /// The URL's port, or its scheme's well-known port.
    pub fn port(&self) -> (r: Option<u16>)
        ensures
            r == self.port_view(),
    {
        self.port
    }
}

impl Clone for UrlTarget {
    fn clone(&self) -> (r: Self)
        ensures
            r == *self,
    {
        let host = match &self.host {
            Some(h) => Some(h.clone()),
            None => None,
        };
        UrlTarget { text: self.text.clone(), host, port: self.port }
    }
}

/// Relies on `url::Url::parse` to read a URL, on `Url::port_or_known_default`
/// for its port, on `Url::host_str` for its host, and on the conversion of a
/// `Url` into its serialization. Without a base URL, `Url::parse` reads only
/// a text that starts with a scheme (an ASCII letter first) ended by a colon.
#[verifier::external_body]
fn parse_url(s: &str) -> (r: Option<UrlTarget>)
    ensures
        r is Some <==> url_serialization(s@) is Some,
        s@.len() > 0 && (is_digit(s@[0]) || s@[0] == '[') ==> r is None,
        (forall|i: int| 0 <= i < s@.len() ==> s@[i] != ':') ==> r is None,
        r matches Some(u) ==> {
            &&& u.text_view() == url_serialization(s@)->0
            &&& u.port_view() == url_port(s@)
            &&& u.host_view() == url_host(s@)
        },
{
    match url::Url::parse(s) {
        Ok(url) => Some(UrlTarget {
            port: url.port_or_known_default(),
            host: url.host_str().map(|h| h.to_string()),
            text: url.into(),
        }),
        Err(_) => None,
    }
}

/// The URL `text` with `seg` appended stays within the `u32` offsets that
/// `url::Url` keeps: each character of a segment takes at most four bytes,
/// each written as at most three when percent-encoded.
pub open spec fn segment_fits(text: Seq<char>, seg: Seq<char>) -> bool {
    text.len() + 1 + 12 * seg.len() <= 0xffff_ffff
}

/// Relies on `url::Url::parse` of a serialization, `Url::path_segments_mut`
/// (which refuses a URL that cannot be a base) and `PathSegmentsMut::push`,
/// which panics where the new serialization passes `u32::MAX` bytes.
#[verifier::external_body]
fn push_url_segment(text: &str, segment: &str) -> (r: Option<String>)
    requires
        segment_fits(text@, segment@),
    ensures
        r is Some <==> url_with_segment(text@, segment@) is Some,
        r matches Some(t) ==> t@ == url_with_segment(text@, segment@)->0,
{
    let mut url = url::Url::parse(text).ok()?;
    url.path_segments_mut().ok()?.push(segment);
    Some(url.into())
}

/// Where traffic for a peer goes: a URL or a bare socket address. Two
/// targets are equal when their canonical texts are.
#[derive(Debug, Hash, Eq)]
pub enum NetworkTarget {
    Url(UrlTarget),
    SocketAddr(SocketAddress),
}

/// `s` writes the socket address `a`: `a.b.c.d:port`, or `[groups]:port`.
pub open spec fn socket_addr_text_of(s: Seq<char>, a: SocketAddress) -> bool {
    socket_text_of(s, a) || socket_v6_text_of(s, a)
}

/// Reads a socket address: IPv4 `a.b.c.d:port` or IPv6 `[groups]:port`.
pub fn parse_socket_addr(s: &str) -> (r: Option<SocketAddress>)
    ensures
        match r {
            Some(a) => socket_addr_text_of(s@, a),
            None => forall|a: SocketAddress| !socket_addr_text_of(s@, a),
        },
{
    match parse_socket_v4(s) {
        Some(a) => Some(a),
        None => parse_socket_v6(s),
    }
}

/// What reading `s` as a network target gives: a URL where `url::Url::parse`
/// reads one, else a socket address, else an `InvalidTargetError` that holds
/// `s`.
pub open spec fn parse_outcome(s: Seq<char>, r: Result<NetworkTarget, NetworkTargetError>) -> bool {
    match r {
        Ok(NetworkTarget::Url(u)) => {
            &&& url_serialization(s) is Some
            &&& u.text_view() == url_serialization(s)->0
            &&& u.port_view() == url_port(s)
            &&& u.host_view() == url_host(s)
        },
        Ok(NetworkTarget::SocketAddr(a)) => url_serialization(s) is None && socket_addr_text_of(s, a),
        Err(NetworkTargetError::InvalidTargetError(m)) => url_serialization(s) is None && (forall|
            a: SocketAddress,
        | !socket_addr_text_of(s, a)) && m@ == s,
        Err(_) => false,
    }
}

impl NetworkTarget {
    /// The stable text of the target, used for equality and for logs.
    pub open spec fn canonical(&self) -> Seq<char> {
        match self {
            NetworkTarget::Url(u) => u.text_view(),
            NetworkTarget::SocketAddr(a) => socket_canonical(*a),
        }
    }

    /// Reads a target: URL syntax first, then a socket address. A socket
    /// address never reads as a URL, and a text without a colon is neither.
    pub fn parse(s: &str) -> (r: Result<NetworkTarget, NetworkTargetError>)
        ensures
            parse_outcome(s@, r),
            forall|a: SocketAddress| #[trigger]
                socket_addr_text_of(s@, a) ==> r matches Ok(NetworkTarget::SocketAddr(_)),
            (forall|i: int| 0 <= i < s@.len() ==> s@[i] != ':') ==> r is Err,
    {
        proof {
            assert forall|a: SocketAddress| #[trigger] socket_addr_text_of(s@, a) implies s@.len() > 0
                && (is_digit(s@[0]) || s@[0] == '[') && exists|i: int|
                0 <= i < s@.len() && s@[i] == ':' by {
                if socket_text_of(s@, a) {
                    lemma_socket_text_shape(s@, a);
                } else {
                    let e = choose|e: int| socket_v6_text_at(s@, a, e);
                    assert(s@[e + 1] == ':');
                }
            }
        }
        match parse_url(s) {
            Some(u) => Ok(NetworkTarget::Url(u)),
            None => match parse_socket_addr(s) {
                Some(a) => Ok(NetworkTarget::SocketAddr(a)),
                None => Err(NetworkTargetError::InvalidTargetError(s.to_string())),
            },
        }
    }

    /// The canonical text of the target.
    pub fn as_string(&self) -> (r: String)
        ensures
            r@ == self.canonical(),
    {
        match self {
            NetworkTarget::Url(u) => u.text.clone(),
            NetworkTarget::SocketAddr(a) => a.to_text(),
        }
    }

    /// The socket address to connect to. A socket address is its own; a URL
    /// takes the first of `host_addresses` (what its host resolves to, in
    /// order) with its port, and has none without a port or an address.
    pub fn to_socket_addrs(&self, host_addresses: &Vec<IpAddress>) -> (r: Option<SocketAddress>)
        ensures
            r == match self {
                NetworkTarget::SocketAddr(a) => Some(*a),
                NetworkTarget::Url(u) => if u.port_view() is Some && host_addresses@.len() > 0 {
                    Some(SocketAddress { ip: host_addresses@[0], port: u.port_view()->0 })
                } else {
                    None
                },
            },
    {
        match self {
            NetworkTarget::SocketAddr(a) => Some(*a),
            NetworkTarget::Url(u) => match u.port {
                Some(port) => if host_addresses.len() > 0 {
                    Some(SocketAddress { ip: host_addresses[0], port })
                } else {
                    None
                },
                None => None,
            },
        }
    }

    /// The host and port to look up before `to_socket_addrs`: a URL with a
    /// host and a port needs one; a socket address, or a URL without either,
    /// needs none.
    pub fn lookup_request(&self) -> (r: Option<(String, u16)>)
        ensures
            match self {
                NetworkTarget::Url(u) => match (u.host_view(), u.port_view()) {
                    (Some(h), Some(p)) => r matches Some(q) && q.0@ == h && q.1 == p,
                    _ => r is None,
                },
                NetworkTarget::SocketAddr(_) => r is None,
            },
    {
        match self {
            NetworkTarget::Url(u) => match (&u.host, u.port) {
                (Some(h), Some(p)) => Some((h.clone(), p)),
                _ => None,
            },
            NetworkTarget::SocketAddr(_) => None,
        }
    }

    /// Appends a path segment to a URL target. A socket address takes none
    /// and is left as it is, as is a URL that cannot be a base.
    pub fn push(&mut self, path: &str) -> (r: Result<(), NetworkTargetError>)
        ensures
            match *old(self) {
                NetworkTarget::SocketAddr(_) => {
                    &&& *final(self) == *old(self)
                    &&& r matches Err(NetworkTargetError::PushToSocketAddr)
                },
                NetworkTarget::Url(u) => if !segment_fits(u.text_view(), path@) {
                    &&& *final(self) == *old(self)
                    &&& r matches Err(NetworkTargetError::PathTooLong)
                } else {
                    match url_with_segment(u.text_view(), path@) {
                    Some(t) => {
                        &&& r is Ok
                        &&& *final(self) matches NetworkTarget::Url(v)
                        &&& (*final(self))->Url_0.text_view() == t
                        &&& (*final(self))->Url_0.port_view() == u.port_view()
                        &&& (*final(self))->Url_0.host_view() == u.host_view()
                    },
                    None => {
                        &&& *final(self) == *old(self)
                        &&& r matches Err(NetworkTargetError::InvalidUrlBase(m))
                        &&& r->Err_0->InvalidUrlBase_0@ == u.text_view()
                    },
                    }
                },
            },
    {
        match self {
            NetworkTarget::SocketAddr(_) => Err(NetworkTargetError::PushToSocketAddr),
            NetworkTarget::Url(u) => {
                if !fits_segment(u.text.as_str(), path) {
                    return Err(NetworkTargetError::PathTooLong);
                }
                match push_url_segment(u.text.as_str(), path) {
                Some(t) => {
                    u.text = t;
                    Ok(())
                },
                None => Err(NetworkTargetError::InvalidUrlBase(u.text.clone())),
                }
            },
        }
    }
}

fn fits_segment(text: &str, seg: &str) -> (r: bool)
    ensures
        r == segment_fits(text@, seg@),
{
    let tl = text.unicode_len();
    let sl = seg.unicode_len();
    if tl > 0xffff_ffff || sl > 0xffff_ffff {
        return false;
    }
    (tl as u64) + 1 + 12 * (sl as u64) <= 0xffff_ffff
}

impl Clone for NetworkTarget {
    fn clone(&self) -> (r: Self)
        ensures
            r == *self,
    {
        match self {
            NetworkTarget::Url(u) => NetworkTarget::Url(u.clone()),
            NetworkTarget::SocketAddr(a) => NetworkTarget::SocketAddr(*a),
        }
    }
}

impl PartialEq for NetworkTarget {
    fn eq(&self, other: &NetworkTarget) -> (r: bool) {
        self.as_string() == other.as_string()
    }
}

impl vstd::std_specs::cmp::PartialEqSpecImpl for NetworkTarget {
    open spec fn obeys_eq_spec() -> bool {
        true
    }

    open spec fn eq_spec(&self, other: &NetworkTarget) -> bool {
        self.canonical() == other.canonical()
    }
}

impl std::str::FromStr for NetworkTarget {
    type Err = NetworkTargetError;

    fn from_str(s: &str) -> Result<NetworkTarget, NetworkTargetError> {
        NetworkTarget::parse(s)
    }
}

} // verus!
