//! The addresses of resolvers.

use crate::addr;
use crate::addr::{IpAddr, SocketAddr};
use crate::addr_laws;
use crate::dns::DNS_DEFAULT_PORT;
use crate::outside;
use crate::text;
use vstd::hash_map::StringHashMap;
use vstd::prelude::*;
use vstd::string::StringExecFns;

verus! {

/// The host of a URL.
pub enum UrlHost {
    Name(String),
    V4(u32),
    V6(u128),
}

/// The host of a URL, as a mathematical value.
pub ghost enum HostView {
    Name(Seq<char>),
    V4(u32),
    V6(u128),
}

impl View for UrlHost {
    type V = HostView;

    open spec fn view(&self) -> HostView {
        match self {
            UrlHost::Name(name) => HostView::Name(name@),
            UrlHost::V4(ip) => HostView::V4(*ip),
            UrlHost::V6(ip) => HostView::V6(*ip),
        }
    }
}

/// The parts of a URL that name a resolver.
pub struct UrlParts {
    pub scheme: String,
    pub host: Option<UrlHost>,
    pub port: Option<u16>,
}

impl View for UrlParts {
    type V = (Seq<char>, Option<HostView>, Option<u16>);

    open spec fn view(&self) -> (Seq<char>, Option<HostView>, Option<u16>) {
        (
            self.scheme@,
            match self.host {
                Some(host) => Some(host@),
                None => None,
            },
            self.port,
        )
    }
}

/// A resolver.
#[derive(Clone, Copy, Debug, PartialEq, Eq, Structural)]
pub struct ResolverConfig {
    pub addr: SocketAddr,
}

/// Why a text names no resolver.
#[derive(Clone, Copy, Debug, PartialEq, Eq, Structural)]
pub enum ResolverError {
    InvalidAddress,
    NotUdp,
    MissingHost,
    NotAnIpAddress,
}

impl ResolverError {
    /// The refusal in words.
    pub open spec fn text(self) -> Seq<char> {
        match self {
            ResolverError::InvalidAddress => "invalid resolver address"@,
            ResolverError::NotUdp => "resolver must use udp://"@,
            ResolverError::MissingHost => "resolver missing host"@,
            ResolverError::NotAnIpAddress => "host is not a valid ip address"@,
        }
    }

    /// Puts the refusal in words.
    pub fn message(&self) -> (r: String)
        ensures
            r@ == self.text(),
    {
        match self {
            ResolverError::InvalidAddress => String::from_str("invalid resolver address"),
            ResolverError::NotUdp => String::from_str("resolver must use udp://"),
            ResolverError::MissingHost => String::from_str("resolver missing host"),
            ResolverError::NotAnIpAddress => String::from_str("host is not a valid ip address"),
        }
    }
}

/// The address that a host stands for: a name that spells an IPv4 address, or an address itself.
pub open spec fn host_addr(host: HostView) -> Option<IpAddr> {
    match host {
        HostView::Name(name) => match addr::ipv4_named(name) {
            Some(ip) => Some(IpAddr::V4(ip)),
            None => None,
        },
        HostView::V4(ip) => Some(IpAddr::V4(ip)),
        HostView::V6(ip) => Some(IpAddr::V6(ip)),
    }
}

/// The resolver that the parts of a URL name: its scheme is `udp`, its host an IP address.
pub open spec fn parts_outcome(
    scheme: Seq<char>,
    host: Option<HostView>,
    port: Option<u16>,
) -> Result<ResolverConfig, ResolverError> {
    if scheme != "udp"@ {
        Err(ResolverError::NotUdp)
    } else {
        match host {
            None => Err(ResolverError::MissingHost),
            Some(host) => match host_addr(host) {
                None => Err(ResolverError::NotAnIpAddress),
                Some(ip) => Ok(
                    ResolverConfig {
                        addr: SocketAddr::of(
                            ip,
                            match port {
                                Some(port) => port,
                                None => DNS_DEFAULT_PORT,
                            },
                        ),
                    },
                ),
            },
        }
    }
}

/// Whether `://` stands in a text.
pub open spec fn has_scheme(s: Seq<char>) -> bool {
    exists|i: int| 0 <= i < s.len() - 2 && #[trigger] s[i] == ':' && s[i + 1] == '/' && s[i + 2] == '/'
}

/// The URL that a text stands for: without a scheme, it is a `udp` host.
pub open spec fn first_url(uri: Seq<char>) -> Seq<char> {
    if has_scheme(uri) {
        uri
    } else {
        "udp://"@ + uri
    }
}

/// The URL that is tried where the first is none: the text as an IPv6 host.
pub open spec fn second_url(uri: Seq<char>) -> Seq<char> {
    "udp://["@ + uri + "]"@
}

/// The parts of the URL that a text stands for.
pub open spec fn url_parts(uri: Seq<char>) -> Option<
    (Seq<char>, Option<HostView>, Option<u16>),
> {
    match outside::url::parsed_url(first_url(uri)) {
        Some(parts) => Some(parts),
        None => if has_scheme(uri) || uri.contains('[') || !uri.contains(':') {
            None
        } else {
            outside::url::parsed_url(second_url(uri))
        },
    }
}

/// The resolver that a text names.
pub open spec fn resolver_outcome(uri: Seq<char>) -> Result<ResolverConfig, ResolverError> {
    match url_parts(uri) {
        None => Err(ResolverError::InvalidAddress),
        Some((scheme, host, port)) => parts_outcome(scheme, host, port),
    }
}

/// Whether a character occurs.
fn contains_char(chars: &Vec<char>, c: char) -> (r: bool)
    ensures
        r == chars@.contains(c),
{
    let mut i: usize = 0;
    while i < chars.len()
        invariant
            i <= chars@.len(),
            forall|k: int| 0 <= k < i ==> chars@[k] != c,
        decreases chars@.len() - i,
    {
        if chars[i] == c {
            return true;
        }
        i += 1;
    }
    false
}

/// Whether `://` stands in a text.
fn contains_scheme(chars: &Vec<char>) -> (r: bool)
    ensures
        r == has_scheme(chars@),
{
    let mut i: usize = 2;
    while i < chars.len()
        invariant
            2 <= i,
            forall|k: int|
                0 <= k < i - 2 && k < chars@.len() - 2 ==> !(#[trigger] chars@[k] == ':' && chars@[k
                    + 1] == '/' && chars@[k + 2] == '/'),
        decreases chars@.len() - i,
    {
        if chars[i - 2] == ':' && chars[i - 1] == '/' && chars[i] == '/' {
            assert(chars@[i - 2] == ':' && chars@[i - 2 + 1] == '/' && chars@[i - 2 + 2] == '/');
            return true;
        }
        i += 1;
    }
    false
}

/// The parts of the URL that a text stands for.
fn resolve_url(uri: &str) -> (r: Option<UrlParts>)
    ensures
        match r {
            Some(parts) => url_parts(uri@) == Some(parts@),
            None => url_parts(uri@) is None,
        },
{
    let chars = text::chars_of(uri);
    let with_scheme = contains_scheme(&chars);
    let first = if with_scheme {
        outside::url::parse_url(uri)
    } else {
        outside::url::parse_url(String::from_str("udp://").concat(uri).as_str())
    };
    match first {
        Some(parts) => Some(parts),
        None => if with_scheme || contains_char(&chars, '[') || !contains_char(&chars, ':') {
            None
        } else {
            outside::url::parse_url(String::from_str("udp://[").concat(uri).concat("]").as_str())
        },
    }
}

impl ResolverConfig {
    /// The resolver that the parts of a URL name.
    pub fn of_parts(parts: &UrlParts) -> (r: Result<ResolverConfig, ResolverError>)
        ensures
            r == parts_outcome(parts@.0, parts@.1, parts@.2),
    {
        if parts.scheme != String::from_str("udp") {
            return Err(ResolverError::NotUdp);
        }
        let ip = match &parts.host {
            None => {
                return Err(ResolverError::MissingHost);
            },
            Some(UrlHost::Name(name)) => match addr::parse_ipv4(&text::chars_of(name.as_str())) {
                None => {
                    return Err(ResolverError::NotAnIpAddress);
                },
                Some(ip) => IpAddr::V4(ip),
            },
            Some(UrlHost::V4(ip)) => IpAddr::V4(*ip),
            Some(UrlHost::V6(ip)) => IpAddr::V6(*ip),
        };
        let port: u16 = match parts.port {
            Some(port) => port,
            None => DNS_DEFAULT_PORT,
        };
        Ok(ResolverConfig { addr: SocketAddr::new(ip, port) })
    }

    /// Reads the address of a resolver: `host`, `host:port`, or either behind `udp://`. An IPv6 host
    /// stands in brackets; without port and scheme it may do without.
    pub fn parse(uri: &str) -> (r: Result<ResolverConfig, ResolverError>)
        ensures
            r == resolver_outcome(uri@),
    {
        match resolve_url(uri) {
            None => Err(ResolverError::InvalidAddress),
            Some(parts) => ResolverConfig::of_parts(&parts),
        }
    }
}

/// Resolvers that have been read, by the text that names them.
pub struct ResolverCache {
    resolvers: StringHashMap<ResolverConfig>,
}

impl ResolverCache {
    /// Every resolver kept is the one that its text names.
    #[verifier::type_invariant]
    closed spec fn inv(self) -> bool {
        forall|uri: Seq<char>| #[trigger]
            self.resolvers@.contains_key(uri) ==> resolver_outcome(uri) == Ok::<_, ResolverError>(
                self.resolvers@[uri],
            )
    }

    /// The texts whose resolvers are kept.
    pub closed spec fn kept(self) -> Set<Seq<char>> {
        self.resolvers@.dom()
    }

    /// Nothing kept.
    pub fn new() -> (r: ResolverCache)
        ensures
            r.kept() == Set::<Seq<char>>::empty(),
    {
        ResolverCache { resolvers: StringHashMap::new() }
    }

    /// The resolver that a text names, kept for the next time. What is kept never changes the answer.
    pub fn get_resolver(&mut self, uri: &str) -> (r: Result<ResolverConfig, ResolverError>)
        ensures
            r == resolver_outcome(uri@),
            final(self).kept() == if r is Ok {
                old(self).kept().insert(uri@)
            } else {
                old(self).kept()
            },
    {
        proof {
            use_type_invariant(&*self);
        }
        if let Some(existing) = self.resolvers.get(uri) {
            assert(old(self).kept().insert(uri@) == old(self).kept());
            return Ok(*existing);
        }
        match ResolverConfig::parse(uri) {
            Err(e) => Err(e),
            Ok(config) => {
                let mut resolvers = StringHashMap::new();
                std::mem::swap(&mut resolvers, &mut self.resolvers);
                resolvers.insert(uri.to_owned(), config);
                self.resolvers = resolvers;
                assert(self.kept() == old(self).kept().insert(uri@));
                Ok(config)
            },
        }
    }
}

/// A resolver is the same with and without `udp://` before it. Excepted are texts that are read as an
/// IPv6 host without brackets.
pub proof fn law_scheme_optional(uri: Seq<char>)
    requires
        !has_scheme(uri),
        outside::url::parsed_url(first_url(uri)) is Some || uri.contains('[') || !uri.contains(':'),
    ensures
        resolver_outcome("udp://"@ + uri) == resolver_outcome(uri),
{
    reveal_strlit("udp://");
    let full = "udp://"@ + uri;
    assert(full[3] == ':' && full[4] == '/' && full[5] == '/');
    assert(has_scheme(full));
}

/// The texts excepted there name the resolver that they name in brackets.
pub proof fn law_bare_host_as_in_brackets(uri: Seq<char>)
    requires
        !has_scheme(uri),
        outside::url::parsed_url(first_url(uri)) is None,
        !uri.contains('['),
        uri.contains(':'),
    ensures
        resolver_outcome(second_url(uri)) == resolver_outcome(uri),
{
    reveal_strlit("udp://[");
    let full = second_url(uri);
    assert(full[3] == ':' && full[4] == '/' && full[5] == '/');
    assert(has_scheme(full));
}

/// A resolver without a port has port 53.
pub proof fn law_default_port(host: Option<HostView>)
    ensures
        parts_outcome("udp"@, host, None) == parts_outcome("udp"@, host, Some(53)),
{
}

/// A resolver is named by an IP address of either family and a port, and keeps both.
pub proof fn law_resolver_keeps_its_address(v4: u32, v6: u128, port: u16)
    ensures
        parts_outcome("udp"@, Some(HostView::Name(addr::ipv4_text(v4))), Some(port)) == Ok::<
            _,
            ResolverError,
        >(ResolverConfig { addr: SocketAddr::of(IpAddr::V4(v4), port) }),
        parts_outcome("udp"@, Some(HostView::V6(v6)), Some(port)) == Ok::<_, ResolverError>(
            ResolverConfig { addr: SocketAddr::of(IpAddr::V6(v6), port) },
        ),
{
    addr::lemma_ipv4_text_names(v4, v4);
}

/// The parts of a URL are judged in order: another scheme, a missing host and a name that spells no
/// address are refused; otherwise the resolver has the host's address and the given port, or 53.
pub proof fn law_parts_judged(
    scheme: Seq<char>,
    host: Option<HostView>,
    port: Option<u16>,
    v4: u32,
    v6: u128,
)
    ensures
        ({
            let r = parts_outcome(scheme, host, port);
            &&& scheme != "udp"@ ==> r == Err::<ResolverConfig, _>(ResolverError::NotUdp)
            &&& scheme == "udp"@ && host is None ==> r == Err::<ResolverConfig, _>(
                ResolverError::MissingHost,
            )
            &&& scheme == "udp"@ && host is Some ==> {
                &&& (forall|x: u32| host != Some(HostView::Name(addr::ipv4_text(x))))
                    && host->0 is Name ==> r == Err::<ResolverConfig, _>(
                    ResolverError::NotAnIpAddress,
                )
                &&& host == Some(HostView::Name(addr::ipv4_text(v4))) || host == Some(
                    HostView::V4(v4),
                ) ==> r is Ok && (r->Ok_0).addr.ip() == IpAddr::V4(v4)
                &&& host == Some(HostView::V6(v6)) ==> r is Ok && (r->Ok_0).addr.ip() == IpAddr::V6(
                    v6,
                )
                &&& r is Ok && port is Some ==> (r->Ok_0).addr.port() == port->0
                &&& r is Ok && port is None ==> (r->Ok_0).addr.port() == 53
                &&& r is Ok ==> (r->Ok_0).addr == SocketAddr::of(
                    (r->Ok_0).addr.ip(),
                    (r->Ok_0).addr.port(),
                )
            }
        }),
{
    addr_laws::law_ipv4_named(addr::ipv4_text(v4), v4);
    if let Some(HostView::Name(name)) = host {
        if addr::ipv4_named(name) is Some {
            let ip = addr::ipv4_named(name)->0;
            addr_laws::law_ipv4_named(name, ip);
            assert(host == Some(HostView::Name(addr::ipv4_text(ip))));
        }
    }
}

/// A text has a scheme exactly if `://` stands somewhere in it.
pub proof fn law_scheme_found(s: Seq<char>)
    ensures
        has_scheme(s) <==> exists|i: int|
            0 <= i <= s.len() - 3 && #[trigger] s.subrange(i, i + 3) == "://"@,
{
    reveal_strlit("://");
    if has_scheme(s) {
        let i = choose|i: int|
            0 <= i < s.len() - 2 && #[trigger] s[i] == ':' && s[i + 1] == '/' && s[i + 2] == '/';
        assert(s.subrange(i, i + 3) == "://"@);
    }
    if exists|i: int| 0 <= i <= s.len() - 3 && #[trigger] s.subrange(i, i + 3) == "://"@ {
        let i = choose|i: int|
            0 <= i <= s.len() - 3 && #[trigger] s.subrange(i, i + 3) == "://"@;
        let t = s.subrange(i, i + 3);
        assert(t[0] == s[i] && t[1] == s[i + 1] && t[2] == s[i + 2]);
        assert("://"@[0] == ':' && "://"@[1] == '/' && "://"@[2] == '/');
    }
}

/// The outcome for the parts of a URL, if it could be read.
pub open spec fn outcome_of(
    parts: Option<(Seq<char>, Option<HostView>, Option<u16>)>,
) -> Result<ResolverConfig, ResolverError> {
    if parts is Some {
        parts_outcome((parts->0).0, (parts->0).1, (parts->0).2)
    } else {
        Err(ResolverError::InvalidAddress)
    }
}

/// A text with a scheme is read as it is. One without is read behind `udp://`, and where that is no
/// URL, in brackets too, if it has a colon and no bracket of its own.
pub proof fn law_text_read_as_url(uri: Seq<char>)
    ensures
        ({
            let behind = outside::url::parsed_url("udp://"@ + uri);
            let within = outside::url::parsed_url("udp://["@ + uri + "]"@);
            &&& has_scheme(uri) ==> resolver_outcome(uri) == outcome_of(
                outside::url::parsed_url(uri),
            )
            &&& !has_scheme(uri) && behind is Some ==> resolver_outcome(uri) == outcome_of(behind)
            &&& !has_scheme(uri) && behind is None && uri.contains(':') && !uri.contains('[')
                ==> resolver_outcome(uri) == outcome_of(within)
            &&& !has_scheme(uri) && behind is None && (!uri.contains(':') || uri.contains('['))
                ==> resolver_outcome(uri) == outcome_of(None)
        }),
{
}

/// The parts of a URL are its scheme, host and port, each as it is.
pub proof fn law_parts_viewed(parts: UrlParts)
    ensures
        parts@.0 == parts.scheme@,
        parts@.2 == parts.port,
        parts.host is None ==> parts@.1 is None,
        parts.host matches Some(UrlHost::Name(name)) ==> parts@.1 == Some(HostView::Name(name@)),
        parts.host matches Some(UrlHost::V4(ip)) ==> parts@.1 == Some(HostView::V4(ip)),
        parts.host matches Some(UrlHost::V6(ip)) ==> parts@.1 == Some(HostView::V6(ip)),
{
}

}
