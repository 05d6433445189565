//! Calls into `url`.

use crate::resolver;
use crate::resolver::{UrlHost, UrlParts};
use vstd::prelude::*;

verus! {

/// What `url::Url::parse` reads from a text: the scheme, the host, and the port if it is not the one
/// that the scheme implies; `None` where it returns an error.
pub uninterp spec fn parsed_url(s: Seq<char>) -> Option<
    (Seq<char>, Option<resolver::HostView>, Option<u16>),
>;

/// `url::Url::parse` reads an absolute URL. Its result is a function of the text alone. Here `scheme`,
/// `host` and `port` are copied out, an address as the integer that its bytes spell. Under a scheme
/// that is not one of the web's, such as `udp`, an IPv4 address is a name like any other, and no name
/// holds a colon.
#[verifier::external_body]
pub(crate) fn parse_url(s: &str) -> (r: Option<UrlParts>)
    ensures
        match r {
            Some(parts) => parsed_url(s@) == Some(parts@),
            None => parsed_url(s@) is None,
        },
{
    let url = url::Url::parse(s).ok()?;
    let host = url.host().map(
        |host|
            match host {
                url::Host::Domain(name) => UrlHost::Name(name.to_string()),
                url::Host::Ipv4(ip) => UrlHost::V4(u32::from(ip)),
                url::Host::Ipv6(ip) => UrlHost::V6(u128::from(ip)),
            },
    );
    Some(UrlParts { scheme: url.scheme().to_string(), host, port: url.port() })
}

}
