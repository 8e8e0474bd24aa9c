//! Origin keys.
//!
//! The origin key of a URL is `scheme://host:port/` where the URL has a
//! port and `scheme://host/` where it has none; a URL without a host leaves
//! the host out. The port is written in decimal. URLs with the same scheme,
//! host and port have the same origin key.

use vstd::prelude::*;
use vstd::string::*;

verus! {

/// The parts of a URL that make up its origin.
#[derive(Clone, Debug, PartialEq, Eq)]
pub struct PageUrl {
    /// The scheme, without the colon after it.
    pub scheme: String,
    /// The host, where the URL has one.
    pub host: Option<String>,
    /// The port, where the URL has one.
    pub port: Option<u16>,
}

/// The ten digits, in order.
pub open spec fn digits() -> Seq<char> {
    seq!['0', '1', '2', '3', '4', '5', '6', '7', '8', '9']
}

/// A number in decimal, without leading zeros.
pub open spec fn decimal(n: nat) -> Seq<char>
    decreases n,
{
    if n < 10 {
        seq![digits()[n as int]]
    } else {
        decimal(n / 10).push(digits()[(n % 10) as int])
    }
}

/// The host as the origin key holds it.
pub open spec fn host_part(host: Option<Seq<char>>) -> Seq<char> {
    match host {
        Some(h) => h,
        None => seq![],
    }
}

/// The port as the origin key holds it: a colon and the number.
pub open spec fn port_part(port: Option<u16>) -> Seq<char> {
    match port {
        Some(p) => seq![':'] + decimal(p as nat),
        None => seq![],
    }
}

/// The origin key of a scheme, a host and a port.
pub open spec fn origin_key(scheme: Seq<char>, host: Option<Seq<char>>, port: Option<u16>) -> Seq<
    char,
> {
    scheme + seq![':', '/', '/'] + host_part(host) + port_part(port) + seq!['/']
}

impl PageUrl {
    /// The host as a sequence of characters.
    pub open spec fn host_view(self) -> Option<Seq<char>> {
        match self.host {
            Some(h) => Some(h@),
            None => None,
        }
    }

    /// The origin key of this URL.
    pub open spec fn origin(self) -> Seq<char> {
        origin_key(self.scheme@, self.host_view(), self.port)
    }
}

/// URLs with the same scheme, host and port have the same origin key.
pub proof fn law_same_parts_same_origin(a: PageUrl, b: PageUrl)
    requires
        a.scheme@ == b.scheme@,
        a.host_view() == b.host_view(),
        a.port == b.port,
    ensures
        a.origin() == b.origin(),
{
}

/// One digit as a string.
fn digit_str(d: u16) -> (r: &'static str)
    requires
        d < 10,
    ensures
        r@ == seq![digits()[d as int]],
{
    proof {
        reveal_strlit("0");
        reveal_strlit("1");
        reveal_strlit("2");
        reveal_strlit("3");
        reveal_strlit("4");
        reveal_strlit("5");
        reveal_strlit("6");
        reveal_strlit("7");
        reveal_strlit("8");
        reveal_strlit("9");
    }
    match d {
        0 => "0",
        1 => "1",
        2 => "2",
        3 => "3",
        4 => "4",
        5 => "5",
        6 => "6",
        7 => "7",
        8 => "8",
        _ => "9",
    }
}

/// Writes a port number in decimal.
pub fn decimal_string(n: u16) -> (r: String)
    ensures
        r@ == decimal(n as nat),
    decreases n,
{
    if n < 10 {
        String::from_str(digit_str(n))
    } else {
        let mut s = decimal_string(n / 10);
        s.append(digit_str(n % 10));
        s
    }
}

/// Derives the origin key of a URL.
pub fn get_origin_as_string(url: &PageUrl) -> (origin: String)
    ensures
        origin@ == url.origin(),
{
    proof {
        reveal_strlit("://");
        reveal_strlit(":");
        reveal_strlit("/");
    }
    let mut origin = String::new();
    origin.append(url.scheme.as_str());
    origin.append("://");
    match &url.host {
        Some(host) => {
            origin.append(host.as_str());
        },
        None => {},
    }
    match url.port {
        Some(port) => {
            origin.append(":");
            let number = decimal_string(port);
            origin.append(number.as_str());
        },
        None => {},
    }
    origin.append("/");
    origin
}

} // verus!
