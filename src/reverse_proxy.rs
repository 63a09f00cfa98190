//! How the reverse proxy rewrites an exchange: the upstream URI, the headers
//! added to the request, and those added to the upstream's response.
use vstd::prelude::*;
use vstd::string::*;
use crate::text::{append_str, decimal, decimal_string};

verus! {

/// HTTP versions an upstream may answer with.
#[derive(Clone, Copy, Debug, PartialEq, Eq, Structural)]
pub enum HttpVersion {
    Http09,
    Http10,
    Http11,
    Http2,
}

/// The version as the `Via` header writes it.
pub open spec fn version_text(v: HttpVersion) -> Seq<char> {
    match v {
        HttpVersion::Http09 => "0.9"@,
        HttpVersion::Http10 => "1.0"@,
        HttpVersion::Http11 => "1.1"@,
        HttpVersion::Http2 => "2.0"@,
    }
}

/// The URI a request is forwarded to: loopback at `port`, with the same
/// path and query.
pub open spec fn upstream_uri_of(port: u16, path: Seq<char>, query: Option<Seq<char>>) -> Seq<char> {
    "http://127.0.0.1:"@ + decimal(port as nat) + path + match query {
        Some(q) => "?"@ + q,
        None => Seq::empty(),
    }
}

/// The URI a request is forwarded to.
pub fn upstream_uri(port: u16, path: &str, query: Option<&str>) -> (r: String)
    ensures
        r@ == upstream_uri_of(
            port,
            path@,
            match query {
                Some(q) => Some(q@),
                None => None,
            },
        ),
{
    let mut s = String::from_str("http://127.0.0.1:");
    let p = decimal_string(port as u64);
    append_str(&mut s, p.as_str());
    append_str(&mut s, path);
    match query {
        Some(q) => {
            append_str(&mut s, "?");
            append_str(&mut s, q);
            assert(s@ =~= upstream_uri_of(port, path@, Some(q@)));
        },
        None => {
            assert(s@ =~= upstream_uri_of(port, path@, None));
        },
    }
    s
}

/// A header name and value.
pub struct Header {
    pub name: String,
    pub value: String,
}

/// The headers appended to a forwarded request: the client's address and
/// port.
pub fn forwarded_headers(remote_ip: &str, remote_port: u16) -> (r: Vec<Header>)
    ensures
        r@.len() == 2,
        r@[0].name@ == "x-forwarded-for"@,
        r@[0].value@ == remote_ip@,
        r@[1].name@ == "x-forwarded-port"@,
        r@[1].value@ == decimal(remote_port as nat),
{
    let mut r: Vec<Header> = Vec::new();
    r.push(Header { name: String::from_str("x-forwarded-for"), value: String::from_str(remote_ip) });
    r.push(Header { name: String::from_str("x-forwarded-port"), value: decimal_string(remote_port as u64) });
    r
}

/// The headers added to an upstream response: `Via` always, and
/// `Server: duwop` where the upstream sent no `Server`.
pub fn response_headers(version: HttpVersion, has_server: bool) -> (r: Vec<Header>)
    ensures
        r@.len() == (if has_server { 1int } else { 2 }),
        r@[0].name@ == "via"@,
        r@[0].value@ == version_text(version) + " duwop-proxy"@,
        !has_server ==> r@[1].name@ == "server"@ && r@[1].value@ == "duwop"@,
{
    let mut via = match version {
        HttpVersion::Http09 => String::from_str("0.9"),
        HttpVersion::Http10 => String::from_str("1.0"),
        HttpVersion::Http11 => String::from_str("1.1"),
        HttpVersion::Http2 => String::from_str("2.0"),
    };
    append_str(&mut via, " duwop-proxy");
    let mut r: Vec<Header> = Vec::new();
    r.push(Header { name: String::from_str("via"), value: via });
    if !has_server {
        r.push(Header { name: String::from_str("server"), value: String::from_str("duwop") });
    }
    r
}

/// The body of the 502 answer when the upstream fails.
pub fn bad_gateway_message() -> (r: String)
    ensures
        r@ == "Something went wrong, please try again later"@,
{
    String::from_str("Something went wrong, please try again later")
}

} // verus!
