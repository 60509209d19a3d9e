//! The DNS-over-HTTPS resolvers the proxy knows, and the HTTP request that
//! asks one of them for a name.
use vstd::prelude::*;

use crate::decimal::{decimal, decimal_string, digits_value, lemma_decimal_roundtrip};

verus! {

/// A DNS-over-HTTPS service.
#[derive(Debug, Clone, Copy, PartialEq, Eq, Structural)]
pub enum Resolver {
    /// Cloudflare: 1.1.1.1, queried at `/dns-query`; JSON answers are asked
    /// for through the `ct` parameter.
    Cloudflare(),
    /// Google: dns.google.com, queried at `/resolve`.
    Google(),
}

impl Resolver {
    /// The socket address (host and port) of the service.
    pub open spec fn addr_spec(self) -> Seq<char> {
        match self {
            Resolver::Cloudflare() => "1.1.1.1:443"@,
            Resolver::Google() => "216.58.195.78:443"@,
        }
    }

    /// The name used for TLS server name indication and certificate checks.
    pub open spec fn domain_spec(self) -> Seq<char> {
        match self {
            Resolver::Cloudflare() => "1.1.1.1"@,
            Resolver::Google() => "dns.google.com"@,
        }
    }

    /// The path of the query endpoint.
    pub open spec fn dir_spec(self) -> Seq<char> {
        match self {
            Resolver::Cloudflare() => "/dns-query"@,
            Resolver::Google() => "/resolve"@,
        }
    }

    /// Query parameters appended after the name and type.
    pub open spec fn params_spec(self) -> Seq<char> {
        match self {
            Resolver::Cloudflare() => "&dnssec=true&ct=application/dns-json"@,
            Resolver::Google() => "&dnssec=true"@,
        }
    }

    /// Extra header lines after `Host`; none for either service.
    pub open spec fn headers_spec(self) -> Seq<char> {
        match self {
            Resolver::Cloudflare() => ""@,
            Resolver::Google() => ""@,
        }
    }

    /// The HTTP/1.0 GET request that asks this service for `name` with
    /// query type `qtype`.
    pub open spec fn request_spec(self, qtype: u16, name: Seq<char>) -> Seq<char> {
        "GET "@ + self.dir_spec() + "?name="@ + name + "&type="@ + decimal(qtype as nat)
            + self.params_spec() + " HTTP/1.0\r\nHost: "@ + self.domain_spec()
            + self.headers_spec() + "\r\n\r\n"@
    }

    /// The request line that asks for `name` with type `qtype`, without the
    /// protocol version.
    pub open spec fn request_target(self, qtype: u16, name: Seq<char>) -> Seq<char> {
        "GET "@ + self.dir_spec() + "?name="@ + name + "&type="@ + decimal(qtype as nat)
            + self.params_spec()
    }

    /// The request asks the URL path of `get_url` for the name as given and
    /// for the type written in decimal, which reads back as the type; its
    /// `Host` header names the domain that the TLS session is opened for.
    pub proof fn lemma_request_shape(self, qtype: u16, name: Seq<char>)
        ensures
            self.request_spec(qtype, name) == self.request_target(qtype, name)
                + " HTTP/1.0\r\nHost: "@ + self.domain_spec() + self.headers_spec()
                + "\r\n\r\n"@,
            self.request_target(qtype, name) == "GET "@ + self.dir_spec() + "?name="@ + name
                + "&type="@ + decimal(qtype as nat) + self.params_spec(),
            digits_value(decimal(qtype as nat)) == qtype,
    {
        lemma_decimal_roundtrip(qtype as nat);
    }

    pub fn new_cloudflare() -> (r: Self)
        ensures
            r == Resolver::Cloudflare(),
    {
        Resolver::Cloudflare()
    }

    pub fn new_google() -> (r: Self)
        ensures
            r == Resolver::Google(),
    {
        Resolver::Google()
    }

    /// The address to open the TCP connection to.
    pub fn get_addr(&self) -> (a: &'static str)
        ensures
            a@ == self.addr_spec(),
    {
        match self {
            Resolver::Cloudflare() => "1.1.1.1:443",
            Resolver::Google() => "216.58.195.78:443",
        }
    }

    /// The domain given to the TLS connector, used both for SNI and for
    /// checking the server's certificate.
    pub fn get_domain(&self) -> (d: &'static str)
        ensures
            d@ == self.domain_spec(),
    {
        match self {
            Resolver::Cloudflare() => "1.1.1.1",
            Resolver::Google() => "dns.google.com",
        }
    }

    pub fn get_dir(&self) -> (d: &'static str)
        ensures
            d@ == self.dir_spec(),
    {
        match self {
            Resolver::Cloudflare() => "/dns-query",
            Resolver::Google() => "/resolve",
        }
    }

    fn get_additional_params(&self) -> (p: &'static str)
        ensures
            p@ == self.params_spec(),
    {
        match self {
            Resolver::Cloudflare() => "&dnssec=true&ct=application/dns-json",
            Resolver::Google() => "&dnssec=true",
        }
    }

    fn get_headers(&self) -> (h: &'static str)
        ensures
            h@ == self.headers_spec(),
    {
        match self {
            Resolver::Cloudflare() => "",
            Resolver::Google() => "",
        }
    }

    /// The URL path for a query; for now the name and type are not part of
    /// it, so it is the endpoint path.
    pub fn get_url(&self, _type: u16, name: &str) -> (u: &'static str)
        ensures
            u@ == self.dir_spec(),
    {
        self.get_dir()
    }

    /// The full request text: request line with path, name, type and the
    /// service's extra parameters, then the `Host` header naming the service's
    /// domain, then an empty line.
    pub fn get_request(&self, _type: u16, name: &str) -> (r: String)
        ensures
            r@ == self.request_spec(_type, name@),
    {
        let mut r = String::from_str("GET ");
        r.append(self.get_dir());
        r.append("?name=");
        r.append(name);
        r.append("&type=");
        let t = decimal_string(_type);
        r.append(t.as_str());
        r.append(self.get_additional_params());
        r.append(" HTTP/1.0\r\nHost: ");
        r.append(self.get_domain());
        r.append(self.get_headers());
        r.append("\r\n\r\n");
        r
    }
}

} // verus!
