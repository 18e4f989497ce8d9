use loadgen::errors::ErrorKind;
use loadgen::url::delim_url;
use loadgen::url::Scheme;

#[test]
fn explicit_http_scheme_selects_port_80() {
    let p = delim_url("http://example.com/page").unwrap();
    assert_eq!(p.target.scheme, Scheme::Http);
    assert_eq!(p.target.host, "example.com");
    assert_eq!(p.target.port, 80);
    assert_eq!(p.target.resource, "/page");
    assert!(!p.scheme_defaulted);
}

#[test]
fn explicit_https_scheme_selects_port_443() {
    let p = delim_url("https://example.com/page").unwrap();
    assert_eq!(p.target.scheme, Scheme::Https);
    assert_eq!(p.target.host, "example.com");
    assert_eq!(p.target.port, 443);
    assert_eq!(p.target.resource, "/page");
    assert!(!p.scheme_defaulted);
}

#[test]
fn scheme_is_case_insensitive() {
    let p = delim_url("HtTpS://www.example.com/res").unwrap();
    assert_eq!(p.target.scheme, Scheme::Https);
    assert_eq!(p.target.port, 443);
    assert_eq!(p.target.host, "www.example.com");
}

#[test]
fn host_is_taken_verbatim() {
    let p = delim_url("http://Example-Site.com/a").unwrap();
    assert_eq!(p.target.host, "Example-Site.com");
}

#[test]
fn scheme_less_url_defaults_to_http() {
    let p = delim_url("example.com/page").unwrap();
    assert_eq!(p.target.scheme, Scheme::Http);
    assert_eq!(p.target.port, 80);
    assert_eq!(p.target.host, "example.com");
    assert_eq!(p.target.resource, "/page");
    assert!(p.scheme_defaulted);
}

#[test]
fn empty_resource_normalizes_to_slash() {
    let p = delim_url("http://example.com").unwrap();
    assert_eq!(p.target.resource, "/");
    let q = delim_url("example.com").unwrap();
    assert_eq!(q.target.resource, "/");
    assert!(q.scheme_defaulted);
}

#[test]
fn unsupported_scheme_is_invalid_protocol() {
    assert_eq!(delim_url("ftp://example.com").unwrap_err(), ErrorKind::InvalidProtocol);
    assert_eq!(delim_url("gopher://example.com/x").unwrap_err(), ErrorKind::InvalidProtocol);
    assert_eq!(delim_url("://example.com").unwrap_err(), ErrorKind::InvalidProtocol);
}

#[test]
fn empty_host_is_invalid_url() {
    assert_eq!(delim_url("http://").unwrap_err(), ErrorKind::InvalidUrl);
    assert_eq!(delim_url("http:///page").unwrap_err(), ErrorKind::InvalidUrl);
    assert_eq!(delim_url("").unwrap_err(), ErrorKind::InvalidUrl);
    assert_eq!(delim_url("/page").unwrap_err(), ErrorKind::InvalidUrl);
}

#[test]
fn resource_keeps_remaining_text_verbatim() {
    let p = delim_url("http://example.com/search?q=1").unwrap();
    assert_eq!(p.target.host, "example.com");
    assert_eq!(p.target.resource, "/search?q=1");
}
