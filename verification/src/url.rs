use vstd::prelude::*;
use vstd::string::StrSliceExecFns;
use vstd::string::StringExecFns;
use crate::errors::ErrorKind;

verus! {

/// The two transfer schemes the tool supports.
#[derive(Clone, Copy, Debug, PartialEq, Eq, Structural)]
pub enum Scheme {
    Http,
    Https,
}

/// Immutable description of what to connect to and what to request.
/// Built once by `delim_url` and read by every request.
#[derive(Debug)]
pub struct TargetSpec {
    pub scheme: Scheme,
    pub host: String,
    pub port: u16,
    pub resource: String,
}

/// A decomposed URL: the target plus an advisory flag that is true
/// exactly when the URL carried no scheme and `http` was assumed.
#[derive(Debug)]
pub struct UrlParse {
    pub target: TargetSpec,
    pub scheme_defaulted: bool,
}

/// The port each scheme implies; an explicit port in the URL is not
/// supported.
pub open spec fn spec_port(scheme: Scheme) -> u16 {
    match scheme {
        Scheme::Http => 80,
        Scheme::Https => 443,
    }
}

/// Whether the scheme calls for a TLS handshake.
pub open spec fn spec_secure(scheme: Scheme) -> bool {
    scheme is Https
}

impl Scheme {
    /// Whether a connection under this scheme must be wrapped in TLS.
    pub fn secure(&self) -> (b: bool)
        ensures
            b == spec_secure(*self),
    {
        matches!(self, Scheme::Https)
    }
}

/// A character the host component may contain: ASCII letters, digits,
/// `.`, `-` and `_`.
pub open spec fn is_host_char(c: char) -> bool {
    ||| ('a' <= c && c <= 'z')
    ||| ('A' <= c && c <= 'Z')
    ||| ('0' <= c && c <= '9')
    ||| c == '.'
    ||| c == '-'
    ||| c == '_'
}

/// The separator `://` starts at position `i` of `s`.
pub open spec fn sep_at(s: Seq<char>, i: int) -> bool {
    &&& 0 <= i
    &&& i + 3 <= s.len()
    &&& s[i] == ':'
    &&& s[i + 1] == '/'
    &&& s[i + 2] == '/'
}

/// Position of the first `://` at or after `i`, if any.
pub open spec fn find_sep_from(s: Seq<char>, i: int) -> Option<int>
    recommends
        0 <= i,
    decreases s.len() - i,
{
    if i + 3 > s.len() {
        None
    } else if sep_at(s, i) {
        Some(i)
    } else {
        find_sep_from(s, i + 1)
    }
}

/// Position of the first `://` in `s`, if any.
pub open spec fn find_sep(s: Seq<char>) -> Option<int> {
    find_sep_from(s, 0)
}

/// The token reads `http`, with either case of each letter.
pub open spec fn is_http_token(s: Seq<char>) -> bool {
    &&& s.len() == 4
    &&& (s[0] == 'h' || s[0] == 'H')
    &&& (s[1] == 't' || s[1] == 'T')
    &&& (s[2] == 't' || s[2] == 'T')
    &&& (s[3] == 'p' || s[3] == 'P')
}

/// The token reads `https`, with either case of each letter.
pub open spec fn is_https_token(s: Seq<char>) -> bool {
    &&& s.len() == 5
    &&& is_http_token(s.take(4))
    &&& (s[4] == 's' || s[4] == 'S')
}

/// End of the host component of `s`: the first position at or after
/// `i` that does not hold a host character.
pub open spec fn host_end(s: Seq<char>, i: int) -> int
    recommends
        0 <= i <= s.len(),
    decreases s.len() - i,
{
    if i < 0 || i >= s.len() {
        i
    } else if is_host_char(s[i]) {
        host_end(s, i + 1)
    } else {
        i
    }
}

/// The pieces a well-formed URL decomposes into.
pub ghost struct UrlParts {
    pub scheme: Scheme,
    pub scheme_defaulted: bool,
    pub host: Seq<char>,
    pub resource: Seq<char>,
}

/// Splits everything after the scheme into host and resource: the host
/// is the longest leading run of host characters and must not be
/// empty; the rest is the resource, verbatim, with an empty resource
/// standing for `/`.
pub open spec fn spec_split_rest(scheme: Scheme, defaulted: bool, rest: Seq<char>) -> Result<
    UrlParts,
    ErrorKind,
> {
    let he = host_end(rest, 0);
    if he == 0 {
        Err(ErrorKind::InvalidUrl)
    } else {
        Ok(
            UrlParts {
                scheme,
                scheme_defaulted: defaulted,
                host: rest.take(he),
                resource: if he == rest.len() {
                    seq!['/']
                } else {
                    rest.skip(he)
                },
            },
        )
    }
}

/// What decomposing a raw URL yields: the scheme token before the
/// first `://` must read `http` or `https` in any case; a URL without
/// `://` is taken as `http`, flagged as defaulted.
pub open spec fn spec_delim(s: Seq<char>) -> Result<UrlParts, ErrorKind> {
    match find_sep(s) {
        None => spec_split_rest(Scheme::Http, true, s),
        Some(i) => if is_http_token(s.take(i)) {
            spec_split_rest(Scheme::Http, false, s.skip(i + 3))
        } else if is_https_token(s.take(i)) {
            spec_split_rest(Scheme::Https, false, s.skip(i + 3))
        } else {
            Err(ErrorKind::InvalidProtocol)
        },
    }
}

/// Whether `c` may appear in the host component.
fn host_char(c: char) -> (b: bool)
    ensures
        b == is_host_char(c),
{
    ('a' <= c && c <= 'z') || ('A' <= c && c <= 'Z') || ('0' <= c && c <= '9') || c == '.' || c
        == '-' || c == '_'
}

/// Whether the first `end` characters of `url` read `http`, in any
/// case.
fn scheme_is_http(url: &str, end: usize) -> (b: bool)
    requires
        end <= url@.len(),
    ensures
        b == is_http_token(url@.take(end as int)),
{
    if end != 4 {
        return false;
    }
    let c0 = url.get_char(0);
    let c1 = url.get_char(1);
    let c2 = url.get_char(2);
    let c3 = url.get_char(3);
    (c0 == 'h' || c0 == 'H') && (c1 == 't' || c1 == 'T') && (c2 == 't' || c2 == 'T') && (c3 == 'p'
        || c3 == 'P')
}

/// Whether the first `end` characters of `url` read `https`, in any
/// case.
fn scheme_is_https(url: &str, end: usize) -> (b: bool)
    requires
        end <= url@.len(),
    ensures
        b == is_https_token(url@.take(end as int)),
{
    if end != 5 {
        return false;
    }
    let http = scheme_is_http(url, 4);
    let c4 = url.get_char(4);
    proof {
        assert(url@.take(5).take(4) =~= url@.take(4));
    }
    http && (c4 == 's' || c4 == 'S')
}

/// Breaks a raw URL into scheme, host, port and resource.
///
/// The scheme token before the first `://`, compared without regard to
/// case, selects port 80 (`http`) or 443 (`https`); any other token is
/// `InvalidProtocol`. A URL without `://` defaults to `http` on port
/// 80, surfaced through `scheme_defaulted` rather than treated as an
/// error. The host is the longest leading run of letters, digits, `.`,
/// `-` and `_` after the scheme and must not be empty, else
/// `InvalidUrl`; everything after it is the resource, taken verbatim,
/// with an empty resource normalized to `/`.
pub fn delim_url(url: &str) -> (r: Result<UrlParse, ErrorKind>)
    ensures
        match (r, spec_delim(url@)) {
            (Ok(p), Ok(parts)) => {
                &&& p.target.scheme == parts.scheme
                &&& p.target.host@ == parts.host
                &&& p.target.resource@ == parts.resource
                &&& p.target.port == spec_port(parts.scheme)
                &&& p.scheme_defaulted == parts.scheme_defaulted
            },
            (Err(e), Err(se)) => e == se,
            _ => false,
        },
{
    let n = url.unicode_len();

    let mut sep: Option<usize> = None;
    let mut i: usize = 0;
    while n >= 3 && i <= n - 3
        invariant_except_break
            n == url@.len(),
            i <= n,
            sep.is_none(),
            find_sep_from(url@, 0) == find_sep_from(url@, i as int),
        ensures
            n == url@.len(),
            match sep {
                Some(j) => find_sep(url@) == Some(j as int) && sep_at(url@, j as int),
                None => find_sep(url@) is None,
            },
        decreases n - i,
    {
        if url.get_char(i) == ':' && url.get_char(i + 1) == '/' && url.get_char(i + 2) == '/' {
            sep = Some(i);
            proof {
                assert(sep_at(url@, i as int));
            }
            break ;
        }
        i = i + 1;
    }

    let (scheme, defaulted, rest): (Scheme, bool, &str) = match sep {
        None => (Scheme::Http, true, url),
        Some(j) => {
            if scheme_is_http(url, j) {
                (Scheme::Http, false, url.substring_char(j + 3, n))
            } else if scheme_is_https(url, j) {
                (Scheme::Https, false, url.substring_char(j + 3, n))
            } else {
                return Err(ErrorKind::InvalidProtocol);
            }
        },
    };
    proof {
        match sep {
            Some(j) => {
                assert(rest@ =~= url@.skip(j + 3));
            },
            None => {},
        }
    }

    let rest_len = rest.unicode_len();
    let mut j: usize = 0;
    while j < rest_len
        invariant_except_break
            rest_len == rest@.len(),
            j <= rest_len,
            host_end(rest@, 0) == host_end(rest@, j as int),
        ensures
            j <= rest_len,
            host_end(rest@, 0) == j as int,
        decreases rest_len - j,
    {
        if !host_char(rest.get_char(j)) {
            break ;
        }
        j = j + 1;
    }

    if j == 0 {
        return Err(ErrorKind::InvalidUrl);
    }
    let host = String::from_str(rest.substring_char(0, j));
    let resource = if j == rest_len {
        let slash = String::from_str("/");
        proof {
            reveal_strlit("/");
            assert(slash@ =~= seq!['/']);
        }
        slash
    } else {
        String::from_str(rest.substring_char(j, rest_len))
    };
    proof {
        assert(rest@.take(j as int) =~= rest@.subrange(0, j as int));
        assert(rest@.skip(j as int) =~= rest@.subrange(j as int, rest_len as int));
    }
    let port: u16 = match scheme {
        Scheme::Http => 80,
        Scheme::Https => 443,
    };
    Ok(UrlParse { target: TargetSpec { scheme, host, port, resource }, scheme_defaulted: defaulted })
}

} // verus!
