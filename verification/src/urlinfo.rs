//! The URL model: an absolute `http(s)://` URL split into scheme, host,
//! port, path and default filename, with the reconstruction law that the
//! parts concatenate back to the parsed text.

use vstd::prelude::*;

use crate::errors::FetchError;
use crate::errors::PError;
use crate::strutil::dec_fits;
use crate::strutil::digits_val;
use crate::strutil::find_char;
use crate::strutil::lemma_find_at;
use crate::strutil::lemma_split_at;
use crate::strutil::lemma_split_at_offset;
use crate::strutil::parse_u16_dec;
use crate::strutil::push_char;
use crate::strutil::push_dec_u64;
use crate::strutil::seg_offset;
use crate::strutil::spec_dec;
use crate::strutil::spec_split;
use crate::strutil::split_char;
use crate::strutil::str_eq;

verus! {

/// An absolute URL, immutable after parsing.
#[derive(Debug, Clone)]
pub struct UrlInfo {
    pub scheme: String,
    pub domain: String,
    pub port: u16,
    pub path: String,
    pub fname: String,
}

/// The `/`-separated segments of the URL text.
pub open spec fn url_segments(url: Seq<char>) -> Seq<Seq<char>> {
    spec_split(url, '/')
}

/// A URL must open with a literal `http:` or `https:` segment.
pub open spec fn scheme_token_ok(t: Seq<char>) -> bool {
    t == "http:"@ || t == "https:"@
}

/// The `:`-separated pieces of the authority.
pub open spec fn auth_segments(auth: Seq<char>) -> Seq<Seq<char>> {
    spec_split(auth, ':')
}

/// The port a scheme implies when the authority names none.
pub open spec fn default_port(scheme: Seq<char>) -> int {
    if scheme == "http"@ {
        80
    } else {
        443
    }
}

/// The failure, if any, of reading `host[:port]` under the given scheme.
pub open spec fn host_port_err(addr: Seq<char>, scheme: Seq<char>) -> Option<FetchError> {
    let hp = auth_segments(addr);
    if hp.len() >= 2 {
        if hp.len() != 2 {
            Some(FetchError::MalformedUrl)
        } else if !dec_fits(hp[1], u16::MAX as int) {
            Some(FetchError::BadPort)
        } else {
            None
        }
    } else {
        if scheme == "http"@ || scheme == "https"@ {
            None
        } else {
            Some(FetchError::BadScheme)
        }
    }
}

/// The host named by the authority.
pub open spec fn spec_host(addr: Seq<char>) -> Seq<char> {
    auth_segments(addr)[0]
}

/// The port named by the authority, or the scheme's default.
pub open spec fn spec_port_of(addr: Seq<char>, scheme: Seq<char>) -> int {
    let hp = auth_segments(addr);
    if hp.len() >= 2 {
        digits_val(hp[1])
    } else {
        default_port(scheme)
    }
}

/// The failure, if any, of parsing the whole URL text.
pub open spec fn spec_parse_err(url: Seq<char>) -> Option<FetchError> {
    let parts = url_segments(url);
    if parts.len() < 4 {
        Some(FetchError::MalformedUrl)
    } else if !scheme_token_ok(parts[0]) {
        Some(FetchError::BadScheme)
    } else if host_port_err(parts[2], parts[0].drop_last()) is Some {
        host_port_err(parts[2], parts[0].drop_last())
    } else if parts[1].len() != 0 {
        Some(FetchError::MalformedUrl)
    } else if parts.last().len() == 0 {
        Some(FetchError::MalformedUrl)
    } else {
        None
    }
}

pub open spec fn url_ok(url: Seq<char>) -> bool {
    spec_parse_err(url) is None
}

pub open spec fn spec_scheme(url: Seq<char>) -> Seq<char> {
    url_segments(url)[0].drop_last()
}

pub open spec fn spec_domain(url: Seq<char>) -> Seq<char> {
    spec_host(url_segments(url)[2])
}

pub open spec fn spec_port(url: Seq<char>) -> int {
    spec_port_of(url_segments(url)[2], spec_scheme(url))
}

/// Index of the third `/`, where the path begins.
pub open spec fn path_start(url: Seq<char>) -> int {
    let parts = url_segments(url);
    parts[0].len() + parts[1].len() + parts[2].len() + 2int
}

/// Everything from the third `/` to the end, query included.
pub open spec fn spec_path(url: Seq<char>) -> Seq<char> {
    url.subrange(path_start(url), url.len() as int)
}

/// The last `/`-separated segment, the default output filename.
pub open spec fn spec_fname(url: Seq<char>) -> Seq<char> {
    url_segments(url).last()
}

impl UrlInfo {
    /// The invariant parsing establishes: a known scheme, a rooted path and
    /// a non-empty filename.
    pub open spec fn wf(self) -> bool {
        &&& self.scheme@ == "http"@ || self.scheme@ == "https"@
        &&& self.path@.len() > 0
        &&& self.path@[0] == '/'
        &&& self.fname@.len() > 0
    }

    /// Splits an absolute URL into its parts; the text must read
    /// `scheme://authority/...` with at least four `/`-separated segments.
    pub fn parse(url: &str) -> (r: Result<UrlInfo, PError>)
        ensures
            r is Ok <==> url_ok(url@),
            r matches Ok(info) ==> {
                &&& info.scheme@ == spec_scheme(url@)
                &&& info.domain@ == spec_domain(url@)
                &&& info.port as int == spec_port(url@)
                &&& info.path@ == spec_path(url@)
                &&& info.fname@ == spec_fname(url@)
                &&& info.wf()
            },
            r matches Err(e) ==> spec_parse_err(url@) == Some(e),
    {
        let parts: Vec<String> = split_char(url, '/');
        let ghost sparts = url_segments(url@);
        proof {
            assert(parts@.map_values(|t: String| t@) == sparts);
            assert(parts@.len() == sparts.len());
        }
        if parts.len() < 4 {
            return Err(FetchError::MalformedUrl);
        }
        proof {
            assert(parts@[0]@ == sparts[0]);
            assert(parts@[1]@ == sparts[1]);
            assert(parts@[2]@ == sparts[2]);
            assert(parts@[parts@.len() - 1]@ == sparts.last());
        }
        let scheme = match parse_and_validate_scheme(parts[0].as_str()) {
            Ok(s) => s,
            Err(e) => {
                return Err(e);
            },
        };
        let (host, port) = match parse_host_and_port(parts[2].as_str(), scheme.as_str()) {
            Ok(hp) => hp,
            Err(e) => {
                return Err(e);
            },
        };
        if parts[1].unicode_len() != 0 {
            return Err(FetchError::MalformedUrl);
        }
        let last = parts.len() - 1;
        if parts[last].unicode_len() == 0 {
            return Err(FetchError::MalformedUrl);
        }
        let n = url.unicode_len();
        proof {
            lemma_split_at_offset(url@, '/', 0, 2);
            assert(seg_offset(sparts, 0) == 0);
            assert(seg_offset(sparts, 1) == sparts[0].len() + 1);
            assert(seg_offset(sparts, 2) == sparts[0].len() + sparts[1].len() + 2);
            assert(path_start(url@) < n);
            assert(url@[path_start(url@)] == '/');
        }
        let n0 = parts[0].unicode_len();
        let n2 = parts[2].unicode_len();
        let query_idx = n0 + n2 + 2;
        let path = url.substring_char(query_idx, n).to_owned();
        let fname = parts[last].clone();
        let info = UrlInfo { scheme, domain: host, port, path, fname };
        proof {
            assert(info.path@ == spec_path(url@));
            assert(info.path@.len() > 0);
            reveal_strlit("http:");
            reveal_strlit("https:");
            reveal_strlit("http");
            reveal_strlit("https");
            if sparts[0] == "http:"@ {
                assert(info.scheme@ =~= "http"@);
            } else {
                assert(info.scheme@ =~= "https"@);
            }
        }
        Ok(info)
    }

    /// The `host:port` pair sent as the `Host:` header.
    pub fn host_addr(&self) -> (r: String)
        ensures
            r@ == self.domain@ + seq![':'] + spec_dec(self.port as int),
    {
        let mut r = self.domain.clone();
        push_char(&mut r, ':');
        push_dec_u64(&mut r, self.port as u64);
        proof {
            assert(r@ =~= self.domain@ + seq![':'] + spec_dec(self.port as int));
        }
        r
    }

    /// Whether the transport must be wrapped in TLS.
    pub fn is_tls(&self) -> (r: bool)
        ensures
            r == (self.scheme@ == "https"@),
    {
        str_eq(self.scheme.as_str(), "https")
    }
}

/// Parsing a valid URL round-trips: the scheme, the authority (which carries
/// the host and the explicit port, if any) and the rooted path concatenate
/// back to the original text, and a missing port falls back to the scheme's
/// default.
pub proof fn lemma_parse_round_trip(url: Seq<char>)
    requires
        url_ok(url),
    ensures
        spec_path(url).len() > 0 && spec_path(url)[0] == '/',
        url == spec_scheme(url) + seq![':', '/', '/'] + url_segments(url)[2] + spec_path(url),
        ({
            let auth = url_segments(url)[2];
            let hp = auth_segments(auth);
            &&& 1 <= hp.len() <= 2
            &&& (hp.len() == 2 ==> auth == spec_domain(url) + seq![':'] + hp[1] && digits_val(
                hp[1],
            ) == spec_port(url))
            &&& (hp.len() == 1 ==> auth == spec_domain(url) && spec_port(url) == default_port(
                spec_scheme(url),
            ))
        }),
{
    let parts = url_segments(url);
    lemma_split_at(url, '/', 0);
    lemma_split_at_offset(url, '/', 0, 0);
    lemma_split_at_offset(url, '/', 0, 1);
    lemma_split_at_offset(url, '/', 0, 2);
    assert(seg_offset(parts, 0) == 0);
    assert(seg_offset(parts, 1) == parts[0].len() + 1);
    assert(seg_offset(parts, 2) == parts[0].len() + parts[1].len() + 2);
    reveal_strlit("http:");
    reveal_strlit("https:");
    assert(parts[0].len() > 0 && parts[0].last() == ':');
    assert(url == spec_scheme(url) + seq![':', '/', '/'] + parts[2] + spec_path(url)) by {
        assert(url =~= spec_scheme(url) + seq![':', '/', '/'] + parts[2] + spec_path(url));
    }
    let auth = parts[2];
    let hp = auth_segments(auth);
    lemma_split_at(auth, ':', 0);
    if hp.len() == 2 {
        lemma_split_at_offset(auth, ':', 0, 0);
        lemma_split_at_offset(auth, ':', 0, 1);
        assert(seg_offset(hp, 1) == hp[0].len() + 1);
        assert(hp[1] == auth.subrange(auth.len() - hp[1].len(), auth.len() as int));
        assert(auth == spec_domain(url) + seq![':'] + hp[1]) by {
            assert(auth =~= spec_domain(url) + seq![':'] + hp[1]);
        }
    } else {
        assert(hp[0] == auth.subrange(0, auth.len() as int));
        assert(auth == spec_domain(url)) by {
            assert(hp[0] =~= auth);
        }
    }
}

/// Accepts exactly `http:` and `https:` and strips the colon.
pub fn parse_and_validate_scheme(scheme: &str) -> (r: Result<String, PError>)
    ensures
        r is Ok <==> scheme_token_ok(scheme@),
        r matches Ok(t) ==> t@ == scheme@.drop_last(),
        r matches Err(e) ==> e == FetchError::BadScheme,
{
    if str_eq(scheme, "http:") || str_eq(scheme, "https:") {
        proof {
            reveal_strlit("http:");
            reveal_strlit("https:");
        }
        let n: usize = scheme.unicode_len();
        Ok(scheme.substring_char(0, n - 1).to_owned())
    } else {
        Err(FetchError::BadScheme)
    }
}

/// Reads `host[:port]`; the port must be a decimal `u16`, and a missing port
/// falls back to the scheme's default.
pub fn parse_host_and_port(addr: &str, scheme: &str) -> (r: Result<(String, u16), PError>)
    ensures
        r is Ok <==> host_port_err(addr@, scheme@) is None,
        r matches Ok(hp) ==> hp.0@ == spec_host(addr@) && hp.1 as int == spec_port_of(
            addr@,
            scheme@,
        ),
        r matches Err(e) ==> host_port_err(addr@, scheme@) == Some(e),
{
    let ghost shp = auth_segments(addr@);
    proof {
        lemma_split_at(addr@, ':', 0);
        lemma_find_at(addr@, ':', 0);
    }
    match find_char(addr, ':') {
        Some(_) => {
            let hp: Vec<String> = split_char(addr, ':');
            proof {
                assert(hp@.map_values(|t: String| t@) == shp);
                assert(shp.len() >= 2);
            }
            if hp.len() != 2 {
                return Err(FetchError::MalformedUrl);
            }
            proof {
                assert(hp@[0]@ == shp[0]);
                assert(hp@[1]@ == shp[1]);
            }
            match parse_u16_dec(hp[1].as_str()) {
                Some(port) => Ok((hp[0].clone(), port)),
                None => Err(FetchError::BadPort),
            }
        },
        None => {
            proof {
                assert(shp.len() == 1);
                assert(shp[0] == addr@.subrange(0, addr@.len() as int));
                assert(shp[0] =~= addr@);
            }
            if str_eq(scheme, "http") {
                Ok((addr.to_owned(), 80))
            } else if str_eq(scheme, "https") {
                Ok((addr.to_owned(), 443))
            } else {
                Err(FetchError::BadScheme)
            }
        },
    }
}

} // verus!
