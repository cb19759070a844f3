//! The one-shot HTTP/1.1 client: request serialization, status-line and
//! header parsing, and redirect handling under a bounded policy. The client
//! computes request bytes and judges response lines; moving them over a
//! socket is the caller's business.

use vstd::prelude::*;

use crate::errors::FetchError;
use crate::errors::PError;
use crate::strutil::all_digits;
use crate::strutil::digits_val;
use crate::strutil::find_at;
use crate::strutil::is_digit;
use crate::strutil::find_char;
use crate::strutil::lemma_skip_spaces;
use crate::strutil::lemma_spec_dec_len;
use crate::strutil::lower_chars;
use crate::strutil::eq_ignore_case;
use crate::strutil::is_space;
use crate::strutil::is_space_char;
use crate::strutil::parse_u16_dec;
use crate::strutil::skip_spaces;
use crate::strutil::spec_dec;
use crate::strutil::spec_trim;
use crate::strutil::trim_spaces;
use crate::urlinfo::spec_domain;
use crate::urlinfo::spec_parse_err;
use crate::urlinfo::spec_path;
use crate::urlinfo::spec_port;
use crate::urlinfo::spec_scheme;
use crate::urlinfo::url_ok;
use crate::urlinfo::UrlInfo;

verus! {

/// The two request methods the client can serialize.
#[derive(Clone, Copy, Debug, PartialEq, Eq, Structural)]
pub enum Method {
    Head,
    Get,
}

/// Whether 3xx responses are chased, and how far.
#[derive(Clone, Copy, Debug, PartialEq, Eq, Structural)]
pub enum RedirectPolicy {
    /// Follow redirects, up to the given number of hops.
    Follow(u8),
    /// Refuse any redirect.
    NoFollow,
}

/// Per-client knobs shared by every request the client issues.
#[derive(Debug, Clone)]
pub struct HttpConfig {
    pub redirect_policy: RedirectPolicy,
    pub timeout_ms: u64,
    pub user_agent: String,
}

/// Ordered request headers, serialized in the order given.
pub type HttpHeaders = Vec<(String, String)>;

pub const DEFAULT_TIMEOUT_MS: u64 = 5000;

pub const DEFAULT_MAX_REDIRECTS: u8 = 10;

pub open spec fn view_pairs(v: Seq<(String, String)>) -> Seq<(Seq<char>, Seq<char>)> {
    v.map_values(|p: (String, String)| (p.0@, p.1@))
}

pub open spec fn method_text(m: Method) -> Seq<char> {
    match m {
        Method::Head => "HEAD"@,
        Method::Get => "GET"@,
    }
}

/// One serialized `key: value` line per caller-supplied header.
pub open spec fn spec_headers_block(hs: Seq<(Seq<char>, Seq<char>)>) -> Seq<char>
    decreases hs.len(),
{
    if hs.len() == 0 {
        Seq::empty()
    } else {
        hs[0].0 + ": "@ + hs[0].1 + "\r\n"@ + spec_headers_block(hs.drop_first())
    }
}

proof fn lemma_headers_block_push(hs: Seq<(Seq<char>, Seq<char>)>, x: (Seq<char>, Seq<char>))
    ensures
        spec_headers_block(hs.push(x)) == spec_headers_block(hs) + x.0 + ": "@ + x.1 + "\r\n"@,
    decreases hs.len(),
{
    if hs.len() == 0 {
        assert(hs.push(x).drop_first() =~= hs);
        assert(spec_headers_block(hs.push(x)) =~= spec_headers_block(hs) + x.0 + ": "@ + x.1
            + "\r\n"@);
    } else {
        assert(hs.push(x).drop_first() =~= hs.drop_first().push(x));
        lemma_headers_block_push(hs.drop_first(), x);
        assert(spec_headers_block(hs.push(x)) =~= spec_headers_block(hs) + x.0 + ": "@ + x.1
            + "\r\n"@);
    }
}

/// The full request text: request line, `Host`, `User-Agent`, the caller's
/// headers, the fixed defaults, and the blank terminating line.
pub open spec fn spec_request(
    m: Method,
    path: Seq<char>,
    host: Seq<char>,
    ua: Seq<char>,
    extra: Seq<(Seq<char>, Seq<char>)>,
) -> Seq<char> {
    method_text(m) + " "@ + path + " HTTP/1.1\r\n"@ + "Host: "@ + host + "\r\n"@ + "User-Agent: "@
        + ua + "\r\n"@ + spec_headers_block(extra)
        + "Accept: */*\r\nAccept-Encoding: identity\r\nConnection: Keep-Alive\r\n\r\n"@
}

/// The serialized request a one-shot client hands out, together with where
/// and how it must be sent.
pub struct PendingRequest {
    pub method: Method,
    pub request_text: String,
    pub host_addr: String,
    pub domain: String,
    pub tls: bool,
    pub cfg: HttpConfig,
}

/// Status and parsed headers of a response; the body stays on the wire.
pub struct HttpResponse {
    pub status: u16,
    pub headers: Vec<(String, String)>,
}

/// What a response line and headers amount to: a final response, or a
/// further request to issue against the redirect target.
pub enum HttpStep {
    Response(HttpResponse),
    Redirect(PendingRequest),
}

/// One-shot HTTP client: issuing a request consumes it.
pub struct HttpClient {
    pub host_addr: String,
    pub domain: String,
    pub tls: bool,
    pub cfg: HttpConfig,
}

impl HttpClient {
    pub fn builder() -> (r: HttpClientBuilder)
        ensures
            r.host_addr@.len() == 0 && r.domain@.len() == 0 && !r.tls,
            r.cfg.redirect_policy == RedirectPolicy::Follow(DEFAULT_MAX_REDIRECTS),
            r.cfg.timeout_ms == DEFAULT_TIMEOUT_MS,
            r.cfg.user_agent@ == "fget/0.1.0"@,
    {
        HttpClientBuilder::new()
    }

    /// Records where the request must go; the socket itself is opened by the
    /// caller when the serialized request is handed over.
    pub fn connect(host_addr: &str, domain: &str, tls: bool, cfg: &HttpConfig) -> (r: Result<
        HttpClient,
        PError,
    >)
        ensures
            r matches Ok(c) ==> c.host_addr@ == host_addr@ && c.domain@ == domain@ && c.tls == tls
                && c.cfg == *cfg,
            r is Ok,
    {
        Ok(
            HttpClient {
                host_addr: host_addr.to_owned(),
                domain: domain.to_owned(),
                tls,
                cfg: cfg.clone_config(),
            },
        )
    }

    /// Serializes a HEAD request for `path`; one-shot, so the client is
    /// consumed.
    pub fn head(self, path: &str) -> (r: Result<PendingRequest, PError>)
        ensures
            r matches Ok(p) ==> p.method == Method::Head && p.request_text@ == spec_request(
                Method::Head,
                path@,
                self.host_addr@,
                self.cfg.user_agent@,
                Seq::empty(),
            ) && p.host_addr@ == self.host_addr@ && p.domain@ == self.domain@ && p.tls == self.tls
                && p.cfg == self.cfg,
            r is Ok,
    {
        let text = self.make_request(Method::Head, path, None);
        Ok(
            PendingRequest {
                method: Method::Head,
                request_text: text,
                host_addr: self.host_addr,
                domain: self.domain,
                tls: self.tls,
                cfg: self.cfg,
            },
        )
    }

    /// Serializes a HEAD request with caller headers after the defaults the
    /// client always sends.
    pub fn head_with_headers(self, path: &str, headers: &HttpHeaders) -> (r: Result<
        PendingRequest,
        PError,
    >)
        ensures
            r matches Ok(p) ==> p.method == Method::Head && p.request_text@ == spec_request(
                Method::Head,
                path@,
                self.host_addr@,
                self.cfg.user_agent@,
                view_pairs(headers@),
            ) && p.host_addr@ == self.host_addr@ && p.domain@ == self.domain@ && p.tls == self.tls
                && p.cfg == self.cfg,
            r is Ok,
    {
        let text = self.make_request(Method::Head, path, Some(headers));
        Ok(
            PendingRequest {
                method: Method::Head,
                request_text: text,
                host_addr: self.host_addr,
                domain: self.domain,
                tls: self.tls,
                cfg: self.cfg,
            },
        )
    }

    /// Serializes a GET request for `path`.
    pub fn get(self, path: &str) -> (r: Result<PendingRequest, PError>)
        ensures
            r matches Ok(p) ==> p.method == Method::Get && p.request_text@ == spec_request(
                Method::Get,
                path@,
                self.host_addr@,
                self.cfg.user_agent@,
                Seq::empty(),
            ) && p.host_addr@ == self.host_addr@ && p.domain@ == self.domain@ && p.tls == self.tls
                && p.cfg == self.cfg,
            r is Ok,
    {
        let text = self.make_request(Method::Get, path, None);
        Ok(
            PendingRequest {
                method: Method::Get,
                request_text: text,
                host_addr: self.host_addr,
                domain: self.domain,
                tls: self.tls,
                cfg: self.cfg,
            },
        )
    }

    /// Serializes a GET request with caller headers, as a ranged worker
    /// does.
    pub fn get_with_headers(self, path: &str, headers: &HttpHeaders) -> (r: Result<
        PendingRequest,
        PError,
    >)
        ensures
            r matches Ok(p) ==> p.method == Method::Get && p.request_text@ == spec_request(
                Method::Get,
                path@,
                self.host_addr@,
                self.cfg.user_agent@,
                view_pairs(headers@),
            ) && p.host_addr@ == self.host_addr@ && p.domain@ == self.domain@ && p.tls == self.tls
                && p.cfg == self.cfg,
            r is Ok,
    {
        let text = self.make_request(Method::Get, path, Some(headers));
        Ok(
            PendingRequest {
                method: Method::Get,
                request_text: text,
                host_addr: self.host_addr,
                domain: self.domain,
                tls: self.tls,
                cfg: self.cfg,
            },
        )
    }

    /// Writes the request line and every header in their wire order.
    pub fn make_request(&self, method: Method, path: &str, headers: Option<&HttpHeaders>) -> (r:
        String)
        ensures
            r@ == spec_request(
                method,
                path@,
                self.host_addr@,
                self.cfg.user_agent@,
                match headers {
                    Some(hs) => view_pairs(hs@),
                    None => Seq::empty(),
                },
            ),
    {
        let mut s = String::new();
        match method {
            Method::Head => s.append("HEAD"),
            Method::Get => s.append("GET"),
        }
        s.append(" ");
        s.append(path);
        s.append(" HTTP/1.1\r\n");
        s.append("Host: ");
        s.append(self.host_addr.as_str());
        s.append("\r\n");
        s.append("User-Agent: ");
        s.append(self.cfg.user_agent.as_str());
        s.append("\r\n");
        let ghost prefix = s@;
        if let Some(hs) = headers {
            let n = hs.len();
            let mut i: usize = 0;
            proof {
                assert(view_pairs(hs@).take(0) =~= Seq::<(Seq<char>, Seq<char>)>::empty());
                assert(s@ =~= prefix + spec_headers_block(view_pairs(hs@).take(0)));
            }
            while i < n
                invariant
                    0 <= i <= n == hs@.len(),
                    s@ == prefix + spec_headers_block(view_pairs(hs@).take(i as int)),
                decreases n - i,
            {
                let ghost done = view_pairs(hs@).take(i as int);
                let pair = &hs[i];
                s.append(pair.0.as_str());
                s.append(": ");
                s.append(pair.1.as_str());
                s.append("\r\n");
                proof {
                    lemma_headers_block_push(done, (pair.0@, pair.1@));
                    assert(view_pairs(hs@).take(i + 1) =~= done.push((pair.0@, pair.1@)));
                    assert(s@ =~= prefix + spec_headers_block(view_pairs(hs@).take(i + 1)));
                }
                i = i + 1;
            }
            proof {
                assert(view_pairs(hs@).take(n as int) =~= view_pairs(hs@));
            }
        } else {
            proof {
                assert(spec_headers_block(Seq::empty()) =~= Seq::<char>::empty());
                assert(s@ =~= prefix + spec_headers_block(Seq::empty()));
            }
        }
        s.append("Accept: */*\r\nAccept-Encoding: identity\r\nConnection: Keep-Alive\r\n\r\n");
        proof {
            assert(s@ =~= spec_request(
                method,
                path@,
                self.host_addr@,
                self.cfg.user_agent@,
                match headers {
                    Some(hs) => view_pairs(hs@),
                    None => Seq::empty(),
                },
            ));
        }
        s
    }
}

impl HttpConfig {
    /// A field-for-field copy.
    pub fn clone_config(&self) -> (r: HttpConfig)
        ensures
            r == *self,
    {
        let r = HttpConfig {
            redirect_policy: self.redirect_policy,
            timeout_ms: self.timeout_ms,
            user_agent: self.user_agent.clone(),
        };
        proof {
            assert(r.user_agent == self.user_agent);
        }
        r
    }
}

/// First index at or after `i` holding a space, or `s.len()`.
pub open spec fn skip_nonspaces(s: Seq<char>, i: int) -> int
    decreases s.len() - i,
{
    if i < 0 || i >= s.len() {
        s.len() as int
    } else if is_space(s[i]) {
        i
    } else {
        skip_nonspaces(s, i + 1)
    }
}

pub proof fn lemma_skip_nonspaces(s: Seq<char>, i: int)
    requires
        0 <= i <= s.len(),
    ensures
        i <= skip_nonspaces(s, i) <= s.len(),
        skip_nonspaces(s, i) < s.len() ==> is_space(s[skip_nonspaces(s, i)]),
        forall|j: int| i <= j < skip_nonspaces(s, i) ==> !is_space(s[j]),
    decreases s.len() - i,
{
    if i < s.len() && !is_space(s[i]) {
        lemma_skip_nonspaces(s, i + 1);
    }
}

/// The whitespace-separated tokens of `s` from `i` on; mirrors
/// `str::split_whitespace`.
pub open spec fn ws_tokens_at(s: Seq<char>, i: int) -> Seq<Seq<char>>
    decreases s.len() - i,
    via ws_tokens_at_dec
{
    let a = skip_spaces(s, i);
    if a >= s.len() {
        Seq::empty()
    } else {
        seq![s.subrange(a, skip_nonspaces(s, a))] + ws_tokens_at(s, skip_nonspaces(s, a))
    }
}

#[via_fn]
proof fn ws_tokens_at_dec(s: Seq<char>, i: int) {
    if 0 <= i <= s.len() {
        lemma_skip_spaces(s, i);
        let a = skip_spaces(s, i);
        if a < s.len() {
            lemma_skip_nonspaces(s, a);
        }
    }
}

/// Splits on runs of whitespace, dropping empty tokens.
fn ws_split(s: &str) -> (toks: Vec<String>)
    ensures
        toks@.map_values(|t: String| t@) == ws_tokens_at(s@, 0),
{
    let n: usize = s.unicode_len();
    let mut toks: Vec<String> = Vec::new();
    let mut pos: usize = 0;
    proof {
        assert(ws_tokens_at(s@, 0) =~= toks@.map_values(|t: String| t@) + ws_tokens_at(s@, 0));
    }
    loop
        invariant_except_break
            0 <= pos <= n == s@.len(),
            ws_tokens_at(s@, 0) == toks@.map_values(|t: String| t@) + ws_tokens_at(s@, pos as int),
        ensures
            toks@.map_values(|t: String| t@) == ws_tokens_at(s@, 0),
        decreases n - pos,
    {
        proof {
            lemma_skip_spaces(s@, pos as int);
        }
        let mut a: usize = pos;
        while a < n && is_space_char(s.get_char(a))
            invariant
                pos <= a <= n == s@.len(),
                skip_spaces(s@, pos as int) == skip_spaces(s@, a as int),
            decreases n - a,
        {
            a = a + 1;
        }
        if a == n {
            proof {
                assert(ws_tokens_at(s@, pos as int) =~= Seq::<Seq<char>>::empty());
                assert(toks@.map_values(|t: String| t@) + Seq::<Seq<char>>::empty()
                    =~= toks@.map_values(|t: String| t@));
            }
            break ;
        }
        proof {
            lemma_skip_nonspaces(s@, a as int);
        }
        let mut b: usize = a;
        while b < n && !is_space_char(s.get_char(b))
            invariant
                a <= b <= n == s@.len(),
                skip_nonspaces(s@, a as int) == skip_nonspaces(s@, b as int),
            decreases n - b,
        {
            b = b + 1;
        }
        let tok = s.substring_char(a, b).to_owned();
        let ghost old_views = toks@.map_values(|t: String| t@);
        toks.push(tok);
        proof {
            assert(toks@.map_values(|t: String| t@) =~= old_views.push(s@.subrange(
                a as int,
                b as int,
            )));
            assert(ws_tokens_at(s@, pos as int) == seq![s@.subrange(a as int, b as int)]
                + ws_tokens_at(s@, b as int));
            assert(ws_tokens_at(s@, 0) =~= toks@.map_values(|t: String| t@) + ws_tokens_at(
                s@,
                b as int,
            ));
        }
        pos = b;
    }
    toks
}

/// The status code a response line carries: at least three whitespace
/// tokens, the second being a three-digit number of at least 100.
pub open spec fn spec_status(line: Seq<char>) -> Option<int> {
    let toks = ws_tokens_at(line, 0);
    if toks.len() >= 3 && toks[1].len() == 3 && all_digits(toks[1]) && digits_val(toks[1]) >= 100 {
        Some(digits_val(toks[1]))
    } else {
        None
    }
}

proof fn lemma_digits3_upper(s: Seq<char>)
    requires
        all_digits(s),
        s.len() == 3,
    ensures
        digits_val(s) <= 999,
{
    let s2 = s.drop_last();
    let s1 = s2.drop_last();
    let s0 = s1.drop_last();
    assert(s0.len() == 0);
    assert(digits_val(s0) == 0);
    assert(is_digit(s1.last()) && is_digit(s2.last()) && is_digit(s.last()));
    assert(digits_val(s1) <= 9);
    assert(digits_val(s2) <= 99);
}

impl HttpClient {
    /// Reads the status line of a response; fails on anything but
    /// `VERSION CODE REASON`.
    pub fn get_status_code(line: &str) -> (r: Result<u16, PError>)
        ensures
            r matches Ok(c) ==> spec_status(line@) == Some(c as int),
            r is Err <==> spec_status(line@) is None,
            r matches Err(e) ==> e == FetchError::MalformedStatusLine,
    {
        let toks = ws_split(line);
        proof {
            assert(toks@.map_values(|t: String| t@) == ws_tokens_at(line@, 0));
        }
        if toks.len() < 3 {
            return Err(FetchError::MalformedStatusLine);
        }
        let t = toks[1].as_str();
        proof {
            assert(t@ == ws_tokens_at(line@, 0)[1]);
        }
        if t.unicode_len() != 3 {
            return Err(FetchError::MalformedStatusLine);
        }
        match parse_u16_dec(t) {
            Some(v) => {
                if v >= 100 {
                    Ok(v)
                } else {
                    Err(FetchError::MalformedStatusLine)
                }
            },
            None => {
                proof {
                    if all_digits(t@) {
                        lemma_digits3_upper(t@);
                        crate::strutil::lemma_digits_val_bounds(t@);
                    }
                }
                Err(FetchError::MalformedStatusLine)
            },
        }
    }
}

/// Reads one `key: value` header line: the text left of the first `:` is
/// the key, everything right of it the value, both trimmed. A line with no
/// `:` carries no header.
pub open spec fn spec_parse_header(line: Seq<char>) -> Option<(Seq<char>, Seq<char>)> {
    let i = find_at(line, ':', 0);
    if i >= line.len() {
        None
    } else {
        Some((spec_trim(line.subrange(0, i)), spec_trim(line.subrange(i + 1, line.len() as int))))
    }
}

pub fn parse_header(line: &str) -> (r: Option<(String, String)>)
    ensures
        r is Some <==> spec_parse_header(line@) is Some,
        r matches Some(kv) ==> spec_parse_header(line@) matches Some(skv) && kv.0@ == skv.0
            && kv.1@ == skv.1,
{
    let n: usize = line.unicode_len();
    match find_char(line, ':') {
        Some(i) => {
            let key = trim_spaces(line.substring_char(0, i)).to_owned();
            let val = trim_spaces(line.substring_char(i + 1, n)).to_owned();
            Some((key, val))
        },
        None => None,
    }
}

/// The headers the given lines carry, in order; lines with no `:` are
/// skipped, not fatal.
pub open spec fn spec_parse_headers(lines: Seq<Seq<char>>) -> Seq<(Seq<char>, Seq<char>)>
    decreases lines.len(),
{
    if lines.len() == 0 {
        Seq::empty()
    } else {
        match spec_parse_header(lines[0]) {
            Some(kv) => seq![kv] + spec_parse_headers(lines.drop_first()),
            None => spec_parse_headers(lines.drop_first()),
        }
    }
}

proof fn lemma_parse_headers_push(lines: Seq<Seq<char>>, x: Seq<char>)
    ensures
        spec_parse_headers(lines.push(x)) == spec_parse_headers(lines) + (
        match spec_parse_header(x) {
            Some(kv) => seq![kv],
            None => Seq::<(Seq<char>, Seq<char>)>::empty(),
        }),
    decreases lines.len(),
{
    let tail = (match spec_parse_header(x) {
        Some(kv) => seq![kv],
        None => Seq::<(Seq<char>, Seq<char>)>::empty(),
    });
    if lines.len() == 0 {
        assert(lines.push(x).drop_first() =~= lines);
        assert(spec_parse_headers(lines.push(x)) =~= spec_parse_headers(lines) + tail);
    } else {
        assert(lines.push(x).drop_first() =~= lines.drop_first().push(x));
        lemma_parse_headers_push(lines.drop_first(), x);
        assert(spec_parse_headers(lines.push(x)) =~= spec_parse_headers(lines) + tail);
    }
}

/// Parses every header line, keeping duplicates and skipping lines with no
/// `:`.
pub fn parse_headers(lines: &Vec<String>) -> (r: Vec<(String, String)>)
    ensures
        view_pairs(r@) == spec_parse_headers(lines@.map_values(|l: String| l@)),
{
    let ghost slines = lines@.map_values(|l: String| l@);
    let n = lines.len();
    let mut r: Vec<(String, String)> = Vec::new();
    proof {
        assert(slines.take(0) =~= Seq::<Seq<char>>::empty());
        assert(view_pairs(r@) =~= spec_parse_headers(slines.take(0)));
    }
    let mut i: usize = 0;
    while i < n
        invariant
            0 <= i <= n == lines@.len(),
            slines == lines@.map_values(|l: String| l@),
            view_pairs(r@) == spec_parse_headers(slines.take(i as int)),
        decreases n - i,
    {
        let ghost old_views = view_pairs(r@);
        match parse_header(lines[i].as_str()) {
            Some(kv) => {
                r.push(kv);
                proof {
                    assert(view_pairs(r@) =~= old_views.push((r@.last().0@, r@.last().1@)));
                }
            },
            None => {},
        }
        proof {
            lemma_parse_headers_push(slines.take(i as int), slines[i as int]);
            assert(slines.take(i + 1) =~= slines.take(i as int).push(slines[i as int]));
            assert(view_pairs(r@) =~= spec_parse_headers(slines.take(i + 1)));
        }
        i = i + 1;
    }
    proof {
        assert(slines.take(n as int) =~= slines);
    }
    r
}

/// The value of the first header whose key reads `location` ignoring ASCII
/// case; keys are already trimmed by header parsing.
pub open spec fn spec_find_location(hs: Seq<(Seq<char>, Seq<char>)>) -> Option<Seq<char>>
    decreases hs.len(),
{
    if hs.len() == 0 {
        None
    } else if lower_chars(hs[0].0) == lower_chars("location"@) {
        Some(hs[0].1)
    } else {
        spec_find_location(hs.drop_first())
    }
}

fn find_location(headers: &Vec<(String, String)>) -> (r: Option<String>)
    ensures
        r is Some <==> spec_find_location(view_pairs(headers@)) is Some,
        r matches Some(v) ==> spec_find_location(view_pairs(headers@)) == Some(v@),
{
    let n = headers.len();
    let mut i: usize = 0;
    proof {
        assert(view_pairs(headers@).skip(0) =~= view_pairs(headers@));
    }
    while i < n
        invariant
            0 <= i <= n == headers@.len(),
            spec_find_location(view_pairs(headers@)) == spec_find_location(
                view_pairs(headers@).skip(i as int),
            ),
        decreases n - i,
    {
        proof {
            assert(view_pairs(headers@).skip(i as int)[0] == (
                headers@[i as int].0@,
                headers@[i as int].1@,
            ));
        }
        if eq_ignore_case(headers[i].0.as_str(), "location") {
            return Some(headers[i].1.clone());
        }
        proof {
            assert(view_pairs(headers@).skip(i as int).drop_first() =~= view_pairs(
                headers@,
            ).skip(i + 1));
        }
        i = i + 1;
    }
    proof {
        assert(view_pairs(headers@).skip(n as int) =~= Seq::<(Seq<char>, Seq<char>)>::empty());
    }
    None
}

/// What a 3xx answer comes to under a policy: the remaining hop budget, or
/// the error that ends the request.
pub open spec fn spec_redirect_decision(policy: RedirectPolicy) -> Result<u8, FetchError> {
    match policy {
        RedirectPolicy::NoFollow => Err(FetchError::RedirectRefused),
        RedirectPolicy::Follow(m) => if m == 0 {
            Err(FetchError::TooManyRedirects)
        } else {
            Ok((m - 1) as u8)
        },
    }
}

/// The `host:port` text of a URL's authority.
pub open spec fn spec_host_addr(url: Seq<char>) -> Seq<char> {
    spec_domain(url) + seq![':'] + spec_dec(spec_port(url))
}

/// What a request issued against a redirect target must look like: the same
/// method, the budget left after the hop, the rest of the configuration
/// kept, and the connection aimed at the location URL.
pub open spec fn redirect_target_ok(
    next: PendingRequest,
    method: Method,
    cfg: HttpConfig,
    loc: Seq<char>,
    m2: u8,
) -> bool {
    &&& next.method == method
    &&& next.cfg.redirect_policy == RedirectPolicy::Follow(m2)
    &&& next.cfg.timeout_ms == cfg.timeout_ms
    &&& next.cfg.user_agent@ == cfg.user_agent@
    &&& next.domain@ == spec_domain(loc)
    &&& next.host_addr@ == spec_host_addr(loc)
    &&& next.tls == (spec_scheme(loc) == "https"@)
    &&& next.request_text@ == spec_request(
        method,
        loc,
        spec_host_addr(loc),
        cfg.user_agent@,
        Seq::empty(),
    )
}

impl PendingRequest {
    /// Judges a response's status line and header lines: a success is handed
    /// back with its parsed headers, a redirect becomes the next request to
    /// issue, and everything else is the error the taxonomy assigns it.
    pub fn make_response(self, status_line: &str, header_lines: &Vec<String>) -> (r: Result<
        HttpStep,
        PError,
    >)
        ensures
            ({
                let st = spec_status(status_line@);
                let hs = spec_parse_headers(header_lines@.map_values(|l: String| l@));
                match st {
                    None => r matches Err(e) && e == FetchError::MalformedStatusLine,
                    Some(code) => if code >= 400 {
                        r matches Err(e) && e == FetchError::ServerError(code as u16)
                    } else if code >= 300 {
                        match spec_redirect_decision(self.cfg.redirect_policy) {
                            Err(e0) => r matches Err(e) && e == e0,
                            Ok(m2) => match spec_find_location(hs) {
                                None => r matches Err(e) && e
                                    == FetchError::RedirectMissingLocation,
                                Some(loc) => if url_ok(loc) {
                                    r matches Ok(step) && step matches HttpStep::Redirect(next)
                                        && redirect_target_ok(next, self.method, self.cfg, loc, m2)
                                } else {
                                    r matches Err(e) && spec_parse_err(loc) == Some(e)
                                },
                            },
                        }
                    } else {
                        r matches Ok(step) && step matches HttpStep::Response(resp) && resp.status
                            as int == code && view_pairs(resp.headers@) == hs
                    },
                }
            }),
            // a client that refuses redirects answers any 3xx with the
            // refusal, never with a further request
            (self.cfg.redirect_policy == RedirectPolicy::NoFollow && (spec_status(
                status_line@,
            ) matches Some(code) && 300 <= code < 400)) ==> (r matches Err(e) && e
                == FetchError::RedirectRefused),
    {
        let code = match HttpClient::get_status_code(status_line) {
            Ok(c) => c,
            Err(e) => {
                return Err(e);
            },
        };
        if code >= 400 {
            return Err(FetchError::ServerError(code));
        }
        if code >= 300 {
            match self.cfg.redirect_policy {
                RedirectPolicy::NoFollow => {
                    return Err(FetchError::RedirectRefused);
                },
                RedirectPolicy::Follow(m) => {
                    if m == 0 {
                        return Err(FetchError::TooManyRedirects);
                    }
                    let headers = parse_headers(header_lines);
                    return self.handle_redirect(&headers, m);
                },
            }
        }
        let headers = parse_headers(header_lines);
        Ok(HttpStep::Response(HttpResponse { status: code, headers }))
    }

    /// Follows one redirect hop: finds the `Location` header, parses it, and
    /// re-issues the same method against it with one hop less to spend.
    pub fn handle_redirect(self, headers: &Vec<(String, String)>, max_redirects: u8) -> (r: Result<
        HttpStep,
        PError,
    >)
        requires
            max_redirects >= 1,
        ensures
            ({
                match spec_find_location(view_pairs(headers@)) {
                    None => r matches Err(e) && e == FetchError::RedirectMissingLocation,
                    Some(loc) => if url_ok(loc) {
                        r matches Ok(step) && step matches HttpStep::Redirect(next)
                            && redirect_target_ok(
                            next,
                            self.method,
                            self.cfg,
                            loc,
                            (max_redirects - 1) as u8,
                        )
                    } else {
                        r matches Err(e) && spec_parse_err(loc) == Some(e)
                    },
                }
            }),
    {
        match find_location(headers) {
            Some(loc) => {
                let b = match HttpClientBuilder::new().from_url(loc.as_str()) {
                    Ok(b) => b,
                    Err(e) => {
                        return Err(e);
                    },
                };
                let client = match b.with_config(&self.cfg).with_timeout_ms(
                    self.cfg.timeout_ms,
                ).with_redirect_policy(RedirectPolicy::Follow(max_redirects - 1)).build() {
                    Ok(c) => c,
                    Err(e) => {
                        proof {
                            lemma_spec_dec_len(spec_port(loc@));
                        }
                        return Err(e);
                    },
                };
                let next = match self.method {
                    Method::Get => client.get(loc.as_str()),
                    Method::Head => client.head(loc.as_str()),
                };
                match next {
                    Ok(p) => Ok(HttpStep::Redirect(p)),
                    Err(e) => Err(e),
                }
            },
            None => Err(FetchError::RedirectMissingLocation),
        }
    }
}

/// The budget left after `k` hops of a chain in which every response is a
/// redirect that the client follows.
pub open spec fn spec_policy_after(p: RedirectPolicy, k: int) -> Result<RedirectPolicy, FetchError>
    decreases k,
{
    if k <= 0 {
        Ok(p)
    } else {
        match spec_policy_after(p, k - 1) {
            Ok(q) => match spec_redirect_decision(q) {
                Ok(m2) => Ok(RedirectPolicy::Follow(m2)),
                Err(e) => Err(e),
            },
            Err(e) => Err(e),
        }
    }
}

/// Under `Follow(n)`, an endless chain of redirects is followed exactly `n`
/// times: after `k <= n` hops the budget reads `n - k`.
pub proof fn lemma_redirect_chain(n: u8, k: int)
    requires
        0 <= k <= n,
    ensures
        spec_policy_after(RedirectPolicy::Follow(n), k) == Ok::<RedirectPolicy, FetchError>(
            RedirectPolicy::Follow((n - k) as u8),
        ),
    decreases k,
{
    if k > 0 {
        lemma_redirect_chain(n, k - 1);
    }
}

/// The hop after the budget is spent fails with `TooManyRedirects`.
pub proof fn lemma_redirect_chain_fails(n: u8)
    ensures
        spec_policy_after(RedirectPolicy::Follow(n), n as int + 1) == Err::<
            RedirectPolicy,
            FetchError,
        >(FetchError::TooManyRedirects),
{
    lemma_redirect_chain(n, n as int);
}

/// Parses `url` and serializes a HEAD request for its path under the default
/// configuration.
pub fn head(url: &str) -> (r: Result<PendingRequest, PError>)
    ensures
        r is Ok <==> url_ok(url@),
        r matches Ok(p) ==> ({
            &&& p.method == Method::Head
            &&& p.domain@ == spec_domain(url@)
            &&& p.host_addr@ == spec_host_addr(url@)
            &&& p.tls == (spec_scheme(url@) == "https"@)
            &&& p.cfg.redirect_policy == RedirectPolicy::Follow(DEFAULT_MAX_REDIRECTS)
            &&& p.cfg.timeout_ms == DEFAULT_TIMEOUT_MS
            &&& p.cfg.user_agent@ == "fget/0.1.0"@
            &&& p.request_text@ == spec_request(
                Method::Head,
                spec_path(url@),
                spec_host_addr(url@),
                "fget/0.1.0"@,
                Seq::empty(),
            )
        }),
        r matches Err(e) ==> spec_parse_err(url@) == Some(e),
{
    let ui = match UrlInfo::parse(url) {
        Ok(u) => u,
        Err(e) => {
            return Err(e);
        },
    };
    let c = match HttpClient::builder().from_url_info(&ui).build() {
        Ok(c) => c,
        Err(e) => {
            proof {
                lemma_spec_dec_len(ui.port as int);
            }
            return Err(e);
        },
    };
    c.head(ui.path.as_str())
}

/// Parses `url` and serializes a GET request for its path under the default
/// configuration.
pub fn get(url: &str) -> (r: Result<PendingRequest, PError>)
    ensures
        r is Ok <==> url_ok(url@),
        r matches Ok(p) ==> ({
            &&& p.method == Method::Get
            &&& p.domain@ == spec_domain(url@)
            &&& p.host_addr@ == spec_host_addr(url@)
            &&& p.tls == (spec_scheme(url@) == "https"@)
            &&& p.cfg.redirect_policy == RedirectPolicy::Follow(DEFAULT_MAX_REDIRECTS)
            &&& p.cfg.timeout_ms == DEFAULT_TIMEOUT_MS
            &&& p.cfg.user_agent@ == "fget/0.1.0"@
            &&& p.request_text@ == spec_request(
                Method::Get,
                spec_path(url@),
                spec_host_addr(url@),
                "fget/0.1.0"@,
                Seq::empty(),
            )
        }),
        r matches Err(e) ==> spec_parse_err(url@) == Some(e),
{
    let ui = match UrlInfo::parse(url) {
        Ok(u) => u,
        Err(e) => {
            return Err(e);
        },
    };
    let c = match HttpClient::builder().from_url_info(&ui).build() {
        Ok(c) => c,
        Err(e) => {
            proof {
                lemma_spec_dec_len(ui.port as int);
            }
            return Err(e);
        },
    };
    c.get(ui.path.as_str())
}

/// Accumulates connection parameters and configuration for a client.
pub struct HttpClientBuilder {
    pub host_addr: String,
    pub tls: bool,
    pub domain: String,
    pub cfg: HttpConfig,
}

impl HttpClientBuilder {
    pub fn new() -> (r: HttpClientBuilder)
        ensures
            r.host_addr@.len() == 0 && r.domain@.len() == 0 && !r.tls,
            r.cfg.redirect_policy == RedirectPolicy::Follow(DEFAULT_MAX_REDIRECTS),
            r.cfg.timeout_ms == DEFAULT_TIMEOUT_MS,
            r.cfg.user_agent@ == "fget/0.1.0"@,
    {
        HttpClientBuilder {
            host_addr: String::new(),
            tls: false,
            domain: String::new(),
            cfg: HttpConfig {
                redirect_policy: RedirectPolicy::Follow(DEFAULT_MAX_REDIRECTS),
                timeout_ms: DEFAULT_TIMEOUT_MS,
                user_agent: "fget/0.1.0".to_owned(),
            },
        }
    }

    /// Points the builder at the parsed form of `url`.
    pub fn from_url(self, url: &str) -> (r: Result<HttpClientBuilder, PError>)
        ensures
            r is Ok <==> url_ok(url@),
            r matches Ok(b) ==> b.host_addr@ == spec_domain(url@) + seq![':'] + spec_dec(
                spec_port(url@),
            ) && b.domain@ == spec_domain(url@) && b.tls == (spec_scheme(url@) == "https"@)
                && b.cfg == self.cfg,
            r matches Err(e) ==> spec_parse_err(url@) == Some(e),
    {
        match UrlInfo::parse(url) {
            Ok(info) => Ok(self.from_url_info(&info)),
            Err(e) => Err(e),
        }
    }

    /// Points the builder at an already-parsed URL.
    pub fn from_url_info(self, urlinfo: &UrlInfo) -> (r: HttpClientBuilder)
        ensures
            r.host_addr@ == urlinfo.domain@ + seq![':'] + spec_dec(urlinfo.port as int),
            r.domain@ == urlinfo.domain@,
            r.tls == (urlinfo.scheme@ == "https"@),
            r.cfg == self.cfg,
    {
        let host_addr = urlinfo.host_addr();
        let tls = urlinfo.is_tls();
        HttpClientBuilder { host_addr, tls, domain: urlinfo.domain.clone(), cfg: self.cfg }
    }

    pub fn with_config(self, cfg: &HttpConfig) -> (r: HttpClientBuilder)
        ensures
            r.cfg == *cfg,
            r.host_addr@ == self.host_addr@ && r.domain@ == self.domain@ && r.tls == self.tls,
    {
        HttpClientBuilder {
            host_addr: self.host_addr,
            tls: self.tls,
            domain: self.domain,
            cfg: cfg.clone_config(),
        }
    }

    pub fn with_timeout_ms(self, timeout_ms: u64) -> (r: HttpClientBuilder)
        ensures
            r.cfg.timeout_ms == timeout_ms,
            r.cfg.redirect_policy == self.cfg.redirect_policy,
            r.cfg.user_agent@ == self.cfg.user_agent@,
            r.host_addr@ == self.host_addr@ && r.domain@ == self.domain@ && r.tls == self.tls,
    {
        HttpClientBuilder {
            host_addr: self.host_addr,
            tls: self.tls,
            domain: self.domain,
            cfg: HttpConfig {
                redirect_policy: self.cfg.redirect_policy,
                timeout_ms,
                user_agent: self.cfg.user_agent,
            },
        }
    }

    pub fn with_redirect_policy(self, policy: RedirectPolicy) -> (r: HttpClientBuilder)
        ensures
            r.cfg.redirect_policy == policy,
            r.cfg.timeout_ms == self.cfg.timeout_ms,
            r.cfg.user_agent@ == self.cfg.user_agent@,
            r.host_addr@ == self.host_addr@ && r.domain@ == self.domain@ && r.tls == self.tls,
    {
        HttpClientBuilder {
            host_addr: self.host_addr,
            tls: self.tls,
            domain: self.domain,
            cfg: HttpConfig {
                redirect_policy: policy,
                timeout_ms: self.cfg.timeout_ms,
                user_agent: self.cfg.user_agent,
            },
        }
    }

    pub fn with_user_agent(self, ua: &str) -> (r: HttpClientBuilder)
        ensures
            r.cfg.user_agent@ == ua@,
            r.cfg.redirect_policy == self.cfg.redirect_policy,
            r.cfg.timeout_ms == self.cfg.timeout_ms,
            r.host_addr@ == self.host_addr@ && r.domain@ == self.domain@ && r.tls == self.tls,
    {
        HttpClientBuilder {
            host_addr: self.host_addr,
            tls: self.tls,
            domain: self.domain,
            cfg: HttpConfig {
                redirect_policy: self.cfg.redirect_policy,
                timeout_ms: self.cfg.timeout_ms,
                user_agent: ua.to_owned(),
            },
        }
    }

    pub fn with_host_addr(self, addr: &str) -> (r: HttpClientBuilder)
        ensures
            r.host_addr@ == addr@,
            r.domain@ == self.domain@ && r.tls == self.tls && r.cfg == self.cfg,
    {
        HttpClientBuilder {
            host_addr: addr.to_owned(),
            tls: self.tls,
            domain: self.domain,
            cfg: self.cfg,
        }
    }

    pub fn with_tls(self, domain: &str) -> (r: HttpClientBuilder)
        ensures
            r.tls,
            r.domain@ == domain@,
            r.host_addr@ == self.host_addr@ && r.cfg == self.cfg,
    {
        HttpClientBuilder {
            host_addr: self.host_addr,
            tls: true,
            domain: domain.to_owned(),
            cfg: self.cfg,
        }
    }

    /// A client for the recorded endpoint; refused when no host address was
    /// ever given.
    pub fn build(self) -> (r: Result<HttpClient, PError>)
        ensures
            r is Ok <==> self.host_addr@.len() > 0,
            r matches Ok(c) ==> c.host_addr@ == self.host_addr@ && c.domain@ == self.domain@
                && c.tls == self.tls && c.cfg == self.cfg,
    {
        if self.host_addr.as_str().unicode_len() == 0 {
            return Err(crate::errors::make_error("no host_addr specified"));
        }
        HttpClient::connect(
            self.host_addr.as_str(),
            self.domain.as_str(),
            self.tls,
            &self.cfg,
        )
    }
}

} // verus!
