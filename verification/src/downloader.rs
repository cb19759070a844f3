//! The download controller's logic: reading metadata out of a HEAD
//! response, planning the partition, accounting for worker progress,
//! reacting to worker events, and merging the parts in order. The sockets,
//! threads and files that carry it all live outside the library.

use vstd::prelude::*;

use crate::errors::FetchError;
use crate::errors::PError;
use crate::httpx::spec_request;
use crate::httpx::view_pairs;
use crate::httpx::HttpClient;
use crate::httpx::HttpHeaders;
use crate::httpx::HttpResponse;
use crate::httpx::Method;
use crate::httpx::PendingRequest;
use crate::httpx::RedirectPolicy;
use crate::httpx::DEFAULT_MAX_REDIRECTS;
use crate::httpx::DEFAULT_TIMEOUT_MS;
use crate::strutil::dec_fits;
use crate::strutil::digits_val;
use crate::strutil::lemma_spec_dec_len;
use crate::strutil::lower_chars;
use crate::strutil::eq_ignore_case;
use crate::strutil::parse_u64_dec;
use crate::strutil::push_char;
use crate::strutil::push_dec_u64;
use crate::strutil::spec_dec;
use crate::strutil::str_eq;
use crate::strutil::u64_to_string;
use crate::urlinfo::UrlInfo;
use crate::Config;

verus! {

/// The event sink the controller reports to; the renderer behind it is not
/// the library's business.
pub trait DownloadObserver {
    fn on_init(&mut self, len: usize);

    fn on_download_start(&mut self, idx: u8, len: u64);

    fn on_progress(&mut self, idx: u8, pos: u64);

    fn on_download_end(&mut self, idx: u8);
}

/// What the HEAD probe revealed about the resource.
pub struct DownloadInfo {
    pub range_supported: bool,
    pub content_type: String,
    pub len: u64,
}

/// One event a worker sends the controller.
#[derive(Debug)]
pub enum DownloadStatus {
    /// A part began; carries the part's byte count.
    Started(u8, u64),
    /// Bytes done so far within the part.
    Progress(u8, u64),
    /// The part cannot be finished, with the cause.
    Failed(u8, String),
    /// The part is complete, with its temp file path.
    Done(u8, String),
}

/// Folds the headers left to right: the last `Content-Length`,
/// `Accept-Ranges` and `Content-Type` win, and an unreadable
/// `Content-Length` voids the whole probe.
pub open spec fn spec_dlinfo_from(
    hs: Seq<(Seq<char>, Seq<char>)>,
    len: int,
    range: bool,
    ctype: Seq<char>,
) -> Option<(int, bool, Seq<char>)>
    decreases hs.len(),
{
    if hs.len() == 0 {
        Some((len, range, ctype))
    } else {
        let k = hs[0].0;
        let v = hs[0].1;
        if lower_chars(k) == lower_chars("content-length"@) {
            if dec_fits(v, u64::MAX as int) {
                spec_dlinfo_from(hs.drop_first(), digits_val(v), range, ctype)
            } else {
                None
            }
        } else if lower_chars(k) == lower_chars("accept-ranges"@) {
            spec_dlinfo_from(hs.drop_first(), len, v == "bytes"@, ctype)
        } else if lower_chars(k) == lower_chars("content-type"@) {
            spec_dlinfo_from(hs.drop_first(), len, range, v)
        } else {
            spec_dlinfo_from(hs.drop_first(), len, range, ctype)
        }
    }
}

pub open spec fn spec_dlinfo(hs: Seq<(Seq<char>, Seq<char>)>) -> Option<(int, bool, Seq<char>)> {
    spec_dlinfo_from(hs, 0, false, Seq::empty())
}

/// Reads length, range support and content type out of a response's
/// headers; range support means a literal `Accept-Ranges: bytes`.
pub fn get_download_info(resp: &HttpResponse) -> (r: Result<DownloadInfo, PError>)
    ensures
        r is Ok <==> spec_dlinfo(view_pairs(resp.headers@)) is Some,
        r matches Ok(d) ==> spec_dlinfo(view_pairs(resp.headers@)) == Some(
            (d.len as int, d.range_supported, d.content_type@),
        ),
        r matches Err(e) ==> e == FetchError::MalformedHeader,
{
    let ghost hs = view_pairs(resp.headers@);
    let n = resp.headers.len();
    let mut len: u64 = 0;
    let mut range: bool = false;
    let mut ctype: String = String::new();
    let mut i: usize = 0;
    proof {
        assert(hs.skip(0) =~= hs);
    }
    while i < n
        invariant
            0 <= i <= n == resp.headers@.len(),
            hs == view_pairs(resp.headers@),
            spec_dlinfo(hs) == spec_dlinfo_from(hs.skip(i as int), len as int, range, ctype@),
        decreases n - i,
    {
        proof {
            assert(hs.skip(i as int)[0] == (resp.headers@[i as int].0@, resp.headers@[i as int].1@));
            assert(hs.skip(i as int).drop_first() =~= hs.skip(i + 1));
        }
        let key = resp.headers[i].0.as_str();
        let val = resp.headers[i].1.as_str();
        if eq_ignore_case(key, "content-length") {
            match parse_u64_dec(val) {
                Some(v) => {
                    len = v;
                },
                None => {
                    return Err(FetchError::MalformedHeader);
                },
            }
        } else if eq_ignore_case(key, "accept-ranges") {
            range = str_eq(val, "bytes");
        } else if eq_ignore_case(key, "content-type") {
            ctype = resp.headers[i].1.clone();
        }
        i = i + 1;
    }
    proof {
        assert(hs.skip(n as int) =~= Seq::<(Seq<char>, Seq<char>)>::empty());
    }
    Ok(DownloadInfo { range_supported: range, content_type: ctype, len })
}

/// A download may not be empty; a zero or missing `Content-Length` is
/// refused before any worker is spawned.
pub fn check_content_length(dlinfo: &DownloadInfo) -> (r: Result<(), PError>)
    ensures
        r is Ok <==> dlinfo.len > 0,
        r matches Err(e) ==> e == FetchError::EmptyContentLength,
{
    if dlinfo.len == 0 {
        Err(FetchError::EmptyContentLength)
    } else {
        Ok(())
    }
}

/// Ranged fan-out only happens when the server advertises it: without
/// `Accept-Ranges: bytes` the thread count collapses to one.
pub fn effective_threads(range_supported: bool, num_threads: u8) -> (r: u8)
    ensures
        r == (if range_supported {
            num_threads
        } else {
            1u8
        }),
{
    if range_supported {
        num_threads
    } else {
        1
    }
}

/// The value and unit `format_byte_length` settles on: divide by 1024 until
/// the value drops under 1024 or the units run out.
pub open spec fn spec_scale(v: int, k: int) -> (int, int)
    decreases 4 - k,
{
    if v < 1024 || k >= 4 {
        (v, k)
    } else {
        spec_scale(v / 1024, k + 1)
    }
}

pub open spec fn unit_text(k: int) -> Seq<char> {
    if k == 0 {
        "B"@
    } else if k == 1 {
        "kB"@
    } else if k == 2 {
        "MB"@
    } else if k == 3 {
        "GB"@
    } else {
        "TB"@
    }
}

/// A byte count in human-readable form, `<scaled> <unit>`.
pub fn format_byte_length(len: u64) -> (r: String)
    ensures
        r@ == spec_dec(spec_scale(len as int, 0).0) + " "@ + unit_text(spec_scale(len as int, 0).1),
{
    let mut value: u64 = len;
    let mut k: u8 = 0;
    while value >= 1024 && k < 4
        invariant
            0 <= k <= 4,
            spec_scale(len as int, 0) == spec_scale(value as int, k as int),
        decreases value,
    {
        value = value / 1024;
        k = k + 1;
    }
    let mut s = u64_to_string(value);
    s.append(" ");
    match k {
        0 => s.append("B"),
        1 => s.append("kB"),
        2 => s.append("MB"),
        3 => s.append("GB"),
        _ => s.append("TB"),
    }
    proof {
        assert(s@ =~= spec_dec(spec_scale(len as int, 0).0) + " "@ + unit_text(
            spec_scale(len as int, 0).1,
        ));
    }
    s
}

/// The per-part temp file path `<dir>/<fname>.<idx>`.
pub fn temp_path(dir: &str, fname: &str, idx: u8) -> (r: String)
    ensures
        r@ == dir@ + seq!['/'] + fname@ + seq!['.'] + spec_dec(idx as int),
{
    let mut s = dir.to_owned();
    push_char(&mut s, '/');
    s.append(fname);
    push_char(&mut s, '.');
    push_dec_u64(&mut s, idx as u64);
    proof {
        assert(s@ =~= dir@ + seq!['/'] + fname@ + seq!['.'] + spec_dec(idx as int));
    }
    s
}

/// The `bytes=<start>-<end>` value of a ranged request, both ends
/// inclusive.
pub fn format_range(start: u64, end: u64) -> (r: String)
    ensures
        r@ == "bytes="@ + spec_dec(start as int) + seq!['-'] + spec_dec(end as int),
{
    let mut s = "bytes=".to_owned();
    push_dec_u64(&mut s, start);
    push_char(&mut s, '-');
    push_dec_u64(&mut s, end);
    proof {
        assert(s@ =~= "bytes="@ + spec_dec(start as int) + seq!['-'] + spec_dec(end as int));
    }
    s
}

/// The `key: value` lines info mode prints, one per header in order.
pub fn format_header_lines(headers: &Vec<(String, String)>) -> (r: Vec<String>)
    ensures
        r@.len() == headers@.len(),
        forall|i: int| 0 <= i < r@.len() ==> r@[i]@ == headers@[i].0@ + ": "@ + headers@[i].1@,
{
    let n = headers.len();
    let mut r: Vec<String> = Vec::new();
    let mut i: usize = 0;
    while i < n
        invariant
            0 <= i <= n == headers@.len(),
            r@.len() == i,
            forall|j: int| 0 <= j < i ==> r@[j]@ == headers@[j].0@ + ": "@ + headers@[j].1@,
        decreases n - i,
    {
        let mut line = headers[i].0.clone();
        line.append(": ");
        line.append(headers[i].1.as_str());
        r.push(line);
        i = i + 1;
    }
    r
}

/// Index of the address to dial: the first IPv4 entry when there is one,
/// else the first entry of all.
pub fn pick_addr_index(is_v4: &Vec<bool>) -> (r: Option<usize>)
    ensures
        r is None <==> is_v4@.len() == 0,
        r matches Some(i) ==> i < is_v4@.len() && (if (exists|j: int|
            0 <= j < is_v4@.len() && is_v4@[j]
        ) {
            is_v4@[i as int] && (forall|j: int| 0 <= j < i ==> !is_v4@[j])
        } else {
            i == 0
        }),
{
    let n = is_v4.len();
    if n == 0 {
        return None;
    }
    let mut i: usize = 0;
    while i < n
        invariant
            0 <= i <= n == is_v4@.len(),
            forall|j: int| 0 <= j < i ==> !is_v4@[j],
        decreases n - i,
    {
        if is_v4[i] {
            return Some(i);
        }
        i = i + 1;
    }
    Some(0)
}

/// A client configured as the options ask: redirects off under
/// `no_redirect`, the timeout in milliseconds, and the caller's user agent
/// when one was given.
pub fn build_client(cfg: &Config, urlinfo: &UrlInfo) -> (r: Result<HttpClient, PError>)
    ensures
        r is Ok,
        r matches Ok(c) ==> ({
            &&& c.host_addr@ == urlinfo.domain@ + seq![':'] + spec_dec(urlinfo.port as int)
            &&& c.domain@ == urlinfo.domain@
            &&& c.tls == (urlinfo.scheme@ == "https"@)
            &&& c.cfg.redirect_policy == (if cfg.no_redirect {
                RedirectPolicy::NoFollow
            } else {
                RedirectPolicy::Follow(DEFAULT_MAX_REDIRECTS)
            })
            &&& c.cfg.timeout_ms as int == (if cfg.timeout > 0 {
                cfg.timeout as int * 1000
            } else {
                DEFAULT_TIMEOUT_MS as int
            })
            &&& c.cfg.user_agent@ == (match cfg.user_agent {
                Some(ua) => ua@,
                None => "fget/0.1.0"@,
            })
        }),
{
    let mut builder = HttpClient::builder().from_url_info(urlinfo);
    if cfg.no_redirect {
        builder = builder.with_redirect_policy(RedirectPolicy::NoFollow);
    }
    if cfg.timeout > 0 {
        builder = builder.with_timeout_ms(cfg.timeout as u64 * 1000);
    }
    match &cfg.user_agent {
        Some(ua) => {
            builder = builder.with_user_agent(ua.as_str());
        },
        None => {},
    }
    match builder.build() {
        Ok(c) => Ok(c),
        Err(e) => {
            proof {
                lemma_spec_dec_len(urlinfo.port as int);
            }
            Err(e)
        },
    }
}

/// The ranged GET a worker issues for its part: the part's client with a
/// single `Range: bytes=<start>-<end>` header.
pub fn part_request(cfg: &Config, urlinfo: &UrlInfo, start: u64, end: u64) -> (r: Result<
    PendingRequest,
    PError,
>)
    ensures
        r is Ok,
        r matches Ok(p) ==> ({
            &&& p.method == Method::Get
            &&& p.domain@ == urlinfo.domain@
            &&& p.tls == (urlinfo.scheme@ == "https"@)
            &&& p.request_text@ == spec_request(
                Method::Get,
                urlinfo.path@,
                urlinfo.domain@ + seq![':'] + spec_dec(urlinfo.port as int),
                (match cfg.user_agent {
                    Some(ua) => ua@,
                    None => "fget/0.1.0"@,
                }),
                seq![
                    (
                        "Range"@,
                        "bytes="@ + spec_dec(start as int) + seq!['-'] + spec_dec(end as int),
                    ),
                ],
            )
            &&& p.cfg.redirect_policy == (if cfg.no_redirect {
                RedirectPolicy::NoFollow
            } else {
                RedirectPolicy::Follow(DEFAULT_MAX_REDIRECTS)
            })
        }),
{
    let mut headers: HttpHeaders = Vec::new();
    headers.push(("Range".to_owned(), format_range(start, end)));
    let client = match build_client(cfg, urlinfo) {
        Ok(c) => c,
        Err(e) => {
            return Err(e);
        },
    };
    proof {
        assert(view_pairs(headers@) =~= seq![
            ("Range"@, "bytes="@ + spec_dec(start as int) + seq!['-'] + spec_dec(end as int)),
        ]);
    }
    client.get_with_headers(&urlinfo.path, &headers)
}

/// Where the merged file goes: the `-o` option when given, else the
/// filename the URL carries.
pub fn output_path(cfg: &Config, urlinfo: &UrlInfo) -> (r: String)
    ensures
        r@ == (match cfg.output {
            Some(o) => o@,
            None => urlinfo.fname@,
        }),
{
    match &cfg.output {
        Some(o) => o.clone(),
        None => urlinfo.fname.clone(),
    }
}

/// Bytes per part: the length divided by the part count, rounded up.
pub open spec fn chunk_size(len: int, n: int) -> int {
    (len + n - 1) / n
}

/// Where part `i` begins.
pub open spec fn part_start(len: int, n: int, i: int) -> int {
    i * chunk_size(len, n)
}

/// Where part `i` ends (inclusive); the last part absorbs the remainder.
pub open spec fn part_end(len: int, n: int, i: int) -> int {
    let e = (i + 1) * chunk_size(len, n) - 1;
    if e < len - 1 {
        e
    } else {
        len - 1
    }
}

/// Whether byte `o` belongs to part `i`.
pub open spec fn in_part(len: int, n: int, i: int, o: int) -> bool {
    part_start(len, n, i) <= o <= part_end(len, n, i)
}

/// Whether some part holds byte `o`.
pub open spec fn covered(len: int, n: int, o: int) -> bool {
    exists|i: int| 0 <= i < n && #[trigger] in_part(len, n, i, o)
}

proof fn lemma_chunk_bounds(len: int, n: int)
    requires
        1 <= n,
        1 <= len,
    ensures
        chunk_size(len, n) >= 1,
        n * chunk_size(len, n) >= len,
        n * chunk_size(len, n) <= len + n - 1,
{
    let a = len + n - 1;
    let q = a / n;
    vstd::arithmetic::div_mod::lemma_fundamental_div_mod(a, n);
    vstd::arithmetic::div_mod::lemma_mod_division_less_than_divisor(a, n);
    assert(n * q == a - a % n);
    assert(n * q >= len);
    if q < 1 {
        assert(n * q <= 0) by (nonlinear_arith)
            requires
                n >= 1,
                q <= 0,
        ;
    }
}

/// The partition law: the parts cover `[0, len)` exactly and pairwise
/// disjointly, part 0 starts at 0 and the last part ends at `len - 1`; with
/// more parts than bytes, the first `len` parts hold one byte each and the
/// rest are empty.
pub proof fn lemma_partition(len: int, n: int)
    requires
        1 <= n <= 32,
        1 <= len,
    ensures
        part_start(len, n, 0) == 0,
        part_end(len, n, n - 1) == len - 1,
        forall|o: int| 0 <= o < len ==> #[trigger] covered(len, n, o),
        forall|i: int, j: int, o: int|
            0 <= i < n && 0 <= j < n && in_part(len, n, i, o) && in_part(len, n, j, o) ==> i == j,
        len < n ==> (forall|i: int|
            0 <= i < len ==> part_start(len, n, i) == i && part_end(len, n, i) == i),
        len < n ==> (forall|i: int|
            len <= i < n ==> #[trigger] part_start(len, n, i) > part_end(len, n, i)),
{
    let q = chunk_size(len, n);
    lemma_chunk_bounds(len, n);
    assert(part_start(len, n, 0) == 0);
    assert(part_end(len, n, n - 1) == len - 1);
    assert forall|o: int| 0 <= o < len implies #[trigger] covered(len, n, o) by {
        let i = o / q;
        vstd::arithmetic::div_mod::lemma_fundamental_div_mod(o, q);
        vstd::arithmetic::div_mod::lemma_mod_division_less_than_divisor(o, q);
        assert(i >= 0) by (nonlinear_arith)
            requires
                o >= 0,
                q >= 1,
                o == q * i + o % q,
                o % q < q,
        ;
        assert(i * q <= o < i * q + q) by (nonlinear_arith)
            requires
                o == q * i + o % q,
                0 <= o % q < q,
        ;
        if i >= n {
            vstd::arithmetic::mul::lemma_mul_inequality(n, i, q);
            assert(false);
        }
        assert((i + 1) * q == i * q + q) by (nonlinear_arith);
        assert(in_part(len, n, i, o));
    };
    assert forall|i: int, j: int, o: int|
        0 <= i < n && 0 <= j < n && in_part(len, n, i, o) && in_part(len, n, j, o) implies i
        == j by {
        if i < j {
            vstd::arithmetic::mul::lemma_mul_inequality(i + 1, j, q);
            assert((i + 1) * q == i * q + q) by (nonlinear_arith);
            assert(false);
        }
        if j < i {
            vstd::arithmetic::mul::lemma_mul_inequality(j + 1, i, q);
            assert((j + 1) * q == j * q + q) by (nonlinear_arith);
            assert(false);
        }
    };
    if len < n {
        assert(q == 1) by (nonlinear_arith)
            requires
                n * q >= len >= 1,
                n * q <= len + n - 1,
                len < n,
                q >= 1,
                1 <= n,
        ;
        assert forall|i: int| 0 <= i < len implies part_start(len, n, i) == i && part_end(
            len,
            n,
            i,
        ) == i by {
            assert(i * 1 == i) by (nonlinear_arith);
            assert((i + 1) * 1 == i + 1) by (nonlinear_arith);
        };
        assert forall|i: int| len <= i < n implies #[trigger] part_start(len, n, i) > part_end(
            len,
            n,
            i,
        ) by {
            assert(i * 1 == i) by (nonlinear_arith);
            assert((i + 1) * 1 == i + 1) by (nonlinear_arith);
        };
    }
}

/// Plans the fan-out: `n` contiguous inclusive ranges over `[0, len)` of
/// `ceil(len / n)` bytes each, the last absorbing the remainder.
pub fn make_parts(len: u64, n: u8) -> (parts: Vec<(u64, u64)>)
    requires
        1 <= n <= 32,
        1 <= len,
        len <= u64::MAX - 31,
    ensures
        parts@.len() == n as int,
        forall|i: int|
            0 <= i < n as int ==> (#[trigger] parts@[i]).0 as int == part_start(
                len as int,
                n as int,
                i,
            ) && parts@[i].1 as int == part_end(len as int, n as int, i),
{
    proof {
        lemma_chunk_bounds(len as int, n as int);
    }
    let chunk: u64 = (len - 1 + (n as u64)) / (n as u64);
    let mut parts: Vec<(u64, u64)> = Vec::new();
    let mut i: u8 = 0;
    while i < n
        invariant
            0 <= i <= n,
            1 <= n <= 32,
            1 <= len <= u64::MAX - 31,
            chunk as int == chunk_size(len as int, n as int),
            chunk >= 1,
            (n as int) * (chunk as int) <= len as int + n as int - 1,
            parts@.len() == i as int,
            forall|k: int|
                0 <= k < i as int ==> parts@[k].0 as int == part_start(len as int, n as int, k)
                    && parts@[k].1 as int == part_end(len as int, n as int, k),
        decreases n - i,
    {
        proof {
            vstd::arithmetic::mul::lemma_mul_inequality(
                i as int + 1,
                n as int,
                chunk as int,
            );
            assert((i as int + 1) * (chunk as int) == (i as int) * (chunk as int) + chunk as int)
                by (nonlinear_arith);
            assert((i as int) * (chunk as int) >= 0) by (nonlinear_arith)
                requires
                    i as int >= 0,
                    chunk as int >= 1,
            ;
        }
        let start: u64 = (i as u64) * chunk;
        let e: u64 = start + chunk - 1;
        let end: u64 = if e < len - 1 {
            e
        } else {
            len - 1
        };
        parts.push((start, end));
        i = i + 1;
    }
    parts
}

/// The byte count of an inclusive range; `end < start` encodes an empty
/// range.
pub open spec fn range_len(start: u64, end: u64) -> int {
    if start <= end {
        end - start + 1
    } else {
        0
    }
}

/// One worker's accounting for its part: how many bytes have arrived, and
/// the trail of progress values it has reported.
pub struct PartWorker {
    pub idx: u8,
    pub start: u64,
    pub end: u64,
    pub received: u64,
    pub temp_path: String,
    pub progress: Ghost<Seq<u64>>,
}

impl PartWorker {
    /// Bytes the part must deliver.
    pub open spec fn target(self) -> int {
        range_len(self.start, self.end)
    }

    /// Progress values grow strictly, end at the byte count received, and
    /// never pass the target.
    pub open spec fn wf(self) -> bool {
        &&& self.end < u64::MAX
        &&& self.received <= self.target()
        &&& (self.progress@.len() > 0 ==> self.progress@.last() == self.received)
        &&& (self.received > 0 ==> self.progress@.len() > 0)
        &&& (forall|i: int|
            0 <= i < self.progress@.len() - 1 ==> #[trigger] self.progress@[i]
                < self.progress@[i + 1])
    }

    /// Opens the part's accounting and yields the `Started` event, which
    /// carries the part's byte count.
    pub fn start_part(idx: u8, start: u64, end: u64, temp_path: String) -> (r: (
        PartWorker,
        DownloadStatus,
    ))
        requires
            end < u64::MAX,
        ensures
            r.0.wf(),
            r.0.idx == idx && r.0.start == start && r.0.end == end,
            r.0.received == 0 && r.0.progress@.len() == 0,
            r.0.temp_path@ == temp_path@,
            r.1 matches DownloadStatus::Started(i, l) && i == idx && l as int == range_len(
                start,
                end,
            ),
    {
        let target: u64 = if start <= end {
            end - start + 1
        } else {
            0
        };
        let w = PartWorker {
            idx,
            start,
            end,
            received: 0,
            temp_path,
            progress: Ghost(Seq::empty()),
        };
        (w, DownloadStatus::Started(idx, target))
    }

    /// Books `nread` freshly written bytes and yields the `Progress` event,
    /// which carries the bytes done within the part so far.
    pub fn on_chunk(&mut self, nread: u64) -> (ev: DownloadStatus)
        requires
            old(self).wf(),
            1 <= nread <= old(self).target() - old(self).received,
        ensures
            final(self).wf(),
            final(self).idx == old(self).idx && final(self).start == old(self).start,
            final(self).end == old(self).end && final(self).temp_path@ == old(self).temp_path@,
            final(self).received == old(self).received + nread,
            final(self).progress@ == old(self).progress@.push(final(self).received),
            ev matches DownloadStatus::Progress(i, p) && i == final(self).idx && p == final(
                self).received,
    {
        self.received = self.received + nread;
        proof {
            let p = self.progress@.push(self.received);
            assert(forall|i: int| 0 <= i < p.len() - 1 ==> #[trigger] p[i] < p[i + 1]);
        }
        let ghost updated = self.progress@.push(self.received);
        self.progress = Ghost(updated);
        DownloadStatus::Progress(self.idx, self.received)
    }

    /// Closes the part: complete delivery yields `Done` with the temp path,
    /// a short read is a failure.
    pub fn finish(self) -> (ev: DownloadStatus)
        requires
            self.wf(),
        ensures
            self.received as int == self.target() ==> (ev matches DownloadStatus::Done(i, path)
                && i == self.idx && path@ == self.temp_path@),
            (self.received as int) < self.target() ==> (ev matches DownloadStatus::Failed(i, _)
                && i == self.idx),
    {
        let target: u64 = if self.start <= self.end {
            self.end - self.start + 1
        } else {
            0
        };
        if self.received == target {
            DownloadStatus::Done(self.idx, self.temp_path)
        } else {
            DownloadStatus::Failed(self.idx, "short read before end of range".to_owned())
        }
    }
}

/// The progress deltas along a trail of cumulative values, each taken
/// against the value before it.
pub open spec fn deltas_sum(p: Seq<u64>) -> int
    decreases p.len(),
{
    if p.len() == 0 {
        0
    } else {
        deltas_sum(p.drop_last()) + (p.last() - (if p.len() >= 2 {
            p[p.len() - 2] as int
        } else {
            0
        }))
    }
}

proof fn lemma_deltas_telescope(p: Seq<u64>)
    ensures
        deltas_sum(p) == if p.len() == 0 {
            0
        } else {
            p.last() as int
        },
    decreases p.len(),
{
    if p.len() > 0 {
        lemma_deltas_telescope(p.drop_last());
        if p.len() >= 2 {
            assert(p.drop_last().last() == p[p.len() - 2]);
        }
    }
}

/// On success, the progress deltas a worker reported sum to exactly its
/// range length `end - start + 1`.
pub proof fn lemma_progress_deltas(w: PartWorker)
    requires
        w.wf(),
        w.received as int == w.target(),
    ensures
        deltas_sum(w.progress@) == w.target(),
{
    lemma_deltas_telescope(w.progress@);
    if w.progress@.len() == 0 {
        assert(w.received == 0);
    }
}

/// The controller's view of an ongoing fan-out: how many parts are still
/// running and where the finished ones put their bytes.
pub struct DownloadState {
    pub n: u8,
    pub remaining: u8,
    pub parts: Vec<String>,
}

impl DownloadState {
    pub open spec fn wf(self) -> bool {
        self.parts@.len() == self.n as int && self.remaining <= self.n
    }

    /// Opens the bookkeeping for `n` parts, none finished yet.
    pub fn init(n: u8) -> (r: DownloadState)
        requires
            n >= 1,
        ensures
            r.wf(),
            r.n == n && r.remaining == n,
            forall|i: int| 0 <= i < n as int ==> r.parts@[i]@.len() == 0,
    {
        let mut parts: Vec<String> = Vec::new();
        let mut i: u8 = 0;
        while i < n
            invariant
                0 <= i <= n,
                parts@.len() == i as int,
                forall|k: int| 0 <= k < i as int ==> parts@[k]@.len() == 0,
            decreases n - i,
        {
            parts.push(String::new());
            i = i + 1;
        }
        DownloadState { n, remaining: n, parts }
    }

    /// Reacts to one worker event: lifecycle events go to the observer, a
    /// completed part is recorded and counted down, and a failure ends the
    /// whole download with `DownloadFailed`. `Ok(true)` means every part is
    /// in.
    pub fn on_status<T: DownloadObserver>(&mut self, msg: DownloadStatus, ob: &mut T) -> (r: Result<
        bool,
        PError,
    >)
        requires
            old(self).wf(),
            old(self).remaining > 0,
            match msg {
                DownloadStatus::Started(i, _) => i < old(self).n,
                DownloadStatus::Progress(i, _) => i < old(self).n,
                DownloadStatus::Failed(i, _) => i < old(self).n,
                DownloadStatus::Done(i, _) => i < old(self).n,
            },
        ensures
            final(self).wf(),
            final(self).n == old(self).n,
            match msg {
                DownloadStatus::Started(_, _) => r matches Ok(b) && !b && *final(self) == *old(self),
                DownloadStatus::Progress(_, _) => r matches Ok(b) && !b && *final(self) == *old(self),
                DownloadStatus::Done(i, path) => {
                    &&& final(self).remaining == old(self).remaining - 1
                    &&& final(self).parts@ == old(self).parts@.update(i as int, path)
                    &&& r matches Ok(b) && b == (final(self).remaining == 0)
                },
                DownloadStatus::Failed(i, cause) => {
                    &&& *final(self) == *old(self)
                    &&& r matches Err(e) && e == FetchError::DownloadFailed(i, cause)
                },
            },
    {
        match msg {
            DownloadStatus::Started(idx, len) => {
                ob.on_download_start(idx, len);
                Ok(false)
            },
            DownloadStatus::Progress(idx, pos) => {
                ob.on_progress(idx, pos);
                Ok(false)
            },
            DownloadStatus::Failed(idx, cause) => {
                ob.on_download_end(idx);
                Err(FetchError::DownloadFailed(idx, cause))
            },
            DownloadStatus::Done(idx, path) => {
                self.parts[idx as usize] = path;
                ob.on_download_end(idx);
                self.remaining = self.remaining - 1;
                Ok(self.remaining == 0)
            },
        }
    }
}

/// The bytes of the parts, one after another.
pub open spec fn concat_bytes(ps: Seq<Seq<u8>>) -> Seq<u8>
    decreases ps.len(),
{
    if ps.len() == 0 {
        Seq::empty()
    } else {
        ps[0] + concat_bytes(ps.drop_first())
    }
}

proof fn lemma_concat_bytes_push(ps: Seq<Seq<u8>>, x: Seq<u8>)
    ensures
        concat_bytes(ps.push(x)) == concat_bytes(ps) + x,
    decreases ps.len(),
{
    if ps.len() == 0 {
        assert(ps.push(x).drop_first() =~= ps);
        assert(concat_bytes(ps.push(x)) =~= concat_bytes(ps) + x);
    } else {
        assert(ps.push(x).drop_first() =~= ps.drop_first().push(x));
        lemma_concat_bytes_push(ps.drop_first(), x);
        assert(concat_bytes(ps.push(x)) =~= concat_bytes(ps) + x);
    }
}

/// The slice of the resource that part `i` is asked for; an empty range
/// holds no bytes.
pub open spec fn part_slice(resource: Seq<u8>, n: int, i: int) -> Seq<u8> {
    let len = resource.len() as int;
    if part_start(len, n, i) <= part_end(len, n, i) {
        resource.subrange(part_start(len, n, i), part_end(len, n, i) + 1)
    } else {
        Seq::empty()
    }
}

spec fn clip_to(x: int, len: int) -> int {
    if x < len {
        x
    } else {
        len
    }
}

proof fn lemma_merge_suffix(resource: Seq<u8>, contents: Seq<Seq<u8>>, n: int, k: int)
    requires
        1 <= n <= 32,
        1 <= resource.len(),
        contents.len() == n,
        0 <= k <= n,
        forall|i: int| 0 <= i < n ==> contents[i] == part_slice(resource, n, i),
    ensures
        concat_bytes(contents.skip(k)) == resource.subrange(
            clip_to(part_start(resource.len() as int, n, k), resource.len() as int),
            resource.len() as int,
        ),
    decreases n - k,
{
    let len = resource.len() as int;
    let q = chunk_size(len, n);
    lemma_chunk_bounds(len, n);
    if k == n {
        assert(contents.skip(k) =~= Seq::<Seq<u8>>::empty());
        assert(n * q >= len);
        assert(clip_to(part_start(len, n, k), len) == len);
        assert(resource.subrange(len, len) =~= Seq::<u8>::empty());
    } else {
        lemma_merge_suffix(resource, contents, n, k + 1);
        assert(k * q >= 0) by (nonlinear_arith)
            requires
                k >= 0,
                q >= 1,
        ;
        assert((k + 1) * q == k * q + q) by (nonlinear_arith);
        let s0 = clip_to(part_start(len, n, k), len);
        let s1 = clip_to(part_start(len, n, k + 1), len);
        assert(contents.skip(k)[0] == contents[k]);
        assert(contents.skip(k).drop_first() =~= contents.skip(k + 1));
        assert(concat_bytes(contents.skip(k)) == contents[k] + concat_bytes(contents.skip(k + 1)));
        assert(resource.subrange(s0, len) =~= contents[k] + resource.subrange(s1, len));
    }
}

/// When the server is honest about ranges, every part holds exactly its
/// slice of the resource, and the merge rebuilds the resource byte for
/// byte.
pub proof fn lemma_merge_reconstructs(resource: Seq<u8>, contents: Seq<Seq<u8>>, n: int)
    requires
        1 <= n <= 32,
        1 <= resource.len(),
        contents.len() == n,
        forall|i: int| 0 <= i < n ==> contents[i] == part_slice(resource, n, i),
    ensures
        concat_bytes(contents) == resource,
{
    let len = resource.len() as int;
    lemma_merge_suffix(resource, contents, n, 0);
    assert(contents.skip(0) =~= contents);
    assert(part_start(len, n, 0) == 0);
    assert(resource.subrange(0, len) =~= resource);
}

/// Merges the parts in ascending index order: the output is byte-for-byte
/// the concatenation of the parts' contents.
pub fn merge_parts(parts: &Vec<Vec<u8>>) -> (out: Vec<u8>)
    ensures
        out@ == concat_bytes(parts@.map_values(|p: Vec<u8>| p@)),
{
    let ghost ps = parts@.map_values(|p: Vec<u8>| p@);
    let n = parts.len();
    let mut out: Vec<u8> = Vec::new();
    let mut i: usize = 0;
    proof {
        assert(ps.take(0) =~= Seq::<Seq<u8>>::empty());
        assert(out@ =~= concat_bytes(ps.take(0)));
    }
    while i < n
        invariant
            0 <= i <= n == parts@.len(),
            ps == parts@.map_values(|p: Vec<u8>| p@),
            out@ == concat_bytes(ps.take(i as int)),
        decreases n - i,
    {
        let m = parts[i].len();
        let mut j: usize = 0;
        while j < m
            invariant
                0 <= j <= m == parts@[i as int]@.len(),
                0 <= i < n == parts@.len(),
                ps == parts@.map_values(|p: Vec<u8>| p@),
                out@ == concat_bytes(ps.take(i as int)) + ps[i as int].take(j as int),
            decreases m - j,
        {
            out.push(parts[i][j]);
            proof {
                assert(ps[i as int].take(j + 1) =~= ps[i as int].take(j as int).push(
                    ps[i as int][j as int],
                ));
            }
            j = j + 1;
        }
        proof {
            lemma_concat_bytes_push(ps.take(i as int), ps[i as int]);
            assert(ps.take(i + 1) =~= ps.take(i as int).push(ps[i as int]));
            assert(ps[i as int].take(m as int) =~= ps[i as int]);
        }
        i = i + 1;
    }
    proof {
        assert(ps.take(n as int) =~= ps);
    }
    out
}

} // verus!

