use vstd::prelude::*;

use crate::strutil::push_dec_u64;
use crate::strutil::spec_dec;

verus! {

/// The single tagged error the library returns, one variant per failure kind.
#[derive(Debug, Clone, PartialEq, Eq)]
pub enum FetchError {
    // URL parsing
    BadScheme,
    BadPort,
    MalformedUrl,
    // network
    ResolveFailed,
    ConnectTimeout,
    ConnectRefused,
    TlsHandshake,
    ReadError,
    WriteError,
    // protocol
    MalformedStatusLine,
    MalformedHeader,
    ServerError(u16),
    RedirectRefused,
    RedirectMissingLocation,
    TooManyRedirects,
    UnsupportedMethod,
    EmptyContentLength,
    // worker: failing part index and its cause
    DownloadFailed(u8, String),
    // local file handling
    TempFileCreate,
    FileWrite,
    Rename,
    Merge,
    // free-form message
    Custom(String),
}

impl FetchError {
    /// The one-line diagnostic each error prints as.
    pub open spec fn spec_message(self) -> Seq<char> {
        match self {
            FetchError::BadScheme => "Invalid scheme"@,
            FetchError::BadPort => "Invalid port"@,
            FetchError::MalformedUrl => "Invalid URL"@,
            FetchError::ResolveFailed => "no valid host address found"@,
            FetchError::ConnectTimeout => "connection timed out"@,
            FetchError::ConnectRefused => "connection refused"@,
            FetchError::TlsHandshake => "TLS handshake failed"@,
            FetchError::ReadError => "read error"@,
            FetchError::WriteError => "write error"@,
            FetchError::MalformedStatusLine => "invalid response"@,
            FetchError::MalformedHeader => "invalid header"@,
            FetchError::ServerError(code) => "server response error: "@ + spec_dec(code as int),
            FetchError::RedirectRefused => "redirect is not supported"@,
            FetchError::RedirectMissingLocation => "server returned a redirect without a location header"@,
            FetchError::TooManyRedirects => "max redirects exceeded"@,
            FetchError::UnsupportedMethod => "unsupported method"@,
            FetchError::EmptyContentLength => "content length is zero"@,
            FetchError::DownloadFailed(part, cause) => "download failed at part "@ + spec_dec(
                part as int,
            ) + ": "@ + cause@,
            FetchError::TempFileCreate => "cannot create temp file"@,
            FetchError::FileWrite => "cannot write to file"@,
            FetchError::Rename => "cannot rename file"@,
            FetchError::Merge => "cannot merge parts"@,
            FetchError::Custom(msg) => msg@,
        }
    }

    /// Renders the diagnostic line.
    pub fn message(&self) -> (r: String)
        ensures
            r@ == self.spec_message(),
    {
        match self {
            FetchError::BadScheme => "Invalid scheme".to_owned(),
            FetchError::BadPort => "Invalid port".to_owned(),
            FetchError::MalformedUrl => "Invalid URL".to_owned(),
            FetchError::ResolveFailed => "no valid host address found".to_owned(),
            FetchError::ConnectTimeout => "connection timed out".to_owned(),
            FetchError::ConnectRefused => "connection refused".to_owned(),
            FetchError::TlsHandshake => "TLS handshake failed".to_owned(),
            FetchError::ReadError => "read error".to_owned(),
            FetchError::WriteError => "write error".to_owned(),
            FetchError::MalformedStatusLine => "invalid response".to_owned(),
            FetchError::MalformedHeader => "invalid header".to_owned(),
            FetchError::ServerError(code) => {
                let mut s = "server response error: ".to_owned();
                push_dec_u64(&mut s, *code as u64);
                s
            },
            FetchError::RedirectRefused => "redirect is not supported".to_owned(),
            FetchError::RedirectMissingLocation => {
                "server returned a redirect without a location header".to_owned()
            },
            FetchError::TooManyRedirects => "max redirects exceeded".to_owned(),
            FetchError::UnsupportedMethod => "unsupported method".to_owned(),
            FetchError::EmptyContentLength => "content length is zero".to_owned(),
            FetchError::DownloadFailed(part, cause) => {
                let mut s = "download failed at part ".to_owned();
                push_dec_u64(&mut s, *part as u64);
                s.append(": ");
                s.append(cause.as_str());
                proof {
                    assert(s@ =~= self.spec_message());
                }
                s
            },
            FetchError::TempFileCreate => "cannot create temp file".to_owned(),
            FetchError::FileWrite => "cannot write to file".to_owned(),
            FetchError::Rename => "cannot rename file".to_owned(),
            FetchError::Merge => "cannot merge parts".to_owned(),
            FetchError::Custom(msg) => msg.clone(),
        }
    }
}

/// Errors travel as plain tagged values.
pub type PError = FetchError;

/// Wraps a diagnostic message as an error value.
pub fn make_error(err: &str) -> (r: PError)
    ensures
        r matches FetchError::Custom(m) && m@ == err@,
{
    FetchError::Custom(err.to_owned())
}

} // verus!
