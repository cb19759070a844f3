//! A parallel range downloader over a hand-written minimal HTTP/1.1 client.
//!
//! The crate holds the logic of the fetcher: URL parsing, HTTP request
//! serialization and response parsing, redirect policy, download planning,
//! per-part progress accounting and the ordered merge. All socket and file
//! work is left to the binary around it, which feeds plain values in and out.

use vstd::prelude::*;

pub mod downloader;
pub mod errors;
pub mod strutil;
pub mod httpx;
pub mod urlinfo;

verus! {

pub use crate::errors::FetchError;
pub use crate::errors::PError;
pub use crate::errors::make_error;

/// Options consumed by the download controller and the client builder.
#[derive(Debug, Clone)]
pub struct Config {
    pub url: String,
    pub output: Option<String>,
    pub user_agent: Option<String>,
    pub num_threads: u8,
    pub info: bool,
    pub no_redirect: bool,
    pub timeout: u8,
}

impl Config {
    /// Validates the raw option values; the thread count must lie in [1, 32].
    pub fn build(
        url: String,
        output: Option<String>,
        user_agent: Option<String>,
        num_threads: u8,
        info: bool,
        no_redirect: bool,
        timeout: u8,
    ) -> (r: Result<Config, PError>)
        ensures
            1 <= num_threads <= 32 <==> r is Ok,
            r matches Ok(cfg) ==> cfg == (Config {
                url: url,
                output: output,
                user_agent: user_agent,
                num_threads: num_threads,
                info: info,
                no_redirect: no_redirect,
                timeout: timeout,
            }),
    {
        if num_threads == 0 || num_threads > 32 {
            return Err(make_error("invalid number of threads, must be between 1 and 32"));
        }

        Ok(Config { url, output, user_agent, num_threads, info, no_redirect, timeout })
    }
}

} // verus!
