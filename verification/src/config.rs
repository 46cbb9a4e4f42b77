//! Run configuration: the source of the page text, the documented defaults,
//! and the fatal-error taxonomy.

use vstd::prelude::*;
use vstd::string::StringExecFns;

verus! {

/// Where the page text comes from: fetched from a remote URL, or read from
/// a local file. Exactly one is chosen at startup.
#[derive(Debug)]
pub enum Source {
    RemoteUrl(String),
    LocalFile(String),
}

/// A fatal condition: the run aborts with a diagnostic and a non-zero exit,
/// before any downloads begin.
#[derive(Debug)]
pub enum FatalError {
    /// Neither a remote URL nor a local file was given.
    MissingSource,
    /// The configured proxy address could not be used.
    InvalidProxy,
    /// The page request could not be sent or its body not read as text.
    FetchFailed,
    /// The local file could not be opened or read.
    ReadFileFailed,
    /// The output directory could not be created.
    CreateDirFailed,
}

/// Picks the page source: the remote URL when one is given, otherwise the
/// local file; when neither is given, the missing-source error.
pub fn select_source(url: Option<String>, html_path: Option<String>) -> (r: Result<
    Source,
    FatalError,
>)
    ensures
        url is Some ==> r is Ok && r.unwrap() is RemoteUrl
            && r.unwrap()->RemoteUrl_0@ == url.unwrap()@,
        url is None && html_path is Some ==> r is Ok && r.unwrap() is LocalFile
            && r.unwrap()->LocalFile_0@ == html_path.unwrap()@,
        url is None && html_path is None ==> r is Err && r.unwrap_err() is MissingSource,
{
    match url {
        Option::Some(u) => Result::Ok(Source::RemoteUrl(u)),
        Option::None => match html_path {
            Option::Some(h) => Result::Ok(Source::LocalFile(h)),
            Option::None => Result::Err(FatalError::MissingSource),
        },
    }
}

/// The run's settings, built once at startup and passed into the pipeline.
pub struct Config {
    /// Request timeout for the page fetch, in seconds.
    pub timeout_secs: u64,
    /// Redirect limit for the page fetch.
    pub redirect_limit: u64,
    /// The configurable user-agent. Note: the outgoing page request sends
    /// the fixed literal of `fixed_request_user_agent` instead of this
    /// value; the mismatch is kept as observed, not resolved.
    pub user_agent: String,
    /// Directory the downloads land in.
    pub output_dir: String,
    /// Proxy for the page fetch, when set.
    pub proxy: Option<String>,
    /// Whether each download also goes through the proxy.
    pub proxy_for_downloads: bool,
}

/// The default user-agent: a desktop browser string.
pub open spec fn default_user_agent() -> Seq<char> {
    "Mozilla/5.0 (Macintosh; Intel Mac OS X 10_15_7) AppleWebKit/537.36 (KHTML, like Gecko) Chrome/138.0.0.0 Safari/537.36"@
}

/// The default output directory.
pub open spec fn default_output_dir() -> Seq<char> {
    "img"@
}

impl Default for Config {
    /// The documented defaults: a 10-second timeout, at most 5 redirects,
    /// the desktop browser user-agent, output directory `img`, no proxy.
    fn default() -> (c: Config)
        ensures
            c.timeout_secs == 10,
            c.redirect_limit == 5,
            c.user_agent@ == default_user_agent(),
            c.output_dir@ == default_output_dir(),
            c.proxy is None,
            !c.proxy_for_downloads,
    {
        Config {
            timeout_secs: 10,
            redirect_limit: 5,
            user_agent: String::from_str(
                "Mozilla/5.0 (Macintosh; Intel Mac OS X 10_15_7) AppleWebKit/537.36 (KHTML, like Gecko) Chrome/138.0.0.0 Safari/537.36",
            ),
            output_dir: String::from_str("img"),
            proxy: Option::None,
            proxy_for_downloads: false,
        }
    }
}

/// The user-agent literal the page request actually sends, regardless of
/// the configured value.
pub fn fixed_request_user_agent() -> (s: String)
    ensures
        s@ == default_user_agent(),
{
    String::from_str(
        "Mozilla/5.0 (Macintosh; Intel Mac OS X 10_15_7) AppleWebKit/537.36 (KHTML, like Gecko) Chrome/138.0.0.0 Safari/537.36",
    )
}

} // verus!
