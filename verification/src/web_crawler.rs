//! Crawler configuration and its pure decision rules: the builder, URL
//! validation and the retry schedule.  The crawl itself — fetching a page
//! and inlining its resources — is outside work that the library's caller
//! performs.

use vstd::prelude::*;
use crate::error::TranslationError;
use crate::strutil::{spec_starts_with, starts_with_str};

verus! {

/// How many times a failed crawl is attempted in all.
pub const MAX_CRAWL_RETRIES: usize = 3;

/// Crawler settings.
pub struct WebCrawlerConfig {
    /// The page to fetch.
    pub url: String,
    /// Where the crawled page is written; empty means nowhere.
    pub output_path: String,
    /// Whether style sheets are inlined.
    pub include_css: bool,
    /// Whether scripts are inlined.
    pub include_js: bool,
    /// Whether images are inlined.
    pub include_images: bool,
    /// The user-agent string sent with requests.
    pub user_agent: String,
    /// Connection timeout in seconds.
    pub timeout: u64,
}

impl Default for WebCrawlerConfig {
    /// No URL or output path yet; style sheets and images are inlined,
    /// scripts are not; half a minute of timeout.
    fn default() -> (r: WebCrawlerConfig)
        ensures
            r.url@.len() == 0,
            r.output_path@.len() == 0,
            r.include_css == true,
            r.include_js == false,
            r.include_images == true,
            r.user_agent@ == "translation-cli/0.1.0 (Monolith Web Crawler)"@,
            r.timeout == 30,
    {
        proof {
            reveal_strlit("");
        }
        WebCrawlerConfig {
            url: String::new(),
            output_path: String::new(),
            include_css: true,
            include_js: false,
            include_images: true,
            user_agent: String::from_str("translation-cli/0.1.0 (Monolith Web Crawler)"),
            timeout: 30,
        }
    }
}

/// Whether a URL is acceptable to the crawler: non-empty, with an HTTP or
/// HTTPS scheme.
pub open spec fn spec_crawlable_url(url: Seq<char>) -> bool {
    url.len() > 0 && (spec_starts_with(url, "http://"@) || spec_starts_with(url, "https://"@))
}

/// Wraps the crawler settings and decides what the crawl may do.
pub struct WebCrawler {
    /// The settings.
    pub config: WebCrawlerConfig,
}

impl WebCrawler {
    /// Wraps the given settings.
    pub fn new(config: WebCrawlerConfig) -> (r: WebCrawler)
        ensures
            r.config == config,
    {
        WebCrawler { config }
    }

    /// Default settings aimed at one URL.
    pub fn with_url(url: &str) -> (r: WebCrawler)
        ensures
            r.config.url@ == url@,
            r.config.output_path@.len() == 0,
            r.config.include_css == true,
            r.config.include_js == false,
            r.config.include_images == true,
            r.config.user_agent@ == "translation-cli/0.1.0 (Monolith Web Crawler)"@,
            r.config.timeout == 30,
    {
        let config = WebCrawlerConfig { url: String::from_str(url), ..WebCrawlerConfig::default() };
        WebCrawler::new(config)
    }

    /// Sets the output path.
    pub fn output_to(self, path: &str) -> (r: WebCrawler)
        ensures
            r.config.output_path@ == path@,
            r.config.url == self.config.url,
            r.config.include_css == self.config.include_css,
            r.config.include_js == self.config.include_js,
            r.config.include_images == self.config.include_images,
            r.config.user_agent == self.config.user_agent,
            r.config.timeout == self.config.timeout,
    {
        WebCrawler { config: WebCrawlerConfig { output_path: String::from_str(path), ..self.config } }
    }

    /// Chooses which resources the crawl inlines.
    pub fn include_resources(self, css: bool, js: bool, images: bool) -> (r: WebCrawler)
        ensures
            r.config.include_css == css,
            r.config.include_js == js,
            r.config.include_images == images,
            r.config.url == self.config.url,
            r.config.output_path == self.config.output_path,
            r.config.user_agent == self.config.user_agent,
            r.config.timeout == self.config.timeout,
    {
        WebCrawler {
            config: WebCrawlerConfig {
                include_css: css,
                include_js: js,
                include_images: images,
                ..self.config
            },
        }
    }

    /// Sets the user agent.
    pub fn user_agent(self, user_agent: &str) -> (r: WebCrawler)
        ensures
            r.config.user_agent@ == user_agent@,
            r.config.url == self.config.url,
            r.config.output_path == self.config.output_path,
            r.config.include_css == self.config.include_css,
            r.config.include_js == self.config.include_js,
            r.config.include_images == self.config.include_images,
            r.config.timeout == self.config.timeout,
    {
        WebCrawler {
            config: WebCrawlerConfig { user_agent: String::from_str(user_agent), ..self.config },
        }
    }

    /// Sets the connection timeout.
    pub fn timeout(self, seconds: u64) -> (r: WebCrawler)
        ensures
            r.config.timeout == seconds,
            r.config.url == self.config.url,
            r.config.output_path == self.config.output_path,
            r.config.include_css == self.config.include_css,
            r.config.include_js == self.config.include_js,
            r.config.include_images == self.config.include_images,
            r.config.user_agent == self.config.user_agent,
    {
        WebCrawler { config: WebCrawlerConfig { timeout: seconds, ..self.config } }
    }

    /// Accepts exactly the non-empty HTTP and HTTPS URLs; the error says
    /// which rule the URL broke.
    pub fn validate_url(&self) -> (r: Result<(), TranslationError>)
        ensures
            r is Ok <==> spec_crawlable_url(self.config.url@),
            r is Err ==> r->Err_0 is InputValidation,
    {
        if self.config.url.as_str().is_empty() {
            return Err(
                TranslationError::InputValidation {
                    input: self.config.url.clone(),
                    reason: String::from_str("the URL is empty"),
                },
            );
        }
        let url = self.config.url.as_str();
        if !starts_with_str(url, "http://") && !starts_with_str(url, "https://") {
            return Err(
                TranslationError::InputValidation {
                    input: self.config.url.clone(),
                    reason: String::from_str("the URL must start with http:// or https://"),
                },
            );
        }
        Ok(())
    }
}

/// The retry schedule of the crawl: after failed attempt number `attempt`
/// (counted from one), wait twice that many seconds and try again, up to
/// `MAX_CRAWL_RETRIES` attempts in all.
pub fn next_crawl_retry_delay(attempt: usize) -> (r: Option<u64>)
    ensures
        match r {
            Some(delay) => 1 <= attempt < MAX_CRAWL_RETRIES && delay == 2 * attempt,
            None => attempt < 1 || attempt >= MAX_CRAWL_RETRIES,
        },
{
    if 1 <= attempt && attempt < MAX_CRAWL_RETRIES {
        Some(2 * (attempt as u64))
    } else {
        None
    }
}

} // verus!
