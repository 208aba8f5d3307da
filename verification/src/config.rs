//! Configuration: the translation settings with their builder methods,
//! the command-line options as plain data, and the lightweight run
//! statistics counters.

use vstd::prelude::*;

verus! {

/// Translation settings, built with chained setters.
pub struct LocalTranslationConfig {
    /// Target language code, such as `zh` or `en`.
    pub target_lang: String,
    /// Translation service endpoint.
    pub api_url: String,
    /// Batch size.
    pub batch_size: usize,
    /// How many times a failed request is retried.
    pub max_retries: usize,
    /// Whether the translation cache is used.
    pub enable_cache: bool,
}

impl LocalTranslationConfig {
    /// The starting configuration: Chinese, the local development
    /// endpoint, batches of twenty-five, three retries, cache on.
    pub fn new() -> (r: LocalTranslationConfig)
        ensures
            r.target_lang@ == "zh"@,
            r.api_url@ == "http://localhost:1188/translate"@,
            r.batch_size == 25,
            r.max_retries == 3,
            r.enable_cache == true,
    {
        LocalTranslationConfig {
            target_lang: String::from_str("zh"),
            api_url: String::from_str("http://localhost:1188/translate"),
            batch_size: 25,
            max_retries: 3,
            enable_cache: true,
        }
    }

    /// The target language code.
    pub fn target_lang<'a>(&'a self) -> (r: &'a str)
        ensures
            r@ == self.target_lang@,
    {
        self.target_lang.as_str()
    }

    /// The endpoint.
    pub fn api_url<'a>(&'a self) -> (r: &'a str)
        ensures
            r@ == self.api_url@,
    {
        self.api_url.as_str()
    }

    /// The batch size.
    pub fn batch_size(&self) -> (r: usize)
        ensures
            r == self.batch_size,
    {
        self.batch_size
    }

    /// The retry count.
    pub fn max_retries(&self) -> (r: usize)
        ensures
            r == self.max_retries,
    {
        self.max_retries
    }

    /// Whether the cache is on.
    pub fn is_cache_enabled(&self) -> (r: bool)
        ensures
            r == self.enable_cache,
    {
        self.enable_cache
    }

    /// Replaces the target language.
    pub fn target_language(self, lang: &str) -> (r: LocalTranslationConfig)
        ensures
            r.target_lang@ == lang@,
            r.api_url == self.api_url,
            r.batch_size == self.batch_size,
            r.max_retries == self.max_retries,
            r.enable_cache == self.enable_cache,
    {
        LocalTranslationConfig { target_lang: String::from_str(lang), ..self }
    }

    /// Replaces the endpoint.
    pub fn with_api_url(self, url: &str) -> (r: LocalTranslationConfig)
        ensures
            r.api_url@ == url@,
            r.target_lang == self.target_lang,
            r.batch_size == self.batch_size,
            r.max_retries == self.max_retries,
            r.enable_cache == self.enable_cache,
    {
        LocalTranslationConfig { api_url: String::from_str(url), ..self }
    }

    /// Replaces the batch size.
    pub fn with_batch_size(self, size: usize) -> (r: LocalTranslationConfig)
        ensures
            r.batch_size == size,
            r.target_lang == self.target_lang,
            r.api_url == self.api_url,
            r.max_retries == self.max_retries,
            r.enable_cache == self.enable_cache,
    {
        LocalTranslationConfig { batch_size: size, ..self }
    }

    /// Replaces the retry count.
    pub fn with_max_retries(self, retries: usize) -> (r: LocalTranslationConfig)
        ensures
            r.max_retries == retries,
            r.target_lang == self.target_lang,
            r.api_url == self.api_url,
            r.batch_size == self.batch_size,
            r.enable_cache == self.enable_cache,
    {
        LocalTranslationConfig { max_retries: retries, ..self }
    }

    /// Switches the cache on or off.
    pub fn enable_cache(self, enable: bool) -> (r: LocalTranslationConfig)
        ensures
            r.enable_cache == enable,
            r.target_lang == self.target_lang,
            r.api_url == self.api_url,
            r.batch_size == self.batch_size,
            r.max_retries == self.max_retries,
    {
        LocalTranslationConfig { enable_cache: enable, ..self }
    }
}

impl Default for LocalTranslationConfig {
    /// The starting configuration, as `new` builds it.
    fn default() -> (r: LocalTranslationConfig)
        ensures
            r.target_lang@ == "zh"@,
            r.api_url@ == "http://localhost:1188/translate"@,
            r.batch_size == 25,
            r.max_retries == 3,
            r.enable_cache == true,
    {
        LocalTranslationConfig::new()
    }
}

/// The command-line options, as plain data; argument parsing itself lives
/// outside the library.
pub struct Cli {
    /// Input HTML file path or page URL.
    pub input: String,
    /// Output file path; derived from the input when absent.
    pub output: Option<String>,
    /// Target language code.
    pub lang: String,
    /// Translation service endpoint.
    pub api: String,
    /// Batch size.
    pub batch_size: usize,
    /// Retry count.
    pub max_retries: usize,
    /// Whether the cache is disabled.
    pub no_cache: bool,
    /// Verbose output.
    pub verbose: bool,
    /// Errors only.
    pub quiet: bool,
    /// Whether performance statistics are printed.
    pub stats: bool,
    /// Larger batches for large documents.
    pub large_batch: bool,
    /// Use the local endpoint.
    pub local_api: bool,
    /// Number of concurrent batches.
    pub concurrent_batches: usize,
    /// Crawl the input URL instead of reading a file.
    pub from_url: bool,
    /// Keep the crawled page for debugging.
    pub keep_temp: bool,
    /// Include images when crawling.
    pub include_images: bool,
    /// Include style sheets when crawling.
    pub include_css: bool,
    /// Include scripts when crawling.
    pub include_js: bool,
    /// Crawl timeout in seconds.
    pub crawl_timeout: u64,
    /// Custom user agent for crawling.
    pub user_agent: Option<String>,
}

/// Lightweight counters for one translation run.
pub struct LocalTranslationStats {
    /// Texts found by the extractor.
    pub texts_collected: usize,
    /// Texts that passed the translatability filter.
    pub texts_filtered: usize,
    /// Cache hits.
    pub cache_hits: usize,
    /// Cache misses.
    pub cache_misses: usize,
    /// Batches dispatched.
    pub batches_created: usize,
}

impl Default for LocalTranslationStats {
    /// All counters at zero.
    fn default() -> (r: LocalTranslationStats)
        ensures
            r.texts_collected == 0,
            r.texts_filtered == 0,
            r.cache_hits == 0,
            r.cache_misses == 0,
            r.batches_created == 0,
    {
        LocalTranslationStats {
            texts_collected: 0,
            texts_filtered: 0,
            cache_hits: 0,
            cache_misses: 0,
            batches_created: 0,
        }
    }
}

} // verus!
