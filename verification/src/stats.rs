//! Run statistics: the timing and size figures one translation run
//! collects, and the duration formatter used when reporting them.
//! Durations are carried as whole milliseconds.

use vstd::prelude::*;
use crate::digits::{spec_decimal, u128_to_string};

verus! {

/// The figures collected over one run.  Times are in milliseconds.
pub struct TranslationStats {
    /// Time spent building the configuration.
    pub config_time: u64,
    /// Time spent initializing the translator.
    pub translator_init_time: u64,
    /// Time spent reading the input.
    pub file_read_time: u64,
    /// Time spent translating.
    pub translation_time: u64,
    /// Time spent writing the output.
    pub file_write_time: u64,
    /// Input size in bytes.
    pub input_size: usize,
    /// Output size in bytes.
    pub output_size: usize,
    /// Texts found by the extractor.
    pub texts_collected: usize,
    /// Texts that passed the translatability filter.
    pub texts_filtered: usize,
    /// Cache hits.
    pub cache_hits: usize,
    /// Cache misses.
    pub cache_misses: usize,
    /// Batches dispatched.
    pub batches_created: usize,
    /// Time spent crawling, for URL input.
    pub crawl_time: u64,
    /// Crawl retries.
    pub crawl_retries: usize,
    /// Size of the crawled page.
    pub temp_file_size: usize,
    /// The crawled URL, for URL input.
    pub final_url: Option<String>,
}

impl Default for TranslationStats {
    /// All figures at zero, with no crawled URL.
    fn default() -> (r: TranslationStats)
        ensures
            r.config_time == 0,
            r.translator_init_time == 0,
            r.file_read_time == 0,
            r.translation_time == 0,
            r.file_write_time == 0,
            r.input_size == 0,
            r.output_size == 0,
            r.texts_collected == 0,
            r.texts_filtered == 0,
            r.cache_hits == 0,
            r.cache_misses == 0,
            r.batches_created == 0,
            r.crawl_time == 0,
            r.crawl_retries == 0,
            r.temp_file_size == 0,
            r.final_url is None,
    {
        TranslationStats {
            config_time: 0,
            translator_init_time: 0,
            file_read_time: 0,
            translation_time: 0,
            file_write_time: 0,
            input_size: 0,
            output_size: 0,
            texts_collected: 0,
            texts_filtered: 0,
            cache_hits: 0,
            cache_misses: 0,
            batches_created: 0,
            crawl_time: 0,
            crawl_retries: 0,
            temp_file_size: 0,
            final_url: None,
        }
    }
}

/// The millisecond part, padded to three digits.
pub open spec fn spec_pad3(f: nat) -> Seq<char>
    recommends
        f < 1000,
{
    if f < 10 {
        "00"@ + spec_decimal(f)
    } else if f < 100 {
        "0"@ + spec_decimal(f)
    } else {
        spec_decimal(f)
    }
}

/// The rendering of a duration of `ms` milliseconds: below one second as
/// `<ms>ms`, otherwise as seconds with three decimals, `<s>.<mmm>s`.
pub open spec fn spec_format_duration(ms: nat) -> Seq<char> {
    if ms < 1000 {
        spec_decimal(ms) + "ms"@
    } else {
        spec_decimal(ms / 1000) + "."@ + spec_pad3(ms % 1000) + "s"@
    }
}

/// Formats a duration of `millis` milliseconds for reports.
pub fn format_duration(millis: u64) -> (r: String)
    ensures
        r@ == spec_format_duration(millis as nat),
{
    if millis < 1000 {
        let mut s = u128_to_string(millis as u128);
        s.append("ms");
        proof {
            assert(s@ =~= spec_format_duration(millis as nat));
        }
        s
    } else {
        let secs: u64 = millis / 1000;
        let frac: u64 = millis % 1000;
        let mut s = u128_to_string(secs as u128);
        s.append(".");
        if frac < 10 {
            s.append("00");
        } else if frac < 100 {
            s.append("0");
        }
        let d = u128_to_string(frac as u128);
        s.append(d.as_str());
        s.append("s");
        proof {
            assert(s@ =~= spec_format_duration(millis as nat));
        }
        s
    }
}

} // verus!
