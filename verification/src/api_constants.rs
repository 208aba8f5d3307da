//! Translation-service constants and the small selection rules around
//! them: which endpoint to call, which languages are supported, and how
//! large a batch to request.

use vstd::prelude::*;
use crate::strutil::{spec_starts_with, starts_with_str, str_eq_str};

verus! {

/// The default translation endpoint.
pub const DEFAULT_API_URL: &'static str =
    "https://deepl3.fileaiwork.online/dptrans?token=ej0ab47388ed86e843de9f499e52e6e664ae1m491cad7bf1.bIrYaAAAAAA=.b9c326068ac3c37ff36b8fea77867db51ddf235150945d7ad43472d68581e6c4pd14&newllm=1";

/// The local development endpoint.
pub const LOCAL_API_URL: &'static str = "http://localhost:1188/translate";

/// The default target language.
pub const DEFAULT_TARGET_LANG: &'static str = "zh";

/// The default batch size.
pub const DEFAULT_BATCH_SIZE: usize = 25;

/// The batch size for large documents.
pub const LARGE_BATCH_SIZE: usize = 100;

/// The default number of retries.
pub const DEFAULT_MAX_RETRIES: usize = 3;

/// The default number of concurrent batches.
pub const DEFAULT_CONCURRENT_BATCHES: usize = 5;

/// The per-request timeout in seconds.
pub const REQUEST_TIMEOUT_SECONDS: u64 = 30;

/// Whether a custom endpoint argument really names one: non-empty and not
/// the masked value `****`.
pub open spec fn spec_custom_api(c: Seq<char>) -> bool {
    c.len() > 0 && c != "****"@
}

/// Picks the endpoint: an explicit custom endpoint wins, otherwise the
/// local endpoint when local mode is on, otherwise the default.
pub fn get_api_url<'a>(local_api: bool, custom_api: Option<&'a str>) -> (r: &'a str)
    ensures
        match custom_api {
            Some(c) if spec_custom_api(c@) => r@ == c@,
            _ => r@ == if local_api {
                LOCAL_API_URL@
            } else {
                DEFAULT_API_URL@
            },
        },
{
    match custom_api {
        Some(c) => {
            if !c.is_empty() && !str_eq_str(c, "****") {
                return c;
            }
        },
        None => {},
    }
    if local_api {
        LOCAL_API_URL
    } else {
        DEFAULT_API_URL
    }
}

/// Whether an endpoint string is a usable HTTP or HTTPS URL.
pub open spec fn spec_valid_api_url(url: Seq<char>) -> bool {
    spec_starts_with(url, "http://"@) || spec_starts_with(url, "https://"@)
}

/// Decides `spec_valid_api_url`.
pub fn is_valid_api_url(url: &str) -> (r: bool)
    ensures
        r == spec_valid_api_url(url@),
{
    starts_with_str(url, "http://") || starts_with_str(url, "https://")
}

/// The supported target-language codes.
pub open spec fn spec_supported_language(s: Seq<char>) -> bool {
    ||| s == "zh"@
    ||| s == "en"@
    ||| s == "ja"@
    ||| s == "ko"@
    ||| s == "fr"@
    ||| s == "de"@
    ||| s == "es"@
    ||| s == "it"@
    ||| s == "pt"@
    ||| s == "ru"@
    ||| s == "ar"@
    ||| s == "hi"@
    ||| s == "th"@
    ||| s == "vi"@
    ||| s == "id"@
    ||| s == "ms"@
    ||| s == "tl"@
    ||| s == "nl"@
    ||| s == "sv"@
    ||| s == "da"@
    ||| s == "no"@
    ||| s == "fi"@
    ||| s == "pl"@
    ||| s == "cs"@
    ||| s == "sk"@
    ||| s == "hu"@
    ||| s == "ro"@
    ||| s == "bg"@
    ||| s == "hr"@
    ||| s == "sr"@
    ||| s == "sl"@
    ||| s == "et"@
    ||| s == "lv"@
    ||| s == "lt"@
    ||| s == "mt"@
    ||| s == "ga"@
    ||| s == "cy"@
    ||| s == "is"@
    ||| s == "mk"@
    ||| s == "sq"@
}

/// Decides `spec_supported_language`.
pub fn is_supported_language(lang: &str) -> (r: bool)
    ensures
        r == spec_supported_language(lang@),
{
    str_eq_str(lang, "zh") || str_eq_str(lang, "en") || str_eq_str(lang, "ja") || str_eq_str(
        lang,
        "ko",
    ) || str_eq_str(lang, "fr") || str_eq_str(lang, "de") || str_eq_str(lang, "es") || str_eq_str(
        lang,
        "it",
    ) || str_eq_str(lang, "pt") || str_eq_str(lang, "ru") || str_eq_str(lang, "ar") || str_eq_str(
        lang,
        "hi",
    ) || str_eq_str(lang, "th") || str_eq_str(lang, "vi") || str_eq_str(lang, "id") || str_eq_str(
        lang,
        "ms",
    ) || str_eq_str(lang, "tl") || str_eq_str(lang, "nl") || str_eq_str(lang, "sv") || str_eq_str(
        lang,
        "da",
    ) || str_eq_str(lang, "no") || str_eq_str(lang, "fi") || str_eq_str(lang, "pl") || str_eq_str(
        lang,
        "cs",
    ) || str_eq_str(lang, "sk") || str_eq_str(lang, "hu") || str_eq_str(lang, "ro") || str_eq_str(
        lang,
        "bg",
    ) || str_eq_str(lang, "hr") || str_eq_str(lang, "sr") || str_eq_str(lang, "sl") || str_eq_str(
        lang,
        "et",
    ) || str_eq_str(lang, "lv") || str_eq_str(lang, "lt") || str_eq_str(lang, "mt") || str_eq_str(
        lang,
        "ga",
    ) || str_eq_str(lang, "cy") || str_eq_str(lang, "is") || str_eq_str(lang, "mk") || str_eq_str(
        lang,
        "sq",
    )
}

/// Picks the batch size: an explicit size wins, otherwise the large-batch
/// size in large-batch mode, otherwise the default.
pub fn get_batch_size(large_batch: bool, custom_size: Option<usize>) -> (r: usize)
    ensures
        match custom_size {
            Some(size) => r == size,
            None => r == if large_batch {
                LARGE_BATCH_SIZE
            } else {
                DEFAULT_BATCH_SIZE
            },
        },
{
    match custom_size {
        Some(size) => size,
        None => {
            if large_batch {
                LARGE_BATCH_SIZE
            } else {
                DEFAULT_BATCH_SIZE
            }
        },
    }
}

} // verus!
