use translation_cli::api_constants::{
    get_api_url, get_batch_size, is_supported_language, is_valid_api_url, DEFAULT_API_URL,
    DEFAULT_BATCH_SIZE, LARGE_BATCH_SIZE, LOCAL_API_URL,
};
use translation_cli::config::LocalTranslationConfig;
use translation_cli::error::TranslationError;
use translation_cli::stats::{format_duration, TranslationStats};

#[test]
fn test_api_url_selection() {
    assert_eq!(get_api_url(true, None), LOCAL_API_URL);
    assert_eq!(get_api_url(false, None), DEFAULT_API_URL);
    assert_eq!(get_api_url(false, Some("http://custom.api")), "http://custom.api");
}

#[test]
fn test_language_validation() {
    assert!(is_supported_language("zh"));
    assert!(is_supported_language("en"));
    assert!(!is_supported_language("xx"));
}

#[test]
fn test_batch_size_selection() {
    assert_eq!(get_batch_size(false, None), DEFAULT_BATCH_SIZE);
    assert_eq!(get_batch_size(true, None), LARGE_BATCH_SIZE);
    assert_eq!(get_batch_size(false, Some(50)), 50);
}

#[test]
fn test_api_url_validation() {
    assert!(is_valid_api_url("https://example.com"));
    assert!(is_valid_api_url("http://localhost:8080"));
    assert!(!is_valid_api_url("ftp://example.com"));
    assert!(!is_valid_api_url("invalid-url"));
}

#[test]
fn test_error_display() {
    let err = TranslationError::Network {
        message: "Connection failed".to_string(),
        status_code: Some(500),
    };

    assert_eq!(err.message(), "网络请求失败 [500]: Connection failed");
}

#[test]
fn test_error_macro() {
    let err = TranslationError::Network {
        message: "Test error".to_string(),
        status_code: Some(404),
    };
    match err {
        TranslationError::Network { message, status_code } => {
            assert_eq!(message, "Test error");
            assert_eq!(status_code, Some(404));
        }
        _ => panic!("Wrong error type"),
    }
}

#[test]
fn test_anyhow_conversion() {
    let anyhow_err = anyhow::Error::msg("Test anyhow error");
    let translation_err: TranslationError = anyhow_err.into();

    match translation_err {
        TranslationError::Internal { .. } => {
            // Test passes
        }
        _ => panic!("Wrong error type"),
    }
}

#[test]
fn test_error_messages_per_variant() {
    let e = TranslationError::Network { message: "down".to_string(), status_code: None };
    assert_eq!(e.message(), "网络请求失败: down");

    let e = TranslationError::HtmlParse { details: "bad markup".to_string() };
    assert_eq!(e.message(), "HTML解析失败: bad markup");

    let e = TranslationError::FileOperation {
        path: "a.html".to_string(),
        operation: "读取".to_string(),
        source: "denied".to_string(),
    };
    assert_eq!(e.message(), "文件读取操作失败 [a.html]: denied");

    let e = TranslationError::TranslationApi {
        status_code: 502,
        message: "bad gateway".to_string(),
        api_url: "http://api".to_string(),
    };
    assert_eq!(e.message(), "翻译API错误 [502] http://api: bad gateway");

    let e = TranslationError::Configuration {
        field: "batch".to_string(),
        reason: "zero".to_string(),
    };
    assert_eq!(e.message(), "配置错误 [batch]: zero");

    let e = TranslationError::InputValidation {
        input: "ftp://x".to_string(),
        reason: "scheme".to_string(),
    };
    assert_eq!(e.message(), "输入验证失败 [ftp://x]: scheme");

    let e = TranslationError::TempFileManagement {
        operation: "create".to_string(),
        details: "limit".to_string(),
    };
    assert_eq!(e.message(), "临时文件create失败: limit");

    let e = TranslationError::Internal { source: anyhow::Error::msg("boom") };
    assert!(e.message().starts_with("内部处理错误: "));
    assert!(e.message().contains("boom"));
}

#[test]
fn test_config_builder_chain() {
    let config = LocalTranslationConfig::new()
        .target_language("en")
        .with_api_url("http://example.org/translate")
        .with_batch_size(50)
        .with_max_retries(5)
        .enable_cache(false);
    assert_eq!(config.target_lang(), "en");
    assert_eq!(config.api_url(), "http://example.org/translate");
    assert_eq!(config.batch_size(), 50);
    assert_eq!(config.max_retries(), 5);
    assert!(!config.is_cache_enabled());
}

#[test]
fn test_config_defaults() {
    let config = LocalTranslationConfig::default();
    assert_eq!(config.target_lang(), "zh");
    assert_eq!(config.api_url(), "http://localhost:1188/translate");
    assert_eq!(config.batch_size(), 25);
    assert_eq!(config.max_retries(), 3);
    assert!(config.is_cache_enabled());
}

#[test]
fn test_format_duration_values() {
    assert_eq!(format_duration(0), "0ms");
    assert_eq!(format_duration(500), "500ms");
    assert_eq!(format_duration(999), "999ms");
    assert_eq!(format_duration(1000), "1.000s");
    assert_eq!(format_duration(1002), "1.002s");
    assert_eq!(format_duration(1234), "1.234s");
    assert_eq!(format_duration(12345), "12.345s");
}

#[test]
fn test_translation_stats_default() {
    let stats = TranslationStats::default();
    assert_eq!(stats.config_time, 0);
    assert_eq!(stats.input_size, 0);
    assert_eq!(stats.batches_created, 0);
    assert!(stats.final_url.is_none());
}
