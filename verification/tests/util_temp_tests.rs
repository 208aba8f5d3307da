use translation_cli::temp_manager::{
    create_temp_file_with_content, create_temp_work_dir, TempManager, TempManagerConfig,
};
use translation_cli::utils::{
    calculate_content_hash, extract_base64_from_data_uri, generate_output_path,
    is_translatable_text,
};
use translation_cli::web_crawler::{next_crawl_retry_delay, WebCrawler, WebCrawlerConfig};

#[test]
fn test_temp_manager_config_default() {
    let config = TempManagerConfig::default();
    assert!(config.temp_dir.contains("translation-cli"));
    assert_eq!(config.auto_cleanup, true);
    assert_eq!(config.file_prefix, "translate");
    assert_eq!(config.max_temp_files, 100);
}

#[test]
fn test_temp_manager_creation() {
    let manager = TempManager::default();
    assert!(manager.list_temp_files().is_empty());
    assert!(manager.list_temp_dirs().is_empty());

    let custom_config = TempManagerConfig {
        temp_dir: "/tmp/test-temp".to_string(),
        auto_cleanup: false,
        file_prefix: "test".to_string(),
        max_temp_files: 50,
    };

    let custom_manager = TempManager::new(custom_config);
    assert_eq!(custom_manager.config.temp_dir, "/tmp/test-temp");
    assert_eq!(custom_manager.config.auto_cleanup, false);
    assert_eq!(custom_manager.config.file_prefix, "test");
    assert_eq!(custom_manager.config.max_temp_files, 50);
}

#[test]
fn test_temp_file_creation_and_cleanup() {
    let mut manager = TempManager::default();

    let temp_file = manager.create_temp_file("txt").unwrap();
    assert!(temp_file.ends_with(".txt"));
    assert!(temp_file.starts_with("/tmp/translation-cli/translate_"));
    assert_eq!(manager.list_temp_files().len(), 1);

    manager.untrack_file(&temp_file);
    assert_eq!(manager.list_temp_files().len(), 0);
}

#[test]
fn test_temp_dir_creation_and_cleanup() {
    let mut manager = TempManager::default();

    let temp_dir = manager.create_temp_dir("test_dir");
    assert_eq!(temp_dir, "/tmp/translation-cli/translate_test_dir");
    assert_eq!(manager.list_temp_dirs().len(), 1);

    manager.untrack_dir(&temp_dir);
    assert_eq!(manager.list_temp_dirs().len(), 0);
}

#[test]
fn test_create_temp_html() {
    let mut manager = TempManager::default();
    let html_content = "<html><body>Test</body></html>";

    let temp_file = manager.create_temp_html(html_content).unwrap();
    assert!(temp_file.ends_with(".html"));
    assert_eq!(manager.list_temp_files().len(), 1);
}

#[test]
fn test_file_limit() {
    let config = TempManagerConfig { max_temp_files: 2, ..TempManagerConfig::default() };

    let mut manager = TempManager::new(config);

    let _file1 = manager.create_temp_file("txt").unwrap();
    let _file2 = manager.create_temp_file("txt").unwrap();

    let result = manager.create_temp_file("txt");
    assert!(result.is_err());
    assert!(manager.check_file_limit().is_err());
}

#[test]
fn test_cleanup_all() {
    let mut manager = TempManager::default();

    let _file1 = manager.create_temp_file("txt").unwrap();
    let _file2 = manager.create_temp_file("html").unwrap();
    let _dir1 = manager.create_temp_dir("test1");
    let _dir2 = manager.create_temp_dir("test2");

    assert_eq!(manager.list_temp_files().len(), 2);
    assert_eq!(manager.list_temp_dirs().len(), 2);

    manager.clear_tracked();
    assert_eq!(manager.list_temp_files().len(), 0);
    assert_eq!(manager.list_temp_dirs().len(), 0);
}

#[test]
fn test_get_work_dir() {
    let mut manager = TempManager::default();

    let work_dir1 = manager.get_work_dir();
    let work_dir2 = manager.get_work_dir();

    assert_ne!(work_dir1, work_dir2);
    assert_eq!(manager.list_temp_dirs().len(), 2);
}

#[test]
fn test_convenience_functions() {
    let temp_file = create_temp_file_with_content("Test content", "txt").unwrap();
    assert!(temp_file.ends_with(".txt"));
    assert!(temp_file.contains("translate"));

    let work_dir = create_temp_work_dir();
    assert!(work_dir.contains("work"));
    assert!(work_dir.contains("translate"));
}

#[test]
fn test_unique_id_generation() {
    let manager = TempManager::default();

    let id1 = manager.generate_unique_id();
    let id2 = manager.generate_unique_id();

    assert_ne!(id1, id2);
    assert!(id1.contains('_'));
    assert!(id2.contains('_'));

    for part in id1.split('_') {
        assert!(part.chars().all(|c| c.is_ascii_hexdigit()), "hex part expected: {}", part);
    }
    for part in id2.split('_') {
        assert!(part.chars().all(|c| c.is_ascii_hexdigit()), "hex part expected: {}", part);
    }
}

#[test]
fn test_web_crawler_config_default() {
    let config = WebCrawlerConfig::default();
    assert!(config.url.is_empty());
    assert_eq!(config.include_css, true);
    assert_eq!(config.include_js, false);
    assert_eq!(config.include_images, true);
    assert_eq!(config.timeout, 30);
    assert_eq!(config.user_agent, "translation-cli/0.1.0 (Monolith Web Crawler)");
}

#[test]
fn test_web_crawler_builder() {
    let crawler = WebCrawler::with_url("https://example.com")
        .output_to("output.html")
        .include_resources(true, true, false)
        .user_agent("test-agent")
        .timeout(60);

    assert_eq!(crawler.config.url, "https://example.com");
    assert_eq!(crawler.config.output_path, "output.html");
    assert_eq!(crawler.config.include_css, true);
    assert_eq!(crawler.config.include_js, true);
    assert_eq!(crawler.config.include_images, false);
    assert_eq!(crawler.config.user_agent, "test-agent");
    assert_eq!(crawler.config.timeout, 60);
}

#[test]
fn test_url_validation() {
    let crawler = WebCrawler::with_url("");
    assert!(crawler.validate_url().is_err());

    let crawler = WebCrawler::with_url("ftp://example.com");
    assert!(crawler.validate_url().is_err());

    let crawler = WebCrawler::with_url("https://example.com");
    assert!(crawler.validate_url().is_ok());

    let crawler = WebCrawler::with_url("http://example.com");
    assert!(crawler.validate_url().is_ok());
}

#[test]
fn test_crawl_workflow_components() {
    let valid_urls = vec![
        "https://example.com",
        "http://test.org",
        "https://subdomain.example.com/path",
    ];

    for url in valid_urls {
        let crawler = WebCrawler::with_url(url);
        assert!(crawler.validate_url().is_ok(), "URL should be valid: {}", url);
    }

    let invalid_urls = vec!["", "ftp://example.com", "example.com"];

    for url in invalid_urls {
        let crawler = WebCrawler::with_url(url);
        assert!(crawler.validate_url().is_err(), "URL should be invalid: {}", url);
    }
}

#[test]
fn test_retry_schedule() {
    assert_eq!(next_crawl_retry_delay(1), Some(2));
    assert_eq!(next_crawl_retry_delay(2), Some(4));
    assert_eq!(next_crawl_retry_delay(3), None);
    assert_eq!(next_crawl_retry_delay(0), None);
}

#[test]
fn translatability_filter_cases() {
    assert!(!is_translatable_text("http://example.com"));
    assert!(!is_translatable_text("www.example.com"));
    assert!(!is_translatable_text("12345"));
    assert!(!is_translatable_text(
        "one two three four five six seven eight nine ten eleven twelve thirteen fourteen fifteen",
    ));
    assert!(is_translatable_text("Submit Order"));

    assert!(!is_translatable_text("ab"));
    assert!(!is_translatable_text("   \t  "));
    assert!(!is_translatable_text("function foo()"));
    assert!(!is_translatable_text("var x = 1"));
    assert!(is_translatable_text("提交订单"));
}

#[test]
fn base64_payload_extraction() {
    assert_eq!(
        extract_base64_from_data_uri("data:text/html;base64,SGVsbG8="),
        Some("SGVsbG8=".to_string())
    );
    assert_eq!(extract_base64_from_data_uri("data:text/html;base64"), None);
    assert_eq!(extract_base64_from_data_uri("a,b,c"), Some("b,c".to_string()));
}

#[test]
fn content_hash_depends_on_content_alone() {
    assert_eq!(calculate_content_hash("abc"), calculate_content_hash("abc"));
    assert_ne!(calculate_content_hash("abc"), calculate_content_hash("abd"));
}

#[test]
fn output_path_derivation() {
    assert_eq!(
        generate_output_path(&"dir/page.html".to_string(), &None, "zh"),
        "dir/page_zh.html"
    );
    assert_eq!(
        generate_output_path(&"page.htm".to_string(), &None, "en"),
        "page_en.htm"
    );
    assert_eq!(
        generate_output_path(&"dir/page.html".to_string(), &Some("out.html".to_string()), "zh"),
        "out.html"
    );
    assert_eq!(generate_output_path(&"notes".to_string(), &None, "zh"), "notes_zh.");
}
