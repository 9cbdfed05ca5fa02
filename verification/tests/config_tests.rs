use infinite_scraper::config::parse_interval_seconds;
use infinite_scraper::config::run_modes;
use infinite_scraper::config::split_patterns;
use infinite_scraper::config::CliOptions;
use infinite_scraper::config::RunMode;
use infinite_scraper::config::ScraperConfig;
use infinite_scraper::text::trim_string;

fn base_options() -> CliOptions {
    CliOptions {
        base_url: String::from("https://example.com"),
        start_path: String::from("/"),
        crawl: false,
        scrape: false,
        list_selectors: false,
        use_selectors: None,
        include_duplicates: false,
        full_download: false,
        output_folder: None,
        use_regex: None,
        interval: None,
        max_connections: 10,
        use_proxies: false,
    }
}

#[test]
fn config_defaults() {
    let config = ScraperConfig::from_options(base_options()).unwrap();
    assert_eq!(config.base_url, "https://example.com");
    assert_eq!(config.start_path, "/");
    assert_eq!(config.download_folder, "downloads");
    assert!(!config.use_regex);
    assert_eq!(config.max_connections, 10);
}

#[test]
fn config_honours_overrides() {
    let mut options = base_options();
    options.output_folder = Some(String::from("pages"));
    options.use_regex = Some(String::from("[a-z]+"));
    options.full_download = true;
    let config = ScraperConfig::from_options(options).unwrap();
    assert_eq!(config.download_folder, "pages");
    assert!(config.use_regex);
    assert!(config.full_download);
}

#[test]
fn interval_parses_hh_mm_ss() {
    assert_eq!(parse_interval_seconds("01:30:00"), Some(5400));
    assert_eq!(parse_interval_seconds("0:0:7"), Some(7));
    assert_eq!(parse_interval_seconds("100:00:00"), Some(360000));
}

#[test]
fn malformed_intervals_are_rejected() {
    assert_eq!(parse_interval_seconds("90:00"), None);
    assert_eq!(parse_interval_seconds("1:2:3:4"), None);
    assert_eq!(parse_interval_seconds("aa:bb:cc"), None);
    assert_eq!(parse_interval_seconds("1:2:"), None);
    assert_eq!(parse_interval_seconds(""), None);
    assert_eq!(parse_interval_seconds("1:-2:3"), None);
    assert_eq!(parse_interval_seconds("99999999999999999999:0:0"), None);
}

#[test]
fn pattern_lists_split_and_trim() {
    assert_eq!(
        split_patterns(".title, .price"),
        vec![String::from(".title"), String::from(".price")]
    );
    assert_eq!(
        split_patterns(" a ,b,  c  "),
        vec![String::from("a"), String::from("b"), String::from("c")]
    );
    assert_eq!(split_patterns(""), vec![String::new()]);
}

#[test]
fn run_modes_follow_flags() {
    let mut options = base_options();
    assert!(run_modes(&options).is_empty());

    options.crawl = true;
    options.list_selectors = true;
    options.scrape = true;
    options.use_selectors = Some(String::from(".a"));
    options.use_regex = Some(String::from("x"));
    assert_eq!(
        run_modes(&options),
        vec![
            RunMode::Crawl,
            RunMode::ListSelectors,
            RunMode::ScrapeCss,
            RunMode::ScrapeRegex,
        ]
    );

    options.crawl = false;
    options.use_regex = None;
    assert_eq!(
        run_modes(&options),
        vec![RunMode::ListSelectors, RunMode::ScrapeCss]
    );
}

#[test]
fn trim_strips_unicode_whitespace() {
    assert_eq!(trim_string("  Hello \t"), "Hello");
    assert_eq!(trim_string("\u{a0}padded\u{2003}"), "padded");
    assert_eq!(trim_string("   "), "");
    assert_eq!(trim_string("inner  space"), "inner  space");
}
