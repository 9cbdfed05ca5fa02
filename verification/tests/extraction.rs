use infinite_scraper::config::CliOptions;
use infinite_scraper::config::ScraperConfig;
use infinite_scraper::find::Scraper;

fn options(base_url: &str, use_regex: Option<&str>) -> CliOptions {
    CliOptions {
        base_url: String::from(base_url),
        start_path: String::from("/"),
        crawl: false,
        scrape: true,
        list_selectors: false,
        use_selectors: None,
        include_duplicates: false,
        full_download: false,
        output_folder: None,
        use_regex: use_regex.map(String::from),
        interval: None,
        max_connections: 10,
        use_proxies: false,
    }
}

fn css_scraper() -> Scraper {
    let config = ScraperConfig::from_options(options("https://example.com", None)).unwrap();
    Scraper::new(config)
}

fn regex_scraper() -> Scraper {
    let config =
        ScraperConfig::from_options(options("https://example.com", Some(".*"))).unwrap();
    Scraper::new(config)
}

#[test]
fn scenario_title_selector() {
    let html = "<html><body>\
        <div class=\"title\"> Hello </div>\
        <div class=\"title\">World</div>\
        </body></html>";
    let patterns = vec![String::from(".title")];
    let records = css_scraper().scrape_data(html, &patterns);
    assert_eq!(records.len(), 2);
    assert_eq!(records[0].content().as_str(), "Hello");
    assert_eq!(records[1].content().as_str(), "World");
}

#[test]
fn element_text_is_joined_and_trimmed() {
    let html = "<p>  one <b>two</b>  </p>";
    let patterns = vec![String::from("p")];
    let records = css_scraper().scrape_data(html, &patterns);
    assert_eq!(records.len(), 1);
    assert_eq!(records[0].content().as_str(), "one  two");
}

#[test]
fn invalid_selector_is_skipped() {
    let html = "<div class=\"title\">kept</div>";
    let patterns = vec![String::from(":::not a selector"), String::from(".title")];
    let records = css_scraper().scrape_data(html, &patterns);
    assert_eq!(records.len(), 1);
    assert_eq!(records[0].content().as_str(), "kept");
}

#[test]
fn css_patterns_apply_in_order() {
    let html = "<i class=\"a\">first</i><i class=\"b\">second</i>";
    let patterns = vec![String::from(".b"), String::from(".a")];
    let records = css_scraper().scrape_data(html, &patterns);
    assert_eq!(records.len(), 2);
    assert_eq!(records[0].content().as_str(), "second");
    assert_eq!(records[1].content().as_str(), "first");
}

#[test]
fn scenario_invalid_regex_among_three() {
    let body = "a1 b22 world";
    let patterns = vec![
        String::from("[0-9]+"),
        String::from("("),
        String::from("world"),
    ];
    let records = regex_scraper().scrape_data_with_regex(body, &patterns);
    assert_eq!(records.len(), 3);
    assert_eq!(records[0].content().as_str(), "1");
    assert_eq!(records[1].content().as_str(), "22");
    assert_eq!(records[2].content().as_str(), "world");
}

#[test]
fn regex_matches_are_non_overlapping_left_to_right() {
    let body = "aaaa";
    let patterns = vec![String::from("aa")];
    let records = regex_scraper().scrape_data_with_regex(body, &patterns);
    assert_eq!(records.len(), 2);
}

#[test]
fn regex_mode_dispatch() {
    let body = "<span class=\"title\">n42</span>";
    let patterns = vec![String::from("n[0-9]+")];
    let records = regex_scraper().scrape_data(body, &patterns);
    assert_eq!(records.len(), 1);
    assert_eq!(records[0].content().as_str(), "n42");
}

#[test]
fn no_patterns_no_records() {
    let patterns: Vec<String> = Vec::new();
    assert!(css_scraper().scrape_data("<p>x</p>", &patterns).is_empty());
    assert!(regex_scraper()
        .scrape_data_with_regex("anything", &patterns)
        .is_empty());
}
