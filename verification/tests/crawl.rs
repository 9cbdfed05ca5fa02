use infinite_scraper::config::CliOptions;
use infinite_scraper::config::ScraperConfig;
use infinite_scraper::crawler::crawl_results_path;
use infinite_scraper::crawler::download_file_name;
use infinite_scraper::crawler::now_timestamp;
use infinite_scraper::crawler::selectors_path;
use infinite_scraper::crawler::Crawler;
use infinite_scraper::frontier::ConnectionPool;
use infinite_scraper::frontier::Frontier;

fn config_for(base_url: &str) -> ScraperConfig {
    let options = CliOptions {
        base_url: String::from(base_url),
        start_path: String::from("/"),
        crawl: true,
        scrape: false,
        list_selectors: false,
        use_selectors: None,
        include_duplicates: false,
        full_download: false,
        output_folder: None,
        use_regex: None,
        interval: None,
        max_connections: 2,
        use_proxies: false,
    };
    ScraperConfig::from_options(options).unwrap()
}

#[test]
fn crawl_visits_each_url_once() {
    let mut crawler = Crawler::new(config_for("https://example.com/"), 2);
    let patterns: Vec<String> = Vec::new();

    let first = crawler.next_url().expect("seed is pending");
    assert_eq!(first, "https://example.com/");

    let page = "<a href=\"/b\">b</a><a href=\"/b\">b again</a>";
    let out = crawler.process_page(page, &patterns);
    assert_eq!(out.new_links, vec![String::from("https://example.com/b")]);

    let second = crawler.next_url().expect("discovered link is pending");
    assert_eq!(second, "https://example.com/b");

    let out2 = crawler.process_page(page, &patterns);
    assert!(out2.new_links.is_empty());

    assert!(crawler.next_url().is_none());
}

#[test]
fn discovered_links_skip_visited() {
    let mut crawler = Crawler::new(config_for("https://example.com/"), 1);
    let patterns: Vec<String> = Vec::new();
    let seed = crawler.next_url().unwrap();
    let page = format!("<a href=\"{}\">self</a><a href=\"/new\">n</a>", seed);
    let out = crawler.process_page(&page, &patterns);
    assert_eq!(out.new_links, vec![String::from("https://example.com/new")]);
}

#[test]
fn frontier_marks_visited_at_pop() {
    let mut f = Frontier::new(String::from("https://example.com/"));
    assert!(f.push_if_unvisited(String::from("https://example.com/a")));
    let first = f.pop_next().unwrap();
    assert_eq!(first, "https://example.com/a");
    assert!(!f.push_if_unvisited(String::from("https://example.com/a")));
    let second = f.pop_next().unwrap();
    assert_eq!(second, "https://example.com/");
    assert!(f.pop_next().is_none());
}

#[test]
fn connection_pool_caps_in_flight_fetches() {
    let mut pool = ConnectionPool::new(2);
    let mut in_flight: usize = 0;
    let mut peak: usize = 0;
    let mut pending: usize = 5;
    let mut done: usize = 0;
    while done < 5 {
        while pending > 0 && pool.try_acquire() {
            pending -= 1;
            in_flight += 1;
            if in_flight > peak {
                peak = in_flight;
            }
        }
        assert!(in_flight <= 2);
        pool.release();
        in_flight -= 1;
        done += 1;
    }
    assert_eq!(peak, 2);
    assert_eq!(done, 5);
}

#[test]
fn connection_pool_acquire_release() {
    let mut pool = ConnectionPool::new(1);
    assert!(pool.try_acquire());
    assert!(!pool.try_acquire());
    pool.release();
    assert!(pool.try_acquire());
}

#[test]
fn timestamp_is_numeric() {
    let ts = now_timestamp();
    assert!(ts.len() >= 14);
    assert!(ts.chars().all(|c| c.is_ascii_digit()));
}

#[test]
fn result_file_names() {
    assert_eq!(
        crawl_results_path("20240101000000"),
        "Results/20240101000000_crawl_results.txt"
    );
    assert_eq!(
        selectors_path("20240101000000"),
        "Results/20240101000000_selectors.txt"
    );
}

#[test]
fn download_names_sanitize_and_keep_extension() {
    assert_eq!(
        download_file_name("downloads", "https://example.com/page.php"),
        "downloads/https___example.com_page.php_file.php"
    );
    assert_eq!(
        download_file_name("downloads", "https://example.com/dir/"),
        "downloads/https___example.com_dir__file.html"
    );
    assert_eq!(
        download_file_name("site", "https://example.com"),
        "site/https___example.com_file.html"
    );
}

#[test]
fn download_extension_comes_from_the_path_alone() {
    // The query string holds a dot-suffix; the extension must still be
    // taken from the path component.
    assert_eq!(
        download_file_name("d", "https://example.com/page.php?x=1.html"),
        "d/https___example.com_page.php?x=1.html_file.php"
    );
}
