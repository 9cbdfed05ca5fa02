use infinite_scraper::links::extract_links;
use infinite_scraper::links::is_filtered;

#[test]
fn scenario_three_anchors() {
    let html = "<html><body>\
        <a href=\"/b\">b</a>\
        <a href=\"mailto:x@y.com\">mail</a>\
        <a href=\"https://other.com/c\">other</a>\
        </body></html>";
    let links = extract_links(html, "https://example.com/a");
    assert_eq!(links, vec![String::from("https://example.com/b")]);
}

#[test]
fn relative_links_resolve_against_base() {
    let html = "<a href=\"c/d\">x</a><a href=\"../up\">y</a>";
    let links = extract_links(html, "https://example.com/a/b");
    assert_eq!(
        links,
        vec![
            String::from("https://example.com/a/c/d"),
            String::from("https://example.com/up"),
        ]
    );
}

#[test]
fn filtered_schemes_never_appear() {
    let html = "<a href=\"javascript:void(0)\">j</a>\
        <a href=\"tel:+123\">t</a>\
        <a href=\"#frag\">f</a>\
        <a href=\"data:text/plain,hi\">d</a>\
        <a href=\"ftp:example\">ftp</a>\
        <a href=\"/keep\">k</a>";
    let links = extract_links(html, "https://example.com/");
    assert_eq!(links, vec![String::from("https://example.com/keep")]);
}

#[test]
fn other_domain_links_are_dropped() {
    let html = "<a href=\"https://sub.example.com/a\">s</a>\
        <a href=\"https://example.com/b\">b</a>";
    let links = extract_links(html, "https://example.com/");
    assert_eq!(links, vec![String::from("https://example.com/b")]);
}

#[test]
fn ip_address_base_yields_nothing() {
    let html = "<a href=\"/b\">b</a>";
    let links = extract_links(html, "https://127.0.0.1/");
    assert!(links.is_empty());
}

#[test]
fn unparsable_base_yields_nothing() {
    let html = "<a href=\"/b\">b</a>";
    let links = extract_links(html, "not a url");
    assert!(links.is_empty());
}

#[test]
fn scheme_filter_matches_prefixes() {
    assert!(is_filtered("mailto:someone@example.com"));
    assert!(is_filtered("#top"));
    assert!(is_filtered("magnet:?xt=urn"));
    assert!(!is_filtered("https://example.com/"));
    assert!(!is_filtered("/relative"));
    assert!(!is_filtered("mail"));
}

#[test]
fn links_have_set_semantics() {
    // Two anchors to the same URL, plus one whose href differs but
    // resolves to the same absolute URL: the set holds it once, at its
    // first discovery, before the later-found /c.
    let html = "<a href=\"/b\">one</a>\
        <a href=\"https://example.com/b\">two</a>\
        <a href=\"/c\">three</a>\
        <a href=\"/b\">four</a>";
    let links = extract_links(html, "https://example.com/");
    assert_eq!(
        links,
        vec![
            String::from("https://example.com/b"),
            String::from("https://example.com/c"),
        ]
    );
}

#[test]
fn anchors_without_href_are_ignored() {
    let html = "<a name=\"x\">no href</a><a href=\"/y\">y</a>";
    let links = extract_links(html, "https://example.com/");
    assert_eq!(links, vec![String::from("https://example.com/y")]);
}
