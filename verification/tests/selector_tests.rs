use infinite_scraper::selector::SelectorExtractor;

#[test]
fn selectors_listed_in_order() {
    let html = "<html><head><style>.title { color: red } .price { }</style></head></html>";
    let extractor = SelectorExtractor::new();
    let selectors = extractor.extract_css_selectors(html, true);
    assert_eq!(selectors, vec![String::from("title"), String::from("price")]);
}

#[test]
fn scenario_dedup_keeps_first_occurrence_order() {
    let html = "<style>.b { } .a { } .b { } .c { } .a { }</style>";
    let extractor = SelectorExtractor::new();

    let with_duplicates = extractor.extract_css_selectors(html, true);
    assert_eq!(
        with_duplicates,
        vec![
            String::from("b"),
            String::from("a"),
            String::from("b"),
            String::from("c"),
            String::from("a"),
        ]
    );

    let deduplicated = extractor.extract_css_selectors(html, false);
    assert_eq!(
        deduplicated,
        vec![String::from("b"), String::from("a"), String::from("c")]
    );
}

#[test]
fn selectors_span_style_blocks() {
    let html = "<style>.one { }</style><div>x</div><style>.two { } .one { }</style>";
    let extractor = SelectorExtractor::new();
    let all = extractor.extract_css_selectors(html, true);
    assert_eq!(
        all,
        vec![String::from("one"), String::from("two"), String::from("one")]
    );
    let unique = extractor.extract_css_selectors(html, false);
    assert_eq!(unique, vec![String::from("one"), String::from("two")]);
}

#[test]
fn page_without_styles_lists_nothing() {
    let extractor = SelectorExtractor::new();
    assert!(extractor
        .extract_css_selectors("<html><body>plain</body></html>", true)
        .is_empty());
}
