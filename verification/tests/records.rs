use infinite_scraper::find::ScrapedData;

#[test]
fn record_line_simple() {
    let d = ScrapedData::new(String::from("hello world"));
    assert_eq!(d.to_json_line(), "{\"content\":\"hello world\"}");
}

#[test]
fn record_line_empty() {
    let d = ScrapedData::new(String::new());
    assert_eq!(d.to_json_line(), "{\"content\":\"\"}");
}

#[test]
fn record_round_trip_simple() {
    let d = ScrapedData::new(String::from("Hello"));
    let line = d.to_json_line();
    let back = ScrapedData::from_json_line(&line).expect("line parses");
    assert_eq!(back.content().as_str(), "Hello");
}

#[test]
fn record_round_trip_escapes() {
    let content = "a \"quoted\" \\ back\\slash\nnewline\ttab\rret\u{8}\u{c}";
    let d = ScrapedData::new(String::from(content));
    let line = d.to_json_line();
    let back = ScrapedData::from_json_line(&line).expect("line parses");
    assert_eq!(back.content().as_str(), content);
}

#[test]
fn record_round_trip_control_chars() {
    let content = "low\u{1}\u{1f}bytes";
    let d = ScrapedData::new(String::from(content));
    let line = d.to_json_line();
    assert!(line.contains("\\u0001"));
    assert!(line.contains("\\u001f"));
    let back = ScrapedData::from_json_line(&line).expect("line parses");
    assert_eq!(back.content().as_str(), content);
}

#[test]
fn record_round_trip_unicode() {
    let content = "héllo wörld — 你好";
    let d = ScrapedData::new(String::from(content));
    let back = ScrapedData::from_json_line(&d.to_json_line()).expect("line parses");
    assert_eq!(back.content().as_str(), content);
}

#[test]
fn record_line_matches_serde_json() {
    let samples = [
        "plain",
        " spaced out ",
        "a \"quoted\" \\ piece",
        "line\nbreak\tand\rmore\u{8}\u{c}\u{1f}",
        "unicode é 你好",
        "",
    ];
    for content in samples {
        let d = ScrapedData::new(String::from(content));
        let mut m = serde_json::Map::new();
        m.insert(
            String::from("content"),
            serde_json::Value::String(String::from(content)),
        );
        let expected = serde_json::Value::Object(m).to_string();
        assert_eq!(d.to_json_line(), expected);
    }
}

#[test]
fn record_line_reparsed_by_serde_json() {
    let content = " trimmed content with \"specials\"\n";
    let d = ScrapedData::new(String::from(content));
    let line = d.to_json_line();
    let v: serde_json::Value = serde_json::from_str(&line).expect("valid JSON");
    assert_eq!(v["content"].as_str(), Some(content));
}

#[test]
fn malformed_lines_are_rejected() {
    assert!(ScrapedData::from_json_line("").is_none());
    assert!(ScrapedData::from_json_line("{}").is_none());
    assert!(ScrapedData::from_json_line("{\"content\":}").is_none());
    assert!(ScrapedData::from_json_line("{\"content\":\"open").is_none());
    assert!(ScrapedData::from_json_line("{\"content\":\"x\"").is_none());
    assert!(ScrapedData::from_json_line("{\"content\":\"bad\\q\"}").is_none());
    assert!(ScrapedData::from_json_line("{\"content\":\"a\"} extra").is_none());
}
