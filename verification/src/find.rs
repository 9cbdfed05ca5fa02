//! The extraction engine: applies the run's CSS selectors or regex
//! patterns to a fetched document body and yields the extracted records
//! in generation order.  A pattern that does not compile is skipped;
//! the remaining patterns are still applied, and the run never aborts
//! on a bad pattern.

use vstd::prelude::*;

use crate::config::ScraperConfig;
use crate::html::select_element_texts;
use crate::html::select_texts_of;
use crate::html::selector_compiles;
use crate::json::encode_record_line;
use crate::json::parse_record_line;
use crate::json::parse_record_line_spec;
use crate::json::record_line_spec;
use crate::text::join_spaces;
use crate::text::join_spaces_spec;
use crate::text::string_of;
use crate::text::trim_chars;
use crate::text::trim_spec;

verus! {

/// One extracted record: the trimmed, space-joined text of a matched
/// element, or the substring a regex matched.
pub struct ScrapedData {
    content: String,
}

impl View for ScrapedData {
    type V = Seq<char>;

    closed spec fn view(&self) -> Seq<char> {
        self.content@
    }
}

impl DeepView for ScrapedData {
    type V = Seq<char>;

    open spec fn deep_view(&self) -> Seq<char> {
        self.view()
    }
}

impl ScrapedData {
    /// A record holding exactly the given content.
    pub fn new(content: String) -> (r: ScrapedData)
        ensures
            r@ == content@,
    {
        ScrapedData { content }
    }

    /// The record's content.
    pub fn content(&self) -> (r: &String)
        ensures
            r@ == self@,
    {
        &self.content
    }

    /// The JSON line under which the record is persisted.
    pub fn to_json_line(&self) -> (r: String)
        ensures
            r@ == record_line_spec(self@),
    {
        encode_record_line(self.content.as_str())
    }

    /// Reads a persisted JSON line back into a record.
    pub fn from_json_line(line: &str) -> (r: Option<ScrapedData>)
        ensures
            (match r {
                Some(d) => parse_record_line_spec(line@) == Some(d@),
                None => parse_record_line_spec(line@) is None,
            }),
    {
        match parse_record_line(line) {
            Some(content) => Some(ScrapedData { content }),
            None => None,
        }
    }
}

/// The record content an element's text nodes give: the fragments
/// joined by single spaces, then trimmed.
pub open spec fn element_record_spec(texts: Seq<Seq<char>>) -> Seq<char> {
    trim_spec(join_spaces_spec(texts))
}

/// What one CSS selector contributes on a document: one record per
/// matching element in document order; a selector that does not
/// compile contributes nothing.
pub open spec fn css_records_for_pattern_spec(html: Seq<char>, pattern: Seq<char>) -> Seq<
    Seq<char>,
> {
    if selector_compiles(pattern) {
        select_texts_of(html, pattern).map_values(|texts: Seq<Seq<char>>| element_record_spec(texts))
    } else {
        Seq::empty()
    }
}

/// All records CSS scraping produces: each pattern's contribution, in
/// pattern order.
pub open spec fn scrape_css_spec(html: Seq<char>, patterns: Seq<Seq<char>>) -> Seq<Seq<char>>
    decreases patterns.len(),
{
    if patterns.len() == 0 {
        Seq::empty()
    } else {
        scrape_css_spec(html, patterns.drop_last()) + css_records_for_pattern_spec(
            html,
            patterns.last(),
        )
    }
}

/// Whether the regex crate accepts the string as a pattern.
pub uninterp spec fn regex_compiles(pattern: Seq<char>) -> bool;

/// The non-overlapping matches of a pattern on a text, leftmost first,
/// each the full matched substring.
pub uninterp spec fn regex_matches_of(pattern: Seq<char>, text: Seq<char>) -> Seq<Seq<char>>;

/// Relies on regex's `Regex::new` and `Regex::find_iter`: nothing when
/// the pattern does not compile, else the non-overlapping matches in
/// the text, leftmost first, each as the matched substring.
#[verifier::external_body]
fn regex_find_matches(pattern: &str, text: &str) -> (r: Option<Vec<String>>)
    ensures
        r is Some <==> regex_compiles(pattern@),
        (match r {
            Some(v) => v.deep_view() == regex_matches_of(pattern@, text@),
            None => true,
        }),
{
    let re = match regex::Regex::new(pattern) {
        Ok(re) => re,
        Err(_) => {
            return None;
        },
    };
    Some(re.find_iter(text).map(|m| m.as_str().to_string()).collect())
}

/// What one regex pattern contributes on a body text: one record per
/// match in match order; a pattern that does not compile contributes
/// nothing.
pub open spec fn regex_records_for_pattern_spec(text: Seq<char>, pattern: Seq<char>) -> Seq<
    Seq<char>,
> {
    if regex_compiles(pattern) {
        regex_matches_of(pattern, text)
    } else {
        Seq::empty()
    }
}

/// All records regex scraping produces: each pattern's contribution,
/// in pattern order.
pub open spec fn scrape_regex_spec(text: Seq<char>, patterns: Seq<Seq<char>>) -> Seq<Seq<char>>
    decreases patterns.len(),
{
    if patterns.len() == 0 {
        Seq::empty()
    } else {
        scrape_regex_spec(text, patterns.drop_last()) + regex_records_for_pattern_spec(
            text,
            patterns.last(),
        )
    }
}

/// What a whole scraping pass produces: the regex engine's records in
/// regex mode, else the CSS engine's.
pub open spec fn scrape_data_spec(
    config: ScraperConfig,
    body: Seq<char>,
    patterns: Seq<Seq<char>>,
) -> Seq<Seq<char>> {
    if config.use_regex {
        scrape_regex_spec(body, patterns)
    } else {
        scrape_css_spec(body, patterns)
    }
}

/// The extraction engine, owning the run's settings.
pub struct Scraper {
    config: ScraperConfig,
}

impl Scraper {
    /// The run settings the engine was built with.
    pub closed spec fn config_spec(&self) -> ScraperConfig {
        self.config
    }

    pub fn new(config: ScraperConfig) -> (r: Scraper)
        ensures
            r.config_spec() == config,
    {
        Scraper { config }
    }

    /// Applies the patterns to a fetched document body: regex matching
    /// in regex mode, CSS selection otherwise.  A pattern that does not
    /// compile is skipped and exactly the remaining patterns are
    /// applied; the pass never fails.
    pub fn scrape_data(&self, body: &str, patterns: &Vec<String>) -> (records: Vec<ScrapedData>)
        ensures
            records.deep_view() == scrape_data_spec(
                self.config_spec(),
                body@,
                patterns.deep_view(),
            ),
    {
        if self.config.use_regex {
            self.scrape_data_with_regex(body, patterns)
        } else {
            scrape_css(body, patterns)
        }
    }

    /// Applies regex patterns to the raw body text: for each pattern
    /// that compiles, one record per non-overlapping match, leftmost
    /// first; a pattern that does not compile is skipped.
    pub fn scrape_data_with_regex(&self, body: &str, patterns: &Vec<String>) -> (records: Vec<
        ScrapedData,
    >)
        ensures
            records.deep_view() == scrape_regex_spec(body@, patterns.deep_view()),
    {
        let mut records: Vec<ScrapedData> = Vec::new();
        let mut i: usize = 0;
        while i < patterns.len()
            invariant
                0 <= i <= patterns.len(),
                records.deep_view() == scrape_regex_spec(
                    body@,
                    patterns.deep_view().take(i as int),
                ),
            decreases patterns.len() - i,
        {
            let ghost pats = patterns.deep_view();
            proof {
                assert(pats.take(i + 1).drop_last() =~= pats.take(i as int));
                assert(pats.take(i + 1).last() == pats[i as int]);
            }
            match regex_find_matches(patterns[i].as_str(), body) {
                Some(found) => {
                    let ghost base = records.deep_view();
                    let ghost contribution = regex_matches_of(pats[i as int], body@);
                    proof {
                        assert(base + contribution.take(0) =~= base);
                    }
                    let mut j: usize = 0;
                    while j < found.len()
                        invariant
                            0 <= j <= found.len(),
                            found.deep_view() == contribution,
                            records.deep_view() == base + contribution.take(j as int),
                        decreases found.len() - j,
                    {
                        let ghost old_dv = records.deep_view();
                        let m = found[j].clone();
                        records.push(ScrapedData::new(m));
                        proof {
                            assert(m@ == found.deep_view()[j as int]);
                            assert(records.deep_view() =~= old_dv.push(m@));
                            assert(contribution.take(j + 1) =~= contribution.take(j as int).push(
                                contribution[j as int],
                            ));
                            assert(records.deep_view() =~= base + contribution.take(j + 1));
                        }
                        j = j + 1;
                    }
                    proof {
                        assert(contribution.take(contribution.len() as int) =~= contribution);
                    }
                },
                None => {
                    proof {
                        assert(records.deep_view() + Seq::<Seq<char>>::empty() =~= records.deep_view());
                    }
                },
            }
            i = i + 1;
        }
        proof {
            assert(patterns.deep_view().take(patterns.deep_view().len() as int) =~= patterns.deep_view());
        }
        records
    }
}

/// Applies CSS selector patterns to a document: for each selector that
/// compiles, one record per matching element in document order, holding
/// the element's space-joined, trimmed text; a selector that does not
/// compile is skipped.
fn scrape_css(html: &str, patterns: &Vec<String>) -> (records: Vec<ScrapedData>)
    ensures
        records.deep_view() == scrape_css_spec(html@, patterns.deep_view()),
{
    let mut records: Vec<ScrapedData> = Vec::new();
    let mut i: usize = 0;
    while i < patterns.len()
        invariant
            0 <= i <= patterns.len(),
            records.deep_view() == scrape_css_spec(html@, patterns.deep_view().take(i as int)),
        decreases patterns.len() - i,
    {
        let ghost pats = patterns.deep_view();
        proof {
            assert(pats.take(i + 1).drop_last() =~= pats.take(i as int));
            assert(pats.take(i + 1).last() == pats[i as int]);
        }
        match select_element_texts(html, patterns[i].as_str()) {
            Some(texts_list) => {
                let ghost base = records.deep_view();
                let ghost contribution = select_texts_of(html@, pats[i as int]).map_values(
                    |texts: Seq<Seq<char>>| element_record_spec(texts),
                );
                let mut j: usize = 0;
                while j < texts_list.len()
                    invariant
                        0 <= j <= texts_list.len(),
                        i < patterns.len(),
                        pats == patterns.deep_view(),
                        texts_list.deep_view() == select_texts_of(html@, pats[i as int]),
                        contribution == select_texts_of(html@, pats[i as int]).map_values(
                            |texts: Seq<Seq<char>>| element_record_spec(texts),
                        ),
                        records.deep_view() == base + contribution.take(j as int),
                    decreases texts_list.len() - j,
                {
                    let ghost old_dv = records.deep_view();
                    let joined = join_spaces(&texts_list[j]);
                    let trimmed = trim_chars(&joined);
                    let content = string_of(&trimmed);
                    let ghost content_v = content@;
                    records.push(ScrapedData::new(content));
                    proof {
                        assert(texts_list@[j as int].deep_view() == texts_list.deep_view()[j as int]);
                        assert(content_v == element_record_spec(
                            select_texts_of(html@, pats[i as int])[j as int],
                        ));
                        assert(contribution[j as int] == element_record_spec(
                            select_texts_of(html@, pats[i as int])[j as int],
                        ));
                        assert(records.deep_view() =~= old_dv.push(content_v));
                        assert(contribution.take(j + 1) =~= contribution.take(j as int).push(
                            contribution[j as int],
                        ));
                        assert(records.deep_view() =~= base + contribution.take(j + 1));
                    }
                    j = j + 1;
                }
                proof {
                    assert(contribution.take(contribution.len() as int) =~= contribution);
                    assert(texts_list.deep_view().len() == select_texts_of(
                        html@,
                        pats[i as int],
                    ).len());
                }
            },
            None => {
                proof {
                    assert(records.deep_view() + Seq::<Seq<char>>::empty() =~= records.deep_view());
                }
            },
        }
        i = i + 1;
    }
    proof {
        assert(patterns.deep_view().take(patterns.deep_view().len() as int) =~= patterns.deep_view());
    }
    records
}

} // verus!
