//! Per-run configuration: the resolved settings a run is driven by, the
//! run-mode selection, the pattern-list splitting, and the interval
//! string parsing.

use vstd::prelude::*;
use vstd::string::StringExecFns;

use crate::text::chars_of;
use crate::text::split_chars;
use crate::text::split_spec;
use crate::text::string_of;
use crate::text::trim_chars;
use crate::text::trim_spec;

verus! {

/// The command line options, as plain values.  The process boundary that
/// actually parses the command line hands this struct in.
#[derive(Debug, Clone)]
pub struct CliOptions {
    pub base_url: String,
    pub start_path: String,
    pub crawl: bool,
    pub scrape: bool,
    pub list_selectors: bool,
    pub use_selectors: Option<String>,
    pub include_duplicates: bool,
    pub full_download: bool,
    pub output_folder: Option<String>,
    pub use_regex: Option<String>,
    pub interval: Option<String>,
    pub max_connections: usize,
    pub use_proxies: bool,
}

/// Immutable per-run settings, resolved once from the options and never
/// mutated afterwards.
#[derive(Clone)]
pub struct ScraperConfig {
    pub base_url: String,
    pub start_path: String,
    pub full_download: bool,
    pub download_folder: String,
    pub use_regex: bool,
    pub max_connections: usize,
}

impl ScraperConfig {
    /// A copy equal to `self`, made field by field so that the
    /// contracts see the equality.
    pub fn duplicate(&self) -> (r: ScraperConfig)
        ensures
            r == *self,
    {
        ScraperConfig {
            base_url: self.base_url.clone(),
            start_path: self.start_path.clone(),
            full_download: self.full_download,
            download_folder: self.download_folder.clone(),
            use_regex: self.use_regex,
            max_connections: self.max_connections,
        }
    }

    /// Resolves the per-run settings: the download folder falls back to
    /// `downloads`, and regex mode is on exactly when a regex pattern was
    /// supplied.
    pub fn from_options(options: CliOptions) -> (r: Result<ScraperConfig, &'static str>)
        ensures
            r is Ok,
            (match r {
                Ok(c) => {
                    &&& c.base_url == options.base_url
                    &&& c.start_path == options.start_path
                    &&& c.max_connections == options.max_connections
                    &&& c.full_download == options.full_download
                    &&& c.download_folder@ == (match options.output_folder {
                        Some(f) => f@,
                        None => "downloads"@,
                    })
                    &&& c.use_regex == (options.use_regex is Some)
                },
                Err(_) => false,
            }),
    {
        let use_regex = options.use_regex.is_some();
        let download_folder = match options.output_folder {
            Some(f) => f,
            None => String::from_str("downloads"),
        };
        Ok(
            ScraperConfig {
                base_url: options.base_url,
                start_path: options.start_path,
                max_connections: options.max_connections,
                full_download: options.full_download,
                download_folder,
                use_regex,
            },
        )
    }
}

/// One enabled way of running, in the order the runner performs them.
#[derive(PartialEq, Eq, Structural, Debug, Clone, Copy)]
pub enum RunMode {
    Crawl,
    ListSelectors,
    ScrapeCss,
    ScrapeRegex,
}

/// The run modes the options enable, in the order they are performed:
/// crawling, selector listing, CSS scraping, regex scraping.
pub fn run_modes(options: &CliOptions) -> (modes: Vec<RunMode>)
    ensures
        modes@ == run_modes_spec(options),
{
    let mut modes: Vec<RunMode> = Vec::new();
    if options.crawl {
        modes.push(RunMode::Crawl);
    }
    if options.list_selectors {
        modes.push(RunMode::ListSelectors);
    }
    if options.scrape && options.use_selectors.is_some() {
        modes.push(RunMode::ScrapeCss);
    }
    if options.scrape && options.use_regex.is_some() {
        modes.push(RunMode::ScrapeRegex);
    }
    assert(modes@ =~= run_modes_spec(options));
    modes
}

/// Which run modes a set of options selects.
pub open spec fn run_modes_spec(options: &CliOptions) -> Seq<RunMode> {
    let crawl: Seq<RunMode> = if options.crawl {
        seq![RunMode::Crawl]
    } else {
        Seq::empty()
    };
    let list: Seq<RunMode> = if options.list_selectors {
        seq![RunMode::ListSelectors]
    } else {
        Seq::empty()
    };
    let css: Seq<RunMode> = if options.scrape && options.use_selectors is Some {
        seq![RunMode::ScrapeCss]
    } else {
        Seq::empty()
    };
    let re: Seq<RunMode> = if options.scrape && options.use_regex is Some {
        seq![RunMode::ScrapeRegex]
    } else {
        Seq::empty()
    };
    crawl + list + css + re
}

/// A comma-separated pattern list, split and trimmed.
pub open spec fn split_patterns_spec(s: Seq<char>) -> Seq<Seq<char>> {
    split_spec(s, ',').map_values(|p: Seq<char>| trim_spec(p))
}

/// Splits a comma-separated pattern list into its trimmed parts.
pub fn split_patterns(s: &str) -> (r: Vec<String>)
    ensures
        r.deep_view() == split_patterns_spec(s@),
{
    let v = chars_of(s);
    let parts = split_chars(&v, ',');
    let mut r: Vec<String> = Vec::new();
    let mut i: usize = 0;
    while i < parts.len()
        invariant
            0 <= i <= parts.len(),
            parts.deep_view() == split_spec(v@, ','),
            v@ == s@,
            r.deep_view() =~= split_spec(s@, ',').map_values(|p: Seq<char>| trim_spec(p)).subrange(
                0,
                i as int,
            ),
        decreases parts.len() - i,
    {
        let t = trim_chars(&parts[i]);
        let st = string_of(&t);
        let ghost old_r = r.deep_view();
        r.push(st);
        proof {
            let m = split_spec(s@, ',').map_values(|p: Seq<char>| trim_spec(p));
            assert(parts@[i as int]@ == parts.deep_view()[i as int]);
            assert(m[i as int] == trim_spec(split_spec(s@, ',')[i as int]));
            assert(r.deep_view() =~= old_r.push(trim_spec(split_spec(s@, ',')[i as int])));
            assert(r.deep_view() =~= m.subrange(0, i + 1));
        }
        i = i + 1;
    }
    proof {
        let m = split_spec(s@, ',').map_values(|p: Seq<char>| trim_spec(p));
        assert(parts.deep_view().len() == parts@.len());
        assert(r.deep_view() =~= m);
    }
    r
}

/// A decimal digit.
pub open spec fn is_digit_char(c: char) -> bool {
    0x30 <= (c as u32) && (c as u32) <= 0x39
}

/// The number a digit string denotes, read left to right.
pub open spec fn digits_value_spec(s: Seq<char>) -> int
    decreases s.len(),
{
    if s.len() == 0 {
        0
    } else {
        digits_value_spec(s.drop_last()) * 10 + ((s.last() as u32) - 0x30)
    }
}

/// A numeric interval component: non-empty, all digits, and small enough
/// to be read as a 64-bit count.
pub open spec fn is_numeric_component(s: Seq<char>) -> bool {
    &&& s.len() > 0
    &&& (forall|i: int| 0 <= i < s.len() ==> is_digit_char(s[i]))
    &&& digits_value_spec(s) <= u64::MAX
}

/// The number of seconds an `HH:MM:SS` interval string denotes, or
/// nothing when the string is malformed: not exactly three
/// colon-separated numeric components, or a count that overflows 64
/// bits.
pub open spec fn interval_seconds_spec(s: Seq<char>) -> Option<int> {
    let parts = split_spec(s, ':');
    if parts.len() == 3 && is_numeric_component(parts[0]) && is_numeric_component(parts[1])
        && is_numeric_component(parts[2]) {
        let total = digits_value_spec(parts[0]) * 3600 + digits_value_spec(parts[1]) * 60
            + digits_value_spec(parts[2]);
        if total <= u64::MAX {
            Some(total)
        } else {
            None
        }
    } else {
        None
    }
}

proof fn lemma_digits_value_nonneg(s: Seq<char>)
    requires
        forall|i: int| 0 <= i < s.len() ==> is_digit_char(s[i]),
    ensures
        digits_value_spec(s) >= 0,
    decreases s.len(),
{
    if s.len() > 0 {
        lemma_digits_value_nonneg(s.drop_last());
    }
}

proof fn lemma_digits_value_grows(s: Seq<char>, i: int)
    requires
        0 <= i <= s.len(),
        forall|j: int| 0 <= j < s.len() ==> is_digit_char(s[j]),
    ensures
        digits_value_spec(s) >= digits_value_spec(s.subrange(0, i)),
    decreases s.len() - i,
{
    if i == s.len() {
        assert(s.subrange(0, i) =~= s);
    } else {
        assert(s.subrange(0, i + 1).drop_last() =~= s.subrange(0, i));
        assert(forall|j: int| 0 <= j < i ==> s.subrange(0, i)[j] == s[j]);
        lemma_digits_value_nonneg(s.subrange(0, i));
        assert(digits_value_spec(s.subrange(0, i + 1)) >= digits_value_spec(s.subrange(0, i)));
        lemma_digits_value_grows(s, i + 1);
    }
}

/// Reads a digit string as a 64-bit count; nothing when the string is
/// empty, holds a non-digit, or overflows.
fn parse_u64_digits(digits: &Vec<char>) -> (r: Option<u64>)
    ensures
        (match r {
            Some(n) => is_numeric_component(digits@) && n as int == digits_value_spec(digits@),
            None => !is_numeric_component(digits@),
        }),
{
    if digits.len() == 0 {
        return None;
    }
    let mut acc: u64 = 0;
    let mut i: usize = 0;
    while i < digits.len()
        invariant
            0 <= i <= digits.len(),
            forall|j: int| 0 <= j < i ==> is_digit_char(digits@[j]),
            acc as int == digits_value_spec(digits@.subrange(0, i as int)),
        decreases digits.len() - i,
    {
        let c = digits[i];
        let u = c as u32;
        if u < 0x30 || u > 0x39 {
            return None;
        }
        let d = (u - 0x30) as u64;
        let next = match acc.checked_mul(10) {
            Some(m) => m.checked_add(d),
            None => None,
        };
        proof {
            assert(digits@.subrange(0, i + 1).drop_last() =~= digits@.subrange(0, i as int));
        }
        match next {
            Some(n) => {
                acc = n;
            },
            None => {
                proof {
                    assert(acc as int * 10 + d as int > u64::MAX);
                    assert(digits_value_spec(digits@.subrange(0, i + 1)) > u64::MAX);
                    if forall|j: int| 0 <= j < digits@.len() ==> is_digit_char(digits@[j]) {
                        lemma_digits_value_grows(digits@, i + 1);
                    }
                }
                return None;
            },
        }
        i = i + 1;
    }
    proof {
        assert(digits@.subrange(0, digits@.len() as int) =~= digits@);
    }
    Some(acc)
}

/// The number of seconds an `HH:MM:SS` interval string denotes, or
/// nothing when the string is malformed.
pub fn parse_interval_seconds(s: &str) -> (r: Option<u64>)
    ensures
        (match r {
            Some(n) => interval_seconds_spec(s@) == Some(n as int),
            None => interval_seconds_spec(s@) is None,
        }),
{
    let v = chars_of(s);
    let parts = split_chars(&v, ':');
    if parts.len() != 3 {
        return None;
    }
    proof {
        assert(parts.deep_view()[0] == parts@[0]@);
        assert(parts.deep_view()[1] == parts@[1]@);
        assert(parts.deep_view()[2] == parts@[2]@);
    }
    let h = match parse_u64_digits(&parts[0]) {
        Some(n) => n,
        None => {
            return None;
        },
    };
    let m = match parse_u64_digits(&parts[1]) {
        Some(n) => n,
        None => {
            return None;
        },
    };
    let sec = match parse_u64_digits(&parts[2]) {
        Some(n) => n,
        None => {
            return None;
        },
    };
    let total = match h.checked_mul(3600) {
        Some(a) => match m.checked_mul(60) {
            Some(b) => match a.checked_add(b) {
                Some(ab) => ab.checked_add(sec),
                None => None,
            },
            None => None,
        },
        None => None,
    };
    total
}

} // verus!
