//! The frontier/crawl controller: owns the work queue, the visited set
//! and the fetch-slot pool, and turns one fetched page into frontier
//! growth and extracted records.  The fetch itself and every file write
//! happen outside the library; the controller names the files and hands
//! out the lines to append.

use vstd::prelude::*;
use vstd::string::StringExecFns;

use crate::config::ScraperConfig;
use crate::find::ScrapedData;
use crate::find::Scraper;
use crate::find::scrape_data_spec;
use crate::frontier::ConnectionPool;
use crate::frontier::Frontier;
use crate::links::extract_links;
use crate::links::extract_links_spec;
use crate::links::url_path;
use crate::links::url_path_of;
use crate::text::chars_of;
use crate::text::lemma_filter_no_duplicates;
use crate::text::string_of;

verus! {

/// Relies on chrono's `Local::now` and its `%Y%m%d%H%M%S` formatting: a
/// run timestamp of at least 14 characters, year first.  The value
/// depends on the clock, so nothing more is promised of it — a year
/// outside 0..=9999 would even carry a sign, and chrono aborts on a
/// clock before 1970.
#[verifier::external_body]
pub fn now_timestamp() -> (r: String)
    ensures
        r@.len() >= 14,
{
    chrono::Local::now().format("%Y%m%d%H%M%S").to_string()
}

/// The per-run file that discovered links are appended to.
pub open spec fn crawl_results_path_spec(timestamp: Seq<char>) -> Seq<char> {
    "Results/"@ + timestamp + "_crawl_results.txt"@
}

/// The per-run file that discovered links are appended to.
pub fn crawl_results_path(timestamp: &str) -> (r: String)
    ensures
        r@ == crawl_results_path_spec(timestamp@),
{
    let mut s = String::from_str("Results/");
    s.append(timestamp);
    s.append("_crawl_results.txt");
    s
}

/// The per-run file that listed selectors are appended to.
pub open spec fn selectors_path_spec(timestamp: Seq<char>) -> Seq<char> {
    "Results/"@ + timestamp + "_selectors.txt"@
}

/// The per-run file that listed selectors are appended to.
pub fn selectors_path(timestamp: &str) -> (r: String)
    ensures
        r@ == selectors_path_spec(timestamp@),
{
    let mut s = String::from_str("Results/");
    s.append(timestamp);
    s.append("_selectors.txt");
    s
}

/// A URL turned into a file-name stem: every colon and path separator
/// replaced by an underscore.
pub open spec fn sanitize_url_spec(url: Seq<char>) -> Seq<char> {
    url.map_values(
        |c: char|
            if c == ':' || c == '/' {
                '_'
            } else {
                c
            },
    )
}

fn sanitize_chars(v: &Vec<char>) -> (r: Vec<char>)
    ensures
        r@ == sanitize_url_spec(v@),
{
    let mut r: Vec<char> = Vec::new();
    let mut i: usize = 0;
    while i < v.len()
        invariant
            0 <= i <= v.len(),
            r@.len() == i,
            forall|j: int|
                0 <= j < i ==> r@[j] == (if v@[j] == ':' || v@[j] == '/' {
                    '_'
                } else {
                    v@[j]
                }),
        decreases v.len() - i,
    {
        let c = v[i];
        if c == ':' || c == '/' {
            r.push('_');
        } else {
            r.push(c);
        }
        i = i + 1;
    }
    proof {
        assert(r@ =~= sanitize_url_spec(v@));
    }
    r
}

/// The position of the last occurrence of a character, or -1 when it
/// does not occur.
pub open spec fn last_pos_spec(s: Seq<char>, c: char) -> int
    decreases s.len(),
{
    if s.len() == 0 {
        -1
    } else if s.last() == c {
        s.len() - 1
    } else {
        last_pos_spec(s.drop_last(), c)
    }
}

proof fn lemma_last_pos(s: Seq<char>, c: char)
    ensures
        last_pos_spec(s, c) == -1 ==> forall|j: int| 0 <= j < s.len() ==> s[j] != c,
        last_pos_spec(s, c) != -1 ==> {
            &&& 0 <= last_pos_spec(s, c) < s.len()
            &&& s[last_pos_spec(s, c)] == c
            &&& forall|j: int| last_pos_spec(s, c) < j < s.len() ==> s[j] != c
        },
    decreases s.len(),
{
    if s.len() == 0 {
    } else if s.last() == c {
    } else {
        lemma_last_pos(s.drop_last(), c);
        assert(forall|j: int| 0 <= j < s.len() - 1 ==> s.drop_last()[j] == s[j]);
    }
}

fn last_pos(v: &Vec<char>, c: char) -> (r: Option<usize>)
    ensures
        (match r {
            Some(p) => last_pos_spec(v@, c) == p as int,
            None => last_pos_spec(v@, c) == -1,
        }),
{
    proof {
        lemma_last_pos(v@, c);
    }
    let mut i: usize = v.len();
    while i > 0
        invariant
            0 <= i <= v.len(),
            forall|j: int| i <= j < v@.len() ==> v@[j] != c,
        decreases i,
    {
        if v[i - 1] == c {
            proof {
                let p = last_pos_spec(v@, c);
                lemma_last_pos(v@, c);
                assert(p != -1);
                assert(p == i - 1) by {
                    if p > i - 1 {
                        assert(v@[p] != c);
                    }
                    if p < i - 1 {
                        assert(v@[i - 1] != c);
                    }
                }
            }
            return Some(i - 1);
        }
        i = i - 1;
    }
    None
}

fn slice_chars(v: &Vec<char>, from: usize, to: usize) -> (r: Vec<char>)
    requires
        from <= to <= v@.len(),
    ensures
        r@ == v@.subrange(from as int, to as int),
{
    let mut r: Vec<char> = Vec::new();
    let mut i: usize = from;
    while i < to
        invariant
            from <= i <= to <= v@.len(),
            r@ == v@.subrange(from as int, i as int),
        decreases to - i,
    {
        r.push(v[i]);
        proof {
            assert(r@ =~= v@.subrange(from as int, i + 1));
        }
        i = i + 1;
    }
    r
}

/// The extension of a path: what follows the last dot of the last path
/// segment, when that segment has a dot after its first character.
pub open spec fn path_extension_spec(path: Seq<char>) -> Option<Seq<char>> {
    let seg = path.skip(last_pos_spec(path, '/') + 1);
    let dot = last_pos_spec(seg, '.');
    if dot <= 0 {
        None
    } else {
        Some(seg.skip(dot + 1))
    }
}

fn extension_of_path(path: &Vec<char>) -> (r: Option<Vec<char>>)
    ensures
        (match r {
            Some(e) => path_extension_spec(path@) == Some(e@),
            None => path_extension_spec(path@) is None,
        }),
{
    proof {
        lemma_last_pos(path@, '/');
    }
    let n = path.len();
    let seg_start: usize = match last_pos(path, '/') {
        Some(p) => {
            proof {
                assert((p as int) < n as int);
            }
            p + 1
        },
        None => 0,
    };
    let seg = slice_chars(path, seg_start, n);
    proof {
        assert(seg@ == path@.skip(last_pos_spec(path@, '/') + 1));
        lemma_last_pos(seg@, '.');
    }
    match last_pos(&seg, '.') {
        Some(d) => {
            if d == 0 {
                None
            } else {
                let e = slice_chars(&seg, d + 1, seg.len());
                proof {
                    assert(e@ =~= seg@.skip(d + 1));
                }
                Some(e)
            }
        },
        None => None,
    }
}

/// The file a fetched page body is saved under when full download is
/// on: the sanitized URL plus `_file` and the URL path's extension
/// (default `html`), inside the download folder.
pub open spec fn download_file_name_spec(folder: Seq<char>, url: Seq<char>) -> Seq<char> {
    let ext = match url_path_of(url) {
        Some(p) => match path_extension_spec(p) {
            Some(e) => e,
            None => "html"@,
        },
        None => "html"@,
    };
    folder + "/"@ + sanitize_url_spec(url) + "_file."@ + ext
}

/// The file a fetched page body is saved under when full download is
/// on.
pub fn download_file_name(folder: &str, url: &str) -> (r: String)
    ensures
        r@ == download_file_name_spec(folder@, url@),
{
    let url_chars = chars_of(url);
    let sanitized = string_of(&sanitize_chars(&url_chars));
    let ext: String = match url_path(url) {
        Some(p) => {
            let pc = chars_of(p.as_str());
            match extension_of_path(&pc) {
                Some(e) => string_of(&e),
                None => String::from_str("html"),
            }
        },
        None => String::from_str("html"),
    };
    let mut out = String::from_str(folder);
    out.append("/");
    out.append(sanitized.as_str());
    out.append("_file.");
    out.append(ext.as_str());
    out
}

/// What processing one fetched page yields: the newly discovered links
/// in discovery order (already pushed on the frontier), and the
/// extracted records in generation order.  The caller appends each link
/// to the run's results file and each record, as its JSON line, to the
/// output file.
pub struct PageOutcome {
    pub new_links: Vec<String>,
    pub records: Vec<ScrapedData>,
}

/// The crawl controller: the run's settings, the extraction engine,
/// the frontier it owns, and the pool of fetch slots.
pub struct Crawler {
    pub config: ScraperConfig,
    pub scraper: Scraper,
    pub frontier: Frontier,
    pub pool: ConnectionPool,
}

impl Crawler {
    /// The controller's invariant: frontier and pool are well-formed
    /// and the engine carries the run's own settings.
    pub open spec fn wf(&self) -> bool {
        &&& self.frontier.wf()
        &&& self.pool.wf()
        &&& self.scraper.config_spec() == self.config
    }

    /// A controller for one run: the frontier is seeded with the base
    /// URL and every fetch slot is free.
    pub fn new(config: ScraperConfig, max_connections: usize) -> (r: Crawler)
        ensures
            r.wf(),
            r.config == config,
            r.frontier.visited_urls() == Seq::<Seq<char>>::empty(),
            r.frontier.pending_urls() == seq![config.base_url@],
            r.frontier.enqueued_urls() == seq![config.base_url@],
            r.pool.active_count() == 0,
            r.pool.limit() == max_connections,
    {
        let scraper = Scraper::new(config.duplicate());
        let frontier = Frontier::new(config.base_url.clone());
        let pool = ConnectionPool::new(max_connections);
        Crawler { config, scraper, frontier, pool }
    }

    /// The next URL to process: pops pending URLs until an unvisited
    /// one appears and marks it visited at that moment.  The frontier
    /// is a stack, so the URL handed out is the most recently pushed
    /// pending one after a suffix of already-visited entries is
    /// discarded.  Yields nothing once the frontier is exhausted, which
    /// ends the crawl.
    pub fn next_url(&mut self) -> (r: Option<String>)
        requires
            old(self).wf(),
        ensures
            final(self).wf(),
            final(self).config == old(self).config,
            final(self).scraper == old(self).scraper,
            final(self).pool == old(self).pool,
            final(self).frontier.enqueued_urls() == old(self).frontier.enqueued_urls(),
            (match r {
                Some(u) => {
                    let kept = final(self).frontier.pending_urls().len() as int;
                    &&& !old(self).frontier.visited_urls().contains(u@)
                    &&& kept < old(self).frontier.pending_urls().len()
                    &&& u@ == old(self).frontier.pending_urls()[kept]
                    &&& final(self).frontier.pending_urls() == old(
                        self,
                    ).frontier.pending_urls().take(kept)
                    &&& forall|j: int|
                        kept < j < old(self).frontier.pending_urls().len() ==> old(
                            self,
                        ).frontier.visited_urls().contains(old(self).frontier.pending_urls()[j])
                    &&& final(self).frontier.visited_urls() == old(
                        self,
                    ).frontier.visited_urls().push(u@)
                },
                None => {
                    &&& final(self).frontier.visited_urls() == old(
                        self,
                    ).frontier.visited_urls()
                    &&& final(self).frontier.pending_urls() == Seq::<Seq<char>>::empty()
                    &&& forall|i: int|
                        0 <= i < old(self).frontier.pending_urls().len() ==> old(
                            self,
                        ).frontier.visited_urls().contains(old(self).frontier.pending_urls()[i])
                },
            }),
    {
        self.frontier.pop_next()
    }

    /// Turns one fetched page into frontier growth and records: the
    /// page's same-domain links that are not yet visited are pushed on
    /// the frontier in discovery order, and the extraction engine is
    /// run over the page with the run's patterns.
    pub fn process_page(&mut self, html: &str, patterns: &Vec<String>) -> (out: PageOutcome)
        requires
            old(self).wf(),
        ensures
            final(self).wf(),
            final(self).config == old(self).config,
            final(self).scraper == old(self).scraper,
            final(self).pool == old(self).pool,
            out.new_links.deep_view() == extract_links_spec(
                html@,
                old(self).config.base_url@,
            ).filter(
                |l: Seq<char>| !old(self).frontier.visited_urls().contains(l),
            ),
            out.new_links.deep_view().no_duplicates(),
            out.records.deep_view() == scrape_data_spec(
                old(self).config,
                html@,
                patterns.deep_view(),
            ),
            final(self).frontier.visited_urls() == old(self).frontier.visited_urls(),
            final(self).frontier.pending_urls() == old(self).frontier.pending_urls()
                + out.new_links.deep_view(),
            final(self).frontier.enqueued_urls() == old(
                self,
            ).frontier.enqueued_urls() + out.new_links.deep_view(),
    {
        let links = extract_links(html, self.config.base_url.as_str());
        let ghost all_links = extract_links_spec(html@, old(self).config.base_url@);
        let ghost visited = old(self).frontier.visited_urls();
        let ghost pred = |l: Seq<char>| !visited.contains(l);
        let ghost orig = *old(self);
        let mut new_links: Vec<String> = Vec::new();
        let mut i: usize = 0;
        proof {
            reveal(Seq::filter);
            assert(all_links.take(0).filter(pred) =~= Seq::<Seq<char>>::empty());
            assert(orig.frontier.pending_urls() + Seq::<Seq<char>>::empty() =~= orig.frontier.pending_urls());
            assert(orig.frontier.enqueued_urls() + Seq::<Seq<char>>::empty() =~= orig.frontier.enqueued_urls());
        }
        while i < links.len()
            invariant
                0 <= i <= links.len(),
                orig == *old(self),
                self.config == orig.config,
                self.scraper == orig.scraper,
                self.pool == orig.pool,
                self.frontier.wf(),
                orig.wf(),
                links.deep_view() == all_links,
                visited == orig.frontier.visited_urls(),
                pred == (|l: Seq<char>| !visited.contains(l)),
                self.frontier.visited_urls() == visited,
                new_links.deep_view() == all_links.take(i as int).filter(pred),
                self.frontier.pending_urls() == orig.frontier.pending_urls()
                    + new_links.deep_view(),
                self.frontier.enqueued_urls() == orig.frontier.enqueued_urls()
                    + new_links.deep_view(),
            decreases links.len() - i,
        {
            proof {
                reveal(Seq::filter);
                assert(all_links.take(i + 1).drop_last() =~= all_links.take(i as int));
                assert(all_links.take(i + 1).last() == all_links[i as int]);
                assert(links@[i as int]@ == all_links[i as int]);
            }
            let link = links[i].clone();
            let ghost old_pending = self.frontier.pending_urls();
            let ghost old_enqueued = self.frontier.enqueued_urls();
            let ghost old_new = new_links.deep_view();
            let pushed = self.frontier.push_if_unvisited(link.clone());
            if pushed {
                new_links.push(link);
                proof {
                    reveal(Seq::filter);
                    assert(new_links.deep_view() =~= old_new.push(all_links[i as int]));
                    assert(all_links.take(i + 1).filter(pred) =~= old_new.push(
                        all_links[i as int],
                    ));
                    assert(self.frontier.pending_urls() =~= orig.frontier.pending_urls()
                        + new_links.deep_view());
                    assert(self.frontier.enqueued_urls() =~= orig.frontier.enqueued_urls()
                        + new_links.deep_view());
                }
            } else {
                proof {
                    reveal(Seq::filter);
                    assert(all_links.take(i + 1).filter(pred) =~= old_new);
                }
            }
            i = i + 1;
        }
        proof {
            assert(all_links.take(all_links.len() as int) =~= all_links);
            assert(links.deep_view().len() == all_links.len());
            lemma_filter_no_duplicates(all_links, pred);
        }
        let records = self.scraper.scrape_data(html, patterns);
        PageOutcome { new_links, records }
    }

    /// Takes a fetch slot when one is free; the caller must hold one
    /// around each fetch-and-extract cycle and wait when none is free.
    pub fn acquire_slot(&mut self) -> (ok: bool)
        requires
            old(self).wf(),
        ensures
            final(self).wf(),
            final(self).config == old(self).config,
            final(self).scraper == old(self).scraper,
            final(self).frontier == old(self).frontier,
            final(self).pool.limit() == old(self).pool.limit(),
            ok == (old(self).pool.active_count() < old(self).pool.limit()),
            final(self).pool.active_count() == (if ok {
                old(self).pool.active_count() + 1
            } else {
                old(self).pool.active_count()
            }),
    {
        self.pool.try_acquire()
    }

    /// Returns a fetch slot after a fetch-and-extract cycle completes.
    pub fn release_slot(&mut self)
        requires
            old(self).wf(),
            old(self).pool.active_count() > 0,
        ensures
            final(self).wf(),
            final(self).config == old(self).config,
            final(self).scraper == old(self).scraper,
            final(self).frontier == old(self).frontier,
            final(self).pool.limit() == old(self).pool.limit(),
            final(self).pool.active_count() == old(self).pool.active_count() - 1,
    {
        self.pool.release()
    }
}

} // verus!
