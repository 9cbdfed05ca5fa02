//! Domain-scoped link discovery: the anchors of a fetched page are
//! filtered by scheme, resolved against the base URL, and kept only
//! when their domain is exactly the base URL's domain.

use vstd::prelude::*;

use crate::html::anchor_hrefs;
use crate::html::anchor_hrefs_of;
use crate::text::chars_of;
use crate::text::dedup_spec;
use crate::text::dedup_strings;
use crate::text::lemma_dedup_membership;
use crate::text::lemma_dedup_no_duplicates;
use crate::text::is_prefix_of;
use crate::text::starts_with_chars;

verus! {

/// The domain name of an absolute URL string, or nothing when the
/// string does not parse as a URL or its host is not a domain name.
pub uninterp spec fn url_domain_of(url: Seq<char>) -> Option<Seq<char>>;

/// Relies on url's `Url::parse` and `Url::domain`: the domain of an
/// absolute URL string, or nothing when it does not parse or its host
/// is an IP address or absent.
#[verifier::external_body]
pub(crate) fn url_domain(url: &str) -> (r: Option<String>)
    ensures
        r.deep_view() == url_domain_of(url@),
{
    match url::Url::parse(url) {
        Ok(u) => u.domain().map(|d| d.to_string()),
        Err(_) => None,
    }
}

/// The serialization of a (possibly relative) reference resolved
/// against a base URL, or nothing when the base does not parse or the
/// reference cannot be resolved against it.
pub uninterp spec fn url_join_of(base: Seq<char>, href: Seq<char>) -> Option<Seq<char>>;

/// Relies on url's `Url::parse`, `Url::join` and the `Display`-based
/// serialization: resolves `href` against `base` and serializes the
/// result.
#[verifier::external_body]
pub(crate) fn url_join(base: &str, href: &str) -> (r: Option<String>)
    ensures
        r.deep_view() == url_join_of(base@, href@),
{
    match url::Url::parse(base) {
        Ok(b) => match b.join(href) {
            Ok(u) => Some(u.to_string()),
            Err(_) => None,
        },
        Err(_) => None,
    }
}

/// The path component of an absolute URL string, or nothing when the
/// string does not parse.
pub uninterp spec fn url_path_of(url: Seq<char>) -> Option<Seq<char>>;

/// Relies on url's `Url::parse` and `Url::path`: the path component of
/// an absolute URL string.
#[verifier::external_body]
pub(crate) fn url_path(url: &str) -> (r: Option<String>)
    ensures
        r.deep_view() == url_path_of(url@),
{
    match url::Url::parse(url) {
        Ok(u) => Some(u.path().to_string()),
        Err(_) => None,
    }
}

/// An href that is dropped before resolution: one that carries a
/// non-http(s) scheme marker, or a bare fragment.
pub open spec fn is_filtered_href(href: Seq<char>) -> bool {
    ||| is_prefix_of("javascript:"@, href)
    ||| is_prefix_of("mailto:"@, href)
    ||| is_prefix_of("#"@, href)
    ||| is_prefix_of("tel:"@, href)
    ||| is_prefix_of("data:"@, href)
    ||| is_prefix_of("ftp:"@, href)
    ||| is_prefix_of("file:"@, href)
    ||| is_prefix_of("sms:"@, href)
    ||| is_prefix_of("skype:"@, href)
    ||| is_prefix_of("whatsapp:"@, href)
    ||| is_prefix_of("viber:"@, href)
    ||| is_prefix_of("intent:"@, href)
    ||| is_prefix_of("geo:"@, href)
    ||| is_prefix_of("magnet:"@, href)
    ||| is_prefix_of("bitcoin:"@, href)
    ||| is_prefix_of("spotify:"@, href)
    ||| is_prefix_of("steam:"@, href)
}

fn has_prefix(v: &Vec<char>, p: &str) -> (r: bool)
    ensures
        r == is_prefix_of(p@, v@),
{
    let pc = chars_of(p);
    starts_with_chars(v, &pc)
}

/// Whether an href is dropped by the scheme filter.
pub fn is_filtered(href: &str) -> (r: bool)
    ensures
        r == is_filtered_href(href@),
{
    let v = chars_of(href);
    has_prefix(&v, "javascript:") || has_prefix(&v, "mailto:") || has_prefix(&v, "#") || has_prefix(
        &v,
        "tel:",
    ) || has_prefix(&v, "data:") || has_prefix(&v, "ftp:") || has_prefix(&v, "file:") || has_prefix(
        &v,
        "sms:",
    ) || has_prefix(&v, "skype:") || has_prefix(&v, "whatsapp:") || has_prefix(&v, "viber:")
        || has_prefix(&v, "intent:") || has_prefix(&v, "geo:") || has_prefix(&v, "magnet:")
        || has_prefix(&v, "bitcoin:") || has_prefix(&v, "spotify:") || has_prefix(&v, "steam:")
}

/// What one candidate href contributes: nothing when its scheme is
/// filtered, when it cannot be resolved against the base, or when the
/// resolved URL's domain is not exactly the base URL's domain; else the
/// resolved absolute URL.
pub open spec fn keep_link_spec(href: Seq<char>, base: Seq<char>) -> Option<Seq<char>> {
    if is_filtered_href(href) {
        None
    } else {
        match url_join_of(base, href) {
            Some(joined) => {
                if url_domain_of(joined) is Some && url_domain_of(joined) == url_domain_of(base) {
                    Some(joined)
                } else {
                    None
                }
            },
            None => None,
        }
    }
}

/// The raw stream of links the page's anchors contribute, in document
/// order: the hrefs, scheme-filtered, resolved, and kept only on the
/// base URL's domain.  A URL two anchors lead to appears twice here.
/// A base URL without a domain contributes nothing.
pub open spec fn discovered_links_spec(html: Seq<char>, base: Seq<char>) -> Seq<Seq<char>> {
    if url_domain_of(base) is Some {
        anchor_hrefs_of(html).filter_map(|h: Seq<char>| keep_link_spec(h, base))
    } else {
        Seq::empty()
    }
}

/// The set of links a page proposes: the raw stream with every later
/// repeat dropped, so each URL appears once, at its first discovery.
pub open spec fn extract_links_spec(html: Seq<char>, base: Seq<char>) -> Seq<Seq<char>> {
    dedup_spec(discovered_links_spec(html, base))
}

/// The same-domain links a fetched page proposes: each exactly once, in
/// first-discovery order.
pub fn extract_links(html: &str, base_url: &str) -> (links: Vec<String>)
    ensures
        links.deep_view() == extract_links_spec(html@, base_url@),
        links.deep_view().no_duplicates(),
{
    let base_domain = match url_domain(base_url) {
        Some(d) => d,
        None => {
            let empty: Vec<String> = Vec::new();
            proof {
                assert(empty.deep_view() =~= Seq::<Seq<char>>::empty());
                assert(extract_links_spec(html@, base_url@) == Seq::<Seq<char>>::empty());
            }
            return empty;
        },
    };
    let hrefs = anchor_hrefs(html);
    let ghost f = |h: Seq<char>| keep_link_spec(h, base_url@);
    let mut links: Vec<String> = Vec::new();
    let mut i: usize = 0;
    while i < hrefs.len()
        invariant
            0 <= i <= hrefs.len(),
            hrefs.deep_view() == anchor_hrefs_of(html@),
            url_domain_of(base_url@) == Some(base_domain@),
            f == (|h: Seq<char>| keep_link_spec(h, base_url@)),
            links.deep_view() == anchor_hrefs_of(html@).take(i as int).filter_map(f),
        decreases hrefs.len() - i,
    {
        let ghost prefix = anchor_hrefs_of(html@).take(i as int);
        let ghost href_v = anchor_hrefs_of(html@)[i as int];
        proof {
            assert(anchor_hrefs_of(html@).take(i + 1).drop_last() =~= prefix);
            assert(anchor_hrefs_of(html@).take(i + 1).last() == href_v);
            assert(hrefs.deep_view()[i as int] == href_v);
        }
        let href = &hrefs[i];
        if !is_filtered(href.as_str()) {
            match url_join(base_url, href.as_str()) {
                Some(joined) => {
                    match url_domain(joined.as_str()) {
                        Some(d) => {
                            if d.eq(&base_domain) {
                                let ghost old_links = links.deep_view();
                                links.push(joined);
                                proof {
                                    assert(f(href_v) == Some(links.deep_view().last()));
                                    assert(links.deep_view() =~= old_links.push(
                                        links.deep_view().last(),
                                    ));
                                }
                            } else {
                                proof {
                                    assert(f(href_v) is None);
                                }
                            }
                        },
                        None => {
                            proof {
                                assert(f(href_v) is None);
                            }
                        },
                    }
                },
                None => {
                    proof {
                        assert(f(href_v) is None);
                    }
                },
            }
        } else {
            proof {
                assert(f(href_v) is None);
            }
        }
        proof {
            assert(links.deep_view() =~= anchor_hrefs_of(html@).take(i + 1).filter_map(f));
        }
        i = i + 1;
    }
    proof {
        assert(anchor_hrefs_of(html@).take(hrefs.deep_view().len() as int) =~= anchor_hrefs_of(
            html@,
        ));
        assert(links.deep_view() == discovered_links_spec(html@, base_url@));
    }
    let result = dedup_strings(&links);
    proof {
        lemma_dedup_no_duplicates(discovered_links_spec(html@, base_url@));
    }
    result
}

/// A filter whose test every element passes keeps the sequence whole.
proof fn lemma_filter_all_true<A>(s: Seq<A>, p: spec_fn(A) -> bool)
    requires
        forall|i: int| 0 <= i < s.len() ==> p(s[i]),
    ensures
        s.filter(p) == s,
    decreases s.len(),
{
    reveal(Seq::filter);
    if s.len() == 0 {
        assert(s.filter(p) =~= s);
    } else {
        assert(forall|i: int| 0 <= i < s.len() - 1 ==> s.drop_last()[i] == s[i]);
        lemma_filter_all_true(s.drop_last(), p);
        assert(p(s.last()));
        assert(s.drop_last().filter(p).push(s.last()) =~= s);
    }
}

/// Law: link extraction is idempotent under its own domain test —
/// keeping only the extracted URLs whose domain is the seed's domain
/// keeps every one of them.
pub proof fn lemma_links_domain_filter_idempotent(html: Seq<char>, base: Seq<char>)
    ensures
        extract_links_spec(html, base).filter(
            |l: Seq<char>| url_domain_of(l) is Some && url_domain_of(l) == url_domain_of(base),
        ) == extract_links_spec(html, base),
{
    let s = extract_links_spec(html, base);
    let p = |l: Seq<char>| url_domain_of(l) is Some && url_domain_of(l) == url_domain_of(base);
    assert forall|i: int| 0 <= i < s.len() implies p(s[i]) by {
        assert(s.contains(s[i]));
        lemma_links_domain_pure(html, base, s[i]);
    }
    lemma_filter_all_true(s, p);
}

/// Law: link extraction is domain-pure and scheme-clean.  Every URL it
/// returns has the seed's own domain, and arises from an anchor href
/// that no scheme filter dropped — so no `mailto:`, `javascript:` or
/// other filtered href ever reaches the output.
pub proof fn lemma_links_domain_pure(html: Seq<char>, base: Seq<char>, link: Seq<char>)
    requires
        extract_links_spec(html, base).contains(link),
    ensures
        url_domain_of(link) is Some,
        url_domain_of(link) == url_domain_of(base),
        exists|h: Seq<char>|
            #[trigger] anchor_hrefs_of(html).contains(h) && !is_filtered_href(h) && url_join_of(
                base,
                h,
            ) == Some(link),
{
    let raw = discovered_links_spec(html, base);
    lemma_dedup_membership(raw, link);
    let f = |h: Seq<char>| keep_link_spec(h, base);
    anchor_hrefs_of(html).lemma_filter_map_contains(f, link);
    let h = choose|h: Seq<char>| #[trigger] anchor_hrefs_of(html).contains(h) && f(h) == Some(link);
    assert(!is_filtered_href(h) && url_join_of(base, h) == Some(link));
}

} // verus!
