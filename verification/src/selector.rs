//! The selector lister: tokenizes the page's embedded stylesheets and
//! yields every CSS identifier encountered, in order of appearance
//! across the style blocks, optionally deduplicated while keeping each
//! identifier's first occurrence.

use vstd::prelude::*;

use crate::html::style_block_texts;
use crate::html::style_texts_of;
use crate::text::dedup_spec;
use crate::text::dedup_strings;
use crate::text::lemma_dedup_no_duplicates;
use crate::text::lemma_dedup_membership;

verus! {

/// The identifier tokens the CSS tokenizer yields for a style block's
/// text, in order.
pub uninterp spec fn css_idents_of(css: Seq<char>) -> Seq<Seq<char>>;

/// Relies on cssparser's `Parser::new` and `Parser::next`: the `Ident`
/// tokens of a style text, in the order the tokenizer yields them.
#[verifier::external_body]
fn css_ident_tokens(css: &str) -> (r: Vec<String>)
    ensures
        r.deep_view() == css_idents_of(css@),
{
    let mut parser = cssparser::Parser::new(css);
    let mut idents: Vec<String> = Vec::new();
    while let Ok(token) = parser.next() {
        if let cssparser::Token::Ident(ident) = token {
            idents.push(ident.as_ref().to_string());
        }
    }
    idents
}

/// The identifiers of a run of style blocks, in order of appearance.
pub open spec fn idents_of_blocks_spec(blocks: Seq<Seq<char>>) -> Seq<Seq<char>>
    decreases blocks.len(),
{
    if blocks.len() == 0 {
        Seq::empty()
    } else {
        idents_of_blocks_spec(blocks.drop_last()) + css_idents_of(blocks.last())
    }
}

/// Every identifier across the document's style blocks, in order of
/// appearance.
pub open spec fn all_style_idents_spec(html: Seq<char>) -> Seq<Seq<char>> {
    idents_of_blocks_spec(style_texts_of(html))
}

/// What selector listing yields: every identifier in appearance order,
/// deduplicated to first occurrences unless duplicates were asked for.
pub open spec fn extract_css_selectors_spec(html: Seq<char>, show_duplicates: bool) -> Seq<
    Seq<char>,
> {
    if show_duplicates {
        all_style_idents_spec(html)
    } else {
        dedup_spec(all_style_idents_spec(html))
    }
}

/// Law: selector listing without duplicates has no repeated elements
/// and lists exactly the identifiers of the duplicated listing; the
/// definition keeps them in first-occurrence order.
pub proof fn lemma_selector_listing_dedup(html: Seq<char>)
    ensures
        extract_css_selectors_spec(html, false).no_duplicates(),
        forall|x: Seq<char>|
            #[trigger] extract_css_selectors_spec(html, false).contains(x)
                <==> extract_css_selectors_spec(html, true).contains(x),
{
    lemma_dedup_no_duplicates(all_style_idents_spec(html));
    assert forall|x: Seq<char>|
        #[trigger] extract_css_selectors_spec(html, false).contains(x) <==> extract_css_selectors_spec(
        html,
        true,
    ).contains(x) by {
        lemma_dedup_membership(all_style_idents_spec(html), x);
    }
}

/// The one-shot selector lister.
pub struct SelectorExtractor;

impl SelectorExtractor {
    pub fn new() -> (r: SelectorExtractor) {
        SelectorExtractor
    }

    /// Every CSS identifier in the page's embedded stylesheets, in
    /// order of appearance; with `show_duplicates` false, deduplicated
    /// keeping first occurrences.
    pub fn extract_css_selectors(&self, html: &str, show_duplicates: bool) -> (selectors: Vec<
        String,
    >)
        ensures
            selectors.deep_view() == extract_css_selectors_spec(html@, show_duplicates),
    {
        let blocks = style_block_texts(html);
        let mut all: Vec<String> = Vec::new();
        let mut i: usize = 0;
        while i < blocks.len()
            invariant
                0 <= i <= blocks.len(),
                blocks.deep_view() == style_texts_of(html@),
                all.deep_view() == idents_of_blocks_spec(style_texts_of(html@).take(i as int)),
            decreases blocks.len() - i,
        {
            let ghost bs = style_texts_of(html@);
            proof {
                assert(bs.take(i + 1).drop_last() =~= bs.take(i as int));
                assert(bs.take(i + 1).last() == bs[i as int]);
                assert(blocks@[i as int]@ == bs[i as int]);
            }
            let idents = css_ident_tokens(blocks[i].as_str());
            let ghost base = all.deep_view();
            let ghost contribution = css_idents_of(bs[i as int]);
            let mut j: usize = 0;
            while j < idents.len()
                invariant
                    0 <= j <= idents.len(),
                    idents.deep_view() == contribution,
                    all.deep_view() == base + contribution.take(j as int),
                decreases idents.len() - j,
            {
                let ghost old_all = all.deep_view();
                all.push(idents[j].clone());
                proof {
                    assert(all.deep_view() =~= old_all.push(contribution[j as int]));
                    assert(contribution.take(j + 1) =~= contribution.take(j as int).push(
                        contribution[j as int],
                    ));
                    assert(all.deep_view() =~= base + contribution.take(j + 1));
                }
                j = j + 1;
            }
            proof {
                assert(contribution.take(contribution.len() as int) =~= contribution);
            }
            i = i + 1;
        }
        proof {
            assert(style_texts_of(html@).take(style_texts_of(html@).len() as int) =~= style_texts_of(html@));
        }
        if show_duplicates {
            all
        } else {
            dedup_strings(&all)
        }
    }
}

} // verus!
