//! The prompt manager: the configuration plus the loaded collection, and the
//! operations the command handlers run on it.
//!
//! Reading and writing the prompt file happen outside the library; they hand
//! the manager a parsed collection and take the updated collection back.

use vstd::prelude::*;

use crate::config::Config;
use crate::prompts::{
    idx_by_desc, idx_by_id, idx_by_ident, pv, pviews, pv_id_is, Prompt, PromptCollection,
    PromptStats, PromptV,
};

verus! {

/// The manager over one loaded collection.
pub struct Manager {
    pub config: Config,
    pub collection: PromptCollection,
}

impl Manager {
    /// A manager over an empty collection.
    pub fn new(config: Config) -> (r: Manager)
        ensures
            r.collection.prompts@.len() == 0,
            r.config == config,
    {
        Manager { config, collection: PromptCollection::new() }
    }

    /// Put a loaded collection under management.
    pub fn set_collection(&mut self, collection: PromptCollection)
        ensures
            final(self).collection == collection,
            final(self).config == old(self).config,
    {
        self.collection = collection;
    }

    /// Append a new prompt.
    pub fn add_prompt(&mut self, prompt: Prompt)
        ensures
            final(self).collection.prompts@ == old(self).collection.prompts@.push(prompt),
            final(self).config == old(self).config,
    {
        self.collection.add_prompt(prompt);
    }

    /// Drop every prompt whose identifier is exactly `id`.
    pub fn delete_prompt(&mut self, id: &str)
        ensures
            pviews(final(self).collection.prompts@) == pviews(old(self).collection.prompts@).filter(
                |p: PromptV| !pv_id_is(p, id@),
            ),
            final(self).config == old(self).config,
    {
        let n: usize = self.collection.prompts.len();
        let mut out: Vec<Prompt> = Vec::new();
        let mut i: usize = 0;
        proof {
            reveal(Seq::filter);
            assert(pviews(self.collection.prompts@.take(0)) =~~= Seq::<PromptV>::empty());
            assert(pviews(out@) =~~= pviews(self.collection.prompts@.take(0)).filter(
                |p: PromptV| !pv_id_is(p, id@),
            ));
        }
        while i < n
            invariant
                i <= n,
                n == self.collection.prompts@.len(),
                self.collection.prompts@ == old(self).collection.prompts@,
                self.config == old(self).config,
                pviews(out@) == pviews(self.collection.prompts@.take(i as int)).filter(
                    |p: PromptV| !pv_id_is(p, id@),
                ),
            decreases n - i,
        {
            let ghost fprev = pviews(self.collection.prompts@.take(i as int));
            let ghost fnext = pviews(self.collection.prompts@.take(i as int + 1));
            proof {
                reveal(Seq::filter);
                assert(fnext.drop_last() =~~= fprev);
                assert(fnext.last() == pv(self.collection.prompts@[i as int]));
            }
            let keep = match &self.collection.prompts[i].id {
                Some(s) => !crate::text::eq_str(s.as_str(), id),
                None => true,
            };
            if keep {
                let ghost prev = out@;
                let c = crate::prompts::copy_prompt(&self.collection.prompts[i]);
                out.push(c);
                proof {
                    reveal(Seq::filter);
                    assert(pviews(out@) =~~= pviews(prev).push(pv(c)));
                    assert(fnext.filter(|p: PromptV| !pv_id_is(p, id@)) =~~= fprev.filter(
                        |p: PromptV| !pv_id_is(p, id@),
                    ).push(fnext.last()));
                }
            } else {
                proof {
                    reveal(Seq::filter);
                    assert(fnext.filter(|p: PromptV| !pv_id_is(p, id@)) =~~= fprev.filter(
                        |p: PromptV| !pv_id_is(p, id@),
                    ));
                }
            }
            i = i + 1;
        }
        proof {
            assert(self.collection.prompts@.take(n as int) =~= self.collection.prompts@);
        }
        self.collection.prompts = out;
    }

    /// The first prompt whose identifier is `id`.
    pub fn find_prompt_by_id(&self, id: &str) -> (r: Option<&Prompt>)
        ensures
            idx_by_id(self.collection.prompts@, id@) < 0 ==> r is None,
            idx_by_id(self.collection.prompts@, id@) >= 0 ==> (r matches Some(p) && *p
                == self.collection.prompts@[idx_by_id(self.collection.prompts@, id@)]),
    {
        self.collection.find_by_id(id)
    }

    /// The first prompt whose description is `description`.
    pub fn find_prompt_by_description(&self, description: &str) -> (r: Option<&Prompt>)
        ensures
            idx_by_desc(self.collection.prompts@, description@) < 0 ==> r is None,
            idx_by_desc(self.collection.prompts@, description@) >= 0 ==> (r matches Some(p) && *p
                == self.collection.prompts@[idx_by_desc(self.collection.prompts@, description@)]),
    {
        self.collection.find_by_description(description)
    }

    /// The prompt `identifier` names: by identifier first, then description.
    pub fn find_prompt(&self, identifier: &str) -> (r: Option<&Prompt>)
        ensures
            idx_by_ident(self.collection.prompts@, identifier@) < 0 ==> r is None,
            idx_by_ident(self.collection.prompts@, identifier@) >= 0 ==> (r matches Some(p) && *p
                == self.collection.prompts@[idx_by_ident(self.collection.prompts@, identifier@)]),
    {
        self.collection.find_prompt(identifier)
    }

    /// Search under this manager's configuration; see
    /// `PromptCollection::search`.
    pub fn search_prompts(&self, query: Option<&str>, tag: Option<&str>) -> (r: Vec<Prompt>)
        ensures
            ({
                let kept = crate::prompts::tag_filtered(
                    crate::prompts::query_filtered(
                        pviews(self.collection.prompts@),
                        crate::prompts::opt_view(query),
                        self.config.general.search_case_sensitive,
                    ),
                    crate::prompts::opt_view(tag),
                );
                pviews(r@).to_multiset() == kept.to_multiset() && (forall|k: int, l: int|
                    0 <= k < l < r@.len() ==> crate::prompts::pv_le(
                        #[trigger] pviews(r@)[k],
                        #[trigger] pviews(r@)[l],
                        self.config.general.sort_by,
                    ))
            }),
    {
        self.collection.search(query, tag, &self.config)
    }

    /// Every distinct tag, ascending; see `PromptCollection::get_all_tags`.
    pub fn get_all_tags(&self) -> (r: Vec<String>)
        ensures
            forall|k: int, l: int|
                0 <= k < l < r@.len() ==> crate::text::lex_le(
                    #[trigger] crate::text::views_of(r@)[k],
                    #[trigger] crate::text::views_of(r@)[l],
                ) && crate::text::views_of(r@)[k] != crate::text::views_of(r@)[l],
            forall|x: Seq<char>|
                crate::text::views_of(r@).contains(x) <==> crate::prompts::all_tags(
                    pviews(self.collection.prompts@),
                ).contains(x),
    {
        self.collection.get_all_tags()
    }

    /// Every distinct non-empty category, ascending.
    pub fn get_categories(&self) -> (r: Vec<String>)
        ensures
            forall|k: int, l: int|
                0 <= k < l < r@.len() ==> crate::text::lex_le(
                    #[trigger] crate::text::views_of(r@)[k],
                    #[trigger] crate::text::views_of(r@)[l],
                ) && crate::text::views_of(r@)[k] != crate::text::views_of(r@)[l],
            forall|x: Seq<char>|
                crate::text::views_of(r@).contains(x) <==> crate::prompts::all_categories(
                    pviews(self.collection.prompts@),
                ).contains(x),
    {
        self.collection.get_categories()
    }

    /// Statistics over the managed collection; see
    /// `PromptCollection::get_stats`.
    pub fn get_prompt_stats(&self) -> (r: PromptStats)
        ensures
            r.total_prompts == self.collection.prompts@.len(),
            r.total_tags as nat == crate::prompts::count_tagged(pviews(self.collection.prompts@)),
            r.total_categories as nat == crate::prompts::count_categorized(
                pviews(self.collection.prompts@),
            ),
            forall|k: int|
                0 <= k < r.tag_counts@.len() ==> (#[trigger] r.tag_counts@[k]).1 as nat
                    == crate::prompts::count_eq(
                    crate::prompts::all_tags(pviews(self.collection.prompts@)),
                    r.tag_counts@[k].0@,
                ),
            forall|k: int|
                0 <= k < r.category_counts@.len() ==> (#[trigger] r.category_counts@[k]).1 as nat
                    == crate::prompts::count_eq(
                    crate::prompts::all_categories_raw(pviews(self.collection.prompts@)),
                    r.category_counts@[k].0@,
                ),
    {
        self.collection.get_stats()
    }

    /// Search, filter by category, and pair every surviving prompt with its
    /// display string; see `SearchEngine::format_for_selection`.
    pub fn search_and_format_for_selection(
        &self,
        query: Option<&str>,
        tag: Option<&str>,
        category: Option<&str>,
    ) -> (r: Vec<(Prompt, String)>)
        ensures
            ({
                let kept = crate::prompts::tag_filtered(
                    crate::prompts::query_filtered(
                        pviews(self.collection.prompts@),
                        crate::prompts::opt_view(query),
                        self.config.general.search_case_sensitive,
                    ),
                    crate::prompts::opt_view(tag),
                );
                let cv = crate::prompts::opt_view(category);
                &&& forall|k: int|
                    0 <= k < r@.len() ==> (#[trigger] r@[k]).1@ == crate::display::selection_line_of(
                        pv(r@[k].0),
                        self.config.general.content_preview,
                    )
                &&& forall|k: int|
                    0 <= k < r@.len() ==> crate::display::cat_ok(pv((#[trigger] r@[k]).0), cv)
                        && kept.contains(pv(r@[k].0))
                &&& forall|k: int, l: int|
                    0 <= k < l < r@.len() ==> crate::prompts::pv_le(
                        pv((#[trigger] r@[k]).0),
                        pv((#[trigger] r@[l]).0),
                        self.config.general.sort_by,
                    )
                &&& forall|i: int|
                    0 <= i < kept.len() && crate::display::cat_ok(#[trigger] kept[i], cv)
                        ==> exists|k: int| 0 <= k < r@.len() && pv((#[trigger] r@[k]).0) == kept[i]
            }),
    {
        crate::display::SearchEngine::format_for_selection(
            &self.collection,
            query,
            tag,
            category,
            &self.config,
        )
    }

    /// Recover the selected item's index out of the display strings handed to
    /// a selector: the first display string equal to the selected line.
    /// Nothing was selected when no line came back.
    pub fn select_interactive(&self, display_strings: &Vec<String>, selected_line: Option<&str>) -> (r:
        Option<usize>)
        ensures
            selected_line is None ==> r is None,
            selected_line matches Some(l) ==> match r {
                Some(i) => i < display_strings@.len() && display_strings@[i as int]@ == l@ && (
                forall|j: int| 0 <= j < i ==> display_strings@[j]@ != l@),
                None => forall|j: int|
                    0 <= j < display_strings@.len() ==> display_strings@[j]@ != l@,
            },
    {
        match selected_line {
            Some(l) => crate::finder::recover_index(display_strings, l),
            None => None,
        }
    }

    /// The index of the prompt a selected display line names; see
    /// `SearchEngine::find_by_display_line`, except that the whole selected
    /// text is parsed rather than only its first line.
    pub fn find_prompt_by_display_line(&self, prompts: &Vec<Prompt>, selected_line: &str) -> (r:
        Option<usize>)
        ensures
            ({
                match crate::display::display_desc_of(selected_line@) {
                    Option::Some(d) => {
                        let j = idx_by_desc(prompts@, d);
                        if j >= 0 {
                            r == Some(j as usize)
                        } else {
                            r is None
                        }
                    },
                    Option::None => r is None,
                }
            }),
    {
        let desc = match crate::display::parse_display_desc(selected_line) {
            Some(d) => d,
            None => {
                return None;
            },
        };
        let n: usize = prompts.len();
        let mut i: usize = 0;
        while i < n
            invariant
                i <= n,
                n == prompts@.len(),
                crate::display::display_desc_of(selected_line@) == Option::Some(desc@),
                forall|j: int|
                    0 <= j < i ==> !crate::prompts::matches_desc(#[trigger] prompts@[j], desc@),
            decreases n - i,
        {
            if crate::text::eq_str(prompts[i].description.as_str(), desc.as_str()) {
                proof {
                    crate::prompts::lemma_idx_by_desc_exact(prompts@, desc@, i as int);
                }
                return Some(i);
            }
            i = i + 1;
        }
        proof {
            crate::prompts::lemma_idx_by_desc_exact(prompts@, desc@, n as int);
        }
        None
    }
}

} // verus!
