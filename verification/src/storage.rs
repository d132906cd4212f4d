//! The storage view of the collection: the same managed prompts, with the
//! bookkeeping methods the storage layer exposes.
//!
//! File reading and writing happen outside the library; they hand the
//! storage a parsed collection and take the updated collection back.

use vstd::prelude::*;

use crate::config::Config;
use crate::error::AppError;
use crate::prompts::{
    all_categories_raw, count_eq, idx_by_id, matches_id, pv, pviews, pv_id_is, Prompt,
    PromptCollection, PromptStats, PromptV,
};
use crate::text::{eq_str, lex_le, views_of};

verus! {

/// The total number of tag entries across all prompts.
pub open spec fn sum_tag_lens(s: Seq<PromptV>) -> nat
    decreases s.len(),
{
    if s.len() == 0 {
        0
    } else {
        sum_tag_lens(s.drop_last()) + crate::prompts::ptags(s.last()).len()
    }
}

/// The storage layer over one loaded collection.
pub struct Storage {
    pub config: Config,
    pub collection: PromptCollection,
}

impl Storage {
    /// A storage layer over an empty collection.
    pub fn new(config: Config) -> (r: Storage)
        ensures
            r.collection.prompts@.len() == 0,
            r.config == config,
    {
        Storage { config, collection: PromptCollection::new() }
    }

    /// Put a loaded collection under this storage layer.
    pub fn set_collection(&mut self, collection: PromptCollection)
        ensures
            final(self).collection == collection,
            final(self).config == old(self).config,
    {
        self.collection = collection;
    }

    /// Append a new prompt.
    pub fn add_prompt(&mut self, prompt: Prompt)
        ensures
            final(self).collection.prompts@ == old(self).collection.prompts@.push(prompt),
            final(self).config == old(self).config,
    {
        self.collection.add_prompt(prompt);
    }

    /// Replace the first prompt carrying the same identifier as `prompt`.
    /// A prompt without an identifier cannot be updated, and an identifier
    /// nobody carries is reported as not found.
    pub fn update_prompt(&mut self, prompt: &Prompt) -> (r: Result<(), AppError>)
        ensures
            old(self).config == final(self).config,
            prompt.id is None ==> (r matches Err(e) && (e matches AppError::System(m) && m@
                == "Prompt ID is missing"@) && final(self).collection.prompts@ == old(
                self,
            ).collection.prompts@),
            prompt.id matches Some(pid) ==> ({
                let j = idx_by_id(old(self).collection.prompts@, pid@);
                &&& j < 0 ==> (r matches Err(e) && (e matches AppError::System(m) && m@
                    == "Prompt not found: "@ + pid@) && final(self).collection.prompts@ == old(
                    self,
                ).collection.prompts@)
                &&& j >= 0 ==> (r is Ok && pviews(final(self).collection.prompts@) == pviews(
                    old(self).collection.prompts@,
                ).update(j, pv(*prompt)))
            }),
    {
        let pid = match &prompt.id {
            Some(s) => s.clone(),
            None => {
                return Err(AppError::System(String::from_str("Prompt ID is missing")));
            },
        };
        let n: usize = self.collection.prompts.len();
        let mut j: usize = 0;
        while j < n
            invariant
                j <= n,
                n == self.collection.prompts@.len(),
                self.collection.prompts@ == old(self).collection.prompts@,
                self.config == old(self).config,
                prompt.id matches Some(s) && s@ == pid@,
                forall|t: int|
                    0 <= t < j ==> !matches_id(#[trigger] self.collection.prompts@[t], pid@),
            decreases n - j,
        {
            let hit = match &self.collection.prompts[j].id {
                Some(s) => eq_str(s.as_str(), pid.as_str()),
                None => false,
            };
            if hit {
                proof {
                    crate::prompts::lemma_idx_by_id_exact(
                        self.collection.prompts@,
                        pid@,
                        j as int,
                    );
                }
                let c = crate::prompts::copy_prompt(prompt);
                self.collection.prompts.set(j, c);
                proof {
                    assert(pviews(self.collection.prompts@) =~~= pviews(
                        old(self).collection.prompts@,
                    ).update(j as int, pv(*prompt)));
                }
                return Ok(());
            }
            j = j + 1;
        }
        proof {
            crate::prompts::lemma_idx_by_id_exact(self.collection.prompts@, pid@, n as int);
        }
        Err(AppError::System(crate::text::concat_str("Prompt not found: ", pid.as_str())))
    }

    /// Drop every prompt whose identifier is exactly `id`.
    pub fn delete_prompt(&mut self, id: &str)
        ensures
            pviews(final(self).collection.prompts@) == pviews(old(self).collection.prompts@).filter(
                |p: PromptV| !pv_id_is(p, id@),
            ),
            final(self).config == old(self).config,
    {
        let n: usize = self.collection.prompts.len();
        let mut out: Vec<Prompt> = Vec::new();
        let mut i: usize = 0;
        proof {
            reveal(Seq::filter);
            assert(pviews(self.collection.prompts@.take(0)) =~~= Seq::<PromptV>::empty());
            assert(pviews(out@) =~~= pviews(self.collection.prompts@.take(0)).filter(
                |p: PromptV| !pv_id_is(p, id@),
            ));
        }
        while i < n
            invariant
                i <= n,
                n == self.collection.prompts@.len(),
                self.collection.prompts@ == old(self).collection.prompts@,
                self.config == old(self).config,
                pviews(out@) == pviews(self.collection.prompts@.take(i as int)).filter(
                    |p: PromptV| !pv_id_is(p, id@),
                ),
            decreases n - i,
        {
            let ghost fprev = pviews(self.collection.prompts@.take(i as int));
            let ghost fnext = pviews(self.collection.prompts@.take(i as int + 1));
            proof {
                reveal(Seq::filter);
                assert(fnext.drop_last() =~~= fprev);
                assert(fnext.last() == pv(self.collection.prompts@[i as int]));
            }
            let keep = match &self.collection.prompts[i].id {
                Some(s) => !eq_str(s.as_str(), id),
                None => true,
            };
            if keep {
                let ghost prev = out@;
                let c = crate::prompts::copy_prompt(&self.collection.prompts[i]);
                out.push(c);
                proof {
                    reveal(Seq::filter);
                    assert(pviews(out@) =~~= pviews(prev).push(pv(c)));
                    assert(fnext.filter(|p: PromptV| !pv_id_is(p, id@)) =~~= fprev.filter(
                        |p: PromptV| !pv_id_is(p, id@),
                    ).push(fnext.last()));
                }
            } else {
                proof {
                    reveal(Seq::filter);
                    assert(fnext.filter(|p: PromptV| !pv_id_is(p, id@)) =~~= fprev.filter(
                        |p: PromptV| !pv_id_is(p, id@),
                    ));
                }
            }
            i = i + 1;
        }
        proof {
            assert(self.collection.prompts@.take(n as int) =~= self.collection.prompts@);
        }
        self.collection.prompts = out;
    }

    /// The first prompt whose identifier is `id`.
    pub fn find_prompt_by_id(&self, id: &str) -> (r: Option<&Prompt>)
        ensures
            idx_by_id(self.collection.prompts@, id@) < 0 ==> r is None,
            idx_by_id(self.collection.prompts@, id@) >= 0 ==> (r matches Some(p) && *p
                == self.collection.prompts@[idx_by_id(self.collection.prompts@, id@)]),
    {
        self.collection.find_by_id(id)
    }

    /// Search under this storage's configuration; see
    /// `PromptCollection::search`.
    pub fn search_prompts(&self, query: Option<&str>, tag: Option<&str>) -> (r: Vec<Prompt>)
        ensures
            ({
                let kept = crate::prompts::tag_filtered(
                    crate::prompts::query_filtered(
                        pviews(self.collection.prompts@),
                        crate::prompts::opt_view(query),
                        self.config.general.search_case_sensitive,
                    ),
                    crate::prompts::opt_view(tag),
                );
                pviews(r@).to_multiset() == kept.to_multiset() && (forall|k: int, l: int|
                    0 <= k < l < r@.len() ==> crate::prompts::pv_le(
                        #[trigger] pviews(r@)[k],
                        #[trigger] pviews(r@)[l],
                        self.config.general.sort_by,
                    ))
            }),
    {
        self.collection.search(query, tag, &self.config)
    }

    /// Every distinct tag, ascending.
    pub fn get_all_tags(&self) -> (r: Vec<String>)
        ensures
            forall|k: int, l: int|
                0 <= k < l < r@.len() ==> lex_le(
                    #[trigger] views_of(r@)[k],
                    #[trigger] views_of(r@)[l],
                ) && views_of(r@)[k] != views_of(r@)[l],
            forall|x: Seq<char>|
                views_of(r@).contains(x) <==> crate::prompts::all_tags(
                    pviews(self.collection.prompts@),
                ).contains(x),
    {
        self.collection.get_all_tags()
    }

    /// Every distinct category, ascending; this storage variant keeps empty
    /// category strings.
    pub fn get_categories(&self) -> (r: Vec<String>)
        ensures
            forall|k: int, l: int|
                0 <= k < l < r@.len() ==> lex_le(
                    #[trigger] views_of(r@)[k],
                    #[trigger] views_of(r@)[l],
                ) && views_of(r@)[k] != views_of(r@)[l],
            forall|x: Seq<char>|
                views_of(r@).contains(x) <==> all_categories_raw(
                    pviews(self.collection.prompts@),
                ).contains(x),
    {
        crate::prompts::sorted_distinct(crate::prompts::gather_categories_raw(
            &self.collection.prompts,
        ))
    }

    /// Statistics: as `PromptCollection::get_stats`, except that
    /// `total_tags` counts every tag entry across all prompts (saturating at
    /// the machine's integer limit rather than overflowing).
    pub fn get_prompt_stats(&self) -> (r: PromptStats)
        ensures
            r.total_prompts == self.collection.prompts@.len(),
            sum_tag_lens(pviews(self.collection.prompts@)) <= usize::MAX ==> r.total_tags as nat
                == sum_tag_lens(pviews(self.collection.prompts@)),
            sum_tag_lens(pviews(self.collection.prompts@)) > usize::MAX ==> r.total_tags
                == usize::MAX,
            r.total_categories as nat == crate::prompts::count_categorized(
                pviews(self.collection.prompts@),
            ),
            forall|k: int|
                0 <= k < r.tag_counts@.len() ==> (#[trigger] r.tag_counts@[k]).1 as nat == count_eq(
                    crate::prompts::all_tags(pviews(self.collection.prompts@)),
                    r.tag_counts@[k].0@,
                ),
            forall|k: int|
                0 <= k < r.category_counts@.len() ==> (#[trigger] r.category_counts@[k]).1 as nat
                    == count_eq(
                    all_categories_raw(pviews(self.collection.prompts@)),
                    r.category_counts@[k].0@,
                ),
    {
        let base = self.collection.get_stats();
        let n: usize = self.collection.prompts.len();
        let mut total: usize = 0;
        let mut i: usize = 0;
        proof {
            assert(pviews(self.collection.prompts@.take(0)) =~~= Seq::<PromptV>::empty());
        }
        while i < n
            invariant
                i <= n,
                n == self.collection.prompts@.len(),
                sum_tag_lens(pviews(self.collection.prompts@.take(i as int))) <= usize::MAX
                    ==> total as nat == sum_tag_lens(
                    pviews(self.collection.prompts@.take(i as int)),
                ),
                sum_tag_lens(pviews(self.collection.prompts@.take(i as int))) > usize::MAX
                    ==> total == usize::MAX,
            decreases n - i,
        {
            proof {
                assert(pviews(self.collection.prompts@.take(i as int + 1)).drop_last() =~~= pviews(
                    self.collection.prompts@.take(i as int),
                ));
                assert(pviews(self.collection.prompts@.take(i as int + 1)).last() == pv(
                    self.collection.prompts@[i as int],
                ));
            }
            let l: usize = match &self.collection.prompts[i].tag {
                Some(ts) => ts.len(),
                None => 0,
            };
            proof {
                assert(crate::prompts::ptags(pv(self.collection.prompts@[i as int])).len()
                    == l as nat);
            }
            if total <= usize::MAX - l {
                total = total + l;
            } else {
                total = usize::MAX;
            }
            i = i + 1;
        }
        proof {
            assert(pviews(self.collection.prompts@.take(n as int)) =~~= pviews(
                self.collection.prompts@,
            ));
        }
        PromptStats {
            total_prompts: base.total_prompts,
            total_tags: total,
            total_categories: base.total_categories,
            tag_counts: base.tag_counts,
            category_counts: base.category_counts,
        }
    }
}

} // verus!
