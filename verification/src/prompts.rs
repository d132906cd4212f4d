//! The prompt data model: a prompt with its metadata, the collection of
//! prompts, and the searching, sorting and bookkeeping over it.
//!
//! Creation stamps a fresh random identifier and the current time; both come
//! from outside the library and nothing is assumed about their values beyond
//! the identifier's shape. Timestamps are plain Unix seconds.

use vstd::prelude::*;

use vstd::multiset::Multiset;

use crate::text::{chars_of, eq_str, fold_case, has_substring, lex_le, lower_of};

verus! {

broadcast use vstd::seq_lib::group_to_multiset_ensures;

/// A single prompt with metadata. Timestamps are Unix seconds.
#[derive(Debug)]
pub struct Prompt {
    pub id: Option<String>,
    pub description: String,
    pub content: String,
    pub category: Option<String>,
    pub tag: Option<Vec<String>>,
    pub output: Option<String>,
    pub created_at: i64,
    pub updated_at: i64,
}

/// A prompt as the specification sees it: every text as its characters.
#[verifier::ext_equal]
pub struct PromptV {
    pub id: Option<Seq<char>>,
    pub description: Seq<char>,
    pub content: Seq<char>,
    pub category: Option<Seq<char>>,
    pub tag: Option<Seq<Seq<char>>>,
    pub output: Option<Seq<char>>,
    pub created_at: i64,
    pub updated_at: i64,
}

/// The specification view of one prompt.
pub open spec fn pv(p: Prompt) -> PromptV {
    PromptV {
        id: match p.id {
            Option::Some(s) => Option::Some(s@),
            Option::None => Option::None,
        },
        description: p.description@,
        content: p.content@,
        category: match p.category {
            Option::Some(s) => Option::Some(s@),
            Option::None => Option::None,
        },
        tag: match p.tag {
            Option::Some(ts) => Option::Some(crate::text::views_of(ts@)),
            Option::None => Option::None,
        },
        output: match p.output {
            Option::Some(s) => Option::Some(s@),
            Option::None => Option::None,
        },
        created_at: p.created_at,
        updated_at: p.updated_at,
    }
}

/// The specification views of a prompt sequence.
pub open spec fn pviews(s: Seq<Prompt>) -> Seq<PromptV> {
    s.map_values(|p: Prompt| pv(p))
}

/// Relies on `uuid::Uuid::new_v4` and its `Display` form: a freshly drawn
/// random identifier in the hyphenated format, which is 36 characters long.
/// The value is random; nothing beyond its length is promised.
#[verifier::external_body]
fn fresh_id() -> (r: String)
    ensures
        r@.len() == 36,
{
    uuid::Uuid::new_v4().to_string()
}

/// Relies on `chrono::Utc::now` and `DateTime::timestamp`: the current time
/// as Unix seconds. The value depends on the clock; nothing is promised.
#[verifier::external_body]
fn now_ts() -> i64 {
    chrono::Utc::now().timestamp()
}

/// A verified copy of a string vector.
fn copy_strings(v: &Vec<String>) -> (r: Vec<String>)
    ensures
        crate::text::views_of(r@) == crate::text::views_of(v@),
{
    let n: usize = v.len();
    let mut r: Vec<String> = Vec::new();
    let mut i: usize = 0;
    while i < n
        invariant
            i <= n,
            n == v@.len(),
            r@.len() == i,
            forall|j: int| 0 <= j < i ==> (#[trigger] r@[j])@ == v@[j]@,
        decreases n - i,
    {
        r.push(v[i].clone());
        i = i + 1;
    }
    proof {
        assert(crate::text::views_of(r@) =~~= crate::text::views_of(v@));
    }
    r
}

impl Prompt {
    /// A new prompt: fresh identifier, the given description and content, no
    /// category, tags or output, and both timestamps set to now.
    pub fn new(description: String, content: String) -> (r: Prompt)
        ensures
            r.id is Some,
            pv(r).id matches Some(s) && s.len() == 36,
            r.description@ == description@,
            r.content@ == content@,
            r.category is None,
            r.tag is None,
            r.output is None,
            r.created_at == r.updated_at,
    {
        let now = now_ts();
        Prompt {
            id: Some(fresh_id()),
            description,
            content,
            category: None,
            tag: None,
            output: None,
            created_at: now,
            updated_at: now,
        }
    }

    /// Add a tag unless the prompt already carries it. A first tag starts
    /// the tag list without touching the update time; adding to an existing
    /// list stamps the update time afresh.
    pub fn add_tag(&mut self, tag: String)
        ensures
            old(self).tag is None ==> (pv(*final(self)).tag matches Some(ts) && ts =~~= seq![tag@]),
            (old(self).tag matches Some(ots) && crate::text::views_of(ots@).contains(tag@))
                ==> pv(*final(self)).tag == pv(*old(self)).tag && final(self).updated_at == old(
                self,
            ).updated_at,
            (old(self).tag matches Some(ots) && !crate::text::views_of(ots@).contains(tag@)) ==> (
            pv(*final(self)).tag matches Some(ts) && ts == crate::text::views_of(
                old(self).tag.unwrap()@,
            ).push(tag@)),
            final(self).id == old(self).id,
            final(self).description == old(self).description,
            final(self).content == old(self).content,
            final(self).category == old(self).category,
            final(self).output == old(self).output,
            final(self).created_at == old(self).created_at,
            old(self).tag is None ==> final(self).updated_at == old(self).updated_at,
    {
        let has = match &self.tag {
            Some(ts) => {
                let n: usize = ts.len();
                let mut i: usize = 0;
                let mut found = false;
                while i < n
                    invariant
                        i <= n,
                        n == ts@.len(),
                        found == exists|j: int| 0 <= j < i && (#[trigger] ts@[j])@ == tag@,
                    decreases n - i,
                {
                    if eq_str(ts[i].as_str(), tag.as_str()) {
                        found = true;
                        proof {
                            assert(ts@[i as int]@ == tag@);
                        }
                    }
                    i = i + 1;
                }
                proof {
                    if found {
                        assert(crate::text::views_of(ts@).contains(tag@)) by {
                            let j = choose|j: int| 0 <= j < n && (#[trigger] ts@[j])@ == tag@;
                            assert(crate::text::views_of(ts@)[j] == tag@);
                        }
                    } else {
                        assert(!crate::text::views_of(ts@).contains(tag@)) by {
                            if crate::text::views_of(ts@).contains(tag@) {
                                let j = choose|j: int|
                                    0 <= j < crate::text::views_of(ts@).len() && crate::text::views_of(
                                        ts@,
                                    )[j] == tag@;
                                assert(ts@[j]@ == tag@);
                            }
                        }
                    }
                }
                Some(found)
            },
            None => None,
        };
        match has {
            None => {
                let mut ts: Vec<String> = Vec::new();
                ts.push(tag);
                self.tag = Some(ts);
            },
            Some(true) => {},
            Some(false) => {
                let tag_view = Ghost(tag@);
                match &mut self.tag {
                    Some(ts) => {
                        let ghost prev = ts@;
                        ts.push(tag);
                        proof {
                            assert(crate::text::views_of(ts@) =~~= crate::text::views_of(
                                prev,
                            ).push(tag_view@));
                        }
                    },
                    None => {},
                }
                self.updated_at = now_ts();
            },
        }
    }
}

/// Whether a prompt's identifier is exactly `id`.
pub open spec fn matches_id(p: Prompt, id: Seq<char>) -> bool {
    match p.id {
        Option::Some(s) => s@ == id,
        Option::None => false,
    }
}

/// Whether a prompt's description is exactly `d`.
pub open spec fn matches_desc(p: Prompt, d: Seq<char>) -> bool {
    p.description@ == d
}

/// Whether a prompt matches `ident` as the finders do: by identifier first,
/// by description second.
pub open spec fn matches_ident(p: Prompt, ident: Seq<char>) -> bool {
    matches_id(p, ident) || matches_desc(p, ident)
}

/// The index of the first prompt whose identifier is `id`, or -1.
pub open spec fn idx_by_id(s: Seq<Prompt>, id: Seq<char>) -> int
    decreases s.len(),
{
    if s.len() == 0 {
        -1
    } else if matches_id(s[0], id) {
        0
    } else {
        let r = idx_by_id(s.skip(1), id);
        if r < 0 {
            -1
        } else {
            1 + r
        }
    }
}

/// The index of the first prompt whose description is `d`, or -1.
pub open spec fn idx_by_desc(s: Seq<Prompt>, d: Seq<char>) -> int
    decreases s.len(),
{
    if s.len() == 0 {
        -1
    } else if matches_desc(s[0], d) {
        0
    } else {
        let r = idx_by_desc(s.skip(1), d);
        if r < 0 {
            -1
        } else {
            1 + r
        }
    }
}

/// The index the combined lookup finds: the first match by identifier if
/// any, else the first match by description.
pub open spec fn idx_by_ident(s: Seq<Prompt>, ident: Seq<char>) -> int {
    if idx_by_id(s, ident) >= 0 {
        idx_by_id(s, ident)
    } else {
        idx_by_desc(s, ident)
    }
}

proof fn lemma_idx_by_id(s: Seq<Prompt>, id: Seq<char>)
    ensures
        idx_by_id(s, id) == -1 || (0 <= idx_by_id(s, id) < s.len()),
        idx_by_id(s, id) == -1 ==> forall|j: int| 0 <= j < s.len() ==> !matches_id(
            #[trigger] s[j],
            id,
        ),
        idx_by_id(s, id) >= 0 ==> matches_id(s[idx_by_id(s, id)], id) && forall|j: int|
            0 <= j < idx_by_id(s, id) ==> !matches_id(#[trigger] s[j], id),
    decreases s.len(),
{
    if s.len() > 0 && !matches_id(s[0], id) {
        lemma_idx_by_id(s.skip(1), id);
        assert forall|j: int| 1 <= j < s.len() implies s.skip(1)[j - 1] == s[j] by {}
    }
}

proof fn lemma_idx_by_desc(s: Seq<Prompt>, d: Seq<char>)
    ensures
        idx_by_desc(s, d) == -1 || (0 <= idx_by_desc(s, d) < s.len()),
        idx_by_desc(s, d) == -1 ==> forall|j: int| 0 <= j < s.len() ==> !matches_desc(
            #[trigger] s[j],
            d,
        ),
        idx_by_desc(s, d) >= 0 ==> matches_desc(s[idx_by_desc(s, d)], d) && forall|j: int|
            0 <= j < idx_by_desc(s, d) ==> !matches_desc(#[trigger] s[j], d),
    decreases s.len(),
{
    if s.len() > 0 && !matches_desc(s[0], d) {
        lemma_idx_by_desc(s.skip(1), d);
        assert forall|j: int| 1 <= j < s.len() implies s.skip(1)[j - 1] == s[j] by {}
    }
}

pub proof fn lemma_idx_by_id_exact(s: Seq<Prompt>, id: Seq<char>, k: int)
    requires
        0 <= k <= s.len(),
        forall|j: int| 0 <= j < k ==> !matches_id(#[trigger] s[j], id),
        k < s.len() ==> matches_id(s[k], id),
    ensures
        k < s.len() ==> idx_by_id(s, id) == k,
        k == s.len() ==> idx_by_id(s, id) == -1,
    decreases k,
{
    lemma_idx_by_id(s, id);
    if k == s.len() {
        if idx_by_id(s, id) >= 0 {
            assert(matches_id(s[idx_by_id(s, id)], id));
        }
    } else {
        if idx_by_id(s, id) < 0 {
            assert(!matches_id(s[k], id));
        } else {
            let r = idx_by_id(s, id);
            if r < k {
                assert(!matches_id(s[r], id));
            }
            if r > k {
                assert(!matches_id(s[k], id));
            }
        }
    }
}

pub proof fn lemma_idx_by_desc_exact(s: Seq<Prompt>, d: Seq<char>, k: int)
    requires
        0 <= k <= s.len(),
        forall|j: int| 0 <= j < k ==> !matches_desc(#[trigger] s[j], d),
        k < s.len() ==> matches_desc(s[k], d),
    ensures
        k < s.len() ==> idx_by_desc(s, d) == k,
        k == s.len() ==> idx_by_desc(s, d) == -1,
{
    lemma_idx_by_desc(s, d);
    if k == s.len() {
        if idx_by_desc(s, d) >= 0 {
            assert(matches_desc(s[idx_by_desc(s, d)], d));
        }
    } else {
        if idx_by_desc(s, d) < 0 {
            assert(!matches_desc(s[k], d));
        } else {
            let r = idx_by_desc(s, d);
            if r < k {
                assert(!matches_desc(s[r], d));
            }
            if r > k {
                assert(!matches_desc(s[k], d));
            }
        }
    }
}

/// Whether a prompt's identifier is exactly `id`, executably.
fn has_id(p: &Prompt, id: &str) -> (r: bool)
    ensures
        r == matches_id(*p, id@),
{
    match &p.id {
        Some(s) => eq_str(s.as_str(), id),
        None => false,
    }
}

/// Whether a prompt's description is exactly `d`, executably.
fn has_desc(p: &Prompt, d: &str) -> (r: bool)
    ensures
        r == matches_desc(*p, d@),
{
    eq_str(p.description.as_str(), d)
}

/// The collection of all stored prompts.
#[derive(Debug)]
pub struct PromptCollection {
    pub prompts: Vec<Prompt>,
}

impl PromptCollection {
    /// An empty collection.
    pub fn new() -> (r: PromptCollection)
        ensures
            r.prompts@.len() == 0,
    {
        PromptCollection { prompts: Vec::new() }
    }

    /// Append a prompt.
    pub fn add_prompt(&mut self, prompt: Prompt)
        ensures
            final(self).prompts@ == old(self).prompts@.push(prompt),
    {
        self.prompts.push(prompt);
    }

    /// The first prompt whose identifier is `id`.
    pub fn find_by_id(&self, id: &str) -> (r: Option<&Prompt>)
        ensures
            idx_by_id(self.prompts@, id@) < 0 ==> r is None,
            idx_by_id(self.prompts@, id@) >= 0 ==> (r matches Some(p) && *p == self.prompts@[
                idx_by_id(self.prompts@, id@)
            ]),
    {
        let n: usize = self.prompts.len();
        let mut i: usize = 0;
        while i < n
            invariant
                i <= n,
                n == self.prompts@.len(),
                forall|j: int| 0 <= j < i ==> !matches_id(#[trigger] self.prompts@[j], id@),
            decreases n - i,
        {
            if has_id(&self.prompts[i], id) {
                proof {
                    lemma_idx_by_id_exact(self.prompts@, id@, i as int);
                }
                return Some(&self.prompts[i]);
            }
            i = i + 1;
        }
        proof {
            lemma_idx_by_id_exact(self.prompts@, id@, n as int);
        }
        None
    }

    /// The first prompt whose description is `description`.
    pub fn find_by_description(&self, description: &str) -> (r: Option<&Prompt>)
        ensures
            idx_by_desc(self.prompts@, description@) < 0 ==> r is None,
            idx_by_desc(self.prompts@, description@) >= 0 ==> (r matches Some(p) && *p
                == self.prompts@[idx_by_desc(self.prompts@, description@)]),
    {
        let n: usize = self.prompts.len();
        let mut i: usize = 0;
        while i < n
            invariant
                i <= n,
                n == self.prompts@.len(),
                forall|j: int|
                    0 <= j < i ==> !matches_desc(#[trigger] self.prompts@[j], description@),
            decreases n - i,
        {
            if has_desc(&self.prompts[i], description) {
                proof {
                    lemma_idx_by_desc_exact(self.prompts@, description@, i as int);
                }
                return Some(&self.prompts[i]);
            }
            i = i + 1;
        }
        proof {
            lemma_idx_by_desc_exact(self.prompts@, description@, n as int);
        }
        None
    }

    /// The prompt `identifier` names: matched by identifier first, and by
    /// description if no identifier matches.
    pub fn find_prompt(&self, identifier: &str) -> (r: Option<&Prompt>)
        ensures
            idx_by_ident(self.prompts@, identifier@) < 0 ==> r is None,
            idx_by_ident(self.prompts@, identifier@) >= 0 ==> (r matches Some(p) && *p
                == self.prompts@[idx_by_ident(self.prompts@, identifier@)]),
    {
        let by_id = self.find_by_id(identifier);
        proof {
            lemma_idx_by_id(self.prompts@, identifier@);
        }
        match by_id {
            Some(p) => Some(p),
            None => self.find_by_description(identifier),
        }
    }
}

// ------------------------------------------------------------------
// Searching and sorting
// ------------------------------------------------------------------
/// The key a query is matched under: the query itself for case-sensitive
/// search, its case-folded form otherwise.
pub open spec fn search_key(q: Seq<char>, case_sensitive: bool) -> Seq<char> {
    if case_sensitive {
        q
    } else {
        lower_of(q)
    }
}

/// Whether a prompt matches the search key: the key occurs in the
/// description, the content, or any tag, each case-folded unless the search
/// is case-sensitive.
pub open spec fn pv_matches_query(p: PromptV, key: Seq<char>, case_sensitive: bool) -> bool {
    has_substring(search_key(p.description, case_sensitive), key) || has_substring(
        search_key(p.content, case_sensitive),
        key,
    ) || (match p.tag {
        Option::Some(ts) => exists|i: int|
            0 <= i < ts.len() && has_substring(#[trigger] search_key(ts[i], case_sensitive), key),
        Option::None => false,
    })
}

/// Whether a prompt carries exactly the tag `t`.
pub open spec fn pv_has_tag(p: PromptV, t: Seq<char>) -> bool {
    match p.tag {
        Option::Some(ts) => exists|i: int| 0 <= i < ts.len() && #[trigger] ts[i] == t,
        Option::None => false,
    }
}

/// Whether a prompt's identifier is exactly `id`, on views.
pub open spec fn pv_id_is(p: PromptV, id: Seq<char>) -> bool {
    p.id == Option::Some(id)
}

/// The order the given sort key puts prompts in: newest first for the two
/// time orders, description order for the title orders.
pub open spec fn pv_le(a: PromptV, b: PromptV, by: crate::config::SortBy) -> bool {
    match by {
        crate::config::SortBy::Recency => a.created_at >= b.created_at,
        crate::config::SortBy::Title => lex_le(a.description, b.description),
        crate::config::SortBy::Description => lex_le(a.description, b.description),
        crate::config::SortBy::Updated => a.updated_at >= b.updated_at,
    }
}

proof fn lemma_pv_le_total(a: PromptV, b: PromptV, by: crate::config::SortBy)
    ensures
        pv_le(a, b, by) || pv_le(b, a, by),
{
    match by {
        crate::config::SortBy::Title => {
            crate::text::lemma_lex_total(a.description, b.description);
        },
        crate::config::SortBy::Description => {
            crate::text::lemma_lex_total(a.description, b.description);
        },
        _ => {},
    }
}

proof fn lemma_pv_le_trans(a: PromptV, b: PromptV, c: PromptV, by: crate::config::SortBy)
    requires
        pv_le(a, b, by),
        pv_le(b, c, by),
    ensures
        pv_le(a, c, by),
{
    match by {
        crate::config::SortBy::Title => {
            crate::text::lemma_lex_trans(a.description, b.description, c.description);
        },
        crate::config::SortBy::Description => {
            crate::text::lemma_lex_trans(a.description, b.description, c.description);
        },
        _ => {},
    }
}

/// A copy of a prompt with the same view.
pub fn copy_prompt(p: &Prompt) -> (r: Prompt)
    ensures
        pv(r) == pv(*p),
{
    let r = Prompt {
        id: match &p.id {
            Some(s) => Some(s.clone()),
            None => None,
        },
        description: p.description.clone(),
        content: p.content.clone(),
        category: match &p.category {
            Some(s) => Some(s.clone()),
            None => None,
        },
        tag: match &p.tag {
            Some(ts) => Some(copy_strings(ts)),
            None => None,
        },
        output: match &p.output {
            Some(s) => Some(s.clone()),
            None => None,
        },
        created_at: p.created_at,
        updated_at: p.updated_at,
    };
    proof {
        assert(pv(r).id == pv(*p).id);
        assert(pv(r).category == pv(*p).category);
        assert(pv(r).tag == pv(*p).tag);
        assert(pv(r).output == pv(*p).output);
    }
    r
}

/// Executable check for `pv_matches_query`. The key must already be folded
/// for a case-insensitive search.
fn matches_query_exec(p: &Prompt, key: &Vec<char>, case_sensitive: bool) -> (r: bool)
    ensures
        r == pv_matches_query(pv(*p), key@, case_sensitive),
{
    let d = if case_sensitive {
        chars_of(p.description.as_str())
    } else {
        chars_of(fold_case(p.description.as_str()).as_str())
    };
    if crate::text::contains_chars(&d, key) {
        return true;
    }
    let c = if case_sensitive {
        chars_of(p.content.as_str())
    } else {
        chars_of(fold_case(p.content.as_str()).as_str())
    };
    if crate::text::contains_chars(&c, key) {
        return true;
    }
    match &p.tag {
        Some(ts) => {
            proof {
                assert(pv(*p).tag == Option::Some(crate::text::views_of(ts@)));
            }
            let n: usize = ts.len();
            let mut i: usize = 0;
            while i < n
                invariant
                    i <= n,
                    n == ts@.len(),
                    pv(*p).tag == Option::Some(crate::text::views_of(ts@)),
                    forall|j: int|
                        0 <= j < i ==> !has_substring(
                            #[trigger] search_key(crate::text::views_of(ts@)[j], case_sensitive),
                            key@,
                        ),
                decreases n - i,
            {
                let t = if case_sensitive {
                    chars_of(ts[i].as_str())
                } else {
                    chars_of(fold_case(ts[i].as_str()).as_str())
                };
                proof {
                    assert(t@ == search_key(crate::text::views_of(ts@)[i as int], case_sensitive));
                }
                if crate::text::contains_chars(&t, key) {
                    proof {
                        assert(has_substring(
                            search_key(pv(*p).tag.unwrap()[i as int], case_sensitive),
                            key@,
                        ));
                    }
                    return true;
                }
                i = i + 1;
            }
            false
        },
        None => false,
    }
}

/// Executable check for `pv_has_tag`.
fn has_tag_exec(p: &Prompt, t: &str) -> (r: bool)
    ensures
        r == pv_has_tag(pv(*p), t@),
{
    match &p.tag {
        Some(ts) => {
            proof {
                assert(pv(*p).tag == Option::Some(crate::text::views_of(ts@)));
            }
            let n: usize = ts.len();
            let mut i: usize = 0;
            while i < n
                invariant
                    i <= n,
                    n == ts@.len(),
                    pv(*p).tag == Option::Some(crate::text::views_of(ts@)),
                    forall|j: int| 0 <= j < i ==> #[trigger] crate::text::views_of(ts@)[j] != t@,
                decreases n - i,
            {
                if eq_str(ts[i].as_str(), t) {
                    proof {
                        assert(pv(*p).tag.unwrap()[i as int] == t@);
                    }
                    return true;
                }
                i = i + 1;
            }
            false
        },
        None => false,
    }
}

/// Selection sort (by repeated removal of a least element): the same prompts
/// as views, ordered by the sort key.
fn sort_prompts(v: Vec<Prompt>, by: &crate::config::SortBy) -> (r: Vec<Prompt>)
    ensures
        pviews(r@).to_multiset() == pviews(v@).to_multiset(),
        forall|k: int, l: int|
            0 <= k < l < r@.len() ==> pv_le(#[trigger] pviews(r@)[k], #[trigger] pviews(r@)[l], *by),
{
    let mut work = v;
    let mut out: Vec<Prompt> = Vec::new();
    proof {
        assert(pviews(out@).to_multiset().add(pviews(work@).to_multiset()) =~= pviews(
            v@,
        ).to_multiset());
    }
    while work.len() > 0
        invariant
            pviews(out@).to_multiset().add(pviews(work@).to_multiset()) == pviews(
                v@,
            ).to_multiset(),
            forall|k: int, l: int|
                0 <= k < l < out@.len() ==> pv_le(
                    #[trigger] pviews(out@)[k],
                    #[trigger] pviews(out@)[l],
                    *by,
                ),
            forall|k: int, l: int|
                0 <= k < out@.len() && 0 <= l < work@.len() ==> pv_le(
                    #[trigger] pviews(out@)[k],
                    #[trigger] pviews(work@)[l],
                    *by,
                ),
        decreases work@.len(),
    {
        let n: usize = work.len();
        let mut best: usize = 0;
        let mut k: usize = 1;
        proof {
            lemma_pv_le_total(pviews(work@)[0], pviews(work@)[0], *by);
        }
        while k < n
            invariant
                1 <= k <= n,
                best < k,
                n == work@.len(),
                forall|t: int| 0 <= t < k ==> pv_le(pviews(work@)[best as int], #[trigger] pviews(work@)[t], *by),
            decreases n - k,
        {
            if !le_exec(&work[best], &work[k], by) {
                proof {
                    lemma_pv_le_total(pviews(work@)[best as int], pviews(work@)[k as int], *by);
                    lemma_pv_le_total(pviews(work@)[k as int], pviews(work@)[k as int], *by);
                    assert forall|t: int| 0 <= t < k + 1 implies pv_le(
                        pviews(work@)[k as int],
                        #[trigger] pviews(work@)[t],
                        *by,
                    ) by {
                        if t < k {
                            lemma_pv_le_trans(
                                pviews(work@)[k as int],
                                pviews(work@)[best as int],
                                pviews(work@)[t],
                                *by,
                            );
                        }
                    }
                }
                best = k;
            }
            k = k + 1;
        }
        let ghost oldwork = work@;
        let ghost oldout = out@;
        let x = work.remove(best);
        proof {
            assert(pviews(work@) =~~= pviews(oldwork).remove(best as int));
            assert(pviews(oldwork).remove(best as int).to_multiset() == pviews(
                oldwork,
            ).to_multiset().remove(pviews(oldwork)[best as int]));
        }
        out.push(x);
        proof {
            assert(pviews(out@) =~~= pviews(oldout).push(pv(x)));
            assert(pv(x) == pviews(oldwork)[best as int]);
            assert(pviews(out@).to_multiset() == pviews(oldout).to_multiset().insert(pv(x)));
            assert(pviews(out@).to_multiset().add(pviews(work@).to_multiset()) =~= pviews(
                v@,
            ).to_multiset());
            assert forall|kk: int, ll: int|
                0 <= kk < ll < out@.len() implies pv_le(
                #[trigger] pviews(out@)[kk],
                #[trigger] pviews(out@)[ll],
                *by,
            ) by {
                if ll < out@.len() - 1 {
                    assert(pviews(out@)[kk] == pviews(oldout)[kk]);
                    assert(pviews(out@)[ll] == pviews(oldout)[ll]);
                } else {
                    assert(pviews(out@)[kk] == pviews(oldout)[kk]);
                    assert(pviews(out@)[ll] == pviews(oldwork)[best as int]);
                }
            }
            assert forall|kk: int, ll: int|
                0 <= kk < out@.len() && 0 <= ll < work@.len() implies pv_le(
                #[trigger] pviews(out@)[kk],
                #[trigger] pviews(work@)[ll],
                *by,
            ) by {
                let prev_l: int = if ll < best as int {
                    ll
                } else {
                    ll + 1
                };
                assert(pviews(work@)[ll] == pviews(oldwork)[prev_l]);
                if kk < out@.len() - 1 {
                    assert(pviews(out@)[kk] == pviews(oldout)[kk]);
                } else {
                    assert(pviews(out@)[kk] == pviews(oldwork)[best as int]);
                }
            }
        }
    }
    proof {
        assert(pviews(work@).to_multiset() =~= Multiset::<PromptV>::empty());
        assert(pviews(out@).to_multiset() =~= pviews(v@).to_multiset());
    }
    out
}

/// Executable check for `pv_le`.
fn le_exec(a: &Prompt, b: &Prompt, by: &crate::config::SortBy) -> (r: bool)
    ensures
        r == pv_le(pv(*a), pv(*b), *by),
{
    match by {
        crate::config::SortBy::Recency => a.created_at >= b.created_at,
        crate::config::SortBy::Title => crate::text::string_le(
            a.description.as_str(),
            b.description.as_str(),
        ),
        crate::config::SortBy::Description => crate::text::string_le(
            a.description.as_str(),
            b.description.as_str(),
        ),
        crate::config::SortBy::Updated => a.updated_at >= b.updated_at,
    }
}

/// The prompts left after the optional query filter.
pub open spec fn query_filtered(s: Seq<PromptV>, q: Option<Seq<char>>, case_sensitive: bool) -> Seq<
    PromptV,
> {
    match q {
        Option::Some(qq) => s.filter(
            |p: PromptV| pv_matches_query(p, search_key(qq, case_sensitive), case_sensitive),
        ),
        Option::None => s,
    }
}

/// The prompts left after the optional exact-tag filter.
pub open spec fn tag_filtered(s: Seq<PromptV>, t: Option<Seq<char>>) -> Seq<PromptV> {
    match t {
        Option::Some(tt) => s.filter(|p: PromptV| pv_has_tag(p, tt)),
        Option::None => s,
    }
}

/// The view of an optional string slice.
pub open spec fn opt_view(s: Option<&str>) -> Option<Seq<char>> {
    match s {
        Option::Some(x) => Option::Some(x@),
        Option::None => Option::None,
    }
}

impl PromptCollection {
    /// Search with an optional query and an optional exact tag: exactly the
    /// prompts matching both filters, sorted by the configured order. The
    /// query matches case-insensitively unless the configuration says
    /// otherwise.
    pub fn search(&self, query: Option<&str>, tag: Option<&str>, config: &crate::config::Config) -> (r:
        Vec<Prompt>)
        ensures
            ({
                let cs = config.general.search_case_sensitive;
                let kept = tag_filtered(
                    query_filtered(pviews(self.prompts@), opt_view(query), cs),
                    opt_view(tag),
                );
                pviews(r@).to_multiset() == kept.to_multiset() && (forall|k: int, l: int|
                    0 <= k < l < r@.len() ==> pv_le(
                        #[trigger] pviews(r@)[k],
                        #[trigger] pviews(r@)[l],
                        config.general.sort_by,
                    ))
            }),
    {
        let cs = config.general.search_case_sensitive;
        let n: usize = self.prompts.len();
        let ghost qv = opt_view(query);
        let mut afterq: Vec<Prompt> = Vec::new();
        match query {
            Some(q) => {
                let key = if cs {
                    chars_of(q)
                } else {
                    chars_of(fold_case(q).as_str())
                };
                proof {
                    reveal(Seq::filter);
                    assert(key@ == search_key(qv.unwrap(), cs));
                    assert(pviews(self.prompts@.take(0)) =~~= Seq::<PromptV>::empty());
                    assert(pviews(afterq@) =~~= query_filtered(
                        pviews(self.prompts@.take(0)),
                        qv,
                        cs,
                    ));
                }
                let mut i: usize = 0;
                while i < n
                    invariant
                        i <= n,
                        n == self.prompts@.len(),
                        qv matches Option::Some(qk) && key@ == search_key(qk, cs),
                        pviews(afterq@) == query_filtered(pviews(self.prompts@.take(i as int)), qv, cs),
                    decreases n - i,
                {
                    let ghost fprev = pviews(self.prompts@.take(i as int));
                    let ghost fnext = pviews(self.prompts@.take(i as int + 1));
                    proof {
                        reveal(Seq::filter);
                        assert(fnext.drop_last() =~~= fprev);
                        assert(fnext.last() == pv(self.prompts@[i as int]));
                    }
                    if matches_query_exec(&self.prompts[i], &key, cs) {
                        let ghost prev = afterq@;
                        afterq.push(copy_prompt(&self.prompts[i]));
                        proof {
                            reveal(Seq::filter);
                            assert(pviews(afterq@) =~~= pviews(prev).push(
                                pv(self.prompts@[i as int]),
                            ));
                            assert(query_filtered(fnext, qv, cs) =~~= query_filtered(
                                fprev,
                                qv,
                                cs,
                            ).push(fnext.last()));
                        }
                    } else {
                        proof {
                            reveal(Seq::filter);
                            assert(query_filtered(fnext, qv, cs) =~~= query_filtered(
                                fprev,
                                qv,
                                cs,
                            ));
                        }
                    }
                    i = i + 1;
                }
                proof {
                    assert(self.prompts@.take(n as int) =~= self.prompts@);
                }
            },
            None => {
                proof {
                    assert(pviews(afterq@) =~~= query_filtered(
                        pviews(self.prompts@.take(0)),
                        qv,
                        cs,
                    ));
                }
                let mut i: usize = 0;
                while i < n
                    invariant
                        i <= n,
                        n == self.prompts@.len(),
                        qv is None,
                        pviews(afterq@) == query_filtered(pviews(self.prompts@.take(i as int)), qv, cs),
                    decreases n - i,
                {
                    let ghost prev = afterq@;
                    let c = copy_prompt(&self.prompts[i]);
                    afterq.push(c);
                    i = i + 1;
                    proof {
                        assert(pviews(afterq@) =~~= pviews(prev).push(pv(c)));
                        assert(pviews(afterq@) =~~= pviews(self.prompts@.take(i as int)));
                    }
                }
                proof {
                    assert(self.prompts@.take(n as int) =~= self.prompts@);
                }
            },
        }
        let ghost tv = opt_view(tag);
        let ghost base = pviews(afterq@);
        let mut aftert: Vec<Prompt> = Vec::new();
        match tag {
            Some(t) => {
                proof {
                    reveal(Seq::filter);
                    assert(base.take(0) =~~= Seq::<PromptV>::empty());
                    assert(pviews(aftert@) =~~= tag_filtered(base.take(0), tv));
                }
                let m: usize = afterq.len();
                let mut i: usize = 0;
                while i < m
                    invariant
                        i <= m,
                        m == afterq@.len(),
                        base == pviews(afterq@),
                        tv matches Option::Some(tk) && tk == t@,
                        pviews(aftert@) == tag_filtered(base.take(i as int), tv),
                    decreases m - i,
                {
                    let ghost fprev = base.take(i as int);
                    let ghost fnext = base.take(i as int + 1);
                    proof {
                        reveal(Seq::filter);
                        assert(fnext.drop_last() =~~= fprev);
                        assert(fnext.last() == pv(afterq@[i as int]));
                    }
                    if has_tag_exec(&afterq[i], t) {
                        let ghost prev = aftert@;
                        aftert.push(copy_prompt(&afterq[i]));
                        proof {
                            reveal(Seq::filter);
                            assert(pviews(aftert@) =~~= pviews(prev).push(pv(afterq@[i as int])));
                            assert(tag_filtered(fnext, tv) =~~= tag_filtered(fprev, tv).push(
                                fnext.last(),
                            ));
                        }
                    } else {
                        proof {
                            reveal(Seq::filter);
                            assert(tag_filtered(fnext, tv) =~~= tag_filtered(fprev, tv));
                        }
                    }
                    i = i + 1;
                }
                proof {
                    assert(base.take(m as int) =~~= base);
                }
            },
            None => {
                aftert = afterq;
            },
        }
        sort_prompts(aftert, &config.general.sort_by)
    }
}

/// Whether a prompt shares both identifier and description views with the
/// given pair: what the smart delete removes.
pub open spec fn pv_same_identity(p: Prompt, id: Option<Seq<char>>, d: Seq<char>) -> bool {
    pv(p).id == id && p.description@ == d
}

/// The index of the first prompt with this identifier and description, or -1.
pub open spec fn idx_same_identity(s: Seq<Prompt>, id: Option<Seq<char>>, d: Seq<char>) -> int
    decreases s.len(),
{
    if s.len() == 0 {
        -1
    } else if pv_same_identity(s[0], id, d) {
        0
    } else {
        let r = idx_same_identity(s.skip(1), id, d);
        if r < 0 {
            -1
        } else {
            1 + r
        }
    }
}

proof fn lemma_idx_same_identity_exact(s: Seq<Prompt>, id: Option<Seq<char>>, d: Seq<char>, k: int)
    requires
        0 <= k <= s.len(),
        forall|j: int| 0 <= j < k ==> !pv_same_identity(#[trigger] s[j], id, d),
        k < s.len() ==> pv_same_identity(s[k], id, d),
    ensures
        k < s.len() ==> idx_same_identity(s, id, d) == k,
        k == s.len() ==> idx_same_identity(s, id, d) == -1,
    decreases k, s.len(),
{
    if s.len() == 0 {
    } else if pv_same_identity(s[0], id, d) {
        assert(k == 0);
    } else {
        assert forall|j: int| 0 <= j < k - 1 implies !pv_same_identity(
            #[trigger] s.skip(1)[j],
            id,
            d,
        ) by {
            assert(s.skip(1)[j] == s[j + 1]);
        }
        assert(k - 1 < s.skip(1).len() && k >= 1 ==> s.skip(1)[k - 1] == s[k]);
        if k == 0 {
            assert(!pv_same_identity(s[0], id, d));
            assert(k < s.len() ==> pv_same_identity(s[k], id, d));
            assert(k < s.len());
            assert(false);
        } else {
            lemma_idx_same_identity_exact(s.skip(1), id, d, k - 1);
        }
    }
}

/// Executable check for `pv_same_identity`.
fn same_identity_exec(p: &Prompt, id: &Option<String>, d: &str) -> (r: bool)
    ensures
        r == pv_same_identity(
            *p,
            match id {
                Option::Some(s) => Option::Some(s@),
                Option::None => Option::None,
            },
            d@,
        ),
{
    let ids_match = match (&p.id, id) {
        (Some(a), Some(b)) => eq_str(a.as_str(), b.as_str()),
        (None, None) => true,
        _ => false,
    };
    ids_match && has_desc(p, d)
}

impl PromptCollection {
    /// Smart delete: find the prompt `identifier` names (by identifier, then
    /// by description), then remove the first prompt sharing its identifier
    /// and description, and hand it back. Nothing is removed when nothing
    /// matches.
    pub fn delete_prompt(&mut self, identifier: &str) -> (r: Option<Prompt>)
        ensures
            ({
                let fi = idx_by_ident(old(self).prompts@, identifier@);
                if fi < 0 {
                    r is None && final(self).prompts@ == old(self).prompts@
                } else {
                    let f = old(self).prompts@[fi];
                    let j = idx_same_identity(old(self).prompts@, pv(f).id, f.description@);
                    0 <= j < old(self).prompts@.len() && (r == Some(old(self).prompts@[j]))
                        && final(self).prompts@ == old(self).prompts@.remove(j)
                }
            }),
    {
        let (fid, fdesc): (Option<String>, String) = match self.find_prompt(identifier) {
            Some(p) => {
                let fid = match &p.id {
                    Some(s) => Some(s.clone()),
                    None => None,
                };
                (fid, p.description.clone())
            },
            None => {
                return None;
            },
        };
        let ghost fi = idx_by_ident(self.prompts@, identifier@);
        proof {
            lemma_idx_by_id(self.prompts@, identifier@);
            lemma_idx_by_desc(self.prompts@, identifier@);
            assert(0 <= fi < self.prompts@.len());
        }
        let ghost idv = pv(self.prompts@[fi]).id;
        let ghost dv = self.prompts@[fi].description@;
        proof {
            assert(match fid {
                Option::Some(s) => Option::Some(s@),
                Option::None => Option::<Seq<char>>::None,
            } == idv);
            assert(fdesc@ == dv);
            assert(pv_same_identity(self.prompts@[fi], idv, dv));
        }
        let n: usize = self.prompts.len();
        let mut j: usize = 0;
        while j < n
            invariant
                j <= n,
                n == self.prompts@.len(),
                self.prompts@ == old(self).prompts@,
                0 <= fi < n,
                fi == idx_by_ident(self.prompts@, identifier@),
                idv == pv(self.prompts@[fi]).id,
                dv == self.prompts@[fi].description@,
                pv_same_identity(self.prompts@[fi], idv, dv),
                idv == match fid {
                    Option::Some(s) => Option::Some(s@),
                    Option::None => Option::<Seq<char>>::None,
                },
                dv == fdesc@,
                forall|t: int| 0 <= t < j ==> !pv_same_identity(#[trigger] self.prompts@[t], idv, dv),
            decreases n - j,
        {
            if same_identity_exec(&self.prompts[j], &fid, fdesc.as_str()) {
                proof {
                    lemma_idx_same_identity_exact(self.prompts@, idv, dv, j as int);
                }
                let removed = self.prompts.remove(j);
                return Some(removed);
            }
            j = j + 1;
        }
        proof {
            assert(!pv_same_identity(self.prompts@[fi], idv, dv));
        }
        None
    }
}

// ------------------------------------------------------------------
// Tags, categories and statistics
// ------------------------------------------------------------------
/// The tags of one prompt, or nothing.
pub open spec fn ptags(p: PromptV) -> Seq<Seq<char>> {
    match p.tag {
        Option::Some(ts) => ts,
        Option::None => Seq::empty(),
    }
}

/// Every tag of every prompt, in order, repetitions kept.
pub open spec fn all_tags(s: Seq<PromptV>) -> Seq<Seq<char>>
    decreases s.len(),
{
    if s.len() == 0 {
        Seq::empty()
    } else {
        all_tags(s.drop_last()) + ptags(s.last())
    }
}

/// The non-empty category of one prompt, or nothing.
pub open spec fn pcat(p: PromptV) -> Seq<Seq<char>> {
    match p.category {
        Option::Some(c) => if c.len() > 0 {
            seq![c]
        } else {
            Seq::empty()
        },
        Option::None => Seq::empty(),
    }
}

/// Every non-empty category of every prompt, in order, repetitions kept.
pub open spec fn all_categories(s: Seq<PromptV>) -> Seq<Seq<char>>
    decreases s.len(),
{
    if s.len() == 0 {
        Seq::empty()
    } else {
        all_categories(s.drop_last()) + pcat(s.last())
    }
}

/// The category of one prompt with empty strings kept, or nothing: the raw
/// variant statistics count.
pub open spec fn pcat_raw(p: PromptV) -> Seq<Seq<char>> {
    match p.category {
        Option::Some(c) => seq![c],
        Option::None => Seq::empty(),
    }
}

/// Every category of every prompt, in order, empty strings and repetitions
/// kept.
pub open spec fn all_categories_raw(s: Seq<PromptV>) -> Seq<Seq<char>>
    decreases s.len(),
{
    if s.len() == 0 {
        Seq::empty()
    } else {
        all_categories_raw(s.drop_last()) + pcat_raw(s.last())
    }
}

/// How often `x` occurs in `xs`.
pub open spec fn count_eq(xs: Seq<Seq<char>>, x: Seq<char>) -> nat
    decreases xs.len(),
{
    if xs.len() == 0 {
        0
    } else {
        count_eq(xs.drop_last(), x) + if xs.last() == x {
            1 as nat
        } else {
            0 as nat
        }
    }
}

/// How many prompts carry a tag list.
pub open spec fn count_tagged(s: Seq<PromptV>) -> nat
    decreases s.len(),
{
    if s.len() == 0 {
        0
    } else {
        count_tagged(s.drop_last()) + if s.last().tag is Some {
            1 as nat
        } else {
            0 as nat
        }
    }
}

/// How many prompts carry a category.
pub open spec fn count_categorized(s: Seq<PromptV>) -> nat
    decreases s.len(),
{
    if s.len() == 0 {
        0
    } else {
        count_categorized(s.drop_last()) + if s.last().category is Some {
            1 as nat
        } else {
            0 as nat
        }
    }
}

/// The key views of a counted list.
pub open spec fn keys_of(e: Seq<(String, usize)>) -> Seq<Seq<char>> {
    e.map_values(|p: (String, usize)| p.0@)
}

/// Statistics over the collection: totals and per-tag / per-category counts.
#[derive(Debug)]
pub struct PromptStats {
    pub total_prompts: usize,
    pub total_tags: usize,
    pub total_categories: usize,
    pub tag_counts: Vec<(String, usize)>,
    pub category_counts: Vec<(String, usize)>,
}

/// Gather every tag of every prompt, in order.
fn gather_tags(prompts: &Vec<Prompt>) -> (r: Vec<String>)
    ensures
        crate::text::views_of(r@) == all_tags(pviews(prompts@)),
{
    let n: usize = prompts.len();
    let mut acc: Vec<String> = Vec::new();
    let mut i: usize = 0;
    proof {
        assert(pviews(prompts@.take(0)) =~~= Seq::<PromptV>::empty());
        assert(crate::text::views_of(acc@) =~~= all_tags(pviews(prompts@.take(0))));
    }
    while i < n
        invariant
            i <= n,
            n == prompts@.len(),
            crate::text::views_of(acc@) == all_tags(pviews(prompts@.take(i as int))),
        decreases n - i,
    {
        let ghost fprev = pviews(prompts@.take(i as int));
        let ghost fnext = pviews(prompts@.take(i as int + 1));
        proof {
            assert(fnext.drop_last() =~~= fprev);
            assert(fnext.last() == pv(prompts@[i as int]));
        }
        match &prompts[i].tag {
            Some(ts) => {
                let m: usize = ts.len();
                let mut j: usize = 0;
                proof {
                    assert(crate::text::views_of(acc@) =~~= all_tags(fprev) + crate::text::views_of(
                        ts@,
                    ).take(0));
                }
                while j < m
                    invariant
                        j <= m,
                        m == ts@.len(),
                        crate::text::views_of(acc@) == all_tags(fprev) + crate::text::views_of(
                            ts@,
                        ).take(j as int),
                    decreases m - j,
                {
                    let ghost prevacc = acc@;
                    acc.push(ts[j].clone());
                    j = j + 1;
                    proof {
                        assert(crate::text::views_of(acc@) =~~= crate::text::views_of(
                            prevacc,
                        ).push(ts@[j - 1]@));
                        assert(crate::text::views_of(acc@) =~~= all_tags(fprev)
                            + crate::text::views_of(ts@).take(j as int));
                    }
                }
                proof {
                    assert(crate::text::views_of(ts@).take(m as int) =~~= crate::text::views_of(
                        ts@,
                    ));
                    assert(ptags(fnext.last()) =~~= crate::text::views_of(ts@));
                    assert(crate::text::views_of(acc@) =~~= all_tags(fprev) + ptags(fnext.last()));
                }
            },
            None => {
                proof {
                    assert(ptags(fnext.last()) =~~= Seq::<Seq<char>>::empty());
                    assert(crate::text::views_of(acc@) =~~= all_tags(fprev) + ptags(fnext.last()));
                }
            },
        }
        i = i + 1;
    }
    proof {
        assert(pviews(prompts@.take(n as int)) =~~= pviews(prompts@));
    }
    acc
}

/// Gather every non-empty category, in order.
fn gather_categories(prompts: &Vec<Prompt>) -> (r: Vec<String>)
    ensures
        crate::text::views_of(r@) == all_categories(pviews(prompts@)),
{
    let n: usize = prompts.len();
    let mut acc: Vec<String> = Vec::new();
    let mut i: usize = 0;
    proof {
        assert(pviews(prompts@.take(0)) =~~= Seq::<PromptV>::empty());
        assert(crate::text::views_of(acc@) =~~= all_categories(pviews(prompts@.take(0))));
    }
    while i < n
        invariant
            i <= n,
            n == prompts@.len(),
            crate::text::views_of(acc@) == all_categories(pviews(prompts@.take(i as int))),
        decreases n - i,
    {
        let ghost fprev = pviews(prompts@.take(i as int));
        let ghost fnext = pviews(prompts@.take(i as int + 1));
        proof {
            assert(fnext.drop_last() =~~= fprev);
            assert(fnext.last() == pv(prompts@[i as int]));
        }
        let ghost base = acc@;
        match &prompts[i].category {
            Some(c) => {
                if c.as_str().unicode_len() > 0 {
                    acc.push(c.clone());
                    proof {
                        assert(pcat(fnext.last()) =~~= seq![c@]);
                        assert(crate::text::views_of(acc@) =~~= all_categories(fprev) + pcat(
                            fnext.last(),
                        ));
                    }
                } else {
                    proof {
                        assert(pcat(fnext.last()) =~~= Seq::<Seq<char>>::empty());
                        assert(crate::text::views_of(acc@) =~~= all_categories(fprev) + pcat(
                            fnext.last(),
                        ));
                    }
                }
            },
            None => {
                proof {
                    assert(pcat(fnext.last()) =~~= Seq::<Seq<char>>::empty());
                    assert(crate::text::views_of(acc@) =~~= all_categories(fprev) + pcat(
                        fnext.last(),
                    ));
                }
            },
        }
        i = i + 1;
    }
    proof {
        assert(pviews(prompts@.take(n as int)) =~~= pviews(prompts@));
    }
    acc
}

/// Gather every category, in order, empty strings kept.
pub fn gather_categories_raw(prompts: &Vec<Prompt>) -> (r: Vec<String>)
    ensures
        crate::text::views_of(r@) == all_categories_raw(pviews(prompts@)),
{
    let n: usize = prompts.len();
    let mut acc: Vec<String> = Vec::new();
    let mut i: usize = 0;
    proof {
        assert(pviews(prompts@.take(0)) =~~= Seq::<PromptV>::empty());
        assert(crate::text::views_of(acc@) =~~= all_categories_raw(pviews(prompts@.take(0))));
    }
    while i < n
        invariant
            i <= n,
            n == prompts@.len(),
            crate::text::views_of(acc@) == all_categories_raw(pviews(prompts@.take(i as int))),
        decreases n - i,
    {
        let ghost fprev = pviews(prompts@.take(i as int));
        let ghost fnext = pviews(prompts@.take(i as int + 1));
        proof {
            assert(fnext.drop_last() =~~= fprev);
            assert(fnext.last() == pv(prompts@[i as int]));
        }
        match &prompts[i].category {
            Some(c) => {
                acc.push(c.clone());
                proof {
                    assert(pcat_raw(fnext.last()) =~~= seq![c@]);
                    assert(crate::text::views_of(acc@) =~~= all_categories_raw(fprev) + pcat_raw(
                        fnext.last(),
                    ));
                }
            },
            None => {
                proof {
                    assert(pcat_raw(fnext.last()) =~~= Seq::<Seq<char>>::empty());
                    assert(crate::text::views_of(acc@) =~~= all_categories_raw(fprev) + pcat_raw(
                        fnext.last(),
                    ));
                }
            },
        }
        i = i + 1;
    }
    proof {
        assert(pviews(prompts@.take(n as int)) =~~= pviews(prompts@));
    }
    acc
}

/// Sort and drop duplicates: the distinct strings, strictly ascending, with
/// exactly the members of the input.
pub fn sorted_distinct(v: Vec<String>) -> (r: Vec<String>)
    ensures
        forall|k: int, l: int|
            0 <= k < l < r@.len() ==> lex_le(
                #[trigger] crate::text::views_of(r@)[k],
                #[trigger] crate::text::views_of(r@)[l],
            ) && crate::text::views_of(r@)[k] != crate::text::views_of(r@)[l],
        forall|x: Seq<char>|
            crate::text::views_of(r@).contains(x) <==> crate::text::views_of(v@).contains(x),
{
    let ghost orig = crate::text::views_of(v@);
    let sorted = crate::text::sort_strings(v);
    proof {
        broadcast use vstd::seq_lib::group_to_multiset_ensures;

        assert forall|x: Seq<char>|
            crate::text::views_of(sorted@).contains(x) <==> orig.contains(x) by {
            assert(crate::text::views_of(sorted@).to_multiset().count(x) == orig.to_multiset().count(
                x,
            ));
        }
    }
    dedup_sorted_strings_local(sorted)
}

/// The count of `x` among the views of `v`.
fn count_occurrences(v: &Vec<String>, x: &str) -> (r: usize)
    ensures
        r as nat == count_eq(crate::text::views_of(v@), x@),
{
    let n: usize = v.len();
    let mut count: usize = 0;
    let mut i: usize = 0;
    proof {
        assert(crate::text::views_of(v@).take(0) =~~= Seq::<Seq<char>>::empty());
    }
    while i < n
        invariant
            i <= n,
            n == v@.len(),
            count <= i,
            count as nat == count_eq(crate::text::views_of(v@).take(i as int), x@),
        decreases n - i,
    {
        let ghost fprev = crate::text::views_of(v@).take(i as int);
        let ghost fnext = crate::text::views_of(v@).take(i as int + 1);
        proof {
            assert(fnext.drop_last() =~~= fprev);
            assert(fnext.last() == v@[i as int]@);
        }
        if eq_str(v[i].as_str(), x) {
            count = count + 1;
        }
        i = i + 1;
    }
    proof {
        assert(crate::text::views_of(v@).take(n as int) =~~= crate::text::views_of(v@));
    }
    count
}

/// See `crate::text::dedup_sorted_strings`; named locally to keep the call
/// sites short.
fn dedup_sorted_strings_local(v: Vec<String>) -> (r: Vec<String>)
    requires
        forall|k: int, l: int|
            0 <= k < l < v@.len() ==> lex_le(
                #[trigger] crate::text::views_of(v@)[k],
                #[trigger] crate::text::views_of(v@)[l],
            ),
    ensures
        forall|k: int, l: int|
            0 <= k < l < r@.len() ==> lex_le(
                #[trigger] crate::text::views_of(r@)[k],
                #[trigger] crate::text::views_of(r@)[l],
            ) && crate::text::views_of(r@)[k] != crate::text::views_of(r@)[l],
        forall|x: Seq<char>|
            crate::text::views_of(r@).contains(x) <==> crate::text::views_of(v@).contains(x),
{
    crate::text::dedup_sorted_strings(v)
}

impl PromptCollection {
    /// Every distinct tag, in ascending order.
    pub fn get_all_tags(&self) -> (r: Vec<String>)
        ensures
            forall|k: int, l: int|
                0 <= k < l < r@.len() ==> lex_le(
                    #[trigger] crate::text::views_of(r@)[k],
                    #[trigger] crate::text::views_of(r@)[l],
                ) && crate::text::views_of(r@)[k] != crate::text::views_of(r@)[l],
            forall|x: Seq<char>|
                crate::text::views_of(r@).contains(x) <==> all_tags(
                    pviews(self.prompts@),
                ).contains(x),
    {
        sorted_distinct(gather_tags(&self.prompts))
    }

    /// Every distinct non-empty category, in ascending order.
    pub fn get_categories(&self) -> (r: Vec<String>)
        ensures
            forall|k: int, l: int|
                0 <= k < l < r@.len() ==> lex_le(
                    #[trigger] crate::text::views_of(r@)[k],
                    #[trigger] crate::text::views_of(r@)[l],
                ) && crate::text::views_of(r@)[k] != crate::text::views_of(r@)[l],
            forall|x: Seq<char>|
                crate::text::views_of(r@).contains(x) <==> all_categories(
                    pviews(self.prompts@),
                ).contains(x),
    {
        sorted_distinct(gather_categories(&self.prompts))
    }

    /// Statistics: the number of prompts, how many carry tags, how many carry
    /// a category, and the occurrence count of every distinct tag and
    /// category (keys ascending; category counts keep empty-string
    /// categories, unlike the category listing).
    pub fn get_stats(&self) -> (r: PromptStats)
        ensures
            r.total_prompts == self.prompts@.len(),
            r.total_tags as nat == count_tagged(pviews(self.prompts@)),
            r.total_categories as nat == count_categorized(pviews(self.prompts@)),
            forall|k: int|
                0 <= k < r.tag_counts@.len() ==> (#[trigger] r.tag_counts@[k]).1 as nat == count_eq(
                    all_tags(pviews(self.prompts@)),
                    r.tag_counts@[k].0@,
                ),
            forall|x: Seq<char>|
                keys_of(r.tag_counts@).contains(x) <==> all_tags(pviews(self.prompts@)).contains(x),
            forall|k: int, l: int|
                0 <= k < l < r.tag_counts@.len() ==> #[trigger] keys_of(r.tag_counts@)[k]
                    != #[trigger] keys_of(r.tag_counts@)[l],
            forall|k: int|
                0 <= k < r.category_counts@.len() ==> (#[trigger] r.category_counts@[k]).1 as nat
                    == count_eq(
                    all_categories_raw(pviews(self.prompts@)),
                    r.category_counts@[k].0@,
                ),
            forall|x: Seq<char>|
                keys_of(r.category_counts@).contains(x) <==> all_categories_raw(
                    pviews(self.prompts@),
                ).contains(x),
            forall|k: int, l: int|
                0 <= k < l < r.category_counts@.len() ==> #[trigger] keys_of(r.category_counts@)[k]
                    != #[trigger] keys_of(r.category_counts@)[l],
    {
        let total_prompts: usize = self.prompts.len();
        let n: usize = total_prompts;
        let mut total_tags: usize = 0;
        let mut total_categories: usize = 0;
        let mut i: usize = 0;
        proof {
            assert(pviews(self.prompts@.take(0)) =~~= Seq::<PromptV>::empty());
        }
        while i < n
            invariant
                i <= n,
                n == self.prompts@.len(),
                total_tags <= i,
                total_categories <= i,
                total_tags as nat == count_tagged(pviews(self.prompts@.take(i as int))),
                total_categories as nat == count_categorized(pviews(self.prompts@.take(i as int))),
            decreases n - i,
        {
            proof {
                assert(pviews(self.prompts@.take(i as int + 1)).drop_last() =~~= pviews(
                    self.prompts@.take(i as int),
                ));
                assert(pviews(self.prompts@.take(i as int + 1)).last() == pv(
                    self.prompts@[i as int],
                ));
            }
            if self.prompts[i].tag.is_some() {
                total_tags = total_tags + 1;
            }
            if self.prompts[i].category.is_some() {
                total_categories = total_categories + 1;
            }
            i = i + 1;
        }
        proof {
            assert(pviews(self.prompts@.take(n as int)) =~~= pviews(self.prompts@));
        }
        let tags = gather_tags(&self.prompts);
        let tag_keys = sorted_distinct(gather_tags(&self.prompts));
        let mut tag_counts: Vec<(String, usize)> = Vec::new();
        let tkn: usize = tag_keys.len();
        let mut k: usize = 0;
        while k < tkn
            invariant
                k <= tkn,
                tkn == tag_keys@.len(),
                crate::text::views_of(tags@) == all_tags(pviews(self.prompts@)),
                forall|t: int, u: int|
                    0 <= t < u < tag_keys@.len() ==> crate::text::views_of(tag_keys@)[t]
                        != crate::text::views_of(tag_keys@)[u],
                forall|x: Seq<char>|
                    crate::text::views_of(tag_keys@).contains(x) <==> all_tags(
                        pviews(self.prompts@),
                    ).contains(x),
                tag_counts@.len() == k,
                forall|t: int|
                    0 <= t < k ==> (#[trigger] tag_counts@[t]).0@ == crate::text::views_of(
                        tag_keys@,
                    )[t] && tag_counts@[t].1 as nat == count_eq(
                        all_tags(pviews(self.prompts@)),
                        tag_counts@[t].0@,
                    ),
            decreases tkn - k,
        {
            let c = count_occurrences(&tags, tag_keys[k].as_str());
            tag_counts.push((tag_keys[k].clone(), c));
            k = k + 1;
        }
        let cats = gather_categories_raw(&self.prompts);
        let cat_keys = sorted_distinct(gather_categories_raw(&self.prompts));
        let mut category_counts: Vec<(String, usize)> = Vec::new();
        let ckn: usize = cat_keys.len();
        let mut k2: usize = 0;
        while k2 < ckn
            invariant
                k2 <= ckn,
                ckn == cat_keys@.len(),
                crate::text::views_of(cats@) == all_categories_raw(pviews(self.prompts@)),
                forall|t: int, u: int|
                    0 <= t < u < cat_keys@.len() ==> crate::text::views_of(cat_keys@)[t]
                        != crate::text::views_of(cat_keys@)[u],
                forall|x: Seq<char>|
                    crate::text::views_of(cat_keys@).contains(x) <==> all_categories_raw(
                        pviews(self.prompts@),
                    ).contains(x),
                category_counts@.len() == k2,
                forall|t: int|
                    0 <= t < k2 ==> (#[trigger] category_counts@[t]).0@ == crate::text::views_of(
                        cat_keys@,
                    )[t] && category_counts@[t].1 as nat == count_eq(
                        all_categories_raw(pviews(self.prompts@)),
                        category_counts@[t].0@,
                    ),
            decreases ckn - k2,
        {
            let c = count_occurrences(&cats, cat_keys[k2].as_str());
            category_counts.push((cat_keys[k2].clone(), c));
            k2 = k2 + 1;
        }
        let r = PromptStats {
            total_prompts,
            total_tags,
            total_categories,
            tag_counts,
            category_counts,
        };
        proof {
            assert forall|x: Seq<char>|
                keys_of(r.tag_counts@).contains(x) <==> all_tags(
                    pviews(self.prompts@),
                ).contains(x) by {
                if keys_of(r.tag_counts@).contains(x) {
                    let j = choose|j: int|
                        0 <= j < keys_of(r.tag_counts@).len() && #[trigger] keys_of(
                            r.tag_counts@,
                        )[j] == x;
                    assert(crate::text::views_of(tag_keys@)[j] == x);
                    assert(crate::text::views_of(tag_keys@).contains(x));
                }
                if all_tags(pviews(self.prompts@)).contains(x) {
                    assert(crate::text::views_of(tag_keys@).contains(x));
                    let j = choose|j: int|
                        0 <= j < crate::text::views_of(tag_keys@).len() && #[trigger] crate::text::views_of(
                            tag_keys@,
                        )[j] == x;
                    assert(keys_of(r.tag_counts@)[j] == x);
                }
            }
            assert forall|x: Seq<char>|
                keys_of(r.category_counts@).contains(x) <==> all_categories_raw(
                    pviews(self.prompts@),
                ).contains(x) by {
                if keys_of(r.category_counts@).contains(x) {
                    let j = choose|j: int|
                        0 <= j < keys_of(r.category_counts@).len() && #[trigger] keys_of(
                            r.category_counts@,
                        )[j] == x;
                    assert(crate::text::views_of(cat_keys@)[j] == x);
                    assert(crate::text::views_of(cat_keys@).contains(x));
                }
                if all_categories_raw(pviews(self.prompts@)).contains(x) {
                    assert(crate::text::views_of(cat_keys@).contains(x));
                    let j = choose|j: int|
                        0 <= j < crate::text::views_of(cat_keys@).len()
                            && #[trigger] crate::text::views_of(cat_keys@)[j] == x;
                    assert(keys_of(r.category_counts@)[j] == x);
                }
            }
            assert forall|k: int, l: int|
                0 <= k < l < r.tag_counts@.len() implies #[trigger] keys_of(r.tag_counts@)[k]
                != #[trigger] keys_of(r.tag_counts@)[l] by {
                assert(keys_of(r.tag_counts@)[k] == crate::text::views_of(tag_keys@)[k]);
                assert(keys_of(r.tag_counts@)[l] == crate::text::views_of(tag_keys@)[l]);
            }
            assert forall|k: int, l: int|
                0 <= k < l < r.category_counts@.len() implies #[trigger] keys_of(
                r.category_counts@,
            )[k] != #[trigger] keys_of(r.category_counts@)[l] by {
                assert(keys_of(r.category_counts@)[k] == crate::text::views_of(cat_keys@)[k]);
                assert(keys_of(r.category_counts@)[l] == crate::text::views_of(cat_keys@)[l]);
            }
        }
        r
    }
}

} // verus!
