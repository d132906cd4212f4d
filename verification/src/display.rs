//! Building the display strings that selectors show, and parsing a selected
//! display line back to its prompt.
//!
//! Display strings are opaque to the selectors; they are only compared for
//! equality (or parsed for the bracketed description) to recover the chosen
//! prompt. Colouring is presentation and happens outside the library.

use vstd::prelude::*;

use crate::config::Config;
use crate::prompts::{matches_desc, pv, pviews, Prompt, PromptCollection, PromptV};
use crate::text::{chars_of, lines_of, string_from_chars, views_of};

verus! {

/// `s` cut to at most `max` characters; a cut is marked with a trailing
/// ellipsis inside the limit.
pub open spec fn truncate_of(s: Seq<char>, max: nat) -> Seq<char> {
    if s.len() <= max {
        s
    } else {
        s.take(if max >= 3 {
            max - 3
        } else {
            0
        }) + "..."@
    }
}

/// Truncate a string to at most `max` characters, marking a cut with an
/// ellipsis.
pub fn truncate_string(s: &str, max: usize) -> (r: String)
    ensures
        r@ == truncate_of(s@, max as nat),
{
    let cs = chars_of(s);
    if cs.len() <= max {
        return s.to_owned();
    }
    let keep: usize = if max >= 3 {
        max - 3
    } else {
        0
    };
    let mut out: Vec<char> = Vec::new();
    let mut i: usize = 0;
    while i < keep
        invariant
            i <= keep,
            keep < cs@.len(),
            cs@ == s@,
            out@ == s@.take(i as int),
        decreases keep - i,
    {
        out.push(cs[i]);
        i = i + 1;
        proof {
            assert(out@ =~= s@.take(i as int));
        }
    }
    out.push('.');
    out.push('.');
    out.push('.');
    proof {
        reveal_strlit("...");
        assert(out@ =~= truncate_of(s@, max as nat));
    }
    string_from_chars(&out)
}

/// The category part of a display line: ` [category]`, or nothing.
pub open spec fn cat_display_of(c: Option<Seq<char>>) -> Seq<char> {
    match c {
        Option::Some(cc) => " ["@ + cc + "]"@,
        Option::None => Seq::empty(),
    }
}

/// The tags part of a display line: ` #tag` for each tag, in order.
pub open spec fn tags_display_of(ts: Seq<Seq<char>>) -> Seq<char>
    decreases ts.len(),
{
    if ts.len() == 0 {
        Seq::empty()
    } else {
        tags_display_of(ts.drop_last()) + " #"@ + ts.last()
    }
}

/// The content preview shown under a selection line: the content cut to 100
/// characters.
pub open spec fn preview_display_of(content: Seq<char>) -> Seq<char> {
    truncate_of(content, 100)
}

/// The whole display string of one prompt, as selectors see it: a first line
/// `[description]: [category] #tags`, and (when previews are on and the
/// content is not empty) a second line with the content preview.
pub open spec fn selection_line_of(p: PromptV, content_preview: bool) -> Seq<char> {
    let first = "["@ + p.description + "]:"@ + cat_display_of(p.category) + tags_display_of(
        match p.tag {
            Option::Some(ts) => ts,
            Option::None => Seq::empty(),
        },
    );
    if content_preview && preview_display_of(p.content).len() > 0 {
        first + "\n"@ + preview_display_of(p.content)
    } else {
        first
    }
}

/// Append the characters of `s` to `out`.
pub fn push_str_chars(out: &mut Vec<char>, s: &str)
    ensures
        final(out)@ == old(out)@ + s@,
{
    let cs = chars_of(s);
    let n: usize = cs.len();
    let mut i: usize = 0;
    while i < n
        invariant
            i <= n,
            n == cs@.len(),
            cs@ == s@,
            out@ == old(out)@ + s@.take(i as int),
        decreases n - i,
    {
        out.push(cs[i]);
        i = i + 1;
        proof {
            assert(out@ =~= old(out)@ + s@.take(i as int));
        }
    }
    proof {
        assert(out@ =~= old(out)@ + s@);
    }
}

/// Build the display string of one prompt.
pub fn format_prompt_for_selection(p: &Prompt, config: &Config) -> (r: String)
    ensures
        r@ == selection_line_of(pv(*p), config.general.content_preview),
{
    let mut out: Vec<char> = Vec::new();
    push_str_chars(&mut out, "[");
    push_str_chars(&mut out, p.description.as_str());
    push_str_chars(&mut out, "]:");
    proof {
        assert(out@ =~= "["@ + pv(*p).description + "]:"@);
    }
    match &p.category {
        Some(c) => {
            push_str_chars(&mut out, " [");
            push_str_chars(&mut out, c.as_str());
            push_str_chars(&mut out, "]");
            proof {
                assert(out@ =~= "["@ + pv(*p).description + "]:"@ + cat_display_of(
                    pv(*p).category,
                ));
            }
        },
        None => {
            proof {
                assert(cat_display_of(pv(*p).category) =~= Seq::<char>::empty());
                assert(out@ =~= "["@ + pv(*p).description + "]:"@ + cat_display_of(
                    pv(*p).category,
                ));
            }
        },
    }
    let ghost head = out@;
    let ghost tagsv: Seq<Seq<char>> = match pv(*p).tag {
        Option::Some(ts) => ts,
        Option::None => Seq::empty(),
    };
    match &p.tag {
        Some(ts) => {
            let m: usize = ts.len();
            let mut j: usize = 0;
            proof {
                assert(tagsv =~~= views_of(ts@));
                assert(out@ =~= head + tags_display_of(tagsv.take(0)));
            }
            while j < m
                invariant
                    j <= m,
                    m == ts@.len(),
                    tagsv == views_of(ts@),
                    out@ == head + tags_display_of(tagsv.take(j as int)),
                decreases m - j,
            {
                push_str_chars(&mut out, " #");
                push_str_chars(&mut out, ts[j].as_str());
                j = j + 1;
                proof {
                    assert(tagsv.take(j as int).drop_last() =~~= tagsv.take(j as int - 1));
                    assert(out@ =~= head + tags_display_of(tagsv.take(j as int)));
                }
            }
            proof {
                assert(tagsv.take(m as int) =~~= tagsv);
            }
        },
        None => {
            proof {
                assert(tags_display_of(tagsv) =~= Seq::<char>::empty());
                assert(out@ =~= head + tags_display_of(tagsv));
            }
        },
    }
    let first = out;
    if config.general.content_preview {
        let prev = truncate_string(p.content.as_str(), 100);
        if prev.as_str().unicode_len() > 0 {
            let mut whole = first;
            push_str_chars(&mut whole, "\n");
            push_str_chars(&mut whole, prev.as_str());
            proof {
                assert(whole@ =~= selection_line_of(pv(*p), config.general.content_preview));
            }
            return string_from_chars(&whole);
        }
        proof {
            assert(first@ =~= selection_line_of(pv(*p), config.general.content_preview));
        }
        return string_from_chars(&first);
    }
    proof {
        assert(first@ =~= selection_line_of(pv(*p), config.general.content_preview));
    }
    string_from_chars(&first)
}

/// The index of the first `]:` in `s`, or -1.
pub open spec fn first_desc_end(s: Seq<char>) -> int
    decreases s.len(),
{
    if s.len() < 2 {
        -1
    } else if s[0] == ']' && s[1] == ':' {
        0
    } else {
        let r = first_desc_end(s.skip(1));
        if r < 0 {
            -1
        } else {
            1 + r
        }
    }
}

/// The description a display line carries: the characters between the
/// leading `[` and the first `]:`. Nothing when no `]:` follows at least one
/// character.
pub open spec fn display_desc_of(line: Seq<char>) -> Option<Seq<char>> {
    let e = first_desc_end(line);
    if e >= 1 {
        Option::Some(line.subrange(1, e))
    } else {
        Option::None
    }
}

proof fn lemma_first_desc_end_exact(s: Seq<char>, k: int)
    requires
        0 <= k <= s.len(),
        forall|j: int| 0 <= j < k ==> !(#[trigger] s[j] == ']' && j + 1 < s.len() && s[j + 1] == ':'),
        k < s.len() ==> (s[k] == ']' && k + 1 < s.len() && s[k + 1] == ':'),
    ensures
        k < s.len() ==> first_desc_end(s) == k,
        k == s.len() ==> first_desc_end(s) == -1,
    decreases k, s.len(),
{
    if s.len() < 2 {
    } else if s[0] == ']' && s[1] == ':' {
        assert(k == 0);
    } else {
        assert forall|j: int|
            0 <= j < k - 1 implies !(#[trigger] s.skip(1)[j] == ']' && j + 1 < s.skip(1).len()
                && s.skip(1)[j + 1] == ':') by {
            assert(s.skip(1)[j] == s[j + 1]);
            assert(j + 2 < s.len() ==> s.skip(1)[j + 1] == s[j + 2]);
        }
        if k == 0 {
            if s.len() > 0 {
                assert(s[0] == ']' && 1 < s.len() && s[1] == ':');
                assert(false);
            }
        } else {
            assert(k - 1 < s.skip(1).len() ==> (s.skip(1)[k - 1] == s[k] && (k < s.len() - 1
                ==> s.skip(1)[k] == s[k + 1])));
            lemma_first_desc_end_exact(s.skip(1), k - 1);
        }
    }
}

/// Parse the description out of one display line (the line as given, without
/// splitting). Nothing when the line carries no `]:` after at least one
/// character.
pub fn parse_display_desc(line: &str) -> (r: Option<String>)
    ensures
        ({
            match r {
                Some(d) => display_desc_of(line@) == Option::Some(d@),
                None => display_desc_of(line@) is None,
            }
        }),
{
    let cs = chars_of(line);
    let n: usize = cs.len();
    let mut i: usize = 0;
    while i < n
        invariant
            i <= n,
            n == cs@.len(),
            cs@ == line@,
            forall|j: int| 0 <= j < i ==> !(#[trigger] cs@[j] == ']' && j + 1 < n && cs@[j + 1] == ':'),
        decreases n - i,
    {
        if cs[i] == ']' && i + 1 < n && cs[i + 1] == ':' {
            proof {
                lemma_first_desc_end_exact(line@, i as int);
            }
            if i < 1 {
                return None;
            }
            let mut d: Vec<char> = Vec::new();
            let mut j: usize = 1;
            while j < i
                invariant
                    1 <= j <= i,
                    i < n == cs@.len(),
                    d@ == cs@.subrange(1, j as int),
                decreases i - j,
            {
                d.push(cs[j]);
                j = j + 1;
                proof {
                    assert(d@ =~= cs@.subrange(1, j as int));
                }
            }
            return Some(string_from_chars(&d));
        }
        i = i + 1;
    }
    proof {
        lemma_first_desc_end_exact(line@, n as int);
    }
    None
}

/// The first line of a selected display string, or the string itself when it
/// has no lines (the selected text may hold a multi-line preview).
pub open spec fn first_line_of(s: Seq<char>) -> Seq<char> {
    if lines_of(s).len() == 0 {
        s
    } else {
        lines_of(s)[0]
    }
}

/// Whether a prompt falls under the asked-for category; no category asked
/// for keeps everything.
pub open spec fn cat_ok(p: PromptV, category: Option<Seq<char>>) -> bool {
    match category {
        Option::Some(c) => p.category == Option::Some(c),
        Option::None => true,
    }
}

/// The prompts left after the optional category filter.
pub open spec fn cat_filtered(s: Seq<PromptV>, category: Option<Seq<char>>) -> Seq<PromptV> {
    match category {
        Option::Some(c) => s.filter(|p: PromptV| p.category == Option::Some(c)),
        Option::None => s,
    }
}

/// The prompt views carried by a list of display pairs.
pub open spec fn prompts_of(rs: Seq<(Prompt, String)>) -> Seq<PromptV> {
    rs.map_values(|e: (Prompt, String)| pv(e.0))
}

/// Every element of the category filter's output occurs in its input.
proof fn lemma_cat_filter_subset(s: Seq<PromptV>, cv: Option<Seq<char>>)
    ensures
        forall|v: PromptV| #[trigger] cat_filtered(s, cv).contains(v) ==> s.contains(v),
    decreases s.len(),
{
    reveal(Seq::filter);
    match cv {
        Option::Some(_c) => {
            if s.len() > 0 {
                lemma_cat_filter_subset(s.drop_last(), cv);
                assert forall|v: PromptV| #[trigger]
                    cat_filtered(s, cv).contains(v) implies s.contains(v) by {
                    let f = cat_filtered(s, cv);
                    let k = choose|k: int| 0 <= k < f.len() && #[trigger] f[k] == v;
                    let fd = cat_filtered(s.drop_last(), cv);
                    if k < fd.len() {
                        assert(fd[k] == v);
                        assert(fd.contains(v));
                        assert(s.drop_last().contains(v));
                        let j = choose|j: int|
                            0 <= j < s.drop_last().len() && #[trigger] s.drop_last()[j] == v;
                        assert(s[j] == v);
                    } else {
                        assert(v == s.last());
                        assert(s[s.len() - 1] == v);
                    }
                }
            }
        },
        Option::None => {},
    }
}

/// The category filter keeps every matching element.
proof fn lemma_cat_filter_keeps(s: Seq<PromptV>, cv: Option<Seq<char>>, j: int)
    requires
        0 <= j < s.len(),
        cat_ok(s[j], cv),
    ensures
        cat_filtered(s, cv).contains(s[j]),
{
    match cv {
        Option::Some(_c) => {
            broadcast use vstd::seq_lib::group_filter_ensures;

            assert(cat_filtered(s, cv).contains(s[j]));
        },
        Option::None => {
            assert(s.contains(s[j]));
        },
    }
}

/// The category filter of a sorted sequence is sorted.
proof fn lemma_cat_filter_sorted(s: Seq<PromptV>, cv: Option<Seq<char>>, by: crate::config::SortBy)
    requires
        forall|k: int, l: int|
            0 <= k < l < s.len() ==> crate::prompts::pv_le(#[trigger] s[k], #[trigger] s[l], by),
    ensures
        forall|k: int, l: int|
            0 <= k < l < cat_filtered(s, cv).len() ==> crate::prompts::pv_le(
                #[trigger] cat_filtered(s, cv)[k],
                #[trigger] cat_filtered(s, cv)[l],
                by,
            ),
    decreases s.len(),
{
    reveal(Seq::filter);
    match cv {
        Option::Some(_c) => {
            if s.len() > 0 {
                let d = s.drop_last();
                assert forall|k: int, l: int|
                    0 <= k < l < d.len() implies crate::prompts::pv_le(
                    #[trigger] d[k],
                    #[trigger] d[l],
                    by,
                ) by {
                    assert(d[k] == s[k] && d[l] == s[l]);
                }
                lemma_cat_filter_sorted(d, cv, by);
                lemma_cat_filter_subset(d, cv);
                let f = cat_filtered(s, cv);
                let fd = cat_filtered(d, cv);
                assert forall|k: int, l: int|
                    0 <= k < l < f.len() implies crate::prompts::pv_le(
                    #[trigger] f[k],
                    #[trigger] f[l],
                    by,
                ) by {
                    if l < fd.len() {
                        assert(f[k] == fd[k] && f[l] == fd[l]);
                    } else {
                        assert(f[l] == s.last());
                        assert(f[k] == fd[k]);
                        assert(fd.contains(fd[k]));
                        assert(d.contains(fd[k]));
                        let j = choose|j: int| 0 <= j < d.len() && #[trigger] d[j] == fd[k];
                        assert(s[j] == fd[k]);
                        if s.len() > 1 {
                            assert(crate::prompts::pv_le(s[j], s[s.len() - 1], by));
                        }
                    }
                }
            }
        },
        Option::None => {},
    }
}

/// The search engine over a prompt collection: filtering and the mapping
/// between prompts and their display strings.
pub struct SearchEngine;

impl SearchEngine {
    /// Search prompts with query and tag filtering; see
    /// `PromptCollection::search`.
    pub fn search(collection: &PromptCollection, query: Option<&str>, tag: Option<&str>, config: &Config) -> (r:
        Vec<Prompt>)
        ensures
            ({
                let kept = crate::prompts::tag_filtered(
                    crate::prompts::query_filtered(
                        pviews(collection.prompts@),
                        crate::prompts::opt_view(query),
                        config.general.search_case_sensitive,
                    ),
                    crate::prompts::opt_view(tag),
                );
                pviews(r@).to_multiset() == kept.to_multiset() && (forall|k: int, l: int|
                    0 <= k < l < r@.len() ==> crate::prompts::pv_le(
                        #[trigger] pviews(r@)[k],
                        #[trigger] pviews(r@)[l],
                        config.general.sort_by,
                    ))
            }),
    {
        collection.search(query, tag, config)
    }

    /// Search, filter by category, and pair every surviving prompt with its
    /// display string: the pairs hold exactly the searched prompts of the
    /// asked-for category (in the configured order), each under the display
    /// string built for it.
    #[verifier::rlimit(30)]
    pub fn format_for_selection(
        collection: &PromptCollection,
        query: Option<&str>,
        tag: Option<&str>,
        category: Option<&str>,
        config: &Config,
    ) -> (r: Vec<(Prompt, String)>)
        ensures
            ({
                let kept = crate::prompts::tag_filtered(
                    crate::prompts::query_filtered(
                        pviews(collection.prompts@),
                        crate::prompts::opt_view(query),
                        config.general.search_case_sensitive,
                    ),
                    crate::prompts::opt_view(tag),
                );
                let cv = crate::prompts::opt_view(category);
                &&& forall|k: int|
                    0 <= k < r@.len() ==> (#[trigger] r@[k]).1@ == selection_line_of(
                        pv(r@[k].0),
                        config.general.content_preview,
                    )
                &&& forall|k: int|
                    0 <= k < r@.len() ==> cat_ok(pv((#[trigger] r@[k]).0), cv) && kept.contains(
                        pv(r@[k].0),
                    )
                &&& forall|k: int, l: int|
                    0 <= k < l < r@.len() ==> crate::prompts::pv_le(
                        pv((#[trigger] r@[k]).0),
                        pv((#[trigger] r@[l]).0),
                        config.general.sort_by,
                    )
                &&& forall|i: int|
                    0 <= i < kept.len() && cat_ok(#[trigger] kept[i], cv) ==> exists|k: int|
                        0 <= k < r@.len() && pv((#[trigger] r@[k]).0) == kept[i]
            }),
    {
        let ghost kept = crate::prompts::tag_filtered(
            crate::prompts::query_filtered(
                pviews(collection.prompts@),
                crate::prompts::opt_view(query),
                config.general.search_case_sensitive,
            ),
            crate::prompts::opt_view(tag),
        );
        let ghost cv = crate::prompts::opt_view(category);
        let results = collection.search(query, tag, config);
        let ghost rv = pviews(results@);
        let n: usize = results.len();
        let mut r: Vec<(Prompt, String)> = Vec::new();
        let mut i: usize = 0;
        proof {
            reveal(Seq::filter);
            assert(rv.take(0) =~~= Seq::<PromptV>::empty());
            assert(prompts_of(r@) =~~= cat_filtered(rv.take(0), cv));
        }
        while i < n
            invariant
                i <= n,
                n == results@.len(),
                rv == pviews(results@),
                cv == crate::prompts::opt_view(category),
                prompts_of(r@) == cat_filtered(rv.take(i as int), cv),
                forall|k: int|
                    0 <= k < r@.len() ==> (#[trigger] r@[k]).1@ == selection_line_of(
                        pv(r@[k].0),
                        config.general.content_preview,
                    ),
            decreases n - i,
        {
            let ghost fprev = rv.take(i as int);
            let ghost fnext = rv.take(i as int + 1);
            proof {
                reveal(Seq::filter);
                assert(fnext.drop_last() =~~= fprev);
                assert(fnext.last() == pv(results@[i as int]));
            }
            let keep = match category {
                Some(c) => match &results[i].category {
                    Some(pc) => crate::text::eq_str(pc.as_str(), c),
                    None => false,
                },
                None => true,
            };
            proof {
                assert(keep == cat_ok(pv(results@[i as int]), cv));
            }
            if keep {
                let line = format_prompt_for_selection(&results[i], config);
                let ghost prev = r@;
                let p = crate::prompts::copy_prompt(&results[i]);
                r.push((p, line));
                proof {
                    reveal(Seq::filter);
                    assert(prompts_of(r@) =~~= prompts_of(prev).push(pv(results@[i as int])));
                    assert(prompts_of(r@) =~~= cat_filtered(fnext, cv));
                }
            } else {
                proof {
                    reveal(Seq::filter);
                    assert(prompts_of(r@) =~~= cat_filtered(fnext, cv));
                }
            }
            i = i + 1;
        }
        proof {
            broadcast use vstd::seq_lib::group_to_multiset_ensures;

            assert(rv.take(n as int) =~~= rv);
            let f = prompts_of(r@);
            lemma_cat_filter_subset(rv, cv);
            lemma_cat_filter_sorted(rv, cv, config.general.sort_by);
            assert forall|k: int|
                0 <= k < r@.len() implies cat_ok(pv((#[trigger] r@[k]).0), cv) && kept.contains(
                pv(r@[k].0),
            ) by {
                assert(f[k] == pv(r@[k].0));
                assert(cat_ok(f[k], cv));
                assert(f.contains(f[k]));
                assert(cat_filtered(rv, cv).contains(f[k]));
                assert(rv.contains(f[k]));
                assert(rv.to_multiset().count(f[k]) > 0);
                assert(kept.to_multiset().count(f[k]) > 0);
            }
            assert forall|k: int, l: int|
                0 <= k < l < r@.len() implies crate::prompts::pv_le(
                pv((#[trigger] r@[k]).0),
                pv((#[trigger] r@[l]).0),
                config.general.sort_by,
            ) by {
                assert(f[k] == pv(r@[k].0) && f[l] == pv(r@[l].0));
            }
            assert forall|t: int|
                0 <= t < kept.len() && cat_ok(#[trigger] kept[t], cv) implies exists|k: int|
                0 <= k < r@.len() && pv((#[trigger] r@[k]).0) == kept[t] by {
                assert(kept.contains(kept[t]));
                assert(kept.to_multiset().count(kept[t]) > 0);
                assert(rv.to_multiset().count(kept[t]) > 0);
                assert(rv.contains(kept[t]));
                let j = choose|j: int| 0 <= j < rv.len() && #[trigger] rv[j] == kept[t];
                lemma_cat_filter_keeps(rv, cv, j);
                assert(f.contains(kept[t]));
                let k = choose|k: int| 0 <= k < f.len() && #[trigger] f[k] == kept[t];
                assert(pv(r@[k].0) == kept[t]);
            }
        }
        r
    }

    /// The index of the prompt a selected display line names: the first
    /// prompt whose description equals the text between the leading `[` and
    /// the first `]:` of the line's first line.
    pub fn find_by_display_line(prompts: &Vec<Prompt>, selected_line: &str) -> (r: Option<usize>)
        ensures
            ({
                match display_desc_of(first_line_of(selected_line@)) {
                    Option::Some(d) => {
                        let j = crate::prompts::idx_by_desc(prompts@, d);
                        if j >= 0 {
                            r == Some(j as usize)
                        } else {
                            r is None
                        }
                    },
                    Option::None => r is None,
                }
            }),
    {
        let cs = chars_of(selected_line);
        let ls = crate::text::lines_strings(&cs);
        let first: String = if ls.len() == 0 {
            selected_line.to_owned()
        } else {
            ls[0].clone()
        };
        proof {
            assert(first@ == first_line_of(selected_line@));
        }
        let desc = match parse_display_desc(first.as_str()) {
            Some(d) => d,
            None => {
                return None;
            },
        };
        let n: usize = prompts.len();
        let mut i: usize = 0;
        while i < n
            invariant
                i <= n,
                n == prompts@.len(),
                display_desc_of(first_line_of(selected_line@)) == Option::Some(desc@),
                forall|j: int| 0 <= j < i ==> !matches_desc(#[trigger] prompts@[j], desc@),
            decreases n - i,
        {
            if crate::text::eq_str(prompts[i].description.as_str(), desc.as_str()) {
                proof {
                    crate::prompts::lemma_idx_by_desc_exact(prompts@, desc@, i as int);
                }
                return Some(i);
            }
            i = i + 1;
        }
        proof {
            crate::prompts::lemma_idx_by_desc_exact(prompts@, desc@, n as int);
        }
        None
    }
}

} // verus!
