//! Character-level text utilities shared by the whole library.
//!
//! Executable code works on `Vec<char>` and `String`; contracts speak about
//! `Seq<char>` views.

use vstd::prelude::*;

verus! {

/// What `str::to_lowercase` returns for a given character sequence.
/// The full Unicode lowercase mapping is far too large to state here, so the
/// result is only given a name; contracts built on it stay exact.
pub uninterp spec fn lower_of(s: Seq<char>) -> Seq<char>;

/// Relies on `str::to_lowercase`: the result is a function of the input
/// characters alone; it is empty exactly when the input is empty (each input
/// character maps to at least one output character).
#[verifier::external_body]
pub fn fold_case(s: &str) -> (r: String)
    ensures
        r@ == lower_of(s@),
        s@.len() == 0 <==> r@.len() == 0,
{
    s.to_lowercase()
}

/// Relies on `String::from_iter` (via `Iterator::collect`): collecting
/// characters yields the string with exactly those characters.
#[verifier::external_body]
pub fn string_from_chars(v: &Vec<char>) -> (r: String)
    ensures
        r@ == v@,
{
    v.iter().collect()
}

/// The characters of a string slice, as a vector.
pub fn chars_of(s: &str) -> (r: Vec<char>)
    ensures
        r@ == s@,
{
    let n: usize = s.unicode_len();
    let mut r: Vec<char> = Vec::new();
    let mut i: usize = 0;
    while i < n
        invariant
            i <= n,
            n == s@.len(),
            r@ == s@.subrange(0, i as int),
        decreases n - i,
    {
        r.push(s.get_char(i));
        i = i + 1;
        proof {
            assert(r@ =~= s@.subrange(0, i as int));
        }
    }
    proof {
        assert(r@ =~= s@);
    }
    r
}
/// The Unicode `White_Space` characters, as `char::is_whitespace` lists them.
pub open spec fn is_ws(c: char) -> bool {
    c == ' ' || c == '\t' || c == '\n' || c == '\r' || c == '\u{b}' || c == '\u{c}'
        || c == '\u{85}' || c == '\u{a0}' || c == '\u{1680}'
        || ('\u{2000}' <= c && c <= '\u{200a}')
        || c == '\u{2028}' || c == '\u{2029}' || c == '\u{202f}' || c == '\u{205f}'
        || c == '\u{3000}'
}

/// Executable check for `is_ws`.
pub fn is_ws_char(c: char) -> (r: bool)
    ensures
        r == is_ws(c),
{
    c == ' ' || c == '\t' || c == '\n' || c == '\r' || c == '\u{b}' || c == '\u{c}'
        || c == '\u{85}' || c == '\u{a0}' || c == '\u{1680}'
        || ('\u{2000}' <= c && c <= '\u{200a}')
        || c == '\u{2028}' || c == '\u{2029}' || c == '\u{202f}' || c == '\u{205f}'
        || c == '\u{3000}'
}

/// How many leading characters of `s` are whitespace.
pub open spec fn ws_prefix_len(s: Seq<char>) -> nat
    decreases s.len(),
{
    if s.len() == 0 || !is_ws(s[0]) {
        0
    } else {
        1 + ws_prefix_len(s.skip(1))
    }
}

/// How many trailing characters of `s` are whitespace.
pub open spec fn ws_suffix_len(s: Seq<char>) -> nat
    decreases s.len(),
{
    if s.len() == 0 || !is_ws(s[s.len() - 1]) {
        0
    } else {
        1 + ws_suffix_len(s.take(s.len() - 1))
    }
}

/// `s` with leading and trailing whitespace removed, as `str::trim` leaves it.
pub open spec fn trim_of(s: Seq<char>) -> Seq<char> {
    if ws_prefix_len(s) == s.len() {
        Seq::empty()
    } else {
        s.subrange(ws_prefix_len(s) as int, s.len() - ws_suffix_len(s))
    }
}

proof fn lemma_ws_prefix_le(s: Seq<char>)
    ensures
        ws_prefix_len(s) <= s.len(),
        forall|i: int| 0 <= i < ws_prefix_len(s) ==> is_ws(#[trigger] s[i]),
        ws_prefix_len(s) < s.len() ==> !is_ws(s[ws_prefix_len(s) as int]),
    decreases s.len(),
{
    if s.len() > 0 && is_ws(s[0]) {
        lemma_ws_prefix_le(s.skip(1));
        assert forall|i: int| 0 <= i < ws_prefix_len(s) implies is_ws(#[trigger] s[i]) by {
            if i > 0 {
                assert(s.skip(1)[i - 1] == s[i]);
            }
        }
    }
}

proof fn lemma_ws_suffix_le(s: Seq<char>)
    ensures
        ws_suffix_len(s) <= s.len(),
        forall|i: int| s.len() - ws_suffix_len(s) <= i < s.len() ==> is_ws(#[trigger] s[i]),
        ws_suffix_len(s) < s.len() ==> !is_ws(s[s.len() - ws_suffix_len(s) - 1]),
    decreases s.len(),
{
    if s.len() > 0 && is_ws(s[s.len() - 1]) {
        let t = s.take(s.len() - 1);
        lemma_ws_suffix_le(t);
        assert forall|i: int| s.len() - ws_suffix_len(s) <= i < s.len() implies is_ws(
            #[trigger] s[i],
        ) by {
            if i < s.len() - 1 {
                assert(t[i] == s[i]);
            }
        }
    }
}

/// The trimmed copy of a character vector.
pub fn trim_chars(v: &Vec<char>) -> (r: Vec<char>)
    ensures
        r@ == trim_of(v@),
{
    proof {
        lemma_ws_prefix_le(v@);
        lemma_ws_suffix_le(v@);
    }
    let n: usize = v.len();
    let mut start: usize = 0;
    while start < n && is_ws_char(v[start])
        invariant
            start <= n,
            n == v@.len(),
            forall|i: int| 0 <= i < start ==> is_ws(#[trigger] v@[i]),
            start <= ws_prefix_len(v@),
        decreases n - start,
    {
        proof {
            lemma_ws_prefix_step(v@, start as int);
        }
        start = start + 1;
    }
    proof {
        lemma_ws_prefix_exact(v@, start as int);
    }
    if start == n {
        let r: Vec<char> = Vec::new();
        proof {
            assert(r@ =~= trim_of(v@));
        }
        return r;
    }
    let mut end: usize = n;
    while end > start && is_ws_char(v[end - 1])
        invariant
            start < end <= n,
            n == v@.len(),
            !is_ws(v@[start as int]),
            forall|i: int| end <= i < n ==> is_ws(#[trigger] v@[i]),
            n - end <= ws_suffix_len(v@),
        decreases end,
    {
        proof {
            lemma_ws_suffix_step(v@, (n - end) as int);
        }
        end = end - 1;
    }
    proof {
        lemma_ws_suffix_exact(v@, (n - end) as int);
    }
    let mut r: Vec<char> = Vec::new();
    let mut i: usize = start;
    while i < end
        invariant
            start <= i <= end <= n,
            n == v@.len(),
            r@ == v@.subrange(start as int, i as int),
        decreases end - i,
    {
        r.push(v[i]);
        i = i + 1;
        proof {
            assert(r@ =~= v@.subrange(start as int, i as int));
        }
    }
    proof {
        assert(r@ =~= trim_of(v@));
    }
    r
}

/// If the first `k` characters are whitespace and `s[k]` is whitespace too,
/// then the whitespace prefix is longer than `k`.
proof fn lemma_ws_prefix_step(s: Seq<char>, k: int)
    requires
        0 <= k < s.len(),
        forall|i: int| 0 <= i < k ==> is_ws(#[trigger] s[i]),
        is_ws(s[k]),
    ensures
        ws_prefix_len(s) >= k + 1,
    decreases k,
{
    if k > 0 {
        assert forall|i: int| 0 <= i < k - 1 implies is_ws(#[trigger] s.skip(1)[i]) by {
            assert(s.skip(1)[i] == s[i + 1]);
        }
        assert(s.skip(1)[k - 1] == s[k]);
        lemma_ws_prefix_step(s.skip(1), k - 1);
    }
}

/// If the first `k` characters are whitespace and either the string ends at
/// `k` or `s[k]` is not whitespace, the whitespace prefix is exactly `k`.
proof fn lemma_ws_prefix_exact(s: Seq<char>, k: int)
    requires
        0 <= k <= s.len(),
        forall|i: int| 0 <= i < k ==> is_ws(#[trigger] s[i]),
        k < s.len() ==> !is_ws(s[k]),
    ensures
        ws_prefix_len(s) == k,
    decreases k,
{
    lemma_ws_prefix_le(s);
    if k > 0 {
        assert forall|i: int| 0 <= i < k - 1 implies is_ws(#[trigger] s.skip(1)[i]) by {
            assert(s.skip(1)[i] == s[i + 1]);
        }
        assert(k - 1 < s.skip(1).len() ==> s.skip(1)[k - 1] == s[k]);
        lemma_ws_prefix_exact(s.skip(1), k - 1);
    }
}

/// The mirror of `lemma_ws_prefix_step` for the suffix.
proof fn lemma_ws_suffix_step(s: Seq<char>, k: int)
    requires
        0 <= k,
        k < s.len(),
        forall|i: int| s.len() - k <= i < s.len() ==> is_ws(#[trigger] s[i]),
        is_ws(s[s.len() - k - 1]),
    ensures
        ws_suffix_len(s) >= k + 1,
    decreases k,
{
    if k > 0 {
        let t = s.take(s.len() - 1);
        assert forall|i: int| t.len() - (k - 1) <= i < t.len() implies is_ws(#[trigger] t[i]) by {
            assert(t[i] == s[i]);
        }
        assert(t[t.len() - (k - 1) - 1] == s[s.len() - k - 1]);
        lemma_ws_suffix_step(t, k - 1);
    }
}

/// The mirror of `lemma_ws_prefix_exact` for the suffix.
proof fn lemma_ws_suffix_exact(s: Seq<char>, k: int)
    requires
        0 <= k <= s.len(),
        forall|i: int| s.len() - k <= i < s.len() ==> is_ws(#[trigger] s[i]),
        k < s.len() ==> !is_ws(s[s.len() - k - 1]),
    ensures
        ws_suffix_len(s) == k,
    decreases k,
{
    lemma_ws_suffix_le(s);
    if k > 0 {
        let t = s.take(s.len() - 1);
        assert forall|i: int| t.len() - (k - 1) <= i < t.len() implies is_ws(#[trigger] t[i]) by {
            assert(t[i] == s[i]);
        }
        lemma_ws_suffix_exact(t, k - 1);
    }
}
/// The views of a vector of strings.
pub open spec fn views_of(ss: Seq<String>) -> Seq<Seq<char>> {
    ss.map_values(|s: String| s@)
}

/// Appending a string appends its view.
pub proof fn lemma_views_push(ss: Seq<String>, s: String)
    ensures
        views_of(ss.push(s)) == views_of(ss).push(s@),
{
    assert(views_of(ss.push(s)) =~~= views_of(ss).push(s@));
}

/// The index of the first occurrence of `sep` in `s`, or `s.len()` if absent.
pub open spec fn first_index_of(s: Seq<char>, sep: char) -> nat
    decreases s.len(),
{
    if s.len() == 0 {
        0
    } else if s[0] == sep {
        0
    } else {
        1 + first_index_of(s.skip(1), sep)
    }
}

pub proof fn lemma_first_index_of_pub(s: Seq<char>, sep: char)
    ensures
        first_index_of(s, sep) <= s.len(),
        forall|i: int| 0 <= i < first_index_of(s, sep) ==> #[trigger] s[i] != sep,
        first_index_of(s, sep) < s.len() ==> s[first_index_of(s, sep) as int] == sep,
    decreases s.len(),
{
    if s.len() > 0 && s[0] != sep {
        lemma_first_index_of_pub(s.skip(1), sep);
        assert forall|i: int| 0 <= i < first_index_of(s, sep) implies #[trigger] s[i] != sep by {
            if i > 0 {
                assert(s.skip(1)[i - 1] == s[i]);
            }
        }
    }
}

/// Appending a character moves the first separator index in the obvious way.
proof fn lemma_first_index_push(s: Seq<char>, sep: char, c: char)
    ensures
        first_index_of(s.push(c), sep) == if first_index_of(s, sep) == s.len() {
            if c == sep {
                s.len() as int
            } else {
                s.len() + 1 as int
            }
        } else {
            first_index_of(s, sep) as int
        },
    decreases s.len(),
{
    lemma_first_index_of_pub(s, sep);
    if s.len() == 0 {
        assert(s.push(c)[0] == c);
        assert(s.push(c).skip(1) =~= Seq::<char>::empty());
        assert(first_index_of(Seq::<char>::empty(), sep) == 0);
        if c == sep {
            assert(first_index_of(s.push(c), sep) == 0);
        } else {
            assert(first_index_of(s.push(c), sep) == 1);
        }
    } else {
        assert(s.push(c)[0] == s[0]);
        assert(s.push(c).len() == s.len() + 1);
        if s[0] == sep {
            assert(first_index_of(s, sep) == 0);
            assert(first_index_of(s.push(c), sep) == 0);
        } else {
            assert(s.push(c).skip(1) =~= s.skip(1).push(c));
            lemma_first_index_push(s.skip(1), sep, c);
            assert(first_index_of(s.push(c), sep) == 1 + first_index_of(s.skip(1).push(c), sep));
            assert(first_index_of(s, sep) == 1 + first_index_of(s.skip(1), sep));
        }
    }
}

/// `s` split on `sep`: the (possibly empty) stretches between separators.
/// An empty `s` gives one empty part, as `str::split` does.
pub open spec fn split_on(s: Seq<char>, sep: char) -> Seq<Seq<char>>
    decreases s.len(),
{
    let k = first_index_of(s, sep);
    if k >= s.len() {
        seq![s]
    } else {
        seq![s.take(k as int)] + split_on(s.skip(k as int + 1), sep)
    }
}

/// `parts` joined with `sep` between consecutive parts.
pub open spec fn join_with(parts: Seq<Seq<char>>, sep: char) -> Seq<char>
    decreases parts.len(),
{
    if parts.len() == 0 {
        Seq::empty()
    } else if parts.len() == 1 {
        parts[0]
    } else {
        parts[0] + seq![sep] + join_with(parts.skip(1), sep)
    }
}

proof fn lemma_split_push_nonsep(s: Seq<char>, sep: char, c: char)
    requires
        c != sep,
    ensures
        split_on(s, sep).len() > 0,
        split_on(s.push(c), sep) == split_on(s, sep).update(
            split_on(s, sep).len() - 1,
            split_on(s, sep).last().push(c),
        ),
    decreases s.len(),
{
    lemma_first_index_of_pub(s, sep);
    lemma_first_index_push(s, sep, c);
    let k = first_index_of(s, sep);
    if k == s.len() {
        assert(s.push(c).take(s.len() as int + 1) =~= s.push(c));
        assert(split_on(s.push(c), sep) =~= split_on(s, sep).update(0, s.push(c)));
    } else {
        assert(s.push(c).take(k as int) =~= s.take(k as int));
        assert(s.push(c).skip(k as int + 1) =~= s.skip(k as int + 1).push(c));
        lemma_split_push_nonsep(s.skip(k as int + 1), sep, c);
        assert(split_on(s.push(c), sep) =~= split_on(s, sep).update(
            split_on(s, sep).len() - 1,
            split_on(s, sep).last().push(c),
        ));
    }
}

proof fn lemma_split_push_sep(s: Seq<char>, sep: char)
    ensures
        split_on(s.push(sep), sep) == split_on(s, sep).push(Seq::empty()),
    decreases s.len(),
{
    lemma_first_index_of_pub(s, sep);
    lemma_first_index_push(s, sep, sep);
    let k = first_index_of(s, sep);
    if k == s.len() {
        assert(s.push(sep).take(k as int) =~= s);
        assert(s.push(sep).skip(k as int + 1) =~= Seq::<char>::empty());
        assert(first_index_of(Seq::<char>::empty(), sep) == 0);
        assert(split_on(Seq::<char>::empty(), sep) == seq![Seq::<char>::empty()]);
        assert(split_on(s.push(sep), sep) =~= split_on(s, sep).push(Seq::empty()));
    } else {
        assert(s.push(sep).take(k as int) =~= s.take(k as int));
        assert(s.push(sep).skip(k as int + 1) =~= s.skip(k as int + 1).push(sep));
        lemma_split_push_sep(s.skip(k as int + 1), sep);
        assert(split_on(s.push(sep), sep) =~= split_on(s, sep).push(Seq::empty()));
    }
}

/// `v` split on `sep`, each part as its own string.
pub fn split_on_char(v: &Vec<char>, sep: char) -> (r: Vec<String>)
    ensures
        views_of(r@) == split_on(v@, sep),
        r@.len() >= 1,
{
    let n: usize = v.len();
    let mut parts: Vec<String> = Vec::new();
    let mut cur: Vec<char> = Vec::new();
    let mut i: usize = 0;
    proof {
        assert(v@.take(0) =~= Seq::<char>::empty());
        assert(first_index_of(Seq::<char>::empty(), sep) == 0);
        assert(split_on(v@.take(0), sep) =~~= views_of(parts@).push(cur@));
    }
    while i < n
        invariant
            i <= n,
            n == v@.len(),
            split_on(v@.take(i as int), sep) == views_of(parts@).push(cur@),
        decreases n - i,
    {
        let c = v[i];
        proof {
            assert(v@.take(i as int + 1) =~= v@.take(i as int).push(v@[i as int]));
        }
        if c == sep {
            proof {
                lemma_split_push_sep(v@.take(i as int), sep);
            }
            parts.push(string_from_chars(&cur));
            cur = Vec::new();
            proof {
                assert(views_of(parts@).push(cur@) =~= split_on(v@.take(i as int + 1), sep));
            }
        } else {
            proof {
                lemma_split_push_nonsep(v@.take(i as int), sep, c);
            }
            cur.push(c);
            proof {
                assert(views_of(parts@).push(cur@) =~= split_on(v@.take(i as int + 1), sep));
            }
        }
        i = i + 1;
    }
    parts.push(string_from_chars(&cur));
    proof {
        assert(v@.take(n as int) =~= v@);
        assert(views_of(parts@) =~= split_on(v@, sep));
    }
    parts
}

proof fn lemma_join_push(parts: Seq<Seq<char>>, sep: char, x: Seq<char>)
    ensures
        join_with(parts.push(x), sep) == if parts.len() == 0 {
            x
        } else {
            join_with(parts, sep) + seq![sep] + x
        },
    decreases parts.len(),
{
    if parts.len() == 0 {
        assert(parts.push(x) =~= seq![x]);
    } else {
        assert(parts.push(x).skip(1) =~= parts.skip(1).push(x));
        lemma_join_push(parts.skip(1), sep, x);
        if parts.len() == 1 {
            assert(join_with(parts.push(x), sep) =~= join_with(parts, sep) + seq![sep] + x);
        } else {
            assert(join_with(parts.push(x), sep) =~= join_with(parts, sep) + seq![sep] + x);
        }
    }
}

/// `parts` joined into one string with `sep` between consecutive parts.
pub fn join_strings(parts: &Vec<String>, sep: char) -> (r: String)
    ensures
        r@ == join_with(views_of(parts@), sep),
{
    let n: usize = parts.len();
    let mut cur: Vec<char> = Vec::new();
    let mut i: usize = 0;
    while i < n
        invariant
            i <= n,
            n == parts@.len(),
            cur@ == join_with(views_of(parts@).take(i as int), sep),
        decreases n - i,
    {
        if i > 0 {
            cur.push(sep);
        }
        let cs = chars_of(parts[i].as_str());
        let mut j: usize = 0;
        let m: usize = cs.len();
        let ghost base = cur@;
        while j < m
            invariant
                j <= m,
                m == cs@.len(),
                cur@ == base + cs@.take(j as int),
            decreases m - j,
        {
            cur.push(cs[j]);
            j = j + 1;
            proof {
                assert(cur@ =~= base + cs@.take(j as int));
            }
        }
        proof {
            assert(cs@.take(m as int) =~= parts@[i as int]@);
            lemma_join_push(views_of(parts@).take(i as int), sep, parts@[i as int]@);
            assert(views_of(parts@).take(i as int).push(parts@[i as int]@) =~= views_of(
                parts@,
            ).take(i as int + 1));
        }
        i = i + 1;
    }
    proof {
        assert(views_of(parts@).take(n as int) =~= views_of(parts@));
    }
    string_from_chars(&cur)
}
/// One line with a trailing carriage return removed, as `str::lines` yields it.
pub open spec fn strip_cr(l: Seq<char>) -> Seq<char> {
    if l.len() > 0 && l[l.len() - 1] == '\r' {
        l.take(l.len() - 1)
    } else {
        l
    }
}

/// The lines of `s`, as `str::lines` yields them: split at `\n`, a trailing
/// `\r` of each line removed, and a final line ending optional.
pub open spec fn lines_of(s: Seq<char>) -> Seq<Seq<char>> {
    if s.len() == 0 {
        Seq::empty()
    } else {
        let p = split_on(s, '\n');
        let q = if s[s.len() - 1] == '\n' {
            p.take(p.len() - 1)
        } else {
            p
        };
        q.map_values(|l: Seq<char>| strip_cr(l))
    }
}

/// The number of lines of `s`, as `str::lines` counts them.
pub open spec fn line_count(s: Seq<char>) -> nat {
    lines_of(s).len()
}

proof fn lemma_split_on_len(s: Seq<char>, sep: char)
    ensures
        split_on(s, sep).len() >= 1,
        s.len() > 0 && s[s.len() - 1] == sep ==> split_on(s, sep).len() >= 2,
    decreases s.len(),
{
    lemma_first_index_of_pub(s, sep);
    let k = first_index_of(s, sep);
    if k < s.len() {
        lemma_split_on_len(s.skip(k as int + 1), sep);
        if s.len() > 0 && s[s.len() - 1] == sep {
            if k as int + 1 <= s.len() - 1 {
                assert(s.skip(k as int + 1)[s.len() - k - 2] == s[s.len() - 1]);
            }
        }
    }
}

/// The lines of `v`, each as its own string.
pub fn lines_strings(v: &Vec<char>) -> (r: Vec<String>)
    ensures
        views_of(r@) == lines_of(v@),
{
    proof {
        lemma_split_on_len(v@, '\n');
    }
    if v.len() == 0 {
        let r: Vec<String> = Vec::new();
        proof {
            assert(views_of(r@) =~~= lines_of(v@));
        }
        return r;
    }
    let mut parts = split_on_char(v, '\n');
    if v[v.len() - 1] == '\n' {
        let _last = parts.pop();
        proof {
            assert(views_of(parts@) =~~= split_on(v@, '\n').take(split_on(v@, '\n').len() - 1));
        }
    }
    let n: usize = parts.len();
    let mut r: Vec<String> = Vec::new();
    let mut i: usize = 0;
    while i < n
        invariant
            i <= n,
            n == parts@.len(),
            r@.len() == i,
            forall|j: int| 0 <= j < i ==> #[trigger] r@[j]@ == strip_cr(parts@[j]@),
        decreases n - i,
    {
        let mut cs = chars_of(parts[i].as_str());
        if cs.len() > 0 && cs[cs.len() - 1] == '\r' {
            let _c = cs.pop();
        }
        proof {
            assert(cs@ == strip_cr(parts@[i as int]@));
        }
        r.push(string_from_chars(&cs));
        i = i + 1;
    }
    proof {
        assert(views_of(r@) =~~= lines_of(v@));
    }
    r
}

/// No part a split yields contains the separator it was split on.
pub proof fn lemma_split_parts_free(s: Seq<char>, sep: char)
    ensures
        forall|k: int|
            0 <= k < split_on(s, sep).len() ==> !(#[trigger] split_on(s, sep)[k]).contains(sep),
    decreases s.len(),
{
    lemma_first_index_of_pub(s, sep);
    let j = first_index_of(s, sep);
    if j >= s.len() {
        assert forall|k: int|
            0 <= k < split_on(s, sep).len() implies !(#[trigger] split_on(s, sep)[k]).contains(
            sep,
        ) by {
            if split_on(s, sep)[k].contains(sep) {
                let t = choose|t: int| 0 <= t < s.len() && #[trigger] s[t] == sep;
            }
        }
    } else {
        let rest = s.skip(j as int + 1);
        lemma_split_parts_free(rest, sep);
        assert forall|k: int|
            0 <= k < split_on(s, sep).len() implies !(#[trigger] split_on(s, sep)[k]).contains(
            sep,
        ) by {
            if k == 0 {
                if split_on(s, sep)[0].contains(sep) {
                    let t = choose|t: int|
                        0 <= t < j && #[trigger] s.take(j as int)[t] == sep;
                    assert(s[t] == sep);
                }
            } else {
                assert(split_on(s, sep)[k] == split_on(rest, sep)[k - 1]);
            }
        }
    }
}

/// No line `str::lines` yields contains a newline.
pub proof fn lemma_lines_newline_free(s: Seq<char>)
    ensures
        forall|k: int|
            0 <= k < lines_of(s).len() ==> !(#[trigger] lines_of(s)[k]).contains('\n'),
{
    if s.len() > 0 {
        lemma_split_parts_free(s, '\n');
        let p = split_on(s, '\n');
        assert forall|k: int|
            0 <= k < lines_of(s).len() implies !(#[trigger] lines_of(s)[k]).contains('\n') by {
            assert(lines_of(s)[k] == strip_cr(
                if s[s.len() - 1] == '\n' {
                    p.take(p.len() - 1)[k]
                } else {
                    p[k]
                },
            ));
            let base = if s[s.len() - 1] == '\n' {
                p.take(p.len() - 1)[k]
            } else {
                p[k]
            };
            assert(base == p[k]);
            assert(!p[k].contains('\n'));
            if lines_of(s)[k].contains('\n') {
                let t = choose|t: int|
                    0 <= t < strip_cr(base).len() && #[trigger] strip_cr(base)[t] == '\n';
                assert(base[t] == '\n');
            }
        }
    }
}

/// Whether `p` is a prefix of `s`.
pub open spec fn is_prefix_of(p: Seq<char>, s: Seq<char>) -> bool {
    p.len() <= s.len() && s.take(p.len() as int) == p
}

/// Whether the characters of `p` open the characters of `s`.
pub fn starts_with_chars(s: &Vec<char>, p: &Vec<char>) -> (r: bool)
    ensures
        r == is_prefix_of(p@, s@),
{
    if p.len() > s.len() {
        return false;
    }
    let n: usize = p.len();
    let mut i: usize = 0;
    while i < n
        invariant
            i <= n,
            n == p@.len() <= s@.len(),
            forall|j: int| 0 <= j < i ==> s@[j] == p@[j],
        decreases n - i,
    {
        if s[i] != p[i] {
            proof {
                assert(s@.take(n as int)[i as int] != p@[i as int]);
            }
            return false;
        }
        i = i + 1;
    }
    proof {
        assert(s@.take(n as int) =~= p@);
    }
    true
}

/// Whether `needle` occurs contiguously inside `hay`.
pub open spec fn has_substring(hay: Seq<char>, needle: Seq<char>) -> bool {
    exists|i: int|
        0 <= i <= hay.len() - needle.len() && #[trigger] hay.subrange(i, i + needle.len())
            == needle
}

/// Substring search over character vectors.
pub fn contains_chars(hay: &Vec<char>, needle: &Vec<char>) -> (r: bool)
    ensures
        r == has_substring(hay@, needle@),
{
    let m: usize = needle.len();
    let n: usize = hay.len();
    if m > n {
        return false;
    }
    if m == 0 {
        proof {
            assert(hay@.subrange(0, 0 + needle@.len() as int) =~= needle@);
        }
        return true;
    }
    let mut i: usize = 0;
    while i <= n - m
        invariant
            0 <= i <= n - m + 1,
            1 <= m <= n,
            m == needle@.len(),
            n == hay@.len(),
            forall|j: int| 0 <= j < i ==> #[trigger] hay@.subrange(j, j + m) != needle@,
        decreases n - i,
    {
        let mut k: usize = 0;
        let mut hit = true;
        while k < m
            invariant
                0 <= k <= m,
                i + m <= n,
                m == needle@.len(),
                n == hay@.len(),
                hit ==> forall|l: int| 0 <= l < k ==> hay@[i + l] == needle@[l],
                !hit ==> hay@.subrange(i as int, i + m) != needle@,
            decreases m - k,
        {
            if hay[i + k] != needle[k] {
                proof {
                    assert(hay@.subrange(i as int, i + m)[k as int] != needle@[k as int]);
                }
                hit = false;
                k = m;
            } else {
                k = k + 1;
            }
        }
        if hit {
            proof {
                assert(hay@.subrange(i as int, i + m) =~= needle@);
            }
            return true;
        }
        i = i + 1;
    }
    proof {
        assert forall|j: int| 0 <= j <= hay@.len() - needle@.len() implies #[trigger] hay@
            .subrange(j, j + needle@.len()) != needle@ by {}
    }
    false
}

/// The index of the first occurrence of `sep` in `v`, or `v.len()` if absent.
pub fn index_of_char(v: &Vec<char>, sep: char) -> (r: usize)
    ensures
        r as nat == first_index_of(v@, sep),
        r <= v@.len(),
        forall|i: int| 0 <= i < r ==> v@[i] != sep,
        r < v@.len() ==> v@[r as int] == sep,
{
    proof {
        lemma_first_index_of_pub(v@, sep);
    }
    let n: usize = v.len();
    let mut i: usize = 0;
    while i < n
        invariant
            i <= n,
            n == v@.len(),
            forall|j: int| 0 <= j < i ==> v@[j] != sep,
        decreases n - i,
    {
        if v[i] == sep {
            proof {
                lemma_first_index_exact_pub(v@, sep, i as int);
            }
            return i;
        }
        i = i + 1;
    }
    proof {
        lemma_first_index_exact_pub(v@, sep, n as int);
    }
    n
}

/// If the first `k` characters differ from `sep` and either the string ends
/// there or `s[k] == sep`, then `k` is the first occurrence index.
pub proof fn lemma_first_index_exact_pub(s: Seq<char>, sep: char, k: int)
    requires
        0 <= k <= s.len(),
        forall|i: int| 0 <= i < k ==> s[i] != sep,
        k < s.len() ==> s[k] == sep,
    ensures
        first_index_of(s, sep) == k,
    decreases k,
{
    lemma_first_index_of_pub(s, sep);
    if k > 0 {
        assert forall|i: int| 0 <= i < k - 1 implies s.skip(1)[i] != sep by {
            assert(s.skip(1)[i] == s[i + 1]);
        }
        assert(k - 1 < s.skip(1).len() ==> s.skip(1)[k - 1] == s[k]);
        lemma_first_index_exact_pub(s.skip(1), sep, k - 1);
    }
}

/// The concatenation of two string slices.
pub fn concat_str(a: &str, b: &str) -> (r: String)
    ensures
        r@ == a@ + b@,
{
    let mut out = chars_of(a);
    let tail = chars_of(b);
    let n: usize = tail.len();
    let mut i: usize = 0;
    let ghost base = out@;
    while i < n
        invariant
            i <= n,
            n == tail@.len(),
            out@ == base + tail@.take(i as int),
        decreases n - i,
    {
        out.push(tail[i]);
        i = i + 1;
        proof {
            assert(out@ =~= base + tail@.take(i as int));
        }
    }
    proof {
        assert(tail@.take(n as int) =~= tail@);
        assert(out@ =~= a@ + b@);
    }
    string_from_chars(&out)
}

/// Whether two string slices hold the same characters.
pub fn eq_str(a: &str, b: &str) -> (r: bool)
    ensures
        r == (a@ == b@),
{
    let an: usize = a.unicode_len();
    let bn: usize = b.unicode_len();
    if an != bn {
        return false;
    }
    let mut i: usize = 0;
    while i < an
        invariant
            i <= an,
            an == a@.len(),
            an == b@.len(),
            forall|j: int| 0 <= j < i ==> a@[j] == b@[j],
        decreases an - i,
    {
        if a.get_char(i) != b.get_char(i) {
            return false;
        }
        i = i + 1;
    }
    proof {
        assert(a@ =~= b@);
    }
    true
}

/// Splitting at a separator placed after a separator-free prefix yields the
/// prefix and then the split of the rest.
pub proof fn lemma_split_concat(a: Seq<char>, sep: char, t: Seq<char>)
    requires
        first_index_of(a, sep) == a.len(),
    ensures
        split_on(a + seq![sep] + t, sep) == seq![a] + split_on(t, sep),
    decreases a.len(),
{
    let s = a + seq![sep] + t;
    lemma_first_index_of_pub(a, sep);
    lemma_prefix_first_index(a, sep, t);
    assert(s.take(a.len() as int) =~= a);
    assert(s.skip(a.len() as int + 1) =~= t);
    assert(split_on(s, sep) =~= seq![a] + split_on(t, sep));
}

/// The first separator in a separator-free prefix followed by the separator
/// sits exactly at the end of the prefix.
proof fn lemma_prefix_first_index(a: Seq<char>, sep: char, t: Seq<char>)
    requires
        first_index_of(a, sep) == a.len(),
    ensures
        first_index_of(a + seq![sep] + t, sep) == a.len(),
{
    lemma_first_index_of_pub(a, sep);
    let s = a + seq![sep] + t;
    assert(s[a.len() as int] == sep);
    assert forall|i: int| 0 <= i < a.len() implies s[i] != sep by {
        assert(s[i] == a[i]);
    }
    lemma_first_index_exact_pub(s, sep, a.len() as int);
}

/// Lexicographic order on character sequences, by Unicode scalar value.
pub open spec fn lex_le(a: Seq<char>, b: Seq<char>) -> bool
    decreases a.len(),
{
    if a.len() == 0 {
        true
    } else if b.len() == 0 {
        false
    } else if a[0] == b[0] {
        lex_le(a.skip(1), b.skip(1))
    } else {
        a[0] < b[0]
    }
}

/// Lexicographic comparison of two strings.
pub fn string_le(a: &str, b: &str) -> (r: bool)
    ensures
        r == lex_le(a@, b@),
{
    let an: usize = a.unicode_len();
    let bn: usize = b.unicode_len();
    let mut i: usize = 0;
    proof {
        assert(a@.skip(0) =~= a@);
        assert(b@.skip(0) =~= b@);
    }
    loop
        invariant
            0 <= i <= an,
            i <= bn,
            an == a@.len(),
            bn == b@.len(),
            lex_le(a@, b@) == lex_le(a@.skip(i as int), b@.skip(i as int)),
        decreases an - i,
    {
        if i == an {
            return true;
        }
        if i == bn {
            return false;
        }
        let ca = a.get_char(i);
        let cb = b.get_char(i);
        if ca != cb {
            return ca < cb;
        }
        proof {
            assert(a@.skip(i as int).skip(1) =~= a@.skip(i as int + 1));
            assert(b@.skip(i as int).skip(1) =~= b@.skip(i as int + 1));
        }
        i = i + 1;
    }
}

/// Selection sort (by repeated removal of a least element) for strings:
/// the same strings as views, in lexicographic order.
pub fn sort_strings(v: Vec<String>) -> (r: Vec<String>)
    ensures
        views_of(r@).to_multiset() == views_of(v@).to_multiset(),
        forall|k: int, l: int|
            0 <= k < l < r@.len() ==> lex_le(#[trigger] views_of(r@)[k], #[trigger] views_of(r@)[l]),
{
    let mut work = v;
    let mut out: Vec<String> = Vec::new();
    proof {
        broadcast use vstd::seq_lib::group_to_multiset_ensures;

        assert(views_of(out@).to_multiset().add(views_of(work@).to_multiset()) =~= views_of(
            v@,
        ).to_multiset());
    }
    while work.len() > 0
        invariant
            views_of(out@).to_multiset().add(views_of(work@).to_multiset()) == views_of(
                v@,
            ).to_multiset(),
            forall|k: int, l: int|
                0 <= k < l < out@.len() ==> lex_le(
                    #[trigger] views_of(out@)[k],
                    #[trigger] views_of(out@)[l],
                ),
            forall|k: int, l: int|
                0 <= k < out@.len() && 0 <= l < work@.len() ==> lex_le(
                    #[trigger] views_of(out@)[k],
                    #[trigger] views_of(work@)[l],
                ),
        decreases work@.len(),
    {
        let n: usize = work.len();
        let mut best: usize = 0;
        let mut k: usize = 1;
        proof {
            lemma_lex_total(views_of(work@)[0], views_of(work@)[0]);
        }
        while k < n
            invariant
                1 <= k <= n,
                best < k,
                n == work@.len(),
                forall|t: int|
                    0 <= t < k ==> lex_le(views_of(work@)[best as int], #[trigger] views_of(
                        work@,
                    )[t]),
            decreases n - k,
        {
            if !string_le(work[best].as_str(), work[k].as_str()) {
                proof {
                    lemma_lex_total(views_of(work@)[best as int], views_of(work@)[k as int]);
                    lemma_lex_total(views_of(work@)[k as int], views_of(work@)[k as int]);
                    assert forall|t: int| 0 <= t < k + 1 implies lex_le(
                        views_of(work@)[k as int],
                        #[trigger] views_of(work@)[t],
                    ) by {
                        if t < k {
                            lemma_lex_trans(
                                views_of(work@)[k as int],
                                views_of(work@)[best as int],
                                views_of(work@)[t],
                            );
                        }
                    }
                }
                best = k;
            }
            k = k + 1;
        }
        let ghost oldwork = work@;
        let ghost oldout = out@;
        let x = work.remove(best);
        proof {
            broadcast use vstd::seq_lib::group_to_multiset_ensures;

            assert(views_of(work@) =~~= views_of(oldwork).remove(best as int));
        }
        out.push(x);
        proof {
            broadcast use vstd::seq_lib::group_to_multiset_ensures;

            assert(views_of(out@) =~~= views_of(oldout).push(x@));
            assert(x@ == views_of(oldwork)[best as int]);
            assert(views_of(out@).to_multiset().add(views_of(work@).to_multiset()) =~= views_of(
                v@,
            ).to_multiset());
            assert forall|kk: int, ll: int|
                0 <= kk < ll < out@.len() implies lex_le(
                #[trigger] views_of(out@)[kk],
                #[trigger] views_of(out@)[ll],
            ) by {
                if ll < out@.len() - 1 {
                    assert(views_of(out@)[kk] == views_of(oldout)[kk]);
                    assert(views_of(out@)[ll] == views_of(oldout)[ll]);
                } else {
                    assert(views_of(out@)[kk] == views_of(oldout)[kk]);
                    assert(views_of(out@)[ll] == views_of(oldwork)[best as int]);
                }
            }
            assert forall|kk: int, ll: int|
                0 <= kk < out@.len() && 0 <= ll < work@.len() implies lex_le(
                #[trigger] views_of(out@)[kk],
                #[trigger] views_of(work@)[ll],
            ) by {
                let prev_l: int = if ll < best as int {
                    ll
                } else {
                    ll + 1
                };
                assert(views_of(work@)[ll] == views_of(oldwork)[prev_l]);
                if kk < out@.len() - 1 {
                    assert(views_of(out@)[kk] == views_of(oldout)[kk]);
                } else {
                    assert(views_of(out@)[kk] == views_of(oldwork)[best as int]);
                }
            }
        }
    }
    proof {
        broadcast use vstd::seq_lib::group_to_multiset_ensures;

        assert(views_of(work@).to_multiset() =~= vstd::multiset::Multiset::<Seq<char>>::empty());
        assert(views_of(out@).to_multiset() =~= views_of(v@).to_multiset());
    }
    out
}

/// Drop adjacent duplicates out of a sorted string list: strictly ascending
/// output holding exactly the distinct input strings.
pub fn dedup_sorted_strings(v: Vec<String>) -> (r: Vec<String>)
    requires
        forall|k: int, l: int|
            0 <= k < l < v@.len() ==> lex_le(#[trigger] views_of(v@)[k], #[trigger] views_of(v@)[l]),
    ensures
        forall|k: int, l: int|
            0 <= k < l < r@.len() ==> lex_le(#[trigger] views_of(r@)[k], #[trigger] views_of(r@)[l])
                && views_of(r@)[k] != views_of(r@)[l],
        forall|x: Seq<char>| views_of(r@).contains(x) <==> views_of(v@).contains(x),
{
    let n: usize = v.len();
    let mut r: Vec<String> = Vec::new();
    let mut i: usize = 0;
    while i < n
        invariant
            i <= n,
            n == v@.len(),
            forall|k: int, l: int|
                0 <= k < l < v@.len() ==> lex_le(
                    #[trigger] views_of(v@)[k],
                    #[trigger] views_of(v@)[l],
                ),
            forall|k: int, l: int|
                0 <= k < l < r@.len() ==> lex_le(
                    #[trigger] views_of(r@)[k],
                    #[trigger] views_of(r@)[l],
                ) && views_of(r@)[k] != views_of(r@)[l],
            forall|x: Seq<char>|
                views_of(r@).contains(x) <==> views_of(v@).take(i as int).contains(x),
            i == 0 ==> r@.len() == 0,
            i > 0 ==> r@.len() > 0 && views_of(r@).last() == views_of(v@)[i - 1],
        decreases n - i,
    {
        let take_it = if r.len() == 0 {
            true
        } else {
            !eq_str(r[r.len() - 1].as_str(), v[i].as_str())
        };
        let ghost prev = r@;
        if take_it {
            r.push(v[i].clone());
            proof {
                assert(views_of(r@) =~~= views_of(prev).push(v@[i as int]@));
                assert forall|k: int, l: int| 0 <= k < l < r@.len() implies lex_le(
                    #[trigger] views_of(r@)[k],
                    #[trigger] views_of(r@)[l],
                ) && views_of(r@)[k] != views_of(r@)[l] by {
                    if l < r@.len() - 1 {
                        assert(views_of(r@)[k] == views_of(prev)[k]);
                        assert(views_of(r@)[l] == views_of(prev)[l]);
                    } else {
                        assert(views_of(r@)[l] == views_of(v@)[i as int]);
                        assert(views_of(r@)[k] == views_of(prev)[k]);
                        let last = views_of(prev).len() - 1;
                        assert(views_of(prev)[last] == views_of(v@)[i - 1]);
                        assert(lex_le(views_of(v@)[i - 1], views_of(v@)[i as int]));
                        if k < last {
                            assert(lex_le(views_of(prev)[k], views_of(prev)[last]));
                            lemma_lex_trans(
                                views_of(prev)[k],
                                views_of(prev)[last],
                                views_of(v@)[i as int],
                            );
                            if views_of(prev)[k] == views_of(v@)[i as int] {
                                lemma_lex_total(views_of(prev)[last], views_of(v@)[i as int]);
                                lemma_lex_trans(
                                    views_of(prev)[last],
                                    views_of(v@)[i as int],
                                    views_of(prev)[k],
                                );
                                lemma_lex_total(views_of(prev)[k], views_of(prev)[last]);
                            }
                        }
                    }
                }
                assert forall|x: Seq<char>| views_of(r@).contains(x) <==> views_of(v@).take(
                    i as int + 1,
                ).contains(x) by {
                    if views_of(r@).contains(x) {
                        let j = choose|j: int|
                            0 <= j < views_of(r@).len() && views_of(r@)[j] == x;
                        if j < views_of(prev).len() {
                            assert(views_of(prev).contains(x));
                            let jj = choose|jj: int|
                                0 <= jj < i && views_of(v@).take(i as int)[jj] == x;
                            assert(views_of(v@).take(i as int + 1)[jj] == x);
                        } else {
                            assert(views_of(v@).take(i as int + 1)[i as int] == x);
                        }
                    }
                    if views_of(v@).take(i as int + 1).contains(x) {
                        let j = choose|j: int|
                            0 <= j <= i as int && #[trigger] views_of(v@).take(i as int + 1)[j]
                                == x;
                        if j < i {
                            assert(views_of(v@).take(i as int)[j] == x);
                            assert(views_of(prev).contains(x));
                            let jj = choose|jj: int|
                                0 <= jj < views_of(prev).len() && views_of(prev)[jj] == x;
                            assert(views_of(r@)[jj] == x);
                        } else {
                            assert(views_of(r@).last() == x);
                        }
                    }
                }
            }
        } else {
            proof {
                assert(views_of(r@).last() == views_of(v@)[i as int]);
                assert forall|x: Seq<char>| views_of(r@).contains(x) <==> views_of(v@).take(
                    i as int + 1,
                ).contains(x) by {
                    if views_of(r@).contains(x) {
                        let jj = choose|jj: int|
                            0 <= jj < i && views_of(v@).take(i as int)[jj] == x;
                        assert(views_of(v@).take(i as int + 1)[jj] == x);
                    }
                    if views_of(v@).take(i as int + 1).contains(x) {
                        let j = choose|j: int|
                            0 <= j <= i as int && #[trigger] views_of(v@).take(i as int + 1)[j]
                                == x;
                        if j < i {
                            assert(views_of(v@).take(i as int)[j] == x);
                        } else {
                            assert(x == views_of(v@)[i as int]);
                            assert(views_of(r@).contains(x));
                        }
                    }
                }
            }
        }
        i = i + 1;
    }
    proof {
        assert(views_of(v@).take(n as int) =~~= views_of(v@));
    }
    r
}

/// `lex_le` is total: two sequences always compare one way or the other.
pub proof fn lemma_lex_total(a: Seq<char>, b: Seq<char>)
    ensures
        lex_le(a, b) || lex_le(b, a),
        lex_le(a, b) && lex_le(b, a) ==> a == b,
    decreases a.len(),
{
    if a.len() > 0 && b.len() > 0 && a[0] == b[0] {
        lemma_lex_total(a.skip(1), b.skip(1));
        if lex_le(a, b) && lex_le(b, a) {
            assert(a.skip(1) == b.skip(1));
            assert forall|i: int| 0 <= i < a.len() implies a[i] == b[i] by {
                if i > 0 {
                    assert(a.skip(1)[i - 1] == a[i]);
                    assert(b.skip(1)[i - 1] == b[i]);
                }
            }
            assert(a =~= b);
        }
    }
}

/// `lex_le` is transitive.
pub proof fn lemma_lex_trans(a: Seq<char>, b: Seq<char>, c: Seq<char>)
    requires
        lex_le(a, b),
        lex_le(b, c),
    ensures
        lex_le(a, c),
    decreases a.len(),
{
    if a.len() > 0 && b.len() > 0 && c.len() > 0 {
        if a[0] == b[0] && b[0] == c[0] {
            lemma_lex_trans(a.skip(1), b.skip(1), c.skip(1));
        }
    }
}

/// A character-wise case-insensitive match of ASCII letters.
pub open spec fn ascii_eq_ic(c: char, d: char) -> bool {
    c == d || ('A' <= c && c <= 'Z' && d as u32 == c as u32 + 32) || ('A' <= d && d <= 'Z' && c
        as u32 == d as u32 + 32)
}

/// Whether two character sequences match ignoring ASCII letter case.
pub open spec fn eq_ignore_ascii_case(a: Seq<char>, b: Seq<char>) -> bool {
    a.len() == b.len() && forall|i: int| 0 <= i < a.len() ==> ascii_eq_ic(a[i], #[trigger] b[i])
}

/// What a yes/no answer means once trimmed: `y`/`yes` is yes, `n`/`no` and
/// an empty answer are no, anything else is not an answer.
pub open spec fn yes_no_of(t: Seq<char>) -> Option<bool> {
    if eq_ignore_ascii_case(t, "y"@) || eq_ignore_ascii_case(t, "yes"@) {
        Option::Some(true)
    } else if t.len() == 0 || eq_ignore_ascii_case(t, "n"@) || eq_ignore_ascii_case(t, "no"@) {
        Option::Some(false)
    } else {
        Option::None
    }
}

/// Executable check for `eq_ignore_ascii_case` against a literal.
pub fn eq_ic_chars(a: &Vec<char>, b: &str) -> (r: bool)
    ensures
        r == eq_ignore_ascii_case(a@, b@),
{
    let bn: usize = b.unicode_len();
    if a.len() != bn {
        return false;
    }
    let mut i: usize = 0;
    while i < bn
        invariant
            i <= bn,
            bn == b@.len(),
            bn == a@.len(),
            forall|j: int| 0 <= j < i ==> ascii_eq_ic(a@[j], #[trigger] b@[j]),
        decreases bn - i,
    {
        let c = a[i];
        let d = b.get_char(i);
        let same = c == d || ('A' <= c && c <= 'Z' && d as u32 == c as u32 + 32) || ('A' <= d && d
            <= 'Z' && c as u32 == d as u32 + 32);
        if !same {
            proof {
                assert(!ascii_eq_ic(a@[i as int], b@[i as int]));
            }
            return false;
        }
        proof {
            assert(ascii_eq_ic(a@[i as int], b@[i as int]));
        }
        i = i + 1;
    }
    true
}

} // verus!
