//! The bridge to an external fuzzy-finder process (such as fzf, skim or
//! peco): command splitting, the NUL-delimited candidate protocol, and the
//! parsing of the finder's answer.
//!
//! Spawning the process, feeding its input and collecting its output happen
//! outside the library; the library decides what to send, and what every
//! possible answer means. An unavailable executable is a fallback signal
//! ("no result"), never an error, so callers can try the built-in selector.

use vstd::prelude::*;

use crate::error::AppError;
use crate::text::{
    chars_of, concat_str, eq_str, is_ws, lemma_split_concat, lines_of, lines_strings, split_on,
    split_on_char, string_from_chars, trim_chars, trim_of, views_of,
};

verus! {

// ------------------------------------------------------------------
// Command splitting
// ------------------------------------------------------------------
/// The whitespace-separated words of `s`, accumulated left to right: `cur`
/// is the word being read.
pub open spec fn words_rec(s: Seq<char>, cur: Seq<char>) -> Seq<Seq<char>>
    decreases s.len(),
{
    if s.len() == 0 {
        if cur.len() > 0 {
            seq![cur]
        } else {
            Seq::empty()
        }
    } else if is_ws(s[0]) {
        (if cur.len() > 0 {
            seq![cur]
        } else {
            Seq::empty()
        }) + words_rec(s.skip(1), Seq::empty())
    } else {
        words_rec(s.skip(1), cur.push(s[0]))
    }
}

/// The whitespace-separated words of `s`, as `str::split_whitespace` yields
/// them.
pub open spec fn words_of(s: Seq<char>) -> Seq<Seq<char>> {
    words_rec(s, Seq::empty())
}

/// Split a selector command into its words: the executable first, then its
/// fixed arguments.
pub fn split_command(cmd: &str) -> (r: Vec<String>)
    ensures
        views_of(r@) == words_of(cmd@),
{
    let cs = chars_of(cmd);
    let n: usize = cs.len();
    let mut words: Vec<String> = Vec::new();
    let mut cur: Vec<char> = Vec::new();
    let mut i: usize = 0;
    proof {
        assert(cs@.skip(0) =~= cs@);
        assert(views_of(words@) + words_rec(cs@.skip(0), cur@) =~~= words_of(cmd@));
    }
    while i < n
        invariant
            i <= n,
            n == cs@.len(),
            cs@ == cmd@,
            words_of(cmd@) == views_of(words@) + words_rec(cs@.skip(i as int), cur@),
        decreases n - i,
    {
        proof {
            assert(cs@.skip(i as int)[0] == cs@[i as int]);
            assert(cs@.skip(i as int).skip(1) =~= cs@.skip(i as int + 1));
        }
        let c = cs[i];
        if crate::text::is_ws_char(c) {
            if cur.len() > 0 {
                let ghost prev = words@;
                let ghost oldcur = cur@;
                let w = string_from_chars(&cur);
                proof {
                    crate::text::lemma_views_push(prev, w);
                }
                words.push(w);
                cur = Vec::new();
                proof {
                    assert(words_rec(cs@.skip(i as int), oldcur) =~~= seq![oldcur] + words_rec(
                        cs@.skip(i as int + 1),
                        cur@,
                    ));
                    assert(views_of(prev) + (seq![oldcur] + words_rec(
                        cs@.skip(i as int + 1),
                        cur@,
                    )) =~~= views_of(words@) + words_rec(cs@.skip(i as int + 1), cur@));
                }
            } else {
                proof {
                    assert(cur@ =~= Seq::<char>::empty());
                    assert(words_rec(cs@.skip(i as int), cur@) =~~= words_rec(
                        cs@.skip(i as int + 1),
                        cur@,
                    ));
                }
            }
        } else {
            cur.push(c);
        }
        i = i + 1;
    }
    proof {
        assert(cs@.skip(n as int) =~= Seq::<char>::empty());
    }
    if cur.len() > 0 {
        let ghost prev = words@;
        let w = string_from_chars(&cur);
        proof {
            crate::text::lemma_views_push(prev, w);
        }
        words.push(w);
        proof {
            assert(views_of(words@) =~~= words_of(cmd@));
        }
    } else {
        proof {
            assert(views_of(words@) =~~= words_of(cmd@));
        }
    }
    words
}

// ------------------------------------------------------------------
// The NUL-delimited candidate protocol
// ------------------------------------------------------------------
/// The byte stream (as characters) written to the finder's input: every
/// candidate followed by one NUL. Candidates may contain newlines; NUL keeps
/// the records unambiguous.
pub open spec fn nul_encode(items: Seq<Seq<char>>) -> Seq<char>
    decreases items.len(),
{
    if items.len() == 0 {
        Seq::empty()
    } else {
        items[0] + seq!['\0'] + nul_encode(items.skip(1))
    }
}

/// The records a NUL-aware reader recovers from such a stream: the stretches
/// before each NUL, with a final unterminated stretch kept as a record.
pub open spec fn nul_decode(s: Seq<char>) -> Seq<Seq<char>> {
    if s.len() == 0 {
        Seq::empty()
    } else if s[s.len() - 1] == '\0' {
        split_on(s, '\0').drop_last()
    } else {
        split_on(s, '\0')
    }
}

proof fn lemma_encode_push(items: Seq<Seq<char>>, x: Seq<char>)
    ensures
        nul_encode(items.push(x)) == nul_encode(items) + x + seq!['\0'],
    decreases items.len(),
{
    if items.len() == 0 {
        assert(items.push(x)[0] == x);
        assert(items.push(x).skip(1) =~~= Seq::<Seq<char>>::empty());
        assert(nul_encode(Seq::<Seq<char>>::empty()) =~= Seq::<char>::empty());
        assert(nul_encode(items.push(x)) =~= nul_encode(items) + x + seq!['\0']);
    } else {
        let h = items[0];
        let rest = items.skip(1);
        assert(items.push(x)[0] == h);
        assert(items.push(x).skip(1) =~~= rest.push(x));
        lemma_encode_push(rest, x);
        assert(nul_encode(items.push(x)) == h + seq!['\0'] + nul_encode(rest.push(x)));
        assert(nul_encode(items) == h + seq!['\0'] + nul_encode(rest));
        assert(h + seq!['\0'] + (nul_encode(rest) + x + seq!['\0']) =~= (h + seq!['\0']
            + nul_encode(rest)) + x + seq!['\0']);
    }
}

/// Encode the candidate list for the finder's input.
pub fn encode_candidates(items: &Vec<String>) -> (r: String)
    ensures
        r@ == nul_encode(views_of(items@)),
{
    let n: usize = items.len();
    let mut out: Vec<char> = Vec::new();
    let mut i: usize = 0;
    proof {
        assert(out@ =~= nul_encode(views_of(items@).take(0)));
    }
    while i < n
        invariant
            i <= n,
            n == items@.len(),
            out@ == nul_encode(views_of(items@).take(i as int)),
        decreases n - i,
    {
        let cs = chars_of(items[i].as_str());
        let m: usize = cs.len();
        let mut j: usize = 0;
        let ghost base = out@;
        while j < m
            invariant
                j <= m,
                m == cs@.len(),
                out@ == base + cs@.take(j as int),
            decreases m - j,
        {
            out.push(cs[j]);
            j = j + 1;
            proof {
                assert(out@ =~= base + cs@.take(j as int));
            }
        }
        out.push('\0');
        i = i + 1;
        proof {
            assert(cs@.take(m as int) =~= cs@);
            lemma_encode_push(views_of(items@).take(i - 1), items@[i - 1]@);
            assert(views_of(items@).take(i - 1).push(items@[i - 1]@) =~~= views_of(items@).take(
                i as int,
            ));
            assert(out@ =~= nul_encode(views_of(items@).take(i as int)));
        }
    }
    proof {
        assert(views_of(items@).take(n as int) =~~= views_of(items@));
    }
    string_from_chars(&out)
}

/// Recover the records from an encoded stream.
pub fn decode_candidates(stream: &str) -> (r: Vec<String>)
    ensures
        views_of(r@) == nul_decode(stream@),
{
    let cs = chars_of(stream);
    if cs.len() == 0 {
        let r: Vec<String> = Vec::new();
        proof {
            assert(views_of(r@) =~~= nul_decode(stream@));
        }
        return r;
    }
    let mut parts = split_on_char(&cs, '\0');
    if cs[cs.len() - 1] == '\0' {
        let _last = parts.pop();
        proof {
            assert(views_of(parts@) =~~= split_on(stream@, '\0').drop_last());
        }
    }
    proof {
        assert(views_of(parts@) =~~= nul_decode(stream@));
    }
    parts
}

/// A NUL never occurs inside `s` (only possibly as a terminator the encoder
/// adds).
pub open spec fn nul_free(s: Seq<char>) -> bool {
    forall|j: int| 0 <= j < s.len() ==> s[j] != '\0'
}

proof fn lemma_nul_free_first_index(s: Seq<char>)
    requires
        nul_free(s),
    ensures
        crate::text::first_index_of(s, '\0') == s.len(),
    decreases s.len(),
{
    if s.len() > 0 {
        assert forall|j: int| 0 <= j < s.skip(1).len() implies s.skip(1)[j] != '\0' by {
            assert(s.skip(1)[j] == s[j + 1]);
        }
        lemma_nul_free_first_index(s.skip(1));
    }
}

proof fn lemma_encode_last(items: Seq<Seq<char>>)
    requires
        items.len() > 0,
    ensures
        nul_encode(items).len() > 0,
        nul_encode(items)[nul_encode(items).len() - 1] == '\0',
    decreases items.len(),
{
    if items.len() == 1 {
        assert(nul_encode(items.skip(1)) =~= Seq::<char>::empty());
    } else {
        lemma_encode_last(items.skip(1));
    }
}

/// The round trip of the candidate protocol: as long as no candidate itself
/// contains a NUL, a NUL-aware reader recovers exactly the candidate list —
/// in particular, a candidate with an embedded newline stays one record.
pub proof fn lemma_nul_round_trip(items: Seq<Seq<char>>)
    requires
        forall|k: int| 0 <= k < items.len() ==> nul_free(#[trigger] items[k]),
    ensures
        nul_decode(nul_encode(items)) == items,
    decreases items.len(),
{
    if items.len() == 0 {
    } else {
        let x = items[0];
        let rest = items.skip(1);
        let s = nul_encode(items);
        lemma_encode_last(items);
        lemma_nul_free_first_index(x);
        lemma_split_concat(x, '\0', nul_encode(rest));
        if rest.len() == 0 {
            assert(nul_encode(rest) =~= Seq::<char>::empty());
            assert(split_on(s, '\0') =~~= seq![x, Seq::<char>::empty()]);
            assert(nul_decode(s) =~~= items);
        } else {
            lemma_nul_round_trip(rest);
            lemma_encode_last(rest);
            assert(split_on(s, '\0') =~~= seq![x] + split_on(nul_encode(rest), '\0'));
            assert(split_on(s, '\0').drop_last() =~~= seq![x] + split_on(
                nul_encode(rest),
                '\0',
            ).drop_last());
            assert(nul_decode(s) =~~= items);
        }
    }
}

// ------------------------------------------------------------------
// The finder's answer
// ------------------------------------------------------------------
/// What the finder's exit status and standard output mean. With the
/// key-reporting flag the finder prints two lines on success: the key that
/// ended the session, then the selected candidate. A failing exit status
/// (the user quit inside the tool), fewer than two lines, or an
/// empty-after-trimming selection all mean "nothing selected".
pub open spec fn parse_output_spec(exit_ok: bool, out: Seq<char>) -> Option<Seq<char>> {
    if !exit_ok {
        Option::None
    } else {
        let ls = lines_of(out);
        if ls.len() < 2 {
            Option::None
        } else {
            let sel = trim_of(ls[1]);
            if sel.len() == 0 {
                Option::None
            } else {
                Option::Some(sel)
            }
        }
    }
}

/// Parse the finder's answer into the selected candidate text, if any.
pub fn parse_finder_output(exit_ok: bool, output: &str) -> (r: Option<String>)
    ensures
        ({
            let m = parse_output_spec(exit_ok, output@);
            match r {
                Some(s) => m matches Some(t) && s@ == t,
                None => m is None,
            }
        }),
{
    if !exit_ok {
        return None;
    }
    let cs = chars_of(output);
    let ls = lines_strings(&cs);
    if ls.len() < 2 {
        return None;
    }
    let second = chars_of(ls[1].as_str());
    let sel = trim_chars(&second);
    if sel.len() == 0 {
        None
    } else {
        proof {
            assert(views_of(ls@)[1] == lines_of(output@)[1]);
        }
        Some(string_from_chars(&sel))
    }
}

/// The whole outcome decision of one finder call: an executable that could
/// not be found or probed gives "no result" (so the caller can fall back to
/// the built-in selector), and otherwise the answer is parsed as above.
pub fn find_result(available: bool, exit_ok: bool, stdout_text: &str) -> (r: Option<String>)
    ensures
        !available ==> r is None,
        available ==> ({
            let m = parse_output_spec(exit_ok, stdout_text@);
            match r {
                Some(s) => m matches Some(t) && s@ == t,
                None => m is None,
            }
        }),
{
    if !available {
        return None;
    }
    parse_finder_output(exit_ok, stdout_text)
}

// ------------------------------------------------------------------
// Invocation planning
// ------------------------------------------------------------------
/// The convenience flags appended for known finders. fzf gets layout hints,
/// the NUL-separated input flag, and the flag that makes it report which key
/// ended the session alongside the chosen line; both fzf and peco get the
/// initial query when one is given. Unknown finders get nothing.
pub open spec fn extra_args_spec(program: Seq<char>, query: Option<Seq<char>>) -> Seq<Seq<char>> {
    if program == "fzf"@ {
        let base = seq![
            "--height=40%"@,
            "--layout=reverse"@,
            "--border"@,
            "--inline-info"@,
            "--prompt=o "@,
            "--read0"@,
            "--ansi"@,
            "--expect=ctrl-c,esc"@,
        ];
        match query {
            Option::Some(q) => base.push("--query="@ + q),
            Option::None => base,
        }
    } else if program == "peco"@ {
        match query {
            Option::Some(q) => seq!["--query"@, q],
            Option::None => Seq::empty(),
        }
    } else {
        Seq::empty()
    }
}

/// The convenience flags for this finder executable and initial query.
pub fn finder_extra_args(program: &str, initial_query: &Option<String>) -> (r: Vec<String>)
    ensures
        views_of(r@) == extra_args_spec(
            program@,
            match initial_query {
                Option::Some(q) => Option::Some(q@),
                Option::None => Option::None,
            },
        ),
{
    let mut r: Vec<String> = Vec::new();
    if eq_str(program, "fzf") {
        r.push(String::from_str("--height=40%"));
        r.push(String::from_str("--layout=reverse"));
        r.push(String::from_str("--border"));
        r.push(String::from_str("--inline-info"));
        r.push(String::from_str("--prompt=o "));
        r.push(String::from_str("--read0"));
        r.push(String::from_str("--ansi"));
        r.push(String::from_str("--expect=ctrl-c,esc"));
        match initial_query {
            Some(q) => {
                r.push(concat_str("--query=", q.as_str()));
            },
            None => {},
        }
        proof {
            assert(views_of(r@) =~~= extra_args_spec(
                program@,
                match initial_query {
                    Option::Some(q) => Option::Some(q@),
                    Option::None => Option::None,
                },
            ));
        }
    } else if eq_str(program, "peco") {
        match initial_query {
            Some(q) => {
                r.push(String::from_str("--query"));
                r.push(q.clone());
            },
            None => {},
        }
        proof {
            assert(views_of(r@) =~~= extra_args_spec(
                program@,
                match initial_query {
                    Option::Some(q) => Option::Some(q@),
                    Option::None => Option::None,
                },
            ));
        }
    } else {
        proof {
            assert(views_of(r@) =~~= extra_args_spec(
                program@,
                match initial_query {
                    Option::Some(q) => Option::Some(q@),
                    Option::None => Option::None,
                },
            ));
        }
    }
    r
}

/// Everything the process runner needs for one finder call: the executable,
/// its arguments (the command's own, then the convenience flags), and the
/// encoded candidate stream to write to its input.
pub struct FinderInvocation {
    pub program: String,
    pub args: Vec<String>,
    pub payload: String,
}

/// Plan one finder call. An empty candidate list needs no call at all
/// (`Ok(None)`); a selector command without an executable word is a system
/// error; otherwise the words after the executable and the convenience
/// flags make up the arguments, and the payload is the NUL-encoded
/// candidate list.
pub fn plan_finder(items: &Vec<String>, selector_command: &str, initial_query: &Option<String>) -> (r:
    Result<Option<FinderInvocation>, AppError>)
    ensures
        items@.len() == 0 ==> (r matches Ok(o) && o is None),
        items@.len() > 0 && words_of(selector_command@).len() == 0 ==> (r matches Err(e) && (
        e matches AppError::System(m) && m@ == "Invalid select command: "@ + selector_command@)),
        items@.len() > 0 && words_of(selector_command@).len() > 0 ==> (r matches Ok(o) && (
        o matches Some(inv) && {
            let ws = words_of(selector_command@);
            let q = match initial_query {
                Option::Some(s) => Option::Some(s@),
                Option::None => Option::None,
            };
            &&& inv.program@ == ws[0]
            &&& views_of(inv.args@) == ws.skip(1) + extra_args_spec(ws[0], q)
            &&& inv.payload@ == nul_encode(views_of(items@))
        })),
{
    if items.len() == 0 {
        return Ok(None);
    }
    let words = split_command(selector_command);
    if words.len() == 0 {
        return Err(
            AppError::System(concat_str("Invalid select command: ", selector_command)),
        );
    }
    let program = words[0].clone();
    let mut args: Vec<String> = Vec::new();
    let n: usize = words.len();
    let mut i: usize = 1;
    while i < n
        invariant
            1 <= i <= n,
            n == words@.len(),
            views_of(words@) == words_of(selector_command@),
            views_of(args@) == words_of(selector_command@).skip(1).take(i - 1),
        decreases n - i,
    {
        let ghost prev = args@;
        let w = words[i].clone();
        proof {
            crate::text::lemma_views_push(prev, w);
        }
        args.push(w);
        i = i + 1;
        proof {
            assert(views_of(args@) =~~= words_of(selector_command@).skip(1).take(i - 1));
        }
    }
    proof {
        assert(words_of(selector_command@).skip(1).take(n - 1) =~~= words_of(
            selector_command@,
        ).skip(1));
    }
    let extra = finder_extra_args(program.as_str(), initial_query);
    let m: usize = extra.len();
    let mut k: usize = 0;
    let ghost qv = match initial_query {
        Option::Some(s) => Option::Some(s@),
        Option::None => Option::<Seq<char>>::None,
    };
    while k < m
        invariant
            k <= m,
            m == extra@.len(),
            views_of(extra@) == extra_args_spec(words_of(selector_command@)[0], qv),
            views_of(args@) == words_of(selector_command@).skip(1) + views_of(extra@).take(
                k as int,
            ),
        decreases m - k,
    {
        let ghost prev = args@;
        let w = extra[k].clone();
        proof {
            crate::text::lemma_views_push(prev, w);
        }
        args.push(w);
        k = k + 1;
        proof {
            assert(views_of(args@) =~~= words_of(selector_command@).skip(1) + views_of(
                extra@,
            ).take(k as int));
        }
    }
    proof {
        assert(views_of(extra@).take(m as int) =~~= views_of(extra@));
    }
    let payload = encode_candidates(items);
    Ok(Some(FinderInvocation { program, args, payload }))
}

/// Which selector command to configure, from the probe results for the
/// known finders: the first available of fzf, sk and peco, and fzf as the
/// default assumption when none is installed.
pub fn pick_select_command(fzf: bool, sk: bool, peco: bool) -> (r: String)
    ensures
        fzf ==> r@ == "fzf"@,
        !fzf && sk ==> r@ == "sk"@,
        !fzf && !sk && peco ==> r@ == "peco"@,
        !fzf && !sk && !peco ==> r@ == "fzf"@,
{
    if fzf {
        String::from_str("fzf")
    } else if sk {
        String::from_str("sk")
    } else if peco {
        String::from_str("peco")
    } else {
        String::from_str("fzf")
    }
}

/// The index of the first candidate whose display string equals the selected
/// line, recovering the original item from the finder's verbatim answer.
pub fn recover_index(items: &Vec<String>, selected: &str) -> (r: Option<usize>)
    ensures
        ({
            match r {
                Some(i) => i < items@.len() && items@[i as int]@ == selected@ && forall|j: int|
                    0 <= j < i ==> items@[j]@ != selected@,
                None => forall|j: int| 0 <= j < items@.len() ==> items@[j]@ != selected@,
            }
        }),
{
    let n: usize = items.len();
    let mut i: usize = 0;
    while i < n
        invariant
            i <= n,
            n == items@.len(),
            forall|j: int| 0 <= j < i ==> items@[j]@ != selected@,
        decreases n - i,
    {
        if eq_str(items[i].as_str(), selected) {
            return Some(i);
        }
        i = i + 1;
    }
    None
}

} // verus!
