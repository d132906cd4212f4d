//! Variables inside prompt content: the `<name>` / `<name=default>`
//! placeholders, their extraction, their substitution, and the parsing of
//! `key=value` arguments.
//!
//! A placeholder opens with `<`, carries a name of at least one character
//! free of `>` and `=`, optionally an `=` and a default free of `>`, and
//! closes with `>`. Placeholders are found left to right and do not overlap.

use vstd::prelude::*;

use crate::error::AppError;
use crate::text::{
    chars_of, concat_str, eq_str, first_index_of, string_from_chars, trim_chars, trim_of,
};

verus! {

/// A character that ends a placeholder name.
pub open spec fn is_stop(c: char) -> bool {
    c == '>' || c == '='
}

/// The index of the first name-ending character, or `s.len()` if none.
pub open spec fn first_stop(s: Seq<char>) -> nat
    decreases s.len(),
{
    if s.len() == 0 {
        0
    } else if is_stop(s[0]) {
        0
    } else {
        1 + first_stop(s.skip(1))
    }
}

proof fn lemma_first_stop(s: Seq<char>)
    ensures
        first_stop(s) <= s.len(),
        forall|i: int| 0 <= i < first_stop(s) ==> !is_stop(#[trigger] s[i]),
        first_stop(s) < s.len() ==> is_stop(s[first_stop(s) as int]),
    decreases s.len(),
{
    if s.len() > 0 && !is_stop(s[0]) {
        lemma_first_stop(s.skip(1));
        assert forall|i: int| 0 <= i < first_stop(s) implies !is_stop(#[trigger] s[i]) by {
            if i > 0 {
                assert(s.skip(1)[i - 1] == s[i]);
            }
        }
    }
}

proof fn lemma_first_stop_exact(s: Seq<char>, k: int)
    requires
        0 <= k <= s.len(),
        forall|i: int| 0 <= i < k ==> !is_stop(#[trigger] s[i]),
        k < s.len() ==> is_stop(s[k]),
    ensures
        first_stop(s) == k,
    decreases k,
{
    lemma_first_stop(s);
    if k > 0 {
        assert forall|i: int| 0 <= i < k - 1 implies !is_stop(#[trigger] s.skip(1)[i]) by {
            assert(s.skip(1)[i] == s[i + 1]);
        }
        assert(k - 1 < s.skip(1).len() ==> s.skip(1)[k - 1] == s[k]);
        lemma_first_stop_exact(s.skip(1), k - 1);
    }
}

/// The placeholder starting exactly at the head of `s`, if any: its name,
/// its default, and how many characters it spans.
pub open spec fn var_match_at(s: Seq<char>) -> Option<(Seq<char>, Option<Seq<char>>, nat)> {
    if s.len() == 0 || s[0] != '<' {
        Option::None
    } else {
        let body = s.skip(1);
        let j = first_stop(body);
        if j >= body.len() || j == 0 {
            Option::None
        } else if body[j as int] == '>' {
            Option::Some((body.take(j as int), Option::None, j + 2))
        } else {
            let rest = body.skip(j as int + 1);
            let k = first_index_of(rest, '>');
            if k >= rest.len() {
                Option::None
            } else {
                Option::Some(
                    (body.take(j as int), Option::Some(rest.take(k as int)), j + k + 3),
                )
            }
        }
    }
}

proof fn lemma_var_match_len(s: Seq<char>)
    ensures
        var_match_at(s) matches Some(m) ==> 2 <= m.2 <= s.len(),
{
    if s.len() > 0 && s[0] == '<' {
        let body = s.skip(1);
        lemma_first_stop(body);
        let j = first_stop(body);
        if j < body.len() && j > 0 && body[j as int] != '>' {
            crate::text::lemma_first_index_of_pub(body.skip(j as int + 1), '>');
        }
    }
}

/// The placeholders of `s`, left to right, non-overlapping.
pub open spec fn cmd_vars_of(s: Seq<char>) -> Seq<(Seq<char>, Option<Seq<char>>)>
    decreases s.len(),
{
    if s.len() == 0 {
        Seq::empty()
    } else {
        match var_match_at(s) {
            Option::Some((name, def, used)) => {
                let u = if 1 <= used <= s.len() {
                    used as int
                } else {
                    1
                };
                seq![(name, def)] + cmd_vars_of(s.skip(u))
            },
            Option::None => cmd_vars_of(s.skip(1)),
        }
    }
}

/// The value assigned to `name`, out of the last matching pair: a later
/// assignment of the same key overwrites an earlier one, as inserting the
/// pairs into a map in order would.
pub open spec fn lookup_var(vars: Seq<(Seq<char>, Seq<char>)>, name: Seq<char>) -> Option<Seq<char>>
    decreases vars.len(),
{
    if vars.len() == 0 {
        Option::None
    } else if vars.last().0 == name {
        Option::Some(vars.last().1)
    } else {
        lookup_var(vars.drop_last(), name)
    }
}

/// The later of two assignments to one key wins: if position `i` carries
/// `name` and no later position does, the lookup answers with position `i`'s
/// value.
pub proof fn lemma_lookup_takes_last(vars: Seq<(Seq<char>, Seq<char>)>, name: Seq<char>, i: int)
    requires
        0 <= i < vars.len(),
        vars[i].0 == name,
        forall|j: int| i < j < vars.len() ==> (#[trigger] vars[j]).0 != name,
    ensures
        lookup_var(vars, name) == Option::Some(vars[i].1),
    decreases vars.len(),
{
    if i == vars.len() - 1 {
    } else {
        assert(vars.last().0 != name);
        assert forall|j: int|
            i < j < vars.drop_last().len() implies (#[trigger] vars.drop_last()[j]).0 != name by {
            assert(vars.drop_last()[j] == vars[j]);
        }
        lemma_lookup_takes_last(vars.drop_last(), name, i);
    }
}

/// What one placeholder is replaced with: the assigned value, else the
/// default, else nothing.
pub open spec fn replacement_of(
    name: Seq<char>,
    def: Option<Seq<char>>,
    vars: Seq<(Seq<char>, Seq<char>)>,
) -> Seq<char> {
    match lookup_var(vars, name) {
        Option::Some(v) => v,
        Option::None => match def {
            Option::Some(d) => d,
            Option::None => Seq::empty(),
        },
    }
}

/// `s` with every placeholder replaced; text outside placeholders stands.
pub open spec fn replace_vars_of(s: Seq<char>, vars: Seq<(Seq<char>, Seq<char>)>) -> Seq<char>
    decreases s.len(),
{
    if s.len() == 0 {
        Seq::empty()
    } else {
        match var_match_at(s) {
            Option::Some((name, def, used)) => {
                let u = if 1 <= used <= s.len() {
                    used as int
                } else {
                    1
                };
                replacement_of(name, def, vars) + replace_vars_of(s.skip(u), vars)
            },
            Option::None => seq![s[0]] + replace_vars_of(s.skip(1), vars),
        }
    }
}

/// The views of extracted placeholders.
pub open spec fn var_views(vs: Seq<(String, Option<String>)>) -> Seq<(Seq<char>, Option<Seq<char>>)> {
    vs.map_values(
        |p: (String, Option<String>)|
            (
                p.0@,
                match p.1 {
                    Option::Some(d) => Option::Some(d@),
                    Option::None => Option::<Seq<char>>::None,
                },
            ),
    )
}

/// The views of `key=value` assignments.
pub open spec fn assignment_views(vs: Seq<(String, String)>) -> Seq<(Seq<char>, Seq<char>)> {
    vs.map_values(|p: (String, String)| (p.0@, p.1@))
}

/// Scan the placeholder starting at `i` (which holds a `<`): its name, its
/// default, and the index just past its `>`.
fn scan_var_at(cs: &Vec<char>, i: usize) -> (r: Option<(String, Option<String>, usize)>)
    requires
        i < cs@.len(),
        cs@[i as int] == '<',
    ensures
        ({
            let m = var_match_at(cs@.skip(i as int));
            match r {
                Some(t) => m matches Some(sm) && t.0@ == sm.0 && (match (t.1, sm.1) {
                    (Option::Some(d), Option::Some(dv)) => d@ == dv,
                    (Option::None, Option::None) => true,
                    _ => false,
                }) && (t.2 - i) as nat == sm.2 && i < t.2 <= cs@.len(),
                None => m is None,
            }
        }),
{
    let n: usize = cs.len();
    let ghost body = cs@.skip(i as int).skip(1);
    proof {
        assert(body =~= cs@.skip(i as int + 1));
    }
    let mut j: usize = i + 1;
    while j < n && cs[j] != '>' && cs[j] != '='
        invariant
            i + 1 <= j <= n,
            n == cs@.len(),
            body == cs@.skip(i as int + 1),
            forall|t: int| 0 <= t < j - i - 1 ==> !is_stop(#[trigger] body[t]),
        decreases n - j,
    {
        proof {
            assert(body[j - i - 1] == cs@[j as int]);
        }
        j = j + 1;
    }
    proof {
        if j < n {
            assert(body[j - i - 1] == cs@[j as int]);
        }
        lemma_first_stop_exact(body, j - i - 1);
    }
    if j >= n {
        return None;
    }
    if j == i + 1 {
        return None;
    }
    let mut name: Vec<char> = Vec::new();
    let mut t: usize = i + 1;
    while t < j
        invariant
            i + 1 <= t <= j < n,
            n == cs@.len(),
            name@ == cs@.subrange(i as int + 1, t as int),
        decreases j - t,
    {
        name.push(cs[t]);
        t = t + 1;
        proof {
            assert(name@ =~= cs@.subrange(i as int + 1, t as int));
        }
    }
    proof {
        assert(name@ =~= body.take(j - i - 1));
    }
    if cs[j] == '>' {
        proof {
            assert(var_match_at(cs@.skip(i as int)) matches Some(sm) && sm.0 == name@ && sm.1
                is None && sm.2 == (j + 1 - i) as nat);
        }
        return Some((string_from_chars(&name), None, j + 1));
    }
    let ghost rest = body.skip(j - i - 1 + 1);
    proof {
        assert(rest =~= cs@.skip(j as int + 1));
    }
    let mut k: usize = j + 1;
    while k < n && cs[k] != '>'
        invariant
            j + 1 <= k <= n,
            n == cs@.len(),
            rest == cs@.skip(j as int + 1),
            forall|t2: int| 0 <= t2 < k - j - 1 ==> #[trigger] rest[t2] != '>',
        decreases n - k,
    {
        proof {
            assert(rest[k - j - 1] == cs@[k as int]);
        }
        k = k + 1;
    }
    proof {
        if k < n {
            assert(rest[k - j - 1] == cs@[k as int]);
        }
        crate::text::lemma_first_index_exact_pub(rest, '>', k - j - 1);
    }
    if k >= n {
        return None;
    }
    let mut def: Vec<char> = Vec::new();
    let mut t2: usize = j + 1;
    while t2 < k
        invariant
            j + 1 <= t2 <= k < n,
            n == cs@.len(),
            def@ == cs@.subrange(j as int + 1, t2 as int),
        decreases k - t2,
    {
        def.push(cs[t2]);
        t2 = t2 + 1;
        proof {
            assert(def@ =~= cs@.subrange(j as int + 1, t2 as int));
        }
    }
    proof {
        assert(def@ =~= rest.take(k - j - 1));
        assert(var_match_at(cs@.skip(i as int)) matches Some(sm) && sm.0 == name@ && (
        sm.1 matches Some(dv) && dv == def@) && sm.2 == (k + 1 - i) as nat);
    }
    Some((string_from_chars(&name), Some(string_from_chars(&def)), k + 1))
}

/// Extract the placeholders of a command string, left to right.
pub fn parse_command_variables(command: &str) -> (r: Vec<(String, Option<String>)>)
    ensures
        var_views(r@) == cmd_vars_of(command@),
{
    let cs = chars_of(command);
    let n: usize = cs.len();
    let mut out: Vec<(String, Option<String>)> = Vec::new();
    let mut i: usize = 0;
    proof {
        assert(cs@.skip(0) =~= cs@);
        assert(var_views(out@) + cmd_vars_of(cs@.skip(0)) =~~= cmd_vars_of(command@));
    }
    while i < n
        invariant
            i <= n,
            n == cs@.len(),
            cs@ == command@,
            cmd_vars_of(command@) == var_views(out@) + cmd_vars_of(cs@.skip(i as int)),
        decreases n - i,
    {
        proof {
            assert(cs@.skip(i as int)[0] == cs@[i as int]);
            assert(cs@.skip(i as int).skip(1) =~= cs@.skip(i as int + 1));
        }
        if cs[i] == '<' {
            match scan_var_at(&cs, i) {
                Some((name, def, next)) => {
                    let ghost prev = out@;
                    let ghost sm = var_match_at(cs@.skip(i as int)).unwrap();
                    proof {
                        lemma_var_match_len(cs@.skip(i as int));
                        assert(cs@.skip(i as int).skip(sm.2 as int) =~= cs@.skip(next as int));
                    }
                    out.push((name, def));
                    proof {
                        assert(var_views(out@) =~~= var_views(prev).push((sm.0, sm.1)));
                        assert(var_views(out@) + cmd_vars_of(cs@.skip(next as int)) =~~= var_views(
                            prev,
                        ) + (seq![(sm.0, sm.1)] + cmd_vars_of(cs@.skip(next as int))));
                    }
                    i = next;
                },
                None => {
                    i = i + 1;
                },
            }
        } else {
            i = i + 1;
        }
    }
    proof {
        assert(cs@.skip(n as int) =~= Seq::<char>::empty());
        assert(var_views(out@) =~~= cmd_vars_of(command@));
    }
    out
}

/// Look the name up among the assignments, executably: the last match wins.
fn lookup_exec(vars: &Vec<(String, String)>, name: &str) -> (r: Option<String>)
    ensures
        ({
            let m = lookup_var(assignment_views(vars@), name@);
            match r {
                Some(v) => m matches Some(mv) && v@ == mv,
                None => m is None,
            }
        }),
{
    let n: usize = vars.len();
    let mut found: Option<String> = None;
    let mut i: usize = 0;
    proof {
        assert(assignment_views(vars@).take(0) =~~= Seq::<(Seq<char>, Seq<char>)>::empty());
    }
    while i < n
        invariant
            i <= n,
            n == vars@.len(),
            ({
                let m = lookup_var(assignment_views(vars@).take(i as int), name@);
                match found {
                    Some(v) => m matches Some(mv) && v@ == mv,
                    None => m is None,
                }
            }),
        decreases n - i,
    {
        proof {
            assert(assignment_views(vars@).take(i as int + 1).drop_last() =~~= assignment_views(
                vars@,
            ).take(i as int));
            assert(assignment_views(vars@).take(i as int + 1).last() == assignment_views(
                vars@,
            )[i as int]);
        }
        if eq_str(vars[i].0.as_str(), name) {
            found = Some(vars[i].1.clone());
        }
        i = i + 1;
    }
    proof {
        assert(assignment_views(vars@).take(n as int) =~~= assignment_views(vars@));
    }
    found
}

/// Replace every placeholder of `command` with its assigned value, its
/// default, or nothing, in that order of preference.
pub fn replace_command_variables(command: &str, variables: &Vec<(String, String)>) -> (r: String)
    ensures
        r@ == replace_vars_of(command@, assignment_views(variables@)),
{
    let cs = chars_of(command);
    let n: usize = cs.len();
    let mut out: Vec<char> = Vec::new();
    let mut i: usize = 0;
    proof {
        assert(cs@.skip(0) =~= cs@);
        assert(out@ + replace_vars_of(cs@.skip(0), assignment_views(variables@)) =~=
        replace_vars_of(command@, assignment_views(variables@)));
    }
    while i < n
        invariant
            i <= n,
            n == cs@.len(),
            cs@ == command@,
            replace_vars_of(command@, assignment_views(variables@)) == out@ + replace_vars_of(
                cs@.skip(i as int),
                assignment_views(variables@),
            ),
        decreases n - i,
    {
        proof {
            assert(cs@.skip(i as int)[0] == cs@[i as int]);
            assert(cs@.skip(i as int).skip(1) =~= cs@.skip(i as int + 1));
        }
        if cs[i] == '<' {
            match scan_var_at(&cs, i) {
                Some((name, def, next)) => {
                    let ghost sm = var_match_at(cs@.skip(i as int)).unwrap();
                    proof {
                        lemma_var_match_len(cs@.skip(i as int));
                        assert(cs@.skip(i as int).skip(sm.2 as int) =~= cs@.skip(next as int));
                    }
                    let ghost base = out@;
                    let value: String = match lookup_exec(variables, name.as_str()) {
                        Some(v) => v,
                        None => match def {
                            Some(d) => d,
                            None => string_from_chars(&Vec::new()),
                        },
                    };
                    proof {
                        assert(value@ == replacement_of(sm.0, sm.1, assignment_views(variables@)));
                    }
                    crate::display::push_str_chars(&mut out, value.as_str());
                    i = next;
                },
                None => {
                    out.push(cs[i]);
                    i = i + 1;
                },
            }
        } else {
            out.push(cs[i]);
            i = i + 1;
        }
    }
    proof {
        assert(cs@.skip(n as int) =~= Seq::<char>::empty());
        assert(out@ =~= replace_vars_of(command@, assignment_views(variables@)));
    }
    string_from_chars(&out)
}

/// Resolve each placeholder against the line the user typed for it: an empty
/// line takes the default (or nothing), anything else stands as typed.
pub fn prompt_for_variables(variables: &Vec<(String, Option<String>)>, inputs: &Vec<String>) -> (r:
    Vec<(String, String)>)
    requires
        inputs@.len() == variables@.len(),
    ensures
        r@.len() == variables@.len(),
        forall|k: int|
            0 <= k < r@.len() ==> (#[trigger] r@[k]).0@ == variables@[k].0@ && r@[k].1@ == (
            if inputs@[k]@.len() > 0 {
                inputs@[k]@
            } else {
                match variables@[k].1 {
                    Option::Some(d) => d@,
                    Option::None => Seq::<char>::empty(),
                }
            }),
{
    let n: usize = variables.len();
    let mut r: Vec<(String, String)> = Vec::new();
    let mut i: usize = 0;
    while i < n
        invariant
            i <= n,
            n == variables@.len(),
            inputs@.len() == n,
            r@.len() == i,
            forall|k: int|
                0 <= k < i ==> (#[trigger] r@[k]).0@ == variables@[k].0@ && r@[k].1@ == (
                if inputs@[k]@.len() > 0 {
                    inputs@[k]@
                } else {
                    match variables@[k].1 {
                        Option::Some(d) => d@,
                        Option::None => Seq::<char>::empty(),
                    }
                }),
        decreases n - i,
    {
        let value: String = if inputs[i].as_str().unicode_len() > 0 {
            inputs[i].clone()
        } else {
            match &variables[i].1 {
                Some(d) => d.clone(),
                None => string_from_chars(&Vec::new()),
            }
        };
        r.push((variables[i].0.clone(), value));
        i = i + 1;
    }
    r
}

/// What one `key=value` argument parses to: the trimmed key and value around
/// the first `=`, or nothing when no `=` occurs.
pub open spec fn assignment_of(v: Seq<char>) -> Option<(Seq<char>, Seq<char>)> {
    let e = first_index_of(v, '=');
    if e >= v.len() {
        Option::None
    } else {
        Option::Some((trim_of(v.take(e as int)), trim_of(v.skip(e as int + 1))))
    }
}

/// Parse `key=value` arguments, keeping every pair in the order given.
/// Every argument must carry an `=`; the first one without it is reported,
/// naming the argument. Duplicate keys stay in the list, and `lookup_var`
/// resolves a key to its last assignment, so a later duplicate overwrites an
/// earlier one wherever the parsed assignments are applied.
pub fn parse_variables(var_args: &Vec<String>) -> (r: Result<Vec<(String, String)>, AppError>)
    ensures
        (forall|k: int|
            0 <= k < var_args@.len() ==> assignment_of(#[trigger] var_args@[k]@) is Some) <==> r
            is Ok,
        r matches Ok(out) ==> out@.len() == var_args@.len() && (forall|k: int|
            0 <= k < out@.len() ==> Option::Some(((#[trigger] out@[k]).0@, out@[k].1@))
                == assignment_of(var_args@[k]@)),
        r matches Err(e) ==> (e matches AppError::System(m) && exists|k: int|
            0 <= k < var_args@.len() && assignment_of(#[trigger] var_args@[k]@) is None && m@
                == "Invalid variable format: "@ + var_args@[k]@ + ". Expected key=value"@),
{
    let n: usize = var_args.len();
    let mut out: Vec<(String, String)> = Vec::new();
    let mut i: usize = 0;
    while i < n
        invariant
            i <= n,
            n == var_args@.len(),
            out@.len() == i,
            forall|k: int|
                0 <= k < i ==> Option::Some(((#[trigger] out@[k]).0@, out@[k].1@))
                    == assignment_of(var_args@[k]@),
        decreases n - i,
    {
        let cs = chars_of(var_args[i].as_str());
        let e = crate::text::index_of_char(&cs, '=');
        if e >= cs.len() {
            let msg = concat_str(
                concat_str("Invalid variable format: ", var_args[i].as_str()).as_str(),
                ". Expected key=value",
            );
            proof {
                assert(assignment_of(var_args@[i as int]@) is None);
            }
            return Err(AppError::System(msg));
        }
        let mut keyc: Vec<char> = Vec::new();
        let mut t: usize = 0;
        while t < e
            invariant
                t <= e < cs@.len(),
                keyc@ == cs@.take(t as int),
            decreases e - t,
        {
            keyc.push(cs[t]);
            t = t + 1;
            proof {
                assert(keyc@ =~= cs@.take(t as int));
            }
        }
        let mut valc: Vec<char> = Vec::new();
        let mut u: usize = e + 1;
        let m: usize = cs.len();
        while u < m
            invariant
                e + 1 <= u <= m,
                m == cs@.len(),
                valc@ == cs@.subrange(e as int + 1, u as int),
            decreases m - u,
        {
            valc.push(cs[u]);
            u = u + 1;
            proof {
                assert(valc@ =~= cs@.subrange(e as int + 1, u as int));
            }
        }
        proof {
            assert(valc@ =~= cs@.skip(e as int + 1));
        }
        let key = string_from_chars(&trim_chars(&keyc));
        let value = string_from_chars(&trim_chars(&valc));
        out.push((key, value));
        i = i + 1;
    }
    proof {
        assert forall|k: int|
            0 <= k < var_args@.len() implies assignment_of(#[trigger] var_args@[k]@) is Some by {
            assert(Option::Some(((out@[k]).0@, out@[k].1@)) == assignment_of(var_args@[k]@));
        }
    }
    Ok(out)
}

} // verus!
