//! Remote-sync decisions: which direction to sync, and the normalisation of
//! stored text for comparison.
//!
//! The remote client itself (network calls, timestamps read from files) runs
//! outside the library and hands these decisions plain Unix-second values.

use vstd::prelude::*;

use crate::text::{join_with, lines_of, string_from_chars, trim_of, views_of};

verus! {

/// A snapshot of the remote side: its content and when it changed, in Unix
/// seconds.
#[derive(Debug)]
pub struct RemoteSnippet {
    pub content: String,
    pub updated_at: i64,
}

/// Which way a sync should move.
#[derive(Clone, Copy, Debug, PartialEq, Eq, Structural)]
pub enum SyncDirection {
    Upload,
    Download,
    NoSync,
}

/// Decide the sync direction from the two change times: forced syncs always
/// upload; otherwise the newer side wins, and equal times need no sync.
pub fn should_sync(local_updated: i64, remote_updated: i64, force: bool) -> (r: SyncDirection)
    ensures
        force ==> r is Upload,
        !force && local_updated > remote_updated ==> r is Upload,
        !force && remote_updated > local_updated ==> r is Download,
        !force && local_updated == remote_updated ==> r is NoSync,
{
    if force {
        return SyncDirection::Upload;
    }
    if local_updated > remote_updated {
        SyncDirection::Upload
    } else if remote_updated > local_updated {
        SyncDirection::Download
    } else {
        SyncDirection::NoSync
    }
}

/// Whether a case-folded error message reads as network trouble: it mentions
/// one of the usual transport, name-resolution or certificate words.
pub open spec fn mentions_network_trouble(m: Seq<char>) -> bool {
    ||| crate::text::has_substring(m, "network"@)
    ||| crate::text::has_substring(m, "connection"@)
    ||| crate::text::has_substring(m, "timeout"@)
    ||| crate::text::has_substring(m, "dns"@)
    ||| crate::text::has_substring(m, "unreachable"@)
    ||| crate::text::has_substring(m, "refused"@)
    ||| crate::text::has_substring(m, "host"@)
    ||| crate::text::has_substring(m, "ssl"@)
    ||| crate::text::has_substring(m, "certificate"@)
    ||| crate::text::has_substring(m, "tcp"@)
    ||| crate::text::has_substring(m, "http"@)
}

/// One folded-message substring check against a marker word.
fn mentions(m: &Vec<char>, word: &str) -> (r: bool)
    ensures
        r == crate::text::has_substring(m@, word@),
{
    let w = crate::text::chars_of(word);
    crate::text::contains_chars(m, &w)
}

/// Classify an error message: network-related feedback is shown for messages
/// that, once case-folded, mention network trouble.
pub fn is_network_error_message(message: &str) -> (r: bool)
    ensures
        r == mentions_network_trouble(crate::text::lower_of(message@)),
{
    let folded = crate::text::fold_case(message);
    let m = crate::text::chars_of(folded.as_str());
    mentions(&m, "network") || mentions(&m, "connection") || mentions(&m, "timeout") || mentions(
        &m,
        "dns",
    ) || mentions(&m, "unreachable") || mentions(&m, "refused") || mentions(&m, "host") || mentions(
        &m,
        "ssl",
    ) || mentions(&m, "certificate") || mentions(&m, "tcp") || mentions(&m, "http")
}

/// The insignificant-whitespace-free form of stored text: every line
/// trimmed, empty lines dropped, the rest joined with `\n`.
pub open spec fn normalized_of(s: Seq<char>) -> Seq<char> {
    join_with(lines_of(s).map_values(|l: Seq<char>| trim_of(l)).filter(|l: Seq<char>| l.len() > 0), '\n')
}

/// Normalise stored text for comparison: trim every line, drop empty lines,
/// join the rest with `\n`.
pub fn normalize_toml_content(content: &str) -> (r: String)
    ensures
        r@ == normalized_of(content@),
{
    let cs = crate::text::chars_of(content);
    let ls = crate::text::lines_strings(&cs);
    let n: usize = ls.len();
    let mut kept: Vec<String> = Vec::new();
    let ghost trimmed = lines_of(content@).map_values(|l: Seq<char>| trim_of(l));
    proof {
        reveal(Seq::filter);
        assert(trimmed.take(0) =~~= Seq::<Seq<char>>::empty());
        assert(views_of(kept@) =~~= trimmed.take(0).filter(|l: Seq<char>| l.len() > 0));
    }
    let mut i: usize = 0;
    while i < n
        invariant
            i <= n,
            n == ls@.len(),
            views_of(ls@) == lines_of(content@),
            trimmed == lines_of(content@).map_values(|l: Seq<char>| trim_of(l)),
            views_of(kept@) == trimmed.take(i as int).filter(|l: Seq<char>| l.len() > 0),
        decreases n - i,
    {
        proof {
            reveal(Seq::filter);
            assert(trimmed.take(i as int + 1).drop_last() =~~= trimmed.take(i as int));
            assert(trimmed.take(i as int + 1).last() == trim_of(views_of(ls@)[i as int]));
        }
        let lc = crate::text::chars_of(ls[i].as_str());
        let t = crate::text::trim_chars(&lc);
        if t.len() > 0 {
            let ghost prev = kept@;
            let ts = string_from_chars(&t);
            kept.push(ts);
            proof {
                reveal(Seq::filter);
                assert(views_of(kept@) =~~= views_of(prev).push(trim_of(views_of(ls@)[i as int])));
                assert(views_of(kept@) =~~= trimmed.take(i as int + 1).filter(
                    |l: Seq<char>| l.len() > 0,
                ));
            }
        } else {
            proof {
                reveal(Seq::filter);
                assert(views_of(kept@) =~~= trimmed.take(i as int + 1).filter(
                    |l: Seq<char>| l.len() > 0,
                ));
            }
        }
        i = i + 1;
    }
    proof {
        assert(trimmed.take(n as int) =~~= trimmed);
    }
    crate::text::join_strings(&kept, '\n')
}

} // verus!
