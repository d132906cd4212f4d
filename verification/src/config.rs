//! The configuration the prompt manager runs under, and its validation.
//!
//! Loading and saving the configuration file, and probing the environment
//! for editors, selector commands and access tokens, happen outside the
//! library; validation takes the environment's answer (whether a token is
//! present) as a plain value.

use vstd::prelude::*;

use crate::error::AppError;
use crate::text::eq_ignore_ascii_case;

verus! {

/// The order in which listed and searched prompts are sorted.
#[derive(Clone, Copy, Debug, PartialEq, Eq, Structural)]
pub enum SortBy {
    Recency,
    Title,
    Description,
    Updated,
}

/// General settings: where prompts are stored and how they are shown.
#[derive(Debug)]
pub struct GeneralConfig {
    pub prompt_file: String,
    pub prompt_dirs: Vec<String>,
    pub editor: String,
    pub select_cmd: String,
    pub default_tags: Vec<String>,
    pub auto_sync: bool,
    pub sort_by: SortBy,
    pub color: bool,
    pub content_preview: bool,
    pub search_case_sensitive: bool,
    pub format: Option<String>,
}

/// Settings of the gist-backed remote sync.
#[derive(Debug)]
pub struct GistConfig {
    pub file_name: String,
    pub access_token: Option<String>,
    pub gist_id: Option<String>,
    pub public: bool,
    pub auto_sync: bool,
}

/// Settings of the GitLab-backed remote sync.
#[derive(Debug)]
pub struct GitLabConfig {
    pub file_name: String,
    pub access_token: Option<String>,
    pub url: String,
    pub id: Option<i32>,
    pub visibility: String,
    pub auto_sync: bool,
    pub skip_ssl: bool,
}

/// The whole configuration.
#[derive(Debug)]
pub struct Config {
    pub general: GeneralConfig,
    pub gist: Option<GistConfig>,
    pub gitlab: Option<GitLabConfig>,
}

/// The index of the last `.` in `s`, or -1 if there is none.
pub open spec fn last_dot(s: Seq<char>) -> int
    decreases s.len(),
{
    if s.len() == 0 {
        -1
    } else if s[s.len() - 1] == '.' {
        s.len() - 1
    } else {
        last_dot(s.take(s.len() - 1))
    }
}

/// Whether a plain file name (no path separators) carries a `.toml`
/// extension, matched without regard to ASCII letter case: there is a last
/// dot, it is not the leading character — so a bare `.toml` is a hidden file
/// without an extension, as `Path::extension` also reads it — and what
/// follows the dot reads `toml`.
pub open spec fn has_toml_extension(name: Seq<char>) -> bool {
    last_dot(name) >= 1 && eq_ignore_ascii_case(name.skip(last_dot(name) + 1), "toml"@)
}

proof fn lemma_last_dot(s: Seq<char>)
    ensures
        -1 <= last_dot(s) < s.len(),
        last_dot(s) >= 0 ==> s[last_dot(s)] == '.' && forall|j: int|
            last_dot(s) < j < s.len() ==> s[j] != '.',
        last_dot(s) == -1 ==> forall|j: int| 0 <= j < s.len() ==> s[j] != '.',
    decreases s.len(),
{
    if s.len() > 0 && s[s.len() - 1] != '.' {
        let t = s.take(s.len() - 1);
        lemma_last_dot(t);
        if last_dot(s) >= 0 {
            assert(s[last_dot(s)] == t[last_dot(t)]);
            assert forall|j: int| last_dot(s) < j < s.len() implies s[j] != '.' by {
                if j < s.len() - 1 {
                    assert(s[j] == t[j]);
                }
            }
        } else {
            assert forall|j: int| 0 <= j < s.len() implies s[j] != '.' by {
                if j < s.len() - 1 {
                    assert(s[j] == t[j]);
                }
            }
        }
    }
}

/// Executable check for `has_toml_extension`.
fn toml_extension(name: &str) -> (r: bool)
    ensures
        r == has_toml_extension(name@),
{
    proof {
        lemma_last_dot(name@);
    }
    let cs = crate::text::chars_of(name);
    let n: usize = cs.len();
    let mut i: usize = n;
    while i > 0
        invariant
            0 <= i <= n,
            n == cs@.len(),
            cs@ == name@,
            forall|j: int| i <= j < n ==> cs@[j] != '.',
        decreases i,
    {
        if cs[i - 1] == '.' {
            proof {
                lemma_last_dot_exact(name@, i - 1);
            }
            if i - 1 < 1 {
                return false;
            }
            let mut ext: Vec<char> = Vec::new();
            let mut j: usize = i;
            while j < n
                invariant
                    i <= j <= n,
                    n == cs@.len(),
                    cs@ == name@,
                    ext@ == cs@.subrange(i as int, j as int),
                decreases n - j,
            {
                ext.push(cs[j]);
                j = j + 1;
                proof {
                    assert(ext@ =~= cs@.subrange(i as int, j as int));
                }
            }
            proof {
                assert(ext@ =~= name@.skip(i as int));
            }
            return crate::text::eq_ic_chars(&ext, "toml");
        }
        i = i - 1;
    }
    proof {
        lemma_last_dot_exact(name@, -1);
    }
    false
}

/// If every character after position `k` differs from `.` and `s[k]` is a
/// dot (or `k == -1` and no character is a dot), then `k` is the last dot.
proof fn lemma_last_dot_exact(s: Seq<char>, k: int)
    requires
        -1 <= k < s.len(),
        forall|j: int| k < j < s.len() ==> s[j] != '.',
        k >= 0 ==> s[k] == '.',
    ensures
        last_dot(s) == k,
    decreases s.len(),
{
    if s.len() > 0 {
        if k == s.len() - 1 {
        } else {
            let t = s.take(s.len() - 1);
            assert forall|j: int| k < j < t.len() implies t[j] != '.' by {
                assert(t[j] == s[j]);
            }
            assert(k >= 0 ==> t[k] == s[k]);
            lemma_last_dot_exact(t, k);
        }
    }
}

/// The message of the first configuration fault, or nothing when the
/// configuration is valid. `env_token_present` says whether the environment
/// supplies a GitHub access token.
pub open spec fn config_fault(c: Config, env_token_present: bool) -> Option<Seq<char>> {
    if c.general.editor@.len() == 0 {
        Option::Some("Editor cannot be empty"@)
    } else if c.general.select_cmd@.len() == 0 {
        Option::Some("Select command cannot be empty"@)
    } else if c.gitlab matches Option::Some(g) && g.url@.len() == 0 {
        Option::Some("GitLab URL cannot be empty"@)
    } else if c.gitlab matches Option::Some(g) && g.file_name@.len() == 0 {
        Option::Some("GitLab file name cannot be empty"@)
    } else {
        match c.gist {
            Option::Some(g) => {
                if g.gist_id is None && g.file_name@.len() == 0 {
                    Option::None
                } else if g.file_name@.len() == 0 {
                    Option::Some("Gist file name cannot be empty when gist sync is configured"@)
                } else if g.gist_id is Some && g.access_token is None && !env_token_present {
                    Option::Some(
                        "GitHub access token is required for gist sync. Set it in config or use PROMPTHEUS_GITHUB_ACCESS_TOKEN environment variable"@,
                    )
                } else if !has_toml_extension(g.file_name@) {
                    Option::Some(
                        "Gist file name should have .toml extension for proper prompt storage"@,
                    )
                } else {
                    Option::None
                }
            },
            Option::None => Option::None,
        }
    }
}

impl Config {
    /// Check the configuration; `env_token_present` says whether the
    /// environment supplies a GitHub access token. The error carries exactly
    /// the first fault's message, and validation succeeds if and only if
    /// there is no fault.
    pub fn validate(&self, env_token_present: bool) -> (r: Result<(), AppError>)
        ensures
            r is Ok <==> config_fault(*self, env_token_present) is None,
            r matches Err(e) ==> (e matches AppError::System(m) && config_fault(
                *self,
                env_token_present,
            ) == Option::Some(m@)),
    {
        if self.general.editor.as_str().unicode_len() == 0 {
            return Err(AppError::System(String::from_str("Editor cannot be empty")));
        }
        if self.general.select_cmd.as_str().unicode_len() == 0 {
            return Err(AppError::System(String::from_str("Select command cannot be empty")));
        }
        match &self.gitlab {
            Some(g) => {
                if g.url.as_str().unicode_len() == 0 {
                    return Err(AppError::System(String::from_str("GitLab URL cannot be empty")));
                }
                if g.file_name.as_str().unicode_len() == 0 {
                    return Err(
                        AppError::System(String::from_str("GitLab file name cannot be empty")),
                    );
                }
            },
            None => {},
        }
        match &self.gist {
            Some(g) => {
                if g.gist_id.is_some() || g.file_name.as_str().unicode_len() > 0 {
                    if g.file_name.as_str().unicode_len() == 0 {
                        return Err(
                            AppError::System(
                                String::from_str(
                                    "Gist file name cannot be empty when gist sync is configured",
                                ),
                            ),
                        );
                    }
                    if g.gist_id.is_some() && g.access_token.is_none() && !env_token_present {
                        return Err(
                            AppError::System(
                                String::from_str(
                                    "GitHub access token is required for gist sync. Set it in config or use PROMPTHEUS_GITHUB_ACCESS_TOKEN environment variable",
                                ),
                            ),
                        );
                    }
                    if !toml_extension(g.file_name.as_str()) {
                        return Err(
                            AppError::System(
                                String::from_str(
                                    "Gist file name should have .toml extension for proper prompt storage",
                                ),
                            ),
                        );
                    }
                }
            },
            None => {},
        }
        Ok(())
    }
}

} // verus!
