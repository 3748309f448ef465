//! Configuration data: the commit prefixes, the scopes and the subject
//! length limit. Discovery and parsing of configuration files happens
//! outside the verified core; the data and its stock contents are here.

use vstd::prelude::*;

verus! {

/// A commit prefix: its type token and a short description.
#[derive(Debug, Clone)]
pub struct Prefix {
    pub title: String,
    pub description: String,
}

/// The tool's configuration.
#[derive(Debug, Clone)]
pub struct Config {
    pub sign_off_commits: bool,
    pub prefixes: Vec<Prefix>,
    pub scopes: Vec<String>,
    pub max_subject_len: usize,
}

impl Config {
    /// The stock configuration text used when no configuration file is
    /// found.
    pub fn default_config_str() -> (r: String)
        ensures
            r@ == spec_default_config_str(),
    {
        DEFAULT_CONFIG.to_owned()
    }
}

/// The stock configuration text.
pub open spec fn spec_default_config_str() -> Seq<char> {
    DEFAULT_CONFIG@
}

/// The position of the prefix titled `title` in `ps`, looking from `i`
/// on; `-1` when there is none.
pub open spec fn prefix_index_from(ps: Seq<Prefix>, title: Seq<char>, i: int) -> int
    decreases ps.len() - i,
{
    if i < 0 || i >= ps.len() {
        -1
    } else if ps[i].title@ == title {
        i
    } else {
        prefix_index_from(ps, title, i + 1)
    }
}

/// Characterization of `prefix_index_from`.
pub proof fn lemma_prefix_index_from(ps: Seq<Prefix>, title: Seq<char>, k: int)
    requires
        0 <= k <= ps.len(),
    ensures
        ({
            let r = prefix_index_from(ps, title, k);
            (r == -1 && (forall|j: int| k <= j < ps.len() ==> ps[j].title@ != title)) || (k <= r
                < ps.len() && ps[r].title@ == title && (forall|j: int| k <= j < r ==> ps[j].title@
                != title))
        }),
    decreases ps.len() - k,
{
    if k < ps.len() && ps[k].title@ != title {
        lemma_prefix_index_from(ps, title, k + 1);
    }
}

pub const DEFAULT_CONFIG: &'static str = r#"# CommitKit Configuration

# Whether to add a Signed-off-by line to commits (-s flag)
sign_off_commits = false

# Commit message prefixes following Conventional Commits specification
prefixes = [
    { title = "feat", description = "A new feature" },
    { title = "fix", description = "A bug fix" },
    { title = "docs", description = "Documentation changes" },
    { title = "style", description = "Changes that do not affect code meaning" },
    { title = "refactor", description = "Code change that neither fixes a bug nor adds a feature" },
    { title = "perf", description = "Code change that improves performance" },
    { title = "test", description = "Adding missing tests or correcting existing tests" },
    { title = "build", description = "Changes that affect the build system or external dependencies" },
    { title = "ci", description = "Changes to CI configuration files and scripts" },
    { title = "chore", description = "Other changes that don't modify src or test files" },
    { title = "revert", description = "Reverts a previous commit" }
]

# Optional scopes to categorize changes
scopes = [
    "core",
    "ui",
    "docs",
    "tests",
    "deps"
]

# Maximum length of the commit subject line
max_subject_len = 72
"#;

} // verus!
