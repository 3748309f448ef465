//! Commit message validation against the conventional-commit grammar, and
//! the path layout of a repository's hook directory.
//!
//! File-system work (probing for a repository, installing hook scripts,
//! reading a message file) lives outside this crate's verified core; the
//! rules themselves are here.

use vstd::prelude::*;

use crate::config::{lemma_prefix_index_from, prefix_index_from, Prefix};
use crate::emoji::{apply_emoji, spec_apply_emoji};
use crate::grammar::{
    is_scope_char, is_word_char, lemma_run_end_is, parse_header_line, spec_parse_header,
};
use crate::strutil::{
    eq_str, first_line_chars, lemma_first_index_from, spec_first_line, spec_trim, str_to_chars,
    trim_chars, chars_to_string,
};
use crate::{spec_commit_message, spec_header};

verus! {

/// Knows where a repository keeps its hooks.
pub struct GitHookManager {
    pub repo_path: String,
}

impl GitHookManager {
    /// Create a new hook manager for the repository at `repo_path`.
    pub fn new(repo_path: &str) -> (r: Self)
        ensures
            r.repo_path@ == repo_path@,
    {
        GitHookManager { repo_path: repo_path.to_owned() }
    }

    /// The path of the repository's hook directory.
    pub fn hooks_dir(&self) -> (r: String)
        ensures
            r@ == self.repo_path@ + "/.git/hooks"@,
    {
        let mut r = self.repo_path.clone();
        r.append("/.git/hooks");
        r
    }
}

/// The distinct ways a commit message can fail validation.
#[derive(Debug, PartialEq, Eq, Structural, Clone, Copy)]
pub enum ValidationError {
    InvalidFormat,
    InvalidType,
    SubjectTooShort,
    SubjectTooLong,
    InvalidScope,
}

impl ValidationError {
    /// A one-line human-readable explanation of the failure.
    pub fn message(&self) -> (r: &'static str)
        ensures
            r@ == match self {
                ValidationError::InvalidFormat => "Invalid format. Expected: <type>[(scope)]: <subject>"@,
                ValidationError::InvalidType => "Invalid commit type. Use one of the conventional commit types."@,
                ValidationError::SubjectTooShort => "Subject is too short. Make it more descriptive."@,
                ValidationError::SubjectTooLong => "Subject is too long. Keep it under the maximum length."@,
                ValidationError::InvalidScope => "Invalid scope format."@,
            },
    {
        match self {
            ValidationError::InvalidFormat => "Invalid format. Expected: <type>[(scope)]: <subject>",
            ValidationError::InvalidType => "Invalid commit type. Use one of the conventional commit types.",
            ValidationError::SubjectTooShort => "Subject is too short. Make it more descriptive.",
            ValidationError::SubjectTooLong => "Subject is too long. Keep it under the maximum length.",
            ValidationError::InvalidScope => "Invalid scope format.",
        }
    }
}

/// The prefix title a prepared message falls back to: the first prefix
/// titled `chore`, or the first prefix.
pub open spec fn spec_fallback_title(prefixes: Seq<Prefix>) -> Seq<char> {
    let i = prefix_index_from(prefixes, "chore"@, 0);
    if i == -1 {
        prefixes[0].title@
    } else {
        prefixes[i].title@
    }
}

/// The prepared form of a raw commit message: a message whose first line
/// already matches the grammar stays as it is; any other is trimmed and
/// put behind the fallback prefix, decorated when decoration is on.
pub open spec fn spec_prepare_message(
    message: Seq<char>,
    prefixes: Seq<Prefix>,
    use_emoji: bool,
) -> Seq<char> {
    if spec_parse_header(spec_first_line(message)) is Some {
        message
    } else {
        let title = spec_fallback_title(prefixes);
        let formatted = title + seq![':', ' '] + spec_trim(message);
        if use_emoji {
            spec_apply_emoji(title, formatted, true)
        } else {
            formatted
        }
    }
}

/// Prepare a raw commit message: leave it unchanged when its first line
/// already matches the grammar, otherwise prefix its trimmed text with
/// the fallback type, decorating when asked.
pub fn prepare_message(message: &str, prefixes: &Vec<Prefix>, use_emoji: bool) -> (r: String)
    requires
        prefixes@.len() > 0,
    ensures
        r@ == spec_prepare_message(message@, prefixes@, use_emoji),
{
    let chars = str_to_chars(message);
    let line = first_line_chars(&chars);
    if parse_header_line(&line).is_some() {
        return message.to_owned();
    }
    let n = prefixes.len();
    let mut idx: usize = 0;
    let mut chore_at: Option<usize> = None;
    while idx < n
        invariant
            idx <= n,
            n == prefixes@.len(),
            match chore_at {
                Some(c) => c < idx && prefixes@[c as int].title@ == "chore"@ && (forall|j: int|
                    0 <= j < c ==> prefixes@[j].title@ != "chore"@),
                None => forall|j: int| 0 <= j < idx ==> prefixes@[j].title@ != "chore"@,
            },
        decreases n - idx,
    {
        if chore_at.is_none() && eq_str(prefixes[idx].title.as_str(), "chore") {
            chore_at = Some(idx);
        }
        idx = idx + 1;
    }
    proof {
        lemma_prefix_index_from(prefixes@, "chore"@, 0);
    }
    let title = match chore_at {
        Some(c) => &prefixes[c].title,
        None => &prefixes[0].title,
    };
    proof {
        assert(title@ == spec_fallback_title(prefixes@));
    }
    let mut formatted = title.clone();
    formatted.push(':');
    formatted.push(' ');
    let trimmed = trim_chars(&chars);
    let trimmed_str = chars_to_string(&trimmed);
    formatted.append(trimmed_str.as_str());
    proof {
        assert(formatted@ =~= spec_fallback_title(prefixes@) + seq![':', ' '] + spec_trim(
            message@,
        ));
    }
    if use_emoji {
        apply_emoji(title.as_str(), formatted.as_str(), true)
    } else {
        formatted
    }
}

/// Whether `t` is one of the allowed types.
pub open spec fn type_allowed(types: Seq<String>, t: Seq<char>) -> bool {
    exists|i: int| 0 <= i < types.len() && types[i]@ == t
}

/// Validates commit messages against the grammar and the configured
/// constraints.
pub struct CommitMessageValidator {
    pub min_subject_length: usize,
    pub max_subject_length: usize,
    pub required_types: Vec<String>,
    pub validate_scope: bool,
}

/// The allowed types of a freshly built validator.
pub open spec fn spec_default_types() -> Seq<Seq<char>> {
    seq![
        "feat"@,
        "fix"@,
        "docs"@,
        "style"@,
        "refactor"@,
        "perf"@,
        "test"@,
        "build"@,
        "ci"@,
        "chore"@,
        "revert"@,
    ]
}

/// The verdict of validating `message` under `rules`: the first line is
/// parsed against the grammar, then the type, the scope policy and the
/// subject length bounds are checked in order; the first failing check
/// names the error.
pub open spec fn spec_validate(
    rules: CommitMessageValidator,
    message: Seq<char>,
) -> Result<(), ValidationError> {
    match spec_parse_header(spec_first_line(message)) {
        None => Err(ValidationError::InvalidFormat),
        Some(h) => if !type_allowed(rules.required_types@, h.0) {
            Err(ValidationError::InvalidType)
        } else if rules.validate_scope && h.1 is None {
            Err(ValidationError::InvalidScope)
        } else if h.2.len() < rules.min_subject_length {
            Err(ValidationError::SubjectTooShort)
        } else if h.2.len() > rules.max_subject_length {
            Err(ValidationError::SubjectTooLong)
        } else {
            Ok(())
        },
    }
}

impl Default for CommitMessageValidator {
    /// A validator with the conventional defaults: subjects of 10 to 72
    /// characters, the standard commit types, scopes optional.
    fn default() -> (r: Self)
        ensures
            r.min_subject_length == 10,
            r.max_subject_length == 72,
            r.validate_scope == false,
            r.required_types.deep_view() == spec_default_types(),
    {
        let mut types: Vec<String> = Vec::new();
        types.push("feat".to_owned());
        types.push("fix".to_owned());
        types.push("docs".to_owned());
        types.push("style".to_owned());
        types.push("refactor".to_owned());
        types.push("perf".to_owned());
        types.push("test".to_owned());
        types.push("build".to_owned());
        types.push("ci".to_owned());
        types.push("chore".to_owned());
        types.push("revert".to_owned());
        proof {
            assert(types.deep_view() =~= spec_default_types());
        }
        CommitMessageValidator {
            min_subject_length: 10,
            max_subject_length: 72,
            required_types: types,
            validate_scope: false,
        }
    }
}

impl CommitMessageValidator {
    /// Create a validator with the default rules.
    pub fn new() -> (r: Self)
        ensures
            r.min_subject_length == 10,
            r.max_subject_length == 72,
            r.validate_scope == false,
            r.required_types.deep_view() == spec_default_types(),
    {
        Self::default()
    }

    /// Set the minimum subject length.
    pub fn min_subject_length(self, length: usize) -> (r: Self)
        ensures
            r.min_subject_length == length,
            r.max_subject_length == self.max_subject_length,
            r.required_types == self.required_types,
            r.validate_scope == self.validate_scope,
    {
        CommitMessageValidator { min_subject_length: length, ..self }
    }

    /// Set the maximum subject length.
    pub fn max_subject_length(self, length: usize) -> (r: Self)
        ensures
            r.max_subject_length == length,
            r.min_subject_length == self.min_subject_length,
            r.required_types == self.required_types,
            r.validate_scope == self.validate_scope,
    {
        CommitMessageValidator { max_subject_length: length, ..self }
    }

    /// Set the allowed commit types.
    pub fn required_types(self, types: Vec<String>) -> (r: Self)
        ensures
            r.required_types == types,
            r.min_subject_length == self.min_subject_length,
            r.max_subject_length == self.max_subject_length,
            r.validate_scope == self.validate_scope,
    {
        CommitMessageValidator { required_types: types, ..self }
    }

    /// Require or stop requiring a scope.
    pub fn validate_scope(self, validate: bool) -> (r: Self)
        ensures
            r.validate_scope == validate,
            r.min_subject_length == self.min_subject_length,
            r.max_subject_length == self.max_subject_length,
            r.required_types == self.required_types,
    {
        CommitMessageValidator { validate_scope: validate, ..self }
    }

    /// Validate a commit message: parse its first line against the
    /// grammar and check the configured constraints, reporting the first
    /// failure.
    pub fn validate(&self, message: &str) -> (r: Result<(), ValidationError>)
        ensures
            r == spec_validate(*self, message@),
    {
        let chars = str_to_chars(message);
        let line = first_line_chars(&chars);
        match parse_header_line(&line) {
            None => Err(ValidationError::InvalidFormat),
            Some(h) => {
                let mut found = false;
                let mut i: usize = 0;
                let n = self.required_types.len();
                while i < n
                    invariant
                        i <= n,
                        n == self.required_types@.len(),
                        found == exists|j: int|
                            0 <= j < i && self.required_types@[j]@ == h.commit_type@,
                    decreases n - i,
                {
                    if self.required_types[i].eq(&h.commit_type) {
                        found = true;
                        proof {
                            assert(self.required_types@[i as int]@ == h.commit_type@);
                        }
                    }
                    i = i + 1;
                }
                if !found {
                    return Err(ValidationError::InvalidType);
                }
                if self.validate_scope && h.scope.is_none() {
                    return Err(ValidationError::InvalidScope);
                }
                let subject_len = h.subject.as_str().unicode_len();
                if subject_len < self.min_subject_length {
                    return Err(ValidationError::SubjectTooShort);
                }
                if subject_len > self.max_subject_length {
                    return Err(ValidationError::SubjectTooLong);
                }
                Ok(())
            },
        }
    }
}

/// Law: a message assembled from a well-formed type, scope and subject,
/// with no body and no footer, validates cleanly whenever the type is
/// allowed, the scope policy is met and the subject's length lies within
/// the configured bounds.
#[verifier::rlimit(80)]
pub proof fn lemma_assemble_validates(
    rules: CommitMessageValidator,
    ptype: Seq<char>,
    scope: Seq<char>,
    subject: Seq<char>,
)
    requires
        ptype.len() > 0,
        forall|i: int| 0 <= i < ptype.len() ==> is_word_char(ptype[i]),
        forall|i: int| 0 <= i < scope.len() ==> is_scope_char(scope[i]),
        subject.len() > 0,
        forall|i: int| 0 <= i < subject.len() ==> subject[i] != '\n' && subject[i] != '\r',
        type_allowed(rules.required_types@, ptype),
        rules.validate_scope ==> scope.len() > 0,
        rules.min_subject_length <= subject.len() <= rules.max_subject_length,
    ensures
        spec_validate(
            rules,
            spec_commit_message(ptype, scope, subject, Seq::empty(), Seq::empty()),
        ) == Ok::<(), ValidationError>(()),
{
    let msg = spec_commit_message(ptype, scope, subject, Seq::empty(), Seq::empty());
    assert(msg =~= spec_header(ptype, scope, subject));
    let tl = ptype.len() as int;
    let sl = scope.len() as int;
    let n = msg.len() as int;
    if sl > 0 {
        assert(forall|i: int| 0 <= i < tl ==> msg[i] == ptype[i]);
        assert(msg[tl] == '(');
        assert(forall|i: int| 0 <= i < sl ==> msg[tl + 1 + i] == scope[i]);
        assert(msg[tl + 1 + sl] == ')');
        assert(msg[tl + 2 + sl] == ':');
        assert(msg[tl + 3 + sl] == ' ');
        assert(forall|i: int| 0 <= i < subject.len() ==> msg[tl + 4 + sl + i] == subject[i]);
        assert(n == tl + sl + 4 + subject.len());
        assert(forall|i: int| 0 <= i < n ==> msg[i] != '\n') by {
            assert forall|i: int| 0 <= i < n implies msg[i] != '\n' by {
                if i < tl {
                    assert(is_word_char(msg[i]));
                } else if tl + 1 <= i < tl + 1 + sl {
                    assert(is_scope_char(msg[i]));
                } else if i >= tl + 4 + sl {
                    assert(msg[i] == subject[i - (tl + 4 + sl)]);
                }
            }
        }
        lemma_first_index_from(msg, '\n', 0);
        assert(spec_first_line(msg) == msg);
        lemma_run_end_is(msg, 0, |c| is_word_char(c), tl);
        lemma_run_end_is(msg, tl + 1, |c| is_scope_char(c), tl + 1 + sl);
        assert(msg.take(tl) =~= ptype);
        assert(msg.subrange(tl + 1, tl + 1 + sl) =~= scope);
        assert(msg.skip(tl + sl + 4) =~= subject);
        assert(spec_parse_header(msg) == Some((ptype, Some(scope), subject)));
    } else {
        assert(forall|i: int| 0 <= i < tl ==> msg[i] == ptype[i]);
        assert(msg[tl] == ':');
        assert(msg[tl + 1] == ' ');
        assert(forall|i: int| 0 <= i < subject.len() ==> msg[tl + 2 + i] == subject[i]);
        assert(n == tl + 2 + subject.len());
        assert(forall|i: int| 0 <= i < n ==> msg[i] != '\n') by {
            assert forall|i: int| 0 <= i < n implies msg[i] != '\n' by {
                if i < tl {
                    assert(is_word_char(msg[i]));
                } else if i >= tl + 2 {
                    assert(msg[i] == subject[i - (tl + 2)]);
                }
            }
        }
        lemma_first_index_from(msg, '\n', 0);
        assert(spec_first_line(msg) == msg);
        lemma_run_end_is(msg, 0, |c| is_word_char(c), tl);
        assert(msg.take(tl) =~= ptype);
        assert(msg.skip(tl + 2) =~= subject);
        assert(spec_parse_header(msg) == Some((ptype, None::<Seq<char>>, subject)));
    }
}

} // verus!
