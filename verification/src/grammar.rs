//! The conventional-commit header grammar.
//!
//! A header line reads `type(scope): subject` or `type: subject`, where
//! `type` is one or more word characters (letters, digits, underscore),
//! `scope` is one or more word characters or hyphens, and `subject` is the
//! non-empty remainder of the line.

use vstd::prelude::*;

use crate::strutil::chars_substring;

verus! {

/// A word character: a letter, a digit or an underscore.
pub open spec fn is_word_char(c: char) -> bool {
    ('a' <= c && c <= 'z') || ('A' <= c && c <= 'Z') || ('0' <= c && c <= '9') || c == '_'
}

/// A scope character: a word character or a hyphen.
pub open spec fn is_scope_char(c: char) -> bool {
    is_word_char(c) || c == '-'
}

/// The end of the run of characters satisfying `p` that starts at `i`:
/// the first position at or after `i` whose character fails `p`, or the
/// length of `s` when the run reaches the end.
pub open spec fn run_end(s: Seq<char>, i: int, p: spec_fn(char) -> bool) -> int
    decreases s.len() - i,
{
    if i < 0 || i >= s.len() {
        i
    } else if p(s[i]) {
        run_end(s, i + 1, p)
    } else {
        i
    }
}

/// Characterization of `run_end`: every character in the run satisfies
/// `p`, and the run stops at the end of `s` or at a failing character.
pub proof fn lemma_run_end(s: Seq<char>, k: int, p: spec_fn(char) -> bool)
    requires
        0 <= k <= s.len(),
    ensures
        ({
            let r = run_end(s, k, p);
            &&& k <= r <= s.len()
            &&& forall|j: int| k <= j < r ==> p(s[j])
            &&& (r < s.len() ==> !p(s[r]))
        }),
    decreases s.len() - k,
{
    if k < s.len() && p(s[k]) {
        lemma_run_end(s, k + 1, p);
    }
}

/// A run known to span exactly `[k, m)` pins `run_end` down to `m`.
pub proof fn lemma_run_end_is(s: Seq<char>, k: int, p: spec_fn(char) -> bool, m: int)
    requires
        0 <= k <= m <= s.len(),
        forall|j: int| k <= j < m ==> p(s[j]),
        m == s.len() || !p(s[m]),
    ensures
        run_end(s, k, p) == m,
    decreases m - k,
{
    if k < m {
        lemma_run_end_is(s, k + 1, p, m);
    }
}

/// A parsed header: its type, its optional scope, its subject.
pub struct ParsedHeader {
    pub commit_type: String,
    pub scope: Option<String>,
    pub subject: String,
}

/// The result of parsing `line` against the header grammar, if it
/// matches: the type, the scope when one is present, and the subject.
pub open spec fn spec_parse_header(line: Seq<char>) -> Option<
    (Seq<char>, Option<Seq<char>>, Seq<char>),
> {
    let t = run_end(line, 0, |c| is_word_char(c));
    if t == 0 {
        None
    } else if t < line.len() && line[t] == '(' {
        let e = run_end(line, t + 1, |c| is_scope_char(c));
        if e == t + 1 {
            None
        } else if e < line.len() && line[e] == ')' && e + 3 < line.len() && line[e + 1] == ':'
            && line[e + 2] == ' ' {
            Some((line.take(t), Some(line.subrange(t + 1, e)), line.skip(e + 3)))
        } else {
            None
        }
    } else if t + 2 < line.len() && line[t] == ':' && line[t + 1] == ' ' {
        Some((line.take(t), None, line.skip(t + 2)))
    } else {
        None
    }
}

/// Whether an executable parse result carries exactly the parts of a spec
/// parse result.
pub open spec fn parsed_matches(
    r: Option<ParsedHeader>,
    p: Option<(Seq<char>, Option<Seq<char>>, Seq<char>)>,
) -> bool {
    match (r, p) {
        (Option::None, Option::None) => true,
        (Option::Some(h), Option::Some(t)) => {
            &&& h.commit_type@ == t.0
            &&& match (h.scope, t.1) {
                (Option::None, Option::None) => true,
                (Option::Some(a), Option::Some(b)) => a@ == b,
                _ => false,
            }
            &&& h.subject@ == t.2
        },
        _ => false,
    }
}

/// The result of matching the prefix `type[(scope)]:` at the start of
/// `line`, without demanding a space or a subject after the colon: the
/// type, the scope when one is present, and the position right after the
/// colon.
pub open spec fn spec_parse_type_scope(line: Seq<char>) -> Option<
    (Seq<char>, Option<Seq<char>>, int),
> {
    let t = run_end(line, 0, |c| is_word_char(c));
    if t == 0 {
        None
    } else if t < line.len() && line[t] == '(' {
        let e = run_end(line, t + 1, |c| is_scope_char(c));
        if e == t + 1 {
            None
        } else if e < line.len() && line[e] == ')' && e + 1 < line.len() && line[e + 1] == ':' {
            Some((line.take(t), Some(line.subrange(t + 1, e)), e + 2))
        } else {
            None
        }
    } else if t < line.len() && line[t] == ':' {
        Some((line.take(t), None, t + 1))
    } else {
        None
    }
}

/// Whether an executable prefix-parse result carries exactly the parts
/// of a spec prefix-parse result.
pub open spec fn prefix_matches(
    r: Option<(String, Option<String>, usize)>,
    p: Option<(Seq<char>, Option<Seq<char>>, int)>,
) -> bool {
    match (r, p) {
        (Option::None, Option::None) => true,
        (Option::Some(h), Option::Some(t)) => {
            &&& h.0@ == t.0
            &&& match (h.1, t.1) {
                (Option::None, Option::None) => true,
                (Option::Some(a), Option::Some(b)) => a@ == b,
                _ => false,
            }
            &&& h.2 == t.2
        },
        _ => false,
    }
}

/// Match the prefix `type[(scope)]:` at the start of `line`.
pub fn parse_type_scope_prefix(line: &Vec<char>) -> (r: Option<(String, Option<String>, usize)>)
    ensures
        prefix_matches(r, spec_parse_type_scope(line@)),
{
    let n = line.len();
    let mut t: usize = 0;
    while t < n && word_char(line[t])
        invariant
            t <= n,
            n == line@.len(),
            forall|j: int| 0 <= j < t ==> is_word_char(line@[j]),
        decreases n - t,
    {
        t = t + 1;
    }
    proof {
        lemma_run_end(line@, 0, |c| is_word_char(c));
        assert(run_end(line@, 0, |c| is_word_char(c)) == t);
    }
    if t == 0 {
        return None;
    }
    if t < n && line[t] == '(' {
        let mut e: usize = t + 1;
        while e < n && scope_char(line[e])
            invariant
                t + 1 <= e <= n,
                n == line@.len(),
                forall|j: int| t + 1 <= j < e ==> is_scope_char(line@[j]),
            decreases n - e,
        {
            e = e + 1;
        }
        proof {
            lemma_run_end(line@, t + 1, |c| is_scope_char(c));
            assert(run_end(line@, t + 1, |c| is_scope_char(c)) == e);
        }
        if e == t + 1 {
            return None;
        }
        if e < n && line[e] == ')' && n - e > 1 && line[e + 1] == ':' {
            let commit_type = chars_substring(line, 0, t);
            let scope = chars_substring(line, t + 1, e);
            Some((commit_type, Some(scope), e + 2))
        } else {
            None
        }
    } else if t < n && line[t] == ':' {
        let commit_type = chars_substring(line, 0, t);
        Some((commit_type, None, t + 1))
    } else {
        None
    }
}

/// A successful prefix match ends inside the line: the position after
/// the colon is positive and at most the line's length.
pub proof fn lemma_parse_type_scope_bounds(line: Seq<char>)
    ensures
        match spec_parse_type_scope(line) {
            Some(p) => 0 < p.2 <= line.len(),
            None => true,
        },
{
    lemma_run_end(line, 0, |c| is_word_char(c));
    let t = run_end(line, 0, |c| is_word_char(c));
    if 0 <= t && t < line.len() {
        lemma_run_end(line, t + 1, |c| is_scope_char(c));
    }
}

/// Whether `c` is a word character.
pub fn word_char(c: char) -> (r: bool)
    ensures
        r == is_word_char(c),
{
    ('a' <= c && c <= 'z') || ('A' <= c && c <= 'Z') || ('0' <= c && c <= '9') || c == '_'
}

/// Whether `c` is a scope character.
pub fn scope_char(c: char) -> (r: bool)
    ensures
        r == is_scope_char(c),
{
    word_char(c) || c == '-'
}

/// Parse a single line against the header grammar.
pub fn parse_header_line(line: &Vec<char>) -> (r: Option<ParsedHeader>)
    ensures
        parsed_matches(r, spec_parse_header(line@)),
{
    let n = line.len();
    let mut t: usize = 0;
    while t < n && word_char(line[t])
        invariant
            t <= n,
            n == line@.len(),
            forall|j: int| 0 <= j < t ==> is_word_char(line@[j]),
        decreases n - t,
    {
        t = t + 1;
    }
    proof {
        lemma_run_end(line@, 0, |c| is_word_char(c));
        assert(run_end(line@, 0, |c| is_word_char(c)) == t);
    }
    if t == 0 {
        return None;
    }
    if t < n && line[t] == '(' {
        let mut e: usize = t + 1;
        while e < n && scope_char(line[e])
            invariant
                t + 1 <= e <= n,
                n == line@.len(),
                forall|j: int| t + 1 <= j < e ==> is_scope_char(line@[j]),
            decreases n - e,
        {
            e = e + 1;
        }
        proof {
            lemma_run_end(line@, t + 1, |c| is_scope_char(c));
            assert(run_end(line@, t + 1, |c| is_scope_char(c)) == e);
        }
        if e == t + 1 {
            return None;
        }
        if e < n && line[e] == ')' && n - e > 3 && line[e + 1] == ':' && line[e + 2] == ' ' {
            let commit_type = chars_substring(line, 0, t);
            let scope = chars_substring(line, t + 1, e);
            let subject = chars_substring(line, e + 3, n);
            Some(ParsedHeader { commit_type, scope: Some(scope), subject })
        } else {
            None
        }
    } else if n - t > 2 && line[t] == ':' && line[t + 1] == ' ' {
        let commit_type = chars_substring(line, 0, t);
        let subject = chars_substring(line, t + 2, n);
        Some(ParsedHeader { commit_type, scope: None, subject })
    } else {
        None
    }
}

} // verus!
