//! The changelog document editor: formats entries from commit fields and
//! inserts them at the right place in the document's line list.
//!
//! The document is an ordered list of lines; a version section starts at
//! a line beginning with `## `. New entries go directly below the first
//! section header, after a blank separator line; when no header exists, a
//! dated header is appended first. Reading and writing the file itself
//! happens outside the verified core.

use vstd::prelude::*;

use crate::strutil::{
    chars_to_string, eq_str, first_index_from, lemma_first_index_from, spec_lines, spec_trim,
    split_lines, starts_with, str_starts_with, str_to_chars, strip_cr, trim_chars,
};

verus! {

/// Manages a changelog document for one project.
#[derive(Debug, Clone)]
pub struct ChangelogManager {
    pub file_path: String,
    pub project_name: String,
    pub version: Option<String>,
}

/// The changelog label of a commit type: the human wording of the
/// standard types; any other type stands as its own label.
pub open spec fn spec_display_type(t: Seq<char>) -> Seq<char> {
    if t == "feat"@ {
        "Added"@
    } else if t == "fix"@ {
        "Fixed"@
    } else if t == "perf"@ {
        "Performance"@
    } else if t == "refactor"@ {
        "Changed"@
    } else if t == "docs"@ {
        "Documentation"@
    } else if t == "test"@ {
        "Tests"@
    } else if t == "build"@ {
        "Build"@
    } else if t == "ci"@ {
        "CI"@
    } else if t == "chore"@ {
        "Maintenance"@
    } else if t == "style"@ {
        "Style"@
    } else if t == "revert"@ {
        "Reverted"@
    } else {
        t
    }
}

/// The changelog label of a commit type.
pub fn display_type(commit_type: &str) -> (r: String)
    ensures
        r@ == spec_display_type(commit_type@),
{
    if eq_str(commit_type, "feat") {
        "Added".to_owned()
    } else if eq_str(commit_type, "fix") {
        "Fixed".to_owned()
    } else if eq_str(commit_type, "perf") {
        "Performance".to_owned()
    } else if eq_str(commit_type, "refactor") {
        "Changed".to_owned()
    } else if eq_str(commit_type, "docs") {
        "Documentation".to_owned()
    } else if eq_str(commit_type, "test") {
        "Tests".to_owned()
    } else if eq_str(commit_type, "build") {
        "Build".to_owned()
    } else if eq_str(commit_type, "ci") {
        "CI".to_owned()
    } else if eq_str(commit_type, "chore") {
        "Maintenance".to_owned()
    } else if eq_str(commit_type, "style") {
        "Style".to_owned()
    } else if eq_str(commit_type, "revert") {
        "Reverted".to_owned()
    } else {
        commit_type.to_owned()
    }
}

/// The sub-bullets a body contributes to an entry: each non-blank line,
/// trimmed, on an indented bullet of its own.
pub open spec fn spec_bullets(ls: Seq<Seq<char>>) -> Seq<char>
    decreases ls.len(),
{
    if ls.len() == 0 {
        Seq::empty()
    } else {
        (if spec_trim(ls[0]).len() > 0 {
            seq!['\n', ' ', ' ', '-', ' '] + spec_trim(ls[0])
        } else {
            Seq::<char>::empty()
        }) + spec_bullets(ls.drop_first())
    }
}

/// A formatted changelog entry: the labelled type in bold, the scope in
/// parentheses when given, the subject, and one sub-bullet for each
/// non-blank body line.
pub open spec fn spec_format_entry(
    t: Seq<char>,
    scope: Option<Seq<char>>,
    subject: Seq<char>,
    body: Option<Seq<char>>,
) -> Seq<char> {
    seq!['-', ' ', '*', '*'] + spec_display_type(t) + seq!['*', '*'] + (match scope {
        Some(sc) => if sc.len() > 0 {
            seq![' ', '('] + sc + seq![')']
        } else {
            Seq::<char>::empty()
        },
        None => Seq::empty(),
    }) + seq![':', ' '] + subject + (match body {
        Some(b) => if b.len() > 0 {
            spec_bullets(spec_lines(b))
        } else {
            Seq::<char>::empty()
        },
        None => Seq::empty(),
    })
}

/// The view of an optional string slice.
pub open spec fn opt_view(s: Option<&str>) -> Option<Seq<char>> {
    match s {
        Some(x) => Some(x@),
        None => None,
    }
}

/// The dated header line of a version section: `## <label> (<date>)`.
pub open spec fn spec_section_header(label: Seq<char>, date: Seq<char>) -> Seq<char> {
    seq!['#', '#', ' '] + label + seq![' ', '('] + date + seq![')']
}

/// The label under which a new section is created: the configured
/// version, or `Unreleased`.
pub open spec fn spec_version_label(version: Option<String>) -> Seq<char> {
    match version {
        Some(v) => v@,
        None => "Unreleased"@,
    }
}

/// The position of the first line of `ls` at or after `i` that opens a
/// version section, or `-1` when there is none.
pub open spec fn section_index_from(ls: Seq<Seq<char>>, i: int) -> int
    decreases ls.len() - i,
{
    if i < 0 || i >= ls.len() {
        -1
    } else if starts_with(ls[i], "## "@) {
        i
    } else {
        section_index_from(ls, i + 1)
    }
}

/// Characterization of `section_index_from`.
pub proof fn lemma_section_index_from(ls: Seq<Seq<char>>, k: int)
    requires
        0 <= k <= ls.len(),
    ensures
        ({
            let r = section_index_from(ls, k);
            (r == -1 && (forall|j: int| k <= j < ls.len() ==> !starts_with(ls[j], "## "@))) || (k
                <= r < ls.len() && starts_with(ls[r], "## "@) && (forall|j: int|
                k <= j < r ==> !starts_with(ls[j], "## "@)))
        }),
    decreases ls.len() - k,
{
    if k < ls.len() && !starts_with(ls[k], "## "@) {
        lemma_section_index_from(ls, k + 1);
    }
}

/// The document after inserting `entry`: below the first section header
/// when one exists, after a blank line; else after a freshly appended
/// dated section header.
pub open spec fn spec_add_entry(
    ls: Seq<Seq<char>>,
    entry: Seq<char>,
    version: Option<String>,
    date: Seq<char>,
) -> Seq<Seq<char>> {
    let h = section_index_from(ls, 0);
    if h >= 0 {
        ls.insert(h + 1, Seq::<char>::empty()).insert(h + 2, entry)
    } else {
        ls.push(spec_section_header(spec_version_label(version), date)).push(
            Seq::<char>::empty(),
        ).push(entry)
    }
}

/// The document after promoting its `Unreleased` section to
/// `new_version`: the first line starting `## Unreleased` becomes the
/// dated header of `new_version`, and a fresh blank `## Unreleased`
/// header stands above it; a document without such a line is unchanged.
pub open spec fn spec_update_version(
    ls: Seq<Seq<char>>,
    new_version: Seq<char>,
    date: Seq<char>,
) -> Seq<Seq<char>> {
    let u = unreleased_index_from(ls, 0);
    if u < 0 {
        ls
    } else {
        ls.update(u, spec_section_header(new_version, date)).insert(u, "## Unreleased"@).insert(
            u + 1,
            Seq::<char>::empty(),
        )
    }
}

/// The position of the first line of `ls` at or after `i` that starts
/// the `Unreleased` section, or `-1` when there is none.
pub open spec fn unreleased_index_from(ls: Seq<Seq<char>>, i: int) -> int
    decreases ls.len() - i,
{
    if i < 0 || i >= ls.len() {
        -1
    } else if starts_with(ls[i], "## Unreleased"@) {
        i
    } else {
        unreleased_index_from(ls, i + 1)
    }
}

/// Characterization of `unreleased_index_from`.
pub proof fn lemma_unreleased_index_from(ls: Seq<Seq<char>>, k: int)
    requires
        0 <= k <= ls.len(),
    ensures
        ({
            let r = unreleased_index_from(ls, k);
            (r == -1 && (forall|j: int|
                k <= j < ls.len() ==> !starts_with(ls[j], "## Unreleased"@))) || (k <= r < ls.len()
                && starts_with(ls[r], "## Unreleased"@) && (forall|j: int|
                k <= j < r ==> !starts_with(ls[j], "## Unreleased"@)))
        }),
    decreases ls.len() - k,
{
    if k < ls.len() && !starts_with(ls[k], "## Unreleased"@) {
        lemma_unreleased_index_from(ls, k + 1);
    }
}

/// A character the local date can render as: an ASCII digit, a hyphen
/// or a plus sign.
pub open spec fn is_date_char(c: char) -> bool {
    ('0' <= c && c <= '9') || c == '-' || c == '+'
}

/// Relies on chrono's `Local::now` and its `%Y-%m-%d` formatting: the
/// current local date renders as zero-padded year, month and day joined
/// by hyphens, a sign prefixed to years outside four digits — so ASCII
/// digits, `-` and `+` only, at least ten characters.
#[verifier::external_body]
fn current_date_string() -> (r: String)
    ensures
        r@.len() >= 10,
        forall|i: int| 0 <= i < r@.len() ==> is_date_char(r@[i]),
{
    chrono::Local::now().format("%Y-%m-%d").to_string()
}

/// The text of a freshly created changelog document for `project`.
pub open spec fn spec_initial_document(project: Seq<char>) -> Seq<char> {
    "# Changelog\n\nAll notable changes to "@ + project
        + " will be documented in this file.\n\nThe format is based on [Keep a Changelog](https://keepachangelog.com/en/1.0.0/),\nand this project adheres to [Semantic Versioning](https://semver.org/spec/v2.0.0.html).\n\n"@
}

impl ChangelogManager {
    /// Creates a new changelog manager.
    pub fn new(path: &str, project_name: &str) -> (r: Self)
        ensures
            r.file_path@ == path@,
            r.project_name@ == project_name@,
            r.version is None,
    {
        ChangelogManager {
            file_path: path.to_owned(),
            project_name: project_name.to_owned(),
            version: None,
        }
    }

    /// Sets the current version for changelog entries.
    pub fn with_version(self, version: &str) -> (r: Self)
        ensures
            r.file_path == self.file_path,
            r.project_name == self.project_name,
            r.version matches Some(v) && v@ == version@,
    {
        ChangelogManager {
            file_path: self.file_path,
            project_name: self.project_name,
            version: Some(version.to_owned()),
        }
    }

    /// The text a freshly created changelog document holds.
    pub fn initial_document(&self) -> (r: String)
        ensures
            r@ == spec_initial_document(self.project_name@),
    {
        let mut s = "# Changelog\n\nAll notable changes to ".to_owned();
        s.append(self.project_name.as_str());
        s.append(
            " will be documented in this file.\n\nThe format is based on [Keep a Changelog](https://keepachangelog.com/en/1.0.0/),\nand this project adheres to [Semantic Versioning](https://semver.org/spec/v2.0.0.html).\n\n",
        );
        s
    }

    /// Formats a changelog entry from commit fields.
    pub fn format_entry(
        &self,
        commit_type: &str,
        scope: Option<&str>,
        subject: &str,
        body: Option<&str>,
    ) -> (r: String)
        ensures
            r@ == spec_format_entry(commit_type@, opt_view(scope), subject@, opt_view(body)),
    {
        let mut entry = "- **".to_owned();
        let label = display_type(commit_type);
        entry.append(label.as_str());
        entry.append("**");
        proof {
            assert(entry@ =~= seq!['-', ' ', '*', '*'] + spec_display_type(commit_type@)
                + seq!['*', '*']) by {
                reveal_strlit("- **");
                reveal_strlit("**");
            }
        }
        match scope {
            Some(scope_value) => {
                if !scope_value.is_empty() {
                    entry.append(" (");
                    entry.append(scope_value);
                    entry.append(")");
                    proof {
                        reveal_strlit(" (");
                        reveal_strlit(")");
                    }
                }
            },
            None => {},
        }
        let ghost scope_part = entry@;
        entry.append(": ");
        entry.append(subject);
        proof {
            reveal_strlit(": ");
            assert(entry@ =~= scope_part + seq![':', ' '] + subject@);
        }
        let ghost subject_part = entry@;
        match body {
            Some(body_text) => {
                if !body_text.is_empty() {
                    let body_lines = split_lines(body_text);
                    let ghost bls = spec_lines(body_text@);
                    let mut i: usize = 0;
                    proof {
                        assert(bls.skip(0) =~= bls);
                    }
                    while i < body_lines.len()
                        invariant
                            i <= body_lines@.len(),
                            body_lines.deep_view() == bls,
                            body_lines@.len() == bls.len(),
                            entry@ + spec_bullets(bls.skip(i as int)) == subject_part
                                + spec_bullets(bls),
                        decreases body_lines@.len() - i,
                    {
                        let ghost tail = bls.skip(i as int);
                        let line_chars = str_to_chars(body_lines[i].as_str());
                        let trimmed = trim_chars(&line_chars);
                        proof {
                            assert(bls[i as int] == body_lines@[i as int]@);
                            assert(tail[0] == bls[i as int]);
                            assert(tail.drop_first() =~= bls.skip(i as int + 1));
                        }
                        if trimmed.len() > 0 {
                            let ghost before = entry@;
                            entry.append("\n  - ");
                            let trimmed_str = chars_to_string(&trimmed);
                            entry.append(trimmed_str.as_str());
                            proof {
                                reveal_strlit("\n  - ");
                                assert(entry@ =~= before + (seq!['\n', ' ', ' ', '-', ' ']
                                    + spec_trim(bls[i as int])));
                            }
                        }
                        i = i + 1;
                    }
                    proof {
                        assert(bls.skip(bls.len() as int) =~= Seq::<Seq<char>>::empty());
                    }
                }
            },
            None => {},
        }
        proof {
            assert(entry@ =~= spec_format_entry(
                commit_type@,
                opt_view(scope),
                subject@,
                opt_view(body),
            ));
        }
        entry
    }

    /// Insert a formatted entry into the document's line list: below the
    /// first section header when one exists, else after a freshly
    /// appended header labelled with the configured version (or
    /// `Unreleased`) and dated `date`.
    pub fn add_entry_lines(
        &self,
        lines: Vec<String>,
        commit_type: &str,
        scope: Option<&str>,
        subject: &str,
        body: Option<&str>,
        date: &str,
    ) -> (r: Vec<String>)
        ensures
            r.deep_view() == spec_add_entry(
                lines.deep_view(),
                spec_format_entry(commit_type@, opt_view(scope), subject@, opt_view(body)),
                self.version,
                date@,
            ),
    {
        let entry = self.format_entry(commit_type, scope, subject, body);
        let mut lines = lines;
        let ghost ls0 = lines.deep_view();
        let n = lines.len();
        let mut h: usize = 0;
        let mut found = false;
        while h < n && !found
            invariant
                h <= n,
                n == lines@.len(),
                lines.deep_view() == ls0,
                lines@.len() == ls0.len(),
                found ==> h < n && starts_with(ls0[h as int], "## "@),
                forall|j: int| 0 <= j < h ==> !starts_with(ls0[j], "## "@),
            decreases n - h + (if found { 0int } else { 1int }),
        {
            if str_starts_with(lines[h].as_str(), "## ") {
                found = true;
            } else {
                h = h + 1;
            }
        }
        proof {
            lemma_section_index_from(ls0, 0);
            if found {
                assert(section_index_from(ls0, 0) == h);
            } else {
                assert(section_index_from(ls0, 0) == -1);
            }
        }
        if found {
            lines.insert(h + 1, entry);
            lines.insert(h + 1, String::new());
            proof {
                assert(lines.deep_view() =~= ls0.insert(h + 1, Seq::<char>::empty()).insert(
                    h + 2,
                    spec_format_entry(commit_type@, opt_view(scope), subject@, opt_view(body)),
                ));
            }
        } else {
            let mut header = "## ".to_owned();
            match &self.version {
                Some(v) => header.append(v.as_str()),
                None => header.append("Unreleased"),
            }
            header.append(" (");
            header.append(date);
            header.append(")");
            proof {
                reveal_strlit("## ");
                reveal_strlit(" (");
                reveal_strlit(")");
                assert(header@ =~= spec_section_header(spec_version_label(self.version), date@));
            }
            lines.push(header);
            lines.push(String::new());
            lines.push(entry);
            proof {
                assert(lines.deep_view() =~= ls0.push(
                    spec_section_header(spec_version_label(self.version), date@),
                ).push(Seq::<char>::empty()).push(
                    spec_format_entry(commit_type@, opt_view(scope), subject@, opt_view(body)),
                ));
            }
        }
        lines
    }

    /// Promote the document's `Unreleased` section to `new_version`,
    /// dating it `date` and opening a fresh blank `Unreleased` header
    /// above it; a document without an `Unreleased` header is unchanged.
    pub fn update_version_lines(
        &self,
        lines: Vec<String>,
        new_version: &str,
        date: &str,
    ) -> (r: Vec<String>)
        ensures
            r.deep_view() == spec_update_version(lines.deep_view(), new_version@, date@),
    {
        let mut lines = lines;
        let ghost ls0 = lines.deep_view();
        let n = lines.len();
        let mut u: usize = 0;
        let mut found = false;
        while u < n && !found
            invariant
                u <= n,
                n == lines@.len(),
                lines.deep_view() == ls0,
                lines@.len() == ls0.len(),
                found ==> u < n && starts_with(ls0[u as int], "## Unreleased"@),
                forall|j: int| 0 <= j < u ==> !starts_with(ls0[j], "## Unreleased"@),
            decreases n - u + (if found { 0int } else { 1int }),
        {
            if str_starts_with(lines[u].as_str(), "## Unreleased") {
                found = true;
            } else {
                u = u + 1;
            }
        }
        proof {
            lemma_unreleased_index_from(ls0, 0);
            if found {
                assert(unreleased_index_from(ls0, 0) == u);
            } else {
                assert(unreleased_index_from(ls0, 0) == -1);
            }
        }
        if found {
            let mut header = "## ".to_owned();
            header.append(new_version);
            header.append(" (");
            header.append(date);
            header.append(")");
            proof {
                reveal_strlit("## ");
                reveal_strlit(" (");
                reveal_strlit(")");
                assert(header@ =~= spec_section_header(new_version@, date@));
            }
            lines.set(u, header);
            lines.insert(u, "## Unreleased".to_owned());
            lines.insert(u + 1, String::new());
            proof {
                assert(lines.deep_view() =~= ls0.update(
                    u as int,
                    spec_section_header(new_version@, date@),
                ).insert(u as int, "## Unreleased"@).insert(u + 1, Seq::<char>::empty()));
            }
        }
        lines
    }

    /// Insert a formatted entry into the document's line list, dating a
    /// freshly created section header with the current local date; the
    /// date used is returned beside the new line list.
    pub fn add_entry_today(
        &self,
        lines: Vec<String>,
        commit_type: &str,
        scope: Option<&str>,
        subject: &str,
        body: Option<&str>,
    ) -> (r: (Vec<String>, String))
        ensures
            r.0.deep_view() == spec_add_entry(
                lines.deep_view(),
                spec_format_entry(commit_type@, opt_view(scope), subject@, opt_view(body)),
                self.version,
                r.1@,
            ),
            r.1@.len() >= 10,
            forall|i: int| 0 <= i < r.1@.len() ==> is_date_char(r.1@[i]),
    {
        let date = current_date_string();
        let out = self.add_entry_lines(lines, commit_type, scope, subject, body, date.as_str());
        (out, date)
    }

    /// Promote the document's `Unreleased` section to `new_version`,
    /// dating the promoted header with the current local date; the date
    /// used is returned beside the new line list.
    pub fn update_version_today(&self, lines: Vec<String>, new_version: &str) -> (r: (
        Vec<String>,
        String,
    ))
        ensures
            r.0.deep_view() == spec_update_version(lines.deep_view(), new_version@, r.1@),
            r.1@.len() >= 10,
            forall|i: int| 0 <= i < r.1@.len() ==> is_date_char(r.1@[i]),
    {
        let date = current_date_string();
        let out = self.update_version_lines(lines, new_version, date.as_str());
        (out, date)
    }
}

/// A line of `spec_lines(s)` can only open with a given prefix if that
/// prefix stands in `s` at the very start or right after a newline.
proof fn lemma_lines_prefix_free(s: Seq<char>, p: Seq<char>)
    requires
        !starts_with(s, p),
        forall|i: int| 0 <= i < s.len() && s[i] == '\n' ==> !starts_with(#[trigger] s.skip(i + 1), p),
    ensures
        forall|k: int| 0 <= k < spec_lines(s).len() ==> !starts_with(#[trigger] spec_lines(s)[k], p),
    decreases s.len(),
{
    if s.len() == 0 {
    } else {
        let i = first_index_from(s, '\n', 0);
        lemma_first_index_from(s, '\n', 0);
        if i < 0 || i >= s.len() {
            assert(spec_lines(s) =~= seq![s]);
        } else {
            let line0 = strip_cr(s.take(i));
            if starts_with(line0, p) {
                assert(s.subrange(0, p.len() as int) =~= line0.subrange(0, p.len() as int));
                assert(false);
            }
            let rest = s.skip(i + 1);
            assert(!starts_with(rest, p));
            assert forall|j: int|
                0 <= j < rest.len() && rest[j] == '\n' implies !starts_with(
                #[trigger] rest.skip(j + 1),
                p,
            ) by {
                assert(rest[j] == s[i + 1 + j]);
                assert(rest.skip(j + 1) =~= s.skip(i + 1 + j + 1));
            }
            lemma_lines_prefix_free(rest, p);
            assert forall|k: int|
                0 <= k < spec_lines(s).len() implies !starts_with(
                #[trigger] spec_lines(s)[k],
                p,
            ) by {
                if k > 0 {
                    assert(spec_lines(s)[k] == spec_lines(rest)[k - 1]);
                }
            }
        }
    }
}

/// The lines of a freshly created changelog document hold no section
/// header, whatever project name (free of line breaks) stands in it.
pub proof fn lemma_initial_document_headerless(project: Seq<char>)
    requires
        forall|i: int| 0 <= i < project.len() ==> project[i] != '\n',
    ensures
        forall|k: int|
            0 <= k < spec_lines(spec_initial_document(project)).len() ==> !starts_with(
                #[trigger] spec_lines(spec_initial_document(project))[k],
                "## "@,
            ),
{
    let a = "# Changelog\n\nAll notable changes to "@;
    let b =
        " will be documented in this file.\n\nThe format is based on [Keep a Changelog](https://keepachangelog.com/en/1.0.0/),\nand this project adheres to [Semantic Versioning](https://semver.org/spec/v2.0.0.html).\n\n"@;
    let s = spec_initial_document(project);
    reveal_strlit("# Changelog\n\nAll notable changes to ");
    reveal_strlit(
        " will be documented in this file.\n\nThe format is based on [Keep a Changelog](https://keepachangelog.com/en/1.0.0/),\nand this project adheres to [Semantic Versioning](https://semver.org/spec/v2.0.0.html).\n\n",
    );
    reveal_strlit("## ");
    let al = a.len() as int;
    let pl = project.len() as int;
    let bl = b.len() as int;
    assert(s == a + project + b);
    assert(al == 36 && bl == 205);
    assert(!starts_with(s, "## "@)) by {
        if starts_with(s, "## "@) {
            assert(s.subrange(0, 3)[1] == s[1]);
            assert(s[1] == a[1]);
            assert(a[1] == ' ');
            assert(false);
        }
    }
    assert forall|i: int|
        0 <= i < s.len() && s[i] == '\n' implies !starts_with(#[trigger] s.skip(i + 1), "## "@) by {
        if starts_with(s.skip(i + 1), "## "@) {
            assert(s.skip(i + 1).subrange(0, 3)[0] == s[i + 1]);
            assert(s[i + 1] == '#');
            if i < al {
                assert(a[i] == '\n');
                assert(i == 11 || i == 12) by {
                    assert(forall|q: int| 0 <= q < 36 && q != 11 && q != 12 ==> a[q] != '\n');
                }
                assert(s[i + 1] == a[i + 1]);
                assert(a[12] == '\n' && a[13] == 'A');
                assert(false);
            } else if i < al + pl {
                assert(s[i] == project[i - al]);
                assert(false);
            } else {
                let j = i - al - pl;
                assert(b[j] == '\n');
                assert(j == 33 || j == 34 || j == 115 || j == 203 || j == 204) by {
                    assert(forall|q: int|
                        0 <= q < 205 && q != 33 && q != 34 && q != 115 && q != 203 && q != 204
                            ==> b[q] != '\n');
                }
                if j == 204 {
                    assert(s.skip(i + 1).len() == 0);
                } else {
                    assert(s[i + 1] == b[j + 1]);
                    assert(b[34] == '\n' && b[35] == 'T' && b[116] == 'a' && b[204] == '\n');
                }
                assert(false);
            }
        }
    }
    lemma_lines_prefix_free(s, "## "@);
}

/// Law: adding an entry to a document that holds no section header — a
/// freshly created one in particular — appends exactly one section
/// header, a blank line and the entry, leaving everything else in place;
/// the new header is the only line of the result that opens a section.
pub proof fn lemma_add_entry_fresh_document(
    ls: Seq<Seq<char>>,
    entry: Seq<char>,
    version: Option<String>,
    date: Seq<char>,
)
    requires
        forall|i: int| 0 <= i < ls.len() ==> !starts_with(ls[i], "## "@),
        !starts_with(entry, "## "@),
    ensures
        ({
            let out = spec_add_entry(ls, entry, version, date);
            &&& out.len() == ls.len() + 3
            &&& forall|i: int| 0 <= i < ls.len() ==> out[i] == ls[i]
            &&& out[ls.len() as int] == spec_section_header(spec_version_label(version), date)
            &&& out[ls.len() as int + 1] == Seq::<char>::empty()
            &&& out[ls.len() as int + 2] == entry
            &&& forall|i: int|
                0 <= i < out.len() && i != ls.len() ==> !starts_with(out[i], "## "@)
            &&& section_index_from(out, 0) == ls.len()
        }),
{
    lemma_section_index_from(ls, 0);
    assert(section_index_from(ls, 0) == -1);
    let hdr = spec_section_header(spec_version_label(version), date);
    let out = spec_add_entry(ls, entry, version, date);
    assert(out =~= ls + seq![hdr, Seq::<char>::empty(), entry]);
    assert(starts_with(hdr, "## "@)) by {
        reveal_strlit("## ");
        assert(hdr.subrange(0, 3) =~= "## "@);
    }
    assert(!starts_with(Seq::<char>::empty(), "## "@)) by {
        reveal_strlit("## ");
    }
    lemma_section_index_from(out, 0);
    let r = section_index_from(out, 0);
    if r == -1 {
        assert(starts_with(out[ls.len() as int], "## "@));
        assert(false);
    }
    if r < ls.len() {
        assert(!starts_with(ls[r], "## "@));
        assert(false);
    }
    if r > ls.len() {
        assert(!starts_with(out[ls.len() as int], "## "@));
        assert(false);
    }
}

/// Law: inserting an entry into a freshly created document yields a
/// document holding exactly one section header — freshly appended and
/// dated — with a blank line and then the entry directly below it.
pub proof fn lemma_fresh_changelog_single_entry(
    project: Seq<char>,
    entry: Seq<char>,
    version: Option<String>,
    date: Seq<char>,
)
    requires
        forall|i: int| 0 <= i < project.len() ==> project[i] != '\n',
        !starts_with(entry, "## "@),
    ensures
        ({
            let d0 = spec_lines(spec_initial_document(project));
            let out = spec_add_entry(d0, entry, version, date);
            &&& out.len() == d0.len() + 3
            &&& out[d0.len() as int] == spec_section_header(spec_version_label(version), date)
            &&& out[d0.len() as int + 1] == Seq::<char>::empty()
            &&& out[d0.len() as int + 2] == entry
            &&& forall|i: int|
                0 <= i < out.len() && i != d0.len() ==> !starts_with(out[i], "## "@)
        }),
{
    lemma_initial_document_headerless(project);
    lemma_add_entry_fresh_document(
        spec_lines(spec_initial_document(project)),
        entry,
        version,
        date,
    );
}

/// Law: adding two entries in turn to a document that already holds a
/// section header puts the second entry directly below that same first
/// header, above the first entry; on a document without a header, both
/// entries end up under the one freshly appended header in the same
/// most-recent-first order.
#[verifier::rlimit(80)]
pub proof fn lemma_add_entry_twice(
    ls: Seq<Seq<char>>,
    e1: Seq<char>,
    e2: Seq<char>,
    version: Option<String>,
    d1: Seq<char>,
    d2: Seq<char>,
)
    requires
        !starts_with(e1, "## "@),
        !starts_with(e2, "## "@),
    ensures
        ({
            let h = section_index_from(ls, 0);
            let out2 = spec_add_entry(spec_add_entry(ls, e1, version, d1), e2, version, d2);
            if h >= 0 {
                &&& out2.len() == ls.len() + 4
                &&& forall|i: int| 0 <= i <= h ==> out2[i] == ls[i]
                &&& out2[h + 1] == Seq::<char>::empty()
                &&& out2[h + 2] == e2
                &&& out2[h + 3] == Seq::<char>::empty()
                &&& out2[h + 4] == e1
                &&& forall|i: int| h < i < ls.len() ==> out2[i + 4] == ls[i]
            } else {
                &&& out2.len() == ls.len() + 5
                &&& out2[ls.len() as int] == spec_section_header(
                    spec_version_label(version),
                    d1,
                )
                &&& out2[ls.len() as int + 1] == Seq::<char>::empty()
                &&& out2[ls.len() as int + 2] == e2
                &&& out2[ls.len() as int + 3] == Seq::<char>::empty()
                &&& out2[ls.len() as int + 4] == e1
            }
        }),
{
    lemma_section_index_from(ls, 0);
    let h = section_index_from(ls, 0);
    let out1 = spec_add_entry(ls, e1, version, d1);
    assert(!starts_with(Seq::<char>::empty(), "## "@)) by {
        reveal_strlit("## ");
    }
    if h >= 0 {
        assert(out1 =~= ls.take(h + 1) + seq![Seq::<char>::empty(), e1] + ls.skip(h + 1));
        lemma_section_index_from(out1, 0);
        let r1 = section_index_from(out1, 0);
        assert(out1[h] == ls[h]);
        if r1 == -1 || r1 > h {
            assert(starts_with(out1[h], "## "@));
            assert(false);
        }
        if 0 <= r1 < h {
            assert(out1[r1] == ls[r1]);
            assert(!starts_with(ls[r1], "## "@));
            assert(false);
        }
        assert(r1 == h);
        let out2 = spec_add_entry(out1, e2, version, d2);
        assert(out2 =~= out1.take(h + 1) + seq![Seq::<char>::empty(), e2] + out1.skip(h + 1));
        assert(out2 =~= ls.take(h + 1) + seq![
            Seq::<char>::empty(),
            e2,
            Seq::<char>::empty(),
            e1,
        ] + ls.skip(h + 1));
    } else {
        let hdr = spec_section_header(spec_version_label(version), d1);
        assert(out1 =~= ls + seq![hdr, Seq::<char>::empty(), e1]);
        lemma_add_entry_fresh_document(ls, e1, version, d1);
        let h1 = section_index_from(out1, 0);
        assert(h1 == ls.len());
        let out2 = spec_add_entry(out1, e2, version, d2);
        assert(out2 =~= out1.take(h1 + 1) + seq![Seq::<char>::empty(), e2] + out1.skip(h1 + 1));
    }
}

} // verus!
