//! Data types for commit-history statistics.
//!
//! The aggregation itself runs over version-control process output and
//! renders percentages, so it lives outside the verified core; the core
//! contributes the header grammar through which each commit subject is
//! classified.

use vstd::prelude::*;

use crate::grammar::{parse_header_line, spec_parse_header};
use crate::strutil::{eq_str, spec_split_char, split_on_char, str_to_chars};

verus! {

/// Statistics for commit types: totals keyed by type, scope, contributor
/// and date.
#[derive(Debug)]
pub struct CommitStats {
    pub total_commits: u64,
    pub type_counts: Vec<(String, u64)>,
    pub scope_counts: Vec<(String, u64)>,
    pub contributors: Vec<(String, u64)>,
    pub commits_by_date: Vec<(String, u64)>,
}

impl CommitStats {
    /// Empty statistics: nothing counted yet.
    pub fn new() -> (r: Self)
        ensures
            r.total_commits == 0,
            r.type_counts@.len() == 0,
            r.scope_counts@.len() == 0,
            r.contributors@.len() == 0,
            r.commits_by_date@.len() == 0,
    {
        CommitStats {
            total_commits: 0,
            type_counts: Vec::new(),
            scope_counts: Vec::new(),
            contributors: Vec::new(),
            commits_by_date: Vec::new(),
        }
    }
}

/// The position of the pair keyed `key` in `cs`, looking from `i` on;
/// `-1` when there is none.
pub open spec fn pair_index_from(cs: Seq<(Seq<char>, u64)>, key: Seq<char>, i: int) -> int
    decreases cs.len() - i,
{
    if i < 0 || i >= cs.len() {
        -1
    } else if cs[i].0 == key {
        i
    } else {
        pair_index_from(cs, key, i + 1)
    }
}

/// Characterization of `pair_index_from`.
pub proof fn lemma_pair_index_from(cs: Seq<(Seq<char>, u64)>, key: Seq<char>, k: int)
    requires
        0 <= k <= cs.len(),
    ensures
        ({
            let r = pair_index_from(cs, key, k);
            (r == -1 && (forall|j: int| k <= j < cs.len() ==> cs[j].0 != key)) || (k <= r
                < cs.len() && cs[r].0 == key && (forall|j: int| k <= j < r ==> cs[j].0 != key))
        }),
    decreases cs.len() - k,
{
    if k < cs.len() && cs[k].0 != key {
        lemma_pair_index_from(cs, key, k + 1);
    }
}

/// The counter list after counting `key` once more: the first pair keyed
/// `key` rises by one (sticking at the maximum), or a fresh pair at one
/// is appended.
pub open spec fn spec_bump(cs: Seq<(Seq<char>, u64)>, key: Seq<char>) -> Seq<(Seq<char>, u64)> {
    let i = pair_index_from(cs, key, 0);
    if i < 0 {
        cs.push((key, 1u64))
    } else {
        cs.update(
            i,
            (
                cs[i].0,
                if cs[i].1 == u64::MAX {
                    cs[i].1
                } else {
                    (cs[i].1 + 1) as u64
                },
            ),
        )
    }
}

/// Count `key` once more in `counts`.
fn bump(counts: &mut Vec<(String, u64)>, key: &str)
    ensures
        final(counts).deep_view() == spec_bump(old(counts).deep_view(), key@),
{
    let ghost cs0 = counts.deep_view();
    let n = counts.len();
    let mut i: usize = 0;
    proof {
        assert(cs0.len() == counts@.len());
        assert(forall|q: int| 0 <= q < cs0.len() ==> cs0[q] == (counts@[q].0@, counts@[q].1));
    }
    while i < n
        invariant
            i <= n,
            n == counts@.len(),
            counts.deep_view() == cs0,
            old(counts).deep_view() == cs0,
            cs0.len() == counts@.len(),
            forall|q: int| 0 <= q < cs0.len() ==> cs0[q] == (counts@[q].0@, counts@[q].1),
            forall|j: int| 0 <= j < i ==> cs0[j].0 != key@,
        decreases n - i,
    {
        if eq_str(counts[i].0.as_str(), key) {
            proof {
                lemma_pair_index_from(cs0, key@, 0);
                assert(cs0[i as int].0 == key@);
                assert(pair_index_from(cs0, key@, 0) == i);
            }
            let c = counts[i].1;
            let nc = if c == u64::MAX {
                c
            } else {
                c + 1
            };
            let k2 = counts[i].0.clone();
            let ghost pre = counts@;
            counts.set(i, (k2, nc));
            proof {
                let cs1 = spec_bump(cs0, key@);
                assert forall|q: int|
                    0 <= q < counts@.len() implies #[trigger] counts.deep_view()[q] == cs1[q] by {
                    if q == i as int {
                        assert(counts@[q] == (k2, nc));
                        assert(cs1[q] == (cs0[i as int].0, nc));
                        assert(k2@ == cs0[i as int].0);
                    } else {
                        assert(counts@[q] == pre[q]);
                        assert(pre[q].deep_view() == cs0[q]);
                        assert(cs1[q] == cs0[q]);
                    }
                }
                assert(counts.deep_view() =~= cs1);
            }
            return ;
        }
        i = i + 1;
    }
    proof {
        lemma_pair_index_from(cs0, key@, 0);
        assert(pair_index_from(cs0, key@, 0) == -1);
    }
    counts.push((key.to_owned(), 1));
    proof {
        assert(counts.deep_view() =~= spec_bump(cs0, key@));
    }
}

/// The spec-level mirror of the statistics being accumulated.
pub struct SpecStats {
    pub total: int,
    pub types: Seq<(Seq<char>, u64)>,
    pub scopes: Seq<(Seq<char>, u64)>,
    pub contributors: Seq<(Seq<char>, u64)>,
    pub dates: Seq<(Seq<char>, u64)>,
}

/// Statistics before any line has been counted.
pub open spec fn spec_stats_empty() -> SpecStats {
    SpecStats {
        total: 0,
        types: Seq::empty(),
        scopes: Seq::empty(),
        contributors: Seq::empty(),
        dates: Seq::empty(),
    }
}

/// One log line's contribution to the statistics: a line of the form
/// `hash|author|mail|date|subject` counts its author and date, counts
/// the subject's type and scope when the subject matches the header
/// grammar, and raises the total; empty or malformed lines count
/// nothing.
pub open spec fn spec_tally_step(st: SpecStats, line: Seq<char>) -> SpecStats {
    if line.len() == 0 {
        st
    } else {
        let parts = spec_split_char(line, '|');
        if parts.len() < 5 {
            st
        } else {
            let classified = match spec_parse_header(parts[4]) {
                Some(h) => SpecStats {
                    types: spec_bump(st.types, h.0),
                    scopes: match h.1 {
                        Some(sc) => spec_bump(st.scopes, sc),
                        None => st.scopes,
                    },
                    ..st
                },
                None => st,
            };
            SpecStats {
                total: classified.total + 1,
                contributors: spec_bump(classified.contributors, parts[1]),
                dates: spec_bump(classified.dates, parts[3]),
                ..classified
            }
        }
    }
}

/// The statistics after counting the first `k` lines.
pub open spec fn spec_tally_upto(lines: Seq<Seq<char>>, k: int) -> SpecStats
    decreases k,
{
    if k <= 0 {
        spec_stats_empty()
    } else {
        spec_tally_step(spec_tally_upto(lines, k - 1), lines[k - 1])
    }
}

/// The statistics after counting every line.
pub open spec fn spec_tally(lines: Seq<Seq<char>>) -> SpecStats {
    spec_tally_upto(lines, lines.len() as int)
}

/// The total never outgrows the number of lines counted.
proof fn lemma_tally_total_bound(lines: Seq<Seq<char>>, k: int)
    requires
        k <= lines.len(),
    ensures
        0 <= spec_tally_upto(lines, k).total <= (if k <= 0 {
            0int
        } else {
            k
        }),
    decreases k,
{
    if k > 0 {
        lemma_tally_total_bound(lines, k - 1);
    }
}

/// Aggregate commit-log lines into statistics: each line of the form
/// `hash|author|mail|date|subject` counts once; subjects matching the
/// header grammar are counted by type and scope.
pub fn tally_commit_lines(lines: &Vec<String>) -> (r: CommitStats)
    ensures
        ({
            let st = spec_tally(lines.deep_view());
            &&& r.total_commits == st.total
            &&& r.type_counts.deep_view() == st.types
            &&& r.scope_counts.deep_view() == st.scopes
            &&& r.contributors.deep_view() == st.contributors
            &&& r.commits_by_date.deep_view() == st.dates
        }),
{
    let mut stats = CommitStats::new();
    let n = lines.len();
    let mut k: usize = 0;
    proof {
        assert(stats.type_counts.deep_view() =~= Seq::<(Seq<char>, u64)>::empty());
        assert(stats.scope_counts.deep_view() =~= Seq::<(Seq<char>, u64)>::empty());
        assert(stats.contributors.deep_view() =~= Seq::<(Seq<char>, u64)>::empty());
        assert(stats.commits_by_date.deep_view() =~= Seq::<(Seq<char>, u64)>::empty());
    }
    while k < n
        invariant
            k <= n,
            n == lines@.len(),
            n == lines.deep_view().len(),
            stats.total_commits == spec_tally_upto(lines.deep_view(), k as int).total,
            stats.type_counts.deep_view() == spec_tally_upto(lines.deep_view(), k as int).types,
            stats.scope_counts.deep_view() == spec_tally_upto(lines.deep_view(), k as int).scopes,
            stats.contributors.deep_view() == spec_tally_upto(
                lines.deep_view(),
                k as int,
            ).contributors,
            stats.commits_by_date.deep_view() == spec_tally_upto(
                lines.deep_view(),
                k as int,
            ).dates,
        decreases n - k,
    {
        let ghost st_pre = spec_tally_upto(lines.deep_view(), k as int);
        let ghost line_view = lines.deep_view()[k as int];
        proof {
            assert(line_view == lines@[k as int]@);
            lemma_tally_total_bound(lines.deep_view(), k as int);
        }
        let line = &lines[k];
        if !line.as_str().is_empty() {
            let parts = split_on_char(line.as_str(), '|');
            if parts.len() >= 5 {
                let subject_chars = str_to_chars(parts[4].as_str());
                proof {
                    assert(parts.deep_view()[4] == parts@[4]@);
                    assert(parts.deep_view()[1] == parts@[1]@);
                    assert(parts.deep_view()[3] == parts@[3]@);
                }
                match parse_header_line(&subject_chars) {
                    Some(header) => {
                        bump(&mut stats.type_counts, header.commit_type.as_str());
                        match &header.scope {
                            Some(sc) => bump(&mut stats.scope_counts, sc.as_str()),
                            None => {},
                        }
                    },
                    None => {},
                }
                bump(&mut stats.contributors, parts[1].as_str());
                bump(&mut stats.commits_by_date, parts[3].as_str());
                stats.total_commits = stats.total_commits + 1;
            }
        }
        proof {
            assert(spec_tally_upto(lines.deep_view(), k as int + 1) == spec_tally_step(
                st_pre,
                line_view,
            ));
        }
        k = k + 1;
    }
    stats
}

/// Analyzes the commit history of one repository.
pub struct CommitAnalyzer {
    pub repo_path: String,
}

impl CommitAnalyzer {
    /// Create a new commit analyzer for the given repository.
    pub fn new(repo_path: &str) -> (r: Self)
        ensures
            r.repo_path@ == repo_path@,
    {
        CommitAnalyzer { repo_path: repo_path.to_owned() }
    }
}

} // verus!
