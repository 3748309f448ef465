//! Message templates: flat placeholder substitution and the template
//! collection.
//!
//! A template string holds placeholders of the form `{name}`; filling
//! replaces every occurrence of `{name}` with its mapped value, names
//! missing from the mapping staying as they are.

use vstd::prelude::*;

use crate::config::Prefix;
use crate::grammar::{
    lemma_parse_type_scope_bounds, lemma_run_end, parse_type_scope_prefix, run_end,
    spec_parse_type_scope,
};
use crate::strutil::{
    chars_slice, chars_substring, chars_to_string, extend_chars, spec_trim, str_to_chars,
    trim_chars,
};

verus! {

/// Whether `pat` occurs in `s` starting at position `i`.
pub open spec fn occurs_at(s: Seq<char>, pat: Seq<char>, i: int) -> bool {
    0 <= i && i + pat.len() <= s.len() && s.subrange(i, i + pat.len()) == pat
}

/// `s` with every occurrence of `pat` replaced by `rep`, scanning left to
/// right without overlap; `s` itself when `pat` is empty.
pub open spec fn replace_all(s: Seq<char>, pat: Seq<char>, rep: Seq<char>) -> Seq<char>
    decreases s.len(),
{
    if pat.len() == 0 || s.len() == 0 {
        s
    } else if s.len() >= pat.len() && s.take(pat.len() as int) == pat {
        rep + replace_all(s.skip(pat.len() as int), pat, rep)
    } else {
        seq![s[0]] + replace_all(s.drop_first(), pat, rep)
    }
}

/// Whether `pat` occurs in `v` at position `i`.
fn occurs_at_exec(v: &Vec<char>, pat: &Vec<char>, i: usize) -> (r: bool)
    requires
        i <= v@.len(),
    ensures
        r == occurs_at(v@, pat@, i as int),
{
    let n = v.len();
    let m = pat.len();
    if n - i < m {
        proof {
            assert(!occurs_at(v@, pat@, i as int));
        }
        return false;
    }
    let mut k: usize = 0;
    while k < m
        invariant
            k <= m,
            m == pat@.len(),
            n == v@.len(),
            i + m <= n,
            forall|j: int| 0 <= j < k ==> v@[i + j] == pat@[j],
        decreases m - k,
    {
        if v[i + k] != pat[k] {
            proof {
                assert(v@.subrange(i as int, i + m) != pat@) by {
                    assert(v@.subrange(i as int, i + m)[k as int] != pat@[k as int]);
                }
            }
            return false;
        }
        k = k + 1;
    }
    proof {
        assert(v@.subrange(i as int, i + m) =~= pat@);
    }
    true
}

/// Replace every occurrence of `pat` in `s` by `rep`, scanning left to
/// right.
pub fn replace_chars(s: &Vec<char>, pat: &Vec<char>, rep: &Vec<char>) -> (out: Vec<char>)
    ensures
        out@ == replace_all(s@, pat@, rep@),
{
    let n = s.len();
    let m = pat.len();
    if m == 0 {
        let mut out: Vec<char> = Vec::new();
        extend_chars(&mut out, s);
        proof {
            assert(out@ =~= s@);
        }
        return out;
    }
    let mut out: Vec<char> = Vec::new();
    let mut i: usize = 0;
    proof {
        assert(s@.skip(0) =~= s@);
        assert(out@ + replace_all(s@, pat@, rep@) =~= replace_all(s@, pat@, rep@));
    }
    while i < n
        invariant
            i <= n,
            n == s@.len(),
            m == pat@.len(),
            m >= 1,
            replace_all(s@, pat@, rep@) == out@ + replace_all(s@.skip(i as int), pat@, rep@),
        decreases n - i,
    {
        let ghost tail = s@.skip(i as int);
        if occurs_at_exec(s, pat, i) {
            proof {
                assert(tail.take(m as int) =~= s@.subrange(i as int, i + m));
                assert(tail.skip(m as int) =~= s@.skip(i + m));
                assert(replace_all(tail, pat@, rep@) == rep@ + replace_all(
                    s@.skip(i + m),
                    pat@,
                    rep@,
                ));
            }
            let ghost out_head = out@;
            extend_chars(&mut out, rep);
            proof {
                assert(out_head + (rep@ + replace_all(s@.skip(i + m), pat@, rep@)) =~= out@
                    + replace_all(s@.skip(i + m), pat@, rep@));
            }
            i = i + m;
        } else {
            proof {
                if tail.len() >= m {
                    assert(tail.take(m as int) =~= s@.subrange(i as int, i + m));
                    assert(s@.subrange(i as int, i + m) != pat@);
                }
                assert(tail.drop_first() =~= s@.skip(i + 1));
                assert(replace_all(tail, pat@, rep@) == seq![tail[0]] + replace_all(
                    s@.skip(i + 1),
                    pat@,
                    rep@,
                ));
            }
            let ghost out_head = out@;
            out.push(s[i]);
            proof {
                assert(out@ =~= out_head + seq![tail[0]]);
                assert(out_head + (seq![tail[0]] + replace_all(s@.skip(i + 1), pat@, rep@))
                    =~= out@ + replace_all(s@.skip(i + 1), pat@, rep@));
            }
            i = i + 1;
        }
    }
    proof {
        assert(s@.skip(n as int) =~= Seq::<char>::empty());
        assert(replace_all(s@.skip(n as int), pat@, rep@) == Seq::<char>::empty());
        assert(out@ =~= out@ + Seq::<char>::empty());
    }
    out
}

/// The placeholder names that a scan of `s` yields, in order of
/// appearance and with duplicates kept: each `{name}` with a non-empty,
/// brace-free `name`, found by taking each opening brace and the first
/// closing brace after it.
pub open spec fn scan_placeholders(s: Seq<char>) -> Seq<Seq<char>>
    decreases s.len(),
{
    if s.len() == 0 {
        Seq::empty()
    } else if s[0] == '{' {
        let j = run_end(s, 1, |c| c != '}');
        if 1 < j && j < s.len() {
            seq![s.subrange(1, j)] + scan_placeholders(s.skip(j + 1))
        } else if j == 1 {
            scan_placeholders(s.drop_first())
        } else {
            Seq::empty()
        }
    } else {
        scan_placeholders(s.drop_first())
    }
}

/// Scan `v` for placeholders, duplicates kept.
fn scan_all(v: &Vec<char>) -> (r: Vec<String>)
    ensures
        r.deep_view() == scan_placeholders(v@),
{
    let n = v.len();
    let mut out: Vec<String> = Vec::new();
    let mut i: usize = 0;
    proof {
        assert(v@.skip(0) =~= v@);
        assert(out.deep_view() =~= Seq::<Seq<char>>::empty());
    }
    while i < n
        invariant
            i <= n,
            n == v@.len(),
            scan_placeholders(v@) == out.deep_view() + scan_placeholders(v@.skip(i as int)),
        decreases n - i,
    {
        let ghost tail = v@.skip(i as int);
        if v[i] != '{' {
            proof {
                assert(tail.drop_first() =~= v@.skip(i + 1));
            }
            i = i + 1;
        } else {
            let mut j: usize = i + 1;
            while j < n && v[j] != '}'
                invariant
                    i + 1 <= j <= n,
                    n == v@.len(),
                    forall|p: int| i + 1 <= p < j ==> v@[p] != '}',
                decreases n - j,
            {
                j = j + 1;
            }
            proof {
                lemma_run_end(tail, 1, |c| c != '}');
                let r = run_end(tail, 1, |c| c != '}');
                assert(tail.len() == n - i);
                assert(forall|q: int| 1 <= q < j - i ==> tail[q] == v@[i + q]);
                if r < j - i {
                    assert(tail[r] == '}');
                    assert(tail[r] == v@[i + r]);
                    assert(false);
                }
                if r > j - i {
                    assert(j < n);
                    assert(tail[j - i] == v@[j as int]);
                    assert(false);
                }
                assert(r == j - i);
            }
            if j < n && j > i + 1 {
                let name = chars_substring(v, i + 1, j);
                let ghost out_head = out.deep_view();
                out.push(name);
                proof {
                    assert(tail.subrange(1, j - i) =~= v@.subrange(i + 1, j as int));
                    assert(tail.skip(j - i + 1) =~= v@.skip(j + 1));
                    assert(out.deep_view() =~= out_head + seq![name@]);
                    assert(out_head + (seq![name@] + scan_placeholders(v@.skip(j + 1)))
                        =~= out.deep_view() + scan_placeholders(v@.skip(j + 1)));
                }
                i = j + 1;
            } else if j == i + 1 {
                proof {
                    assert(tail.drop_first() =~= v@.skip(i + 1));
                }
                i = i + 1;
            } else {
                proof {
                    assert(scan_placeholders(tail) =~= Seq::<Seq<char>>::empty());
                    assert(out.deep_view() + Seq::<Seq<char>>::empty() =~= out.deep_view());
                }
                return out;
            }
        }
    }
    proof {
        assert(v@.skip(n as int) =~= Seq::<char>::empty());
        assert(out.deep_view() + Seq::<Seq<char>>::empty() =~= out.deep_view());
    }
    out
}

/// `names` with every repetition of an earlier name dropped: the first
/// appearance of each name survives, in order.
pub open spec fn first_seen_dedup(names: Seq<Seq<char>>) -> Seq<Seq<char>>
    decreases names.len(),
{
    if names.len() == 0 {
        Seq::empty()
    } else {
        let rest = first_seen_dedup(names.drop_last());
        if rest.contains(names.last()) {
            rest
        } else {
            rest.push(names.last())
        }
    }
}

/// Drop every repetition of an earlier name from `list`.
fn dedup_first_seen(list: &Vec<String>) -> (r: Vec<String>)
    ensures
        r.deep_view() == first_seen_dedup(list.deep_view()),
{
    let mut out: Vec<String> = Vec::new();
    let mut k: usize = 0;
    proof {
        assert(list.deep_view().take(0) =~= Seq::<Seq<char>>::empty());
        assert(out.deep_view() =~= Seq::<Seq<char>>::empty());
    }
    while k < list.len()
        invariant
            k <= list@.len(),
            list@.len() == list.deep_view().len(),
            out.deep_view() == first_seen_dedup(list.deep_view().take(k as int)),
        decreases list@.len() - k,
    {
        let mut found = false;
        let mut idx: usize = 0;
        while idx < out.len()
            invariant
                idx <= out@.len(),
                k < list@.len(),
                found == exists|q: int| 0 <= q < idx && out@[q]@ == list@[k as int]@,
            decreases out@.len() - idx,
        {
            if out[idx].eq(&list[k]) {
                found = true;
                proof {
                    assert(out@[idx as int]@ == list@[k as int]@);
                }
            }
            idx = idx + 1;
        }
        proof {
            let prev = list.deep_view().take(k as int);
            let cur = list.deep_view().take(k as int + 1);
            let elem = list@[k as int]@;
            assert(cur.drop_last() =~= prev);
            assert(cur.last() == elem);
            if found {
                let q = choose|q: int| 0 <= q < out@.len() && out@[q]@ == elem;
                assert(out.deep_view()[q] == elem);
                assert(first_seen_dedup(prev).contains(elem));
            } else {
                assert forall|q2: int|
                    0 <= q2 < first_seen_dedup(prev).len() implies first_seen_dedup(prev)[q2]
                    != elem by {
                    assert(out.deep_view()[q2] == out@[q2]@);
                }
                assert(!first_seen_dedup(prev).contains(elem));
            }
            assert(found == first_seen_dedup(prev).contains(elem));
        }
        if !found {
            let ghost out_head = out.deep_view();
            out.push(list[k].clone());
            proof {
                assert(out.deep_view() =~= out_head.push(list@[k as int]@));
            }
        }
        k = k + 1;
    }
    proof {
        assert(list.deep_view().take(list@.len() as int) =~= list.deep_view());
    }
    out
}

/// The placeholder token for `key`: `{key}`.
pub open spec fn placeholder_pat(key: Seq<char>) -> Seq<char> {
    seq!['{'] + key + seq!['}']
}

/// The template after applying the first `k` substitutions, in order.
pub open spec fn spec_fill_upto(t: Seq<char>, vals: Seq<(String, String)>, k: int) -> Seq<char>
    decreases k,
{
    if k <= 0 {
        t
    } else {
        replace_all(
            spec_fill_upto(t, vals, k - 1),
            placeholder_pat(vals[k - 1].0@),
            vals[k - 1].1@,
        )
    }
}

/// The template after applying every substitution of `vals`, in order.
pub open spec fn spec_fill(t: Seq<char>, vals: Seq<(String, String)>) -> Seq<char> {
    spec_fill_upto(t, vals, vals.len() as int)
}

/// Fill a template with the provided values: every occurrence of `{name}`
/// is replaced by the value mapped to `name`, for each pair in order.
pub fn fill_template(template: &str, values: &Vec<(String, String)>) -> (r: String)
    ensures
        r@ == spec_fill(template@, values@),
{
    let mut cur = str_to_chars(template);
    let mut k: usize = 0;
    while k < values.len()
        invariant
            k <= values@.len(),
            cur@ == spec_fill_upto(template@, values@, k as int),
        decreases values@.len() - k,
    {
        let mut pat: Vec<char> = Vec::new();
        pat.push('{');
        let key_chars = str_to_chars(values[k].0.as_str());
        let mut j: usize = 0;
        while j < key_chars.len()
            invariant
                j <= key_chars@.len(),
                pat@ == seq!['{'] + key_chars@.subrange(0, j as int),
            decreases key_chars@.len() - j,
        {
            pat.push(key_chars[j]);
            j = j + 1;
            proof {
                assert(pat@ =~= seq!['{'] + key_chars@.subrange(0, j as int));
            }
        }
        pat.push('}');
        proof {
            assert(pat@ =~= placeholder_pat(values@[k as int].0@));
        }
        let rep = str_to_chars(values[k].1.as_str());
        cur = replace_chars(&cur, &pat, &rep);
        k = k + 1;
    }
    chars_to_string(&cur)
}

/// A named commit message template: a subject template and optional body
/// and footer templates, each holding zero or more `{name}` placeholders.
#[derive(Debug, Clone)]
pub struct CommitTemplate {
    pub name: String,
    pub description: String,
    pub subject_template: String,
    pub body_template: Option<String>,
    pub footer_template: Option<String>,
}

/// The placeholders of an optional template part, in order, duplicates
/// kept.
pub open spec fn scan_opt(t: Option<String>) -> Seq<Seq<char>> {
    match t {
        Some(s) => scan_placeholders(s@),
        None => Seq::empty(),
    }
}

/// The distinct placeholder names of a template, across its subject, body
/// and footer parts, in order of first appearance.
pub open spec fn template_placeholders(t: CommitTemplate) -> Seq<Seq<char>> {
    first_seen_dedup(
        scan_placeholders(t.subject_template@) + scan_opt(t.body_template) + scan_opt(
            t.footer_template,
        ),
    )
}

/// Append every element of `src` to `dst`.
fn append_strings(dst: &mut Vec<String>, src: &Vec<String>)
    ensures
        final(dst).deep_view() == old(dst).deep_view() + src.deep_view(),
{
    let ghost head = dst.deep_view();
    let mut i: usize = 0;
    proof {
        assert(dst.deep_view() =~= head + src.deep_view().take(0));
    }
    while i < src.len()
        invariant
            i <= src@.len(),
            dst.deep_view() == head + src.deep_view().take(i as int),
        decreases src@.len() - i,
    {
        let ghost pre = dst.deep_view();
        dst.push(src[i].clone());
        proof {
            assert(src.deep_view()[i as int] == src@[i as int]@);
            assert(dst.deep_view() =~= pre.push(src@[i as int]@));
            assert(src.deep_view().take(i as int + 1) =~= src.deep_view().take(i as int).push(
                src@[i as int]@,
            ));
            assert(dst.deep_view() =~= head + src.deep_view().take(i as int + 1));
        }
        i = i + 1;
    }
    proof {
        assert(src.deep_view().take(src@.len() as int) =~= src.deep_view());
    }
}

/// Collect the distinct placeholder names of a template, scanning its
/// subject, body and footer parts in that order.
pub fn collect_placeholders(t: &CommitTemplate) -> (r: Vec<String>)
    ensures
        r.deep_view() == template_placeholders(*t),
{
    let subject_chars = str_to_chars(t.subject_template.as_str());
    let mut all = scan_all(&subject_chars);
    match &t.body_template {
        Some(b) => {
            let body_chars = str_to_chars(b.as_str());
            let part = scan_all(&body_chars);
            append_strings(&mut all, &part);
        },
        None => {
            proof {
                assert(all.deep_view() + Seq::<Seq<char>>::empty() =~= all.deep_view());
            }
        },
    }
    match &t.footer_template {
        Some(f) => {
            let footer_chars = str_to_chars(f.as_str());
            let part = scan_all(&footer_chars);
            append_strings(&mut all, &part);
        },
        None => {
            proof {
                assert(all.deep_view() + Seq::<Seq<char>>::empty() =~= all.deep_view());
            }
        },
    }
    dedup_first_seen(&all)
}

/// The subject, body and footer that filling `t` with `values` yields;
/// a missing body or footer part fills to the empty string.
pub fn fill_template_parts(t: &CommitTemplate, values: &Vec<(String, String)>) -> (r: (
    String,
    String,
    String,
))
    ensures
        r.0@ == spec_fill(t.subject_template@, values@),
        r.1@ == match t.body_template {
            Some(b) => spec_fill(b@, values@),
            None => Seq::<char>::empty(),
        },
        r.2@ == match t.footer_template {
            Some(f) => spec_fill(f@, values@),
            None => Seq::<char>::empty(),
        },
{
    let subject = fill_template(t.subject_template.as_str(), values);
    let body = match &t.body_template {
        Some(b) => fill_template(b.as_str(), values),
        None => String::new(),
    };
    let footer = match &t.footer_template {
        Some(f) => fill_template(f.as_str(), values),
        None => String::new(),
    };
    (subject, body, footer)
}

/// No occurrence of `{key}` can hide in a string whose scan yields no
/// placeholder, as long as `key` is non-empty and does not start with a
/// closing brace.
proof fn lemma_scan_empty_no_occurrence(s: Seq<char>, key: Seq<char>)
    requires
        scan_placeholders(s).len() == 0,
        key.len() > 0,
        key[0] != '}',
    ensures
        forall|i: int| !occurs_at(s, placeholder_pat(key), i),
    decreases s.len(),
{
    let pat = placeholder_pat(key);
    assert(pat.len() == key.len() + 2);
    assert(pat[0] == '{');
    assert(pat[1] == key[0]);
    assert(pat[pat.len() - 1] == '}');
    if s.len() == 0 {
        // an occurrence needs at least `pat.len()` characters
    } else if s[0] == '{' {
        let j = run_end(s, 1, |c| c != '}');
        lemma_run_end(s, 1, |c| c != '}');
        if 1 < j && j < s.len() {
            assert(scan_placeholders(s).len() > 0);
        } else if j == 1 {
            lemma_scan_empty_no_occurrence(s.drop_first(), key);
            assert forall|i: int| !occurs_at(s, pat, i) by {
                if occurs_at(s, pat, i) {
                    if i == 0 {
                        assert(s[1] == s.subrange(0, pat.len() as int)[1]);
                        assert(s[1] == key[0]);
                        assert(s[1] == '}');
                        assert(false);
                    } else {
                        assert(s.drop_first().subrange(i - 1, i - 1 + pat.len()) =~= s.subrange(
                            i,
                            i + pat.len(),
                        ));
                        assert(occurs_at(s.drop_first(), pat, i - 1));
                        assert(false);
                    }
                }
            }
        } else {
            // no closing brace at or after position 1 anywhere in `s`
            assert forall|i: int| !occurs_at(s, pat, i) by {
                if occurs_at(s, pat, i) {
                    let e = i + pat.len() - 1;
                    assert(s[e] == s.subrange(i, i + pat.len())[pat.len() - 1]);
                    assert(s[e] == '}');
                    assert(e >= 1);
                    assert(false);
                }
            }
        }
    } else {
        lemma_scan_empty_no_occurrence(s.drop_first(), key);
        assert forall|i: int| !occurs_at(s, pat, i) by {
            if occurs_at(s, pat, i) {
                if i == 0 {
                    assert(s[0] == s.subrange(0, pat.len() as int)[0]);
                    assert(s[0] == '{');
                    assert(false);
                } else {
                    assert(s.drop_first().subrange(i - 1, i - 1 + pat.len()) =~= s.subrange(
                        i,
                        i + pat.len(),
                    ));
                    assert(occurs_at(s.drop_first(), pat, i - 1));
                    assert(false);
                }
            }
        }
    }
}

/// Replacing a pattern that occurs nowhere in `s` leaves `s` unchanged.
proof fn lemma_replace_absent(s: Seq<char>, pat: Seq<char>, rep: Seq<char>)
    requires
        pat.len() >= 1,
        forall|i: int| !occurs_at(s, pat, i),
    ensures
        replace_all(s, pat, rep) == s,
    decreases s.len(),
{
    if s.len() == 0 {
    } else {
        if s.len() >= pat.len() {
            assert(s.take(pat.len() as int) =~= s.subrange(0, pat.len() as int));
            assert(!occurs_at(s, pat, 0));
            assert(s.take(pat.len() as int) != pat);
        }
        assert forall|i: int| !occurs_at(s.drop_first(), pat, i) by {
            if occurs_at(s.drop_first(), pat, i) {
                assert(s.drop_first().subrange(i, i + pat.len()) =~= s.subrange(
                    i + 1,
                    i + 1 + pat.len(),
                ));
                assert(occurs_at(s, pat, i + 1));
                assert(false);
            }
        }
        lemma_replace_absent(s.drop_first(), pat, rep);
        assert(seq![s[0]] + s.drop_first() =~= s);
    }
}

/// Law: filling a template whose scan yields no placeholder returns the
/// template unchanged, whatever the substitution map holds, as long as
/// every key is non-empty and does not start with a closing brace.
pub proof fn lemma_fill_no_placeholders(t: Seq<char>, vals: Seq<(String, String)>)
    requires
        scan_placeholders(t).len() == 0,
        forall|k: int|
            0 <= k < vals.len() ==> (#[trigger] vals[k]).0@.len() > 0 && vals[k].0@[0] != '}',
    ensures
        spec_fill(t, vals) == t,
    decreases vals.len(),
{
    if vals.len() == 0 {
    } else {
        let n = vals.len() as int;
        lemma_fill_upto_no_placeholders(t, vals, n);
    }
}

/// Each step of the fill fold leaves a placeholder-free template
/// unchanged.
proof fn lemma_fill_upto_no_placeholders(t: Seq<char>, vals: Seq<(String, String)>, k: int)
    requires
        scan_placeholders(t).len() == 0,
        forall|q: int|
            0 <= q < vals.len() ==> (#[trigger] vals[q]).0@.len() > 0 && vals[q].0@[0] != '}',
        0 <= k <= vals.len(),
    ensures
        spec_fill_upto(t, vals, k) == t,
    decreases k,
{
    if k > 0 {
        lemma_fill_upto_no_placeholders(t, vals, k - 1);
        let key = vals[k - 1].0@;
        lemma_scan_empty_no_occurrence(t, key);
        lemma_replace_absent(t, placeholder_pat(key), vals[k - 1].1@);
    }
}

/// The stock templates held before any have been defined.
pub fn default_templates() -> (r: Vec<CommitTemplate>)
    ensures
        r@.len() == 3,
        r@[0].name@ == "feature"@,
        r@[0].description@ == "Template for new features"@,
        r@[0].subject_template@ == "add {feature_name}"@,
        r@[0].body_template matches Some(b) && b@
            == "This change adds the ability to {description}\n\nThe following functionality is now available:\n- {point_1}\n- {point_2}"@,
        r@[0].footer_template matches Some(f) && f@ == "Closes #{issue_number}"@,
        r@[1].name@ == "bugfix"@,
        r@[1].description@ == "Template for bug fixes"@,
        r@[1].subject_template@ == "fix {issue_description}"@,
        r@[1].body_template matches Some(b) && b@
            == "This fixes an issue where {problem_description}\n\nRoot cause: {root_cause}"@,
        r@[1].footer_template matches Some(f) && f@ == "Fixes #{issue_number}"@,
        r@[2].name@ == "refactor"@,
        r@[2].description@ == "Template for code refactoring"@,
        r@[2].subject_template@ == "refactor {component_name}"@,
        r@[2].body_template matches Some(b) && b@
            == "This refactors {component_name} to improve {goal}\n\nChanges:\n- {change_1}\n- {change_2}"@,
        r@[2].footer_template is None,
{
    let mut r: Vec<CommitTemplate> = Vec::new();
    r.push(
        CommitTemplate {
            name: "feature".to_owned(),
            description: "Template for new features".to_owned(),
            subject_template: "add {feature_name}".to_owned(),
            body_template: Some(
                "This change adds the ability to {description}\n\nThe following functionality is now available:\n- {point_1}\n- {point_2}".to_owned(),
            ),
            footer_template: Some("Closes #{issue_number}".to_owned()),
        },
    );
    r.push(
        CommitTemplate {
            name: "bugfix".to_owned(),
            description: "Template for bug fixes".to_owned(),
            subject_template: "fix {issue_description}".to_owned(),
            body_template: Some(
                "This fixes an issue where {problem_description}\n\nRoot cause: {root_cause}".to_owned(),
            ),
            footer_template: Some("Fixes #{issue_number}".to_owned()),
        },
    );
    r.push(
        CommitTemplate {
            name: "refactor".to_owned(),
            description: "Template for code refactoring".to_owned(),
            subject_template: "refactor {component_name}".to_owned(),
            body_template: Some(
                "This refactors {component_name} to improve {goal}\n\nChanges:\n- {change_1}\n- {change_2}".to_owned(),
            ),
            footer_template: None,
        },
    );
    r
}

/// The commit fields a filled subject yields: when the subject starts
/// with `type[(scope)]:`, that type and scope, and the remainder of the
/// subject trimmed of surrounding whitespace; otherwise the given default
/// type, no scope, and the subject unchanged.
pub open spec fn spec_derive_fields(subject: Seq<char>, default_type: Seq<char>) -> (
    Seq<char>,
    Seq<char>,
    Seq<char>,
) {
    match spec_parse_type_scope(subject) {
        Some(p) => (
            p.0,
            match p.1 {
                Some(s) => s,
                None => Seq::empty(),
            },
            spec_trim(subject.skip(p.2)),
        ),
        None => (default_type, Seq::empty(), subject),
    }
}

/// Derive commit type, scope and clean subject from a filled subject,
/// falling back to the first configured prefix when the subject carries
/// no type of its own.
pub fn derive_commit_fields(subject: &str, prefixes: &Vec<Prefix>) -> (r: (String, String, String))
    requires
        prefixes@.len() > 0,
    ensures
        (r.0@, r.1@, r.2@) == spec_derive_fields(subject@, prefixes@[0].title@),
{
    let chars = str_to_chars(subject);
    match parse_type_scope_prefix(&chars) {
        Some((commit_type, scope, rest)) => {
            proof {
                lemma_parse_type_scope_bounds(chars@);
            }
            let rest_chars = chars_slice(&chars, rest, chars.len());
            let trimmed = trim_chars(&rest_chars);
            proof {
                assert(rest_chars@ =~= subject@.skip(rest as int));
            }
            let scope_str = match scope {
                Some(s) => s,
                None => String::new(),
            };
            (commit_type, scope_str, chars_to_string(&trimmed))
        },
        None => (prefixes[0].title.clone(), String::new(), subject.to_owned()),
    }
}

/// The position of the template named `name` in `ts`, looking from `i`
/// on; `-1` when there is none.
pub open spec fn template_index_from(ts: Seq<CommitTemplate>, name: Seq<char>, i: int) -> int
    decreases ts.len() - i,
{
    if i < 0 || i >= ts.len() {
        -1
    } else if ts[i].name@ == name {
        i
    } else {
        template_index_from(ts, name, i + 1)
    }
}

/// Characterization of `template_index_from`.
pub proof fn lemma_template_index_from(ts: Seq<CommitTemplate>, name: Seq<char>, k: int)
    requires
        0 <= k <= ts.len(),
    ensures
        ({
            let r = template_index_from(ts, name, k);
            (r == -1 && (forall|j: int| k <= j < ts.len() ==> ts[j].name@ != name)) || (k <= r
                < ts.len() && ts[r].name@ == name && (forall|j: int| k <= j < r ==> ts[j].name@
                != name))
        }),
    decreases ts.len() - k,
{
    if k < ts.len() && ts[k].name@ != name {
        lemma_template_index_from(ts, name, k + 1);
    }
}

/// An in-memory collection of templates, at most one per name.
#[derive(Debug)]
pub struct TemplateManager {
    pub templates: Vec<CommitTemplate>,
}

impl TemplateManager {
    /// No two held templates share a name.
    pub open spec fn wf(&self) -> bool {
        forall|i: int, j: int|
            0 <= i < j < self.templates@.len() ==> self.templates@[i].name@
                != self.templates@[j].name@
    }

    /// Create an empty template collection.
    pub fn new() -> (r: Self)
        ensures
            r.wf(),
            r.templates@.len() == 0,
    {
        TemplateManager { templates: Vec::new() }
    }

    /// Find the position of the template named `name`, if one is held.
    fn position_of(&self, name: &str) -> (r: Option<usize>)
        ensures
            match r {
                Some(i) => template_index_from(self.templates@, name@, 0) == i,
                None => template_index_from(self.templates@, name@, 0) == -1,
            },
    {
        let n = self.templates.len();
        let mut i: usize = 0;
        while i < n
            invariant
                i <= n,
                n == self.templates@.len(),
                forall|j: int| 0 <= j < i ==> self.templates@[j].name@ != name@,
            decreases n - i,
        {
            if crate::strutil::eq_str(self.templates[i].name.as_str(), name) {
                proof {
                    lemma_template_index_from(self.templates@, name@, 0);
                }
                return Some(i);
            }
            i = i + 1;
        }
        proof {
            lemma_template_index_from(self.templates@, name@, 0);
        }
        None
    }

    /// Get the template named `name`, if one is held.
    pub fn get_template(&self, name: &str) -> (r: Option<&CommitTemplate>)
        ensures
            match r {
                Some(t) => {
                    let i = template_index_from(self.templates@, name@, 0);
                    &&& i >= 0
                    &&& *t == self.templates@[i]
                    &&& t.name@ == name@
                },
                None => template_index_from(self.templates@, name@, 0) == -1,
            },
{
        match self.position_of(name) {
            Some(i) => {
                proof {
                    lemma_template_index_from(self.templates@, name@, 0);
                }
                Some(&self.templates[i])
            },
            None => None,
        }
    }

    /// All held templates, in held order.
    pub fn get_templates(&self) -> (r: Vec<&CommitTemplate>)
        ensures
            r@.len() == self.templates@.len(),
            forall|i: int| 0 <= i < r@.len() ==> r@[i] == self.templates@[i],
    {
        let mut r: Vec<&CommitTemplate> = Vec::new();
        let mut i: usize = 0;
        while i < self.templates.len()
            invariant
                i <= self.templates@.len(),
                r@.len() == i,
                forall|j: int| 0 <= j < i ==> r@[j] == self.templates@[j],
            decreases self.templates@.len() - i,
        {
            r.push(&self.templates[i]);
            i = i + 1;
        }
        r
    }

    /// Hold `template`, replacing any held template of the same name.
    pub fn add_template(&mut self, template: CommitTemplate)
        requires
            old(self).wf(),
        ensures
            final(self).wf(),
            ({
                let i = template_index_from(old(self).templates@, template.name@, 0);
                if i == -1 {
                    final(self).templates@ == old(self).templates@.push(template)
                } else {
                    final(self).templates@ == old(self).templates@.update(i, template)
                }
            }),
    {
        let ghost ts0 = self.templates@;
        match self.position_of(template.name.as_str()) {
            Some(i) => {
                proof {
                    lemma_template_index_from(ts0, template.name@, 0);
                }
                self.templates.set(i, template);
                proof {
                    assert forall|a: int, b: int|
                        0 <= a < b < self.templates@.len() implies self.templates@[a].name@
                        != self.templates@[b].name@ by {
                        assert(ts0[a].name@ != ts0[b].name@);
                    }
                }
            },
            None => {
                proof {
                    lemma_template_index_from(ts0, template.name@, 0);
                }
                self.templates.push(template);
            },
        }
    }

    /// Drop the template named `name`, when one is held.
    pub fn delete_template(&mut self, name: &str)
        requires
            old(self).wf(),
        ensures
            final(self).wf(),
            ({
                let i = template_index_from(old(self).templates@, name@, 0);
                if i == -1 {
                    final(self).templates@ == old(self).templates@
                } else {
                    final(self).templates@ == old(self).templates@.remove(i)
                }
            }),
    {
        let ghost ts0 = self.templates@;
        match self.position_of(name) {
            Some(i) => {
                proof {
                    lemma_template_index_from(ts0, name@, 0);
                }
                self.templates.remove(i);
                proof {
                    assert forall|a: int, b: int|
                        0 <= a < b < self.templates@.len() implies self.templates@[a].name@
                        != self.templates@[b].name@ by {
                        let i0 = i as int;
                        let a0 = if a < i0 { a } else { a + 1 };
                        let b0 = if b < i0 { b } else { b + 1 };
                        assert(self.templates@[a] == ts0[a0]);
                        assert(self.templates@[b] == ts0[b0]);
                        assert(ts0[a0].name@ != ts0[b0].name@);
                    }
                }
            },
            None => {},
        }
    }
}

} // verus!
