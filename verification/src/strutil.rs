//! Small executable string utilities shared by the whole crate.
//!
//! All text processing in this crate works over `Vec<char>` internally;
//! these helpers convert between `&str` / `String` and `Vec<char>` and
//! provide verified building blocks (equality, concatenation).

use vstd::prelude::*;

verus! {

/// Relies on std's `String::push`: appends the given `char` to the end of
/// the string (std documentation, "Appends the given char to the end of
/// this String"). vstd does not specify this method.
pub assume_specification[ String::push ](s: &mut String, c: char)
    ensures
        final(s)@ == old(s)@.push(c),
;

/// Collect the characters of a string slice into a vector.
pub fn str_to_chars(s: &str) -> (v: Vec<char>)
    ensures
        v@ == s@,
{
    let n: usize = s.unicode_len();
    let mut v: Vec<char> = Vec::new();
    let mut i: usize = 0;
    while i < n
        invariant
            i <= n,
            n == s@.len(),
            v@ == s@.subrange(0, i as int),
        decreases n - i,
    {
        let c = s.get_char(i);
        v.push(c);
        i = i + 1;
        proof {
            assert(v@ =~= s@.subrange(0, i as int));
        }
    }
    proof {
        assert(v@ =~= s@);
    }
    v
}

/// Build a `String` from a vector of characters.
pub fn chars_to_string(v: &Vec<char>) -> (s: String)
    ensures
        s@ == v@,
{
    let mut s = String::new();
    let mut i: usize = 0;
    while i < v.len()
        invariant
            i <= v@.len(),
            s@ == v@.subrange(0, i as int),
        decreases v@.len() - i,
    {
        s.push(v[i]);
        i = i + 1;
        proof {
            assert(s@ =~= v@.subrange(0, i as int));
        }
    }
    proof {
        assert(s@ =~= v@);
    }
    s
}

/// Index of the first occurrence of `c` in `s` at or after position `i`,
/// or `-1` when there is none.
pub open spec fn first_index_from(s: Seq<char>, c: char, i: int) -> int
    decreases s.len() - i,
{
    if i < 0 || i >= s.len() {
        -1
    } else if s[i] == c {
        i
    } else {
        first_index_from(s, c, i + 1)
    }
}

/// `first_index_from` returns either `-1` with no occurrence at or after
/// `k`, or the position of the first occurrence at or after `k`.
pub proof fn lemma_first_index_from(s: Seq<char>, c: char, k: int)
    requires
        0 <= k <= s.len(),
    ensures
        ({
            let r = first_index_from(s, c, k);
            (r == -1 && (forall|j: int| k <= j < s.len() ==> s[j] != c)) || (k <= r < s.len()
                && s[r] == c && (forall|j: int| k <= j < r ==> s[j] != c))
        }),
    decreases s.len() - k,
{
    if k < s.len() && s[k] != c {
        lemma_first_index_from(s, c, k + 1);
    }
}

/// Position of the first occurrence of `c` in `v`, if any.
pub fn find_char(v: &Vec<char>, c: char) -> (r: Option<usize>)
    ensures
        match r {
            Some(i) => first_index_from(v@, c, 0) == i,
            None => first_index_from(v@, c, 0) == -1,
        },
{
    let mut i: usize = 0;
    while i < v.len()
        invariant
            i <= v@.len(),
            forall|j: int| 0 <= j < i ==> v@[j] != c,
        decreases v@.len() - i,
    {
        if v[i] == c {
            proof {
                lemma_first_index_from(v@, c, 0);
            }
            return Some(i);
        }
        i = i + 1;
    }
    proof {
        lemma_first_index_from(v@, c, 0);
    }
    None
}

/// The characters of `v` between `a` (inclusive) and `b` (exclusive), as a
/// `String`.
pub fn chars_substring(v: &Vec<char>, a: usize, b: usize) -> (s: String)
    requires
        a <= b <= v@.len(),
    ensures
        s@ == v@.subrange(a as int, b as int),
{
    let mut s = String::new();
    let mut i: usize = a;
    while i < b
        invariant
            a <= i <= b <= v@.len(),
            s@ == v@.subrange(a as int, i as int),
        decreases b - i,
    {
        s.push(v[i]);
        i = i + 1;
        proof {
            assert(s@ =~= v@.subrange(a as int, i as int));
        }
    }
    s
}

/// The characters of `v` between `a` (inclusive) and `b` (exclusive).
pub fn chars_slice(v: &Vec<char>, a: usize, b: usize) -> (out: Vec<char>)
    requires
        a <= b <= v@.len(),
    ensures
        out@ == v@.subrange(a as int, b as int),
{
    let mut out: Vec<char> = Vec::new();
    let mut i: usize = a;
    while i < b
        invariant
            a <= i <= b <= v@.len(),
            out@ == v@.subrange(a as int, i as int),
        decreases b - i,
    {
        out.push(v[i]);
        i = i + 1;
        proof {
            assert(out@ =~= v@.subrange(a as int, i as int));
        }
    }
    out
}

/// Append every character of `add` to `out`.
pub fn extend_chars(out: &mut Vec<char>, add: &Vec<char>)
    ensures
        final(out)@ == old(out)@ + add@,
{
    let ghost head = out@;
    let mut i: usize = 0;
    while i < add.len()
        invariant
            i <= add@.len(),
            out@ == head + add@.subrange(0, i as int),
        decreases add@.len() - i,
    {
        out.push(add[i]);
        i = i + 1;
        proof {
            assert(out@ =~= head + add@.subrange(0, i as int));
        }
    }
    proof {
        assert(out@ =~= head + add@);
    }
}

/// `l` with a trailing carriage return removed, when it ends with one.
pub open spec fn strip_cr(l: Seq<char>) -> Seq<char> {
    if l.len() > 0 && l[l.len() - 1] == '\r' {
        l.drop_last()
    } else {
        l
    }
}

/// The first line of `s`: the characters before the first newline, with a
/// trailing carriage return removed; `s` itself when it holds no newline.
pub open spec fn spec_first_line(s: Seq<char>) -> Seq<char> {
    let i = first_index_from(s, '\n', 0);
    if i == -1 {
        s
    } else {
        strip_cr(s.take(i))
    }
}

/// The first line of a character vector.
pub fn first_line_chars(v: &Vec<char>) -> (l: Vec<char>)
    ensures
        l@ == spec_first_line(v@),
{
    match find_char(v, '\n') {
        None => {
            let l = chars_slice(v, 0, v.len());
            proof {
                assert(l@ =~= spec_first_line(v@));
            }
            l
        },
        Some(i) => {
            proof {
                lemma_first_index_from(v@, '\n', 0);
            }
            let end: usize = if i > 0 && v[i - 1] == '\r' {
                i - 1
            } else {
                i
            };
            let l = chars_slice(v, 0, end);
            proof {
                assert(l@ =~= spec_first_line(v@));
            }
            l
        },
    }
}

/// A whitespace character: space, tab, newline or carriage return.
pub open spec fn is_space(c: char) -> bool {
    c == ' ' || c == '\t' || c == '\n' || c == '\r'
}

/// The end of the run of leading whitespace of `s` starting at `i`.
pub open spec fn space_run_end(s: Seq<char>, i: int) -> int
    decreases s.len() - i,
{
    if i < 0 || i >= s.len() {
        i
    } else if is_space(s[i]) {
        space_run_end(s, i + 1)
    } else {
        i
    }
}

/// Characterization of `space_run_end`.
pub proof fn lemma_space_run_end(s: Seq<char>, k: int)
    requires
        0 <= k <= s.len(),
    ensures
        ({
            let r = space_run_end(s, k);
            &&& k <= r <= s.len()
            &&& forall|j: int| k <= j < r ==> is_space(s[j])
            &&& (r < s.len() ==> !is_space(s[r]))
        }),
    decreases s.len() - k,
{
    if k < s.len() && is_space(s[k]) {
        lemma_space_run_end(s, k + 1);
    }
}

/// The position right after the last non-whitespace character of
/// `s.take(i)`, or `0` when there is none.
pub open spec fn trail_start(s: Seq<char>, i: int) -> int
    decreases i,
{
    if i <= 0 {
        0
    } else if is_space(s[i - 1]) {
        trail_start(s, i - 1)
    } else {
        i
    }
}

/// Characterization of `trail_start`.
pub proof fn lemma_trail_start(s: Seq<char>, i: int)
    requires
        0 <= i <= s.len(),
    ensures
        ({
            let b = trail_start(s, i);
            &&& 0 <= b <= i
            &&& forall|j: int| b <= j < i ==> is_space(s[j])
            &&& (b > 0 ==> !is_space(s[b - 1]))
        }),
    decreases i,
{
    if i > 0 && is_space(s[i - 1]) {
        lemma_trail_start(s, i - 1);
    }
}

/// `s` without leading and trailing whitespace.
pub open spec fn spec_trim(s: Seq<char>) -> Seq<char> {
    let a = space_run_end(s, 0);
    let b = trail_start(s, s.len() as int);
    if a >= b {
        Seq::empty()
    } else {
        s.subrange(a, b)
    }
}

/// Whether `c` is a whitespace character.
pub fn space_char(c: char) -> (r: bool)
    ensures
        r == is_space(c),
{
    c == ' ' || c == '\t' || c == '\n' || c == '\r'
}

/// `v` without leading and trailing whitespace.
pub fn trim_chars(v: &Vec<char>) -> (out: Vec<char>)
    ensures
        out@ == spec_trim(v@),
{
    let n = v.len();
    let mut a: usize = 0;
    while a < n && space_char(v[a])
        invariant
            a <= n,
            n == v@.len(),
            forall|j: int| 0 <= j < a ==> is_space(v@[j]),
        decreases n - a,
    {
        a = a + 1;
    }
    proof {
        lemma_space_run_end(v@, 0);
        assert(space_run_end(v@, 0) == a);
    }
    let mut b: usize = n;
    while b > 0 && space_char(v[b - 1])
        invariant
            b <= n,
            n == v@.len(),
            forall|j: int| b <= j < n ==> is_space(v@[j]),
        decreases b,
    {
        b = b - 1;
    }
    proof {
        lemma_trail_start(v@, n as int);
        let r = trail_start(v@, n as int);
        if r < b {
            assert(!is_space(v@[b - 1]));
            assert(false);
        }
        if r > b {
            assert(!is_space(v@[r - 1]));
            assert(false);
        }
        assert(r == b);
    }
    if a >= b {
        Vec::new()
    } else {
        chars_slice(v, a, b)
    }
}

/// The lines of `s`: split at each newline, a trailing carriage return
/// dropped from each split-off line, the final line ending optional.
pub open spec fn spec_lines(s: Seq<char>) -> Seq<Seq<char>>
    decreases s.len(),
{
    if s.len() == 0 {
        Seq::empty()
    } else {
        let i = first_index_from(s, '\n', 0);
        if i < 0 || i >= s.len() {
            seq![s]
        } else {
            seq![strip_cr(s.take(i))] + spec_lines(s.skip(i + 1))
        }
    }
}

/// Split `s` into its lines.
pub fn split_lines(s: &str) -> (r: Vec<String>)
    ensures
        r.deep_view() == spec_lines(s@),
{
    let chars = str_to_chars(s);
    let n = chars.len();
    let mut out: Vec<String> = Vec::new();
    let mut start: usize = 0;
    proof {
        assert(chars@.skip(0) =~= chars@);
        assert(out.deep_view() + spec_lines(chars@) =~= spec_lines(chars@));
    }
    while start < n
        invariant
            start <= n,
            n == chars@.len(),
            chars@ == s@,
            spec_lines(s@) == out.deep_view() + spec_lines(chars@.skip(start as int)),
        decreases n - start,
    {
        let ghost tail = chars@.skip(start as int);
        let mut j: usize = start;
        while j < n && chars[j] != '\n'
            invariant
                start <= j <= n,
                n == chars@.len(),
                forall|p: int| start <= p < j ==> chars@[p] != '\n',
            decreases n - j,
        {
            j = j + 1;
        }
        proof {
            lemma_first_index_from(tail, '\n', 0);
            let r = first_index_from(tail, '\n', 0);
            assert(forall|q: int| 0 <= q < j - start ==> tail[q] == chars@[start + q]);
            if j < n {
                if r == -1 {
                    assert(tail[j - start] == '\n');
                    assert(false);
                }
                if r < j - start {
                    assert(tail[r] == chars@[start + r]);
                    assert(false);
                }
                if r > j - start {
                    assert(tail[j - start] == '\n');
                    assert(false);
                }
                assert(r == j - start);
            } else {
                if r != -1 {
                    assert(tail[r] == chars@[start + r]);
                    assert(false);
                }
            }
        }
        if j < n {
            let end: usize = if j > start && chars[j - 1] == '\r' {
                j - 1
            } else {
                j
            };
            let line = chars_substring(&chars, start, end);
            let ghost head = out.deep_view();
            out.push(line);
            proof {
                assert(tail.take(j - start) =~= chars@.subrange(start as int, j as int));
                assert(strip_cr(tail.take(j - start)) =~= chars@.subrange(
                    start as int,
                    end as int,
                ));
                assert(tail.skip(j - start + 1) =~= chars@.skip(j + 1));
                assert(out.deep_view() =~= head + seq![line@]);
                assert(head + (seq![line@] + spec_lines(chars@.skip(j + 1))) =~= out.deep_view()
                    + spec_lines(chars@.skip(j + 1)));
            }
            start = j + 1;
        } else {
            let line = chars_substring(&chars, start, n);
            let ghost head = out.deep_view();
            out.push(line);
            proof {
                assert(line@ =~= tail);
                assert(spec_lines(tail) =~= seq![tail]);
                assert(out.deep_view() =~= head + seq![line@]);
                assert(head + seq![tail] =~= out.deep_view());
                assert(chars@.skip(n as int) =~= Seq::<char>::empty());
                assert(out.deep_view() + spec_lines(chars@.skip(n as int)) =~= out.deep_view());
            }
            start = n;
        }
    }
    proof {
        assert(chars@.skip(n as int) =~= Seq::<char>::empty());
        assert(out.deep_view() + spec_lines(chars@.skip(n as int)) =~= out.deep_view());
    }
    out
}

/// The pieces of `s` between occurrences of `sep`: splitting an empty
/// string yields one empty piece, and a trailing separator yields a
/// final empty piece.
pub open spec fn spec_split_char(s: Seq<char>, sep: char) -> Seq<Seq<char>>
    decreases s.len(),
{
    let i = first_index_from(s, sep, 0);
    if i < 0 || i >= s.len() {
        seq![s]
    } else {
        seq![s.take(i)] + spec_split_char(s.skip(i + 1), sep)
    }
}

/// Split `s` at every occurrence of `sep`.
pub fn split_on_char(s: &str, sep: char) -> (r: Vec<String>)
    ensures
        r.deep_view() == spec_split_char(s@, sep),
{
    let chars = str_to_chars(s);
    let n = chars.len();
    let mut out: Vec<String> = Vec::new();
    let mut start: usize = 0;
    let mut done = false;
    proof {
        assert(chars@.skip(0) =~= chars@);
        assert(out.deep_view() + spec_split_char(chars@, sep) =~= spec_split_char(chars@, sep));
    }
    while !done
        invariant
            start <= n,
            n == chars@.len(),
            chars@ == s@,
            !done ==> spec_split_char(s@, sep) == out.deep_view() + spec_split_char(
                chars@.skip(start as int),
                sep,
            ),
            done ==> out.deep_view() == spec_split_char(s@, sep),
        decreases n - start + (if done { 0int } else { 1int }),
    {
        let ghost tail = chars@.skip(start as int);
        let mut j: usize = start;
        while j < n && chars[j] != sep
            invariant
                start <= j <= n,
                n == chars@.len(),
                forall|p: int| start <= p < j ==> chars@[p] != sep,
            decreases n - j,
        {
            j = j + 1;
        }
        proof {
            lemma_first_index_from(tail, sep, 0);
            let r = first_index_from(tail, sep, 0);
            assert(forall|q: int| 0 <= q < j - start ==> tail[q] == chars@[start + q]);
            if j < n {
                if r == -1 || r > j - start {
                    assert(tail[j - start] == sep);
                    assert(false);
                }
                if 0 <= r < j - start {
                    assert(tail[r] == chars@[start + r]);
                    assert(false);
                }
                assert(r == j - start);
            } else {
                if r != -1 {
                    assert(tail[r] == chars@[start + r]);
                    assert(false);
                }
            }
        }
        let piece = chars_substring(&chars, start, j);
        let ghost head = out.deep_view();
        out.push(piece);
        if j < n {
            proof {
                assert(tail.take(j - start) =~= chars@.subrange(start as int, j as int));
                assert(tail.skip(j - start + 1) =~= chars@.skip(j + 1));
                assert(out.deep_view() =~= head + seq![piece@]);
                assert(head + (seq![piece@] + spec_split_char(chars@.skip(j + 1), sep))
                    =~= out.deep_view() + spec_split_char(chars@.skip(j + 1), sep));
            }
            start = j + 1;
        } else {
            proof {
                assert(piece@ =~= tail);
                assert(spec_split_char(tail, sep) =~= seq![tail]);
                assert(out.deep_view() =~= head + seq![tail]);
            }
            done = true;
        }
    }
    out
}

/// The text the lines after the first one contribute when joining: each
/// preceded by a newline.
pub open spec fn spec_join_rest(ls: Seq<Seq<char>>) -> Seq<char>
    decreases ls.len(),
{
    if ls.len() == 0 {
        Seq::empty()
    } else {
        seq!['\n'] + ls[0] + spec_join_rest(ls.drop_first())
    }
}

/// The lines of `ls` joined with single newlines, no final line ending.
pub open spec fn spec_join_lines(ls: Seq<Seq<char>>) -> Seq<char> {
    if ls.len() == 0 {
        Seq::empty()
    } else {
        ls[0] + spec_join_rest(ls.drop_first())
    }
}

/// Join `lines` with single newlines.
pub fn join_lines(lines: &Vec<String>) -> (r: String)
    ensures
        r@ == spec_join_lines(lines.deep_view()),
{
    let n = lines.len();
    if n == 0 {
        return String::new();
    }
    let mut acc = lines[0].clone();
    let mut i: usize = 1;
    proof {
        assert(lines.deep_view().skip(0).drop_first() =~= lines.deep_view().skip(1));
        assert(lines.deep_view()[0] == lines@[0]@);
    }
    while i < n
        invariant
            1 <= i <= n,
            n == lines@.len(),
            n == lines.deep_view().len(),
            spec_join_lines(lines.deep_view()) == acc@ + spec_join_rest(
                lines.deep_view().skip(i as int),
            ),
        decreases n - i,
    {
        let ghost tail = lines.deep_view().skip(i as int);
        acc.push('\n');
        acc.append(lines[i].as_str());
        proof {
            assert(lines.deep_view()[i as int] == lines@[i as int]@);
            assert(tail.drop_first() =~= lines.deep_view().skip(i as int + 1));
            assert(spec_join_rest(tail) == seq!['\n'] + lines@[i as int]@ + spec_join_rest(
                lines.deep_view().skip(i as int + 1),
            ));
        }
        i = i + 1;
    }
    proof {
        assert(lines.deep_view().skip(n as int) =~= Seq::<Seq<char>>::empty());
    }
    acc
}

/// Whether `p` is a prefix of `l`.
pub open spec fn starts_with(l: Seq<char>, p: Seq<char>) -> bool {
    p.len() <= l.len() && l.subrange(0, p.len() as int) == p
}

/// Whether `l` starts with `p`.
pub fn str_starts_with(l: &str, p: &str) -> (r: bool)
    ensures
        r == starts_with(l@, p@),
{
    let ln = l.unicode_len();
    let pn = p.unicode_len();
    if ln < pn {
        return false;
    }
    let head = l.substring_char(0, pn);
    eq_str(head, p)
}

/// Character-wise equality of two string slices.
pub fn eq_str(a: &str, b: &str) -> (r: bool)
    ensures
        r == (a@ == b@),
{
    let na: usize = a.unicode_len();
    let nb: usize = b.unicode_len();
    if na != nb {
        proof {
            assert(a@ != b@) by {
                assert(a@.len() != b@.len());
            }
        }
        return false;
    }
    let mut i: usize = 0;
    while i < na
        invariant
            i <= na,
            na == a@.len(),
            na == b@.len(),
            forall|j: int| 0 <= j < i ==> a@[j] == b@[j],
        decreases na - i,
    {
        if a.get_char(i) != b.get_char(i) {
            return false;
        }
        i = i + 1;
    }
    proof {
        assert(a@ =~= b@);
    }
    true
}

} // verus!
