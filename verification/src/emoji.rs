//! The type decoration table: commit types map to display symbols, and a
//! decorated message carries the symbol right after the first colon.

use vstd::prelude::*;

use crate::strutil::{chars_to_string, eq_str, find_char, first_index_from, str_to_chars};
use crate::strutil::lemma_first_index_from;

verus! {

/// The display symbol mapped to a commit type, if any.
pub open spec fn spec_emoji_for(t: Seq<char>) -> Option<Seq<char>> {
    if t == "feat"@ {
        Some("\u{2728}"@)
    } else if t == "fix"@ {
        Some("\u{1f41b}"@)
    } else if t == "docs"@ {
        Some("\u{1f4da}"@)
    } else if t == "style"@ {
        Some("\u{1f48e}"@)
    } else if t == "refactor"@ {
        Some("\u{267b}\u{fe0f}"@)
    } else if t == "perf"@ {
        Some("\u{1f680}"@)
    } else if t == "test"@ {
        Some("\u{1f9ea}"@)
    } else if t == "build"@ {
        Some("\u{1f3d7}\u{fe0f}"@)
    } else if t == "ci"@ {
        Some("\u{1f477}"@)
    } else if t == "chore"@ {
        Some("\u{1f9f9}"@)
    } else if t == "revert"@ {
        Some("\u{23ea}"@)
    } else {
        None
    }
}

/// Get the display symbol for a commit type.
pub fn get_emoji_for_type(commit_type: &str) -> (r: Option<&'static str>)
    ensures
        match r {
            Some(e) => spec_emoji_for(commit_type@) == Some(e@),
            None => spec_emoji_for(commit_type@) is None,
        },
{
    if eq_str(commit_type, "feat") {
        Some("\u{2728}")
    } else if eq_str(commit_type, "fix") {
        Some("\u{1f41b}")
    } else if eq_str(commit_type, "docs") {
        Some("\u{1f4da}")
    } else if eq_str(commit_type, "style") {
        Some("\u{1f48e}")
    } else if eq_str(commit_type, "refactor") {
        Some("\u{267b}\u{fe0f}")
    } else if eq_str(commit_type, "perf") {
        Some("\u{1f680}")
    } else if eq_str(commit_type, "test") {
        Some("\u{1f9ea}")
    } else if eq_str(commit_type, "build") {
        Some("\u{1f3d7}\u{fe0f}")
    } else if eq_str(commit_type, "ci") {
        Some("\u{1f477}")
    } else if eq_str(commit_type, "chore") {
        Some("\u{1f9f9}")
    } else if eq_str(commit_type, "revert") {
        Some("\u{23ea}")
    } else {
        None
    }
}

/// `s` with one leading space removed, when it starts with one.
pub open spec fn spec_strip_one_space(s: Seq<char>) -> Seq<char> {
    if s.len() > 0 && s[0] == ' ' {
        s.drop_first()
    } else {
        s
    }
}

/// The decorated message: when decoration is enabled, the type has a
/// symbol and the message holds a colon, the symbol stands right after
/// the first colon, one space on each side; otherwise the message is
/// returned unchanged.
pub open spec fn spec_apply_emoji(t: Seq<char>, msg: Seq<char>, enabled: bool) -> Seq<char> {
    if !enabled {
        msg
    } else {
        match spec_emoji_for(t) {
            None => msg,
            Some(e) => {
                let i = first_index_from(msg, ':', 0);
                if i == -1 {
                    msg
                } else {
                    msg.take(i + 1) + seq![' '] + e + seq![' '] + spec_strip_one_space(
                        msg.skip(i + 1),
                    )
                }
            },
        }
    }
}

/// Apply the type's symbol to a commit message if decoration is enabled.
pub fn apply_emoji(commit_type: &str, message: &str, use_emoji: bool) -> (r: String)
    ensures
        r@ == spec_apply_emoji(commit_type@, message@, use_emoji),
        !use_emoji ==> r@ == message@,
        use_emoji && spec_emoji_for(commit_type@) is None ==> r@ == message@,
{
    if !use_emoji {
        return message.to_owned();
    }
    match get_emoji_for_type(commit_type) {
        None => message.to_owned(),
        Some(emoji) => {
            let chars = str_to_chars(message);
            match find_char(&chars, ':') {
                None => message.to_owned(),
                Some(pos) => {
                    proof {
                        lemma_first_index_from(message@, ':', 0);
                    }
                    let n = chars.len();
                    let mut out: Vec<char> = Vec::new();
                    let mut i: usize = 0;
                    while i <= pos
                        invariant
                            i <= pos + 1,
                            pos < n,
                            n == chars@.len(),
                            out@ == chars@.subrange(0, i as int),
                        decreases pos + 1 - i,
                    {
                        out.push(chars[i]);
                        i = i + 1;
                        proof {
                            assert(out@ =~= chars@.subrange(0, i as int));
                        }
                    }
                    out.push(' ');
                    let emoji_chars = str_to_chars(emoji);
                    let mut k: usize = 0;
                    while k < emoji_chars.len()
                        invariant
                            k <= emoji_chars@.len(),
                            pos < chars@.len(),
                            out@ == chars@.subrange(0, pos + 1) + seq![' ']
                                + emoji_chars@.subrange(0, k as int),
                        decreases emoji_chars@.len() - k,
                    {
                        out.push(emoji_chars[k]);
                        k = k + 1;
                        proof {
                            assert(out@ =~= chars@.subrange(0, pos + 1) + seq![' ']
                                + emoji_chars@.subrange(0, k as int));
                        }
                    }
                    proof {
                        assert(emoji_chars@.subrange(0, emoji_chars@.len() as int)
                            =~= emoji_chars@);
                    }
                    out.push(' ');
                    let mut j: usize = pos + 1;
                    if j < n && chars[j] == ' ' {
                        j = j + 1;
                    }
                    proof {
                        assert(out@ =~= chars@.subrange(0, pos + 1) + seq![' '] + emoji_chars@
                            + seq![' ']);
                        assert(chars@.subrange(j as int, n as int) =~= spec_strip_one_space(
                            chars@.skip(pos + 1),
                        ));
                    }
                    let ghost out_head = out@;
                    let mut m: usize = j;
                    while m < n
                        invariant
                            j <= m <= n,
                            n == chars@.len(),
                            out@ == out_head + chars@.subrange(j as int, m as int),
                        decreases n - m,
                    {
                        out.push(chars[m]);
                        m = m + 1;
                        proof {
                            assert(out@ =~= out_head + chars@.subrange(j as int, m as int));
                        }
                    }
                    proof {
                        assert(out@ =~= spec_apply_emoji(commit_type@, message@, use_emoji));
                    }
                    chars_to_string(&out)
                },
            }
        },
    }
}

} // verus!
