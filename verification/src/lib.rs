//! Composition, decoration, validation and changelog recording of
//! conventional commit messages.

use vstd::prelude::*;

pub mod changelog;
pub mod config;
pub mod emoji;
pub mod grammar;
pub mod hooks;
pub mod prompt;
pub mod stats;
pub mod strutil;
pub mod template;
pub mod version;

verus! {

/// The characters of the commit header: `type`, then `(scope)` when a scope
/// is given, then `": "`, then the subject.
pub open spec fn spec_header(prefix: Seq<char>, scope: Seq<char>, subject: Seq<char>) -> Seq<char> {
    prefix + (if scope.len() > 0 {
        seq!['('] + scope + seq![')']
    } else {
        Seq::<char>::empty()
    }) + seq![':', ' '] + subject
}

/// The body block: a blank separator line then the body, when non-empty.
pub open spec fn spec_body_block(body: Seq<char>) -> Seq<char> {
    if body.len() > 0 {
        seq!['\n', '\n'] + body
    } else {
        Seq::<char>::empty()
    }
}

/// The footer block: a separator then the footer, when non-empty. The
/// separator is a blank line unless the body already ends with a newline,
/// in which case a single newline suffices.
pub open spec fn spec_footer_block(body: Seq<char>, footer: Seq<char>) -> Seq<char> {
    if footer.len() > 0 {
        (if body.len() == 0 || body[body.len() - 1] != '\n' {
            seq!['\n', '\n']
        } else {
            seq!['\n']
        }) + footer
    } else {
        Seq::<char>::empty()
    }
}

/// The full assembled commit message.
pub open spec fn spec_commit_message(
    prefix: Seq<char>,
    scope: Seq<char>,
    subject: Seq<char>,
    body: Seq<char>,
    footer: Seq<char>,
) -> Seq<char> {
    spec_header(prefix, scope, subject) + spec_body_block(body) + spec_footer_block(body, footer)
}

/// Builds a commit message from its components.
pub fn build_commit_message(
    prefix: &str,
    scope: &str,
    subject: &str,
    body: &str,
    footer: &str,
) -> (message: String)
    ensures
        message@ == spec_commit_message(prefix@, scope@, subject@, body@, footer@),
{
    let mut message = String::new();

    message.append(prefix);
    if !scope.is_empty() {
        message.push('(');
        message.append(scope);
        message.push(')');
    }
    message.push(':');
    message.push(' ');
    message.append(subject);
    proof {
        assert(message@ =~= spec_header(prefix@, scope@, subject@));
    }

    if !body.is_empty() {
        message.push('\n');
        message.push('\n');
        message.append(body);
    }
    proof {
        assert(message@ =~= spec_header(prefix@, scope@, subject@) + spec_body_block(body@));
    }

    if !footer.is_empty() {
        let body_len: usize = body.unicode_len();
        if body_len == 0 || body.get_char(body_len - 1) != '\n' {
            message.push('\n');
            message.push('\n');
        } else {
            message.push('\n');
        }
        message.append(footer);
    }
    proof {
        assert(message@ =~= spec_commit_message(prefix@, scope@, subject@, body@, footer@));
    }

    message
}

/// Builds a commit message, decorating its header with the type's symbol
/// when asked.
pub fn build_commit_message_with_emoji(
    prefix: &str,
    scope: &str,
    subject: &str,
    body: &str,
    footer: &str,
    use_emoji: bool,
) -> (message: String)
    ensures
        ({
            let plain = spec_commit_message(prefix@, scope@, subject@, body@, footer@);
            message@ == if use_emoji {
                emoji::spec_apply_emoji(prefix@, plain, true)
            } else {
                plain
            }
        }),
{
    let message = build_commit_message(prefix, scope, subject, body, footer);
    if use_emoji {
        emoji::apply_emoji(prefix, message.as_str(), true)
    } else {
        message
    }
}

} // verus!
