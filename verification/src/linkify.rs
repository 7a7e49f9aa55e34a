//! Links for author values: a handle in parentheses becomes a link to its
//! GitHub page, an e-mail address in parentheses a `mailto:` link.

use vstd::prelude::*;
use regex::{Captures, Regex};

verus! {

/// The two kinds of token that become links.
#[derive(Clone, Copy, Debug, PartialEq, Eq)]
pub enum LinkKind {
    /// `(@handle)`: letters, digits and underscores after the `@`.
    Handle,
    /// `(local@domain)`: an e-mail address.
    Email,
}

/// The regular expression that finds the tokens of a kind. Its first group
/// is the token without the parentheses, and for a handle without the `@`.
pub open spec fn pattern_text(kind: LinkKind) -> Seq<char> {
    match kind {
        LinkKind::Handle => "\\(@([a-zA-Z0-9_]+)\\)"@,
        LinkKind::Email => "\\(([a-zA-Z0-9_.+-]+@[a-zA-Z0-9-]+\\.[a-zA-Z0-9-.]+)\\)"@,
    }
}

/// The markup that stands for a token: the link, in parentheses again.
pub open spec fn anchor_text(kind: LinkKind, token: Seq<char>) -> Seq<char> {
    match kind {
        LinkKind::Handle => "(<a href=\"https://github.com/"@ + token + "\">@"@ + token
            + "</a>)"@,
        LinkKind::Email => "(<a href=\"mailto:"@ + token + "\">"@ + token + "</a>)"@,
    }
}

/// What `Regex::replace_all` returns for the regular expression `pattern`
/// on `text`, where each match is replaced by `anchor_text(kind, g)`, `g`
/// being the text of the match's first group.
pub uninterp spec fn replaced(pattern: Seq<char>, text: Seq<char>, kind: LinkKind) -> Seq<char>;

/// A text with its handles linked first and, in what that gives, its e-mail
/// addresses.
pub open spec fn linkified(text: Seq<char>) -> Seq<char> {
    replaced(
        pattern_text(LinkKind::Email),
        replaced(pattern_text(LinkKind::Handle), text, LinkKind::Handle),
        LinkKind::Email,
    )
}

/// The regular expression of a kind.
pub fn pattern(kind: LinkKind) -> (out: &'static str)
    ensures
        out@ == pattern_text(kind),
{
    match kind {
        LinkKind::Handle => "\\(@([a-zA-Z0-9_]+)\\)",
        LinkKind::Email => "\\(([a-zA-Z0-9_.+-]+@[a-zA-Z0-9-]+\\.[a-zA-Z0-9-.]+)\\)",
    }
}

/// Writes the link for a token.
pub fn anchor(kind: LinkKind, token: &str) -> (out: String)
    ensures
        out@ == anchor_text(kind, token@),
{
    match kind {
        LinkKind::Handle => {
            let mut out = String::from_str("(<a href=\"https://github.com/");
            out.append(token);
            out.append("\">@");
            out.append(token);
            out.append("</a>)");
            out
        },
        LinkKind::Email => {
            let mut out = String::from_str("(<a href=\"mailto:");
            out.append(token);
            out.append("\">");
            out.append(token);
            out.append("</a>)");
            out
        },
    }
}

/// Compiles `pattern` with `Regex::new` and calls `Regex::replace_all` on
/// `text`; each match is replaced by what `anchor` writes for the text of its
/// first group. The contract names the result and says nothing of where the
/// matches are.
///
/// It is asked only for the two patterns of this module. `Regex::new` accepts
/// both: they hold escaped parentheses, an escaped dot, bracketed classes of
/// single characters and ranges, `+`, and one group. That group is no
/// alternative and has no `?` or `*` behind it, so it takes part in every
/// match.
#[verifier::external_body]
pub(crate) fn replace_all(pattern: &str, text: &str, kind: LinkKind) -> (out: String)
    requires
        pattern@ == pattern_text(kind),
    ensures
        out@ == replaced(pattern@, text@, kind),
{
    let regex = Regex::new(pattern).expect("link pattern");
    regex.replace_all(text, |found: &Captures| anchor(kind, &found[1])).into_owned()
}

/// Links the tokens of one kind in `text`, all of them, from left to right;
/// the links it writes are not searched again.
pub fn link_tokens(kind: LinkKind, text: &str) -> (out: String)
    ensures
        out@ == replaced(pattern_text(kind), text@, kind),
{
    replace_all(pattern(kind), text, kind)
}

/// Turns the handles and e-mail addresses in parentheses into links: first
/// all handles, then all addresses in what the first pass gave.
pub fn linkify_text(text: &str) -> (out: String)
    ensures
        out@ == linkified(text@),
{
    let handles = link_tokens(LinkKind::Handle, text);
    link_tokens(LinkKind::Email, handles.as_str())
}

} // verus!
