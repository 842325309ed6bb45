//! Terminal emphasis, behind trusted wrappers around the `colored` crate.
//!
//! Whether emphasis is actually emitted depends on a process-wide switch
//! that `colored` manages (terminal detection, environment, an explicit
//! override), so each wrapper promises only that the result is the input
//! either unchanged or wrapped in the one fixed SGR sequence pair.  Every
//! caller states its own result up to that same choice.

use vstd::prelude::*;

verus! {

/// Whether `s` is free of the terminal escape character.  The wrappers
/// below demand this: on text that already holds escape sequences the
/// styling library rewrites the interior and the simple contracts here
/// would not hold.
pub open spec fn no_esc(s: Seq<char>) -> bool {
    forall|i: int| 0 <= i < s.len() ==> #[trigger] s[i] != '\u{1b}'
}

/// The SGR sequence that switches the foreground to red.
pub open spec fn sgr_red() -> Seq<char> {
    seq!['\u{1b}', '[', '3', '1', 'm']
}

/// The SGR sequence that switches to bold.
pub open spec fn sgr_bold() -> Seq<char> {
    seq!['\u{1b}', '[', '1', 'm']
}

/// The SGR sequence that resets all styling.
pub open spec fn sgr_reset() -> Seq<char> {
    seq!['\u{1b}', '[', '0', 'm']
}

/// `s` wrapped in the red SGR pair.
pub open spec fn red_wrap(s: Seq<char>) -> Seq<char> {
    sgr_red() + s + sgr_reset()
}

/// `s` wrapped in the bold SGR pair.
pub open spec fn bold_wrap(s: Seq<char>) -> Seq<char> {
    sgr_bold() + s + sgr_reset()
}

/// `s` wrapped in the red SGR pair when `emph` holds, else `s` itself.
pub open spec fn style_if(s: Seq<char>, emph: bool) -> Seq<char> {
    if emph {
        red_wrap(s)
    } else {
        s
    }
}

/// `s` wrapped in the bold SGR pair when `emph` holds, else `s` itself.
pub open spec fn bold_if(s: Seq<char>, emph: bool) -> Seq<char> {
    if emph {
        bold_wrap(s)
    } else {
        s
    }
}

/// Relies on `colored::Colorize::red` and the `Display` of its
/// `ColoredString`: when colorizing is on, the output is the input wrapped
/// in `ESC[31m` and `ESC[0m`; when it is off, the output is the input
/// unchanged.  The input must hold no escape character, since the library
/// re-styles text after each interior reset sequence.
#[verifier::external_body]
pub(crate) fn paint_red(s: &str) -> (r: String)
    requires
        no_esc(s@),
    ensures
        r@ == s@ || r@ == red_wrap(s@),
{
    colored::Colorize::red(s).to_string()
}

/// Relies on `colored::Colorize::bold` and the `Display` of its
/// `ColoredString`: when colorizing is on, the output is the input wrapped
/// in `ESC[1m` and `ESC[0m`; when it is off, the output is the input
/// unchanged.  The input must hold no escape character, since the library
/// re-styles text after each interior reset sequence.
#[verifier::external_body]
pub(crate) fn paint_bold(s: &str) -> (r: String)
    requires
        no_esc(s@),
    ensures
        r@ == s@ || r@ == bold_wrap(s@),
{
    colored::Colorize::bold(s).to_string()
}

} // verus!
