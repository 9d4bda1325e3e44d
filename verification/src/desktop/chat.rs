//! The chat pane: what is sent, and how messages are shown.
use crate::text::{concat_text, trim, trimmed};
use vstd::prelude::*;

verus! {

/// The message that the text in the composer makes: the text without white
/// space at its ends, and none where nothing is left.
pub fn composed_message(text: &str) -> (r: Option<String>)
    ensures
        match r {
            Some(message) => message@ == trimmed(text@) && trimmed(text@).len() > 0,
            None => trimmed(text@).len() == 0,
        },
{
    let message = trim(text);
    if crate::text::chars_of(message.as_str()).len() > 0 {
        Some(message)
    } else {
        None
    }
}

/// The style class of a message by the role of its author.
pub fn message_class(role: &str) -> (r: String)
    ensures
        r@ == "codex-msg-"@ + role@,
{
    concat_text("codex-msg-", role)
}

} // verus!
