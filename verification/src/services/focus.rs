//! Where the user is typing: the resolver interface, a demo resolver, and
//! the accessibility guidance the macOS resolver follows.
use vstd::prelude::*;

use crate::domain::{FocusTarget, ScreenContext};
use crate::text::{chars_of, string_from_chars};

verus! {

/// Reports the focused element and its surroundings.
pub trait FocusResolver {
    fn current_focus_target(&self) -> Result<FocusTarget, String>;

    fn current_screen_context(&self) -> Result<ScreenContext, String>;
}

/// A resolver that reports a fixed Notes window.
pub struct DemoFocusResolver;

fn owned(s: &str) -> (r: String)
    ensures
        r@ == s@,
{
    string_from_chars(&chars_of(s))
}

impl FocusResolver for DemoFocusResolver {
    fn current_focus_target(&self) -> (r: Result<FocusTarget, String>)
        ensures
            r matches Ok(t) && t.app_name@ == "Notes"@ && t.element_role@ == "AXTextArea"@,
    {
        Ok(FocusTarget { app_name: owned("Notes"), element_role: owned("AXTextArea") })
    }

    fn current_screen_context(&self) -> (r: Result<ScreenContext, String>)
        ensures
            r matches Ok(c) && c.app_name@ == "Notes"@ && c.window_title@ == "Meeting prep"@
                && c.focused_role@ == "AXTextArea"@ && c.focused_value_preview@
                == "Action items for launch, customer feedback, latency fixes"@ && c.visible_text@
                == "Action items for launch, customer feedback, latency fixes"@,
    {
        Ok(
            ScreenContext {
                app_name: owned("Notes"),
                window_title: owned("Meeting prep"),
                focused_role: owned("AXTextArea"),
                focused_value_preview: owned(
                    "Action items for launch, customer feedback, latency fixes",
                ),
                visible_text: owned("Action items for launch, customer feedback, latency fixes"),
            },
        )
    }
}

/// The resolver backed by the macOS accessibility API: it reads a focus
/// snapshot bounded to `max_chars` characters of preview text.
pub struct MacOsFocusResolver {
    max_chars: usize,
}

impl MacOsFocusResolver {
    pub fn new(max_chars: usize) -> (r: MacOsFocusResolver)
        ensures
            r.limit() == max_chars,
    {
        MacOsFocusResolver { max_chars }
    }

    pub closed spec fn limit(&self) -> usize {
        self.max_chars
    }

    /// The bound on preview text that each snapshot is read with.
    pub fn preview_limit(&self) -> (n: usize)
        ensures
            n == self.limit(),
    {
        self.max_chars
    }
}

/// Guidance for reading context through the macOS accessibility API.
pub struct MacOsAccessibilityNotes;

impl MacOsAccessibilityNotes {
    /// The priorities, most important first.
    pub fn key_steps() -> (r: [&'static str; 5])
        ensures
            r[0]@ == "Ask for Accessibility permission at startup and fail soft when denied."@,
            r[1]@ == "Read the system-wide focused application and focused UI element first."@,
            r[2]@
                == "Prefer AXValue or AXSelectedTextRange from the focused element before walking the whole tree."@,
            r[3]@
                == "Bound traversal depth and total extracted characters to keep latency predictable."@,
            r[4]@
                == "Cache the last successful focus target so paste can still happen if AX context refresh lags."@,
    {
        [
            "Ask for Accessibility permission at startup and fail soft when denied.",
            "Read the system-wide focused application and focused UI element first.",
            "Prefer AXValue or AXSelectedTextRange from the focused element before walking the whole tree.",
            "Bound traversal depth and total extracted characters to keep latency predictable.",
            "Cache the last successful focus target so paste can still happen if AX context refresh lags.",
        ]
    }
}

} // verus!
