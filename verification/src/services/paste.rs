//! Putting text into the focused element: the paster interface and the
//! lines the demo paster prints.
use vstd::prelude::*;

use crate::domain::FocusTarget;
use crate::text::{push_str, string_from_chars};

verus! {

/// Inserts text where the user is typing, and replaces what it inserted.
pub trait TextPaster {
    fn paste_text(&self, target: &FocusTarget, text: &str) -> Result<(), String>;

    /// Replace the most recently pasted text. `prev_char_count` is the number
    /// of Unicode scalar values that were pasted; the implementation selects
    /// them backwards and pastes `new_text` in their place.
    fn replace_recent_paste(
        &self,
        target: &FocusTarget,
        prev_char_count: usize,
        new_text: &str,
    ) -> Result<(), String>;
}

pub open spec fn paste_report_text(tag: Seq<char>, target: FocusTarget, text: Seq<char>) -> Seq<char> {
    tag + " target_app="@ + target.app_name@ + " role="@ + target.element_role@ + " text="@ + text
}

fn report(tag: &str, target: &FocusTarget, text: &str) -> (r: String)
    ensures
        r@ == paste_report_text(tag@, *target, text@),
{
    let mut out: Vec<char> = Vec::new();
    push_str(&mut out, tag);
    push_str(&mut out, " target_app=");
    push_str(&mut out, target.app_name.as_str());
    push_str(&mut out, " role=");
    push_str(&mut out, target.element_role.as_str());
    push_str(&mut out, " text=");
    push_str(&mut out, text);
    string_from_chars(&out)
}

/// The line a dry-run paste prints.
pub fn paste_report(target: &FocusTarget, text: &str) -> (r: String)
    ensures
        r@ == paste_report_text("[paste]"@, *target, text@),
{
    report("[paste]", target, text)
}

/// The line a dry-run replacement prints.
pub fn replace_report(target: &FocusTarget, text: &str) -> (r: String)
    ensures
        r@ == paste_report_text("[replace]"@, *target, text@),
{
    report("[replace]", target, text)
}

} // verus!
