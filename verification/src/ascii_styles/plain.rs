//! The style that paints nothing.
use vstd::prelude::*;
use vstd::string::StringExecFns;

use crate::ascii_styles::{Style as StyleTrait, StyleType};

verus! {

/// The style that writes text as it is.
#[derive(Debug, Clone, Copy)]
pub struct Style {}

impl StyleTrait for Style {
    open spec fn painted(pattern: Seq<char>, styles: Seq<StyleType>) -> Seq<char> {
        pattern
    }

    /// Writes the text as it is.
    fn fmt(out: &mut String, pattern: &str, styles: &[StyleType]) {
        out.append(pattern);
    }
}

} // verus!
