//! Separator configuration of the range notation.

use vstd::prelude::*;

verus! {

/// The characters that structure a range text, and whether blanks may occur
/// inside it.
#[derive(Clone, Copy, Debug, PartialEq, Eq, Structural)]
pub struct RangeOptions {
    /// Separates the terms of a list.
    pub list_sep: char,
    /// Separates the two ends of a range.
    pub range_sep: char,
    /// Decimal point of the number grammar; no port number contains one.
    pub decimal_sep: char,
    /// Digit grouping character, dropped before a number is read.
    pub group_sep: char,
    /// Whether white space may occur in the text.
    pub whitespace: bool,
}

/// The notation used for ports: `,` between terms, `-` inside a range, `_`
/// for digit grouping, no white space.
pub open spec fn port_notation() -> RangeOptions {
    RangeOptions { list_sep: ',', range_sep: '-', decimal_sep: '.', group_sep: '_', whitespace: false }
}

/// The options of the port notation.
pub fn port_range_option() -> (options: RangeOptions)
    ensures
        options == port_notation(),
{
    RangeOptions {
        list_sep: ',',
        range_sep: '-',
        decimal_sep: '.',
        group_sep: '_',
        whitespace: false,
    }
}

} // verus!
