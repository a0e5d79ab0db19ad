//! Why a port range text is refused.

use vstd::prelude::*;

verus! {

/// A port range text that does not follow the grammar. No port set is
/// produced for such a text.
#[derive(Clone, Copy, Debug, PartialEq, Eq, Structural)]
pub enum SpecParseError {
    /// The text holds white space although the options forbid it.
    Whitespace,
    /// A term has more than one range separator, or a stride other than one.
    Stepped,
    /// A term is empty, is not a number, or does not fit 16 bits.
    Malformed,
    /// A range whose start lies above its end.
    Descending { start: u16, end: u16 },
}

} // verus!
