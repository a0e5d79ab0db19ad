//! The calls into the `number_range` crate. Their contracts are taken on
//! trust from that crate's source; everything else in this library is proved
//! from them.

use vstd::prelude::*;
use crate::options::RangeOptions;
use crate::serialize::is_run_cover;
use crate::term::RangeTerm;
use number_range::{Number, NumberRange, NumberRangeOptions};

verus! {

/// `anyhow::Error`, the failure that `number_range` reports; nothing is read
/// from it.
#[verifier::external_type_specification]
#[verifier::external_body]
pub struct ExAnyhowError(anyhow::Error);

/// What `NumberRangeOptions::<u16>::parse` makes of `text` under `options`:
/// the terms it read, or `None` where it reports an error.
pub uninterp spec fn parsed_terms(options: RangeOptions, text: Seq<char>) -> Option<Seq<RangeTerm>>;

/// Calls `NumberRangeOptions::<u16>::parse` and hands out the terms it read,
/// one for one. The contract only names the outcome: it is a function of the
/// options and the text.
#[verifier::external_body]
pub(crate) fn parse_terms(options: &RangeOptions, text: &str) -> (res: Result<Vec<RangeTerm>, anyhow::Error>)
    ensures
        match parsed_terms(*options, text@) {
            Some(terms) => res is Ok && res->Ok_0@ == terms,
            None => res is Err,
        },
{
    let outside = NumberRangeOptions::<u16> {
        list_sep: options.list_sep,
        range_sep: options.range_sep,
        decimal_sep: options.decimal_sep,
        group_sep: options.group_sep,
        whitespace: options.whitespace,
        default_start: None,
        default_end: None,
    };
    let parsed = outside.parse(text)?;
    Ok(parsed.numbers.iter().map(|n| match *n {
        Number::Single(v) => RangeTerm::Single(v),
        Number::Range(start, step, end) => RangeTerm::Range { start, step, end },
    }).collect())
}

/// Calls `NumberRange::<u16>::from_vec` with no stride given and hands out
/// the terms it built, one for one. That function sorts the values, passes
/// over repeated ones, and makes one term of each maximal run of consecutive
/// values: a range with stride one where the run has several values, a
/// single number where it has one.
#[verifier::external_body]
pub(crate) fn merge_runs(ports: &Vec<u16>) -> (terms: Vec<RangeTerm>)
    ensures
        is_run_cover(ports@, terms@),
{
    let merged = NumberRange::<u16>::default().from_vec(ports.iter().copied(), None);
    merged.numbers.iter().map(|n| match *n {
        Number::Single(v) => RangeTerm::Single(v),
        Number::Range(start, step, end) => RangeTerm::Range { start, step, end },
    }).collect()
}

/// The text that the `Display` impl of `NumberRange<u16>` writes for `terms`
/// under `options`.
pub uninterp spec fn rendered_terms(options: RangeOptions, terms: Seq<RangeTerm>) -> Seq<char>;

/// Builds a `NumberRange<u16>` that holds `terms`, one for one, and formats
/// it with its `Display` impl. The contract only names the text: it is a
/// function of the options and the terms.
#[verifier::external_body]
pub(crate) fn render_terms(options: &RangeOptions, terms: &Vec<RangeTerm>) -> (text: String)
    ensures
        text@ == rendered_terms(*options, terms@),
{
    let mut range = NumberRange::<u16>::from_options(NumberRangeOptions::<u16> {
        list_sep: options.list_sep,
        range_sep: options.range_sep,
        decimal_sep: options.decimal_sep,
        group_sep: options.group_sep,
        whitespace: options.whitespace,
        default_start: None,
        default_end: None,
    });
    range.numbers = terms.iter().map(|t| match *t {
        RangeTerm::Single(v) => Number::Single(v),
        RangeTerm::Range { start, step, end } => Number::Range(start, step, end),
    }).collect();
    range.to_string()
}

} // verus!
