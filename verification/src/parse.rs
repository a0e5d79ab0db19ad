//! Reading a range text into a port set.

use vstd::prelude::*;
use crate::bridge::{parse_terms, parsed_terms};
use crate::error::SpecParseError;
use crate::options::RangeOptions;
use crate::portset::{dedup_first, lemma_dedup_first_members, FirstSeen, PortSet};
use crate::term::{expand, RangeTerm};

verus! {

/// White space, as Unicode defines it.
pub open spec fn is_blank(c: char) -> bool {
    let n = c as u32;
    ||| 0x09 <= n <= 0x0D
    ||| n == 0x20
    ||| n == 0x85
    ||| n == 0xA0
    ||| n == 0x1680
    ||| 0x2000 <= n <= 0x200A
    ||| n == 0x2028
    ||| n == 0x2029
    ||| n == 0x202F
    ||| n == 0x205F
    ||| n == 0x3000
}

/// Whether white space occurs anywhere in `text`.
pub open spec fn has_blank(text: Seq<char>) -> bool {
    exists|i: int| 0 <= i < text.len() && is_blank(#[trigger] text[i])
}

/// Whether the characters at `i` and `j` are two range separators of one
/// term: no list separator stands at or between them.
pub open spec fn same_term_separators(options: RangeOptions, text: Seq<char>, i: int, j: int) -> bool {
    &&& 0 <= i < j < text.len()
    &&& text[i] == options.range_sep
    &&& text[j] == options.range_sep
    &&& forall|k: int| i <= k <= j ==> #[trigger] text[k] != options.list_sep
}

/// Whether some term of `text` holds more than one range separator, which
/// would make it a range with a stride.
pub open spec fn has_stepped_term(options: RangeOptions, text: Seq<char>) -> bool {
    exists|i: int, j: int| same_term_separators(options, text, i, j)
}

/// Why a term is no term of the port grammar, if it is none.
pub open spec fn term_fault(term: RangeTerm) -> Option<SpecParseError> {
    match term {
        RangeTerm::Single(_) => None,
        RangeTerm::Range { start, step, end } => if step != 1 {
            Some(SpecParseError::Stepped)
        } else if start > end {
            Some(SpecParseError::Descending { start, end })
        } else {
            None
        },
    }
}

/// The fault of the first faulty term, if any term is faulty.
pub open spec fn first_fault(terms: Seq<RangeTerm>) -> Option<SpecParseError>
    decreases terms.len(),
{
    if terms.len() == 0 {
        None
    } else {
        match first_fault(terms.drop_last()) {
            Some(fault) => Some(fault),
            None => term_fault(terms.last()),
        }
    }
}

/// The port set that a list of terms stands for: all their numbers, each
/// where it first occurs; or the first fault among the terms.
pub open spec fn resolve(terms: Seq<RangeTerm>) -> Result<Seq<u16>, SpecParseError> {
    match first_fault(terms) {
        Some(fault) => Err(fault),
        None => Ok(dedup_first(expand(terms))),
    }
}

/// What parsing `text` yields, given what the term reader made of it
/// (`None` where it refused the text). In this order: white space that the
/// options forbid, a term with more than one range separator, a text that
/// the term reader refused or in which it found no term although the text is
/// not empty, and the first faulty term each give their error; otherwise the
/// terms give the port set. The empty text gives the empty set.
pub open spec fn parse_outcome(
    options: RangeOptions,
    text: Seq<char>,
    read: Option<Seq<RangeTerm>>,
) -> Result<Seq<u16>, SpecParseError> {
    if !options.whitespace && has_blank(text) {
        Err(SpecParseError::Whitespace)
    } else if has_stepped_term(options, text) {
        Err(SpecParseError::Stepped)
    } else {
        match read {
            None => Err(SpecParseError::Malformed),
            Some(terms) => if terms.len() == 0 && text.len() > 0 {
                Err(SpecParseError::Malformed)
            } else {
                resolve(terms)
            },
        }
    }
}

/// Whether a result is the port set or the error that `expected` names.
pub open spec fn yields(res: Result<PortSet, SpecParseError>, expected: Result<Seq<u16>, SpecParseError>) -> bool {
    match expected {
        Ok(ports) => res is Ok && res->Ok_0.wf() && res->Ok_0@ == ports,
        Err(fault) => res is Err && res->Err_0 == fault,
    }
}

/// No fault up to a term means no fault in any term before it.
pub proof fn lemma_first_fault_none(terms: Seq<RangeTerm>)
    requires
        first_fault(terms) is None,
    ensures
        forall|i: int| 0 <= i < terms.len() ==> (#[trigger] terms[i]).is_plain(),
    decreases terms.len(),
{
    if terms.len() > 0 {
        lemma_first_fault_none(terms.drop_last());
        assert forall|i: int| 0 <= i < terms.len() implies (#[trigger] terms[i]).is_plain() by {
            if i < terms.len() - 1 {
                assert(terms.drop_last()[i] == terms[i]);
            }
        }
    }
}

/// A text that is accepted and is not empty names at least one port.
pub proof fn lemma_parsed_set_not_empty(
    options: RangeOptions,
    text: Seq<char>,
    read: Option<Seq<RangeTerm>>,
)
    requires
        text.len() > 0,
        parse_outcome(options, text, read) is Ok,
    ensures
        parse_outcome(options, text, read)->Ok_0.len() > 0,
{
    let terms = read->Some_0;
    let all = expand(terms);
    lemma_first_fault_none(terms);
    assert(terms[terms.len() - 1].is_plain());
    assert(terms.last().values().len() > 0);
    assert(all.len() > 0);
    lemma_dedup_first_members(all);
    assert(all.contains(all[0]));
    assert(dedup_first(all).contains(all[0]));
}

/// Whether `c` is white space.
pub fn blank(c: char) -> (b: bool)
    ensures
        b == is_blank(c),
{
    let n: u32 = c as u32;
    (0x09 <= n && n <= 0x0D) || n == 0x20 || n == 0x85 || n == 0xA0 || n == 0x1680 || (0x2000 <= n
        && n <= 0x200A) || n == 0x2028 || n == 0x2029 || n == 0x202F || n == 0x205F || n == 0x3000
}

/// Whether white space occurs in `text`.
pub fn contains_blank(text: &str) -> (found: bool)
    ensures
        found == has_blank(text@),
{
    for c in it: text.chars()
        invariant
            it.seq() == text@,
            forall|i: int| 0 <= i < it.index() ==> !is_blank(#[trigger] text@[i]),
    {
        assert(c == text@[it.index() as int]);
        if blank(c) {
            return true;
        }
    }
    false
}

/// Whether some term of `text` holds more than one range separator.
pub fn contains_stepped_term(options: &RangeOptions, text: &str) -> (found: bool)
    ensures
        found == has_stepped_term(*options, text@),
{
    let mut in_range = false;
    let ghost mut term_start: int = 0;
    let ghost mut first_sep: int = 0;
    for c in it: text.chars()
        invariant
            it.seq() == text@,
            0 <= term_start <= it.index(),
            term_start > 0 ==> text@[term_start - 1] == options.list_sep,
            forall|k: int| term_start <= k < it.index() ==> #[trigger] text@[k] != options.list_sep,
            in_range ==> term_start <= first_sep < it.index() && text@[first_sep] == options.range_sep,
            !in_range ==> forall|k: int|
                term_start <= k < it.index() ==> #[trigger] text@[k] != options.range_sep,
            forall|i: int, j: int|
                j < it.index() ==> !same_term_separators(*options, text@, i, j),
    {
        let ghost at: int = it.index() as int;
        assert(c == text@[at]);
        if c == options.list_sep {
            in_range = false;
            proof {
                term_start = at + 1;
            }
        } else if c == options.range_sep {
            if in_range {
                assert(same_term_separators(*options, text@, first_sep, at));
                return true;
            }
            in_range = true;
            proof {
                first_sep = at;
                assert forall|i: int, j: int| j < at + 1 implies !same_term_separators(
                    *options,
                    text@,
                    i,
                    j,
                ) by {
                    if j == at && same_term_separators(*options, text@, i, j) {
                        if i < term_start {
                            assert(text@[term_start - 1] == options.list_sep);
                        }
                    }
                }
            }
        }
    }
    false
}

/// The first fault among `terms`, if there is one.
pub fn find_fault(terms: &Vec<RangeTerm>) -> (fault: Option<SpecParseError>)
    ensures
        fault == first_fault(terms@),
{
    let mut i: usize = 0;
    while i < terms.len()
        invariant
            i <= terms.len(),
            first_fault(terms@.take(i as int)) is None,
        decreases terms.len() - i,
    {
        let ghost upto = terms@.take(i as int + 1);
        assert(upto.drop_last() =~= terms@.take(i as int));
        assert(upto.last() == terms@[i as int]);
        match terms[i] {
            RangeTerm::Single(_) => {},
            RangeTerm::Range { start, step, end } => {
                if step != 1 {
                    proof {
                        lemma_first_fault_prefix(terms@, i as int + 1);
                    }
                    return Some(SpecParseError::Stepped);
                }
                if start > end {
                    proof {
                        lemma_first_fault_prefix(terms@, i as int + 1);
                    }
                    return Some(SpecParseError::Descending { start, end });
                }
            },
        }
        i = i + 1;
    }
    assert(terms@.take(terms.len() as int) =~= terms@);
    None
}

/// A fault found in a prefix of the terms is the first fault of them all.
pub proof fn lemma_first_fault_prefix(terms: Seq<RangeTerm>, n: int)
    requires
        0 <= n <= terms.len(),
        first_fault(terms.take(n)) is Some,
    ensures
        first_fault(terms) == first_fault(terms.take(n)),
    decreases terms.len() - n,
{
    if n < terms.len() {
        assert(terms.take(n + 1).drop_last() =~= terms.take(n));
        lemma_first_fault_prefix(terms, n + 1);
    } else {
        assert(terms.take(n) =~= terms);
    }
}

/// The numbers of `terms`, each where it first occurs. Every term must be a
/// term of the port grammar.
pub fn expand_terms(terms: &Vec<RangeTerm>) -> (set: PortSet)
    requires
        first_fault(terms@) is None,
    ensures
        set.wf(),
        set@ == dedup_first(expand(terms@)),
{
    let mut acc = FirstSeen::new();
    let mut i: usize = 0;
    proof {
        lemma_first_fault_none(terms@);
    }
    while i < terms.len()
        invariant
            i <= terms.len(),
            acc.wf(),
            acc.fed() == expand(terms@.take(i as int)),
            forall|k: int| 0 <= k < terms.len() ==> (#[trigger] terms@[k]).is_plain(),
        decreases terms.len() - i,
    {
        let term = terms[i];
        let ghost before = acc.fed();
        assert(term.is_plain());
        proof {
            assert(terms@.take(i as int + 1).drop_last() =~= terms@.take(i as int));
            assert(terms@.take(i as int + 1).last() == term);
        }
        match term {
            RangeTerm::Single(v) => {
                acc.feed(v);
                assert(acc.fed() =~= before + term.values());
            },
            RangeTerm::Range { start, step, end } => {
                let mut v: u16 = start;
                acc.feed(v);
                while v < end
                    invariant
                        start <= v <= end,
                        term == (RangeTerm::Range { start, step, end }),
                        acc.wf(),
                        acc.fed() == before + term.values().take(v - start + 1),
                    decreases end - v,
                {
                    v = v + 1;
                    acc.feed(v);
                    assert(acc.fed() =~= before + term.values().take(v - start + 1));
                }
                assert(term.values().take(end - start + 1) =~= term.values());
            },
        }
        i = i + 1;
    }
    assert(terms@.take(terms.len() as int) =~= terms@);
    acc.finish()
}

/// Turns what the term reader made of `text` into the port set, or into the
/// reason why the text is refused. `read` is `None` where the reader refused
/// the text.
pub fn settle(options: &RangeOptions, text: &str, read: Option<Vec<RangeTerm>>) -> (res: Result<
    PortSet,
    SpecParseError,
>)
    ensures
        yields(
            res,
            parse_outcome(
                *options,
                text@,
                match read {
                    Some(terms) => Some(terms@),
                    None => None,
                },
            ),
        ),
{
    if !options.whitespace && contains_blank(text) {
        return Err(SpecParseError::Whitespace);
    }
    if contains_stepped_term(options, text) {
        return Err(SpecParseError::Stepped);
    }
    match read {
        None => Err(SpecParseError::Malformed),
        Some(terms) => {
            if terms.len() == 0 && !text.is_empty() {
                return Err(SpecParseError::Malformed);
            }
            match find_fault(&terms) {
                Some(fault) => Err(fault),
                None => Ok(expand_terms(&terms)),
            }
        },
    }
}

/// Parses a range text into the set of ports it names, in the order of
/// first occurrence. The text is refused as a whole if it holds white space
/// that the options forbid, a term with more than one range separator, a
/// term that is no number of 16 bits, or a range that descends.
pub fn parse(options: &RangeOptions, text: &str) -> (res: Result<PortSet, SpecParseError>)
    ensures
        yields(res, parse_outcome(*options, text@, parsed_terms(*options, text@))),
{
    let read = match parse_terms(options, text) {
        Ok(terms) => Some(terms),
        Err(_) => None,
    };
    settle(options, text, read)
}

} // verus!
