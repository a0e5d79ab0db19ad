//! Writing a port set as a range text.

use vstd::prelude::*;
use crate::bridge::{merge_runs, render_terms, rendered_terms};
use crate::options::RangeOptions;
use crate::error::SpecParseError;
use crate::parse::{first_fault, resolve};
use crate::portset::{lemma_dedup_first_fixed, PortSet};
use crate::term::{expand, RangeTerm};

verus! {

/// Every term is a run, and each term lies above the one before it with at
/// least one number left out between them.
pub open spec fn is_ascending_runs(terms: Seq<RangeTerm>) -> bool {
    &&& forall|i: int| 0 <= i < terms.len() ==> (#[trigger] terms[i]).is_run()
    &&& forall|i: int|
        0 <= i < terms.len() - 1 ==> (#[trigger] terms[i]).hi() + 1 < terms[i + 1].lo()
}

/// `terms` is the compact form of the values in `ports`: ascending maximal
/// runs that cover exactly those values.
pub open spec fn is_run_cover(ports: Seq<u16>, terms: Seq<RangeTerm>) -> bool {
    &&& is_ascending_runs(terms)
    &&& forall|v: u16| #[trigger]
        ports.contains(v) <==> exists|i: int|
            0 <= i < terms.len() && (#[trigger] terms[i]).covers(v as int)
}

/// `text` is the range text of the values in `ports`: the rendering of their
/// compact form.
pub open spec fn is_range_text(options: RangeOptions, ports: Seq<u16>, text: Seq<char>) -> bool {
    exists|terms: Seq<RangeTerm>| #[trigger]
        is_run_cover(ports, terms) && text == rendered_terms(options, terms)
}

/// Two sequences hold the same values, whatever their order and repetitions.
pub open spec fn same_members(a: Seq<u16>, b: Seq<u16>) -> bool {
    forall|v: u16| #[trigger] a.contains(v) <==> b.contains(v)
}

/// Each value is smaller than the next.
pub open spec fn is_ascending(s: Seq<u16>) -> bool {
    forall|i: int, j: int| 0 <= i < j < s.len() ==> s[i] < s[j]
}

/// In ascending runs a later term lies above an earlier one, with a gap.
pub proof fn lemma_runs_ordered(terms: Seq<RangeTerm>, i: int, j: int)
    requires
        is_ascending_runs(terms),
        0 <= i < j < terms.len(),
    ensures
        terms[i].hi() + 1 < terms[j].lo(),
    decreases j - i,
{
    if j > i + 1 {
        lemma_runs_ordered(terms, i, j - 1);
        assert(terms[j - 1].is_run());
        assert(terms[j - 1].hi() + 1 < terms[j - 1 + 1].lo());
    }
}

/// A term of a run cover holds members only, and the numbers next to its
/// ends are no members: the term is a maximal run.
pub proof fn lemma_run_is_maximal(ports: Seq<u16>, terms: Seq<RangeTerm>, i: int)
    requires
        is_run_cover(ports, terms),
        0 <= i < terms.len(),
    ensures
        forall|v: u16| terms[i].covers(v as int) ==> ports.contains(v),
        forall|v: u16|
            (v == terms[i].lo() - 1 || v == terms[i].hi() + 1) ==> !ports.contains(v),
{
    assert(terms[i].is_run());
    assert forall|v: u16|
        (v == terms[i].lo() - 1 || v == terms[i].hi() + 1) implies !ports.contains(v) by {
        if ports.contains(v) {
            let k = choose|k: int| 0 <= k < terms.len() && (#[trigger] terms[k]).covers(v as int);
            assert(terms[k].is_run());
            if k < i {
                lemma_runs_ordered(terms, k, i);
            } else if k > i {
                lemma_runs_ordered(terms, i, k);
            }
        }
    }
}

/// Two run covers of the same values agree on a term as soon as one's term
/// covers the start of the other's.
proof fn lemma_same_term(
    p: Seq<u16>,
    a: Seq<RangeTerm>,
    q: Seq<u16>,
    b: Seq<RangeTerm>,
    i: int,
    j: int,
)
    requires
        is_run_cover(p, a),
        is_run_cover(q, b),
        same_members(p, q),
        0 <= i < a.len(),
        0 <= j < b.len(),
        b[j].covers(a[i].lo()),
    ensures
        a[i] == b[j],
{
    lemma_run_is_maximal(p, a, i);
    lemma_run_is_maximal(q, b, j);
    assert(a[i].is_run());
    assert(b[j].is_run());
    if b[j].lo() < a[i].lo() {
        let v = (a[i].lo() - 1) as u16;
        assert(b[j].covers(v as int));
        assert(q.contains(v));
        assert(p.contains(v));
    }
    if a[i].hi() < b[j].hi() {
        let v = (a[i].hi() + 1) as u16;
        assert(b[j].covers(v as int));
        assert(q.contains(v));
        assert(p.contains(v));
    }
    if b[j].hi() < a[i].hi() {
        let v = (b[j].hi() + 1) as u16;
        assert(a[i].covers(v as int));
        assert(p.contains(v));
        assert(q.contains(v));
    }
}

/// The term of `b` that equals the term `i` of `a`.
proof fn lemma_matching_term(
    p: Seq<u16>,
    a: Seq<RangeTerm>,
    q: Seq<u16>,
    b: Seq<RangeTerm>,
    i: int,
) -> (j: int)
    requires
        is_run_cover(p, a),
        is_run_cover(q, b),
        same_members(p, q),
        0 <= i < a.len(),
    ensures
        0 <= j < b.len(),
        a[i] == b[j],
{
    assert(a[i].is_run());
    let v = a[i].lo() as u16;
    assert(a[i].covers(v as int));
    assert(p.contains(v));
    assert(q.contains(v));
    let j = choose|j: int| 0 <= j < b.len() && (#[trigger] b[j]).covers(v as int);
    lemma_same_term(p, a, q, b, i, j);
    j
}

/// Two run covers of the same values agree on their first `n` terms.
proof fn lemma_agree_upto(p: Seq<u16>, a: Seq<RangeTerm>, q: Seq<u16>, b: Seq<RangeTerm>, n: int)
    requires
        is_run_cover(p, a),
        is_run_cover(q, b),
        same_members(p, q),
        0 <= n <= a.len(),
    ensures
        n <= b.len(),
        forall|k: int| 0 <= k < n ==> a[k] == b[k],
    decreases n,
{
    if n > 0 {
        let i = n - 1;
        lemma_agree_upto(p, a, q, b, i);
        let j = lemma_matching_term(p, a, q, b, i);
        assert(a[i].is_run());
        if j < i {
            assert(a[j] == b[j]);
            lemma_runs_ordered(a, j, i);
        } else if j > i {
            let m = lemma_matching_term(q, b, p, a, i);
            assert(b[i].is_run());
            lemma_runs_ordered(b, i, j);
            if m < i {
                assert(a[m] == b[m]);
                lemma_runs_ordered(b, m, i);
            } else if m > i {
                lemma_runs_ordered(a, i, m);
            }
        }
    }
}

/// The values decide their compact form: two run covers of the same values
/// are the same terms.
pub proof fn lemma_run_cover_unique(p: Seq<u16>, a: Seq<RangeTerm>, q: Seq<u16>, b: Seq<RangeTerm>)
    requires
        is_run_cover(p, a),
        is_run_cover(q, b),
        same_members(p, q),
    ensures
        a == b,
{
    lemma_agree_upto(p, a, q, b, a.len() as int);
    lemma_agree_upto(q, b, p, a, b.len() as int);
    assert(a =~= b);
}

/// The range text depends on the values alone, not on their order or
/// repetitions: two range texts of the same values, under the same options,
/// are equal.
pub proof fn lemma_range_text_canonical(
    options: RangeOptions,
    p: Seq<u16>,
    s: Seq<char>,
    q: Seq<u16>,
    t: Seq<char>,
)
    requires
        is_range_text(options, p, s),
        is_range_text(options, q, t),
        same_members(p, q),
    ensures
        s == t,
{
    let a = choose|a: Seq<RangeTerm>| #[trigger]
        is_run_cover(p, a) && s == rendered_terms(options, a);
    let b = choose|b: Seq<RangeTerm>| #[trigger]
        is_run_cover(q, b) && t == rendered_terms(options, b);
    lemma_run_cover_unique(p, a, q, b);
}

/// A range text never holds a range of one number: it is the rendering of
/// terms in which every range starts below its end, so a number without
/// neighbours is written alone.
pub proof fn lemma_no_single_number_range(options: RangeOptions, ports: Seq<u16>, text: Seq<char>)
    requires
        is_range_text(options, ports, text),
    ensures
        exists|terms: Seq<RangeTerm>|
            {
                &&& #[trigger] rendered_terms(options, terms) == text
                &&& forall|i: int|
                    0 <= i < terms.len() ==> (#[trigger] terms[i] matches RangeTerm::Range {
                        start,
                        end,
                        ..
                    } ==> start < end)
            },
{
    let terms = choose|terms: Seq<RangeTerm>| #[trigger]
        is_run_cover(ports, terms) && text == rendered_terms(options, terms);
    assert forall|i: int| 0 <= i < terms.len() implies (#[trigger] terms[i] matches RangeTerm::Range {
        start,
        end,
        ..
    } ==> start < end) by {
        assert(terms[i].is_run());
    }
    assert(rendered_terms(options, terms) == text);
}

/// A prefix of ascending runs is ascending runs.
proof fn lemma_runs_prefix(terms: Seq<RangeTerm>)
    requires
        is_ascending_runs(terms),
        terms.len() > 0,
    ensures
        is_ascending_runs(terms.drop_last()),
{
    let front = terms.drop_last();
    assert forall|i: int| 0 <= i < front.len() implies (#[trigger] front[i]).is_run() by {
        assert(terms[i].is_run());
    }
    assert forall|i: int| 0 <= i < front.len() - 1 implies (#[trigger] front[i]).hi() + 1
        < front[i + 1].lo() by {
        assert(terms[i].hi() + 1 < terms[i + 1].lo());
    }
}

/// Runs are terms of the port grammar: none of them is faulty.
pub proof fn lemma_runs_have_no_fault(terms: Seq<RangeTerm>)
    requires
        is_ascending_runs(terms),
    ensures
        first_fault(terms) is None,
    decreases terms.len(),
{
    if terms.len() > 0 {
        lemma_runs_prefix(terms);
        lemma_runs_have_no_fault(terms.drop_last());
        assert(terms[terms.len() - 1].is_run());
    }
}

/// The numbers of ascending runs are the numbers that some run covers, and
/// they come out ascending.
pub proof fn lemma_expand_runs(terms: Seq<RangeTerm>)
    requires
        is_ascending_runs(terms),
    ensures
        forall|v: u16| #[trigger]
            expand(terms).contains(v) <==> exists|i: int|
                0 <= i < terms.len() && (#[trigger] terms[i]).covers(v as int),
        is_ascending(expand(terms)),
    decreases terms.len(),
{
    if terms.len() > 0 {
        let front = terms.drop_last();
        let last = terms.last();
        let n = terms.len() - 1;
        lemma_runs_prefix(terms);
        lemma_expand_runs(front);
        assert(terms[n].is_run());
        let head = expand(front);
        let tail = last.values();
        assert(expand(terms) == head + tail);
        assert forall|v: u16| #[trigger]
            expand(terms).contains(v) <==> exists|i: int|
                0 <= i < terms.len() && (#[trigger] terms[i]).covers(v as int) by {
            if expand(terms).contains(v) {
                let k = choose|k: int| 0 <= k < expand(terms).len() && expand(terms)[k] == v;
                if k < head.len() {
                    assert(head[k] == v);
                    assert(head.contains(v));
                    let i = choose|i: int| 0 <= i < front.len() && (#[trigger] front[i]).covers(v as int);
                    assert(terms[i].covers(v as int));
                } else {
                    assert(tail[k - head.len()] == v);
                    assert(terms[n].covers(v as int));
                }
            }
            if exists|i: int| 0 <= i < terms.len() && (#[trigger] terms[i]).covers(v as int) {
                let i = choose|i: int| 0 <= i < terms.len() && (#[trigger] terms[i]).covers(v as int);
                if i < n {
                    assert(front[i].covers(v as int));
                    assert(head.contains(v));
                    let k = choose|k: int| 0 <= k < head.len() && head[k] == v;
                    assert(expand(terms)[k] == v);
                } else {
                    let k = v - last.lo();
                    assert(tail[k] == v);
                    assert(expand(terms)[head.len() + k] == v);
                }
            }
        }
        assert forall|i: int, j: int| 0 <= i < j < expand(terms).len() implies expand(terms)[i]
            < expand(terms)[j] by {
            if j < head.len() {
                assert(head[i] < head[j]);
            } else if i < head.len() {
                let v = head[i];
                assert(head.contains(v));
                let k = choose|k: int| 0 <= k < front.len() && (#[trigger] front[k]).covers(v as int);
                assert(terms[k] == front[k]);
                lemma_runs_ordered(terms, k, n);
                assert(expand(terms)[j] == tail[j - head.len()]);
            } else {
                assert(expand(terms)[i] == tail[i - head.len()]);
                assert(expand(terms)[j] == tail[j - head.len()]);
            }
        }
    }
}

/// Reading the compact form of some values back gives those values, each
/// once and ascending: compacting loses nothing and adds nothing.
pub proof fn lemma_compact_round_trip(ports: Seq<u16>, terms: Seq<RangeTerm>)
    requires
        is_run_cover(ports, terms),
    ensures
        resolve(terms) == Ok::<Seq<u16>, SpecParseError>(expand(terms)),
        same_members(expand(terms), ports),
        is_ascending(expand(terms)),
{
    lemma_runs_have_no_fault(terms);
    lemma_expand_runs(terms);
    lemma_dedup_first_fixed(expand(terms));
}

/// The compact form of `set`: its values as ascending maximal runs.
pub fn compact(set: &PortSet) -> (terms: Vec<RangeTerm>)
    ensures
        is_run_cover(set@, terms@),
{
    let ports = set.to_vec();
    merge_runs(&ports)
}

/// Writes `set` as a range text: the values ascending, each maximal run of
/// consecutive values as `start`, range separator, `end`, a value without
/// neighbours alone, the terms joined by the list separator. The empty set
/// gives the empty text.
pub fn serialize(options: &RangeOptions, set: &PortSet) -> (text: String)
    ensures
        is_range_text(*options, set@, text@),
{
    let terms = compact(set);
    render_terms(options, &terms)
}

} // verus!
