use vstd::prelude::*;
use crate::matching::contains_query;
use crate::matching::folded;
use crate::matching::has_substring;
use crate::matching::lower;
use crate::text::split_lines;
use crate::text::text_lines;

verus! {

/// The lines of `contents` that contain `query` as a contiguous substring,
/// in their original order.
pub open spec fn matching_lines(contents: Seq<char>, query: Seq<char>) -> Seq<Seq<char>> {
    text_lines(contents).filter(|l: Seq<char>| has_substring(l, query))
}

/// The lines of `contents` whose lowercased text contains the lowercased
/// query as a contiguous substring, in their original order.
pub open spec fn matching_lines_ci(contents: Seq<char>, query: Seq<char>) -> Seq<Seq<char>> {
    text_lines(contents).filter(|l: Seq<char>| has_substring(lower(l), lower(query)))
}

/// Appending one element to a sequence extends its filtered image by that
/// element exactly when the element satisfies the predicate.
proof fn lemma_filter_push<A>(s: Seq<A>, pred: spec_fn(A) -> bool, x: A)
    ensures
        s.push(x).filter(pred) == if pred(x) {
            s.filter(pred).push(x)
        } else {
            s.filter(pred)
        },
{
    reveal(Seq::filter);
    assert(s.push(x).drop_last() =~= s);
    assert(s.push(x).last() == x);
}

/// Case-sensitive search: returns exactly the lines of `contents` that
/// contain `query` verbatim, as slices borrowed from `contents`, in their
/// original order.  An empty `query` is contained in every line.
pub fn search<'a>(contents: &'a str, query: &str) -> (result: Vec<&'a str>)
    ensures
        result.deep_view() == matching_lines(contents@, query@),
{
    let result = filter_lines(contents, query, false);
    proof {
        let ghost p = |l: Seq<char>| has_substring(folded(false, l), folded(false, query@));
        let ghost q = |l: Seq<char>| has_substring(l, query@);
        assert(p =~= q);
    }
    result
}

/// Case-insensitive search: returns exactly the lines of `contents` that
/// contain `query` after codepoint-wise lowercasing of both sides, as
/// slices of the original (not lowercased) text, in their original order.
pub fn search_case_insensitive<'a>(contents: &'a str, query: &str) -> (result: Vec<&'a str>)
    ensures
        result.deep_view() == matching_lines_ci(contents@, query@),
{
    let result = filter_lines(contents, query, true);
    proof {
        let ghost p = |l: Seq<char>| has_substring(folded(true, l), folded(true, query@));
        let ghost q = |l: Seq<char>| has_substring(lower(l), lower(query@));
        assert(p =~= q);
    }
    result
}

/// Splits `contents` into lines and keeps those that contain `query`,
/// lowercasing both sides of the comparison when `fold` is set.
fn filter_lines<'a>(contents: &'a str, query: &str, fold: bool) -> (result: Vec<&'a str>)
    ensures
        result.deep_view() == text_lines(contents@).filter(
            |l: Seq<char>| has_substring(folded(fold, l), folded(fold, query@)),
        ),
{
    let ghost pred = |l: Seq<char>| has_substring(folded(fold, l), folded(fold, query@));
    let lines = split_lines(contents);
    let ghost dv = lines.deep_view();
    let mut result: Vec<&'a str> = Vec::new();
    let mut i: usize = 0;
    assert(dv.take(0) =~~= Seq::<Seq<char>>::empty());
    assert(result.deep_view() =~~= dv.take(0).filter(pred)) by {
        reveal(Seq::filter);
    }
    while i < lines.len()
        invariant
            dv == text_lines(contents@),
            dv == lines.deep_view(),
            dv.len() == lines@.len(),
            pred == (|l: Seq<char>| has_substring(folded(fold, l), folded(fold, query@))),
            0 <= i <= lines@.len(),
            result.deep_view() == dv.take(i as int).filter(pred),
        decreases lines@.len() - i,
    {
        let line = lines[i];
        assert(line@ == dv[i as int]);
        let ghost sofar = result.deep_view();
        proof {
            lemma_filter_push(dv.take(i as int), pred, dv[i as int]);
            assert(dv.take(i + 1) =~~= dv.take(i as int).push(dv[i as int]));
        }
        if contains_query(line, query, fold) {
            result.push(line);
            assert(result.deep_view() =~~= sofar.push(line@));
        }
        i += 1;
    }
    assert(dv.take(lines@.len() as int) =~~= dv);
    result
}

} // verus!
