use vstd::prelude::*;
use crate::matching::has_substring;
use crate::matching::lower;
use crate::matching::occurs_at;
use crate::search::matching_lines;
use crate::search::matching_lines_ci;
use crate::text::text_lines;

verus! {

/// A filter keeps every element that satisfies its predicate.
proof fn lemma_filter_all<A>(s: Seq<A>, pred: spec_fn(A) -> bool)
    requires
        forall|i: int| 0 <= i < s.len() ==> pred(#[trigger] s[i]),
    ensures
        s.filter(pred) == s,
    decreases s.len(),
{
    reveal(Seq::filter);
    if s.len() == 0 {
    } else {
        assert(forall|i: int| 0 <= i < s.drop_last().len() ==> pred(#[trigger] s.drop_last()[i]));
        lemma_filter_all(s.drop_last(), pred);
        assert(s.filter(pred) =~= s);
    }
}

/// An element kept by a filter is also kept by any filter with a weaker
/// predicate.
proof fn lemma_filter_weaken<A>(s: Seq<A>, p: spec_fn(A) -> bool, q: spec_fn(A) -> bool, x: A)
    requires
        s.filter(p).contains(x),
        forall|a: A| p(a) ==> #[trigger] q(a),
    ensures
        s.filter(q).contains(x),
    decreases s.len(),
{
    reveal(Seq::filter);
    if s.len() == 0 {
    } else {
        let sub_p = s.drop_last().filter(p);
        let sub_q = s.drop_last().filter(q);
        if p(s.last()) && x == s.last() {
            assert(s.filter(q) == sub_q.push(s.last()));
            assert(s.filter(q)[s.filter(q).len() - 1] == x);
        } else {
            assert(sub_p.contains(x)) by {
                let j = choose|j: int|
                    0 <= j < s.filter(p).len() && s.filter(p)[j] == x;
                if p(s.last()) {
                    assert(s.filter(p) == sub_p.push(s.last()));
                    assert(j < sub_p.len());
                    assert(sub_p[j] == x);
                } else {
                    assert(s.filter(p) == sub_p);
                }
            }
            lemma_filter_weaken(s.drop_last(), p, q, x);
            let j = choose|j: int| 0 <= j < sub_q.len() && sub_q[j] == x;
            if q(s.last()) {
                assert(s.filter(q) == sub_q.push(s.last()));
                assert(s.filter(q)[j] == x);
            } else {
                assert(s.filter(q) == sub_q);
            }
        }
    }
}

/// Every line of the text that contains the query as a contiguous
/// substring appears in the case-sensitive search result.
pub proof fn lemma_matching_line_found(contents: Seq<char>, query: Seq<char>, i: int)
    requires
        0 <= i < text_lines(contents).len(),
        has_substring(text_lines(contents)[i], query),
    ensures
        matching_lines(contents, query).contains(text_lines(contents)[i]),
{
    text_lines(contents).lemma_filter_contains(|l: Seq<char>| has_substring(l, query), i);
}

/// The empty query occurs in every line, so searching for it returns
/// every line of the text, in order.
pub proof fn lemma_empty_query_returns_all(contents: Seq<char>)
    ensures
        matching_lines(contents, Seq::<char>::empty()) == text_lines(contents),
{
    let pred = |l: Seq<char>| has_substring(l, Seq::<char>::empty());
    assert forall|i: int| 0 <= i < text_lines(contents).len() implies pred(
        #[trigger] text_lines(contents)[i],
    ) by {
        let l = text_lines(contents)[i];
        assert(l.subrange(0, 0) =~= Seq::<char>::empty());
        assert(occurs_at(l, Seq::<char>::empty(), 0));
    }
    lemma_filter_all(text_lines(contents), pred);
}

/// Lowercasing both sides preserves a verbatim occurrence: wherever the
/// query occurs in a line, the lowercased query occurs in the lowercased
/// line.
pub proof fn lemma_lower_preserves_occurrence(hay: Seq<char>, needle: Seq<char>)
    requires
        has_substring(hay, needle),
    ensures
        has_substring(lower(hay), lower(needle)),
{
    let i = choose|i: int| occurs_at(hay, needle, i);
    assert forall|k: int| 0 <= k < needle.len() implies lower(hay).subrange(
        i,
        i + lower(needle).len() as int,
    )[k] == lower(needle)[k] by {
        assert(hay.subrange(i, i + needle.len() as int)[k] == hay[i + k]);
    }
    assert(lower(hay).subrange(i, i + lower(needle).len() as int) =~= lower(needle));
    assert(occurs_at(lower(hay), lower(needle), i));
}

/// Whatever the case-sensitive search finds, the case-insensitive search
/// finds too: its result is a superset of the case-sensitive one by line
/// identity.
pub proof fn lemma_case_insensitive_superset(
    contents: Seq<char>,
    query: Seq<char>,
    line: Seq<char>,
)
    requires
        matching_lines(contents, query).contains(line),
    ensures
        matching_lines_ci(contents, query).contains(line),
{
    let p = |l: Seq<char>| has_substring(l, query);
    let q = |l: Seq<char>| has_substring(lower(l), lower(query));
    assert forall|l: Seq<char>| p(l) implies #[trigger] q(l) by {
        lemma_lower_preserves_occurrence(l, query);
    }
    lemma_filter_weaken(text_lines(contents), p, q, line);
}

/// Both searches are pure functions of the text and the query: two runs
/// over the same inputs yield identical results.
pub proof fn lemma_search_deterministic(
    contents: Seq<char>,
    query: Seq<char>,
    a: Seq<Seq<char>>,
    b: Seq<Seq<char>>,
)
    requires
        a == matching_lines(contents, query),
        b == matching_lines(contents, query),
    ensures
        a == b,
{
}

/// `idx` exhibits `sub` as the elements of `full` taken at a strictly
/// increasing sequence of positions.
pub open spec fn ordered_selection<A>(sub: Seq<A>, full: Seq<A>, idx: Seq<int>) -> bool {
    &&& idx.len() == sub.len()
    &&& forall|k: int|
        0 <= k < idx.len() ==> 0 <= #[trigger] idx[k] < full.len() && sub[k] == full[idx[k]]
    &&& forall|k: int| 0 <= k && k + 1 < idx.len() ==> #[trigger] idx[k] < idx[k + 1]
}

/// A filtered sequence is the original's elements at strictly increasing
/// positions.
proof fn lemma_filter_ordered_selection<A>(s: Seq<A>, pred: spec_fn(A) -> bool)
    ensures
        exists|idx: Seq<int>| ordered_selection(s.filter(pred), s, idx),
    decreases s.len(),
{
    reveal(Seq::filter);
    if s.len() == 0 {
        assert(ordered_selection(s.filter(pred), s, Seq::<int>::empty()));
    } else {
        lemma_filter_ordered_selection(s.drop_last(), pred);
        let idx0 = choose|idx: Seq<int>|
            ordered_selection(s.drop_last().filter(pred), s.drop_last(), idx);
        let sub = s.drop_last().filter(pred);
        assert(forall|k: int| 0 <= k < sub.len() ==> s.drop_last()[#[trigger] idx0[k]] == s[idx0[k]]);
        if pred(s.last()) {
            let idx1 = idx0.push(s.len() - 1);
            assert(s.filter(pred) == sub.push(s.last()));
            assert forall|k: int| 0 <= k < idx1.len() implies 0 <= #[trigger] idx1[k] < s.len()
                && s.filter(pred)[k] == s[idx1[k]] by {
                if k < sub.len() {
                    assert(idx1[k] == idx0[k]);
                    assert(s.filter(pred)[k] == sub[k]);
                    assert(s.drop_last()[idx0[k]] == s[idx0[k]]);
                } else {
                    assert(k == sub.len());
                    assert(idx1[k] == s.len() - 1);
                    assert(s.filter(pred)[k] == s.last());
                }
            }
            assert forall|k: int| 0 <= k && k + 1 < idx1.len() implies #[trigger] idx1[k]
                < idx1[k + 1] by {
                if k + 1 < sub.len() {
                    assert(idx1[k] == idx0[k] && idx1[k + 1] == idx0[k + 1]);
                } else {
                    assert(k + 1 == sub.len());
                    assert(idx1[k] == idx0[k]);
                    assert(idx0[k] < s.drop_last().len());
                }
            }
            assert(ordered_selection(s.filter(pred), s, idx1));
        } else {
            assert(s.filter(pred) == sub);
            assert(ordered_selection(s.filter(pred), s, idx0));
        }
    }
}

/// Order preservation: each search result is the source's lines at a
/// strictly increasing sequence of line positions — no reordering and no
/// deduplication.
pub proof fn lemma_order_preserved(contents: Seq<char>, query: Seq<char>)
    ensures
        exists|idx: Seq<int>|
            ordered_selection(matching_lines(contents, query), text_lines(contents), idx),
        exists|idx: Seq<int>|
            ordered_selection(matching_lines_ci(contents, query), text_lines(contents), idx),
{
    let full = text_lines(contents);
    let p = |l: Seq<char>| has_substring(l, query);
    let q = |l: Seq<char>| has_substring(lower(l), lower(query));
    lemma_filter_ordered_selection(full, p);
    lemma_filter_ordered_selection(full, q);
    let idx_p = choose|idx: Seq<int>| ordered_selection(full.filter(p), full, idx);
    let idx_q = choose|idx: Seq<int>| ordered_selection(full.filter(q), full, idx);
    assert(ordered_selection(matching_lines(contents, query), full, idx_p));
    assert(ordered_selection(matching_lines_ci(contents, query), full, idx_q));
}

/// An empty text has no lines, so either search over it returns an empty
/// result, whatever the query.
pub proof fn lemma_empty_text(query: Seq<char>)
    ensures
        matching_lines(Seq::<char>::empty(), query) == Seq::<Seq<char>>::empty(),
        matching_lines_ci(Seq::<char>::empty(), query) == Seq::<Seq<char>>::empty(),
{
    reveal(Seq::filter);
    assert(text_lines(Seq::<char>::empty()) == Seq::<Seq<char>>::empty());
}

} // verus!
