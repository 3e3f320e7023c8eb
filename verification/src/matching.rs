use vstd::prelude::*;
use vstd::string::StrSliceExecFns;

verus! {

/// The simple lowercase mapping of one character: the first codepoint
/// that `char::to_lowercase` yields for it.  A character without a
/// lowercase form maps to itself.  The mapping depends on the character
/// alone, so it is a fixed (if large) function; it is named here rather
/// than written out, and `lower_char_exec` below computes it.
pub uninterp spec fn lower_char(c: char) -> char;

/// Codepoint-wise lowercasing of a whole character sequence: each
/// character replaced by its simple lowercase mapping.  This is the
/// "simple lowercase comparison" the search uses; context-dependent case
/// folding is out of scope.
pub open spec fn lower(s: Seq<char>) -> Seq<char> {
    s.map_values(|c: char| lower_char(c))
}

/// `needle` occurs in `hay` as a contiguous substring starting at
/// character position `i`.
pub open spec fn occurs_at(hay: Seq<char>, needle: Seq<char>, i: int) -> bool {
    &&& 0 <= i
    &&& i + needle.len() <= hay.len()
    &&& hay.subrange(i, i + needle.len() as int) == needle
}

/// `needle` occurs somewhere in `hay` as a contiguous substring.  The empty
/// sequence occurs in every sequence, at position 0.
pub open spec fn has_substring(hay: Seq<char>, needle: Seq<char>) -> bool {
    exists|i: int| occurs_at(hay, needle, i)
}

/// `s`, lowercased when `fold` is set, unchanged otherwise.
pub open spec fn folded(fold: bool, s: Seq<char>) -> Seq<char> {
    if fold {
        lower(s)
    } else {
        s
    }
}

/// Relies on char::to_lowercase: its result is determined by the
/// character alone; the first codepoint it yields is the character's
/// simple lowercase mapping (a character with no mapping yields itself).
#[verifier::external_body]
fn lower_char_exec(c: char) -> (r: char)
    ensures
        r == lower_char(c),
{
    match c.to_lowercase().next() {
        Some(l) => l,
        None => c,
    }
}

/// Compares the characters of `hay` starting at `i` against `needle`,
/// lowercasing both sides when `fold` is set.
fn match_at(hay: &str, needle: &str, needle_len: usize, i: usize, fold: bool) -> (r: bool)
    requires
        needle_len == needle@.len(),
        i + needle_len <= hay@.len(),
        hay@.len() <= usize::MAX,
    ensures
        r == occurs_at(folded(fold, hay@), folded(fold, needle@), i as int),
{
    let ghost fhay = folded(fold, hay@);
    let ghost fneedle = folded(fold, needle@);
    let mut j: usize = 0;
    while j < needle_len
        invariant
            needle_len == needle@.len(),
            i + needle_len <= hay@.len(),
            hay@.len() <= usize::MAX,
            0 <= j <= needle_len,
            fhay == folded(fold, hay@),
            fneedle == folded(fold, needle@),
            forall|k: int| 0 <= k < j ==> fhay[i + k] == fneedle[k],
        decreases needle_len - j,
    {
        let hc = hay.get_char(i + j);
        let nc = needle.get_char(j);
        let (hc, nc) = if fold {
            (lower_char_exec(hc), lower_char_exec(nc))
        } else {
            (hc, nc)
        };
        if hc != nc {
            assert(fhay.subrange(i as int, i + needle_len as int) != fneedle) by {
                assert(fhay.subrange(i as int, i + needle_len as int)[j as int] == fhay[i + j]);
            }
            return false;
        }
        j += 1;
    }
    assert(fhay.subrange(i as int, i + needle_len as int) =~= fneedle);
    true
}

/// `needle` occurs in `hay` as a contiguous substring, with both sides
/// lowercased when `fold` is set.
pub fn contains_query(hay: &str, needle: &str, fold: bool) -> (r: bool)
    ensures
        r == has_substring(folded(fold, hay@), folded(fold, needle@)),
{
    let ghost fhay = folded(fold, hay@);
    let ghost fneedle = folded(fold, needle@);
    let n = hay.unicode_len();
    let m = needle.unicode_len();
    if m > n {
        assert(!has_substring(fhay, fneedle));
        return false;
    }
    let last: usize = n - m;
    let mut i: usize = 0;
    loop
        invariant
            n == hay@.len(),
            m == needle@.len(),
            m <= n,
            last == n - m,
            0 <= i <= last,
            fhay == folded(fold, hay@),
            fneedle == folded(fold, needle@),
            forall|k: int| 0 <= k < i ==> !occurs_at(fhay, fneedle, k),
        decreases last - i,
    {
        if match_at(hay, needle, m, i, fold) {
            assert(has_substring(fhay, fneedle));
            return true;
        }
        if i == last {
            assert(!has_substring(fhay, fneedle));
            return false;
        }
        i += 1;
    }
}

} // verus!
