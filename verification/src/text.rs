use vstd::prelude::*;
use vstd::string::StrSliceExecFns;

verus! {

/// The lines of a character sequence: maximal runs of text between line
/// breaks.  A line break is `"\n"` or `"\r\n"`; breaks are not part of any
/// line, and a break at the very end does not open an empty final line.
pub open spec fn text_lines(s: Seq<char>) -> Seq<Seq<char>>
    decreases s.len(),
{
    if s.len() == 0 {
        Seq::empty()
    } else if s[0] == '\n' {
        seq![Seq::<char>::empty()] + text_lines(s.skip(1))
    } else if s.len() >= 2 && s[0] == '\r' && s[1] == '\n' {
        seq![Seq::<char>::empty()] + text_lines(s.skip(2))
    } else {
        let rest = text_lines(s.skip(1));
        if rest.len() == 0 {
            seq![seq![s[0]]]
        } else {
            seq![seq![s[0]] + rest[0]] + rest.skip(1)
        }
    }
}

/// The content of the line closed by a `'\n'` at position `j`: the
/// characters before the break, with a `'\r'` that immediately precedes
/// the `'\n'` stripped.
pub open spec fn line_before(s: Seq<char>, j: int) -> Seq<char> {
    if j > 0 && s[j - 1] == '\r' {
        s.subrange(0, j - 1)
    } else {
        s.subrange(0, j)
    }
}

/// Splitting off the first line: when the first `'\n'` of `s` stands at
/// position `j`, the lines of `s` are the line closed by that break
/// followed by the lines of what comes after it.
proof fn lemma_lines_step(s: Seq<char>, j: int)
    requires
        0 <= j < s.len(),
        s[j] == '\n',
        forall|k: int| 0 <= k < j ==> s[k] != '\n',
    ensures
        text_lines(s) == seq![line_before(s, j)] + text_lines(s.skip(j + 1)),
    decreases j,
{
    if j == 0 {
        assert(line_before(s, 0) =~= Seq::<char>::empty());
        assert(text_lines(s) =~~= seq![line_before(s, 0)] + text_lines(s.skip(1)));
    } else if j == 1 && s[0] == '\r' {
        assert(line_before(s, 1) =~= Seq::<char>::empty());
        assert(text_lines(s) =~~= seq![line_before(s, 1)] + text_lines(s.skip(2)));
    } else {
        let t = s.skip(1);
        assert(t[j - 1] == '\n');
        assert(forall|k: int| 0 <= k < j - 1 ==> t[k] != '\n');
        lemma_lines_step(t, j - 1);
        assert(t.skip(j) =~= s.skip(j + 1));
        let rest = text_lines(t);
        assert(rest == seq![line_before(t, j - 1)] + text_lines(s.skip(j + 1)));
        assert(rest.len() > 0);
        assert(rest[0] == line_before(t, j - 1));
        assert(seq![s[0]] + line_before(t, j - 1) =~= line_before(s, j));
        assert(rest.skip(1) =~~= text_lines(s.skip(j + 1)));
        assert(text_lines(s) =~~= seq![line_before(s, j)] + text_lines(s.skip(j + 1)));
    }
}

/// A non-empty text without any `'\n'` is one single line, taken whole.
proof fn lemma_lines_whole(s: Seq<char>)
    requires
        s.len() > 0,
        forall|k: int| 0 <= k < s.len() ==> s[k] != '\n',
    ensures
        text_lines(s) == seq![s],
    decreases s.len(),
{
    if s.len() == 1 {
        let t = s.skip(1);
        assert(t.len() == 0);
        assert(text_lines(t) == Seq::<Seq<char>>::empty());
        assert(text_lines(s) =~~= seq![s]);
    } else {
        lemma_lines_whole(s.skip(1));
        assert(text_lines(s) =~~= seq![s]);
    }
}

/// Splits `contents` into its lines, as slices borrowed from `contents`,
/// in their original order.
pub fn split_lines<'a>(contents: &'a str) -> (lines: Vec<&'a str>)
    ensures
        lines.deep_view() == text_lines(contents@),
{
    let ghost s = contents@;
    let n = contents.unicode_len();
    let mut lines: Vec<&'a str> = Vec::new();
    let mut start: usize = 0;
    let mut i: usize = 0;
    assert(s.skip(0) =~= s);
    assert(lines.deep_view() + text_lines(s.skip(0)) =~~= text_lines(s));
    while i < n
        invariant
            n == s.len(),
            s == contents@,
            0 <= start <= i <= n,
            forall|k: int| start <= k < i ==> s[k] != '\n',
            lines.deep_view() + text_lines(s.skip(start as int)) =~~= text_lines(s),
        decreases n - i,
    {
        if contents.get_char(i) == '\n' {
            let end = if i > start && contents.get_char(i - 1) == '\r' {
                i - 1
            } else {
                i
            };
            let line = contents.substring_char(start, end);
            let ghost sofar = lines.deep_view();
            proof {
                lemma_lines_step(s.skip(start as int), i - start);
                assert(s.skip(start as int).skip(i - start + 1) =~= s.skip(i + 1));
                assert(line_before(s.skip(start as int), i - start) =~= line@);
                assert(sofar.push(line@) + text_lines(s.skip(i + 1)) =~~= text_lines(s));
            }
            lines.push(line);
            assert(lines.deep_view() =~~= sofar.push(line@));
            start = i + 1;
        }
        i += 1;
    }
    if start < n {
        let line = contents.substring_char(start, n);
        let ghost sofar = lines.deep_view();
        proof {
            lemma_lines_whole(s.skip(start as int));
            assert(line@ =~= s.skip(start as int));
            assert(sofar.push(line@) =~~= text_lines(s));
        }
        lines.push(line);
        assert(lines.deep_view() =~~= sofar.push(line@));
    } else {
        assert(s.skip(start as int).len() == 0);
        assert(lines.deep_view() =~~= text_lines(s));
    }
    lines
}

} // verus!
