use crate::text::{chars_of, joined, range_starts_with, trim_bounds, trimmed};
use vstd::prelude::*;

verus! {

/// The line that opens the section of privately registered suffixes. A line
/// that begins with it, once trimmed, ends the list.
pub const PRIVATE_SECTION_MARK: &'static str = "// ===BEGIN PRIVATE DOMAINS";

/// What a comment line begins with.
pub const COMMENT_MARK: &'static str = "//";

/// The index of the first line feed of `s`, or its length where it has none.
pub open spec fn first_newline(s: Seq<char>) -> int
    decreases s.len(),
{
    if s.len() == 0 || s[0] == '\n' {
        0
    } else {
        1 + first_newline(s.drop_first())
    }
}

/// The lines of `s`: the runs between line feeds. A line feed at the very end
/// opens no further line.
pub open spec fn lines_of(s: Seq<char>) -> Seq<Seq<char>>
    decreases s.len(),
{
    if s.len() == 0 {
        Seq::<Seq<char>>::empty()
    } else {
        let k = first_newline(s);
        if 0 <= k < s.len() {
            seq![s.subrange(0, k)] + lines_of(s.subrange(k + 1, s.len() as int))
        } else {
            seq![s]
        }
    }
}

/// Whether a trimmed line closes the list.
pub open spec fn closes_list(line: Seq<char>) -> bool {
    PRIVATE_SECTION_MARK@.is_prefix_of(line)
}

/// Whether a trimmed line names a suffix: it is neither blank nor a comment.
pub open spec fn names_suffix(line: Seq<char>) -> bool {
    line.len() > 0 && !COMMENT_MARK@.is_prefix_of(line)
}

/// The suffixes that `lines` name, each trimmed, up to the line that closes
/// the list.
pub open spec fn suffixes_of(lines: Seq<Seq<char>>) -> Seq<Seq<char>>
    decreases lines.len(),
{
    if lines.len() == 0 {
        Seq::<Seq<char>>::empty()
    } else {
        let line = trimmed(lines[0]);
        if closes_list(line) {
            Seq::<Seq<char>>::empty()
        } else if names_suffix(line) {
            seq![line] + suffixes_of(lines.drop_first())
        } else {
            suffixes_of(lines.drop_first())
        }
    }
}

/// The corpus of a public-suffix list: its suffixes, joined by spaces.
pub open spec fn suffix_corpus(text: Seq<char>) -> Seq<char> {
    joined(suffixes_of(lines_of(text)), ' ')
}

/// `first_newline` stays within the string, and no line feed stands before it.
pub proof fn lemma_first_newline(s: Seq<char>)
    ensures
        0 <= first_newline(s) <= s.len(),
        first_newline(s) < s.len() ==> s[first_newline(s)] == '\n',
        forall|i: int| 0 <= i < first_newline(s) ==> s[i] != '\n',
    decreases s.len(),
{
    if s.len() > 0 && s[0] != '\n' {
        let rest = s.drop_first();
        lemma_first_newline(rest);
        assert forall|i: int| 0 <= i < first_newline(s) implies s[i] != '\n' by {
            if i > 0 {
                assert(s[i] == rest[i - 1]);
            }
        }
    }
}

/// The first line feed is where a scan from the left finds it.
pub proof fn lemma_first_newline_at(s: Seq<char>, k: int)
    requires
        0 <= k <= s.len(),
        forall|i: int| 0 <= i < k ==> s[i] != '\n',
        k < s.len() ==> s[k] == '\n',
    ensures
        first_newline(s) == k,
{
    lemma_first_newline(s);
}

/// The end of the line of `v` that starts at `from`.
fn line_end(v: &Vec<char>, from: usize) -> (end: usize)
    requires
        from <= v.len(),
    ensures
        from <= end <= v.len(),
        end - from == first_newline(v@.subrange(from as int, v@.len() as int)),
{
    let mut end: usize = from;
    while end < v.len() && v[end] != '\n'
        invariant
            from <= end <= v.len(),
            forall|i: int| from <= i < end ==> v@[i] != '\n',
        decreases v.len() - end,
    {
        end += 1;
    }
    proof {
        lemma_first_newline_at(v@.subrange(from as int, v@.len() as int), end - from);
    }
    end
}

/// Whether `line`, once trimmed, closes the list: nothing behind it belongs
/// to the list, and a reader may stop there.
pub fn ends_list(line: &str) -> (ends: bool)
    ensures
        ends == closes_list(trimmed(line@)),
{
    let v = chars_of(line);
    proof {
        assert(v@.subrange(0, v@.len() as int) =~= v@);
    }
    let (a, b) = trim_bounds(&v, 0, v.len());
    range_starts_with(&v, a, b, PRIVATE_SECTION_MARK)
}

/// Reads a public-suffix list and returns its suffixes, joined by spaces:
/// blank lines and comments are left out, and the list ends at the line
/// that opens the private section.
pub fn parse_tld(text: &str) -> (corpus: String)
    ensures
        corpus@ == suffix_corpus(text@),
{
    let v = chars_of(text);
    let n = v.len();
    let mut corpus = String::new();
    let ghost mut taken: Seq<Seq<char>> = Seq::empty();
    let mut start: usize = 0;
    let mut any = false;
    proof {
        assert(v@.subrange(0, n as int) =~= v@);
        assert(taken + suffixes_of(lines_of(v@)) =~= suffixes_of(lines_of(v@)));
    }
    while start < n
        invariant
            start <= n == v.len(),
            v@ == text@,
            corpus@ == joined(taken, ' '),
            any == (taken.len() > 0),
            taken + suffixes_of(lines_of(v@.subrange(start as int, n as int))) == suffixes_of(
                lines_of(text@),
            ),
        decreases n - start,
    {
        let ghost rest = v@.subrange(start as int, n as int);
        let end = line_end(&v, start);
        let (a, b) = trim_bounds(&v, start, end);
        let ghost line = v@.subrange(a as int, b as int);
        let next = if end < n {
            end + 1
        } else {
            n
        };
        proof {
            assert(rest.subrange(0, end - start) =~= v@.subrange(start as int, end as int));
            if end < n {
                assert(rest.subrange(end - start + 1, rest.len() as int) =~= v@.subrange(
                    next as int,
                    n as int,
                ));
            } else {
                assert(rest =~= v@.subrange(start as int, end as int));
                assert(v@.subrange(next as int, n as int) =~= Seq::<char>::empty());
            }
            let lines = lines_of(rest);
            assert(lines[0] == v@.subrange(start as int, end as int));
            assert(lines.drop_first() =~= lines_of(v@.subrange(next as int, n as int)));
        }
        if range_starts_with(&v, a, b, PRIVATE_SECTION_MARK) {
            proof {
                assert(taken + Seq::<Seq<char>>::empty() =~= taken);
            }
            return corpus;
        }
        if a < b && !range_starts_with(&v, a, b, COMMENT_MARK) {
            if any {
                corpus.push(' ');
            }
            any = true;
            let mut i: usize = a;
            let ghost before = corpus@;
            while i < b
                invariant
                    a <= i <= b <= v.len(),
                    corpus@ == before + v@.subrange(a as int, i as int),
                    any,
                decreases b - i,
            {
                corpus.push(v[i]);
                proof {
                    assert(v@.subrange(a as int, i as int).push(v@[i as int]) =~= v@.subrange(
                        a as int,
                        i + 1,
                    ));
                }
                i += 1;
            }
            proof {
                let grown = taken.push(line);
                assert(grown.drop_last() =~= taken);
                assert(grown + suffixes_of(lines_of(v@.subrange(next as int, n as int))) =~= taken
                    + suffixes_of(lines_of(rest)));
                taken = grown;
            }
        }
        start = next;
    }
    proof {
        assert(taken + Seq::<Seq<char>>::empty() =~= taken);
    }
    corpus
}

} // verus!
