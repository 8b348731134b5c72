use crate::suffix_list::{parse_tld, suffix_corpus};
use crate::text::chars_of;
use suffix::SuffixTable;
use vstd::prelude::*;
use vstd::string::{StringExecFns, StringSliceAdditionalSpecFns};
use vstd::utf8::encode_utf8;

verus! {

/// The suffix table of the `suffix` crate, opaque to the verifier.
#[verifier::external_type_specification]
#[verifier::external_body]
pub struct ExSuffixTable<'s, 't>(SuffixTable<'s, 't>);

/// The text that a suffix table holds.
pub uninterp spec fn table_text(st: &SuffixTable) -> Seq<char>;

/// Whether a suffix table lists the suffixes of its text in their order, as
/// `SuffixTable::new` builds it. Lookups are binary searches and rely on it;
/// `SuffixTable::from_parts` takes any list of the right length.
pub uninterp spec fn table_sorted(st: &SuffixTable) -> bool;

/// Whether `query` is non-empty and stands somewhere in `text` as a
/// contiguous run of characters.
pub open spec fn occurs_in(text: Seq<char>, query: Seq<char>) -> bool {
    query.len() > 0 && exists|i: int|
        0 <= i && i + query.len() <= text.len() && #[trigger] text.subrange(
            i,
            i + query.len(),
        ) == query
}

/// `SuffixTable::positions` lists where `query` starts in the table's text,
/// and lists nothing for an empty query. Only whether the list is empty is
/// stated. The crate compares bytes; both strings are valid UTF-8, so the
/// query stands among the bytes exactly when it stands among the characters.
/// On a table that is not sorted the search may miss or panic, so such a
/// table is left out.
#[verifier::external_body]
pub(crate) fn positions<'a>(st: &'a SuffixTable, query: &str) -> (found: &'a [u32])
    requires
        table_sorted(st),
    ensures
        found@.len() > 0 <==> occurs_in(table_text(st), query@),
{
    st.positions(query)
}

/// `SuffixTable::new` builds the sorted table over the text it is given, and
/// panics on a text of more than `u32::MAX` bytes.
#[verifier::external_body]
pub(crate) fn new_table(text: String) -> (st: SuffixTable<'static, 'static>)
    requires
        encode_utf8(text@).len() <= u32::MAX,
    ensures
        table_text(&st) == text@,
        table_sorted(&st),
{
    SuffixTable::new(text)
}

/// `s` with a space before it and a space after it.
pub open spec fn padded(s: Seq<char>) -> Seq<char> {
    seq![' '] + s + seq![' ']
}

/// Whether `candidate` stands in `corpus` at `i` as a whole entry: a space or
/// the start of the corpus comes before it, and a space or the end after it.
pub open spec fn stands_at(corpus: Seq<char>, candidate: Seq<char>, i: int) -> bool {
    &&& 0 <= i
    &&& i + candidate.len() <= corpus.len()
    &&& corpus.subrange(i, i + candidate.len()) == candidate
    &&& (i == 0 || corpus[i - 1] == ' ')
    &&& (i + candidate.len() == corpus.len() || corpus[i + candidate.len()] == ' ')
}

/// Whether `candidate` is one of the suffixes of `corpus`, which holds its
/// suffixes with spaces between them: the candidate is not empty, holds no
/// space, and stands in the corpus as a whole entry.
pub open spec fn is_suffix_in(corpus: Seq<char>, candidate: Seq<char>) -> bool {
    &&& candidate.len() > 0
    &&& !candidate.contains(' ')
    &&& exists|i: int| #[trigger] stands_at(corpus, candidate, i)
}

/// A candidate stands in a corpus as a whole entry exactly where, with a
/// space put on either side of both, it occurs in the corpus at all.
pub proof fn lemma_whole_entry(corpus: Seq<char>, candidate: Seq<char>)
    ensures
        occurs_in(padded(corpus), padded(candidate)) <==> exists|i: int| #[trigger]
            stands_at(corpus, candidate, i),
{
    let text = padded(corpus);
    let query = padded(candidate);
    let n = corpus.len() as int;
    let m = candidate.len() as int;
    if occurs_in(text, query) {
        let j = choose|j: int|
            0 <= j && j + query.len() <= text.len() && #[trigger] text.subrange(
                j,
                j + query.len(),
            ) == query;
        let hit = text.subrange(j, j + query.len());
        assert forall|t: int| 0 <= t < m implies corpus[j + t] == candidate[t] by {
            assert(hit[t + 1] == query[t + 1]);
        }
        assert(corpus.subrange(j, j + m) =~= candidate);
        assert(hit[0] == query[0]);
        assert(hit[m + 1] == query[m + 1]);
        assert(stands_at(corpus, candidate, j));
    }
    if exists|i: int| #[trigger] stands_at(corpus, candidate, i) {
        let i = choose|i: int| #[trigger] stands_at(corpus, candidate, i);
        let hit = text.subrange(i, i + query.len());
        assert forall|t: int| 0 <= t < query.len() implies hit[t] == query[t] by {
            if 0 < t <= m {
                assert(corpus.subrange(i, i + m)[t - 1] == candidate[t - 1]);
            }
        }
        assert(hit =~= query);
    }
}

/// The suffixes of a public-suffix list, held for lookup.
pub struct SuffixIndex {
    table: SuffixTable<'static, 'static>,
}

impl SuffixIndex {
    #[verifier::type_invariant]
    spec fn built_over_padded_corpus(&self) -> bool {
        &&& table_sorted(&self.table)
        &&& table_text(&self.table).len() >= 2
        &&& table_text(&self.table) == padded(self.corpus())
    }

    /// The corpus that the index was built over: its suffixes, with spaces
    /// between them.
    pub closed spec fn corpus(&self) -> Seq<char> {
        table_text(&self.table).subrange(1, table_text(&self.table).len() - 1)
    }

    /// The index over `corpus`, or `None` where the corpus, with a space on
    /// either side, has more bytes than a table can index.
    pub fn new(corpus: &str) -> (made: Option<SuffixIndex>)
        ensures
            match made {
                Some(index) => index.corpus() == corpus@ && encode_utf8(padded(corpus@)).len()
                    <= u32::MAX,
                None => encode_utf8(padded(corpus@)).len() > u32::MAX,
            },
    {
        let mut text = String::from_str(" ");
        text.append(corpus);
        text.append(" ");
        proof {
            reveal_strlit(" ");
            assert(text@ =~= padded(corpus@));
            assert(padded(corpus@).subrange(1, padded(corpus@).len() - 1) =~= corpus@);
        }
        if text.as_str().as_bytes().len() > 0xffff_ffff {
            None
        } else {
            Some(SuffixIndex { table: new_table(text) })
        }
    }
}

/// Whether `candidate` is one of the suffixes that `index` holds.
pub fn is_known_suffix(index: &SuffixIndex, candidate: &str) -> (known: bool)
    ensures
        known == is_suffix_in(index.corpus(), candidate@),
{
    let v = chars_of(candidate);
    let mut i: usize = 0;
    while i < v.len()
        invariant
            i <= v.len(),
            v@ == candidate@,
            forall|j: int| 0 <= j < i ==> v@[j] != ' ',
        decreases v.len() - i,
    {
        if v[i] == ' ' {
            return false;
        }
        i += 1;
    }
    if v.len() == 0 {
        return false;
    }
    let mut query = String::from_str(" ");
    query.append(candidate);
    query.append(" ");
    proof {
        use_type_invariant(index);
        reveal_strlit(" ");
        assert(query@ =~= padded(candidate@));
        lemma_whole_entry(index.corpus(), candidate@);
    }
    positions(&index.table, query.as_str()).len() > 0
}

/// The index of a public-suffix list: the index over the list's corpus, or
/// `None` where that has more bytes than a table can index.
pub fn suffix_table(list: &str) -> (made: Option<SuffixIndex>)
    ensures
        match made {
            Some(index) => index.corpus() == suffix_corpus(list@) && encode_utf8(
                padded(suffix_corpus(list@)),
            ).len() <= u32::MAX,
            None => encode_utf8(padded(suffix_corpus(list@))).len() > u32::MAX,
        },
{
    let corpus = parse_tld(list);
    SuffixIndex::new(corpus.as_str())
}

} // verus!
