use crate::suffix_index::{is_known_suffix, is_suffix_in, SuffixIndex};
use crate::text::chars_of;
use vstd::prelude::*;
use vstd::string::StrSliceExecFns;

verus! {

/// The index of the last `'.'` of `s` that stands before `end`, or `-1`
/// where there is none.
pub open spec fn last_dot_before(s: Seq<char>, end: int) -> int
    decreases end,
{
    if end <= 0 {
        -1
    } else if s[end - 1] == '.' {
        end - 1
    } else {
        last_dot_before(s, end - 1)
    }
}

/// A domain split into its subdomain and its registrable domain.
///
/// The candidate suffix is what follows the second dot from the right. Where
/// it is one of the suffixes of `corpus`, the registrable domain keeps one
/// more label to the left of it; otherwise it is the last two labels. A domain with fewer than
/// two dots is its own registrable domain.
pub open spec fn split_domain(d: Seq<char>, corpus: Seq<char>) -> (Seq<char>, Seq<char>) {
    let first = last_dot_before(d, d.len() as int);
    let second = last_dot_before(d, first);
    let third = last_dot_before(d, second);
    if second < 0 {
        (Seq::<char>::empty(), d)
    } else if is_suffix_in(corpus, d.subrange(second + 1, d.len() as int)) {
        if third < 0 {
            (Seq::<char>::empty(), d)
        } else {
            (d.subrange(0, third), d.subrange(third + 1, d.len() as int))
        }
    } else {
        (d.subrange(0, second), d.subrange(second + 1, d.len() as int))
    }
}

/// What `last_dot_before` finds is a dot before `end`, and no dot stands
/// between it and `end`.
pub proof fn lemma_last_dot_bounds(s: Seq<char>, end: int)
    requires
        end <= s.len(),
    ensures
        -1 <= last_dot_before(s, end),
        0 <= end ==> last_dot_before(s, end) < end,
        0 <= last_dot_before(s, end) ==> s[last_dot_before(s, end)] == '.',
        forall|i: int| last_dot_before(s, end) < i < end && 0 <= i ==> s[i] != '.',
    decreases end,
{
    if end > 0 && s[end - 1] != '.' {
        lemma_last_dot_bounds(s, end - 1);
    }
}

/// Dropping a prefix that ends before the dot found moves the dot by the
/// length of the prefix; a prefix that swallows every dot leaves none.
pub proof fn lemma_last_dot_of_suffix(s: Seq<char>, from: int, end: int)
    requires
        0 <= from <= end <= s.len(),
    ensures
        last_dot_before(s.subrange(from, s.len() as int), end - from) == if last_dot_before(s, end)
            >= from {
            last_dot_before(s, end) - from
        } else {
            -1
        },
    decreases end,
{
    let t = s.subrange(from, s.len() as int);
    if end - from > 0 {
        assert(t[end - from - 1] == s[end - 1]);
        if s[end - 1] != '.' {
            lemma_last_dot_of_suffix(s, from, end - 1);
        }
    } else {
        lemma_last_dot_bounds(s, end);
    }
}

/// Splitting the registrable domain that a split gave yields that same
/// domain again, with an empty subdomain.
pub proof fn lemma_split_idempotent(d: Seq<char>, corpus: Seq<char>)
    ensures
        split_domain(split_domain(d, corpus).1, corpus) == (
            Seq::<char>::empty(),
            split_domain(d, corpus).1,
        ),
{
    let n = d.len() as int;
    let first = last_dot_before(d, n);
    let second = last_dot_before(d, first);
    let third = last_dot_before(d, second);
    lemma_last_dot_bounds(d, n);
    lemma_last_dot_bounds(d, first);
    lemma_last_dot_bounds(d, second);
    if second >= 0 {
        let tail = d.subrange(second + 1, n);
        let from = if is_suffix_in(corpus, tail) {
            third + 1
        } else {
            second + 1
        };
        let r = d.subrange(from, n);
        lemma_last_dot_of_suffix(d, from, n);
        lemma_last_dot_of_suffix(d, from, first);
        if is_suffix_in(corpus, tail) {
            lemma_last_dot_of_suffix(d, from, second);
            assert(r.subrange(second - from + 1, r.len() as int) =~= tail);
        }
    }
}

/// A domain with at most one dot is its own registrable domain and has no
/// subdomain. Every domain without a dot is such a one.
pub proof fn lemma_split_with_at_most_one_dot(d: Seq<char>, corpus: Seq<char>)
    requires
        forall|i: int, j: int| 0 <= i < j < d.len() ==> !(d[i] == '.' && d[j] == '.'),
    ensures
        split_domain(d, corpus) == (Seq::<char>::empty(), d),
{
    let first = last_dot_before(d, d.len() as int);
    lemma_last_dot_bounds(d, d.len() as int);
    lemma_last_dot_bounds(d, first);
}

/// The registrable domain of a non-empty domain is not empty.
pub proof fn lemma_registrable_nonempty(d: Seq<char>, corpus: Seq<char>)
    requires
        d.len() > 0,
    ensures
        split_domain(d, corpus).1.len() > 0,
{
    let n = d.len() as int;
    let first = last_dot_before(d, n);
    let second = last_dot_before(d, first);
    lemma_last_dot_bounds(d, n);
    lemma_last_dot_bounds(d, first);
    lemma_last_dot_bounds(d, second);
}

/// The index of the last `'.'` of `v` before `end`, or `None`.
fn find_dot_before(v: &Vec<char>, end: usize) -> (found: Option<usize>)
    requires
        end <= v.len(),
    ensures
        match found {
            Some(i) => i as int == last_dot_before(v@, end as int),
            None => last_dot_before(v@, end as int) == -1,
        },
{
    let mut i: usize = end;
    while i > 0
        invariant
            i <= end <= v.len(),
            last_dot_before(v@, end as int) == last_dot_before(v@, i as int),
        decreases i,
    {
        if v[i - 1] == '.' {
            return Some(i - 1);
        }
        i -= 1;
    }
    None
}

/// Splits `domain` into subdomain and registrable domain, as
/// `split_domain` says, against the suffixes that `st` holds.
pub fn parse_domain<'a>(domain: &'a str, st: &SuffixIndex) -> (parts: (&'a str, &'a str))
    ensures
        (parts.0@, parts.1@) == split_domain(domain@, st.corpus()),
{
    let chars = chars_of(domain);
    let n = chars.len();
    proof {
        lemma_last_dot_bounds(chars@, n as int);
    }
    let second = match find_dot_before(&chars, n) {
        Some(first) => {
            proof {
                lemma_last_dot_bounds(chars@, first as int);
            }
            find_dot_before(&chars, first)
        },
        None => None,
    };
    match second {
        None => {
            let whole = domain.substring_char(0, n);
            let nothing = domain.substring_char(0, 0);
            proof {
                assert(whole@ =~= domain@);
                assert(nothing@ =~= Seq::<char>::empty());
            }
            (nothing, whole)
        },
        Some(sd) => {
            proof {
                lemma_last_dot_bounds(chars@, sd as int);
            }
            let candidate = domain.substring_char(sd + 1, n);
            if is_known_suffix(st, candidate) {
                match find_dot_before(&chars, sd) {
                    Some(td) => (domain.substring_char(0, td), domain.substring_char(td + 1, n)),
                    None => {
                        let whole = domain.substring_char(0, n);
                        let nothing = domain.substring_char(0, 0);
                        proof {
                            assert(whole@ =~= domain@);
                            assert(nothing@ =~= Seq::<char>::empty());
                        }
                        (nothing, whole)
                    },
                }
            } else {
                (domain.substring_char(0, sd), candidate)
            }
        },
    }
}

} // verus!
