use crate::leak::{
    count, cut_from, is_run_of, pool, pool_of_parts, share, split, CredentialData, LeakData,
};
use vstd::multiset::Multiset;
use vstd::prelude::*;

verus! {

/// The most bytes that one written document may have.
pub const MAX_JSON_SIZE: usize = 16777216;

/// Into how many documents what serializes to `size` bytes is written: one
/// where it fits, else as many as `size` holds the limit, rounded up.
pub open spec fn documents_for(size: nat) -> nat {
    if size <= MAX_JSON_SIZE {
        1
    } else {
        ((size + MAX_JSON_SIZE - 1) / (MAX_JSON_SIZE as int)) as nat
    }
}

/// Into how many documents what serializes to `size` bytes is written.
pub fn documents_needed(size: usize) -> (n: usize)
    ensures
        n == documents_for(size as nat),
        n >= 1,
        size > MAX_JSON_SIZE ==> n >= 2,
{
    if size <= MAX_JSON_SIZE {
        1
    } else {
        let q = size / MAX_JSON_SIZE;
        let r = size % MAX_JSON_SIZE;
        proof {
            let m = MAX_JSON_SIZE as int;
            let s = size as int;
            assert(s == q * m + r && 0 <= r < m) by (nonlinear_arith)
                requires
                    q == s / m,
                    r == s % m,
                    m > 0,
            ;
            if r == 0 {
                assert((q * m + (m - 1)) / m == q) by (nonlinear_arith)
                    requires
                        m > 0,
                ;
            } else {
                assert((q * m + r + m - 1) / m == q + 1) by (nonlinear_arith)
                    requires
                        m > 0,
                        0 < r < m,
                ;
            }
            assert(q >= 1) by (nonlinear_arith)
                requires
                    q == s / m,
                    s > m,
                    m > 0,
            ;
        }
        if r == 0 {
            q
        } else {
            q + 1
        }
    }
}

/// The documents that the leak of one domain is written as, given the
/// `size` in bytes of its serialized form: the leak itself where that fits,
/// else its split into as many parts as are needed.
pub fn portions(leak: LeakData, size: usize) -> (parts: Vec<LeakData>)
    requires
        count(leak.credentials@) <= usize::MAX,
    ensures
        parts@.len() == documents_for(size as nat),
        size <= MAX_JSON_SIZE ==> parts@[0] == leak,
        size > MAX_JSON_SIZE ==> forall|i: int|
            0 <= i < parts@.len() ==> (#[trigger] parts@[i]).domain@ == leak.domain@ && count(
                parts@[i].credentials@,
            ) == share(count(leak.credentials@), parts@.len(), i as nat),
        forall|i: int|
            0 <= i < parts@.len() ==> cut_from((#[trigger] parts@[i]).credentials@, leak.credentials@),
        pool_of_parts(parts@) == pool(leak.credentials@),
{
    if size <= MAX_JSON_SIZE {
        let mut parts: Vec<LeakData> = Vec::new();
        parts.push(leak);
        proof {
            assert(parts@.drop_last() =~= Seq::<LeakData>::empty());
            assert(parts@.last() == leak);
            assert forall|j: int| 0 <= j < leak.credentials@.len() implies is_run_of(
                #[trigger] leak.credentials@[j],
                leak.credentials@,
            ) by {
                let g = leak.credentials@[j];
                assert(g.data@ =~= leak.credentials@[j].data@.subrange(0, g.data@.len() as int));
            }
            assert(pool_of_parts(parts@.drop_last()) =~= Multiset::empty());
            assert(pool_of_parts(parts@) =~= pool(leak.credentials@));
        }
        parts
    } else {
        split(leak, documents_needed(size))
    }
}

/// The credentials found under one subdomain, by characters.
pub struct Group {
    pub subdomain: Seq<char>,
    pub pairs: Seq<(Seq<char>, Seq<char>)>,
}

impl View for CredentialData {
    type V = Group;

    open spec fn view(&self) -> Group {
        Group {
            subdomain: self.subdomain@,
            pairs: self.data@.map_values(|p: (String, String)| (p.0@, p.1@)),
        }
    }
}

/// Groups by what they hold.
pub open spec fn groups(v: Seq<CredentialData>) -> Seq<Group> {
    v.map_values(|g: CredentialData| g@)
}

/// The index of the first group of `subdomain`, or the number of groups
/// where there is none.
pub open spec fn position_of(groups: Seq<Group>, subdomain: Seq<char>) -> int
    decreases groups.len(),
{
    if groups.len() == 0 || groups[0].subdomain == subdomain {
        0
    } else {
        1 + position_of(groups.drop_first(), subdomain)
    }
}

/// The groups with one more pair under `subdomain`: at the end of the group
/// of that subdomain, or in a new group behind the others.
pub open spec fn with_pair(
    groups: Seq<Group>,
    subdomain: Seq<char>,
    pair: (Seq<char>, Seq<char>),
) -> Seq<Group> {
    let i = position_of(groups, subdomain);
    if 0 <= i < groups.len() {
        groups.update(i, Group { subdomain, pairs: groups[i].pairs.push(pair) })
    } else {
        groups.push(Group { subdomain, pairs: seq![pair] })
    }
}

/// Whether no two groups are of the same subdomain.
pub open spec fn distinct_subdomains(groups: Seq<Group>) -> bool {
    forall|i: int, j: int|
        0 <= i < j < groups.len() ==> (#[trigger] groups[i]).subdomain != (
        #[trigger] groups[j]).subdomain
}

/// The first group of a subdomain is where a scan from the left finds it.
pub proof fn lemma_position_of(groups: Seq<Group>, subdomain: Seq<char>, i: int)
    requires
        0 <= i <= groups.len(),
        forall|j: int| 0 <= j < i ==> (#[trigger] groups[j]).subdomain != subdomain,
        i < groups.len() ==> groups[i].subdomain == subdomain,
    ensures
        position_of(groups, subdomain) == i,
    decreases groups.len(),
{
    if i > 0 {
        let rest = groups.drop_first();
        assert(groups[0].subdomain != subdomain);
        assert forall|j: int| 0 <= j < i - 1 implies (#[trigger] rest[j]).subdomain
            != subdomain by {
            assert(rest[j] == groups[j + 1]);
        }
        lemma_position_of(rest, subdomain, i - 1);
    }
}

/// Where `position_of` finds a group, it is of the subdomain asked for, and
/// no group before it is.
pub proof fn lemma_position_found(groups: Seq<Group>, subdomain: Seq<char>)
    ensures
        0 <= position_of(groups, subdomain) <= groups.len(),
        position_of(groups, subdomain) < groups.len() ==> groups[position_of(
            groups,
            subdomain,
        )].subdomain == subdomain,
        forall|j: int|
            0 <= j < position_of(groups, subdomain) ==> (#[trigger] groups[j]).subdomain
                != subdomain,
    decreases groups.len(),
{
    if groups.len() > 0 && groups[0].subdomain != subdomain {
        let rest = groups.drop_first();
        lemma_position_found(rest, subdomain);
        assert forall|j: int| 0 <= j < position_of(groups, subdomain) implies (
        #[trigger] groups[j]).subdomain != subdomain by {
            if j > 0 {
                assert(groups[j] == rest[j - 1]);
            }
        }
    }
}

/// Adding a pair keeps the subdomains of the groups apart.
pub proof fn lemma_with_pair_keeps_distinct(
    groups: Seq<Group>,
    subdomain: Seq<char>,
    pair: (Seq<char>, Seq<char>),
)
    requires
        distinct_subdomains(groups),
    ensures
        distinct_subdomains(with_pair(groups, subdomain, pair)),
{
    lemma_position_found(groups, subdomain);
    let i = position_of(groups, subdomain);
    let after = with_pair(groups, subdomain, pair);
    assert forall|a: int, b: int| 0 <= a < b < after.len() implies (#[trigger] after[a]).subdomain
        != (#[trigger] after[b]).subdomain by {
        if i < groups.len() {
            assert(after[a].subdomain == groups[a].subdomain);
            assert(after[b].subdomain == groups[b].subdomain);
        } else {
            assert(after[a] == groups[a]);
            if b < groups.len() {
                assert(after[b] == groups[b]);
            }
        }
    }
}

/// Gathers rows that arrive sorted by domain into one `LeakData` per run of
/// rows of the same domain, the credentials grouped by subdomain.
pub struct Grouper {
    domain: String,
    gathered: Vec<CredentialData>,
}

impl Grouper {
    /// The domain of the rows that are being gathered.
    pub closed spec fn domain(&self) -> Seq<char> {
        self.domain@
    }

    /// The groups gathered so far, in the order in which their subdomains
    /// first came.
    pub closed spec fn gathered(&self) -> Seq<Group> {
        groups(self.gathered@)
    }

    /// Whether the groups gathered are of different subdomains.
    pub open spec fn wf(&self) -> bool {
        distinct_subdomains(self.gathered())
    }

    /// A grouper that has gathered nothing, under the empty domain.
    pub fn new() -> (grouper: Grouper)
        ensures
            grouper.wf(),
            grouper.domain() == Seq::<char>::empty(),
            grouper.gathered() == Seq::<Group>::empty(),
    {
        let grouper = Grouper { domain: String::new(), gathered: Vec::new() };
        proof {
            assert(grouper.gathered() =~= Seq::<Group>::empty());
        }
        grouper
    }

    /// Takes what was gathered, if anything, as the leak of the domain so far,
    /// and starts over under `domain`.
    fn take(&mut self, domain: String) -> (flushed: Option<LeakData>)
        requires
            old(self).wf(),
        ensures
            final(self).wf(),
            final(self).domain() == domain@,
            final(self).gathered() == Seq::<Group>::empty(),
            old(self).gathered().len() == 0 <==> flushed is None,
            flushed matches Some(leak) ==> leak.domain@ == old(self).domain() && groups(
                leak.credentials@,
            ) == old(self).gathered(),
    {
        let mut gathered: Vec<CredentialData> = Vec::new();
        std::mem::swap(&mut gathered, &mut self.gathered);
        let mut domain = domain;
        std::mem::swap(&mut domain, &mut self.domain);
        proof {
            assert(self.gathered() =~= Seq::<Group>::empty());
        }
        if gathered.len() == 0 {
            None
        } else {
            Some(LeakData { domain, credentials: gathered })
        }
    }

    /// Takes one row. A row of the domain that is being gathered joins the
    /// group of its subdomain. A row of another domain closes what was
    /// gathered, which is handed out unless it is empty, and opens the next.
    pub fn push(&mut self, domain: String, subdomain: String, username: String, password: String) -> (flushed:
        Option<LeakData>)
        requires
            old(self).wf(),
        ensures
            final(self).wf(),
            final(self).domain() == domain@,
            domain@ == old(self).domain() ==> flushed is None && final(self).gathered() == with_pair(
                old(self).gathered(),
                subdomain@,
                (username@, password@),
            ),
            domain@ != old(self).domain() ==> final(self).gathered() == with_pair(
                Seq::<Group>::empty(),
                subdomain@,
                (username@, password@),
            ) && (old(self).gathered().len() == 0 <==> flushed is None),
            flushed matches Some(leak) ==> leak.domain@ == old(self).domain() && groups(
                leak.credentials@,
            ) == old(self).gathered() && distinct_subdomains(groups(leak.credentials@)),
    {
        let flushed = if self.domain == domain {
            None
        } else {
            self.take(domain)
        };
        let ghost before = self.gathered();
        let ghost pair = (username@, password@);
        proof {
            lemma_with_pair_keeps_distinct(before, subdomain@, pair);
        }
        let mut i: usize = 0;
        while i < self.gathered.len()
            invariant
                i <= self.gathered@.len(),
                self.gathered() == before,
                self.domain@ == domain@,
                pair == (username@, password@),
                distinct_subdomains(with_pair(before, subdomain@, pair)),
                domain@ == old(self).domain() ==> flushed is None && before == old(
                    self,
                ).gathered(),
                domain@ != old(self).domain() ==> before == Seq::<Group>::empty() && (old(
                    self,
                ).gathered().len() == 0 <==> flushed is None),
                flushed matches Some(leak) ==> leak.domain@ == old(self).domain() && groups(
                    leak.credentials@,
                ) == old(self).gathered() && distinct_subdomains(groups(leak.credentials@)),
                forall|j: int| 0 <= j < i ==> (#[trigger] before[j]).subdomain != subdomain@,
            decreases self.gathered@.len() - i,
        {
            if self.gathered[i].subdomain == subdomain {
                proof {
                    assert(before[i as int].subdomain == self.gathered@[i as int]@.subdomain);
                    lemma_position_of(before, subdomain@, i as int);
                }
                let ghost held = self.gathered@;
                let ghost entry = (username, password);
                self.gathered[i].data.push((username, password));
                proof {
                    let now = self.gathered@;
                    assert(now[i as int].data@ == held[i as int].data@.push(entry));
                    assert(now[i as int]@.pairs =~= held[i as int]@.pairs.push(pair));
                    assert(self.gathered() =~= with_pair(before, subdomain@, pair));
                }
                return flushed;
            }
            proof {
                assert(before[i as int].subdomain == self.gathered@[i as int]@.subdomain);
            }
            i += 1;
        }
        proof {
            lemma_position_of(before, subdomain@, before.len() as int);
        }
        let mut data: Vec<(String, String)> = Vec::new();
        data.push((username, password));
        let group = CredentialData { subdomain, data };
        proof {
            assert(group@.pairs =~= seq![pair]);
        }
        self.gathered.push(group);
        proof {
            assert(self.gathered() =~= with_pair(before, subdomain@, pair));
        }
        flushed
    }

    /// Closes what was gathered and hands it out, unless it is empty.
    pub fn finish(self) -> (flushed: Option<LeakData>)
        requires
            self.wf(),
        ensures
            self.gathered().len() == 0 <==> flushed is None,
            flushed matches Some(leak) ==> leak.domain@ == self.domain() && groups(
                leak.credentials@,
            ) == self.gathered() && distinct_subdomains(groups(leak.credentials@)),
    {
        let mut grouper = self;
        grouper.take(String::new())
    }
}

} // verus!
