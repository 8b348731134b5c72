use vstd::multiset::Multiset;
use vstd::prelude::*;

verus! {

/// The credentials found under one subdomain: pairs of username and password.
pub struct CredentialData {
    pub subdomain: String,
    pub data: Vec<(String, String)>,
}

/// All that was found under one registrable domain.
pub struct LeakData {
    pub domain: String,
    pub credentials: Vec<CredentialData>,
}

impl CredentialData {
    /// The credentials as triples of subdomain, username and password.
    pub open spec fn entries(&self) -> Seq<(Seq<char>, Seq<char>, Seq<char>)> {
        self.data@.map_values(|p: (String, String)| (self.subdomain@, p.0@, p.1@))
    }
}

/// How many credentials `groups` hold together.
pub open spec fn count(groups: Seq<CredentialData>) -> nat
    decreases groups.len(),
{
    if groups.len() == 0 {
        0
    } else {
        count(groups.drop_last()) + groups.last().data@.len()
    }
}

/// The credentials of `groups`, as triples, without regard to order.
pub open spec fn pool(groups: Seq<CredentialData>) -> Multiset<(Seq<char>, Seq<char>, Seq<char>)>
    decreases groups.len(),
{
    if groups.len() == 0 {
        Multiset::empty()
    } else {
        pool(groups.drop_last()).add(groups.last().entries().to_multiset())
    }
}

/// The credentials of all `parts`, as triples, without regard to order.
pub open spec fn pool_of_parts(parts: Seq<LeakData>) -> Multiset<
    (Seq<char>, Seq<char>, Seq<char>),
>
    decreases parts.len(),
{
    if parts.len() == 0 {
        Multiset::empty()
    } else {
        pool_of_parts(parts.drop_last()).add(pool(parts.last().credentials@))
    }
}

/// Whether `piece` is a run of neighbouring pairs of one of `groups`, in their
/// order, under that group's subdomain.
pub open spec fn is_run_of(piece: CredentialData, groups: Seq<CredentialData>) -> bool {
    exists|k: int, a: int, b: int|
        0 <= k < groups.len() && 0 <= a <= b <= groups[k].data@.len() && piece.subdomain@
            == groups[k].subdomain@ && piece.data@ == #[trigger] groups[k].data@.subrange(a, b)
}

/// Whether each of `pieces` is a run of one of `groups`.
pub open spec fn cut_from(pieces: Seq<CredentialData>, groups: Seq<CredentialData>) -> bool {
    forall|j: int| 0 <= j < pieces.len() ==> is_run_of(#[trigger] pieces[j], groups)
}

/// How many of `total` credentials part `i` of `n` receives: every part but
/// the last the `n`th of them, rounded down, and the last part the rest.
pub open spec fn share(total: nat, n: nat, i: nat) -> int {
    if i + 1 < n {
        (total / n) as int
    } else {
        total - (n - 1) * (total / n)
    }
}

/// A prefix of groups holds no more credentials than all of them.
pub proof fn lemma_count_prefix(groups: Seq<CredentialData>, i: int)
    requires
        0 <= i <= groups.len(),
    ensures
        count(groups.subrange(0, i)) <= count(groups),
    decreases groups.len() - i,
{
    if i < groups.len() {
        lemma_count_prefix(groups, i + 1);
        assert(groups.subrange(0, i + 1).drop_last() =~= groups.subrange(0, i));
    } else {
        assert(groups.subrange(0, i) =~= groups);
    }
}

/// Counting and pooling with the first group taken apart.
pub proof fn lemma_first_group(groups: Seq<CredentialData>)
    requires
        groups.len() > 0,
    ensures
        count(groups) == groups[0].data@.len() + count(groups.drop_first()),
        pool(groups) == groups[0].entries().to_multiset().add(pool(groups.drop_first())),
    decreases groups.len(),
{
    if groups.len() == 1 {
        assert(groups.drop_last() =~= groups.drop_first());
        assert(pool(groups) =~= groups[0].entries().to_multiset().add(pool(groups.drop_first())));
    } else {
        let shorter = groups.drop_last();
        lemma_first_group(shorter);
        assert(shorter.drop_first() =~= groups.drop_first().drop_last());
        assert(pool(groups) =~= groups[0].entries().to_multiset().add(pool(groups.drop_first())));
    }
}

/// How many credentials `groups` hold together.
pub fn total_entries(groups: &Vec<CredentialData>) -> (total: usize)
    requires
        count(groups@) <= usize::MAX,
    ensures
        total == count(groups@),
{
    let mut total: usize = 0;
    let mut i: usize = 0;
    while i < groups.len()
        invariant
            i <= groups.len(),
            total == count(groups@.subrange(0, i as int)),
            count(groups@) <= usize::MAX,
        decreases groups.len() - i,
    {
        proof {
            lemma_count_prefix(groups@, i + 1);
            assert(groups@.subrange(0, i + 1).drop_last() =~= groups@.subrange(0, i as int));
        }
        total = total + groups[i].data.len();
        i += 1;
    }
    proof {
        assert(groups@.subrange(0, groups@.len() as int) =~= groups@);
    }
    total
}

/// How many credentials `groups` hold together, or `None` where that is more
/// than a `usize` can say.
pub fn checked_total(groups: &Vec<CredentialData>) -> (total: Option<usize>)
    ensures
        match total {
            Some(t) => t == count(groups@),
            None => count(groups@) > usize::MAX,
        },
{
    let mut total: usize = 0;
    let mut i: usize = 0;
    while i < groups.len()
        invariant
            i <= groups.len(),
            total == count(groups@.subrange(0, i as int)),
        decreases groups.len() - i,
    {
        proof {
            lemma_count_prefix(groups@, i + 1);
            assert(groups@.subrange(0, i + 1).drop_last() =~= groups@.subrange(0, i as int));
        }
        total = match total.checked_add(groups[i].data.len()) {
            Some(t) => t,
            None => {
                return None;
            },
        };
        i += 1;
    }
    proof {
        assert(groups@.subrange(0, groups@.len() as int) =~= groups@);
    }
    Some(total)
}

/// The parts of a split while they are filled, one after the other.
struct Filling {
    domain: String,
    n: usize,
    each: usize,
    total: usize,
    /// The parts that are full.
    done: Vec<LeakData>,
    /// The groups of the part that is being filled.
    current: Vec<CredentialData>,
    /// How many more credentials that part takes.
    room: usize,
}

impl Filling {
    /// How many credentials part `i` takes at most.
    spec fn capacity(&self, i: int) -> int {
        if i + 1 < self.n {
            self.each as int
        } else {
            self.total as int
        }
    }

    spec fn wf(&self) -> bool {
        &&& self.n > 0
        &&& self.each == self.total as int / self.n as int
        &&& self.done@.len() < self.n
        &&& self.room <= self.capacity(self.done@.len() as int)
        &&& count(self.current@) == self.capacity(self.done@.len() as int) - self.room
        &&& forall|i: int|
            0 <= i < self.done@.len() ==> count((#[trigger] self.done@[i]).credentials@)
                == self.each && self.done@[i].domain@ == self.domain@
    }

    /// How many credentials the parts hold so far.
    spec fn placed(&self) -> int {
        self.done@.len() * self.each + self.capacity(self.done@.len() as int) - self.room
    }

    /// The credentials that the parts hold so far.
    spec fn pooled(&self) -> Multiset<(Seq<char>, Seq<char>, Seq<char>)> {
        pool_of_parts(self.done@).add(pool(self.current@))
    }

    /// Whether all that the parts hold so far was cut from `given`.
    spec fn cuts(&self, given: Seq<CredentialData>) -> bool {
        &&& cut_from(self.current@, given)
        &&& forall|i: int|
            0 <= i < self.done@.len() ==> cut_from((#[trigger] self.done@[i]).credentials@, given)
    }

    /// Whether `other` fills parts of the same split.
    spec fn same_split(&self, other: &Filling) -> bool {
        &&& self.domain@ == other.domain@
        &&& self.n == other.n
        &&& self.each == other.each
        &&& self.total == other.total
    }

    /// Closes the part that is being filled, which is full, and opens the next.
    fn open_next(&mut self, Ghost(given): Ghost<Seq<CredentialData>>)
        requires
            old(self).wf(),
            old(self).cuts(given),
            old(self).room == 0,
            old(self).done@.len() + 1 < old(self).n,
        ensures
            final(self).wf(),
            final(self).cuts(given),
            final(self).same_split(old(self)),
            final(self).done@.len() == old(self).done@.len() + 1,
            final(self).placed() == old(self).placed(),
            final(self).pooled() == old(self).pooled(),
    {
        let ghost k = self.done@.len() as int;
        let ghost before = *self;
        let mut full: Vec<CredentialData> = Vec::new();
        std::mem::swap(&mut full, &mut self.current);
        let part = LeakData { domain: self.domain.clone(), credentials: full };
        self.done.push(part);
        self.room = if self.done.len() + 1 < self.n {
            self.each
        } else {
            self.total
        };
        proof {
            assert(self.done@.drop_last() =~= before.done@);
            assert(self.pooled() =~= before.pooled());
            assert((k + 1) * self.each == k * self.each + self.each) by (nonlinear_arith);
        }
    }

    /// Puts the credentials of `x` into the parts, from the one that is being
    /// filled on; what a part cannot take goes to the next.
    fn place(&mut self, group: CredentialData, Ghost(given): Ghost<Seq<CredentialData>>)
        requires
            old(self).wf(),
            old(self).cuts(given),
            is_run_of(group, given),
            old(self).placed() + group.data@.len() <= old(self).total,
        ensures
            final(self).wf(),
            final(self).cuts(given),
            final(self).same_split(old(self)),
            final(self).placed() == old(self).placed() + group.data@.len(),
            final(self).pooled() == old(self).pooled().add(group.entries().to_multiset()),
    {
        let mut x = group;
        let ghost (k, a, b) = choose|k: int, a: int, b: int|
            0 <= k < given.len() && 0 <= a <= b <= given[k].data@.len() && group.subdomain@
                == given[k].subdomain@ && group.data@ == #[trigger] given[k].data@.subrange(a, b);
        proof {
            assert(group.data@.subrange(0, group.data@.len() as int) =~= group.data@);
        }
        loop
            invariant
                self.wf(),
                self.cuts(given),
                0 <= k < given.len(),
                0 <= a <= b <= given[k].data@.len(),
                group.subdomain@ == given[k].subdomain@,
                group.data@ == given[k].data@.subrange(a, b),
                x.subdomain@ == group.subdomain@,
                x.data@.len() <= group.data@.len(),
                x.data@ == group.data@.subrange(0, x.data@.len() as int),
                self.same_split(old(self)),
                self.placed() + x.data@.len() == old(self).placed() + group.data@.len(),
                self.placed() + x.data@.len() <= self.total,
                self.pooled().add(x.entries().to_multiset()) == old(self).pooled().add(
                    group.entries().to_multiset(),
                ),
            decreases self.n - self.done@.len() + x.data@.len(),
        {
            let len = x.data.len();
            if self.room == 0 {
                if self.done.len() + 1 < self.n {
                    self.open_next(Ghost(given));
                } else {
                    proof {
                        assert((self.n - 1) * self.each >= 0) by (nonlinear_arith)
                            requires
                                self.n >= 1,
                                self.each >= 0,
                        ;
                        assert(x.entries() =~= Seq::empty());
                        assert forall|e: (Seq<char>, Seq<char>, Seq<char>)|
                            x.entries().to_multiset().count(e) == 0 by {
                            vstd::seq_lib::to_multiset_contains(x.entries(), e);
                        }
                        assert(x.entries().to_multiset() =~= Multiset::empty());
                        assert(self.pooled().add(x.entries().to_multiset()) =~= self.pooled());
                    }
                    return ;
                }
            } else if len <= self.room {
                let ghost held = self.current@;
                let ghost pooled = self.pooled();
                self.room = self.room - len;
                self.current.push(x);
                proof {
                    assert(x.data@ =~= given[k].data@.subrange(a, a + len));
                    assert(is_run_of(x, given));
                    assert(self.current@.drop_last() =~= held);
                    assert(self.pooled() =~= pooled.add(x.entries().to_multiset()));
                }
                return ;
            } else {
                let ghost held = self.current@;
                let ghost pooled = self.pooled();
                let ghost longer = x;
                let point = len - self.room;
                let tail = x.data.split_off(point);
                let piece = CredentialData { subdomain: x.subdomain.clone(), data: tail };
                self.current.push(piece);
                self.room = 0;
                proof {
                    assert(piece.data@ =~= given[k].data@.subrange(a + point, a + len));
                    assert(is_run_of(piece, given));
                    assert(x.data@ =~= group.data@.subrange(0, point as int));
                    assert(self.current@.drop_last() =~= held);
                    assert(longer.entries() =~= x.entries() + piece.entries());
                    vstd::seq_lib::lemma_multiset_commutative(x.entries(), piece.entries());
                    assert(self.pooled().add(x.entries().to_multiset()) =~= pooled.add(
                        longer.entries().to_multiset(),
                    ));
                }
            }
        }
    }

    /// Closes the last part that received anything and adds the parts that
    /// received nothing.
    fn finish(self, Ghost(given): Ghost<Seq<CredentialData>>) -> (parts: Vec<LeakData>)
        requires
            self.wf(),
            self.cuts(given),
            self.placed() == self.total,
        ensures
            parts@.len() == self.n,
            forall|i: int| 0 <= i < parts@.len() ==> cut_from((#[trigger] parts@[i]).credentials@, given),
            forall|i: int|
                0 <= i < parts@.len() ==> (#[trigger] parts@[i]).domain@ == self.domain@ && count(
                    parts@[i].credentials@,
                ) == share(self.total as nat, self.n as nat, i as nat),
            pool_of_parts(parts@) == self.pooled(),
    {
        let ghost k = self.done@.len() as int;
        let Filling { domain, n, each, total, done, current, room } = self;
        let mut parts = done;
        proof {
            let n = n as int;
            let each = each as int;
            let total = total as int;
            assert(n * each <= total) by (nonlinear_arith)
                requires
                    n > 0,
                    each == total / n,
                    total >= 0,
            ;
            assert((k + 1) * each == k * each + each) by (nonlinear_arith);
            if k + 1 < n {
                assert((k + 2) * each == (k + 1) * each + each) by (nonlinear_arith);
                assert((k + 2) * each <= n * each) by (nonlinear_arith)
                    requires
                        k + 2 <= n,
                        each >= 0,
                ;
                assert(each == 0 && room == 0);
                assert(k * each == 0) by (nonlinear_arith)
                    requires
                        each == 0,
                ;
                assert(total == 0);
            }
        }
        parts.push(LeakData { domain: domain.clone(), credentials: current });
        proof {
            assert(parts@.drop_last() =~= done@);
        }
        while parts.len() < n
            invariant
                k < parts@.len() <= n,
                n > 0,
                each == total as int / n as int,
                pool_of_parts(parts@) == self.pooled(),
                forall|i: int|
                    0 <= i < parts@.len() ==> cut_from((#[trigger] parts@[i]).credentials@, given),
                self.domain@ == domain@,
                self.total == total,
                self.n == n,
                forall|i: int|
                    0 <= i < parts@.len() ==> (#[trigger] parts@[i]).domain@ == domain@ && count(
                        parts@[i].credentials@,
                    ) == share(total as nat, n as nat, i as nat),
                parts@.len() < n ==> total == 0,
            decreases n - parts.len(),
        {
            let ghost shorter = parts@;
            parts.push(LeakData { domain: domain.clone(), credentials: Vec::new() });
            proof {
                assert(parts@.drop_last() =~= shorter);
                assert(pool_of_parts(parts@) =~= pool_of_parts(shorter));
                assert(0int / (n as int) == 0) by (nonlinear_arith)
                    requires
                        n > 0,
                ;
                assert((n - 1) * 0 == 0) by (nonlinear_arith);
            }
        }
        parts
    }
}

/// Splits the credentials of one domain into `n` parts of the same domain.
/// The parts are filled in order: each but the last takes the `n`th part of
/// the credentials, rounded down, and the last takes the rest. A group that
/// does not fit into what is left of a part is cut, and keeps its subdomain
/// on both sides: every group of a part is a run of neighbouring pairs of
/// one group given, in their order. No credential is lost or made up.
pub fn split(leak_data: LeakData, n: usize) -> (parts: Vec<LeakData>)
    requires
        n > 0,
        count(leak_data.credentials@) <= usize::MAX,
    ensures
        parts@.len() == n,
        forall|i: int|
            0 <= i < n ==> (#[trigger] parts@[i]).domain@ == leak_data.domain@ && count(
                parts@[i].credentials@,
            ) == share(count(leak_data.credentials@), n as nat, i as nat),
        forall|i: int|
            0 <= i < n ==> cut_from((#[trigger] parts@[i]).credentials@, leak_data.credentials@),
        pool_of_parts(parts@) == pool(leak_data.credentials@),
{
    let ghost given = leak_data.credentials@;
    let LeakData { domain, credentials } = leak_data;
    let total = total_entries(&credentials);
    let each = total / n;
    let room = if 1 < n {
        each
    } else {
        total
    };
    let mut filling = Filling {
        domain,
        n,
        each,
        total,
        done: Vec::new(),
        current: Vec::new(),
        room,
    };
    let ghost start = filling;
    proof {
        assert(0 * (each as int) == 0) by (nonlinear_arith);
        assert(filling.pooled() =~= Multiset::empty());
    }
    proof {
        assert(given.subrange(0, given.len() as int) =~= given);
    }
    for x in it: credentials
        invariant
            it.seq() == given,
            filling.wf(),
            filling.cuts(given),
            filling.same_split(&start),
            filling.placed() + count(given.subrange(it.index() as int, given.len() as int))
                == total,
            filling.pooled().add(pool(given.subrange(it.index() as int, given.len() as int)))
                == pool(given),
            start.total == total,
            start.n == n,
            start.domain@ == leak_data.domain@,
            total == count(given),
    {
        proof {
            let rest = given.subrange(it.index() as int, given.len() as int);
            lemma_first_group(rest);
            assert(rest.drop_first() =~= given.subrange(it.index() + 1, given.len() as int));
            assert(filling.pooled().add(x.entries().to_multiset()).add(pool(rest.drop_first()))
                =~= filling.pooled().add(pool(rest)));
        }
        proof {
            assert(x.data@.subrange(0, x.data@.len() as int) =~= x.data@);
            assert(x == given[it.index() as int]);
            assert(is_run_of(x, given));
        }
        filling.place(x, Ghost(given));
    }
    proof {
        assert(given.subrange(given.len() as int, given.len() as int) =~= Seq::empty());
        assert(filling.pooled().add(Multiset::empty()) =~= filling.pooled());
    }
    filling.finish(Ghost(given))
}

} // verus!
