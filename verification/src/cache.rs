//! A cache that groups items under string keys, keeping for each key the
//! items in the order they were added.
use vstd::prelude::*;

verus! {

/// The items kept under `k` in `m` (none if `k` is absent).
pub open spec fn group<V>(m: Map<Seq<char>, Seq<V>>, k: Seq<char>) -> Seq<V> {
    if m.contains_key(k) {
        m[k]
    } else {
        Seq::empty()
    }
}

/// `m` after `v` is added under `k`.
pub open spec fn pushed<V>(m: Map<Seq<char>, Seq<V>>, k: Seq<char>, v: V) -> Map<
    Seq<char>,
    Seq<V>,
> {
    m.insert(k, group(m, k).push(v))
}

/// `m` after the items under `k` are taken out: the key stays, with no items.
pub open spec fn taken<V>(m: Map<Seq<char>, Seq<V>>, k: Seq<char>) -> Map<Seq<char>, Seq<V>> {
    if m.contains_key(k) {
        m.insert(k, Seq::empty())
    } else {
        m
    }
}

/// `m` after the keyed items of `s` are added in order.
pub open spec fn pushed_all<V>(m: Map<Seq<char>, Seq<V>>, s: Seq<(Seq<char>, V)>) -> Map<
    Seq<char>,
    Seq<V>,
>
    decreases s.len(),
{
    if s.len() == 0 {
        m
    } else {
        pushed(pushed_all(m, s.drop_last()), s.last().0, s.last().1)
    }
}

/// The items of `s` whose key is `k`, in order.
pub open spec fn items_under<V>(s: Seq<(Seq<char>, V)>, k: Seq<char>) -> Seq<V>
    decreases s.len(),
{
    if s.len() == 0 {
        Seq::empty()
    } else if s.last().0 == k {
        items_under(s.drop_last(), k).push(s.last().1)
    } else {
        items_under(s.drop_last(), k)
    }
}

/// Keyed items, with each key taken by its view.
pub open spec fn keyed_views<V>(s: Seq<(String, V)>) -> Seq<(Seq<char>, V)> {
    s.map_values(|e: (String, V)| (e.0@, e.1))
}

/// How many of `n` items a cache fill writes when asked for `siz` of them:
/// all when `siz` is negative, else stopping once `siz` are written (at
/// least one item is written before the check).
pub open spec fn fill_count(n: int, siz: int) -> int {
    if siz < 0 || n == 0 {
        n
    } else if siz <= 1 {
        1
    } else if siz < n {
        siz
    } else {
        n
    }
}

/// Items grouped by key. Keys are unique; a key whose items were taken out
/// stays, with an empty group.
pub struct GroupCache<V> {
    keys: Vec<String>,
    groups: Vec<Vec<V>>,
}

impl<V> View for GroupCache<V> {
    type V = Map<Seq<char>, Seq<V>>;

    closed spec fn view(&self) -> Map<Seq<char>, Seq<V>> {
        Map::new(
            |k: Seq<char>| exists|i: int| 0 <= i < self.keys@.len() && #[trigger] self.keys@[i]@ == k,
            |k: Seq<char>|
                self.groups@[choose|i: int|
                    0 <= i < self.keys@.len() && #[trigger] self.keys@[i]@ == k]@,
        )
    }
}

impl<V> GroupCache<V> {
    /// Well-formedness: one group per key, and no key twice.
    pub closed spec fn wf(&self) -> bool {
        &&& self.keys@.len() == self.groups@.len()
        &&& forall|i: int, j: int|
            0 <= i < j < self.keys@.len() ==> #[trigger] self.keys@[i]@ != #[trigger] self.keys@[j]@
    }

    proof fn lemma_view_at(&self, i: int)
        requires
            self.wf(),
            0 <= i < self.keys@.len(),
        ensures
            self@.contains_key(self.keys@[i]@),
            self@[self.keys@[i]@] == self.groups@[i]@,
    {
        let k = self.keys@[i]@;
        assert(self@.dom().contains(k));
        let j: int = choose|j: int| 0 <= j < self.keys@.len() && #[trigger] self.keys@[j]@ == k;
        assert(0 <= j < self.keys@.len() && self.keys@[j]@ == k);
        if j < i {
            assert(self.keys@[j]@ != self.keys@[i]@);
        } else if i < j {
            assert(self.keys@[i]@ != self.keys@[j]@);
        }
    }

    /// An empty cache.
    pub fn new() -> (r: Self)
        ensures
            r.wf(),
            r@ == Map::<Seq<char>, Seq<V>>::empty(),
    {
        let r = GroupCache { keys: Vec::new(), groups: Vec::new() };
        assert(r@ =~= Map::<Seq<char>, Seq<V>>::empty());
        r
    }

    /// Number of keys.
    pub fn len(&self) -> (r: usize)
        requires
            self.wf(),
        ensures
            r == self@.dom().len(),
    {
        proof {
            self.lemma_dom_len();
        }
        self.keys.len()
    }

    proof fn lemma_dom_len(&self)
        requires
            self.wf(),
        ensures
            self@.dom().finite(),
            self@.dom().len() == self.keys@.len(),
    {
        let ks = self.keys@.map_values(|s: String| s@);
        assert forall|i: int, j: int| 0 <= i < ks.len() && 0 <= j < ks.len() && i != j implies ks[i]
            != ks[j] by {
            if i < j {
                assert(self.keys@[i]@ != self.keys@[j]@);
            } else {
                assert(self.keys@[j]@ != self.keys@[i]@);
            }
        }
        assert(ks.no_duplicates());
        ks.unique_seq_to_set();
        assert forall|k: Seq<char>| self@.dom().contains(k) <==> ks.to_set().contains(k) by {
            if self@.dom().contains(k) {
                let i: int = choose|i: int| 0 <= i < self.keys@.len() && #[trigger] self.keys@[i]@ == k;
                assert(ks[i] == k);
            }
            if ks.to_set().contains(k) {
                let i: int = choose|i: int| 0 <= i < ks.len() && ks[i] == k;
                assert(self.keys@[i]@ == k);
            }
        }
        assert(self@.dom() =~= ks.to_set());
    }

    /// Position of `key`, if present.
    fn find(&self, key: &String) -> (r: Option<usize>)
        requires
            self.wf(),
        ensures
            r matches Some(i) ==> i < self.keys@.len() && self.keys@[i as int]@ == key@,
            r is None ==> !self@.contains_key(key@),
    {
        let mut i: usize = 0;
        while i < self.keys.len()
            invariant
                i <= self.keys@.len(),
                forall|j: int| 0 <= j < i ==> self.keys@[j]@ != key@,
            decreases self.keys.len() - i,
        {
            if self.keys[i] == *key {
                return Some(i);
            }
            i = i + 1;
        }
        None
    }

    /// The items kept under `key`, if the key is present.
    pub fn get(&self, key: &String) -> (r: Option<&Vec<V>>)
        requires
            self.wf(),
        ensures
            r is Some <==> self@.contains_key(key@),
            r matches Some(g) ==> g@ == self@[key@],
    {
        match self.find(key) {
            Some(i) => {
                proof {
                    self.lemma_view_at(i as int);
                }
                Some(&self.groups[i])
            },
            None => None,
        }
    }

    /// Adds `v` after the items kept under `key`.
    pub fn push(&mut self, key: String, v: V)
        requires
            old(self).wf(),
        ensures
            final(self).wf(),
            final(self)@ == pushed(old(self)@, key@, v),
    {
        let ghost old_self = *self;
        match self.find(&key) {
            Some(i) => {
                proof {
                    old_self.lemma_view_at(i as int);
                }
                let mut g = self.groups.remove(i);
                g.push(v);
                self.groups.insert(i, g);
                proof {
                    assert(self.groups@ =~= old_self.groups@.update(i as int, self.groups@[i as int]));
                    assert forall|k: Seq<char>| #[trigger] self@.contains_key(k) == pushed(old_self@, key@, v).contains_key(k) by {
                        if k == key@ {
                            self.lemma_view_at(i as int);
                        }
                    }
                    assert forall|k: Seq<char>| self@.contains_key(k) implies #[trigger] self@[k] == pushed(old_self@, key@, v)[k] by {
                        let j: int = choose|j: int| 0 <= j < self.keys@.len() && #[trigger] self.keys@[j]@ == k;
                        self.lemma_view_at(j);
                        old_self.lemma_view_at(j);
                    }
                    assert(self@ =~= pushed(old_self@, key@, v));
                }
            },
            None => {
                let mut g: Vec<V> = Vec::new();
                g.push(v);
                self.keys.push(key);
                self.groups.push(g);
                proof {
                    let n: int = old_self.keys@.len() as int;
                    assert forall|i: int, j: int| 0 <= i < j < self.keys@.len() implies #[trigger] self.keys@[i]@ != #[trigger] self.keys@[j]@ by {
                        if j == n {
                            assert(old_self@.contains_key(old_self.keys@[i]@)) by {
                                old_self.lemma_view_at(i);
                            }
                        }
                    }
                    assert forall|k: Seq<char>| #[trigger] self@.contains_key(k) == pushed(old_self@, key@, v).contains_key(k) by {
                        if self@.contains_key(k) && k != key@ {
                            let j: int = choose|j: int| 0 <= j < self.keys@.len() && #[trigger] self.keys@[j]@ == k;
                            old_self.lemma_view_at(j);
                        }
                        if old_self@.contains_key(k) {
                            let j: int = choose|j: int| 0 <= j < old_self.keys@.len() && #[trigger] old_self.keys@[j]@ == k;
                            self.lemma_view_at(j);
                        }
                        if k == key@ {
                            self.lemma_view_at(n);
                        }
                    }
                    assert forall|k: Seq<char>| self@.contains_key(k) implies #[trigger] self@[k] == pushed(old_self@, key@, v)[k] by {
                        let j: int = choose|j: int| 0 <= j < self.keys@.len() && #[trigger] self.keys@[j]@ == k;
                        self.lemma_view_at(j);
                        if j < n {
                            old_self.lemma_view_at(j);
                        } else {
                            assert(g@ =~= Seq::<V>::empty().push(v));
                        }
                    }
                    assert(self@ =~= pushed(old_self@, key@, v));
                }
            },
        }
    }

    /// Adds the keyed items in order, stopping after `siz` of them when
    /// `siz` is not negative (the stop is checked after each item, so at
    /// least one is added when there is one). Returns how many were added.
    pub fn cache_all(&mut self, items: Vec<(String, V)>, siz: i64) -> (written: i64)
        requires
            old(self).wf(),
            items@.len() <= i64::MAX,
        ensures
            final(self).wf(),
            written == fill_count(items@.len() as int, siz as int),
            final(self)@ == pushed_all(
                old(self)@,
                keyed_views(items@.take(written as int)),
            ),
    {
        let ghost start = self@;
        let ghost all = keyed_views(items@);
        let n: usize = items.len();
        let mut rest = items;
        let mut written: i64 = 0;
        let mut done = false;
        while !done && rest.len() > 0
            invariant
                self.wf(),
                0 <= written <= n,
                n == all.len(),
                n <= i64::MAX,
                rest@.len() == n - written,
                keyed_views(rest@) =~= all.subrange(written as int, n as int),
                self@ == pushed_all(start, all.take(written as int)),
                done ==> written == fill_count(n as int, siz as int),
                !done ==> (siz >= 0 ==> written < siz || written == 0),
            decreases rest.len(),
        {
            let ghost before = keyed_views(rest@);
            let ghost old_rest = rest@;
            let (key, v) = rest.remove(0);
            assert(rest@ =~= old_rest.subrange(1, old_rest.len() as int));
            proof {
                assert(before[0] == (key@, v));
                assert(all[written as int] == (key@, v));
                assert(all.take(written + 1).drop_last() =~= all.take(written as int));
                assert(all.take(written + 1).last() == (key@, v));
            }
            self.push(key, v);
            written = written + 1;
            proof {
                assert forall|k: int| 0 <= k < rest@.len() implies #[trigger] keyed_views(rest@)[k] == all.subrange(written as int, n as int)[k] by {
                        assert(before[k + 1] == all[written + k]);
                    assert(rest@[k] == old_rest[k + 1]);
                }
                assert(keyed_views(rest@) =~= all.subrange(written as int, n as int));
            }
            if written >= siz && siz >= 0 {
                done = true;
            }
        }
        proof {
            assert(keyed_views(items@.take(written as int)) =~= all.take(written as int));
        }
        written
    }

    /// Takes out the items kept under `key`, leaving the key with none.
    pub fn take(&mut self, key: &String) -> (r: Vec<V>)
        requires
            old(self).wf(),
        ensures
            final(self).wf(),
            r@ == group(old(self)@, key@),
            final(self)@ == taken(old(self)@, key@),
    {
        let ghost old_self = *self;
        match self.find(key) {
            Some(i) => {
                proof {
                    old_self.lemma_view_at(i as int);
                }
                let g = self.groups.remove(i);
                self.groups.insert(i, Vec::new());
                proof {
                    assert forall|k: Seq<char>| #[trigger] self@.contains_key(k) == taken(old_self@, key@).contains_key(k) by {
                        if k == key@ {
                            self.lemma_view_at(i as int);
                        }
                    }
                    assert forall|k: Seq<char>| self@.contains_key(k) implies #[trigger] self@[k] == taken(old_self@, key@)[k] by {
                        let j: int = choose|j: int| 0 <= j < self.keys@.len() && #[trigger] self.keys@[j]@ == k;
                        self.lemma_view_at(j);
                        old_self.lemma_view_at(j);
                        if j == i {
                            assert(self.groups@[j]@ =~= Seq::<V>::empty());
                        }
                    }
                    assert(self@ =~= taken(old_self@, key@));
                }
                g
            },
            None => Vec::new(),
        }
    }
}

} // verus!
