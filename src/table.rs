use vstd::prelude::*;

verus! {

/// The key of a credential: its service and its account.
pub type KeyView = (Seq<char>, Seq<char>);

/// The records of one backend namespace, at most one per (service, account).
pub struct RecordTable<V> {
    entries: Vec<(String, String, V)>,
}

pub open spec fn entry_key<V>(e: (String, String, V)) -> KeyView {
    (e.0@, e.1@)
}

/// The services that have at least one record in a namespace.
pub open spec fn services_of<V>(m: Map<KeyView, V>) -> Set<Seq<char>> {
    m.dom().map(|k: KeyView| k.0)
}

/// `names` lists each element of `set` exactly once.
pub open spec fn lists_each_once(names: Seq<String>, set: Set<Seq<char>>) -> bool {
    &&& forall|x: Seq<char>| set.contains(x) <==> exists|i: int| 0 <= i < names.len() && (#[trigger] names[i])@ == x
    &&& forall|i: int, j: int| 0 <= i < j < names.len() ==> (#[trigger] names[i])@ != (#[trigger] names[j])@
}

fn holds_name(names: &Vec<String>, s: &String) -> (r: bool)
    ensures
        r <==> exists|i: int| 0 <= i < names@.len() && (#[trigger] names@[i])@ == s@,
{
    let mut i: usize = 0;
    while i < names.len()
        invariant
            i <= names@.len(),
            forall|j: int| 0 <= j < i ==> (#[trigger] names@[j])@ != s@,
        decreases names@.len() - i,
    {
        if names[i] == *s {
            return true;
        }
        i = i + 1;
    }
    false
}

impl<V> RecordTable<V> {
    pub closed spec fn wf(&self) -> bool {
        forall|i: int, j: int|
            0 <= i < j < self.entries@.len() ==> entry_key(#[trigger] self.entries@[i]) != entry_key(
                #[trigger] self.entries@[j],
            )
    }

    closed spec fn index_of(&self, k: KeyView) -> int {
        choose|i: int| 0 <= i < self.entries@.len() && entry_key(self.entries@[i]) == k
    }

    /// The namespace as a map from key to stored value.
    pub closed spec fn view(&self) -> Map<KeyView, V> {
        Map::new(
            |k: KeyView| exists|i: int| 0 <= i < self.entries@.len() && entry_key(self.entries@[i]) == k,
            |k: KeyView| self.entries@[self.index_of(k)].2,
        )
    }

    proof fn lemma_lookup(&self, i: int)
        requires
            self.wf(),
            0 <= i < self.entries@.len(),
        ensures
            self@.contains_key(entry_key(self.entries@[i])),
            self@[entry_key(self.entries@[i])] == self.entries@[i].2,
    {
        let k = entry_key(self.entries@[i]);
        assert(self@.contains_key(k));
        let j = self.index_of(k);
        if i < j {
            assert(entry_key(self.entries@[i]) != entry_key(self.entries@[j]));
        } else if j < i {
            assert(entry_key(self.entries@[j]) != entry_key(self.entries@[i]));
        }
    }

    pub fn new() -> (r: RecordTable<V>)
        ensures
            r.wf(),
            r@ == Map::<KeyView, V>::empty(),
    {
        let r = RecordTable { entries: Vec::new() };
        assert(r@ =~= Map::<KeyView, V>::empty());
        r
    }

    /// The number of records held.
    pub fn len(&self) -> (r: usize)
        requires
            self.wf(),
        ensures
            r == self@.len(),
    {
        proof {
            self.lemma_len();
        }
        self.entries.len()
    }

    proof fn lemma_len(&self)
        requires
            self.wf(),
        ensures
            self@.dom().finite(),
            self@.len() == self.entries@.len(),
        decreases self.entries@.len(),
    {
        let keys = self.entries@.map_values(|e: (String, String, V)| entry_key(e));
        assert forall|i: int, j: int| 0 <= i < j < keys.len() implies keys[i] != keys[j] by {
            assert(entry_key(self.entries@[i]) != entry_key(self.entries@[j]));
        }
        assert(keys.no_duplicates());
        assert(self@.dom() =~= keys.to_set()) by {
            assert forall|k: KeyView| self@.dom().contains(k) implies keys.to_set().contains(k) by {
                let i = choose|i: int| 0 <= i < self.entries@.len() && entry_key(self.entries@[i]) == k;
                assert(keys[i] == k);
            }
            assert forall|k: KeyView| keys.to_set().contains(k) implies self@.dom().contains(k) by {
                let i = choose|i: int| 0 <= i < keys.len() && keys[i] == k;
                assert(entry_key(self.entries@[i]) == k);
            }
        }
        keys.unique_seq_to_set();
    }

    fn find(&self, service: &String, account: &String) -> (r: Option<usize>)
        requires
            self.wf(),
        ensures
            match r {
                Some(i) => i < self.entries@.len() && entry_key(self.entries@[i as int]) == (
                service@,
                account@,
                ),
                None => !self@.contains_key((service@, account@)),
            },
    {
        let mut i: usize = 0;
        while i < self.entries.len()
            invariant
                i <= self.entries@.len(),
                forall|j: int| 0 <= j < i ==> entry_key(#[trigger] self.entries@[j]) != (service@, account@),
            decreases self.entries@.len() - i,
        {
            let e = &self.entries[i];
            if e.0 == *service && e.1 == *account {
                return Some(i);
            }
            i = i + 1;
        }
        None
    }

    /// The value stored under (service, account), if any.
    pub fn get(&self, service: &str, account: &str) -> (r: Option<&V>)
        requires
            self.wf(),
        ensures
            r is Some <==> self@.contains_key((service@, account@)),
            r is Some ==> *r->0 == self@[(service@, account@)],
    {
        let s = service.to_owned();
        let a = account.to_owned();
        match self.find(&s, &a) {
            Some(i) => {
                proof {
                    self.lemma_lookup(i as int);
                }
                Some(&self.entries[i].2)
            },
            None => None,
        }
    }

    /// Removes the record at (service, account) and hands its value back.
    pub fn remove(&mut self, service: &str, account: &str) -> (r: Option<V>)
        requires
            old(self).wf(),
        ensures
            final(self).wf(),
            final(self)@ == old(self)@.remove((service@, account@)),
            r is Some <==> old(self)@.contains_key((service@, account@)),
            r is Some ==> r->0 == old(self)@[(service@, account@)],
    {
        let s = service.to_owned();
        let a = account.to_owned();
        match self.find(&s, &a) {
            Some(i) => {
                let ghost pre = *self;
                proof {
                    pre.lemma_lookup(i as int);
                }
                let e = self.entries.remove(i);
                let ghost k = (service@, account@);
                let ghost es = pre.entries@;
                assert forall|x: int, y: int|
                    0 <= x < y < self.entries@.len() implies entry_key(#[trigger] self.entries@[x])
                    != entry_key(#[trigger] self.entries@[y]) by {
                    let x0 = if x < i { x } else { x + 1 };
                    let y0 = if y < i { y } else { y + 1 };
                    assert(self.entries@[x] == es[x0]);
                    assert(self.entries@[y] == es[y0]);
                    assert(entry_key(es[x0]) != entry_key(es[y0]));
                }
                assert forall|j: int| 0 <= j < self.entries@.len() implies entry_key(
                    #[trigger] self.entries@[j],
                ) != k by {
                    let j0 = if j < i { j } else { j + 1 };
                    assert(self.entries@[j] == es[j0]);
                    if j0 < i {
                        assert(entry_key(es[j0]) != entry_key(es[i as int]));
                    } else {
                        assert(entry_key(es[i as int]) != entry_key(es[j0]));
                    }
                }
                assert forall|q: KeyView| #[trigger] self@.contains_key(q) <==> pre@.remove(k).contains_key(q) by {
                    if self@.contains_key(q) {
                        let j = choose|j: int| 0 <= j < self.entries@.len() && entry_key(self.entries@[j]) == q;
                        let j0 = if j < i { j } else { j + 1 };
                        assert(self.entries@[j] == es[j0]);
                    }
                    if pre@.remove(k).contains_key(q) {
                        let j0 = choose|j: int| 0 <= j < es.len() && entry_key(es[j]) == q;
                        assert(j0 != i);
                        let j = if j0 < i { j0 } else { j0 - 1 };
                        assert(self.entries@[j] == es[j0]);
                    }
                }
                assert forall|q: KeyView| #[trigger] self@.contains_key(q) implies self@[q] == pre@[q] by {
                    let j = choose|j: int| 0 <= j < self.entries@.len() && entry_key(self.entries@[j]) == q;
                    let j0 = if j < i { j } else { j + 1 };
                    assert(self.entries@[j] == es[j0]);
                    self.lemma_lookup(j);
                    pre.lemma_lookup(j0);
                }
                assert(self@ =~= pre@.remove(k));
                Some(e.2)
            },
            None => {
                assert(self@ =~= old(self)@.remove((service@, account@)));
                None
            },
        }
    }

    /// Each service that has a record, once.
    pub fn services(&self) -> (r: Vec<String>)
        requires
            self.wf(),
        ensures
            lists_each_once(r@, services_of(self@)),
    {
        let mut out: Vec<String> = Vec::new();
        let mut i: usize = 0;
        while i < self.entries.len()
            invariant
                i <= self.entries@.len(),
                forall|a: int, b: int| 0 <= a < b < out@.len() ==> (#[trigger] out@[a])@ != (#[trigger] out@[b])@,
                forall|a: int| 0 <= a < out@.len() ==> exists|j: int| 0 <= j < i && (#[trigger] out@[a])@ == self.entries@[j].0@,
                forall|j: int| 0 <= j < i ==> exists|a: int| 0 <= a < out@.len() && (#[trigger] out@[a])@ == (#[trigger] self.entries@[j]).0@,
            decreases self.entries@.len() - i,
        {
            let s = &self.entries[i].0;
            if !holds_name(&out, s) {
                let ghost pre = out@;
                out.push(s.clone());
                assert forall|j: int| 0 <= j <= i implies exists|a: int| 0 <= a < out@.len() && (#[trigger] out@[a])@ == (#[trigger] self.entries@[j]).0@ by {
                    if j < i {
                        let a = choose|a: int| 0 <= a < pre.len() && (#[trigger] pre[a])@ == self.entries@[j].0@;
                        assert(out@[a] == pre[a]);
                    } else {
                        assert(out@[pre.len() as int]@ == self.entries@[j].0@);
                    }
                }
                assert forall|a: int| 0 <= a < out@.len() implies exists|j: int| 0 <= j < i + 1 && (#[trigger] out@[a])@ == self.entries@[j].0@ by {
                    if a < pre.len() {
                        assert(out@[a] == pre[a]);
                    } else {
                        assert(out@[a]@ == self.entries@[i as int].0@);
                    }
                }
            }
            i = i + 1;
        }
        assert forall|x: Seq<char>|
            services_of(self@).contains(x) <==> exists|a: int| 0 <= a < out@.len() && (#[trigger] out@[a])@ == x by {
            if services_of(self@).contains(x) {
                let k = choose|k: KeyView| self@.dom().contains(k) && k.0 == x;
                let j = choose|j: int| 0 <= j < self.entries@.len() && entry_key(self.entries@[j]) == k;
                assert(self.entries@[j].0@ == x);
            }
            if exists|a: int| 0 <= a < out@.len() && (#[trigger] out@[a])@ == x {
                let a = choose|a: int| 0 <= a < out@.len() && (#[trigger] out@[a])@ == x;
                let j = choose|j: int| 0 <= j < self.entries@.len() && (#[trigger] out@[a])@ == self.entries@[j].0@;
                let k = entry_key(self.entries@[j]);
                assert(self@.dom().contains(k));
                assert(services_of(self@).contains(k.0));
            }
        }
        out
    }

    /// Stores `value` under (service, account), replacing any earlier value.
    pub fn insert(&mut self, service: &str, account: &str, value: V)
        requires
            old(self).wf(),
        ensures
            final(self).wf(),
            final(self)@ == old(self)@.insert((service@, account@), value),
    {
        let _ = self.remove(service, account);
        let ghost pre = *self;
        let ghost k = (service@, account@);
        self.entries.push((service.to_owned(), account.to_owned(), value));
        let ghost es = pre.entries@;
        let ghost n = es.len() as int;
        assert forall|x: int, y: int|
            0 <= x < y < self.entries@.len() implies entry_key(#[trigger] self.entries@[x]) != entry_key(
                #[trigger] self.entries@[y],
            ) by {
            assert(self.entries@[x] == es[x]);
            if y < n {
                assert(self.entries@[y] == es[y]);
            } else {
                assert(pre@.contains_key(entry_key(es[x])));
            }
        }
        assert forall|q: KeyView| #[trigger] self@.contains_key(q) <==> pre@.insert(k, value).contains_key(q) by {
            if self@.contains_key(q) && q != k {
                let j = choose|j: int| 0 <= j < self.entries@.len() && entry_key(self.entries@[j]) == q;
                assert(j < n);
                assert(self.entries@[j] == es[j]);
            }
            if q == k {
                assert(entry_key(self.entries@[n]) == k);
            } else if pre@.contains_key(q) {
                let j = choose|j: int| 0 <= j < es.len() && entry_key(es[j]) == q;
                assert(self.entries@[j] == es[j]);
            }
        }
        assert forall|q: KeyView| #[trigger] self@.contains_key(q) implies self@[q] == pre@.insert(
            k,
            value,
        )[q] by {
            let j = choose|j: int| 0 <= j < self.entries@.len() && entry_key(self.entries@[j]) == q;
            self.lemma_lookup(j);
            if j < n {
                assert(self.entries@[j] == es[j]);
                pre.lemma_lookup(j);
            }
        }
        assert(self@ =~= pre@.insert(k, value));
    }
}

} // verus!
