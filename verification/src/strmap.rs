use vstd::prelude::*;

verus! {

/// The keys of an association list are pairwise distinct.
pub open spec fn pairs_distinct<V>(p: Seq<(Seq<char>, V)>) -> bool {
    forall|i: int, j: int|
        0 <= i < p.len() && 0 <= j < p.len() && i != j ==> #[trigger] p[i].0 != #[trigger] p[j].0
}

/// `k` is the key of some entry of the association list.
pub open spec fn pairs_has_key<V>(p: Seq<(Seq<char>, V)>, k: Seq<char>) -> bool {
    exists|i: int| 0 <= i < p.len() && #[trigger] p[i].0 == k
}

/// The map that an association list with distinct keys stands for.
pub open spec fn pairs_to_map<V>(p: Seq<(Seq<char>, V)>) -> Map<Seq<char>, V> {
    Map::new(
        |k: Seq<char>| pairs_has_key(p, k),
        |k: Seq<char>| p[choose|i: int| 0 <= i < p.len() && #[trigger] p[i].0 == k].1,
    )
}

/// Each entry's key taken by its characters.
pub open spec fn entries_pairs<V>(e: Seq<(String, V)>) -> Seq<(Seq<char>, V)> {
    e.map_values(|x: (String, V)| (x.0@, x.1))
}

/// A map keyed by strings that keeps its entries in the order in which their
/// keys were first inserted.
#[derive(Debug)]
pub struct StrMap<V> {
    entries: Vec<(String, V)>,
}

impl<V> StrMap<V> {
    /// The entries, in insertion order, each key taken by its characters.
    pub closed spec fn pairs(&self) -> Seq<(Seq<char>, V)> {
        entries_pairs(self.entries@)
    }

    #[verifier::type_invariant]
    closed spec fn keys_distinct(&self) -> bool {
        pairs_distinct(self.pairs())
    }

    pub closed spec fn as_map(&self) -> Map<Seq<char>, V> {
        pairs_to_map(self.pairs())
    }
}

impl<V> View for StrMap<V> {
    type V = Map<Seq<char>, V>;

    open spec fn view(&self) -> Map<Seq<char>, V> {
        self.as_map()
    }
}

proof fn lemma_value_at<V>(p: Seq<(Seq<char>, V)>, i: int)
    requires
        pairs_distinct(p),
        0 <= i < p.len(),
    ensures
        pairs_to_map(p).contains_key(p[i].0),
        pairs_to_map(p)[p[i].0] == p[i].1,
{
    let k = p[i].0;
    assert(pairs_has_key(p, k));
    let j = choose|j: int| 0 <= j < p.len() && #[trigger] p[j].0 == k;
    assert(j == i);
}

proof fn lemma_update<V>(p: Seq<(Seq<char>, V)>, i: int, v: V)
    requires
        pairs_distinct(p),
        0 <= i < p.len(),
    ensures
        pairs_distinct(p.update(i, (p[i].0, v))),
        pairs_to_map(p.update(i, (p[i].0, v))) == pairs_to_map(p).insert(p[i].0, v),
{
    let k = p[i].0;
    let q = p.update(i, (k, v));
    assert(pairs_distinct(q)) by {
        assert forall|a: int, b: int|
            0 <= a < q.len() && 0 <= b < q.len() && a != b implies #[trigger] q[a].0 != #[trigger] q[b].0 by {
            assert(q[a].0 == p[a].0 && q[b].0 == p[b].0);
        }
    }
    let m = pairs_to_map(p).insert(k, v);
    assert forall|key: Seq<char>| #[trigger] pairs_to_map(q).contains_key(key) <==> m.contains_key(key) by {
        if pairs_to_map(q).contains_key(key) {
            let j = choose|j: int| 0 <= j < q.len() && #[trigger] q[j].0 == key;
            assert(p[j].0 == key);
        }
        if pairs_to_map(p).contains_key(key) {
            let j = choose|j: int| 0 <= j < p.len() && #[trigger] p[j].0 == key;
            assert(q[j].0 == key);
        }
        if key == k {
            assert(q[i].0 == key);
        }
    }
    assert forall|key: Seq<char>| #[trigger] pairs_to_map(q).contains_key(key) implies pairs_to_map(q)[key] == m[key] by {
        let j = choose|j: int| 0 <= j < q.len() && #[trigger] q[j].0 == key;
        lemma_value_at(q, j);
        if j != i {
            lemma_value_at(p, j);
        }
    }
    assert(pairs_to_map(q) =~= m);
}

proof fn lemma_push<V>(p: Seq<(Seq<char>, V)>, k: Seq<char>, v: V)
    requires
        pairs_distinct(p),
        !pairs_has_key(p, k),
    ensures
        pairs_distinct(p.push((k, v))),
        pairs_to_map(p.push((k, v))) == pairs_to_map(p).insert(k, v),
{
    let q = p.push((k, v));
    assert(pairs_distinct(q)) by {
        assert forall|a: int, b: int|
            0 <= a < q.len() && 0 <= b < q.len() && a != b implies #[trigger] q[a].0 != #[trigger] q[b].0 by {
            if a == p.len() {
                assert(p[b].0 == q[b].0);
            } else if b == p.len() {
                assert(p[a].0 == q[a].0);
            }
        }
    }
    let m = pairs_to_map(p).insert(k, v);
    assert forall|key: Seq<char>| #[trigger] pairs_to_map(q).contains_key(key) <==> m.contains_key(key) by {
        if pairs_to_map(q).contains_key(key) {
            let j = choose|j: int| 0 <= j < q.len() && #[trigger] q[j].0 == key;
            if j < p.len() {
                assert(p[j].0 == key);
            }
        }
        if pairs_to_map(p).contains_key(key) {
            let j = choose|j: int| 0 <= j < p.len() && #[trigger] p[j].0 == key;
            assert(q[j].0 == key);
        }
        if key == k {
            assert(q[p.len() as int].0 == key);
        }
    }
    assert forall|key: Seq<char>| #[trigger] pairs_to_map(q).contains_key(key) implies pairs_to_map(q)[key] == m[key] by {
        let j = choose|j: int| 0 <= j < q.len() && #[trigger] q[j].0 == key;
        lemma_value_at(q, j);
        if j < p.len() {
            lemma_value_at(p, j);
        }
    }
    assert(pairs_to_map(q) =~= m);
}

proof fn lemma_remove<V>(p: Seq<(Seq<char>, V)>, i: int)
    requires
        pairs_distinct(p),
        0 <= i < p.len(),
    ensures
        pairs_distinct(p.remove(i)),
        pairs_to_map(p.remove(i)) == pairs_to_map(p).remove(p[i].0),
{
    let k = p[i].0;
    let q = p.remove(i);
    assert(pairs_distinct(q)) by {
        assert forall|a: int, b: int|
            0 <= a < q.len() && 0 <= b < q.len() && a != b implies #[trigger] q[a].0 != #[trigger] q[b].0 by {
            let a2 = if a < i { a } else { a + 1 };
            let b2 = if b < i { b } else { b + 1 };
            assert(q[a] == p[a2] && q[b] == p[b2]);
        }
    }
    let m = pairs_to_map(p).remove(k);
    assert forall|key: Seq<char>| #[trigger] pairs_to_map(q).contains_key(key) <==> m.contains_key(key) by {
        if pairs_to_map(q).contains_key(key) {
            let j = choose|j: int| 0 <= j < q.len() && #[trigger] q[j].0 == key;
            let j2 = if j < i { j } else { j + 1 };
            assert(q[j] == p[j2]);
            assert(p[j2].0 == key);
        }
        if m.contains_key(key) {
            let j = choose|j: int| 0 <= j < p.len() && #[trigger] p[j].0 == key;
            assert(j != i);
            let j2 = if j < i { j } else { j - 1 };
            assert(q[j2] == p[j]);
            assert(q[j2].0 == key);
        }
    }
    assert forall|key: Seq<char>| #[trigger] pairs_to_map(q).contains_key(key) implies pairs_to_map(q)[key] == m[key] by {
        let j = choose|j: int| 0 <= j < q.len() && #[trigger] q[j].0 == key;
        lemma_value_at(q, j);
        let j2 = if j < i { j } else { j + 1 };
        assert(q[j] == p[j2]);
        lemma_value_at(p, j2);
    }
    assert(pairs_to_map(q) =~= m);
}

impl<V> StrMap<V> {
    /// An empty map.
    pub fn new() -> (m: Self)
        ensures
            m@ == Map::<Seq<char>, V>::empty(),
            m.pairs() == Seq::<(Seq<char>, V)>::empty(),
    {
        let m = StrMap { entries: Vec::new() };
        assert(m.pairs() =~= Seq::<(Seq<char>, V)>::empty());
        assert(m@ =~= Map::<Seq<char>, V>::empty());
        m
    }

    /// Number of entries, which is the number of keys; the keys of the
    /// entries are distinct.
    pub fn len(&self) -> (n: usize)
        ensures
            n == self.pairs().len(),
            n == self@.dom().len(),
            self@.dom().finite(),
            pairs_distinct(self.pairs()),
    {
        proof {
            use_type_invariant(self);
            lemma_pairs_map_len(self.pairs());
        }
        self.entries.len()
    }

    fn find(&self, key: &str) -> (r: Option<usize>)
        ensures
            match r {
                Some(i) => i < self.pairs().len() && self.pairs()[i as int].0 == key@,
                None => !pairs_has_key(self.pairs(), key@),
            },
    {
        let k = String::from_str(key);
        let n = self.entries.len();
        let mut i: usize = 0;
        while i < n
            invariant
                n == self.entries@.len(),
                k@ == key@,
                i <= n,
                forall|j: int| 0 <= j < i ==> #[trigger] self.pairs()[j].0 != key@,
            decreases n - i,
        {
            if self.entries[i].0 == k {
                return Some(i);
            }
            i = i + 1;
        }
        None
    }

    /// Looks a key up.
    pub fn get(&self, key: &str) -> (r: Option<&V>)
        ensures
            match r {
                Some(v) => self@.contains_key(key@) && *v == self@[key@],
                None => !self@.contains_key(key@),
            },
    {
        proof { use_type_invariant(self); }
        match self.find(key) {
            Some(i) => {
                proof { lemma_value_at(self.pairs(), i as int); }
                Some(&self.entries[i].1)
            },
            None => None,
        }
    }

    /// Inserts or replaces the value of a key. A new key goes after all others;
    /// a key that is already there keeps its place.
    pub fn insert(&mut self, key: String, value: V)
        ensures
            final(self)@ == old(self)@.insert(key@, value),
            old(self)@.contains_key(key@) ==> exists|i: int|
                0 <= i < old(self).pairs().len() && old(self).pairs()[i].0 == key@
                && final(self).pairs() == old(self).pairs().update(i, (key@, value)),
            !old(self)@.contains_key(key@) ==> final(self).pairs() == old(self).pairs().push((key@, value)),
    {
        proof { use_type_invariant(&*self); }
        match self.find(key.as_str()) {
            Some(i) => {
                proof { lemma_update(self.pairs(), i as int, value); }
                let ghost k = key@;
                let mut entries = Vec::new();
                std::mem::swap(&mut entries, &mut self.entries);
                entries.set(i, (key, value));
                assert(entries_pairs(entries@) =~= old(self).pairs().update(i as int, (k, value)));
                self.entries = entries;
            },
            None => {
                proof { lemma_push(self.pairs(), key@, value); }
                let ghost k = key@;
                let mut entries = Vec::new();
                std::mem::swap(&mut entries, &mut self.entries);
                entries.push((key, value));
                assert(entries_pairs(entries@) =~= old(self).pairs().push((k, value)));
                self.entries = entries;
            },
        }
    }
}


impl<V> StrMap<V> {
    /// Whether the key is there.
    pub fn contains_key(&self, key: &str) -> (r: bool)
        ensures
            r == self@.contains_key(key@),
    {
        self.find(key).is_some()
    }

    /// The entry at position `i`, in insertion order.
    pub fn entry(&self, i: usize) -> (r: (&String, &V))
        requires
            i < self.pairs().len(),
        ensures
            r.0@ == self.pairs()[i as int].0,
            *r.1 == self.pairs()[i as int].1,
    {
        let e = &self.entries[i];
        (&e.0, &e.1)
    }

    /// Removes a key; returns the value it had.
    pub fn remove(&mut self, key: &str) -> (r: Option<V>)
        ensures
            final(self)@ == old(self)@.remove(key@),
            match r {
                Some(v) => old(self)@.contains_key(key@) && v == old(self)@[key@],
                None => !old(self)@.contains_key(key@),
            },
            !old(self)@.contains_key(key@) ==> final(self).pairs() == old(self).pairs(),
    {
        proof { use_type_invariant(&*self); }
        match self.find(key) {
            Some(i) => {
                proof {
                    lemma_remove(self.pairs(), i as int);
                    lemma_value_at(self.pairs(), i as int);
                }
                let mut entries = Vec::new();
                std::mem::swap(&mut entries, &mut self.entries);
                let e = entries.remove(i);
                assert(entries_pairs(entries@) =~= old(self).pairs().remove(i as int));
                self.entries = entries;
                Some(e.1)
            },
            None => {
                assert(old(self)@.remove(key@) =~= old(self)@);
                None
            },
        }
    }

    /// Puts `value` in the place of the value of a key that is there and
    /// returns the value it replaces; where the key is not there, changes
    /// nothing and returns `None`.
    pub fn replace(&mut self, key: &str, value: V) -> (r: Option<V>)
        ensures
            old(self)@.contains_key(key@) ==> final(self)@ == old(self)@.insert(key@, value)
                && r == Some(old(self)@[key@]),
            !old(self)@.contains_key(key@) ==> final(self)@ == old(self)@ && r is None,
    {
        proof { use_type_invariant(&*self); }
        match self.find(key) {
            Some(i) => {
                proof {
                    lemma_update(self.pairs(), i as int, value);
                    lemma_value_at(self.pairs(), i as int);
                }
                let mut entries = Vec::new();
                std::mem::swap(&mut entries, &mut self.entries);
                let old_entry = entries.remove(i);
                let k = old_entry.0;
                let ghost kv = k@;
                entries.insert(i, (k, value));
                assert(entries_pairs(entries@) =~= old(self).pairs().update(i as int, (kv, value)));
                self.entries = entries;
                Some(old_entry.1)
            },
            None => None,
        }
    }
}

impl<V: Clone> Clone for StrMap<V> {
    /// A map with the same keys in the same order, each value cloned.
    fn clone(&self) -> (r: Self)
        ensures
            r.pairs().len() == self.pairs().len(),
            forall|i: int| 0 <= i < self.pairs().len() ==> #[trigger] r.pairs()[i].0 == self.pairs()[i].0,
    {
        proof { use_type_invariant(self); }
        let mut entries: Vec<(String, V)> = Vec::new();
        let n = self.entries.len();
        for i in 0..n
            invariant
                n == self.entries@.len(),
                entries@.len() == i,
                pairs_distinct(self.pairs()),
                forall|j: int| 0 <= j < i ==> #[trigger] entries@[j].0@ == self.entries@[j].0@,
        {
            let e = &self.entries[i];
            let k = e.0.clone();
            let v = e.1.clone();
            entries.push((k, v));
        }
        let ghost p = entries_pairs(entries@);
        assert(pairs_distinct(p)) by {
            assert forall|a: int, b: int|
                0 <= a < p.len() && 0 <= b < p.len() && a != b implies #[trigger] p[a].0 != #[trigger] p[b].0 by {
                assert(self.pairs()[a].0 != self.pairs()[b].0);
            }
        }
        StrMap { entries }
    }
}

impl StrMap<String> {
    /// A map with the same entries, in the same order.
    pub fn duplicate(&self) -> (r: Self)
        ensures
            r.pairs() == self.pairs(),
            r@ == self@,
    {
        proof { use_type_invariant(self); }
        let mut entries: Vec<(String, String)> = Vec::new();
        let n = self.entries.len();
        for i in 0..n
            invariant
                n == self.entries@.len(),
                entries@.len() == i,
                pairs_distinct(self.pairs()),
                forall|j: int| 0 <= j < i ==> #[trigger] entries@[j] == self.entries@[j],
        {
            let e = &self.entries[i];
            entries.push((e.0.clone(), e.1.clone()));
        }
        assert(entries@ =~= self.entries@);
        StrMap { entries }
    }
}

impl<V: Copy> StrMap<V> {
    /// A map with the same entries, in the same order.
    pub fn copied(&self) -> (r: Self)
        ensures
            r.pairs() == self.pairs(),
            r@ == self@,
    {
        proof { use_type_invariant(self); }
        let mut entries: Vec<(String, V)> = Vec::new();
        let n = self.entries.len();
        for i in 0..n
            invariant
                n == self.entries@.len(),
                entries@.len() == i,
                pairs_distinct(self.pairs()),
                forall|j: int| 0 <= j < i ==> #[trigger] entries@[j] == self.entries@[j],
        {
            let e = &self.entries[i];
            entries.push((e.0.clone(), e.1));
        }
        assert(entries@ =~= self.entries@);
        StrMap { entries }
    }
}

impl<V> StrMap<V> {
    /// The map is the one that the entries stand for.
    pub proof fn lemma_view_is_pairs_map(&self)
        ensures
            self@ == pairs_to_map(self.pairs()),
    {
    }

    /// A map has finitely many keys.
    pub proof fn lemma_dom_finite(&self)
        ensures
            self@.dom().finite(),
    {
        let keys = self.pairs().map_values(|p: (Seq<char>, V)| p.0);
        assert forall|k: Seq<char>| self@.dom().contains(k) <==> keys.to_set().contains(k) by {
            if self@.dom().contains(k) {
                let i = choose|i: int| 0 <= i < self.pairs().len() && #[trigger] self.pairs()[i].0 == k;
                assert(keys[i] == k);
            }
            if keys.contains(k) {
                let i = choose|i: int| 0 <= i < keys.len() && keys[i] == k;
                assert(self.pairs()[i].0 == k);
            }
        }
        assert(self@.dom() =~= keys.to_set());
        vstd::seq_lib::seq_to_set_is_finite(keys);
    }
}

/// Number of entries whose value satisfies `f`.
pub open spec fn count_pairs_where<V>(p: Seq<(Seq<char>, V)>, f: spec_fn(V) -> bool) -> nat
    decreases p.len(),
{
    if p.len() == 0 {
        0
    } else {
        count_pairs_where(p.drop_last(), f) + if f(p.last().1) {
            1nat
        } else {
            0nat
        }
    }
}

proof fn lemma_split_last<V>(p: Seq<(Seq<char>, V)>)
    requires
        pairs_distinct(p),
        p.len() > 0,
    ensures
        pairs_distinct(p.drop_last()),
        !pairs_has_key(p.drop_last(), p.last().0),
        p == p.drop_last().push(p.last()),
        pairs_to_map(p) == pairs_to_map(p.drop_last()).insert(p.last().0, p.last().1),
{
    let q = p.drop_last();
    assert(pairs_distinct(q)) by {
        assert forall|a: int, b: int|
            0 <= a < q.len() && 0 <= b < q.len() && a != b implies #[trigger] q[a].0 != #[trigger] q[b].0 by {
            assert(q[a] == p[a] && q[b] == p[b]);
        }
    }
    if pairs_has_key(q, p.last().0) {
        let j = choose|j: int| 0 <= j < q.len() && #[trigger] q[j].0 == p.last().0;
        assert(p[j].0 == p[p.len() - 1].0);
    }
    assert(p =~= q.push(p.last()));
    lemma_push(q, p.last().0, p.last().1);
}

/// A list with distinct keys has as many entries as its map has keys.
pub proof fn lemma_pairs_map_len<V>(p: Seq<(Seq<char>, V)>)
    requires
        pairs_distinct(p),
    ensures
        pairs_to_map(p).dom().finite(),
        pairs_to_map(p).dom().len() == p.len(),
    decreases p.len(),
{
    if p.len() == 0 {
        assert(pairs_to_map(p).dom() =~= Set::<Seq<char>>::empty());
    } else {
        let q = p.drop_last();
        lemma_split_last(p);
        lemma_pairs_map_len(q);
        assert(pairs_to_map(p).dom() =~= pairs_to_map(q).dom().insert(p.last().0));
    }
}

/// Counting the entries of a list with distinct keys whose value satisfies
/// `f` counts the keys of its map whose value satisfies `f`.
pub proof fn lemma_count_pairs_where<V>(p: Seq<(Seq<char>, V)>, f: spec_fn(V) -> bool)
    requires
        pairs_distinct(p),
    ensures
        pairs_to_map(p).dom().filter(|k: Seq<char>| f(pairs_to_map(p)[k])).finite(),
        count_pairs_where(p, f) == pairs_to_map(p).dom().filter(
            |k: Seq<char>| f(pairs_to_map(p)[k]),
        ).len(),
    decreases p.len(),
{
    let m = pairs_to_map(p);
    let sp = m.dom().filter(|k: Seq<char>| f(m[k]));
    if p.len() == 0 {
        assert(sp =~= Set::<Seq<char>>::empty());
    } else {
        let q = p.drop_last();
        let mq = pairs_to_map(q);
        let sq = mq.dom().filter(|k: Seq<char>| f(mq[k]));
        lemma_split_last(p);
        lemma_count_pairs_where(q, f);
        let k = p.last().0;
        assert(!sq.contains(k));
        if f(p.last().1) {
            assert(sp =~= sq.insert(k));
        } else {
            assert(sp =~= sq);
        }
    }
}

/// What `insert` leaves behind (its postcondition): `get` of the key gives
/// the value written, `get` of any other key gives what it gave before, a new
/// key adds one entry at the end, and a key that was there keeps its place
/// and the number of entries.
pub proof fn law_insert_then_get<V>(before: StrMap<V>, after: StrMap<V>, k: Seq<char>, v: V, other: Seq<char>)
    requires
        other != k,
        after@ == before@.insert(k, v),
        before@.contains_key(k) ==> exists|i: int|
            0 <= i < before.pairs().len() && before.pairs()[i].0 == k && after.pairs()
                == before.pairs().update(i, (k, v)),
        !before@.contains_key(k) ==> after.pairs() == before.pairs().push((k, v)),
    ensures
        after@.contains_key(k) && after@[k] == v,
        after@.contains_key(other) == before@.contains_key(other),
        before@.contains_key(other) ==> after@[other] == before@[other],
        !before@.contains_key(k) ==> after@.dom().len() == before@.dom().len() + 1 && after.pairs().last()
            == (k, v),
        before@.contains_key(k) ==> after@.dom().len() == before@.dom().len() && after.pairs().len()
            == before.pairs().len(),
{
    before.lemma_dom_finite();
    if before@.contains_key(k) {
        assert(after@.dom() =~= before@.dom());
    } else {
        assert(after@.dom() =~= before@.dom().insert(k));
    }
}

/// What `remove` leaves behind (its postcondition): `get` of the key fails,
/// `get` of any other key gives what it gave before, and a key that was there
/// takes one key away.
pub proof fn law_remove_then_get<V>(before: StrMap<V>, after: StrMap<V>, k: Seq<char>, other: Seq<char>)
    requires
        other != k,
        after@ == before@.remove(k),
    ensures
        !after@.contains_key(k),
        after@.contains_key(other) == before@.contains_key(other),
        before@.contains_key(other) ==> after@[other] == before@[other],
        before@.contains_key(k) ==> after@.dom().len() + 1 == before@.dom().len(),
        !before@.contains_key(k) ==> after@ == before@,
{
    before.lemma_dom_finite();
    if !before@.contains_key(k) {
        assert(after@ =~= before@);
    }
}

} // verus!
