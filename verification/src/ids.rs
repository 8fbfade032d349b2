//! Sets and maps keyed by text, kept in dictionary order of their keys.

use vstd::prelude::*;
use crate::text;
use crate::text::{relation, Relation};

verus! {

/// The keys stand in strictly increasing dictionary order.
pub open spec fn ascending(ids: Seq<Seq<char>>) -> bool {
    forall|i: int, j: int| 0 <= i < j < ids.len() ==> text::precedes(#[trigger] ids[i], #[trigger] ids[j])
}

/// `slot` is where `id` stands among `ids`, or would stand.
pub open spec fn is_slot(ids: Seq<Seq<char>>, id: Seq<char>, slot: int) -> bool {
    &&& 0 <= slot <= ids.len()
    &&& forall|j: int| 0 <= j < slot ==> text::precedes(#[trigger] ids[j], id)
    &&& forall|j: int| slot <= j < ids.len() ==> !text::precedes(#[trigger] ids[j], id)
}

pub open spec fn slot(ids: Seq<Seq<char>>, id: Seq<char>) -> int {
    choose|k: int| is_slot(ids, id, k)
}

/// `ids` with `id` among them.
pub open spec fn added(ids: Seq<Seq<char>>, id: Seq<char>) -> Seq<Seq<char>> {
    if ids.contains(id) {
        ids
    } else {
        ids.insert(slot(ids, id), id)
    }
}

/// The texts that a vector of strings holds.
pub open spec fn texts(v: Seq<String>) -> Seq<Seq<char>> {
    v.map_values(|s: String| s@)
}

pub fn contains_text(v: &Vec<String>, s: &str) -> (r: bool)
    ensures
        r == texts(v@).contains(s@),
{
    let mut i: usize = 0;
    while i < v.len()
        invariant
            i <= v@.len(),
            forall|j: int| 0 <= j < i ==> (#[trigger] v@[j])@ != s@,
        decreases v@.len() - i,
    {
        if text::same(v[i].as_str(), s) {
            assert(texts(v@)[i as int] == s@);
            return true;
        }
        i += 1;
    }
    assert(forall|j: int| 0 <= j < texts(v@).len() ==> texts(v@)[j] == v@[j]@);
    false
}

pub proof fn lemma_slot_unique(ids: Seq<Seq<char>>, id: Seq<char>, k: int)
    requires
        is_slot(ids, id, k),
    ensures
        slot(ids, id) == k,
{
    let m = slot(ids, id);
    assert(is_slot(ids, id, m));
    if m < k {
        assert(text::precedes(ids[m], id));
    } else if k < m {
        assert(text::precedes(ids[k], id));
    }
}

/// Adding keeps the order, and adds `id` and nothing else.
pub proof fn lemma_added(ids: Seq<Seq<char>>, id: Seq<char>, k: int)
    requires
        ascending(ids),
        is_slot(ids, id, k),
    ensures
        ascending(added(ids, id)),
        forall|x: Seq<char>| #[trigger] added(ids, id).contains(x) <==> ids.contains(x) || x == id,
        !ids.contains(id) ==> added(ids, id) == ids.insert(k, id),
{
    lemma_slot_unique(ids, id, k);
    if !ids.contains(id) {
        let t = ids.insert(k, id);
        assert forall|i: int, j: int| 0 <= i < j < t.len() implies text::precedes(
            #[trigger] t[i],
            #[trigger] t[j],
        ) by {
            if j == k {
                assert(t[i] == ids[i]);
            } else if i == k {
                assert(t[j] == ids[j - 1]);
                text::lemma_precedes_total(id, ids[j - 1]);
                assert(ids.contains(ids[j - 1]));
            } else {
                let a = if i < k { i } else { i - 1 };
                let b = if j < k { j } else { j - 1 };
                assert(t[i] == ids[a] && t[j] == ids[b]);
            }
        }
        assert forall|x: Seq<char>| #[trigger] t.contains(x) <==> ids.contains(x) || x == id by {
            assert(t[k] == id);
            if ids.contains(x) {
                let i = choose|i: int| 0 <= i < ids.len() && ids[i] == x;
                assert(t[if i < k { i } else { i + 1 }] == x);
            }
            if t.contains(x) && x != id {
                let i = choose|i: int| 0 <= i < t.len() && t[i] == x;
                assert(ids[if i < k { i } else { i - 1 }] == x);
            }
        }
    }
}

/// Ascending keys are distinct.
pub proof fn lemma_ascending_distinct(ids: Seq<Seq<char>>)
    requires
        ascending(ids),
    ensures
        ids.no_duplicates(),
{
    assert forall|i: int, j: int| 0 <= i < ids.len() && 0 <= j < ids.len() && i != j implies ids[i]
        != ids[j] by {
        if i < j {
            text::lemma_precedes_asymmetric(ids[i], ids[j]);
        } else {
            text::lemma_precedes_asymmetric(ids[j], ids[i]);
        }
    }
}

/// Two ascending sequences with the same members are equal.
pub proof fn lemma_ascending_unique(a: Seq<Seq<char>>, b: Seq<Seq<char>>)
    requires
        ascending(a),
        ascending(b),
        forall|x: Seq<char>| a.contains(x) <==> b.contains(x),
    ensures
        a == b,
    decreases a.len(),
{
    if a.len() == 0 {
        if b.len() > 0 {
            assert(b.contains(b[0]));
        }
        assert(a =~= b);
    } else {
        assert(a.contains(a.last()));
        let i = choose|i: int| 0 <= i < b.len() && b[i] == a.last();
        if i < b.len() - 1 {
            assert(text::precedes(b[i], b.last()));
            assert(b.contains(b.last()));
            let j = choose|j: int| 0 <= j < a.len() && a[j] == b.last();
            if j < a.len() - 1 {
                assert(text::precedes(a[j], a.last()));
                text::lemma_precedes_asymmetric(a.last(), b.last());
            } else {
                text::lemma_precedes_irreflexive(a.last());
            }
        }
        let p = a.drop_last();
        let q = b.drop_last();
        lemma_ascending_distinct(a);
        lemma_ascending_distinct(b);
        assert forall|x: Seq<char>| p.contains(x) <==> q.contains(x) by {
            if p.contains(x) {
                let m = choose|m: int| 0 <= m < p.len() && p[m] == x;
                assert(a[m] == x);
                assert(a.contains(x));
                let n = choose|n: int| 0 <= n < b.len() && b[n] == x;
                assert(n != b.len() - 1);
                assert(q[n] == x);
            }
            if q.contains(x) {
                let m = choose|m: int| 0 <= m < q.len() && q[m] == x;
                assert(b[m] == x);
                assert(b.contains(x));
                let n = choose|n: int| 0 <= n < a.len() && a[n] == x;
                assert(n != a.len() - 1);
                assert(p[n] == x);
            }
        }
        lemma_ascending_unique(p, q);
        assert(a =~= p.push(a.last()));
        assert(b =~= q.push(b.last()));
    }
}

/// A set of texts, in dictionary order.
#[derive(Debug, PartialEq, Eq)]
pub struct IdSet {
    items: Vec<String>,
}

impl View for IdSet {
    type V = Seq<Seq<char>>;

    closed spec fn view(&self) -> Seq<Seq<char>> {
        texts(self.items@)
    }
}

impl IdSet {
    #[verifier::type_invariant]
    spec fn in_order(self) -> bool {
        ascending(texts(self.items@))
    }

    pub fn new() -> (s: IdSet)
        ensures
            s@ == Seq::<Seq<char>>::empty(),
    {
        let s = IdSet { items: Vec::new() };
        assert(s@ =~= Seq::<Seq<char>>::empty());
        s
    }

    pub fn len(&self) -> (n: usize)
        ensures
            n == self@.len(),
            ascending(self@),
    {
        proof {
            use_type_invariant(self);
        }
        self.items.len()
    }

    pub fn at(&self, i: usize) -> (id: &String)
        requires
            i < self@.len(),
        ensures
            id@ == self@[i as int],
    {
        &self.items[i]
    }

    /// The slot of `id`, and whether `id` stands there.
    pub fn locate(&self, id: &str) -> (r: (usize, bool))
        ensures
            is_slot(self@, id@, r.0 as int),
            r.1 == self@.contains(id@),
            r.1 ==> r.0 < self@.len() && self@[r.0 as int] == id@,
            ascending(self@),
    {
        proof {
            use_type_invariant(self);
        }
        let mut i: usize = 0;
        while i < self.items.len()
            invariant
                i <= self.items.len(),
                ascending(self@),
                self@.len() == self.items.len(),
                forall|j: int| 0 <= j < i ==> text::precedes(#[trigger] self@[j], id@),
            decreases self.items.len() - i,
        {
            assert(self@[i as int] == self.items[i as int]@);
            let r = relation(self.items[i].as_str(), id);
            if r == Relation::Same || r == Relation::After {
                proof {
                    self.lemma_past(id@, i as int);
                }
                return (i, r == Relation::Same);
            }
            i += 1;
        }
        proof {
            self.lemma_past(id@, i as int);
        }
        (i, false)
    }

    proof fn lemma_past(&self, id: Seq<char>, i: int)
        requires
            ascending(self@),
            0 <= i <= self@.len(),
            forall|j: int| 0 <= j < i ==> text::precedes(#[trigger] self@[j], id),
            i < self@.len() ==> self@[i] == id || text::precedes(id, self@[i]),
        ensures
            is_slot(self@, id, i),
            self@.contains(id) <==> i < self@.len() && self@[i] == id,
    {
        assert forall|j: int| i <= j < self@.len() implies !text::precedes(#[trigger] self@[j], id) && (
        self@[j] == id ==> i == j) by {
            if i < j {
                assert(text::precedes(self@[i], self@[j]));
                if self@[i] != id {
                    text::lemma_precedes_transitive(id, self@[i], self@[j]);
                }
                text::lemma_precedes_asymmetric(id, self@[j]);
            } else if self@[i] == id {
                text::lemma_precedes_irreflexive(id);
            } else {
                text::lemma_precedes_asymmetric(id, self@[i]);
            }
        }
        if self@.contains(id) {
            let j = choose|j: int| 0 <= j < self@.len() && self@[j] == id;
            if j < i {
                text::lemma_precedes_irreflexive(id);
            }
        }
    }

    pub fn contains(&self, id: &str) -> (found: bool)
        ensures
            found == self@.contains(id@),
    {
        self.locate(id).1
    }

    /// Puts `id` in; says where it stands and whether it is new.
    pub fn insert(&mut self, id: String) -> (r: (usize, bool))
        ensures
            final(self)@ == added(old(self)@, id@),
            r.1 == !old(self)@.contains(id@),
            is_slot(old(self)@, id@, r.0 as int),
            r.0 < final(self)@.len(),
            final(self)@[r.0 as int] == id@,
            ascending(old(self)@),
            ascending(final(self)@),
            forall|x: Seq<char>| #[trigger]
                final(self)@.contains(x) <==> old(self)@.contains(x) || x == id@,
    {
        let (at, found) = self.locate(id.as_str());
        proof {
            lemma_added(self@, id@, at as int);
        }
        if !found {
            let mut items: Vec<String> = Vec::new();
            assert(texts(items@) =~= Seq::<Seq<char>>::empty());
            let ghost before = self@;
            std::mem::swap(&mut items, &mut self.items);
            let ghost held = items@;
            items.insert(at, id);
            assert(texts(items@) =~= before.insert(at as int, id@));
            self.items = items;
        }
        (at, !found)
    }

    /// Takes `id` out; says where it stood.
    pub fn remove(&mut self, id: &str) -> (r: Option<usize>)
        ensures
            r is Some <==> old(self)@.contains(id@),
            r matches Some(i) ==> i < old(self)@.len() && old(self)@[i as int] == id@
                && final(self)@ == old(self)@.remove(i as int),
            r is None ==> final(self)@ == old(self)@,
            ascending(old(self)@),
            ascending(final(self)@),
    {
        let (at, found) = self.locate(id);
        if found {
            let mut items: Vec<String> = Vec::new();
            assert(texts(items@) =~= Seq::<Seq<char>>::empty());
            let ghost before = self@;
            std::mem::swap(&mut items, &mut self.items);
            let _ = items.remove(at);
            assert(texts(items@) =~= before.remove(at as int));
            self.items = items;
            Some(at)
        } else {
            None
        }
    }

    /// The members, in order.
    pub fn into_vec(self) -> (v: Vec<String>)
        ensures
            texts(v@) == self@,
            ascending(self@),
    {
        proof {
            use_type_invariant(&self);
        }
        self.items
    }
}

/// The keys of a sequence of entries.
pub open spec fn keys<A>(s: Seq<(Seq<char>, A)>) -> Seq<Seq<char>> {
    s.map_values(|e: (Seq<char>, A)| e.0)
}

pub open spec fn has<A>(s: Seq<(Seq<char>, A)>, id: Seq<char>) -> bool {
    keys(s).contains(id)
}

/// What the entries hold under `id`.
pub open spec fn value<A>(s: Seq<(Seq<char>, A)>, id: Seq<char>) -> A {
    s[keys(s).index_of(id)].1
}

/// The entries with `v` under `id`, the others as they were.
pub open spec fn with<A>(s: Seq<(Seq<char>, A)>, id: Seq<char>, v: A) -> Seq<(Seq<char>, A)> {
    if has(s, id) {
        s.update(keys(s).index_of(id), (id, v))
    } else {
        s.insert(slot(keys(s), id), (id, v))
    }
}

/// The entries without the one under `id`.
pub open spec fn without<A>(s: Seq<(Seq<char>, A)>, id: Seq<char>) -> Seq<(Seq<char>, A)> {
    if has(s, id) {
        s.remove(keys(s).index_of(id))
    } else {
        s
    }
}

/// The entry at `i` is the one that its key names.
pub proof fn lemma_at<A>(s: Seq<(Seq<char>, A)>, i: int)
    requires
        ascending(keys(s)),
        0 <= i < s.len(),
    ensures
        has(s, s[i].0),
        keys(s).index_of(s[i].0) == i,
        value(s, s[i].0) == s[i].1,
{
    assert(keys(s)[i] == s[i].0);
    lemma_ascending_distinct(keys(s));
    let k = keys(s).index_of(s[i].0);
    assert(keys(s)[k] == keys(s)[i]);
}

/// Writing under `id` is seen under `id` alone, and keeps the order.
pub proof fn lemma_with<A>(s: Seq<(Seq<char>, A)>, id: Seq<char>, v: A)
    requires
        ascending(keys(s)),
    ensures
        ascending(keys(with(s, id, v))),
        keys(with(s, id, v)) == added(keys(s), id),
        has(with(s, id, v), id),
        value(with(s, id, v), id) == v,
        forall|x: Seq<char>| #[trigger] has(with(s, id, v), x) <==> has(s, x) || x == id,
        forall|x: Seq<char>| x != id && has(s, x) ==> #[trigger] value(with(s, id, v), x) == value(s, x),
{
    let k = keys(s);
    let t = with(s, id, v);
    let at = lemma_slot_exists(k, id, k.len() as int);
    lemma_added(k, id, at);
    lemma_slot_unique(k, id, at);
    assert(keys(t) =~= added(k, id));
    let p = if k.contains(id) { k.index_of(id) } else { at };
    assert(t[p] == (id, v));
    lemma_at(t, p);
    assert forall|x: Seq<char>| x != id && has(s, x) implies #[trigger] value(t, x) == value(s, x) by {
        let i = k.index_of(x);
        let j = if k.contains(id) || i < at { i } else { i + 1 };
        assert(k[i] == x);
        assert(t[j] == s[i]);
        lemma_at(t, j);
    }
}

/// Every id has its place.
pub proof fn lemma_slot_exists(ids: Seq<Seq<char>>, id: Seq<char>, n: int) -> (k: int)
    requires
        ascending(ids),
        0 <= n <= ids.len(),
        forall|j: int| n <= j < ids.len() ==> !text::precedes(#[trigger] ids[j], id),
    ensures
        is_slot(ids, id, k),
    decreases n,
{
    if n == 0 {
        0
    } else if text::precedes(ids[n - 1], id) {
        assert forall|j: int| 0 <= j < n implies text::precedes(#[trigger] ids[j], id) by {
            if j < n - 1 {
                assert(text::precedes(ids[j], ids[n - 1]));
                text::lemma_precedes_transitive(ids[j], ids[n - 1], id);
            }
        }
        n
    } else {
        lemma_slot_exists(ids, id, n - 1)
    }
}

/// Taking `id` out takes nothing else out, and keeps the order.
pub proof fn lemma_without<A>(s: Seq<(Seq<char>, A)>, id: Seq<char>)
    requires
        ascending(keys(s)),
    ensures
        ascending(keys(without(s, id))),
        forall|x: Seq<char>| #[trigger] has(without(s, id), x) <==> has(s, x) && x != id,
        forall|x: Seq<char>| x != id && has(s, x) ==> #[trigger] value(without(s, id), x) == value(s, x),
{
    let k = keys(s);
    let t = without(s, id);
    if has(s, id) {
        let p = k.index_of(id);
        assert(keys(t) =~= k.remove(p));
        lemma_ascending_distinct(k);
        assert forall|i: int, j: int| 0 <= i < j < keys(t).len() implies text::precedes(
            #[trigger] keys(t)[i],
            #[trigger] keys(t)[j],
        ) by {
            let a = if i < p { i } else { i + 1 };
            let b = if j < p { j } else { j + 1 };
            assert(keys(t)[i] == k[a] && keys(t)[j] == k[b]);
        }
        assert forall|x: Seq<char>| #[trigger] has(t, x) <==> has(s, x) && x != id by {
            if has(t, x) {
                let i = keys(t).index_of(x);
                let a = if i < p { i } else { i + 1 };
                assert(k[a] == x);
            }
            if has(s, x) && x != id {
                let i = k.index_of(x);
                let a = if i < p { i } else { i - 1 };
                assert(keys(t)[a] == x);
            }
        }
        assert forall|x: Seq<char>| x != id && has(s, x) implies #[trigger] value(t, x) == value(
            s,
            x,
        ) by {
            let i = k.index_of(x);
            let j = if i < p { i } else { i - 1 };
            assert(k[i] == x);
            assert(t[j] == s[i]);
            lemma_at(t, j);
        }
    }
}

/// Leaving entries out keeps the order, and keeps what the others hold.
pub proof fn lemma_filter<A>(s: Seq<(Seq<char>, A)>, keep: spec_fn((Seq<char>, A)) -> bool)
    requires
        ascending(keys(s)),
    ensures
        ascending(keys(s.filter(keep))),
        forall|x: Seq<char>| #[trigger]
            has(s.filter(keep), x) <==> has(s, x) && keep((x, value(s, x))),
        forall|x: Seq<char>|
            has(s.filter(keep), x) ==> #[trigger] value(s.filter(keep), x) == value(s, x),
    decreases s.len(),
{
    let f = s.filter(keep);
    if s.len() == 0 {
        reveal(Seq::filter);
        assert(f =~= s);
    } else {
        let h = s.drop_last();
        let (a, v) = s.last();
        let n = h.len() as int;
        assert(s =~= h.push((a, v)));
        assert(keys(h) =~= keys(s).drop_last());
        assert(ascending(keys(h))) by {
            assert forall|i: int, j: int| 0 <= i < j < keys(h).len() implies text::precedes(
                #[trigger] keys(h)[i],
                #[trigger] keys(h)[j],
            ) by {
                assert(text::precedes(keys(s)[i], keys(s)[j]));
            }
        }
        lemma_filter(h, keep);
        h.lemma_filter_push((a, v), keep);
        let g = h.filter(keep);
        assert forall|i: int| 0 <= i < n implies (#[trigger] keys(h)[i]) != a && text::precedes(
            keys(h)[i],
            a,
        ) by {
            assert(keys(s)[i] == keys(h)[i]);
            assert(keys(s)[n] == a);
            assert(text::precedes(keys(s)[i], keys(s)[n]));
            text::lemma_precedes_irreflexive(a);
        }
        lemma_at(s, n);
        assert forall|x: Seq<char>| #[trigger] has(s, x) <==> has(h, x) || x == a by {
            if has(s, x) {
                let i = keys(s).index_of(x);
                if i < n {
                    assert(keys(h)[i] == x);
                }
            }
            if has(h, x) {
                let i = keys(h).index_of(x);
                assert(keys(s)[i] == x);
            }
        }
        assert(!keys(h).contains(a));
        assert forall|x: Seq<char>| has(h, x) implies #[trigger] value(s, x) == value(h, x) by {
            let i = keys(h).index_of(x);
            assert(s[i] == h[i]);
            lemma_at(s, i);
        }
        if keep((a, v)) {
            assert(f =~= g.push((a, v)));
            let m = g.len() as int;
            assert forall|i: int| 0 <= i < m implies text::precedes(#[trigger] keys(g)[i], a) by {
                assert(has(g, keys(g)[i]));
                let j = keys(h).index_of(keys(g)[i]);
                assert(text::precedes(keys(h)[j], a));
            }
            assert(ascending(keys(f))) by {
                assert forall|i: int, j: int| 0 <= i < j < keys(f).len() implies text::precedes(
                    #[trigger] keys(f)[i],
                    #[trigger] keys(f)[j],
                ) by {
                    assert(keys(f)[i] == keys(g)[i]);
                    if j < m {
                        assert(keys(f)[j] == keys(g)[j]);
                    }
                }
            }
            lemma_at(f, m);
            assert forall|x: Seq<char>| #[trigger] has(f, x) <==> has(g, x) || x == a by {
                if has(f, x) {
                    let i = keys(f).index_of(x);
                    if i < m {
                        assert(keys(g)[i] == x);
                    }
                }
                if has(g, x) {
                    let i = keys(g).index_of(x);
                    assert(keys(f)[i] == x);
                }
            }
            assert forall|x: Seq<char>| has(f, x) implies #[trigger] value(f, x) == value(s, x) by {
                if has(g, x) {
                    let i = keys(g).index_of(x);
                    assert(f[i] == g[i]);
                    lemma_at(f, i);
                    assert(value(g, x) == value(h, x));
                }
            }
        } else {
            assert(f =~= g);
            assert forall|x: Seq<char>| has(f, x) implies #[trigger] value(f, x) == value(s, x) by {
                assert(value(g, x) == value(h, x));
                assert(has(g, x));
            }
        }
        assert forall|x: Seq<char>| #[trigger]
            has(s.filter(keep), x) <==> has(s, x) && keep((x, value(s, x))) by {
            if has(h, x) {
                assert(value(s, x) == value(h, x));
                assert(has(g, x) <==> keep((x, value(h, x))));
            } else {
                assert(has(g, x) ==> has(h, x));
            }
        }
    }
}

/// A map from texts, in dictionary order of its keys.
#[derive(Debug, PartialEq, Eq)]
pub struct IdMap<V> {
    ids: IdSet,
    values: Vec<V>,
}

impl<V: View> View for IdMap<V> {
    type V = Seq<(Seq<char>, V::V)>;

    closed spec fn view(&self) -> Seq<(Seq<char>, V::V)> {
        Seq::new(self.ids@.len(), |i: int| (self.ids@[i], self.values@[i]@))
    }
}

impl<V> IdMap<V> {
    #[verifier::type_invariant]
    spec fn paired(self) -> bool {
        self.ids@.len() == self.values@.len()
    }
}

impl<V: View> IdMap<V> {
    pub fn new() -> (m: IdMap<V>)
        ensures
            m@ == Seq::<(Seq<char>, V::V)>::empty(),
    {
        let m = IdMap { ids: IdSet::new(), values: Vec::new() };
        assert(m@ =~= Seq::<(Seq<char>, V::V)>::empty());
        m
    }

    pub fn len(&self) -> (n: usize)
        ensures
            n == self@.len(),
            ascending(keys(self@)),
    {
        assert(keys(self@) =~= self.ids@);
        self.ids.len()
    }

    pub fn id_at(&self, i: usize) -> (id: &String)
        requires
            i < self@.len(),
        ensures
            id@ == self@[i as int].0,
    {
        self.ids.at(i)
    }

    pub fn at(&self, i: usize) -> (v: &V)
        requires
            i < self@.len(),
        ensures
            v@ == self@[i as int].1,
    {
        proof {
            use_type_invariant(self);
        }
        &self.values[i]
    }

    /// The position of `id`.
    pub fn find(&self, id: &str) -> (r: Option<usize>)
        ensures
            ascending(keys(self@)),
            r is Some <==> has(self@, id@),
            r matches Some(i) ==> i < self@.len() && self@[i as int].0 == id@ && keys(
                self@,
            ).index_of(id@) == i && value(self@, id@) == self@[i as int].1,
    {
        let (at, found) = self.ids.locate(id);
        assert(keys(self@) =~= self.ids@);
        if found {
            proof {
                lemma_at(self@, at as int);
            }
            Some(at)
        } else {
            None
        }
    }

    pub fn contains(&self, id: &str) -> (found: bool)
        ensures
            found == has(self@, id@),
    {
        self.find(id).is_some()
    }

    pub fn get(&self, id: &str) -> (r: Option<&V>)
        ensures
            ascending(keys(self@)),
            r is Some <==> has(self@, id@),
            r matches Some(v) ==> v@ == value(self@, id@),
    {
        match self.find(id) {
            Some(i) => Some(self.at(i)),
            None => None,
        }
    }

    pub fn insert(&mut self, id: String, v: V)
        ensures
            final(self)@ == with(old(self)@, id@, v@),
            ascending(keys(old(self)@)),
            ascending(keys(final(self)@)),
    {
        proof {
            use_type_invariant(&*self);
        }
        let ghost before = self@;
        let mut held: IdMap<V> = IdMap::new();
        std::mem::swap(&mut held, self);
        proof {
            use_type_invariant(&held);
        }
        let IdMap { mut ids, mut values } = held;
        let ghost olds = ids@;
        let ghost ghosts = values@;
        assert(keys(before) =~= olds);
        let (at, new) = ids.insert(id);
        proof {
            lemma_slot_unique(olds, id@, at as int);
        }
        if new {
            values.insert(at, v);
        } else {
            proof {
                lemma_ascending_distinct(olds);
            }
            values.set(at, v);
        }
        *self = IdMap { ids, values };
        assert(self@ =~= with(before, id@, v@));
        assert(keys(self@) =~= self.ids@);
    }

    /// Replaces what stands at `i`; the key stays.
    pub fn set(&mut self, i: usize, v: V)
        requires
            i < old(self)@.len(),
        ensures
            final(self)@ == old(self)@.update(i as int, (old(self)@[i as int].0, v@)),
    {
        proof {
            use_type_invariant(&*self);
        }
        let ghost before = self@;
        let mut held: IdMap<V> = IdMap::new();
        std::mem::swap(&mut held, self);
        let IdMap { ids, mut values } = held;
        values.set(i, v);
        *self = IdMap { ids, values };
        assert(self@ =~= before.update(i as int, (before[i as int].0, v@)));
    }

    pub fn remove(&mut self, id: &str)
        ensures
            final(self)@ == without(old(self)@, id@),
            ascending(keys(old(self)@)),
            ascending(keys(final(self)@)),
    {
        proof {
            use_type_invariant(&*self);
        }
        let ghost before = self@;
        let mut held: IdMap<V> = IdMap::new();
        std::mem::swap(&mut held, self);
        let IdMap { mut ids, mut values } = held;
        let ghost olds = ids@;
        assert(keys(before) =~= olds);
        let at = ids.remove(id);
        if let Some(i) = at {
            proof {
                lemma_ascending_distinct(olds);
            }
            let _ = values.remove(i);
        }
        *self = IdMap { ids, values };
        assert(self@ =~= without(before, id@));
        assert(keys(self@) =~= self.ids@);
    }
}

} // verus!
