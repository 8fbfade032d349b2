//! Service dependencies: what a list of services requires, all the way down.

use vstd::prelude::*;
use crate::config::{Config, ServiceModel, Services};
use crate::ids;
use crate::ids::IdSet;

verus! {

/// Why the dependencies of a service cannot be listed.
#[derive(Debug, PartialEq, Eq)]
pub enum DependencyFault<T> {
    Unknown(T),
    Cycle(T),
}

impl View for DependencyFault<String> {
    type V = DependencyFault<Seq<char>>;

    open spec fn view(&self) -> DependencyFault<Seq<char>> {
        match self {
            DependencyFault::Unknown(id) => DependencyFault::Unknown(id@),
            DependencyFault::Cycle(id) => DependencyFault::Cycle(id@),
        }
    }
}

/// What the service of that id directly requires.
pub open spec fn needs(s: Services, id: Seq<char>) -> Seq<Seq<char>> {
    ids::value(s, id).requires
}

/// The known ids that a walk has not passed.
pub open spec fn unpassed(s: Services, path: Set<Seq<char>>) -> Set<Seq<char>> {
    ids::keys(s).to_set().difference(path)
}

/// The first fault on the way down from `id`, having come along `path`: an id
/// that is not known, or one that the way has already passed. Requirements are
/// taken in the order in which they are written, each with all that it requires
/// before the next.
pub open spec fn walk(s: Services, id: Seq<char>, path: Set<Seq<char>>) -> Option<
    DependencyFault<Seq<char>>,
>
    decreases unpassed(s, path).len(), 0nat,
{
    if !ids::has(s, id) {
        Some(DependencyFault::Unknown(id))
    } else if path.contains(id) {
        Some(DependencyFault::Cycle(id))
    } else {
        proof {
            lemma_unpassed(s, id, path);
        }
        walk_all(s, needs(s, id), path.insert(id))
    }
}

/// The first fault on the ways down from each of `list` in turn.
pub open spec fn walk_all(s: Services, list: Seq<Seq<char>>, path: Set<Seq<char>>) -> Option<
    DependencyFault<Seq<char>>,
>
    decreases unpassed(s, path).len(), list.len() + 1,
{
    if list.len() == 0 {
        None
    } else {
        match walk(s, list.first(), path) {
            Some(fault) => Some(fault),
            None => walk_all(s, list.drop_first(), path),
        }
    }
}

pub proof fn lemma_unpassed(s: Services, id: Seq<char>, path: Set<Seq<char>>)
    requires
        ids::has(s, id),
        !path.contains(id),
    ensures
        unpassed(s, path.insert(id)).len() < unpassed(s, path).len(),
        unpassed(s, path).finite(),
{
    let k = ids::keys(s);
    vstd::seq_lib::seq_to_set_is_finite(k);
    assert(k.to_set().contains(id));
    assert(unpassed(s, path.insert(id)) =~= unpassed(s, path).remove(id));
    vstd::set_lib::lemma_len_difference(k.to_set(), path);
}

/// A way from `ids[0]` to the last of `ids`, each requiring the next.
pub open spec fn is_way(s: Services, way: Seq<Seq<char>>) -> bool {
    &&& way.len() > 0
    &&& forall|i: int|
        0 <= i < way.len() - 1 ==> ids::has(s, #[trigger] way[i]) && needs(s, way[i]).contains(
            way[i + 1],
        )
}

/// `a` requires `b`, itself or through others, or is `b`.
pub open spec fn reaches(s: Services, a: Seq<char>, b: Seq<char>) -> bool {
    exists|way: Seq<Seq<char>>| is_way(s, way) && way.first() == a && way.last() == b
}

/// `x` is among `list`, or one of `list` requires it, itself or through others.
pub open spec fn needed(s: Services, list: Seq<Seq<char>>, x: Seq<char>) -> bool {
    exists|a: Seq<char>| list.contains(a) && reaches(s, a, x)
}

/// `done` holds known services with all that they require, and no way down from
/// one of them meets a fault.
pub open spec fn settled(s: Services, done: Set<Seq<char>>) -> bool {
    &&& forall|x: Seq<char>| #[trigger]
        done.contains(x) ==> ids::has(s, x) && forall|y: Seq<char>| #[trigger]
            needs(s, x).contains(y) ==> done.contains(y)
    &&& forall|x: Seq<char>, path: Set<Seq<char>>|
        done.contains(x) && path.disjoint(done) ==> #[trigger] walk(s, x, path) is None
}

pub proof fn lemma_reaches_self(s: Services, a: Seq<char>)
    ensures
        reaches(s, a, a),
{
    let way = seq![a];
    assert(is_way(s, way));
    assert(way.first() == a && way.last() == a);
}

proof fn lemma_reaches_step(s: Services, a: Seq<char>, b: Seq<char>, c: Seq<char>)
    requires
        ids::has(s, a),
        needs(s, a).contains(b),
        reaches(s, b, c),
    ensures
        reaches(s, a, c),
{
    let way = choose|way: Seq<Seq<char>>| is_way(s, way) && way.first() == b && way.last() == c;
    let longer = seq![a] + way;
    assert forall|i: int| 0 <= i < longer.len() - 1 implies ids::has(s, #[trigger] longer[i])
        && needs(s, longer[i]).contains(longer[i + 1]) by {
        if i > 0 {
            assert(longer[i] == way[i - 1]);
            assert(longer[i + 1] == way[i]);
        }
    }
    assert(is_way(s, longer));
    assert(longer.first() == a && longer.last() == c);
}

/// What a settled set reaches, it holds.
proof fn lemma_settled_way(s: Services, done: Set<Seq<char>>, way: Seq<Seq<char>>)
    requires
        settled(s, done),
        is_way(s, way),
        done.contains(way.first()),
    ensures
        done.contains(way.last()),
    decreases way.len(),
{
    if way.len() > 1 {
        assert(needs(s, way[0]).contains(way[0int + 1]));
        let rest = way.drop_first();
        assert forall|i: int| 0 <= i < rest.len() - 1 implies ids::has(s, #[trigger] rest[i])
            && needs(s, rest[i]).contains(rest[i + 1]) by {
            assert(rest[i] == way[i + 1]);
            assert(rest[i + 1] == way[i + 2]);
        }
        lemma_settled_way(s, done, rest);
    }
}

/// With all that it requires settled, `id` can join.
proof fn lemma_settle(s: Services, done: Set<Seq<char>>, id: Seq<char>)
    requires
        settled(s, done),
        ids::has(s, id),
        !done.contains(id),
        forall|y: Seq<char>| needs(s, id).contains(y) ==> done.contains(y),
    ensures
        settled(s, done.insert(id)),
{
    let more = done.insert(id);
    assert forall|x: Seq<char>, path: Set<Seq<char>>|
        more.contains(x) && path.disjoint(more) implies #[trigger] walk(s, x, path) is None by {
        if x == id {
            assert(!path.contains(id)) by {
                if path.contains(id) {
                    assert(more.contains(id));
                }
            }
            assert(path.insert(id).disjoint(done));
            lemma_walk_settled(s, done, needs(s, id), path.insert(id));
        } else {
            assert(path.disjoint(done));
        }
    }
}

proof fn lemma_walk_settled(
    s: Services,
    done: Set<Seq<char>>,
    list: Seq<Seq<char>>,
    path: Set<Seq<char>>,
)
    requires
        settled(s, done),
        path.disjoint(done),
        forall|y: Seq<char>| list.contains(y) ==> done.contains(y),
    ensures
        walk_all(s, list, path) is None,
    decreases list.len(),
{
    if list.len() > 0 {
        assert(list.contains(list.first()));
        assert(walk(s, list.first(), path) is None);
        assert forall|y: Seq<char>| list.drop_first().contains(y) implies done.contains(y) by {
            let i = choose|i: int| 0 <= i < list.drop_first().len() && list.drop_first()[i] == y;
            assert(list[i + 1] == y);
        }
        lemma_walk_settled(s, done, list.drop_first(), path);
    }
}

/// The walk over the first `i + 1` of a list, where that over the first `i` met
/// no fault.
proof fn lemma_walk_prefix(
    s: Services,
    list: Seq<Seq<char>>,
    path: Set<Seq<char>>,
    i: int,
)
    requires
        0 <= i <= list.len(),
        forall|j: int| 0 <= j < i ==> walk(s, #[trigger] list[j], path) is None,
    ensures
        i < list.len() && walk(s, list[i], path) is Some ==> walk_all(s, list, path) == walk(
            s,
            list[i],
            path,
        ),
        i == list.len() ==> walk_all(s, list, path) is None,
    decreases list.len(),
{
    if i > 0 {
        assert(walk(s, list[0], path) is None);
        let rest = list.drop_first();
        assert forall|j: int| 0 <= j < i - 1 implies walk(s, #[trigger] rest[j], path) is None by {
            assert(rest[j] == list[j + 1]);
        }
        lemma_walk_prefix(s, rest, path, i - 1);
    }
}

impl Config {
    /// Goes down from `id`: what it finds in order joins `complete`.
    fn visit(&self, id: &str, visiting: &mut IdSet, complete: &mut IdSet) -> (r: Result<
        (),
        DependencyFault<String>,
    >)
        requires
            old(visiting)@.to_set().disjoint(old(complete)@.to_set()),
            settled(self.services@, old(complete)@.to_set()),
        ensures
            r matches Err(f) ==> walk(self.services@, id@, old(visiting)@.to_set()) == Some(f@),
            r is Ok ==> {
                &&& walk(self.services@, id@, old(visiting)@.to_set()) is None
                &&& final(visiting)@ == old(visiting)@
                &&& settled(self.services@, final(complete)@.to_set())
                &&& final(visiting)@.to_set().disjoint(final(complete)@.to_set())
                &&& final(complete)@.contains(id@)
                &&& forall|x: Seq<char>|
                    old(complete)@.contains(x) ==> #[trigger] final(complete)@.contains(x)
                &&& forall|x: Seq<char>| #[trigger]
                    final(complete)@.contains(x) ==> old(complete)@.contains(x) || reaches(
                        self.services@,
                        id@,
                        x,
                    )
            },
        decreases unpassed(self.services@, old(visiting)@.to_set()).len(),
    {
        let ghost s = self.services@;
        let ghost before = visiting@;
        let ghost path = visiting@.to_set();
        proof {
            lemma_reaches_self(s, id@);
        }
        let service = match self.services.get(id) {
            Some(service) => service,
            None => {
                return Err(DependencyFault::Unknown(id.to_string()));
            },
        };
        if complete.contains(id) {
            assert(complete@.to_set().contains(id@));
            return Ok(());
        }
        if visiting.contains(id) {
            assert(path.contains(id@));
            return Err(DependencyFault::Cycle(id.to_string()));
        }
        let _ = visiting.insert(id.to_string());
        let ghost inner = visiting@;
        assert(inner.to_set() =~= path.insert(id@));
        proof {
            lemma_unpassed(s, id@, path);
        }
        let ghost list = needs(s, id@);
        let ghost earlier = complete@;
        let mut i: usize = 0;
        while i < service.requires.len()
            invariant
                i <= service.requires@.len(),
                s == self.services@,
                ids::has(s, id@),
                list == needs(s, id@),
                list == ids::texts(service.requires@),
                visiting@ == inner,
                inner.to_set() == path.insert(id@),
                !path.contains(id@),
                visiting@.to_set().disjoint(complete@.to_set()),
                settled(s, complete@.to_set()),
                unpassed(s, inner.to_set()).len() < unpassed(s, path).len(),
                path == old(visiting)@.to_set(),
                forall|j: int| 0 <= j < i ==> walk(s, #[trigger] list[j], inner.to_set()) is None,
                forall|j: int| 0 <= j < i ==> complete@.contains(#[trigger] list[j]),
                forall|x: Seq<char>| earlier.contains(x) ==> #[trigger] complete@.contains(x),
                forall|x: Seq<char>| #[trigger]
                    complete@.contains(x) ==> earlier.contains(x) || reaches(s, id@, x),
            decreases service.requires@.len() - i,
        {
            let ghost held = complete@;
            assert(list[i as int] == service.requires@[i as int]@);
            assert(list.contains(list[i as int]));
            match self.visit(service.requires[i].as_str(), visiting, complete) {
                Ok(()) => {},
                Err(fault) => {
                    proof {
                        lemma_walk_prefix(s, list, inner.to_set(), i as int);
                    }
                    return Err(fault);
                },
            }
            assert forall|x: Seq<char>| #[trigger] complete@.contains(x) implies earlier.contains(x)
                || reaches(s, id@, x) by {
                if !held.contains(x) {
                    lemma_reaches_step(s, id@, list[i as int], x);
                }
            }
            i += 1;
        }
        proof {
            lemma_walk_prefix(s, list, inner.to_set(), i as int);
        }
        let _ = visiting.remove(id);
        let ghost done = complete@.to_set();
        let _ = complete.insert(id.to_string());
        proof {
            assert(!done.contains(id@)) by {
                assert(inner.to_set().contains(id@));
            }
            assert forall|y: Seq<char>| list.contains(y) implies done.contains(y) by {
                let j = choose|j: int| 0 <= j < list.len() && list[j] == y;
                assert(complete@.contains(list[j]));
            }
            lemma_settle(s, done, id@);
            assert(complete@.to_set() =~= done.insert(id@));
            ids::lemma_ascending_distinct(inner);
            ids::lemma_ascending_distinct(visiting@);
            assert forall|x: Seq<char>| visiting@.contains(x) <==> before.contains(x) by {
                lemma_remove_member(inner, id@, x, visiting@);
            }
            ids::lemma_ascending_unique(visiting@, before);
        }
        Ok(())
    }

    /// The services of `requested` with all that they require, in the order of
    /// their ids, each once.
    pub fn expand_requires(&self, requested: &[String]) -> (r: Result<
        Vec<String>,
        DependencyFault<String>,
    >)
        ensures
            match r {
                Ok(list) => {
                    &&& walk_all(self.services@, ids::texts(requested@), Set::empty()) is None
                    &&& ids::ascending(ids::texts(list@))
                    &&& forall|x: Seq<char>| #[trigger]
                        ids::texts(list@).contains(x) <==> needed(
                            self.services@,
                            ids::texts(requested@),
                            x,
                        )
                },
                Err(fault) => walk_all(self.services@, ids::texts(requested@), Set::empty())
                    == Some(fault@),
            },
    {
        let ghost s = self.services@;
        let ghost list = ids::texts(requested@);
        let mut visiting = IdSet::new();
        let mut complete = IdSet::new();
        assert(visiting@.to_set() =~= Set::empty());
        assert(complete@.to_set() =~= Set::empty());
        let mut i: usize = 0;
        while i < requested.len()
            invariant
                i <= requested@.len(),
                s == self.services@,
                list == ids::texts(requested@),
                visiting@.to_set() == Set::<Seq<char>>::empty(),
                settled(s, complete@.to_set()),
                forall|j: int|
                    0 <= j < i ==> walk(s, #[trigger] list[j], Set::empty()) is None,
                forall|j: int| 0 <= j < i ==> complete@.contains(#[trigger] list[j]),
                forall|x: Seq<char>| #[trigger] complete@.contains(x) ==> needed(s, list, x),
            decreases requested@.len() - i,
        {
            let ghost held = complete@;
            assert(list[i as int] == requested@[i as int]@);
            assert(list.contains(list[i as int]));
            match self.visit(requested[i].as_str(), &mut visiting, &mut complete) {
                Ok(()) => {},
                Err(fault) => {
                    proof {
                        lemma_walk_prefix(s, list, Set::empty(), i as int);
                    }
                    return Err(fault);
                },
            }
            i += 1;
        }
        proof {
            lemma_walk_prefix(s, list, Set::empty(), i as int);
            let done = complete@.to_set();
            assert forall|x: Seq<char>| needed(s, list, x) implies complete@.contains(x) by {
                let a = choose|a: Seq<char>| list.contains(a) && reaches(s, a, x);
                let j = choose|j: int| 0 <= j < list.len() && list[j] == a;
                assert(complete@.contains(list[j]));
                let way = choose|way: Seq<Seq<char>>|
                    is_way(s, way) && way.first() == a && way.last() == x;
                assert(done.contains(way.first()));
                lemma_settled_way(s, done, way);
            }
        }
        Ok(complete.into_vec())
    }
}

proof fn lemma_remove_member(
    inner: Seq<Seq<char>>,
    id: Seq<char>,
    x: Seq<char>,
    left: Seq<Seq<char>>,
)
    requires
        inner.no_duplicates(),
        exists|k: int| 0 <= k < inner.len() && inner[k] == id && left == inner.remove(k),
    ensures
        left.contains(x) <==> inner.contains(x) && x != id,
{
    let k = choose|k: int| 0 <= k < inner.len() && inner[k] == id && left == inner.remove(k);
    if left.contains(x) {
        let i = choose|i: int| 0 <= i < left.len() && left[i] == x;
        assert(inner[if i < k { i } else { i + 1 }] == x);
    }
    if inner.contains(x) && x != id {
        let i = choose|i: int| 0 <= i < inner.len() && inner[i] == x;
        assert(left[if i < k { i } else { i - 1 }] == x);
    }
}

/// `a` requires something that reaches `b`.
pub open spec fn leads(s: Services, a: Seq<char>, b: Seq<char>) -> bool {
    ids::has(s, a) && exists|y: Seq<char>| needs(s, a).contains(y) && reaches(s, y, b)
}

/// All that `list` needs is known, and none of it requires itself.
pub open spec fn is_sound(s: Services, list: Seq<Seq<char>>) -> bool {
    forall|x: Seq<char>| #[trigger] needed(s, list, x) ==> ids::has(s, x) && !leads(s, x, x)
}

proof fn lemma_reaches_join(s: Services, a: Seq<char>, b: Seq<char>, c: Seq<char>)
    requires
        reaches(s, a, b),
        reaches(s, b, c),
    ensures
        reaches(s, a, c),
{
    let p = choose|way: Seq<Seq<char>>| is_way(s, way) && way.first() == a && way.last() == b;
    let q = choose|way: Seq<Seq<char>>| is_way(s, way) && way.first() == b && way.last() == c;
    let way = p.drop_last() + q;
    assert forall|i: int| 0 <= i < way.len() - 1 implies ids::has(s, #[trigger] way[i]) && needs(
        s,
        way[i],
    ).contains(way[i + 1]) by {
        let n = p.len() - 1;
        if i < n {
            assert(way[i] == p[i]);
            assert(way[i + 1] == p[i + 1]);
        } else {
            assert(way[i] == q[i - n]);
            assert(way[i + 1] == q[i - n + 1]);
        }
    }
    assert(is_way(s, way));
    assert(way.first() == a && way.last() == c);
}

/// A fault that a walk reports is one.
proof fn lemma_walk_fault(s: Services, id: Seq<char>, path: Set<Seq<char>>)
    requires
        forall|p: Seq<char>| #[trigger] path.contains(p) ==> leads(s, p, id),
    ensures
        walk(s, id, path) matches Some(f) ==> match f {
            DependencyFault::Unknown(y) => reaches(s, id, y) && !ids::has(s, y),
            DependencyFault::Cycle(y) => reaches(s, id, y) && leads(s, y, y),
        },
    decreases unpassed(s, path).len(), 0nat,
{
    lemma_reaches_self(s, id);
    if ids::has(s, id) && !path.contains(id) {
        lemma_unpassed(s, id, path);
        let more = path.insert(id);
        assert forall|p: Seq<char>, l: Seq<char>|
            #![trigger more.contains(p), needs(s, id).contains(l)]
            more.contains(p) && needs(s, id).contains(l) implies leads(s, p, l) by {
            lemma_reaches_self(s, l);
            if p != id {
                let y = choose|y: Seq<char>| needs(s, p).contains(y) && reaches(s, y, id);
                lemma_reaches_step(s, id, l, l);
                lemma_reaches_join(s, y, id, l);
            }
        }
        lemma_walk_all_fault(s, needs(s, id), more);
        if let Some(f) = walk_all(s, needs(s, id), more) {
            let y = match f {
                DependencyFault::Unknown(y) => y,
                DependencyFault::Cycle(y) => y,
            };
            let l = choose|l: Seq<char>| needs(s, id).contains(l) && reaches(s, l, y);
            lemma_reaches_step(s, id, l, y);
        }
    }
}

proof fn lemma_walk_all_fault(s: Services, list: Seq<Seq<char>>, path: Set<Seq<char>>)
    requires
        forall|p: Seq<char>, l: Seq<char>|
            #![trigger path.contains(p), list.contains(l)]
            path.contains(p) && list.contains(l) ==> leads(s, p, l),
    ensures
        walk_all(s, list, path) matches Some(f) ==> match f {
            DependencyFault::Unknown(y) => needed(s, list, y) && !ids::has(s, y),
            DependencyFault::Cycle(y) => needed(s, list, y) && leads(s, y, y),
        },
    decreases unpassed(s, path).len(), list.len() + 1,
{
    if list.len() > 0 {
        assert(list.contains(list.first()));
        lemma_walk_fault(s, list.first(), path);
        let rest = list.drop_first();
        assert forall|l: Seq<char>| #[trigger] rest.contains(l) implies list.contains(l) by {
            let i = choose|i: int| 0 <= i < rest.len() && rest[i] == l;
            assert(list[i + 1] == l);
        }
        lemma_walk_all_fault(s, rest, path);
    }
}

/// A walk without fault has passed none of the ids on a way that it went.
proof fn lemma_way_clear(s: Services, way: Seq<Seq<char>>, path: Set<Seq<char>>)
    requires
        is_way(s, way),
        walk(s, way.first(), path) is None,
    ensures
        ids::has(s, way.last()),
        !path.contains(way.last()),
        forall|i: int| 0 <= i < way.len() - 1 ==> #[trigger] way[i] != way.last(),
    decreases way.len(),
{
    if way.len() > 1 {
        let a = way[0int];
        let b = way[0int + 1];
        assert(ids::has(s, a) && needs(s, a).contains(b));
        let more = path.insert(a);
        assert(walk_all(s, needs(s, a), more) is None);
        lemma_walk_all_none(s, needs(s, a), more, b);
        let rest = way.drop_first();
        assert forall|i: int| 0 <= i < rest.len() - 1 implies ids::has(s, #[trigger] rest[i])
            && needs(s, rest[i]).contains(rest[i + 1]) by {
            assert(rest[i] == way[i + 1]);
            assert(rest[i + 1] == way[i + 2]);
        }
        lemma_way_clear(s, rest, more);
        assert forall|i: int| 0 <= i < way.len() - 1 implies #[trigger] way[i] != way.last() by {
            if i > 0 {
                assert(rest[i - 1] == way[i]);
            }
        }
    }
}

proof fn lemma_walk_all_none(
    s: Services,
    list: Seq<Seq<char>>,
    path: Set<Seq<char>>,
    x: Seq<char>,
)
    requires
        walk_all(s, list, path) is None,
        list.contains(x),
    ensures
        walk(s, x, path) is None,
    decreases list.len(),
{
    if list.first() != x {
        let i = choose|i: int| 0 <= i < list.len() && list[i] == x;
        assert(list.drop_first()[i - 1] == x);
        lemma_walk_all_none(s, list.drop_first(), path, x);
    }
}

/// Requirements can be listed just where all of them are known and none of them
/// requires itself, however far down.
pub proof fn law_expansion_refuses_unknown_and_cyclic(s: Services, list: Seq<Seq<char>>)
    ensures
        walk_all(s, list, Set::empty()) is None <==> is_sound(s, list),
{
    lemma_walk_all_fault(s, list, Set::empty());
    if walk_all(s, list, Set::empty()) is None {
        assert forall|x: Seq<char>| #[trigger] needed(s, list, x) implies ids::has(s, x) && !leads(
            s,
            x,
            x,
        ) by {
            let a = choose|a: Seq<char>| list.contains(a) && reaches(s, a, x);
            lemma_walk_all_none(s, list, Set::empty(), a);
            let p = choose|way: Seq<Seq<char>>|
                is_way(s, way) && way.first() == a && way.last() == x;
            lemma_way_clear(s, p, Set::empty());
            if leads(s, x, x) {
                let y = choose|y: Seq<char>| needs(s, x).contains(y) && reaches(s, y, x);
                let q = choose|way: Seq<Seq<char>>|
                    is_way(s, way) && way.first() == y && way.last() == x;
                let way = p + q;
                assert forall|i: int| 0 <= i < way.len() - 1 implies ids::has(s, #[trigger] way[i])
                    && needs(s, way[i]).contains(way[i + 1]) by {
                    let n = p.len() as int;
                    if i < n - 1 {
                        assert(way[i] == p[i]);
                        assert(way[i + 1] == p[i + 1]);
                    } else if i == n - 1 {
                        assert(way[i] == x);
                        assert(way[i + 1] == y);
                    } else {
                        assert(way[i] == q[i - n]);
                        assert(way[i + 1] == q[i - n + 1]);
                    }
                }
                assert(is_way(s, way));
                assert(way.first() == a);
                lemma_way_clear(s, way, Set::empty());
                assert(way[p.len() - 1] == way.last());
            }
        }
    }
}

/// Listing the requirements of a complete list adds nothing, and meets no fault.
pub proof fn law_expansion_is_idempotent(
    s: Services,
    list: Seq<Seq<char>>,
    full: Seq<Seq<char>>,
)
    requires
        walk_all(s, list, Set::empty()) is None,
        forall|x: Seq<char>| #[trigger] full.contains(x) <==> needed(s, list, x),
    ensures
        walk_all(s, full, Set::empty()) is None,
        forall|x: Seq<char>| #[trigger] needed(s, full, x) <==> full.contains(x),
{
    law_expansion_refuses_unknown_and_cyclic(s, list);
    assert forall|x: Seq<char>| #[trigger] needed(s, full, x) <==> full.contains(x) by {
        if full.contains(x) {
            lemma_reaches_self(s, x);
        }
        if needed(s, full, x) {
            let b = choose|b: Seq<char>| full.contains(b) && reaches(s, b, x);
            assert(needed(s, list, b));
            let a = choose|a: Seq<char>| list.contains(a) && reaches(s, a, b);
            lemma_reaches_join(s, a, b, x);
            assert(needed(s, list, x));
        }
    }
    assert(is_sound(s, full));
    law_expansion_refuses_unknown_and_cyclic(s, full);
}

/// The services of `list` with all that they require, in the order of their ids.
pub open spec fn expansion(s: Services, list: Seq<Seq<char>>) -> Seq<Seq<char>> {
    ids::keys(s).filter(|x: Seq<char>| needed(s, list, x))
}

/// A list in order that holds just what is needed is the expansion.
pub proof fn lemma_expansion(s: Services, list: Seq<Seq<char>>, full: Seq<Seq<char>>)
    requires
        ids::ascending(ids::keys(s)),
        walk_all(s, list, Set::empty()) is None,
        ids::ascending(full),
        forall|x: Seq<char>| #[trigger] full.contains(x) <==> needed(s, list, x),
    ensures
        full == expansion(s, list),
{
    let keep = |e: (Seq<char>, ServiceModel)| needed(s, list, e.0);
    let part = |x: Seq<char>| needed(s, list, x);
    law_expansion_refuses_unknown_and_cyclic(s, list);
    lemma_keys_filter(s, keep, part);
    ids::lemma_filter(s, keep);
    assert forall|x: Seq<char>| expansion(s, list).contains(x) <==> full.contains(x) by {
        assert(ids::has(s.filter(keep), x) <==> ids::has(s, x) && needed(s, list, x));
    }
    ids::lemma_ascending_unique(full, expansion(s, list));
}

proof fn lemma_keys_filter(
    s: Services,
    keep: spec_fn((Seq<char>, ServiceModel)) -> bool,
    part: spec_fn(Seq<char>) -> bool,
)
    requires
        forall|e: (Seq<char>, ServiceModel)| #[trigger] keep(e) == part(e.0),
    ensures
        ids::keys(s.filter(keep)) == ids::keys(s).filter(part),
    decreases s.len(),
{
    if s.len() == 0 {
        reveal(Seq::filter);
        assert(ids::keys(s.filter(keep)) =~= ids::keys(s).filter(part));
    } else {
        let h = s.drop_last();
        lemma_keys_filter(h, keep, part);
        assert(s =~= h.push(s.last()));
        assert(ids::keys(s) =~= ids::keys(h).push(s.last().0));
        h.lemma_filter_push(s.last(), keep);
        ids::keys(h).lemma_filter_push(s.last().0, part);
        assert(ids::keys(s.filter(keep)) =~= ids::keys(s).filter(part));
    }
}

/// What is needed is the least that can be: it holds the listed services, with
/// every known service all that this one is configured to require, and nothing
/// that a set of that kind could do without.
pub proof fn law_needed_is_the_least_closed(
    s: Services,
    list: Seq<Seq<char>>,
    closed: Set<Seq<char>>,
)
    requires
        ids::ascending(ids::keys(s)),
    ensures
        forall|x: Seq<char>| #[trigger] list.contains(x) ==> needed(s, list, x),
        forall|i: int, k: int|
            0 <= i < s.len() && needed(s, list, s[i].0) && 0 <= k < s[i].1.requires.len()
                ==> needed(s, list, #[trigger] s[i].1.requires[k]),
        (forall|x: Seq<char>| #[trigger] list.contains(x) ==> closed.contains(x)) && (forall|
            i: int,
            k: int,
        |
            0 <= i < s.len() && closed.contains(s[i].0) && 0 <= k < s[i].1.requires.len()
                ==> closed.contains(#[trigger] s[i].1.requires[k])) ==> forall|x: Seq<char>|
            #[trigger] needed(s, list, x) ==> closed.contains(x),
{
    assert forall|x: Seq<char>| #[trigger] list.contains(x) implies needed(s, list, x) by {
        lemma_reaches_self(s, x);
    }
    assert forall|i: int, k: int|
        0 <= i < s.len() && needed(s, list, s[i].0) && 0 <= k
            < s[i].1.requires.len() implies needed(s, list, #[trigger] s[i].1.requires[k]) by {
        let x = s[i].0;
        let y = s[i].1.requires[k];
        ids::lemma_at(s, i);
        let a = choose|a: Seq<char>| list.contains(a) && reaches(s, a, x);
        lemma_reaches_self(s, y);
        assert(needs(s, x)[k] == y);
        lemma_reaches_step(s, x, y, y);
        lemma_reaches_join(s, a, x, y);
    }
    if (forall|x: Seq<char>| #[trigger] list.contains(x) ==> closed.contains(x)) && (forall|
        i: int,
        k: int,
    |
        0 <= i < s.len() && closed.contains(s[i].0) && 0 <= k < s[i].1.requires.len()
            ==> closed.contains(#[trigger] s[i].1.requires[k])) {
        assert forall|x: Seq<char>| #[trigger] needed(s, list, x) implies closed.contains(x) by {
            let a = choose|a: Seq<char>| list.contains(a) && reaches(s, a, x);
            let way = choose|way: Seq<Seq<char>>|
                is_way(s, way) && way.first() == a && way.last() == x;
            lemma_closed_way(s, closed, way, way.len() - 1);
        }
    }
}

proof fn lemma_closed_way(s: Services, closed: Set<Seq<char>>, way: Seq<Seq<char>>, n: int)
    requires
        is_way(s, way),
        closed.contains(way.first()),
        forall|i: int, k: int|
            0 <= i < s.len() && closed.contains(s[i].0) && 0 <= k < s[i].1.requires.len()
                ==> closed.contains(#[trigger] s[i].1.requires[k]),
        0 <= n < way.len(),
    ensures
        closed.contains(way[n]),
    decreases n,
{
    if n > 0 {
        lemma_closed_way(s, closed, way, n - 1);
        let x = way[n - 1];
        assert(ids::has(s, x) && needs(s, x).contains(way[n - 1 + 1]));
        let i = ids::keys(s).index_of(x);
        assert(s[i].0 == x);
        let k = choose|k: int| 0 <= k < needs(s, x).len() && needs(s, x)[k] == way[n];
        assert(s[i].1.requires[k] == way[n]);
    }
}

/// A list can be completed just where everything that it needs is configured and
/// nothing of it needs itself; else the fault names a service that is needed and is
/// not configured, or needs itself.
pub proof fn law_fault_names_its_service(s: Services, list: Seq<Seq<char>>)
    requires
        ids::ascending(ids::keys(s)),
    ensures
        match walk_all(s, list, Set::empty()) {
            None => forall|x: Seq<char>| #[trigger]
                needed(s, list, x) ==> exists|i: int|
                    0 <= i < s.len() && (#[trigger] s[i]).0 == x && !needed(s, s[i].1.requires, x),
            Some(DependencyFault::Unknown(x)) => needed(s, list, x) && forall|i: int|
                0 <= i < s.len() ==> (#[trigger] s[i]).0 != x,
            Some(DependencyFault::Cycle(x)) => needed(s, list, x) && exists|i: int|
                0 <= i < s.len() && (#[trigger] s[i]).0 == x && needed(s, s[i].1.requires, x),
        },
{
    lemma_walk_all_fault(s, list, Set::empty());
    law_expansion_refuses_unknown_and_cyclic(s, list);
    match walk_all(s, list, Set::empty()) {
        None => {
            assert forall|x: Seq<char>| #[trigger] needed(s, list, x) implies exists|i: int|
                0 <= i < s.len() && (#[trigger] s[i]).0 == x && !needed(s, s[i].1.requires, x) by {
                let i = ids::keys(s).index_of(x);
                assert(s[i].0 == x);
                if needed(s, s[i].1.requires, x) {
                    assert(leads(s, x, x));
                }
            }
        },
        Some(DependencyFault::Unknown(x)) => {
            assert forall|i: int| 0 <= i < s.len() implies (#[trigger] s[i]).0 != x by {
                assert(ids::keys(s)[i] == s[i].0);
            }
        },
        Some(DependencyFault::Cycle(x)) => {
            let i = ids::keys(s).index_of(x);
            assert(s[i].0 == x);
            let y = choose|y: Seq<char>| needs(s, x).contains(y) && reaches(s, y, x);
            assert(s[i].1.requires.contains(y));
        },
    }
}

/// The completed list holds just what is needed, in the order of the ids.
pub proof fn law_expansion_holds_what_is_needed(s: Services, list: Seq<Seq<char>>)
    requires
        ids::ascending(ids::keys(s)),
        walk_all(s, list, Set::empty()) is None,
    ensures
        ids::ascending(expansion(s, list)),
        forall|x: Seq<char>| #[trigger] expansion(s, list).contains(x) <==> needed(s, list, x),
{
    let keep = |e: (Seq<char>, ServiceModel)| needed(s, list, e.0);
    let part = |x: Seq<char>| needed(s, list, x);
    law_expansion_refuses_unknown_and_cyclic(s, list);
    lemma_keys_filter(s, keep, part);
    ids::lemma_filter(s, keep);
    assert forall|x: Seq<char>| #[trigger] expansion(s, list).contains(x) <==> needed(
        s,
        list,
        x,
    ) by {
        if needed(s, list, x) {
            assert(ids::has(s, x));
            let k = ids::keys(s).index_of(x);
            ids::lemma_at(s, k);
        }
        assert(ids::has(s.filter(keep), x) <==> ids::keys(s.filter(keep)).contains(x));
        if expansion(s, list).contains(x) {
            let i = choose|i: int| 0 <= i < expansion(s, list).len() && expansion(s, list)[i] == x;
            ids::keys(s).lemma_filter_pred(part, i);
        }
        if needed(s, list, x) {
            let k = ids::keys(s).index_of(x);
            ids::keys(s).lemma_filter_contains(part, k);
        }
    }
}

/// Lists of the same services need the same.
pub proof fn lemma_needed_same(s: Services, a: Seq<Seq<char>>, b: Seq<Seq<char>>, x: Seq<char>)
    requires
        forall|y: Seq<char>| #[trigger] a.contains(y) <==> b.contains(y),
    ensures
        needed(s, a, x) <==> needed(s, b, x),
{
    if needed(s, a, x) {
        let y = choose|y: Seq<char>| a.contains(y) && reaches(s, y, x);
        assert(b.contains(y));
    }
    if needed(s, b, x) {
        let y = choose|y: Seq<char>| b.contains(y) && reaches(s, y, x);
        assert(a.contains(y));
    }
}

} // verus!
