//! Which service a process belongs to.

use vstd::prelude::*;
use crate::config::{Service, ServiceModel, Services};
use crate::fleet;
use crate::ids;
use crate::ids::{contains_text, IdMap};
use crate::model;
use crate::model::{Class, Owned, Process, ProcessModel};
use crate::path;

verus! {

/// A service and how it was found.
pub type Label = (Seq<char>, Class);

/// The first of the owned services whose process group is `group`.
pub open spec fn owner(owned: Seq<(Seq<char>, Owned)>, group: Option<u32>) -> Option<Seq<char>>
    decreases owned.len(),
{
    if owned.len() == 0 {
        None
    } else if group == Some(owned.first().1.pid) {
        Some(owned.first().0)
    } else {
        owner(owned.drop_first(), group)
    }
}

/// The process runs the executable that the service names, and has each of the
/// arguments that it names.
pub open spec fn fits(s: ServiceModel, p: ProcessModel) -> bool {
    &&& s.match_executable is Some
    &&& p.executable is Some
    &&& path::same_path(s.match_executable->0, p.executable->0)
    &&& forall|k: int|
        0 <= k < s.match_args.len() ==> p.args.contains(#[trigger] s.match_args[k])
}

/// The services that the process fits.
pub open spec fn fitting(services: Services, p: ProcessModel) -> Services {
    services.filter(|e: (Seq<char>, ServiceModel)| fits(e.1, p))
}

/// What a process is by itself: a member of an owned process group, or the match
/// of one service and of no other.
pub open spec fn direct(
    services: Services,
    owned: Seq<(Seq<char>, Owned)>,
    p: ProcessModel,
) -> Option<Label> {
    match owner(owned, p.group) {
        Some(id) => Some((id, Class::Managed)),
        None => if fitting(services, p).len() == 1 {
            Some((fitting(services, p)[0].0, Class::Discovered))
        } else {
            None
        },
    }
}

pub open spec fn directs(
    services: Services,
    owned: Seq<(Seq<char>, Owned)>,
    rows: Seq<ProcessModel>,
) -> Seq<Option<Label>> {
    rows.map_values(|p: ProcessModel| direct(services, owned, p))
}

/// The label under `pid` among the first `n` rows: that of the last labelled one.
pub open spec fn standing(
    rows: Seq<ProcessModel>,
    labels: Seq<Option<Label>>,
    pid: u32,
    n: int,
) -> Option<Label>
    decreases n,
{
    if n <= 0 {
        None
    } else if rows[n - 1].pid == pid && labels[n - 1] is Some {
        labels[n - 1]
    } else {
        standing(rows, labels, pid, n - 1)
    }
}

/// The label of the row at `i` after one round: its own, or else its parent's.
pub open spec fn passed_on(
    rows: Seq<ProcessModel>,
    labels: Seq<Option<Label>>,
    i: int,
) -> Option<Label> {
    if labels[i] is Some {
        labels[i]
    } else {
        match rows[i].parent {
            Some(p) => standing(rows, labels, p, rows.len() as int),
            None => None,
        }
    }
}

/// One round: every process without a label takes that of its parent.
pub open spec fn round(rows: Seq<ProcessModel>, labels: Seq<Option<Label>>) -> Seq<Option<Label>> {
    Seq::new(rows.len(), |i: int| passed_on(rows, labels, i))
}

pub open spec fn rounds(
    rows: Seq<ProcessModel>,
    labels: Seq<Option<Label>>,
    k: nat,
) -> Seq<Option<Label>>
    decreases k,
{
    if k == 0 {
        labels
    } else {
        round(rows, rounds(rows, labels, (k - 1) as nat))
    }
}

/// The labels of all processes: as many rounds as there are processes.
pub open spec fn labels(
    services: Services,
    owned: Seq<(Seq<char>, Owned)>,
    rows: Seq<ProcessModel>,
) -> Seq<Option<Label>> {
    rounds(rows, directs(services, owned, rows), rows.len())
}

/// A process with its label written in.
pub open spec fn placed(p: ProcessModel, label: Option<Label>) -> ProcessModel {
    ProcessModel {
        service: match label {
            Some(l) => Some(l.0),
            None => None,
        },
        class: match label {
            Some(l) => l.1,
            None => Class::Unknown,
        },
        ..p
    }
}

/// The rows, in their order, with their labels written in.
pub open spec fn attributed(
    services: Services,
    owned: Seq<(Seq<char>, Owned)>,
    rows: Seq<ProcessModel>,
) -> Seq<ProcessModel> {
    Seq::new(rows.len(), |i: int| placed(rows[i], labels(services, owned, rows)[i]))
}

/// The rows that use `ram` bytes, in their order.
pub open spec fn weighing(rows: Seq<ProcessModel>, ram: u64) -> Seq<ProcessModel> {
    rows.filter(|p: ProcessModel| p.ram_bytes == ram)
}

/// `out` has the rows by memory, largest first, and equal ones in their order.
pub open spec fn is_ranked(out: Seq<ProcessModel>, rows: Seq<ProcessModel>) -> bool {
    &&& forall|i: int, j: int|
        0 <= i < j < out.len() ==> (#[trigger] out[i]).ram_bytes >= (#[trigger] out[j]).ram_bytes
    &&& forall|ram: u64| #[trigger] weighing(out, ram) == weighing(rows, ram)
}

/// Every process that is said to be of a service is said to be of one of these.
pub open spec fn all_known(services: Services, rows: Seq<ProcessModel>) -> bool {
    forall|k: int|
        0 <= k < rows.len() && (#[trigger] rows[k]).service is Some ==> ids::has(
            services,
            rows[k].service->0,
        )
}

/// What a vector of labels says.
spec fn said(v: Seq<Option<(String, Class)>>) -> Seq<Option<Label>> {
    v.map_values(
        |l: Option<(String, Class)>|
            match l {
                Some(x) => Some((x.0@, x.1)),
                None => None,
            },
    )
}

fn process_fits(s: &Service, p: &Process) -> (r: bool)
    ensures
        r == fits(s@, p@),
{
    match (&s.match_executable, &p.executable) {
        (Some(a), Some(b)) => {
            if !path::paths_match(a.as_str(), b.as_str()) {
                return false;
            }
        },
        _ => {
            return false;
        },
    }
    let mut k: usize = 0;
    while k < s.match_args.len()
        invariant
            k <= s.match_args@.len(),
            forall|j: int| 0 <= j < k ==> p@.args.contains(#[trigger] s@.match_args[j]),
        decreases s.match_args@.len() - k,
    {
        assert(s@.match_args[k as int] == s.match_args@[k as int]@);
        if !contains_text(&p.args, s.match_args[k].as_str()) {
            return false;
        }
        k += 1;
    }
    true
}

fn group_owner(owned: &IdMap<Owned>, group: Option<u32>) -> (r: Option<String>)
    ensures
        match r {
            Some(id) => owner(owned@, group) == Some(id@),
            None => owner(owned@, group) is None,
        },
{
    let g: u32 = match group {
        Some(g) => g,
        None => {
            proof {
                lemma_owner_from(owned@, group, owned@.len() as int);
            }
            return None;
        },
    };
    let n: usize = owned.len();
    let mut i: usize = 0;
    while i < n
        invariant
            i <= n,
            n == owned@.len(),
            group == Some(g),
            forall|j: int| 0 <= j < i ==> Some((#[trigger] owned@[j]).1.pid) != group,
        decreases n - i,
    {
        if owned.at(i).pid == g {
            proof {
                lemma_owner_from(owned@, group, i as int);
            }
            return Some(owned.id_at(i).clone());
        }
        i += 1;
    }
    proof {
        lemma_owner_from(owned@, group, i as int);
    }
    None
}

proof fn lemma_owner_from(owned: Seq<(Seq<char>, Owned)>, group: Option<u32>, i: int)
    requires
        0 <= i <= owned.len(),
        forall|j: int| 0 <= j < i ==> Some((#[trigger] owned[j]).1.pid) != group,
    ensures
        i < owned.len() && Some(owned[i].1.pid) == group ==> owner(owned, group) == Some(owned[i].0),
        i == owned.len() ==> owner(owned, group) is None,
    decreases owned.len(),
{
    if i > 0 {
        assert(Some(owned[0].1.pid) != group);
        let rest = owned.drop_first();
        assert forall|j: int| 0 <= j < i - 1 implies Some((#[trigger] rest[j]).1.pid) != group by {
            assert(rest[j] == owned[j + 1]);
        }
        lemma_owner_from(rest, group, i - 1);
    }
}

/// The label of a process by itself.
fn direct_label(services: &IdMap<Service>, owned: &IdMap<Owned>, p: &Process) -> (r: Option<
    (String, Class),
>)
    ensures
        match r {
            Some(l) => direct(services@, owned@, p@) == Some((l.0@, l.1)),
            None => direct(services@, owned@, p@) is None,
        },
{
    if let Some(id) = group_owner(owned, p.group) {
        return Some((id, Class::Managed));
    }
    let n: usize = services.len();
    let mut count: usize = 0;
    let mut found: usize = 0;
    let mut i: usize = 0;
    assert(fitting(services@.take(0), p@).len() == 0) by {
        reveal(Seq::filter);
    }
    while i < n
        invariant
            i <= n,
            n == services@.len(),
            count <= i,
            count == fitting(services@.take(i as int), p@).len(),
            count >= 1 ==> found < n && services@[found as int] == fitting(
                services@.take(i as int),
                p@,
            )[0],
        decreases n - i,
    {
        proof {
            assert(services@.take(i + 1) =~= services@.take(i as int).push(services@[i as int]));
            services@.take(i as int).lemma_filter_push(
                services@[i as int],
                |e: (Seq<char>, ServiceModel)| fits(e.1, p@),
            );
        }
        if process_fits(services.at(i), p) {
            if count == 0 {
                found = i;
            }
            count += 1;
        }
        i += 1;
    }
    assert(services@.take(n as int) =~= services@);
    if count == 1 {
        Some((services.id_at(found).clone(), Class::Discovered))
    } else {
        None
    }
}

/// The label under `pid`.
fn standing_label(rows: &Vec<Process>, given: &Vec<Option<(String, Class)>>, pid: u32) -> (r:
    Option<usize>)
    requires
        rows@.len() == given@.len(),
    ensures
        match r {
            Some(k) => k < given@.len() && given@[k as int] is Some && standing(
                model::table(rows@),
                said(given@),
                pid,
                rows@.len() as int,
            ) == said(given@)[k as int],
            None => standing(model::table(rows@), said(given@), pid, rows@.len() as int) is None,
        },
{
    let mut n: usize = rows.len();
    while n > 0
        invariant
            n <= rows@.len() == given@.len(),
            standing(model::table(rows@), said(given@), pid, rows@.len() as int) == standing(
                model::table(rows@),
                said(given@),
                pid,
                n as int,
            ),
        decreases n,
    {
        assert(model::table(rows@)[n - 1].pid == rows@[n - 1].pid);
        if rows[n - 1].pid == pid && given[n - 1].is_some() {
            return Some(n - 1);
        }
        n -= 1;
    }
    None
}

/// One round; says whether a process took a label.
fn pass_on(rows: &Vec<Process>, given: &Vec<Option<(String, Class)>>) -> (r: (
    Vec<Option<(String, Class)>>,
    bool,
))
    requires
        rows@.len() == given@.len(),
    ensures
        r.0@.len() == rows@.len(),
        said(r.0@) == round(model::table(rows@), said(given@)),
        !r.1 ==> said(r.0@) == said(given@),
{
    let mut out: Vec<Option<(String, Class)>> = Vec::new();
    let mut changed = false;
    let mut i: usize = 0;
    while i < rows.len()
        invariant
            i <= rows@.len() == given@.len(),
            out@.len() == i,
            said(out@) == round(model::table(rows@), said(given@)).take(i as int),
            !changed ==> said(out@) == said(given@).take(i as int),
        decreases rows@.len() - i,
    {
        let ghost all = round(model::table(rows@), said(given@));
        assert(all[i as int] == passed_on(model::table(rows@), said(given@), i as int));
        assert(model::table(rows@)[i as int].parent == rows@[i as int].parent);
        let label: Option<(String, Class)> = match &given[i] {
            Some(l) => Some((l.0.clone(), l.1)),
            None => match rows[i].parent {
                Some(p) => match standing_label(rows, given, p) {
                    Some(k) => {
                        changed = true;
                        match &given[k] {
                            Some(l) => Some((l.0.clone(), l.1)),
                            None => None,
                        }
                    },
                    None => None,
                },
                None => None,
            },
        };
        out.push(label);
        assert(said(out@) =~= all.take(i + 1));
        if !changed {
            assert(said(out@) =~= said(given@).take(i + 1));
        }
        i += 1;
    }
    assert(said(out@) =~= round(model::table(rows@), said(given@)));
    if !changed {
        assert(said(out@) =~= said(given@));
    }
    (out, changed)
}

/// A round that changes nothing ends the rounds.
proof fn lemma_still(rows: Seq<ProcessModel>, start: Seq<Option<Label>>, k: nat, n: nat)
    requires
        round(rows, rounds(rows, start, k)) == rounds(rows, start, k),
        k <= n,
    ensures
        rounds(rows, start, n) == rounds(rows, start, k),
    decreases n - k,
{
    if k < n {
        lemma_still(rows, start, k, (n - 1) as nat);
    }
}

/// Puts `p` behind all rows that use as much memory or more.
fn rank(out: &mut Vec<Process>, p: Process)
    requires
        is_ranked(model::table(old(out)@), model::table(old(out)@)),
    ensures
        final(out)@.len() == old(out)@.len() + 1,
        is_ranked(model::table(final(out)@), model::table(old(out)@).push(p@)),
{
    let ghost rows = model::table(out@);
    let mut k: usize = 0;
    while k < out.len() && out[k].ram_bytes >= p.ram_bytes
        invariant
            k <= out@.len(),
            out@ == old(out)@,
            forall|j: int| 0 <= j < k ==> (#[trigger] out@[j]).ram_bytes >= p.ram_bytes,
        decreases out@.len() - k,
    {
        k += 1;
    }
    out.insert(k, p);
    proof {
        assert(model::table(out@) =~= rows.insert(k as int, p@));
        assert(forall|j: int| 0 <= j < rows.len() ==> rows[j].ram_bytes == old(out)@[j].ram_bytes);
        lemma_rank(rows, p@, k as int);
    }
}

proof fn lemma_rank(rows: Seq<ProcessModel>, p: ProcessModel, k: int)
    requires
        is_ranked(rows, rows),
        0 <= k <= rows.len(),
        forall|j: int| 0 <= j < k ==> (#[trigger] rows[j]).ram_bytes >= p.ram_bytes,
        k < rows.len() ==> rows[k].ram_bytes < p.ram_bytes,
    ensures
        is_ranked(rows.insert(k, p), rows.push(p)),
{
    let t = rows.insert(k, p);
    let a = rows.take(k);
    let b = rows.skip(k);
    assert(rows =~= a + b);
    assert(t =~= a.push(p) + b);
    assert forall|j: int| 0 <= j < b.len() implies (#[trigger] b[j]).ram_bytes < p.ram_bytes by {
        assert(b[j] == rows[k + j]);
    }
    assert forall|ram: u64| #[trigger] weighing(t, ram) == weighing(rows.push(p), ram) by {
        let f = |q: ProcessModel| q.ram_bytes == ram;
        Seq::filter_distributes_over_add(a.push(p), b, f);
        Seq::filter_distributes_over_add(a, b, f);
        a.lemma_filter_push(p, f);
        rows.lemma_filter_push(p, f);
        if p.ram_bytes == ram {
            assert(b.all(|x: ProcessModel| !f(x)));
            b.lemma_all_neg_filter_empty(f);
            assert(b.filter(f) =~= Seq::<ProcessModel>::empty());
            assert(a.filter(f).push(p) + b.filter(f) =~= (a.filter(f) + b.filter(f)).push(p));
        }
    }
    assert forall|i: int, j: int| 0 <= i < j < t.len() implies (#[trigger] t[i]).ram_bytes >= (
    #[trigger] t[j]).ram_bytes by {
        if i < k {
            assert(t[i] == rows[i]);
        }
        if j > k {
            assert(t[j] == rows[j - 1]);
            assert(b[j - 1 - k] == rows[j - 1]);
        }
    }
}

/// Each process with the service that it belongs to, by memory, largest first.
pub fn attribute(
    services: &IdMap<Service>,
    owned: &IdMap<Owned>,
    rows: Vec<Process>,
) -> (out: Vec<Process>)
    ensures
        out@.len() == rows@.len(),
        is_ranked(model::table(out@), attributed(services@, owned@, model::table(rows@))),
{
    let ghost t = model::table(rows@);
    let ghost start = directs(services@, owned@, t);
    let n: usize = rows.len();
    let mut given: Vec<Option<(String, Class)>> = Vec::new();
    let mut i: usize = 0;
    while i < n
        invariant
            i <= n == rows@.len(),
            t == model::table(rows@),
            start == directs(services@, owned@, t),
            given@.len() == i,
            said(given@) == start.take(i as int),
        decreases n - i,
    {
        given.push(direct_label(services, owned, &rows[i]));
        assert(start[i as int] == direct(services@, owned@, rows@[i as int]@));
        assert(said(given@) =~= start.take(i + 1));
        i += 1;
    }
    assert(said(given@) =~= start);
    let mut k: usize = 0;
    let mut going = true;
    while k < n && going
        invariant
            k <= n == rows@.len(),
            t == model::table(rows@),
            given@.len() == n,
            said(given@) == rounds(t, start, k as nat),
            !going ==> round(t, said(given@)) == said(given@),
        decreases n - k,
    {
        let (next, changed) = pass_on(&rows, &given);
        given = next;
        going = changed;
        k += 1;
    }
    proof {
        lemma_still_or_done(t, start, k as nat, n as nat);
    }
    let ghost all = labels(services@, owned@, t);
    assert(said(given@) == all);
    let ghost want = attributed(services@, owned@, t);
    let mut out: Vec<Process> = Vec::new();
    assert(model::table(out@) =~= want.take(0));
    for p in it: rows
        invariant
            it.seq().len() == n,
            model::table(it.seq()) == t,
            t.len() == n,
            given@.len() == n,
            said(given@) == all,
            all == labels(services@, owned@, t),
            want == attributed(services@, owned@, t),
            out@.len() == it.index(),
            is_ranked(model::table(out@), want.take(it.index() as int)),
    {
        let i: usize = out.len();
        assert(t[i as int] == p@);
        assert(said(given@)[i as int] == all[i as int]);
        let (service, class): (Option<String>, Class) = match &given[i] {
            Some(l) => (Some(l.0.clone()), l.1),
            None => (None, Class::Unknown),
        };
        let q = Process { service, class, ..p };
        assert(q@ == want[i as int]);
        let ghost held = model::table(out@);
        rank(&mut out, q);
        proof {
            assert(want.take(i + 1) =~= want.take(i as int).push(q@));
            assert forall|ram: u64| #[trigger] weighing(model::table(out@), ram) == weighing(
                want.take(i + 1),
                ram,
            ) by {
                let f = |x: ProcessModel| x.ram_bytes == ram;
                held.lemma_filter_push(q@, f);
                want.take(i as int).lemma_filter_push(q@, f);
                assert(weighing(held, ram) == weighing(want.take(i as int), ram));
                assert(weighing(model::table(out@), ram) == weighing(held.push(q@), ram));
            }
        }
    }
    assert(want.take(n as int) =~= want);
    out
}

proof fn lemma_still_or_done(
    rows: Seq<ProcessModel>,
    start: Seq<Option<Label>>,
    k: nat,
    n: nat,
)
    requires
        k <= n,
        k == n || round(rows, rounds(rows, start, k)) == rounds(rows, start, k),
    ensures
        rounds(rows, start, n) == rounds(rows, start, k),
{
    if k < n {
        lemma_still(rows, start, k, n);
    }
}

/// How many labels there are.
spec fn count(l: Seq<Option<Label>>) -> nat
    decreases l.len(),
{
    if l.len() == 0 {
        0
    } else {
        count(l.drop_last()) + if l.last() is Some {
            1nat
        } else {
            0
        }
    }
}

/// Labels are only added: then there are more, or they are the same.
proof fn lemma_count(a: Seq<Option<Label>>, b: Seq<Option<Label>>)
    requires
        a.len() == b.len(),
        forall|i: int| 0 <= i < a.len() && (#[trigger] a[i]) is Some ==> b[i] == a[i],
    ensures
        count(a) <= count(b) <= b.len(),
        count(a) == count(b) ==> a == b,
    decreases a.len(),
{
    if a.len() > 0 {
        let p = a.drop_last();
        let q = b.drop_last();
        assert forall|i: int| 0 <= i < p.len() && (#[trigger] p[i]) is Some implies q[i] == p[i] by {
            assert(a[i] is Some);
        }
        lemma_count(p, q);
        assert(a.last() == a[a.len() - 1]);
        if count(a) == count(b) {
            assert(a =~= p.push(a.last()));
            assert(b =~= q.push(b.last()));
        }
    } else {
        assert(a =~= b);
    }
}

proof fn lemma_rounds_len(rows: Seq<ProcessModel>, start: Seq<Option<Label>>, k: nat)
    requires
        start.len() == rows.len(),
    ensures
        rounds(rows, start, k).len() == rows.len(),
    decreases k,
{
    if k > 0 {
        lemma_rounds_len(rows, start, (k - 1) as nat);
    }
}

/// A label, once given, stays.
proof fn lemma_rounds_keep(rows: Seq<ProcessModel>, start: Seq<Option<Label>>, k: nat, i: int)
    requires
        start.len() == rows.len(),
        0 <= i < rows.len(),
        start[i] is Some,
    ensures
        rounds(rows, start, k)[i] == start[i],
    decreases k,
{
    if k > 0 {
        lemma_rounds_keep(rows, start, (k - 1) as nat, i);
    }
}

/// After `k` rounds nothing changes any more, or `k` labels have been added.
proof fn lemma_rounds_grow(rows: Seq<ProcessModel>, start: Seq<Option<Label>>, k: nat)
    requires
        start.len() == rows.len(),
    ensures
        round(rows, rounds(rows, start, k)) == rounds(rows, start, k) || count(
            rounds(rows, start, k + 1),
        ) >= k + 1,
    decreases k,
{
    let now = rounds(rows, start, k);
    let next = round(rows, now);
    lemma_rounds_len(rows, start, k);
    assert(rounds(rows, start, k + 1) == next);
    lemma_count(now, next);
    if k > 0 {
        lemma_rounds_grow(rows, start, (k - 1) as nat);
        if round(rows, rounds(rows, start, (k - 1) as nat)) == rounds(
            rows,
            start,
            (k - 1) as nat,
        ) {
            assert(now == rounds(rows, start, (k - 1) as nat));
        }
    }
}

/// Where each label comes from after `k` rounds.
proof fn lemma_rounds_origin(rows: Seq<ProcessModel>, start: Seq<Option<Label>>, k: nat, i: int)
    requires
        start.len() == rows.len(),
        0 <= i < rows.len(),
        rounds(rows, start, k)[i] is Some,
    ensures
        exists|j: int| 0 <= j < rows.len() && start[j] == rounds(rows, start, k)[i],
    decreases k,
{
    if k > 0 {
        let before = rounds(rows, start, (k - 1) as nat);
        lemma_rounds_len(rows, start, (k - 1) as nat);
        if before[i] is Some {
            lemma_rounds_origin(rows, start, (k - 1) as nat, i);
        } else {
            let j = lemma_standing(rows, before, rows[i].parent->0, rows.len() as int);
            lemma_rounds_origin(rows, start, (k - 1) as nat, j);
        }
    } else {
        assert(start[i] == rounds(rows, start, k)[i]);
    }
}

/// The row that a standing label is of.
proof fn lemma_standing(
    rows: Seq<ProcessModel>,
    given: Seq<Option<Label>>,
    pid: u32,
    n: int,
) -> (j: int)
    requires
        given.len() == rows.len(),
        0 <= n <= rows.len(),
        standing(rows, given, pid, n) is Some,
    ensures
        0 <= j < n,
        rows[j].pid == pid,
        given[j] == standing(rows, given, pid, n),
    decreases n,
{
    if n <= 0 {
        0
    } else if rows[n - 1].pid == pid && given[n - 1] is Some {
        n - 1
    } else {
        lemma_standing(rows, given, pid, n - 1)
    }
}

/// Labels are complete: one more round would change nothing, so every process
/// whose parent has a label has one too. A process that is labelled by itself
/// keeps that label, and every label is one that some process has by itself.
pub proof fn law_labels_are_complete(
    services: Services,
    owned: Seq<(Seq<char>, Owned)>,
    rows: Seq<ProcessModel>,
)
    ensures
        labels(services, owned, rows).len() == rows.len(),
        round(rows, labels(services, owned, rows)) == labels(services, owned, rows),
        forall|i: int|
            0 <= i < rows.len() && direct(services, owned, #[trigger] rows[i]) is Some ==> labels(
                services,
                owned,
                rows,
            )[i] == direct(services, owned, rows[i]),
        forall|i: int|
            0 <= i < rows.len() && (#[trigger] labels(services, owned, rows)[i]) is Some
                ==> exists|j: int|
                0 <= j < rows.len() && direct(services, owned, #[trigger] rows[j]) == labels(
                    services,
                    owned,
                    rows,
                )[i],
{
    let start = directs(services, owned, rows);
    let n = rows.len();
    lemma_rounds_len(rows, start, n);
    lemma_rounds_len(rows, start, n + 1);
    lemma_rounds_grow(rows, start, n);
    lemma_count(rounds(rows, start, n + 1), rounds(rows, start, n + 1));
    assert forall|i: int|
        0 <= i < rows.len() && direct(services, owned, #[trigger] rows[i]) is Some implies labels(
        services,
        owned,
        rows,
    )[i] == direct(services, owned, rows[i]) by {
        lemma_rounds_keep(rows, start, n, i);
    }
    assert forall|i: int|
        0 <= i < rows.len() && (#[trigger] labels(services, owned, rows)[i]) is Some implies exists|
        j: int,
    |
        0 <= j < rows.len() && direct(services, owned, #[trigger] rows[j]) == labels(
            services,
            owned,
            rows,
        )[i] by {
        lemma_rounds_origin(rows, start, n, i);
        let j = choose|j: int| 0 <= j < rows.len() && start[j] == rounds(rows, start, n)[i];
        assert(direct(services, owned, rows[j]) == start[j]);
    }
}

/// Ranking processes neither adds nor loses any.
pub proof fn lemma_ranked_same(t: Seq<ProcessModel>, rows: Seq<ProcessModel>, p: ProcessModel)
    requires
        is_ranked(t, rows),
    ensures
        t.contains(p) <==> rows.contains(p),
{
    let f = |q: ProcessModel| q.ram_bytes == p.ram_bytes;
    assert(weighing(t, p.ram_bytes) == weighing(rows, p.ram_bytes));
    if t.contains(p) {
        let i = choose|i: int| 0 <= i < t.len() && t[i] == p;
        t.lemma_filter_contains(f, i);
        rows.lemma_filter_contains_rev(f, p);
    }
    if rows.contains(p) {
        let i = choose|i: int| 0 <= i < rows.len() && rows[i] == p;
        rows.lemma_filter_contains(f, i);
        t.lemma_filter_contains_rev(f, p);
    }
}

/// Ranking keeps every process, and as often as it occurs.
pub proof fn law_ranking_keeps_processes(t: Seq<ProcessModel>, rows: Seq<ProcessModel>)
    requires
        is_ranked(t, rows),
    ensures
        t.to_multiset() == rows.to_multiset(),
        t.len() == rows.len(),
{
    broadcast use vstd::seq_lib::group_to_multiset_ensures;

    assert forall|p: ProcessModel| #[trigger]
        t.to_multiset().count(p) == rows.to_multiset().count(p) by {
        lemma_weighing_count(t, p);
        lemma_weighing_count(rows, p);
        assert(weighing(t, p.ram_bytes) == weighing(rows, p.ram_bytes));
    }
    assert(t.to_multiset() =~= rows.to_multiset());
    assert(t.to_multiset().len() == rows.to_multiset().len());
}

proof fn lemma_weighing_count(rows: Seq<ProcessModel>, p: ProcessModel)
    ensures
        weighing(rows, p.ram_bytes).to_multiset().count(p) == rows.to_multiset().count(p),
    decreases rows.len(),
{
    broadcast use vstd::seq_lib::group_to_multiset_ensures;

    if rows.len() == 0 {
        assert(weighing(rows, p.ram_bytes) =~= rows) by {
            reveal(Seq::filter);
        }
    } else {
        let head = rows.drop_last();
        let q = rows.last();
        lemma_weighing_count(head, p);
        assert(rows =~= head.push(q));
        head.lemma_filter_push(q, |x: ProcessModel| x.ram_bytes == p.ram_bytes);
    }
}

/// Who owns a group owns something.
proof fn lemma_owner_owns(owned: Seq<(Seq<char>, Owned)>, group: Option<u32>)
    ensures
        owner(owned, group) is Some ==> ids::has(owned, owner(owned, group)->0),
    decreases owned.len(),
{
    if owned.len() > 0 {
        if group == Some(owned.first().1.pid) {
            assert(ids::keys(owned)[0] == owned.first().0);
        } else {
            lemma_owner_owns(owned.drop_first(), group);
            if owner(owned, group) is Some {
                let rest = ids::keys(owned.drop_first());
                let k = choose|k: int| 0 <= k < rest.len() && rest[k] == owner(owned, group)->0;
                assert(ids::keys(owned)[k + 1] == rest[k]);
            }
        }
    }
}

/// What a process is by itself is a configured service: an owned one where it is
/// managed, and one that it fits where it is discovered.
proof fn lemma_direct_configured(
    services: Services,
    owned: Seq<(Seq<char>, Owned)>,
    p: ProcessModel,
)
    requires
        fleet::all_configured(services, owned),
    ensures
        direct(services, owned, p) matches Some(l) ==> ids::has(services, l.0) && l.1
            != Class::Unknown && (l.1 == Class::Managed ==> ids::has(owned, l.0)),
{
    match owner(owned, p.group) {
        Some(id) => {
            lemma_owner_owns(owned, p.group);
            fleet::lemma_configured(services, owned, id);
        },
        None => {
            let f = fitting(services, p);
            if f.len() == 1 {
                assert(f.contains(f[0]));
                services.lemma_filter_contains_rev(
                    |e: (Seq<char>, ServiceModel)| fits(e.1, p),
                    f[0],
                );
                let k = choose|k: int| 0 <= k < services.len() && services[k] == f[0];
                assert(ids::keys(services)[k] == f[0].0);
            }
        },
    }
}

/// Where what is owned is configured, every process is put down to a configured
/// service or to none: to none just where its class is unknown, and to an owned
/// one where its class is managed. There is one row for every process, which
/// says nothing else than the process itself, and the rows go by memory.
pub proof fn law_processes_are_of_configured_services(
    services: Services,
    owned: Seq<(Seq<char>, Owned)>,
    rows: Seq<ProcessModel>,
    out: Seq<ProcessModel>,
)
    requires
        fleet::all_configured(services, owned),
        is_ranked(out, attributed(services, owned, rows)),
    ensures
        all_known(services, out),
        forall|k: int|
            0 <= k < out.len() ==> ((#[trigger] out[k]).service is None <==> out[k].class
                == Class::Unknown),
        forall|k: int|
            0 <= k < out.len() && (#[trigger] out[k]).class == Class::Managed ==> ids::has(
                owned,
                out[k].service->0,
            ),
        out.to_multiset() == attributed(services, owned, rows).to_multiset(),
        out.len() == rows.len(),
        forall|i: int|
            0 <= i < rows.len() ==> #[trigger] attributed(services, owned, rows)[i] == (
            ProcessModel {
                service: attributed(services, owned, rows)[i].service,
                class: attributed(services, owned, rows)[i].class,
                ..rows[i]
            }),
        forall|i: int, j: int|
            0 <= i < j < out.len() ==> (#[trigger] out[i]).ram_bytes >= (
            #[trigger] out[j]).ram_bytes,
{
    let a = attributed(services, owned, rows);
    let l = labels(services, owned, rows);
    law_labels_are_complete(services, owned, rows);
    law_ranking_keeps_processes(out, a);
    assert forall|k: int| 0 <= k < out.len() implies ((#[trigger] out[k]).service is Some
        ==> ids::has(services, out[k].service->0)) && (out[k].service is None <==> out[k].class
        == Class::Unknown) && (out[k].class == Class::Managed ==> ids::has(
        owned,
        out[k].service->0,
    )) by {
        lemma_ranked_same(out, a, out[k]);
        assert(out.contains(out[k]));
        let i = choose|i: int| 0 <= i < a.len() && a[i] == out[k];
        assert(a[i] == placed(rows[i], l[i]));
        if l[i] is Some {
            let j = choose|j: int|
                0 <= j < rows.len() && direct(services, owned, #[trigger] rows[j]) == l[i];
            lemma_direct_configured(services, owned, rows[j]);
        }
    }
}

/// A process in the group of an owned process is managed, and of the service that
/// this one is owned for; of two such services, of the first.
pub proof fn law_owned_group_decides(
    services: Services,
    owned: Seq<(Seq<char>, Owned)>,
    p: ProcessModel,
    k: int,
)
    requires
        0 <= k < owned.len(),
        p.group == Some(owned[k].1.pid),
        forall|j: int| 0 <= j < k ==> p.group != Some((#[trigger] owned[j]).1.pid),
    ensures
        direct(services, owned, p) == Some((owned[k].0, Class::Managed)),
{
    lemma_first_owner(owned, p.group, k);
}

proof fn lemma_first_owner(owned: Seq<(Seq<char>, Owned)>, group: Option<u32>, k: int)
    requires
        0 <= k < owned.len(),
        group == Some(owned[k].1.pid),
        forall|j: int| 0 <= j < k ==> group != Some((#[trigger] owned[j]).1.pid),
    ensures
        owner(owned, group) == Some(owned[k].0),
    decreases owned.len(),
{
    if k > 0 {
        assert(group != Some(owned[0].1.pid));
        let rest = owned.drop_first();
        assert forall|j: int| 0 <= j < k - 1 implies group != Some((#[trigger] rest[j]).1.pid) by {
            assert(rest[j] == owned[j + 1]);
        }
        lemma_first_owner(rest, group, k - 1);
    }
}

proof fn lemma_no_owner(owned: Seq<(Seq<char>, Owned)>, group: Option<u32>)
    requires
        forall|j: int| 0 <= j < owned.len() ==> group != Some((#[trigger] owned[j]).1.pid),
    ensures
        owner(owned, group) is None,
    decreases owned.len(),
{
    if owned.len() > 0 {
        assert(group != Some(owned[0].1.pid));
        let rest = owned.drop_first();
        assert forall|j: int| 0 <= j < rest.len() implies group != Some(
            (#[trigger] rest[j]).1.pid,
        ) by {
            assert(rest[j] == owned[j + 1]);
        }
        lemma_no_owner(rest, group);
    }
}

/// A process outside every owned group that has the label of a service by itself
/// is discovered: it runs the executable of that service, and has every one of the
/// arguments that the service names.
pub proof fn law_discovered_process_matches(
    services: Services,
    owned: Seq<(Seq<char>, Owned)>,
    p: ProcessModel,
    l: Label,
) -> (i: int)
    requires
        forall|j: int| 0 <= j < owned.len() ==> p.group != Some((#[trigger] owned[j]).1.pid),
        direct(services, owned, p) == Some(l),
    ensures
        l.1 == Class::Discovered,
        0 <= i < services.len(),
        services[i].0 == l.0,
        services[i].1.match_executable matches Some(want) && p.executable matches Some(exe)
            && path::same_path(want, exe),
        forall|k: int|
            0 <= k < services[i].1.match_args.len() ==> p.args.contains(
                #[trigger] services[i].1.match_args[k],
            ),
{
    lemma_no_owner(owned, p.group);
    let f = fitting(services, p);
    let keep = |e: (Seq<char>, ServiceModel)| fits(e.1, p);
    assert(f.contains(f[0]));
    services.lemma_filter_contains_rev(keep, f[0]);
    services.lemma_filter_pred(keep, 0);
    choose|i: int| 0 <= i < services.len() && services[i] == f[0]
}

/// A process outside every owned group that runs the executable of a service with
/// all of its arguments, while with every other service the executable differs or
/// an argument is missing, is discovered as of that service.
pub proof fn law_only_match_is_discovered(
    services: Services,
    owned: Seq<(Seq<char>, Owned)>,
    p: ProcessModel,
    i: int,
)
    requires
        forall|j: int| 0 <= j < owned.len() ==> p.group != Some((#[trigger] owned[j]).1.pid),
        0 <= i < services.len(),
        services[i].1.match_executable matches Some(want) && p.executable matches Some(exe)
            && path::same_path(want, exe),
        forall|k: int|
            0 <= k < services[i].1.match_args.len() ==> p.args.contains(
                #[trigger] services[i].1.match_args[k],
            ),
        forall|j: int|
            0 <= j < services.len() && j != i ==> {
                ||| (#[trigger] services[j]).1.match_executable is None
                ||| !path::same_path(services[j].1.match_executable->0, p.executable->0)
                ||| exists|k: int|
                    0 <= k < services[j].1.match_args.len() && !p.args.contains(
                        #[trigger] services[j].1.match_args[k],
                    )
            },
    ensures
        direct(services, owned, p) == Some((services[i].0, Class::Discovered)),
{
    lemma_no_owner(owned, p.group);
    let keep = |e: (Seq<char>, ServiceModel)| fits(e.1, p);
    assert forall|j: int| 0 <= j < services.len() implies (#[trigger] keep(services[j]) <==> j
        == i) by {}
    lemma_one_kept(services, keep, i);
}

proof fn lemma_one_kept<A>(s: Seq<A>, keep: spec_fn(A) -> bool, i: int)
    requires
        0 <= i < s.len(),
        forall|j: int| 0 <= j < s.len() ==> (#[trigger] keep(s[j]) <==> j == i),
    ensures
        s.filter(keep) == seq![s[i]],
{
    let a = s.take(i);
    let b = s.skip(i + 1);
    assert(s =~= a + seq![s[i]] + b);
    assert forall|j: int| 0 <= j < a.len() implies !keep(#[trigger] a[j]) by {
        assert(a[j] == s[j]);
        assert(!keep(s[j]));
    }
    assert forall|j: int| 0 <= j < b.len() implies !keep(#[trigger] b[j]) by {
        assert(b[j] == s[i + 1 + j]);
        assert(!keep(s[i + 1 + j]));
    }
    lemma_none_kept(a, keep);
    lemma_none_kept(b, keep);
    assert(keep(s[i]));
    a.lemma_filter_push(s[i], keep);
    assert(a.push(s[i]) =~= a + seq![s[i]]);
    lemma_filter_joined(a + seq![s[i]], b, keep);
    assert(s.filter(keep) =~= seq![s[i]]);
}

proof fn lemma_none_kept<A>(s: Seq<A>, keep: spec_fn(A) -> bool)
    requires
        forall|j: int| 0 <= j < s.len() ==> !keep(#[trigger] s[j]),
    ensures
        s.filter(keep) == Seq::<A>::empty(),
{
    if s.filter(keep).len() > 0 {
        let x = s.filter(keep)[0];
        assert(s.filter(keep).contains(x));
        s.lemma_filter_contains_rev(keep, x);
        s.lemma_filter_pred(keep, 0);
        let j = choose|j: int| 0 <= j < s.len() && s[j] == x;
        assert(!keep(s[j]));
    }
    assert(s.filter(keep) =~= Seq::<A>::empty());
}

proof fn lemma_filter_joined<A>(a: Seq<A>, b: Seq<A>, keep: spec_fn(A) -> bool)
    ensures
        (a + b).filter(keep) == a.filter(keep) + b.filter(keep),
    decreases b.len(),
{
    if b.len() == 0 {
        assert(a + b =~= a);
        assert(b.filter(keep) =~= b) by {
            reveal(Seq::filter);
        }
        assert(a.filter(keep) + b =~= a.filter(keep));
    } else {
        let h = b.drop_last();
        lemma_filter_joined(a, h, keep);
        assert(b =~= h.push(b.last()));
        assert(a + b =~= (a + h).push(b.last()));
        h.lemma_filter_push(b.last(), keep);
        (a + h).lemma_filter_push(b.last(), keep);
        assert((a + b).filter(keep) =~= a.filter(keep) + b.filter(keep));
    }
}

/// A process outside every owned group that matches two services is of neither by
/// itself.
pub proof fn law_two_matches_decide_nothing(
    services: Services,
    owned: Seq<(Seq<char>, Owned)>,
    p: ProcessModel,
    i: int,
    j: int,
)
    requires
        forall|k: int| 0 <= k < owned.len() ==> p.group != Some((#[trigger] owned[k]).1.pid),
        0 <= i < j < services.len(),
        p.executable is Some,
        forall|x: int|
            x == i || x == j ==> (#[trigger] services[x]).1.match_executable is Some
                && path::same_path(services[x].1.match_executable->0, p.executable->0) && forall|
                k: int,
            |
                0 <= k < services[x].1.match_args.len() ==> p.args.contains(
                    #[trigger] services[x].1.match_args[k],
                ),
    ensures
        direct(services, owned, p) is None,
{
    lemma_no_owner(owned, p.group);
    let keep = |e: (Seq<char>, ServiceModel)| fits(e.1, p);
    let a = services.take(j);
    let b = services.skip(j);
    assert(services =~= a + b);
    assert(a[i] == services[i] && keep(a[i]));
    assert(b[0] == services[j] && keep(b[0]));
    a.lemma_filter_contains(keep, i);
    b.lemma_filter_contains(keep, 0);
    lemma_filter_joined(a, b, keep);
    assert(a.filter(keep).len() > 0 && b.filter(keep).len() > 0);
}

/// The last of several rows with the number, where only one has it.
proof fn lemma_standing_only(
    rows: Seq<ProcessModel>,
    given: Seq<Option<Label>>,
    j: int,
    n: int,
)
    requires
        given.len() == rows.len(),
        0 <= j < rows.len(),
        0 <= n <= rows.len(),
        forall|a: int| 0 <= a < rows.len() && a != j ==> (#[trigger] rows[a]).pid != rows[j].pid,
    ensures
        standing(rows, given, rows[j].pid, n) == if j < n {
            given[j]
        } else {
            None
        },
    decreases n,
{
    if n > 0 {
        lemma_standing_only(rows, given, j, n - 1);
        if n - 1 != j {
            assert(rows[n - 1].pid != rows[j].pid);
        }
    }
}

proof fn lemma_standing_none(rows: Seq<ProcessModel>, given: Seq<Option<Label>>, pid: u32, n: int)
    requires
        0 <= n <= rows.len(),
        forall|a: int| 0 <= a < rows.len() ==> (#[trigger] rows[a]).pid != pid,
    ensures
        standing(rows, given, pid, n) is None,
    decreases n,
{
    if n > 0 {
        lemma_standing_none(rows, given, pid, n - 1);
        assert(rows[n - 1].pid != pid);
    }
}

/// A process has the service and the class that it has by itself; where it has none
/// by itself, those of its parent, however the parent came by them; and where its
/// parent is not in the table either, none.
#[verifier::rlimit(60)]
#[verifier::spinoff_prover]
pub proof fn law_child_goes_with_its_parent(
    services: Services,
    owned: Seq<(Seq<char>, Owned)>,
    rows: Seq<ProcessModel>,
    i: int,
    j: int,
)
    requires
        0 <= i < rows.len(),
        0 <= j < rows.len(),
        forall|a: int| 0 <= a < rows.len() && a != j ==> (#[trigger] rows[a]).pid != rows[j].pid,
    ensures
        ({
            let all = attributed(services, owned, rows);
            let own = direct(services, owned, rows[i]);
            &&& own matches Some(l) ==> all[i].service == Some(l.0) && all[i].class == l.1
            &&& own is None && rows[i].parent == Some(rows[j].pid) ==> all[i].service
                == all[j].service && all[i].class == all[j].class
            &&& own is None && (rows[i].parent is None || forall|a: int|
                0 <= a < rows.len() ==> Some((#[trigger] rows[a]).pid) != rows[i].parent)
                ==> all[i].service is None && all[i].class == Class::Unknown
        }),
{
    let l = labels(services, owned, rows);
    let start = directs(services, owned, rows);
    law_labels_are_complete(services, owned, rows);
    assert(round(rows, l)[i] == passed_on(rows, l, i));
    lemma_standing_only(rows, l, j, rows.len() as int);
    if direct(services, owned, rows[i]) is None {
        let none = rows[i].parent is None || forall|a: int|
            0 <= a < rows.len() ==> Some((#[trigger] rows[a]).pid) != rows[i].parent;
        if none {
            lemma_unlabelled(rows, start, rows.len(), i);
        } else if rows[i].parent == Some(rows[j].pid) {
            lemma_passed_down(rows, start, rows.len(), i, j);
        }
    }
}

/// Without a parent in the table no label comes.
proof fn lemma_unlabelled(rows: Seq<ProcessModel>, start: Seq<Option<Label>>, k: nat, i: int)
    requires
        start.len() == rows.len(),
        0 <= i < rows.len(),
        start[i] is None,
        rows[i].parent is None || forall|a: int|
            0 <= a < rows.len() ==> Some((#[trigger] rows[a]).pid) != rows[i].parent,
    ensures
        rounds(rows, start, k)[i] is None,
    decreases k,
{
    if k > 0 {
        let before = rounds(rows, start, (k - 1) as nat);
        lemma_unlabelled(rows, start, (k - 1) as nat, i);
        lemma_rounds_len(rows, start, (k - 1) as nat);
        if let Some(p) = rows[i].parent {
            lemma_standing_none(rows, before, p, rows.len() as int);
        }
    }
}

/// The label that is passed down is the parent's.
proof fn lemma_passed_down(
    rows: Seq<ProcessModel>,
    start: Seq<Option<Label>>,
    k: nat,
    i: int,
    j: int,
)
    requires
        start.len() == rows.len(),
        0 <= i < rows.len(),
        0 <= j < rows.len(),
        start[i] is None,
        rows[i].parent == Some(rows[j].pid),
        forall|a: int| 0 <= a < rows.len() && a != j ==> (#[trigger] rows[a]).pid != rows[j].pid,
    ensures
        rounds(rows, start, k)[i] is Some ==> rounds(rows, start, k)[i] == rounds(
            rows,
            start,
            k,
        )[j],
    decreases k,
{
    if k > 0 {
        let before = rounds(rows, start, (k - 1) as nat);
        lemma_passed_down(rows, start, (k - 1) as nat, i, j);
        lemma_rounds_len(rows, start, (k - 1) as nat);
        lemma_standing_only(rows, before, j, rows.len() as int);
    }
}

/// The process before the one at `n` is its child.
pub open spec fn is_link(rows: Seq<ProcessModel>, way: Seq<int>, n: int) -> bool {
    rows[way[n - 1]].parent == Some(rows[way[n]].pid)
}

/// A line of processes, each the child of the next.
pub open spec fn is_descent(rows: Seq<ProcessModel>, way: Seq<int>) -> bool {
    &&& way.len() > 0
    &&& forall|n: int| 0 <= n < way.len() ==> 0 <= #[trigger] way[n] < rows.len()
    &&& forall|n: int| 0 < n < way.len() ==> #[trigger] is_link(rows, way, n)
}

/// Every process that is put down to a service descends from one that is of that
/// service by itself, or is such a one.
#[verifier::rlimit(60)]
#[verifier::spinoff_prover]
pub proof fn law_service_comes_down_from_an_ancestor(
    services: Services,
    owned: Seq<(Seq<char>, Owned)>,
    rows: Seq<ProcessModel>,
    i: int,
) -> (way: Seq<int>)
    requires
        0 <= i < rows.len(),
        attributed(services, owned, rows)[i].service is Some,
    ensures
        is_descent(rows, way),
        way.first() == i,
        direct(services, owned, rows[way.last()]) == Some(
            (
                attributed(services, owned, rows)[i].service->0,
                attributed(services, owned, rows)[i].class,
            ),
        ),
{
    let start = directs(services, owned, rows);
    lemma_descent(rows, start, rows.len(), i)
}

#[verifier::rlimit(60)]
#[verifier::spinoff_prover]
proof fn lemma_descent(
    rows: Seq<ProcessModel>,
    start: Seq<Option<Label>>,
    k: nat,
    i: int,
) -> (way: Seq<int>)
    requires
        start.len() == rows.len(),
        0 <= i < rows.len(),
        rounds(rows, start, k)[i] is Some,
    ensures
        is_descent(rows, way),
        way.first() == i,
        start[way.last()] == rounds(rows, start, k)[i],
    decreases k,
{
    if k == 0 {
        seq![i]
    } else {
        let before = rounds(rows, start, (k - 1) as nat);
        lemma_rounds_len(rows, start, (k - 1) as nat);
        if before[i] is Some {
            lemma_descent(rows, start, (k - 1) as nat, i)
        } else {
            let j = lemma_standing(rows, before, rows[i].parent->0, rows.len() as int);
            let rest = lemma_descent(rows, start, (k - 1) as nat, j);
            let way = seq![i] + rest;
            assert forall|n: int| 0 <= n < way.len() implies 0 <= #[trigger] way[n] < rows.len() by {
                if n > 0 {
                    assert(way[n] == rest[n - 1]);
                }
            }
            assert forall|n: int| 0 < n < way.len() implies #[trigger] is_link(rows, way, n) by {
                assert(way[n] == rest[n - 1]);
                if n > 1 {
                    assert(way[n - 1] == rest[n - 2]);
                    assert(is_link(rows, rest, n - 1));
                }
            }
            assert(way.last() == rest.last());
            way
        }
    }
}

} // verus!
