//! Whether a request can be met as things stand, and what has to be started for
//! it.

use vstd::prelude::*;
use vstd::string::*;
use crate::config::{Mode, ServiceModel};
use crate::depend;
use crate::engine;
use crate::engine::{Engine, EngineModel};
use crate::gate;
use crate::gate::observed;
use crate::ids;
use crate::ids::IdSet;
use crate::json;
use crate::json::{field, list_of, object_of, text, text_list, Json, JsonModel};
use crate::model;
use crate::model::{holding, Job, JobModel, Jobs, Request, RequestModel};
use crate::show;
use crate::show::show_lease;
use crate::sight::{Sight, SightModel};
use crate::text::same;
use crate::views;
use crate::views::{Condition, ServiceView, ServiceViewModel};

verus! {

/// Texts in dictionary order, each once.
pub open spec fn sorted(list: Seq<Seq<char>>) -> Seq<Seq<char>>
    decreases list.len(),
{
    if list.len() == 0 {
        Seq::empty()
    } else {
        ids::added(sorted(list.drop_last()), list.last())
    }
}

/// The same texts in dictionary order, each once.
pub fn sort_texts(list: &Vec<String>) -> (r: Vec<String>)
    ensures
        ids::texts(r@) == sorted(ids::texts(list@)),
{
    let ghost all = ids::texts(list@);
    let mut set = IdSet::new();
    let mut i: usize = 0;
    assert(all.take(0) =~= Seq::<Seq<char>>::empty());
    while i < list.len()
        invariant
            i <= list@.len(),
            all == ids::texts(list@),
            set@ == sorted(all.take(i as int)),
        decreases list@.len() - i,
    {
        assert(all.take(i + 1).drop_last() =~= all.take(i as int));
        assert(all.take(i + 1).last() == list@[i as int]@);
        let _ = set.insert(list[i].clone());
        i += 1;
    }
    assert(all.take(i as int) =~= all);
    set.into_vec()
}

/// The service of that id as it stands.
pub open spec fn stands(e: EngineModel, sight: SightModel, id: Seq<char>) -> ServiceViewModel {
    views::service_view(e, sight, ids::keys(e.config.services).index_of(id))
}

/// The service runs and passes its checks.
pub open spec fn is_up(e: EngineModel, sight: SightModel, id: Seq<char>) -> bool {
    ids::has(e.config.services, id) && stands(e, sight, id).state == Condition::Running
}

/// Nothing runs for the service.
pub open spec fn is_down(e: EngineModel, sight: SightModel, id: Seq<char>) -> bool {
    ids::has(e.config.services, id) && stands(e, sight, id).state == Condition::Stopped
}

/// Nothing runs for the service, and the supervisor may start it.
pub open spec fn is_startable(e: EngineModel, sight: SightModel, id: Seq<char>) -> bool {
    &&& is_down(e, sight, id)
    &&& engine::action_denial(e, id, "start"@) is None
}

/// Those of the services that neither run nor can be started.
pub open spec fn unavailable(e: EngineModel, sight: SightModel, full: Seq<Seq<char>>) -> Seq<
    Seq<char>,
> {
    full.filter(|id: Seq<char>| !is_up(e, sight, id) && !is_startable(e, sight, id))
}

/// Those of the services for which nothing runs.
pub open spec fn to_start(e: EngineModel, sight: SightModel, full: Seq<Seq<char>>) -> Seq<
    Seq<char>,
> {
    full.filter(|id: Seq<char>| is_down(e, sight, id))
}

/// The estimated memory of the services that have to be started.
pub open spec fn startup_memory(e: EngineModel, sight: SightModel, full: Seq<Seq<char>>) -> int
    decreases full.len(),
{
    if full.len() == 0 {
        0
    } else {
        startup_memory(e, sight, full.drop_last()) + if is_startable(e, sight, full.last()) {
            gate::or_zero(ids::value(e.config.services, full.last()).memory_bytes)
        } else {
            0
        }
    }
}

/// The memory that the request takes: its own, and that of the services that
/// have to be started for it.
pub open spec fn required_memory(
    e: EngineModel,
    sight: SightModel,
    r: RequestModel,
    full: Seq<Seq<char>>,
) -> int {
    gate::or_zero(r.memory_bytes) + startup_memory(e, sight, full)
}

/// The service is of the group.
pub open spec fn is_of_group(s: ServiceModel, group: Seq<char>) -> bool {
    s.exclusive_group == Some(group)
}

/// The job holds a service of the group.
pub open spec fn holds_group(e: EngineModel, j: JobModel, group: Seq<char>) -> bool {
    model::is_holding(j.status) && exists|i: int|
        0 <= i < e.config.services.len() && is_of_group(
            (#[trigger] e.config.services[i]).1,
            group,
        ) && depend::needed(e.config.services, j.request.requires, e.config.services[i].0)
}

/// The jobs that hold a service of the group.
pub open spec fn group_holders(e: EngineModel, group: Seq<char>) -> Jobs {
    e.jobs.filter(|j: (Seq<char>, JobModel)| holds_group(e, j.1, group))
}

/// The group of the service, where some job holds a service of that group.
pub open spec fn taken_group(e: EngineModel, id: Seq<char>) -> Option<Seq<char>> {
    match ids::value(e.config.services, id).exclusive_group {
        Some(g) => if ids::has(e.config.services, id) && group_holders(e, g).len() > 0 {
            Some(g)
        } else {
            None
        },
        None => None,
    }
}

/// The group of the first service whose group is taken.
pub open spec fn contended(e: EngineModel, full: Seq<Seq<char>>) -> Option<Seq<char>>
    decreases full.len(),
{
    if full.len() == 0 {
        None
    } else {
        match taken_group(e, full.first()) {
            Some(g) => Some(g),
            None => contended(e, full.drop_first()),
        }
    }
}

pub open spec fn unavailable_fields(
    e: EngineModel,
    sight: SightModel,
    full: Seq<Seq<char>>,
) -> show::Fields {
    seq![
        ("status"@, JsonModel::Text("BLOCKED_SERVICE"@)),
        ("unavailable"@, JsonModel::List(json::texts_model(unavailable(e, sight, full)))),
        ("expanded_requires"@, JsonModel::List(json::texts_model(full))),
    ]
}

pub open spec fn lease_list(jobs: Jobs) -> Seq<JsonModel> {
    jobs.map_values(|j: (Seq<char>, JobModel)| show::object(show::lease_fields(j.1)))
}

pub open spec fn contended_fields(e: EngineModel, group: Seq<char>) -> show::Fields {
    seq![
        ("status"@, JsonModel::Text("BLOCKED_RESOURCE"@)),
        ("resource"@, JsonModel::Text("exclusive_group"@)),
        ("exclusive_group"@, JsonModel::Text(group)),
        ("protected"@, JsonModel::List(lease_list(group_holders(e, group)))),
    ]
}

/// What is said where the additional memory of a job was not given: it cannot be
/// claimed to be there.
pub open spec fn assured(reply: Map<Seq<char>, JsonModel>, r: RequestModel) -> Map<
    Seq<char>,
    JsonModel,
> {
    if r.memory_bytes is None {
        reply.insert("memory_assurance"@, JsonModel::Text("unknown"@))
    } else {
        reply
    }
}

/// What comes of looking at a request. `plan` are the services to be started, in
/// this order.
#[derive(Debug, PartialEq)]
pub enum Verdict<T, J, L> {
    Overflow,
    Blocked { status: T, reply: J },
    Ready { reply: J, plan: L },
}

pub type VerdictModel = Verdict<Seq<char>, JsonModel, Seq<Seq<char>>>;

impl View for Verdict<String, Json, Vec<String>> {
    type V = Verdict<Seq<char>, JsonModel, Seq<Seq<char>>>;

    open spec fn view(&self) -> Verdict<Seq<char>, JsonModel, Seq<Seq<char>>> {
        match self {
            Verdict::Overflow => Verdict::Overflow,
            Verdict::Blocked { status, reply } => Verdict::Blocked {
                status: status@,
                reply: reply@,
            },
            Verdict::Ready { reply, plan } => Verdict::Ready {
                reply: reply@,
                plan: ids::texts(plan@),
            },
        }
    }
}

/// Whether the request can be met: the services first, then the groups that
/// allow one job at a time, then memory.
pub open spec fn verdict(
    e: EngineModel,
    sight: SightModel,
    r: RequestModel,
    full: Seq<Seq<char>>,
) -> VerdictModel {
    let required = required_memory(e, sight, r, full);
    let v = views::all_views(e, sight);
    let observed = gate::observed_memory(sight);
    if required > u64::MAX {
        Verdict::Overflow
    } else if unavailable(e, sight, full).len() > 0 {
        Verdict::Blocked {
            status: "BLOCKED_SERVICE"@,
            reply: show::object(unavailable_fields(e, sight, full)),
        }
    } else {
        match contended(e, full) {
            Some(g) => Verdict::Blocked {
                status: "BLOCKED_RESOURCE"@,
                reply: show::object(contended_fields(e, g)),
            },
            None => if !gate::is_ready(e, v, observed, required as u64) {
                Verdict::Blocked {
                    status: "BLOCKED_RESOURCE"@,
                    reply: gate::gate_json(e, v, observed, required as u64),
                }
            } else {
                Verdict::Ready {
                    reply: JsonModel::Object(
                        assured(
                            json::object(gate::gate_fields(e, v, observed, required as u64)),
                            r,
                        ),
                    ),
                    plan: to_start(e, sight, full),
                }
            },
        }
    }
}

proof fn lemma_startup_nonnegative(e: EngineModel, sight: SightModel, full: Seq<Seq<char>>, k: int)
    requires
        0 <= k <= full.len(),
    ensures
        0 <= startup_memory(e, sight, full.take(k)) <= startup_memory(e, sight, full),
    decreases full.len(),
{
    if full.len() > 0 {
        if k == full.len() {
            assert(full.take(k) =~= full);
            lemma_startup_nonnegative(e, sight, full.drop_last(), k - 1);
        } else {
            lemma_startup_nonnegative(e, sight, full.drop_last(), k);
            assert(full.drop_last().take(k) =~= full.take(k));
        }
    } else {
        assert(full.take(k) =~= full);
    }
}

impl Engine {
    /// How the service stands, given the views of all services.
    fn condition_of(&self, v: &Vec<ServiceView>, sight: &Sight, id: &str) -> (r: Option<Condition>)
        requires
            views::view_models(v@) == views::all_views(self@, sight@),
        ensures
            match r {
                Some(c) => ids::has(self@.config.services, id@) && c == stands(
                    self@,
                    sight@,
                    id@,
                ).state,
                None => !ids::has(self@.config.services, id@),
            },
    {
        match self.fleet.config().services.find(id) {
            None => None,
            Some(i) => {
                assert(views::view_models(v@).len() == v@.len());
                assert(views::view_models(v@)[i as int] == v@[i as int]@);
                Some(v[i].state)
            },
        }
    }

    fn group_held(&self, j: &Job, group: &str) -> (r: bool)
        ensures
            r == holds_group(self@, j@, group@),
    {
        if !holding(j.status.as_str()) {
            return false;
        }
        let services = &self.fleet.config().services;
        let ghost s = self@.config.services;
        let n: usize = services.len();
        let mut i: usize = 0;
        while i < n
            invariant
                i <= n == s.len(),
                s == self@.config.services,
                services@ == s,
                model::is_holding(j@.status),
                forall|k: int|
                    0 <= k < i ==> !(is_of_group((#[trigger] s[k]).1, group@) && depend::needed(
                        s,
                        j@.request.requires,
                        s[k].0,
                    )),
            decreases n - i,
        {
            if let Some(g) = &services.at(i).exclusive_group {
                if same(g.as_str(), group) && self.fleet.roster().needs(
                    &j.request.requires,
                    services.id_at(i).as_str(),
                ) {
                    assert(is_of_group(s[i as int].1, group@));
                    return true;
                }
            }
            i += 1;
        }
        false
    }

    fn leases_of_group(&self, group: &str) -> (r: Vec<Json>)
        ensures
            json::models(r@) == lease_list(group_holders(self@, group@)),
            r@.len() == group_holders(self@, group@).len(),
    {
        let ghost all = self@.jobs;
        let ghost keep = |j: (Seq<char>, JobModel)| holds_group(self@, j.1, group@);
        let n: usize = self.state.jobs.len();
        let mut out: Vec<Json> = Vec::new();
        let mut i: usize = 0;
        assert(all.take(0).filter(keep) =~= Seq::<(Seq<char>, JobModel)>::empty()) by {
            reveal(Seq::filter);
        }
        assert(json::models(out@) =~= lease_list(all.take(0).filter(keep)));
        while i < n
            invariant
                i <= n == all.len(),
                all == self@.jobs,
                keep == (|j: (Seq<char>, JobModel)| holds_group(self@, j.1, group@)),
                json::models(out@) == lease_list(all.take(i as int).filter(keep)),
            decreases n - i,
        {
            let j = self.state.jobs.at(i);
            assert(all.take(i + 1) =~= all.take(i as int).push(all[i as int]));
            proof {
                all.take(i as int).lemma_filter_push(all[i as int], keep);
            }
            let ghost held = out@;
            let mine = self.group_held(j, group);
            assert(mine == keep(all[i as int]));
            if mine {
                out.push(show_lease(j));
                assert(json::models(out@) =~= json::models(held).push(
                    show::object(show::lease_fields(all[i as int].1)),
                ));
                assert(json::models(out@) =~= lease_list(all.take(i + 1).filter(keep)));
            }
            i += 1;
        }
        assert(all.take(n as int) =~= all);
        assert(json::models(out@).len() == out@.len());
        out
    }

    /// The first group among those of the services that some job holds, and the
    /// leases on it.
    fn contention(&self, full: &Vec<String>) -> (r: Option<(String, Vec<Json>)>)
        ensures
            match r {
                Some(c) => contended(self@, ids::texts(full@)) == Some(c.0@) && json::models(c.1@)
                    == lease_list(group_holders(self@, c.0@)),
                None => contended(self@, ids::texts(full@)) is None,
            },
    {
        let ghost f = ids::texts(full@);
        let mut i: usize = 0;
        assert(f.skip(0) =~= f);
        while i < full.len()
            invariant
                i <= full@.len(),
                f == ids::texts(full@),
                contended(self@, f) == contended(self@, f.skip(i as int)),
            decreases full@.len() - i,
        {
            assert(f.skip(i as int).first() == full@[i as int]@);
            assert(f.skip(i as int).drop_first() =~= f.skip(i + 1));
            if let Some(s) = self.fleet.config().services.get(full[i].as_str()) {
                if let Some(g) = &s.exclusive_group {
                    let held = self.leases_of_group(g.as_str());
                    if held.len() > 0 {
                        return Some((g.clone(), held));
                    }
                }
            }
            i += 1;
        }
        None
    }

    /// Whether all the services run and pass their checks.
    pub fn all_up(&self, sight: &Sight, v: &Vec<ServiceView>, full: &Vec<String>) -> (r: bool)
        requires
            views::view_models(v@) == views::all_views(self@, sight@),
        ensures
            r == (forall|k: int|
                0 <= k < full@.len() ==> is_up(self@, sight@, #[trigger] ids::texts(full@)[k])),
    {
        let ghost f = ids::texts(full@);
        let mut i: usize = 0;
        while i < full.len()
            invariant
                i <= full@.len(),
                f == ids::texts(full@),
                views::view_models(v@) == views::all_views(self@, sight@),
                forall|k: int| 0 <= k < i ==> is_up(self@, sight@, #[trigger] f[k]),
            decreases full@.len() - i,
        {
            assert(f[i as int] == full@[i as int]@);
            let up = match self.condition_of(v, sight, full[i].as_str()) {
                Some(c) => c == Condition::Running,
                None => false,
            };
            if !up {
                assert(!is_up(self@, sight@, f[i as int]));
                return false;
            }
            i += 1;
        }
        true
    }

    /// Whether the request can be met as things stand. `full` are the services
    /// that it requires, with all that they require.
    pub fn assess(&self, r: &Request, full: &Vec<String>, sight: &Sight) -> (d: Verdict<
        String,
        Json,
        Vec<String>,
    >)
        ensures
            d@ == verdict(self@, sight@, r@, ids::texts(full@)),
    {
        let v = self.views(sight);
        let ghost e = self@;
        let ghost si = sight@;
        let ghost f = ids::texts(full@);
        let ghost gone = |id: Seq<char>| !is_up(e, si, id) && !is_startable(e, si, id);
        let ghost down = |id: Seq<char>| is_down(e, si, id);
        let mut required: u64 = match r.memory_bytes {
            Some(m) => m,
            None => 0,
        };
        let mut missing: Vec<String> = Vec::new();
        let mut plan: Vec<String> = Vec::new();
        let mut i: usize = 0;
        assert(f.take(0) =~= Seq::<Seq<char>>::empty());
        assert(f.take(0).filter(gone) =~= Seq::<Seq<char>>::empty()) by {
            reveal(Seq::filter);
        }
        assert(f.take(0).filter(down) =~= Seq::<Seq<char>>::empty()) by {
            reveal(Seq::filter);
        }
        assert(ids::texts(missing@) =~= f.take(0).filter(gone));
        assert(ids::texts(plan@) =~= f.take(0).filter(down));
        while i < full.len()
            invariant
                i <= full@.len(),
                e == self@,
                si == sight@,
                f == ids::texts(full@),
                gone == (|id: Seq<char>| !is_up(e, si, id) && !is_startable(e, si, id)),
                down == (|id: Seq<char>| is_down(e, si, id)),
                views::view_models(v@) == views::all_views(e, si),
                required == gate::or_zero(r@.memory_bytes) + startup_memory(
                    e,
                    si,
                    f.take(i as int),
                ),
                ids::texts(missing@) == f.take(i as int).filter(gone),
                ids::texts(plan@) == f.take(i as int).filter(down),
            decreases full@.len() - i,
        {
            let id = full[i].as_str();
            assert(f[i as int] == id@);
            assert(f.take(i + 1) =~= f.take(i as int).push(id@));
            assert(f.take(i + 1).drop_last() =~= f.take(i as int));
            proof {
                f.take(i as int).lemma_filter_push(id@, gone);
                f.take(i as int).lemma_filter_push(id@, down);
                lemma_startup_nonnegative(e, si, f, i + 1);
            }
            let ghost missing_before = missing@;
            let ghost plan_before = plan@;
            let c: Option<Condition> = self.condition_of(&v, sight, id);
            let is_stopped = match c {
                Some(c) => c == Condition::Stopped,
                None => false,
            };
            let up = match c {
                Some(c) => c == Condition::Running,
                None => false,
            };
            assert(is_stopped == down(id@));
            let startable = is_stopped && self.action_allowed(id, "start").is_ok();
            assert(startable == is_startable(e, si, id@));
            if startable {
                let m: u64 = match self.fleet.config().services.get(id) {
                    Some(s) => match s.memory_bytes {
                        Some(m) => m,
                        None => 0,
                    },
                    None => 0,
                };
                match required.checked_add(m) {
                    Some(n) => {
                        required = n;
                    },
                    None => {
                        return Verdict::Overflow;
                    },
                }
            }
            assert(gone(id@) == (!up && !startable));
            if !up && !startable {
                missing.push(full[i].clone());
                assert(ids::texts(missing@) =~= ids::texts(missing_before).push(id@));
            }
            if is_stopped {
                plan.push(full[i].clone());
                assert(ids::texts(plan@) =~= ids::texts(plan_before).push(id@));
            }
            i += 1;
        }
        assert(f.take(i as int) =~= f);
        assert(ids::texts(missing@).len() == missing@.len());
        if missing.len() > 0 {
            let out = vec![
                field("status", text("BLOCKED_SERVICE")),
                field("unavailable", text_list(&missing)),
                field("expanded_requires", text_list(full)),
            ];
            assert(json::fields(out@) =~= unavailable_fields(e, si, f));
            return Verdict::Blocked {
                status: "BLOCKED_SERVICE".to_string(),
                reply: object_of(out),
            };
        }
        if let Some((group, held)) = self.contention(full) {
            let out = vec![
                field("status", text("BLOCKED_RESOURCE")),
                field("resource", text("exclusive_group")),
                field("exclusive_group", text(group.as_str())),
                field("protected", list_of(held)),
            ];
            assert(json::fields(out@) =~= contended_fields(e, group@));
            return Verdict::Blocked {
                status: "BLOCKED_RESOURCE".to_string(),
                reply: object_of(out),
            };
        }
        let (ready, mut reply) = self.gate(required, &v, observed(sight));
        if !ready {
            return Verdict::Blocked { status: "BLOCKED_RESOURCE".to_string(), reply };
        }
        if r.memory_bytes.is_none() {
            reply.put("memory_assurance", text("unknown"));
        }
        Verdict::Ready { reply, plan }
    }
}

proof fn lemma_sorted(list: Seq<Seq<char>>)
    ensures
        ids::ascending(sorted(list)),
        forall|x: Seq<char>| #[trigger] sorted(list).contains(x) <==> list.contains(x),
    decreases list.len(),
{
    if list.len() > 0 {
        let h = list.drop_last();
        lemma_sorted(h);
        let k = ids::lemma_slot_exists(sorted(h), list.last(), sorted(h).len() as int);
        ids::lemma_added(sorted(h), list.last(), k);
        assert forall|x: Seq<char>| #[trigger] sorted(list).contains(x) <==> list.contains(x) by {
            if list.contains(x) {
                let i = choose|i: int| 0 <= i < list.len() && list[i] == x;
                if i < h.len() {
                    assert(h[i] == x);
                }
            }
            if h.contains(x) {
                let i = choose|i: int| 0 <= i < h.len() && h[i] == x;
                assert(list[i] == x);
            }
            assert(list[list.len() - 1] == list.last());
        }
    }
}

/// Neither the order nor the repetition of what a request requires makes a
/// difference: lists of the same services become the same list.
pub proof fn law_order_of_requires_is_immaterial(a: Seq<Seq<char>>, b: Seq<Seq<char>>)
    requires
        forall|x: Seq<char>| #[trigger] a.contains(x) <==> b.contains(x),
    ensures
        sorted(a) == sorted(b),
        ids::ascending(sorted(a)),
        forall|x: Seq<char>| #[trigger] sorted(a).contains(x) <==> a.contains(x),
{
    lemma_sorted(a);
    lemma_sorted(b);
    assert forall|x: Seq<char>| sorted(a).contains(x) <==> sorted(b).contains(x) by {
        assert(a.contains(x) <==> b.contains(x));
    }
    ids::lemma_ascending_unique(sorted(a), sorted(b));
}

/// A request is ready only where every service that it needs runs or may be
/// started, no other job holds one of their groups, and the memory is free. What
/// is started is just what does not run, and only services that no job holds.
pub proof fn law_ready_means_everything_is_there(
    e: EngineModel,
    sight: SightModel,
    r: RequestModel,
    full: Seq<Seq<char>>,
)
    requires
        verdict(e, sight, r, full) is Ready,
    ensures
        forall|k: int|
            0 <= k < full.len() ==> is_up(e, sight, #[trigger] full[k]) || is_startable(
                e,
                sight,
                full[k],
            ),
        contended(e, full) is None,
        required_memory(e, sight, r, full) <= gate::free_for_request(
            e,
            views::all_views(e, sight),
            gate::observed_memory(sight),
        ),
        verdict(e, sight, r, full)->plan == to_start(e, sight, full),
        forall|id: Seq<char>| #[trigger]
            to_start(e, sight, full).contains(id) ==> full.contains(id) && is_startable(
                e,
                sight,
                id,
            ) && !engine::is_leased(e, id),
{
    let gone = |id: Seq<char>| !is_up(e, sight, id) && !is_startable(e, sight, id);
    let down = |id: Seq<char>| is_down(e, sight, id);
    assert forall|k: int| 0 <= k < full.len() implies is_up(e, sight, #[trigger] full[k])
        || is_startable(e, sight, full[k]) by {
        if gone(full[k]) {
            full.lemma_filter_contains(gone, k);
            assert(full.filter(gone).len() > 0);
        }
    }
    assert forall|id: Seq<char>| #[trigger] to_start(e, sight, full).contains(id) implies
        full.contains(id) && is_startable(e, sight, id) && !engine::is_leased(e, id) by {
        full.lemma_filter_contains_rev(down, id);
        let i = choose|i: int| 0 <= i < to_start(e, sight, full).len() && to_start(
            e,
            sight,
            full,
        )[i] == id;
        full.lemma_filter_pred(down, i);
        let k = choose|k: int| 0 <= k < full.len() && full[k] == id;
        assert(is_up(e, sight, full[k]) || is_startable(e, sight, full[k]));
    }
}

/// What has to be started is added up: with one service more in the list, the
/// memory is more by what this one is configured to take, where nothing runs for
/// it and it may be started; by nothing otherwise.
pub proof fn law_startup_memory_adds_up(
    e: EngineModel,
    sight: SightModel,
    r: RequestModel,
    full: Seq<Seq<char>>,
    i: int,
)
    requires
        engine::is_well_formed(e),
        0 <= i < e.config.services.len(),
    ensures
        ({
            let (id, s) = e.config.services[i];
            let starts = views::service_view(e, sight, i).state == Condition::Stopped && s.mode
                == Mode::Managed && s.allowed_actions.contains("start"@) && engine::leases(
                e,
                id,
            ).len() == 0;
            let takes: int = match s.memory_bytes {
                Some(n) => n as int,
                None => 0,
            };
            let asked: int = match r.memory_bytes {
                Some(n) => n as int,
                None => 0,
            };
            &&& required_memory(e, sight, r, Seq::empty()) == asked
            &&& starts ==> required_memory(e, sight, r, full.push(id)) == required_memory(
                e,
                sight,
                r,
                full,
            ) + takes
            &&& !starts ==> required_memory(e, sight, r, full.push(id)) == required_memory(
                e,
                sight,
                r,
                full,
            )
        }),
{
    let (id, s) = e.config.services[i];
    ids::lemma_at(e.config.services, i);
    engine::law_action_needs_permission_and_no_lease(e, i, id, "start"@);
    assert(full.push(id).drop_last() =~= full);
}

/// The service runs, or nothing runs for it and it may be started.
proof fn lemma_obtainable(e: EngineModel, sight: SightModel, i: int)
    requires
        engine::is_well_formed(e),
        0 <= i < e.config.services.len(),
    ensures
        ({
            let (id, s) = e.config.services[i];
            let state = views::service_view(e, sight, i).state;
            let may = s.mode == Mode::Managed && s.allowed_actions.contains("start"@)
                && engine::leases(e, id).len() == 0;
            &&& is_up(e, sight, id) <==> state == Condition::Running
            &&& is_down(e, sight, id) <==> state == Condition::Stopped
            &&& is_startable(e, sight, id) <==> state == Condition::Stopped && may
        }),
{
    ids::lemma_at(e.config.services, i);
    engine::law_action_needs_permission_and_no_lease(e, i, e.config.services[i].0, "start"@);
}

/// A request that is ready can be met: every service that it needs runs, or is
/// stopped and may be started; and what it takes in all is at most what is
/// available by the answer itself. Just the stopped ones are started.
#[verifier::rlimit(60)]
#[verifier::spinoff_prover]
pub proof fn law_ready_request_can_be_met(
    e: EngineModel,
    sight: SightModel,
    r: RequestModel,
    full: Seq<Seq<char>>,
    k: int,
    i: int,
    available: int,
)
    requires
        engine::is_well_formed(e),
        verdict(e, sight, r, full) is Ready,
        0 <= k < full.len(),
        0 <= i < e.config.services.len(),
        full[k] == e.config.services[i].0,
    ensures
        ({
            let s = e.config.services[i].1;
            let state = views::service_view(e, sight, i).state;
            let m = json::as_map(verdict(e, sight, r, full)->Ready_reply);
            let plan = verdict(e, sight, r, full)->plan;
            &&& state == Condition::Running || state == Condition::Stopped && s.mode
                == Mode::Managed && s.allowed_actions.contains("start"@) && engine::leases(
                e,
                full[k],
            ).len() == 0
            &&& plan.contains(full[k]) <==> state == Condition::Stopped
            &&& forall|x: int, y: int|
                0 <= x < y < plan.len() ==> views::stands_before(
                    full,
                    #[trigger] plan[x],
                    #[trigger] plan[y],
                )
            &&& m.contains_pair("status"@, JsonModel::Text("READY"@))
            &&& m.contains_pair(
                "required"@,
                JsonModel::Integer(required_memory(e, sight, r, full)),
            )
            &&& m.contains_key("available"@)
            &&& m["available"@] == JsonModel::Integer(available) ==> required_memory(
                e,
                sight,
                r,
                full,
            ) <= available
            &&& forall|key: Seq<char>|
                key != "memory_assurance"@ ==> (#[trigger] m.contains_key(key) <==> json::as_map(
                    gate::gate_json(
                        e,
                        views::all_views(e, sight),
                        gate::observed_memory(sight),
                        required_memory(e, sight, r, full) as u64,
                    ),
                ).contains_key(key)) && m[key] == json::as_map(
                    gate::gate_json(
                        e,
                        views::all_views(e, sight),
                        gate::observed_memory(sight),
                        required_memory(e, sight, r, full) as u64,
                    ),
                )[key]
            &&& r.memory_bytes is None <==> m.contains_key("memory_assurance"@)
            &&& r.memory_bytes is None ==> m["memory_assurance"@] == JsonModel::Text("unknown"@)
        }),
{
    law_ready_means_everything_is_there(e, sight, r, full);
    lemma_obtainable(e, sight, i);
    let down = |id: Seq<char>| is_down(e, sight, id);
    views::lemma_filter_order(full, down);
    if is_down(e, sight, full[k]) {
        full.lemma_filter_contains(down, k);
    }
    if to_start(e, sight, full).contains(full[k]) {
        let n = choose|n: int|
            0 <= n < to_start(e, sight, full).len() && to_start(e, sight, full)[n] == full[k];
        full.lemma_filter_pred(down, n);
    }
    let v = views::all_views(e, sight);
    let observed = gate::observed_memory(sight);
    lemma_startup_nonnegative(e, sight, full, 0);
    let required = required_memory(e, sight, r, full) as u64;
    gate::lemma_gate_fields(e, v, observed, required);
    let f = gate::gate_fields(e, v, observed, required);
    assert(f[0].0 == "status"@);
    assert(f[3].0 == "required"@);
    assert(f[4].0 == "available"@);
    reveal_strlit("memory_assurance");
    reveal_strlit("status");
    reveal_strlit("required");
    reveal_strlit("available");
    assert("memory_assurance"@.len() == 16);
    gate::lemma_gate_names(e, v, observed, required);
    json::lemma_object(f);
}

/// A request is ready wherever it can be met: all that it needs runs or may be
/// started, none of it is of a group that a job in force holds another service of,
/// and the memory that it takes is free.
#[verifier::rlimit(60)]
#[verifier::spinoff_prover]
pub proof fn law_request_that_can_be_met_is_ready(
    e: EngineModel,
    sight: SightModel,
    r: RequestModel,
    full: Seq<Seq<char>>,
)
    requires
        engine::is_well_formed(e),
        forall|k: int|
            0 <= k < full.len() ==> exists|i: int|
                0 <= i < e.config.services.len() && (#[trigger] e.config.services[i]).0
                    == #[trigger] full[k] && (views::service_view(e, sight, i).state
                    == Condition::Running || views::service_view(e, sight, i).state
                    == Condition::Stopped && e.config.services[i].1.mode == Mode::Managed
                    && e.config.services[i].1.allowed_actions.contains("start"@) && engine::leases(
                    e,
                    full[k],
                ).len() == 0),
        forall|i: int, j: int, m: int|
            0 <= i < e.config.services.len() && 0 <= j < e.jobs.len() && 0 <= m
                < e.config.services.len() && full.contains(e.config.services[i].0) ==> !(
            e.config.services[i].1.exclusive_group is Some && #[trigger] holds_together(
                e,
                i,
                j,
                m,
            )),
        required_memory(e, sight, r, full) <= gate::free_for_request(
            e,
            views::all_views(e, sight),
            gate::observed_memory(sight),
        ),
    ensures
        verdict(e, sight, r, full) is Ready,
{
    lemma_startup_nonnegative(e, sight, full, 0);
    let gone = |id: Seq<char>| !is_up(e, sight, id) && !is_startable(e, sight, id);
    let left = unavailable(e, sight, full);
    if left.len() > 0 {
        assert(left.contains(left[0]));
        full.lemma_filter_contains_rev(gone, left[0]);
        full.lemma_filter_pred(gone, 0);
        let k = choose|k: int| 0 <= k < full.len() && full[k] == left[0];
        let i = choose|i: int|
            0 <= i < e.config.services.len() && (#[trigger] e.config.services[i]).0 == full[k] && (
            views::service_view(e, sight, i).state == Condition::Running || views::service_view(
                e,
                sight,
                i,
            ).state == Condition::Stopped && e.config.services[i].1.mode == Mode::Managed
                && e.config.services[i].1.allowed_actions.contains("start"@) && engine::leases(
                e,
                full[k],
            ).len() == 0);
        lemma_obtainable(e, sight, i);
    }
    if let Some(g) = contended(e, full) {
        let k = lemma_contended(e, full, g);
        let (i, j, m) = lemma_taken(e, full[k], g);
        assert(full.contains(e.config.services[i].0));
        assert(holds_together(e, i, j, m));
    }
}

/// The job at `j` is in force and needs the service at `m`, which is of the same
/// group as that at `i`.
pub open spec fn holds_together(e: EngineModel, i: int, j: int, m: int) -> bool {
    &&& e.config.services[m].1.exclusive_group == e.config.services[i].1.exclusive_group
    &&& e.jobs[j].1.status == "READY"@ || e.jobs[j].1.status == "INTERRUPTED"@
    &&& depend::needed(
        e.config.services,
        e.jobs[j].1.request.requires,
        e.config.services[m].0,
    )
}

proof fn lemma_contended(e: EngineModel, full: Seq<Seq<char>>, g: Seq<char>) -> (k: int)
    requires
        contended(e, full) == Some(g),
    ensures
        0 <= k < full.len(),
        taken_group(e, full[k]) == Some(g),
    decreases full.len(),
{
    if taken_group(e, full.first()) is Some {
        0
    } else {
        let k = lemma_contended(e, full.drop_first(), g);
        assert(full.drop_first()[k] == full[k + 1]);
        k + 1
    }
}

proof fn lemma_taken(e: EngineModel, id: Seq<char>, g: Seq<char>) -> (r: (int, int, int))
    requires
        taken_group(e, id) == Some(g),
    ensures
        0 <= r.0 < e.config.services.len(),
        e.config.services[r.0].0 == id,
        e.config.services[r.0].1.exclusive_group == Some(g),
        0 <= r.1 < e.jobs.len(),
        0 <= r.2 < e.config.services.len(),
        holds_together(e, r.0, r.1, r.2),
        holds_group(e, e.jobs[r.1].1, g),
{
    let i = ids::keys(e.config.services).index_of(id);
    assert(e.config.services[i].0 == id);
    let keep = |j: (Seq<char>, JobModel)| holds_group(e, j.1, g);
    let h = group_holders(e, g);
    assert(h.contains(h[0]));
    e.jobs.lemma_filter_contains_rev(keep, h[0]);
    e.jobs.lemma_filter_pred(keep, 0);
    let j = choose|j: int| 0 <= j < e.jobs.len() && e.jobs[j] == h[0];
    let job = e.jobs[j].1;
    let m = choose|m: int|
        0 <= m < e.config.services.len() && is_of_group((#[trigger] e.config.services[m]).1, g)
            && depend::needed(e.config.services, job.request.requires, e.config.services[m].0);
    (i, j, m)
}

/// No request is ready that needs a service of a group while a job in force holds
/// a service of that group; where all else is there, the answer names the group.
#[verifier::rlimit(60)]
#[verifier::spinoff_prover]
pub proof fn law_group_is_for_one_job_at_a_time(
    e: EngineModel,
    sight: SightModel,
    r: RequestModel,
    full: Seq<Seq<char>>,
    i: int,
    j: int,
    m: int,
)
    requires
        engine::is_well_formed(e),
        0 <= i < e.config.services.len(),
        0 <= j < e.jobs.len(),
        0 <= m < e.config.services.len(),
        full.contains(e.config.services[i].0),
        e.config.services[i].1.exclusive_group is Some,
        holds_together(e, i, j, m),
    ensures
        !(verdict(e, sight, r, full) is Ready),
        unavailable(e, sight, full).len() == 0 && required_memory(e, sight, r, full) <= u64::MAX
            ==> {
            &&& verdict(e, sight, r, full) matches Verdict::Blocked { status, reply }
            &&& status == "BLOCKED_RESOURCE"@
            &&& json::as_map(reply).contains_pair("status"@, JsonModel::Text("BLOCKED_RESOURCE"@))
            &&& json::as_map(reply).contains_pair(
                "resource"@,
                JsonModel::Text("exclusive_group"@),
            )
        },
{
    let (id, s) = e.config.services[i];
    let g = s.exclusive_group->0;
    ids::lemma_at(e.config.services, i);
    let keep = |x: (Seq<char>, JobModel)| holds_group(e, x.1, g);
    assert(is_of_group(e.config.services[m].1, g));
    assert(keep(e.jobs[j]));
    e.jobs.lemma_filter_contains(keep, j);
    assert(taken_group(e, id) is Some);
    let k = choose|k: int| 0 <= k < full.len() && full[k] == id;
    lemma_contended_at(e, full, k);
    let got = contended(e, full)->0;
    let f = contended_fields(e, got);
    reveal_strlit("status");
    reveal_strlit("resource");
    reveal_strlit("exclusive_group");
    reveal_strlit("protected");
    assert(f.len() == 4);
    assert(f[0].0 == "status"@ && f[0].0.len() == 6);
    assert(f[1].0 == "resource"@ && f[1].0.len() == 8);
    assert(f[2].0 == "exclusive_group"@ && f[2].0.len() == 15);
    assert(f[3].0 == "protected"@ && f[3].0.len() == 9);
    assert(json::distinct(f));
    json::lemma_object(f);
}

proof fn lemma_contended_at(e: EngineModel, full: Seq<Seq<char>>, k: int)
    requires
        0 <= k < full.len(),
        taken_group(e, full[k]) is Some,
    ensures
        contended(e, full) is Some,
    decreases full.len(),
{
    if k > 0 && taken_group(e, full.first()) is None {
        assert(full.drop_first()[k - 1] == full[k]);
        lemma_contended_at(e, full.drop_first(), k - 1);
    }
}

/// A request that takes more than is available is blocked for memory, and the
/// answer says what it takes; one that takes more than can be counted is an error.
pub proof fn law_request_beyond_memory_is_blocked(
    e: EngineModel,
    sight: SightModel,
    r: RequestModel,
    full: Seq<Seq<char>>,
)
    ensures
        ({
            let required = required_memory(e, sight, r, full);
            let free = gate::free_for_request(
                e,
                views::all_views(e, sight),
                gate::observed_memory(sight),
            );
            &&& required > u64::MAX <==> verdict(e, sight, r, full) is Overflow
            &&& required > free ==> !(verdict(e, sight, r, full) is Ready)
            &&& free < required <= u64::MAX && unavailable(e, sight, full).len() == 0
                && contended(e, full) is None ==> {
                &&& verdict(e, sight, r, full) matches Verdict::Blocked { status, reply }
                &&& status == "BLOCKED_RESOURCE"@
                &&& reply == gate::gate_json(
                    e,
                    views::all_views(e, sight),
                    gate::observed_memory(sight),
                    required as u64,
                )
                &&& json::as_map(reply).contains_pair("required"@, JsonModel::Integer(required))
                &&& json::as_map(reply).contains_pair("available"@, JsonModel::Integer(free))
                &&& json::as_map(reply).contains_pair(
                    "shortfall"@,
                    JsonModel::Integer(required - free),
                )
                &&& json::as_map(reply).contains_pair(
                    "status"@,
                    JsonModel::Text("BLOCKED_RESOURCE"@),
                )
            }
        }),
{
    lemma_startup_nonnegative(e, sight, full, 0);
    let v = views::all_views(e, sight);
    let observed = gate::observed_memory(sight);
    let required = required_memory(e, sight, r, full) as u64;
    gate::lemma_gate_fields(e, v, observed, required);
    let f = gate::gate_fields(e, v, observed, required);
    assert(f[0].0 == "status"@);
    assert(f[3].0 == "required"@);
    assert(f[4].0 == "available"@);
    assert(f[5].0 == "shortfall"@);
}

/// A request that needs a service that neither runs nor may be started is blocked
/// for that service, and the answer lists just such services.
#[verifier::rlimit(60)]
#[verifier::spinoff_prover]
pub proof fn law_unavailable_services_block(
    e: EngineModel,
    sight: SightModel,
    r: RequestModel,
    full: Seq<Seq<char>>,
    k: int,
    i: int,
)
    requires
        engine::is_well_formed(e),
        0 <= k < full.len(),
        0 <= i < e.config.services.len(),
        full[k] == e.config.services[i].0,
        required_memory(e, sight, r, full) <= u64::MAX,
    ensures
        ({
            let s = e.config.services[i].1;
            let state = views::service_view(e, sight, i).state;
            let there = state == Condition::Running || state == Condition::Stopped && s.mode
                == Mode::Managed && s.allowed_actions.contains("start"@) && engine::leases(
                e,
                full[k],
            ).len() == 0;
            &&& there <==> !unavailable(e, sight, full).contains(full[k])
            &&& !there ==> {
                &&& verdict(e, sight, r, full) matches Verdict::Blocked { status, reply }
                &&& status == "BLOCKED_SERVICE"@
                &&& json::as_map(reply).contains_pair(
                    "status"@,
                    JsonModel::Text("BLOCKED_SERVICE"@),
                )
                &&& json::as_map(reply)["unavailable"@] matches JsonModel::List(list)
                    && list.contains(JsonModel::Text(full[k]))
                &&& json::as_map(reply)["expanded_requires"@] == JsonModel::List(
                    full.map_values(|x: Seq<char>| JsonModel::Text(x)),
                )
            }
        }),
{
    lemma_obtainable(e, sight, i);
    let gone = |id: Seq<char>| !is_up(e, sight, id) && !is_startable(e, sight, id);
    let left = unavailable(e, sight, full);
    if gone(full[k]) {
        full.lemma_filter_contains(gone, k);
        let n = choose|n: int| 0 <= n < left.len() && left[n] == full[k];
        assert(json::texts_model(left)[n] == JsonModel::Text(full[k]));
    } else if left.contains(full[k]) {
        let n = choose|n: int| 0 <= n < left.len() && left[n] == full[k];
        full.lemma_filter_pred(gone, n);
    }
    let f = unavailable_fields(e, sight, full);
    reveal_strlit("status");
    reveal_strlit("unavailable");
    reveal_strlit("expanded_requires");
    assert(f.len() == 3);
    assert(f[0].0 == "status"@ && f[0].0.len() == 6);
    assert(f[1].0 == "unavailable"@ && f[1].0.len() == 11);
    assert(f[2].0 == "expanded_requires"@ && f[2].0.len() == 17);
    assert(json::distinct(f));
    json::lemma_object(f);
    assert(json::texts_model(full) =~= full.map_values(|x: Seq<char>| JsonModel::Text(x)));
}

/// Where a group is taken, the answer names the group of a service that the request
/// needs, and lists the leases of just the jobs in force that need a service of it.
#[verifier::rlimit(60)]
#[verifier::spinoff_prover]
pub proof fn law_taken_group_is_named(
    e: EngineModel,
    full: Seq<Seq<char>>,
    g: Seq<char>,
    entry: (Seq<char>, JobModel),
) -> (k: int)
    requires
        contended(e, full) == Some(g),
    ensures
        0 <= k < full.len(),
        ids::has(e.config.services, full[k]),
        ids::value(e.config.services, full[k]).exclusive_group == Some(g),
        ({
            let m = json::object(contended_fields(e, g));
            let more = EngineModel { jobs: e.jobs.push(entry), ..e };
            let n = json::object(contended_fields(more, g));
            let holds = (entry.1.status == "READY"@ || entry.1.status == "INTERRUPTED"@)
                && exists|i: int|
                0 <= i < e.config.services.len() && (
                #[trigger] e.config.services[i]).1.exclusive_group == Some(g) && depend::needed(
                    e.config.services,
                    entry.1.request.requires,
                    e.config.services[i].0,
                );
            &&& m.contains_pair("exclusive_group"@, JsonModel::Text(g))
            &&& m["protected"@] matches JsonModel::List(a)
            &&& n["protected"@] matches JsonModel::List(b)
            &&& b == (if holds {
                a.push(JsonModel::Object(json::object(show::lease_fields(entry.1))))
            } else {
                a
            })
            &&& e.jobs.len() == 0 ==> a.len() == 0
        }),
{
    let more = EngineModel { jobs: e.jobs.push(entry), ..e };
    lemma_contended_fields(e, g);
    lemma_contended_fields(more, g);
    let keep = |j: (Seq<char>, JobModel)| holds_group(e, j.1, g);
    let keep_more = |j: (Seq<char>, JobModel)| holds_group(more, j.1, g);
    assert forall|j: (Seq<char>, JobModel)| #[trigger] keep(j) == keep_more(j) by {
        if keep(j) {
            lemma_holds_group(e, more, j.1, g);
        }
        if keep_more(j) {
            lemma_holds_group(more, e, j.1, g);
        }
    }
    assert(keep =~= keep_more);
    e.jobs.lemma_filter_push(entry, keep);
    let holds = (entry.1.status == "READY"@ || entry.1.status == "INTERRUPTED"@) && exists|i: int|
        0 <= i < e.config.services.len() && (#[trigger] e.config.services[i]).1.exclusive_group
            == Some(g) && depend::needed(
            e.config.services,
            entry.1.request.requires,
            e.config.services[i].0,
        );
    if keep(entry) {
        let i = choose|i: int|
            0 <= i < e.config.services.len() && is_of_group(
                (#[trigger] e.config.services[i]).1,
                g,
            ) && depend::needed(
                e.config.services,
                entry.1.request.requires,
                e.config.services[i].0,
            );
        assert(e.config.services[i].1.exclusive_group == Some(g));
        assert(holds);
        assert(lease_list(group_holders(more, g)) =~= lease_list(group_holders(e, g)).push(
            show::object(show::lease_fields(entry.1)),
        ));
    } else {
        if holds {
            let i = choose|i: int|
                0 <= i < e.config.services.len() && (
                #[trigger] e.config.services[i]).1.exclusive_group == Some(g) && depend::needed(
                    e.config.services,
                    entry.1.request.requires,
                    e.config.services[i].0,
                );
            assert(is_of_group(e.config.services[i].1, g));
        }
        assert(!holds);
    }
    if e.jobs.len() == 0 {
        reveal(Seq::filter);
    }
    lemma_contended(e, full, g)
}

proof fn lemma_holds_group(a: EngineModel, b: EngineModel, j: JobModel, g: Seq<char>)
    requires
        a.config == b.config,
        holds_group(a, j, g),
    ensures
        holds_group(b, j, g),
{
    let i = choose|i: int|
        0 <= i < a.config.services.len() && is_of_group((#[trigger] a.config.services[i]).1, g)
            && depend::needed(a.config.services, j.request.requires, a.config.services[i].0);
    assert(is_of_group(b.config.services[i].1, g));
}

proof fn lemma_contended_fields(e: EngineModel, g: Seq<char>)
    ensures
        json::object(contended_fields(e, g)).contains_pair(
            "exclusive_group"@,
            JsonModel::Text(g),
        ),
        json::object(contended_fields(e, g)).contains_pair(
            "protected"@,
            JsonModel::List(lease_list(group_holders(e, g))),
        ),
{
    let f = contended_fields(e, g);
    reveal_strlit("status");
    reveal_strlit("resource");
    reveal_strlit("exclusive_group");
    reveal_strlit("protected");
    assert(f.len() == 4);
    assert(f[0].0 == "status"@ && f[0].0.len() == 6);
    assert(f[1].0 == "resource"@ && f[1].0.len() == 8);
    assert(f[2].0 == "exclusive_group"@ && f[2].0.len() == 15);
    assert(f[3].0 == "protected"@ && f[3].0.len() == 9);
    assert(json::distinct(f));
    json::lemma_object(f);
    assert(json::object(f).contains_pair(f[2].0, f[2].1));
    assert(json::object(f).contains_pair(f[3].0, f[3].1));
}

} // verus!
