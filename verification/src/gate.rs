//! The memory gate over jobs and services, and the overall status.

use vstd::prelude::*;
use crate::attribution;
use crate::engine;
use crate::engine::{Engine, EngineModel};
use crate::ids;
use crate::ids::contains_text;
use crate::json;
use crate::json::{field, list_of, object_of, text, Json, JsonModel};
use crate::model;
use crate::model::{holding, memory_gate, Class, JobModel, Jobs, ProcessModel};
use crate::platform;
use crate::platform::{admission_available_memory, Platform};
use crate::show;
use crate::show::show_jobs;
use crate::sight;
use crate::sight::{summed_ram, ReadingsModel, Sight, SightModel};
use crate::views;
use crate::views::{processes_of, show_views, Condition, ServiceView, ServiceViewModel};

verus! {

/// A count of bytes, but no more than 64 bits hold.
pub open spec fn capped(n: int) -> int {
    if n > u64::MAX {
        u64::MAX as int
    } else {
        n
    }
}

pub open spec fn or_zero(n: Option<u64>) -> int {
    match n {
        Some(n) => n as int,
        None => 0,
    }
}

/// The additional memory of the jobs whose lease is in force.
pub open spec fn held_by_jobs(jobs: Jobs) -> int
    decreases jobs.len(),
{
    if jobs.len() == 0 {
        0
    } else {
        held_by_jobs(jobs.drop_last()) + if model::is_holding(jobs.last().1.status) {
            or_zero(jobs.last().1.request.memory_bytes)
        } else {
            0
        }
    }
}

/// What the running services may still grow by: the estimate less what is
/// measured, for each.
pub open spec fn yet_to_grow(views: Seq<ServiceViewModel>) -> int
    decreases views.len(),
{
    if views.len() == 0 {
        0
    } else {
        yet_to_grow(views.drop_last()) + if views.last().state != Condition::Stopped {
            model::less(or_zero(views.last().memory_estimate_bytes), views.last().ram_bytes)
        } else {
            0
        }
    }
}

/// What is spoken for and not yet seen in use.
pub open spec fn outstanding(e: EngineModel, views: Seq<ServiceViewModel>) -> int {
    capped(held_by_jobs(e.jobs) + yet_to_grow(views))
}

/// What is free for a new request.
pub open spec fn free_for_request(e: EngineModel, views: Seq<ServiceViewModel>, observed: u64) -> int {
    model::spare(observed, e.config.safety_margin_bytes, outstanding(e, views) as u64)
}

pub open spec fn is_ready(
    e: EngineModel,
    views: Seq<ServiceViewModel>,
    observed: u64,
    required: u64,
) -> bool {
    required <= free_for_request(e, views, observed)
}

/// A service whose memory could be had by stopping it: owned, held by no job,
/// and with a stop among its actions.
pub open spec fn is_reclaimable(v: ServiceViewModel) -> bool {
    &&& v.class == Class::Managed
    &&& v.state != Condition::Stopped
    &&& v.leases.len() == 0
    &&& v.actions.contains("stop"@)
}

/// A service that runs and is not reclaimable.
pub open spec fn is_protected(v: ServiceViewModel) -> bool {
    v.state != Condition::Stopped && !is_reclaimable(v)
}

pub open spec fn gate_fields(
    e: EngineModel,
    views: Seq<ServiceViewModel>,
    observed: u64,
    required: u64,
) -> show::Fields {
    let free = free_for_request(e, views, observed);
    seq![
        (
            "status"@,
            JsonModel::Text(
                if is_ready(e, views, observed, required) {
                    "READY"@
                } else {
                    "BLOCKED_RESOURCE"@
                },
            ),
        ),
        ("resource"@, JsonModel::Text("memory"@)),
        ("units"@, JsonModel::Text("bytes"@)),
        ("required"@, JsonModel::Integer(required as int)),
        ("available"@, JsonModel::Integer(free)),
        ("shortfall"@, JsonModel::Integer(model::less(required as int, free))),
        ("observed_available"@, JsonModel::Integer(observed as int)),
        ("safety_margin"@, JsonModel::Integer(e.config.safety_margin_bytes as int)),
        ("outstanding_estimates"@, JsonModel::Integer(outstanding(e, views))),
        (
            "reclaimable"@,
            JsonModel::List(
                views::view_list(views.filter(|v: ServiceViewModel| is_reclaimable(v))),
            ),
        ),
        (
            "protected"@,
            JsonModel::List(views::view_list(views.filter(|v: ServiceViewModel| is_protected(v)))),
        ),
    ]
}

pub open spec fn gate_json(
    e: EngineModel,
    views: Seq<ServiceViewModel>,
    observed: u64,
    required: u64,
) -> JsonModel {
    show::object(gate_fields(e, views, observed, required))
}

/// The memory that admission goes by.
pub open spec fn observed_memory(sight: SightModel) -> u64 {
    platform::admitted_memory(
        Platform::named(sight.machine.os),
        sight.machine.available,
        sight.machine.free,
    )
}

pub fn observed(sight: &Sight) -> (n: u64)
    ensures
        n == observed_memory(sight@),
{
    let m = sight.machine();
    admission_available_memory(Platform::of(m.os.as_str()), m.available, m.free).0
}

proof fn lemma_held_nonnegative(jobs: Jobs)
    ensures
        held_by_jobs(jobs) >= 0,
    decreases jobs.len(),
{
    if jobs.len() > 0 {
        lemma_held_nonnegative(jobs.drop_last());
    }
}

proof fn lemma_grow_nonnegative(v: Seq<ServiceViewModel>)
    ensures
        yet_to_grow(v) >= 0,
    decreases v.len(),
{
    if v.len() > 0 {
        lemma_grow_nonnegative(v.drop_last());
    }
}

fn reclaimable(v: &ServiceView) -> (r: bool)
    ensures
        r == is_reclaimable(v@),
{
    assert(v@.leases.len() == v.leases@.len());
    v.class == Class::Managed && v.state != Condition::Stopped && v.leases.len() == 0
        && contains_text(&v.actions, "stop")
}

impl Engine {
    fn jobs_memory(&self) -> (n: u64)
        ensures
            n == capped(held_by_jobs(self@.jobs)),
    {
        let ghost all = self@.jobs;
        let n: usize = self.state.jobs.len();
        let mut sum: u64 = 0;
        let mut i: usize = 0;
        assert(all.take(0) =~= Seq::<(Seq<char>, JobModel)>::empty());
        while i < n
            invariant
                i <= n == all.len(),
                all == self@.jobs,
                sum == capped(held_by_jobs(all.take(i as int))),
            decreases n - i,
        {
            let j = self.state.jobs.at(i);
            proof {
                assert(all.take(i + 1).drop_last() =~= all.take(i as int));
                lemma_held_nonnegative(all.take(i as int));
            }
            if holding(j.status.as_str()) {
                let m: u64 = match j.request.memory_bytes {
                    Some(m) => m,
                    None => 0,
                };
                sum = sum.saturating_add(m);
            }
            i += 1;
        }
        assert(all.take(n as int) =~= all);
        sum
    }

    /// Whether `required` bytes can be had now, and the answer in full.
    pub fn gate(&self, required: u64, v: &Vec<ServiceView>, observed: u64) -> (r: (bool, Json))
        ensures
            r.0 == is_ready(self@, views::view_models(v@), observed, required),
            r.1@ == gate_json(self@, views::view_models(v@), observed, required),
    {
        let ghost all = views::view_models(v@);
        let jobs: u64 = self.jobs_memory();
        let mut growth: u64 = 0;
        let mut open: Vec<Json> = Vec::new();
        let mut kept: Vec<Json> = Vec::new();
        let ghost free = |x: ServiceViewModel| is_reclaimable(x);
        let ghost held = |x: ServiceViewModel| is_protected(x);
        let mut i: usize = 0;
        assert(all.take(0) =~= Seq::<ServiceViewModel>::empty());
        assert(all.take(0).filter(free) =~= Seq::<ServiceViewModel>::empty()) by {
            reveal(Seq::filter);
        }
        assert(all.take(0).filter(held) =~= Seq::<ServiceViewModel>::empty()) by {
            reveal(Seq::filter);
        }
        assert(json::models(open@) =~= views::view_list(all.take(0).filter(free)));
        assert(json::models(kept@) =~= views::view_list(all.take(0).filter(held)));
        while i < v.len()
            invariant
                i <= v@.len(),
                all == views::view_models(v@),
                free == (|x: ServiceViewModel| is_reclaimable(x)),
                held == (|x: ServiceViewModel| is_protected(x)),
                growth == capped(yet_to_grow(all.take(i as int))),
                json::models(open@) == views::view_list(all.take(i as int).filter(free)),
                json::models(kept@) == views::view_list(all.take(i as int).filter(held)),
            decreases v@.len() - i,
        {
            let x = &v[i];
            assert(all[i as int] == x@);
            assert(all.take(i + 1) =~= all.take(i as int).push(x@));
            proof {
                assert(all.take(i + 1).drop_last() =~= all.take(i as int));
                lemma_grow_nonnegative(all.take(i as int));
                all.take(i as int).lemma_filter_push(x@, free);
                all.take(i as int).lemma_filter_push(x@, held);
            }
            let ghost open_before = open@;
            let ghost kept_before = kept@;
            if x.state != Condition::Stopped {
                let estimate: u64 = match x.memory_estimate_bytes {
                    Some(m) => m,
                    None => 0,
                };
                growth = growth.saturating_add(estimate.saturating_sub(x.ram_bytes));
                if reclaimable(x) {
                    assert(free(x@) && !held(x@));
                    open.push(x.show());
                    assert(json::models(open@) =~= json::models(open_before).push(
                        views::view_json(x@),
                    ));
                    assert(json::models(open@) =~= views::view_list(
                        all.take(i + 1).filter(free),
                    ));
                } else {
                    assert(!free(x@) && held(x@));
                    kept.push(x.show());
                    assert(json::models(kept@) =~= json::models(kept_before).push(
                        views::view_json(x@),
                    ));
                    assert(json::models(kept@) =~= views::view_list(
                        all.take(i + 1).filter(held),
                    ));
                }
            } else {
                assert(!free(x@) && !held(x@));
            }
            i += 1;
        }
        assert(all.take(v@.len() as int) =~= all);
        proof {
            lemma_held_nonnegative(self@.jobs);
            lemma_grow_nonnegative(all);
        }
        let outstanding: u64 = jobs.saturating_add(growth);
        let margin: u64 = self.fleet.config().safety_margin_bytes;
        let g = memory_gate(required, observed, margin, outstanding);
        let f = vec![
            field("status", text(g.status)),
            field("resource", text("memory")),
            field("units", text("bytes")),
            field("required", Json::UInt(g.required)),
            field("available", Json::UInt(g.available)),
            field("shortfall", Json::UInt(g.shortfall)),
            field("observed_available", Json::UInt(observed)),
            field("safety_margin", Json::UInt(margin)),
            field("outstanding_estimates", Json::UInt(outstanding)),
            field("reclaimable", list_of(open)),
            field("protected", list_of(kept)),
        ];
        assert(json::fields(f@) =~= gate_fields(self@, all, observed, required));
        (required <= g.available, object_of(f))
    }

    /// The whole picture: memory, load, services, jobs, and the processes that
    /// belong to no service.
    pub fn status(&self, sight: &Sight) -> (j: Json)
        ensures
            j@ == show::object(status_fields(self@, sight@)),
    {
        let m = sight.machine();
        let r = sight.readings();
        let process_total: u64 = match summed_ram(&r.rows) {
            Some(n) => n,
            None => 0,
        };
        let (unknown, unknown_ram) = processes_of(&r.rows, None);
        let all = self.views(sight);
        let memory = vec![
            field("total", Json::UInt(m.total)),
            field("used", Json::UInt(m.used)),
            field("available", Json::UInt(m.available)),
            field("swap_used", Json::UInt(m.swap_used)),
            field("swap_total", Json::UInt(m.swap_total)),
            field("safety_margin", Json::UInt(self.fleet.config().safety_margin_bytes)),
            field("process_total", Json::UInt(process_total)),
            field("unknown_process_ram", Json::UInt(unknown_ram)),
            field("system_unaccounted", Json::UInt(m.used.saturating_sub(process_total))),
        ];
        assert(json::fields(memory@) =~= memory_fields(self@, sight@));
        let f = vec![
            field("name", text("Runtime Gatekeeper")),
            field("storage_failed", Json::Bool(self.storage_failed)),
            field("platform", text(m.os.as_str())),
            field("arch", text(m.arch.as_str())),
            field("memory", object_of(memory)),
            field("cpu_percent", m.cpu_percent.copy()),
            field("services", show_views(&all)),
            field("jobs", show_jobs(&self.state.jobs)),
            field("unknown", list_of(unknown)),
        ];
        assert(json::fields(f@) =~= status_fields(self@, sight@));
        object_of(f)
    }
}

pub open spec fn memory_fields(e: EngineModel, sight: SightModel) -> show::Fields {
    let m = sight.machine;
    let rows = sight.readings.rows;
    seq![
        ("total"@, JsonModel::Integer(m.total as int)),
        ("used"@, JsonModel::Integer(m.used as int)),
        ("available"@, JsonModel::Integer(m.available as int)),
        ("swap_used"@, JsonModel::Integer(m.swap_used as int)),
        ("swap_total"@, JsonModel::Integer(m.swap_total as int)),
        ("safety_margin"@, JsonModel::Integer(e.config.safety_margin_bytes as int)),
        ("process_total"@, JsonModel::Integer(sight::total_ram(rows))),
        (
            "unknown_process_ram"@,
            JsonModel::Integer(sight::total_ram(sight::of_service(rows, None))),
        ),
        (
            "system_unaccounted"@,
            JsonModel::Integer(model::less(m.used as int, sight::total_ram(rows))),
        ),
    ]
}

pub open spec fn status_fields(e: EngineModel, sight: SightModel) -> show::Fields {
    seq![
        ("name"@, JsonModel::Text("Runtime Gatekeeper"@)),
        ("storage_failed"@, JsonModel::Bool(e.storage_failed)),
        ("platform"@, JsonModel::Text(sight.machine.os)),
        ("arch"@, JsonModel::Text(sight.machine.arch)),
        ("memory"@, show::object(memory_fields(e, sight))),
        ("cpu_percent"@, sight.machine.cpu_percent),
        ("services"@, JsonModel::List(views::view_list(views::all_views(e, sight)))),
        ("jobs"@, show::job_list(e.jobs)),
        (
            "unknown"@,
            JsonModel::List(show::process_list(sight::of_service(sight.readings.rows, None))),
        ),
    ]
}

/// Every service that runs is either reclaimable or protected, and none is both.
pub proof fn law_running_is_reclaimable_or_protected(v: ServiceViewModel)
    ensures
        v.state != Condition::Stopped <==> is_reclaimable(v) || is_protected(v),
        !(is_reclaimable(v) && is_protected(v)),
{
}

/// What is reclaimable is a service that the supervisor owns, that no job holds,
/// and for which a stop is allowed.
pub proof fn law_reclaimable_is_owned_and_unleased(e: EngineModel, sight: SightModel, i: int)
    requires
        0 <= i < e.config.services.len(),
        is_reclaimable(views::service_view(e, sight, i)),
    ensures
        ids::has(e.owned, e.config.services[i].0),
        !engine::is_leased(e, e.config.services[i].0),
        e.config.services[i].1.allowed_actions.contains("stop"@),
{
    let (id, s) = e.config.services[i];
    let r = sight.readings;
    let running = views::is_running(s, id, r);
    let keep = |a: Seq<char>| views::is_apt(a, running, ids::has(e.owned, id));
    assert(views::apt(e, s, id, r).contains("stop"@));
    s.allowed_actions.lemma_filter_contains_rev(keep, "stop"@);
    reveal_strlit("start");
    reveal_strlit("stop");
    assert("start"@.len() != "stop"@.len());
}

/// The memory that is shown has one value under each name.
proof fn lemma_memory_fields(e: EngineModel, sight: SightModel)
    ensures
        ({
            let f = memory_fields(e, sight);
            forall|i: int|
                0 <= i < f.len() ==> json::object(f).contains_pair((#[trigger] f[i]).0, f[i].1)
        }),
{
    let f = memory_fields(e, sight);
    reveal_strlit("total");
    reveal_strlit("used");
    reveal_strlit("available");
    reveal_strlit("swap_used");
    reveal_strlit("swap_total");
    reveal_strlit("safety_margin");
    reveal_strlit("process_total");
    reveal_strlit("unknown_process_ram");
    reveal_strlit("system_unaccounted");
    assert("available"@[0] != "swap_used"@[0]);
    assert("safety_margin"@[0] != "process_total"@[0]);
    assert(f.len() == 9);
    assert(f[0].0 == "total"@ && f[0].0.len() == 5);
    assert(f[1].0 == "used"@ && f[1].0.len() == 4);
    assert(f[2].0 == "available"@ && f[2].0.len() == 9);
    assert(f[3].0 == "swap_used"@ && f[3].0.len() == 9);
    assert(f[4].0 == "swap_total"@ && f[4].0.len() == 10);
    assert(f[5].0 == "safety_margin"@ && f[5].0.len() == 13);
    assert(f[6].0 == "process_total"@ && f[6].0.len() == 13);
    assert(f[7].0 == "unknown_process_ram"@ && f[7].0.len() == 19);
    assert(f[8].0 == "system_unaccounted"@ && f[8].0.len() == 18);
    assert(json::distinct(f));
    json::lemma_object(f);
}

proof fn lemma_status_fields(e: EngineModel, sight: SightModel)
    ensures
        ({
            let f = status_fields(e, sight);
            forall|i: int|
                0 <= i < f.len() ==> json::object(f).contains_pair((#[trigger] f[i]).0, f[i].1)
        }),
{
    let f = status_fields(e, sight);
    reveal_strlit("name");
    reveal_strlit("storage_failed");
    reveal_strlit("platform");
    reveal_strlit("arch");
    reveal_strlit("memory");
    reveal_strlit("cpu_percent");
    reveal_strlit("services");
    reveal_strlit("jobs");
    reveal_strlit("unknown");
    assert("name"@[0] != "arch"@[0]);
    assert("name"@[0] != "jobs"@[0]);
    assert("arch"@[0] != "jobs"@[0]);
    assert("platform"@[0] != "services"@[0]);
    assert(f.len() == 9);
    assert(f[0].0 == "name"@ && f[0].0.len() == 4);
    assert(f[1].0 == "storage_failed"@ && f[1].0.len() == 14);
    assert(f[2].0 == "platform"@ && f[2].0.len() == 8);
    assert(f[3].0 == "arch"@ && f[3].0.len() == 4);
    assert(f[4].0 == "memory"@ && f[4].0.len() == 6);
    assert(f[5].0 == "cpu_percent"@ && f[5].0.len() == 11);
    assert(f[6].0 == "services"@ && f[6].0.len() == 8);
    assert(f[7].0 == "jobs"@ && f[7].0.len() == 4);
    assert(f[8].0 == "unknown"@ && f[8].0.len() == 7);
    assert(json::distinct(f));
    json::lemma_object(f);
}

/// The status that follows a look at the machine adds up. The total is the memory
/// of all processes that were read; the memory of the services together with that
/// of the unknown processes makes up that total; and what is used beyond it, if
/// anything, is the system's. The jobs are those from before the look.
pub proof fn law_status_adds_up(before: EngineModel, r: ReadingsModel, sight: SightModel)
    requires
        engine::is_well_formed(before),
        attribution::is_ranked(
            sight.readings.rows,
            attribution::attributed(
                before.config.services,
                engine::refreshed(before, r).owned,
                r.rows,
            ),
        ),
    ensures
        ({
            let e = engine::refreshed(before, r);
            let all = sight::total_ram(r.rows);
            let shown = views::shown_ram(views::all_views(e, sight));
            let memory = json::object(memory_fields(e, sight));
            let status = json::object(status_fields(e, sight));
            &&& memory.contains_pair("process_total"@, JsonModel::Integer(all))
            &&& memory.contains_pair("unknown_process_ram"@, JsonModel::Integer(all - shown))
            &&& memory.contains_pair(
                "system_unaccounted"@,
                JsonModel::Integer(
                    if sight.machine.used > all {
                        sight.machine.used - all
                    } else {
                        0
                    },
                ),
            )
            &&& status.contains_pair("memory"@, JsonModel::Object(memory))
            &&& status.contains_pair(
                "services"@,
                JsonModel::List(views::view_list(views::all_views(e, sight))),
            )
            &&& status.contains_pair("jobs"@, show::job_list(before.jobs))
        }),
{
    let e = engine::refreshed(before, r);
    let services = before.config.services;
    let rows = sight.readings.rows;
    let placed = attribution::attributed(services, e.owned, r.rows);
    engine::law_refreshed_is_well_formed(before, r);
    attribution::law_processes_are_of_configured_services(services, e.owned, r.rows, rows);
    sight::lemma_same_ram(rows, placed);
    sight::lemma_ram_by_row(placed, r.rows);
    views::law_every_process_is_counted_once(services, rows);
    let v = views::all_views(e, sight);
    views::lemma_shown_ram(e, sight, services.len() as int);
    assert(v.take(services.len() as int) =~= v);
    let m = memory_fields(e, sight);
    lemma_memory_fields(e, sight);
    assert(m[6].0 == "process_total"@);
    assert(m[7].0 == "unknown_process_ram"@);
    assert(m[8].0 == "system_unaccounted"@);
    let f = status_fields(e, sight);
    lemma_status_fields(e, sight);
    assert(f[4].0 == "memory"@);
    assert(f[6].0 == "services"@);
    assert(f[7].0 == "jobs"@);
}

pub proof fn lemma_gate_fields(
    e: EngineModel,
    v: Seq<ServiceViewModel>,
    observed: u64,
    required: u64,
)
    ensures
        ({
            let f = gate_fields(e, v, observed, required);
            forall|i: int|
                0 <= i < f.len() ==> json::object(f).contains_pair((#[trigger] f[i]).0, f[i].1)
        }),
{
    let f = gate_fields(e, v, observed, required);
    reveal_strlit("status");
    reveal_strlit("resource");
    reveal_strlit("units");
    reveal_strlit("required");
    reveal_strlit("available");
    reveal_strlit("shortfall");
    reveal_strlit("observed_available");
    reveal_strlit("safety_margin");
    reveal_strlit("outstanding_estimates");
    reveal_strlit("reclaimable");
    reveal_strlit("protected");
    assert("resource"@[2] != "required"@[2]);
    assert("available"@[0] != "shortfall"@[0]);
    assert("available"@[0] != "protected"@[0]);
    assert("shortfall"@[0] != "protected"@[0]);
    assert(f.len() == 11);
    assert(f[0].0 == "status"@ && f[0].0.len() == 6);
    assert(f[1].0 == "resource"@ && f[1].0.len() == 8);
    assert(f[2].0 == "units"@ && f[2].0.len() == 5);
    assert(f[3].0 == "required"@ && f[3].0.len() == 8);
    assert(f[4].0 == "available"@ && f[4].0.len() == 9);
    assert(f[5].0 == "shortfall"@ && f[5].0.len() == 9);
    assert(f[6].0 == "observed_available"@ && f[6].0.len() == 18);
    assert(f[7].0 == "safety_margin"@ && f[7].0.len() == 13);
    assert(f[8].0 == "outstanding_estimates"@ && f[8].0.len() == 21);
    assert(f[9].0 == "reclaimable"@ && f[9].0.len() == 11);
    assert(f[10].0 == "protected"@ && f[10].0.len() == 9);
    assert(json::distinct(f));
    json::lemma_object(f);
}

/// The answer on memory adds up. What is available is what was observed less the
/// margin and what is outstanding, or nothing where that is more; a request is
/// ready just where it requires no more than that; and what it falls short by is
/// the difference.
pub proof fn law_gate_answer_adds_up(
    e: EngineModel,
    v: Seq<ServiceViewModel>,
    observed: u64,
    required: u64,
    available: int,
    outstanding: int,
    shortfall: int,
)
    ensures
        ({
            let m = json::as_map(gate_json(e, v, observed, required));
            let margin = e.config.safety_margin_bytes;
            &&& m.contains_pair("required"@, JsonModel::Integer(required as int))
            &&& m.contains_pair("resource"@, JsonModel::Text("memory"@))
            &&& m.contains_pair("units"@, JsonModel::Text("bytes"@))
            &&& m.contains_pair("observed_available"@, JsonModel::Integer(observed as int))
            &&& m.contains_pair("safety_margin"@, JsonModel::Integer(margin as int))
            &&& m.contains_key("available"@) && m["available"@] is Integer
            &&& m.contains_key("shortfall"@) && m["shortfall"@] is Integer
            &&& m.contains_key("outstanding_estimates"@) && m["outstanding_estimates"@] is Integer
            &&& m["available"@] == JsonModel::Integer(available) && m["outstanding_estimates"@]
                == JsonModel::Integer(outstanding) && m["shortfall"@] == JsonModel::Integer(
                shortfall,
            ) ==> {
                &&& available >= 0 && shortfall >= 0
                &&& observed >= margin + outstanding ==> available + margin + outstanding
                    == observed
                &&& observed < margin + outstanding ==> available == 0
                &&& required <= available ==> shortfall == 0
                &&& required > available ==> available + shortfall == required
                &&& required <= available <==> is_ready(e, v, observed, required)
                &&& required <= available <==> m.contains_pair(
                    "status"@,
                    JsonModel::Text("READY"@),
                )
                &&& required > available <==> m.contains_pair(
                    "status"@,
                    JsonModel::Text("BLOCKED_RESOURCE"@),
                )
            }
        }),
{
    let f = gate_fields(e, v, observed, required);
    lemma_gate_fields(e, v, observed, required);
    lemma_held_nonnegative(e.jobs);
    lemma_grow_nonnegative(v);
    assert(f[0].0 == "status"@);
    assert(f[1].0 == "resource"@);
    assert(f[2].0 == "units"@);
    assert(f[3].0 == "required"@);
    assert(f[4].0 == "available"@);
    assert(f[5].0 == "shortfall"@);
    assert(f[6].0 == "observed_available"@);
    assert(f[7].0 == "safety_margin"@);
    assert(f[8].0 == "outstanding_estimates"@);
    reveal_strlit("READY");
    reveal_strlit("BLOCKED_RESOURCE");
    assert("READY"@.len() != "BLOCKED_RESOURCE"@.len());
}

/// What is outstanding is added up over the jobs that are ready or interrupted and
/// over the services that run: a job counts with its additional memory, a service
/// with what its estimate exceeds its measured memory by. All others count
/// nothing.
pub proof fn law_outstanding_adds_up(
    e: EngineModel,
    entry: (Seq<char>, JobModel),
    v: Seq<ServiceViewModel>,
    w: ServiceViewModel,
)
    ensures
        ({
            let job = entry.1;
            let more = EngineModel { jobs: e.jobs.push(entry), ..e };
            let claim: int = if job.status == "READY"@ || job.status == "INTERRUPTED"@ {
                match job.request.memory_bytes {
                    Some(n) => n as int,
                    None => 0,
                }
            } else {
                0
            };
            let room: int = match w.memory_estimate_bytes {
                Some(n) => if w.state != Condition::Stopped && n > w.ram_bytes {
                    n - w.ram_bytes
                } else {
                    0
                },
                None => 0,
            };
            &&& w.ram_bytes >= 0 && outstanding(e, v) + room <= u64::MAX && outstanding(e, v)
                < u64::MAX ==> outstanding(e, v.push(w)) == outstanding(e, v) + room
            &&& outstanding(e, v) + claim <= u64::MAX && outstanding(e, v) < u64::MAX
                ==> outstanding(more, v) == outstanding(e, v) + claim
            &&& w.ram_bytes >= 0 && outstanding(e, v) + room > u64::MAX ==> outstanding(
                e,
                v.push(w),
            ) == u64::MAX
            &&& outstanding(e, v) + claim > u64::MAX ==> outstanding(more, v) == u64::MAX
            &&& e.jobs.len() == 0 && v.len() == 0 ==> outstanding(e, v) == 0
            &&& 0 <= outstanding(e, v) <= u64::MAX
        }),
{
    assert(e.jobs.push(entry).drop_last() =~= e.jobs);
    assert(v.push(w).drop_last() =~= v);
    lemma_held_nonnegative(e.jobs);
    lemma_grow_nonnegative(v);
}

/// A service can be reclaimed just where the supervisor may stop it now: it is
/// managed, not stopped, held by no job, and a stop is among its actions. What is
/// not stopped and cannot be reclaimed is protected.
pub proof fn law_gate_lists_what_could_be_stopped(
    e: EngineModel,
    v: Seq<ServiceViewModel>,
    w: ServiceViewModel,
    observed: u64,
    required: u64,
)
    ensures
        ({
            let m = json::as_map(gate_json(e, v, observed, required));
            let n = json::as_map(gate_json(e, v.push(w), observed, required));
            let stoppable = w.class == Class::Managed && w.state != Condition::Stopped
                && w.leases.len() == 0 && w.actions.contains("stop"@);
            &&& m["reclaimable"@] matches JsonModel::List(a)
            &&& n["reclaimable"@] matches JsonModel::List(b)
            &&& b == (if stoppable {
                a.push(views::view_json(w))
            } else {
                a
            })
            &&& m["protected"@] matches JsonModel::List(c)
            &&& n["protected"@] matches JsonModel::List(d)
            &&& d == (if !stoppable && w.state != Condition::Stopped {
                c.push(views::view_json(w))
            } else {
                c
            })
            &&& v.len() == 0 ==> a.len() == 0 && c.len() == 0
        }),
{
    lemma_gate_fields(e, v, observed, required);
    lemma_gate_fields(e, v.push(w), observed, required);
    let f = gate_fields(e, v, observed, required);
    let g = gate_fields(e, v.push(w), observed, required);
    assert(f[9].0 == "reclaimable"@ && g[9].0 == "reclaimable"@);
    assert(f[10].0 == "protected"@ && g[10].0 == "protected"@);
    let can = |x: ServiceViewModel| is_reclaimable(x);
    let cannot = |x: ServiceViewModel| is_protected(x);
    v.lemma_filter_push(w, can);
    v.lemma_filter_push(w, cannot);
    assert(views::view_list(v.filter(can).push(w)) =~= views::view_list(v.filter(can)).push(
        views::view_json(w),
    ));
    assert(views::view_list(v.filter(cannot).push(w)) =~= views::view_list(v.filter(cannot)).push(
        views::view_json(w),
    ));
    if v.len() == 0 {
        reveal(Seq::filter);
    }
}

/// The answer on memory has no name of sixteen letters.
pub proof fn lemma_gate_names(
    e: EngineModel,
    v: Seq<ServiceViewModel>,
    observed: u64,
    required: u64,
)
    ensures
        forall|i: int|
            0 <= i < gate_fields(e, v, observed, required).len() ==> (#[trigger] gate_fields(
                e,
                v,
                observed,
                required,
            )[i]).0.len() != 16,
{
    let f = gate_fields(e, v, observed, required);
    reveal_strlit("status");
    reveal_strlit("resource");
    reveal_strlit("units");
    reveal_strlit("required");
    reveal_strlit("available");
    reveal_strlit("shortfall");
    reveal_strlit("observed_available");
    reveal_strlit("safety_margin");
    reveal_strlit("outstanding_estimates");
    reveal_strlit("reclaimable");
    reveal_strlit("protected");
    assert(f[0].0 == "status"@ && f[0].0.len() != 16);
    assert(f[1].0 == "resource"@ && f[1].0.len() != 16);
    assert(f[2].0 == "units"@ && f[2].0.len() != 16);
    assert(f[3].0 == "required"@ && f[3].0.len() != 16);
    assert(f[4].0 == "available"@ && f[4].0.len() != 16);
    assert(f[5].0 == "shortfall"@ && f[5].0.len() != 16);
    assert(f[6].0 == "observed_available"@ && f[6].0.len() != 16);
    assert(f[7].0 == "safety_margin"@ && f[7].0.len() != 16);
    assert(f[8].0 == "outstanding_estimates"@ && f[8].0.len() != 16);
    assert(f[9].0 == "reclaimable"@ && f[9].0.len() != 16);
    assert(f[10].0 == "protected"@ && f[10].0.len() != 16);
}

/// What is free is what was observed less the margin and what is outstanding, or
/// nothing; and what was observed is what is available, except on macOS where
/// nothing is available and the free pages stand in.
pub proof fn law_free_memory_is_what_is_left(
    e: EngineModel,
    v: Seq<ServiceViewModel>,
    observed: u64,
    sight: SightModel,
)
    ensures
        ({
            let taken = e.config.safety_margin_bytes + outstanding(e, v);
            let free = free_for_request(e, v, observed);
            &&& observed >= taken ==> free + taken == observed
            &&& observed < taken ==> free == 0
        }),
        sight.machine.available > 0 || sight.machine.os != "macos"@ ==> observed_memory(sight)
            == sight.machine.available,
        sight.machine.available == 0 && sight.machine.os == "macos"@ ==> observed_memory(sight)
            == sight.machine.free,
{
    lemma_held_nonnegative(e.jobs);
    lemma_grow_nonnegative(v);
}

/// The status shows the figures of the machine as they were read, whether records
/// can be written, and all that belongs to no service.
pub proof fn law_status_shows_the_machine(e: EngineModel, sight: SightModel)
    ensures
        ({
            let m = json::object(status_fields(e, sight));
            let n = json::object(memory_fields(e, sight));
            let rows = sight.readings.rows;
            &&& m.contains_pair("name"@, JsonModel::Text("Runtime Gatekeeper"@))
            &&& m.contains_pair("storage_failed"@, JsonModel::Bool(e.storage_failed))
            &&& m.contains_pair("platform"@, JsonModel::Text(sight.machine.os))
            &&& m.contains_pair("arch"@, JsonModel::Text(sight.machine.arch))
            &&& m.contains_pair("cpu_percent"@, sight.machine.cpu_percent)
            &&& m.contains_pair("memory"@, JsonModel::Object(n))
            &&& n.contains_pair("total"@, JsonModel::Integer(sight.machine.total as int))
            &&& n.contains_pair("used"@, JsonModel::Integer(sight.machine.used as int))
            &&& n.contains_pair("available"@, JsonModel::Integer(sight.machine.available as int))
            &&& n.contains_pair("swap_used"@, JsonModel::Integer(sight.machine.swap_used as int))
            &&& n.contains_pair(
                "swap_total"@,
                JsonModel::Integer(sight.machine.swap_total as int),
            )
            &&& n.contains_pair(
                "safety_margin"@,
                JsonModel::Integer(e.config.safety_margin_bytes as int),
            )
            &&& m["unknown"@] == JsonModel::List(
                rows.filter(|p: ProcessModel| p.service is None).map_values(
                    |p: ProcessModel| JsonModel::Object(json::object(show::process_fields(p))),
                ),
            )
            &&& m.contains_key("unknown"@)
            &&& m.contains_pair(
                "services"@,
                JsonModel::List(views::view_list(views::all_views(e, sight))),
            )
            &&& m.contains_pair("jobs"@, show::job_list(e.jobs))
        }),
{
    lemma_status_fields(e, sight);
    lemma_memory_fields(e, sight);
    let f = status_fields(e, sight);
    let g = memory_fields(e, sight);
    assert(f[0].0 == "name"@);
    assert(f[1].0 == "storage_failed"@);
    assert(f[2].0 == "platform"@);
    assert(f[3].0 == "arch"@);
    assert(f[4].0 == "memory"@);
    assert(f[5].0 == "cpu_percent"@);
    assert(f[6].0 == "services"@);
    assert(f[7].0 == "jobs"@);
    assert(f[8].0 == "unknown"@);
    assert(g[0].0 == "total"@);
    assert(g[1].0 == "used"@);
    assert(g[2].0 == "available"@);
    assert(g[3].0 == "swap_used"@);
    assert(g[4].0 == "swap_total"@);
    assert(g[5].0 == "safety_margin"@);
    let a = |p: ProcessModel| p.service == None::<Seq<char>>;
    let b = |p: ProcessModel| p.service is None;
    assert(a =~= b);
    let rows = sight.readings.rows;
    let x = show::process_list(rows.filter(a));
    let y = rows.filter(b).map_values(
        |p: ProcessModel| JsonModel::Object(json::object(show::process_fields(p))),
    );
    assert(x =~= y);
}

} // verus!
