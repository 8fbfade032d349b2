//! Stopping an owned service: the whole process group is asked to end, and what
//! is left of it after two seconds is killed, process by process.

use vstd::prelude::*;
use vstd::string::*;
use crate::action;
use crate::action::{record_service, Action, Event, Happening, HappeningModel, Progress, ProgressModel};
use crate::denial::Denial;
use crate::engine;
use crate::engine::{Engine, EngineModel};
use crate::fleet;
use crate::fleet::present;
use crate::gate;
use crate::ids;
use crate::json;
use crate::json::{field, list_of, object_of, text, Json, JsonModel};
use crate::model;
use crate::model::{Owned, Process, ProcessModel};
use crate::show;
use crate::sight::{Readings, ReadingsModel};

verus! {

/// What a stop is waiting for. `members` are the processes of the group as they
/// were when the stop began; `alive` are those of them that outlived the request
/// to end.
#[derive(Debug, PartialEq)]
pub enum StopStage<L> {
    Looking,
    Intending { group: u32, members: L },
    Terminating { group: u32, members: L },
    Watching { group: u32, members: L, deadline_ms: u64 },
    Checking { group: u32, alive: L, next: usize },
    Killing { group: u32, alive: L, next: usize },
    Settling { alive: L },
    Closing,
}

/// A stop under way.
#[derive(Debug, PartialEq)]
pub struct StopTask<T, L> {
    pub service: T,
    pub stage: StopStage<L>,
}

pub type Stop = StopTask<String, Vec<Owned>>;

pub type StopModel = StopTask<Seq<char>, Seq<Owned>>;

pub open spec fn stage_model(s: StopStage<Vec<Owned>>) -> StopStage<Seq<Owned>> {
    match s {
        StopStage::Looking => StopStage::Looking,
        StopStage::Intending { group, members } => StopStage::Intending {
            group,
            members: members@,
        },
        StopStage::Terminating { group, members } => StopStage::Terminating {
            group,
            members: members@,
        },
        StopStage::Watching { group, members, deadline_ms } => StopStage::Watching {
            group,
            members: members@,
            deadline_ms,
        },
        StopStage::Checking { group, alive, next } => StopStage::Checking {
            group,
            alive: alive@,
            next,
        },
        StopStage::Killing { group, alive, next } => StopStage::Killing {
            group,
            alive: alive@,
            next,
        },
        StopStage::Settling { alive } => StopStage::Settling { alive: alive@ },
        StopStage::Closing => StopStage::Closing,
    }
}

impl View for StopTask<String, Vec<Owned>> {
    type V = StopTask<Seq<char>, Seq<Owned>>;

    open spec fn view(&self) -> StopTask<Seq<char>, Seq<Owned>> {
        StopTask { service: self.service@, stage: stage_model(self.stage) }
    }
}

/// A process with its number and start time.
pub open spec fn identity(p: ProcessModel) -> Owned {
    Owned { pid: p.pid, start_time: p.start_time }
}

/// The members of a process group.
pub open spec fn members(rows: Seq<ProcessModel>, group: u32) -> Seq<Owned> {
    rows.filter(|p: ProcessModel| p.group == Some(group)).map_values(|p: ProcessModel| identity(p))
}

/// Some process of that number is in the group.
pub open spec fn is_in_group(rows: Seq<ProcessModel>, pid: u32, group: u32) -> bool {
    exists|k: int|
        0 <= k < rows.len() && (#[trigger] rows[k]).pid == pid && rows[k].group == Some(group)
}

/// That very process is there, and in the group.
pub open spec fn is_member(rows: Seq<ProcessModel>, o: Owned, group: u32) -> bool {
    exists|k: int|
        0 <= k < rows.len() && identity(#[trigger] rows[k]) == o && rows[k].group == Some(group)
}

/// Those of the processes that are still there.
pub open spec fn still_alive(rows: Seq<ProcessModel>, list: Seq<Owned>) -> Seq<Owned> {
    list.filter(|o: Owned| fleet::is_present(rows, o))
}

pub open spec fn members_json(list: Seq<Owned>) -> JsonModel {
    JsonModel::List(
        list.map_values(
            |o: Owned|
                JsonModel::List(
                    seq![
                        JsonModel::Integer(o.pid as int),
                        JsonModel::Integer(o.start_time as int),
                    ],
                ),
        ),
    )
}

pub open spec fn intent_fields(service: Seq<char>, list: Seq<Owned>) -> show::Fields {
    seq![("service"@, JsonModel::Text(service)), ("members"@, members_json(list))]
}

pub open spec fn escalated_fields(service: Seq<char>) -> show::Fields {
    seq![("service"@, JsonModel::Text(service)), ("escalated"@, JsonModel::Bool(true))]
}

/// The state once the service is no longer owned.
pub open spec fn disowned(e: EngineModel, service: Seq<char>) -> EngineModel {
    EngineModel { owned: ids::without(e.owned, service), ..e }
}

pub type StopProgress = ProgressModel<StopModel, ()>;

/// How a stop begins.
pub open spec fn stop_first(service: Seq<char>) -> StopProgress {
    ProgressModel::Act(Action::Look, StopTask { service, stage: StopStage::Looking })
}

/// The stop is begun on what the supervisor owns, or refused.
pub open spec fn stop_looked(e: EngineModel, service: Seq<char>, r: ReadingsModel) -> StopProgress {
    if !ids::has(e.owned, service) {
        ProgressModel::Over(Err(Denial::NotOwned))
    } else {
        let group = ids::value(e.owned, service).pid;
        if !is_in_group(r.rows, group, group) {
            ProgressModel::Over(Err(Denial::GroupMismatch))
        } else {
            let list = members(r.rows, group);
            ProgressModel::Act(
                Action::Record {
                    event: "service_stop_intent"@,
                    detail: show::object(intent_fields(service, list)),
                },
                StopTask { service, stage: StopStage::Intending { group, members: list } },
            )
        }
    }
}

/// The next process to be checked, or the pause after the last.
pub open spec fn stop_check(
    service: Seq<char>,
    group: u32,
    alive: Seq<Owned>,
    next: int,
) -> StopProgress {
    if next < alive.len() {
        ProgressModel::Act(
            Action::Look,
            StopTask { service, stage: StopStage::Checking { group, alive, next: next as usize } },
        )
    } else {
        ProgressModel::Act(
            Action::Pause,
            StopTask { service, stage: StopStage::Settling { alive } },
        )
    }
}

/// How a stop goes on.
pub open spec fn stop_next(e: EngineModel, t: StopModel, ev: HappeningModel) -> (
    EngineModel,
    StopProgress,
) {
    let service = t.service;
    match (t.stage, ev) {
        (StopStage::Looking, Event::Seen(r)) => {
            let e = engine::refreshed(e, r);
            (e, stop_looked(e, service, r))
        },
        (StopStage::Intending { group, members }, Event::Done) => (
            e,
            ProgressModel::Act(
                Action::Terminate { group },
                StopTask { service, stage: StopStage::Terminating { group, members } },
            ),
        ),
        (StopStage::Terminating { group, members }, Event::Sent(now)) => (
            e,
            ProgressModel::Act(
                Action::Look,
                StopTask {
                    service,
                    stage: StopStage::Watching {
                        group,
                        members,
                        deadline_ms: gate::capped(now + 2000) as u64,
                    },
                },
            ),
        ),
        (StopStage::Terminating { .. }, Event::Failed(_)) => (
            e,
            ProgressModel::Over(Err(Denial::TermFailed)),
        ),
        (StopStage::Watching { group, members, deadline_ms }, Event::Seen(r)) => {
            let alive = still_alive(r.rows, members);
            if alive.len() == 0 {
                (
                    disowned(e, service),
                    ProgressModel::Act(
                        action::service_event("service_stopped"@, service),
                        StopTask { service, stage: StopStage::Closing },
                    ),
                )
            } else if r.now_ms >= deadline_ms {
                (e, stop_check(service, group, alive, 0))
            } else {
                (
                    e,
                    ProgressModel::Act(
                        Action::Pause,
                        StopTask {
                            service,
                            stage: StopStage::Watching { group, members, deadline_ms },
                        },
                    ),
                )
            }
        },
        (StopStage::Checking { group, alive, next }, Event::Seen(r)) => {
            if next < alive.len() && is_member(r.rows, alive[next as int], group) {
                (
                    e,
                    ProgressModel::Act(
                        Action::Kill { pid: alive[next as int].pid },
                        StopTask { service, stage: StopStage::Killing { group, alive, next } },
                    ),
                )
            } else {
                (e, stop_check(service, group, alive, next + 1))
            }
        },
        (StopStage::Killing { group, alive, next }, _) => (
            e,
            stop_check(service, group, alive, next + 1),
        ),
        (StopStage::Settling { alive }, Event::Seen(r)) => {
            if still_alive(r.rows, alive).len() > 0 {
                (e, ProgressModel::Over(Err(Denial::StopIncomplete)))
            } else {
                (
                    disowned(e, service),
                    ProgressModel::Act(
                        Action::Record {
                            event: "service_stopped"@,
                            detail: show::object(escalated_fields(service)),
                        },
                        StopTask { service, stage: StopStage::Closing },
                    ),
                )
            }
        },
        (StopStage::Closing, Event::Done) => (e, ProgressModel::Over(Ok(()))),
        (StopStage::Intending { .. }, Event::Failed(s)) => (
            action::unrecorded(e),
            ProgressModel::Over(Err(Denial::Failed(s))),
        ),
        (StopStage::Closing, Event::Failed(s)) => (
            action::unrecorded(e),
            ProgressModel::Over(Err(Denial::Failed(s))),
        ),
        _ => (e, ProgressModel::Over(Err(Denial::OutOfTurn))),
    }
}

/// The members of a process group.
fn group_members(rows: &Vec<Process>, group: u32) -> (r: Vec<Owned>)
    ensures
        r@ == members(model::table(rows@), group),
{
    let ghost t = model::table(rows@);
    let ghost keep = |p: ProcessModel| p.group == Some(group);
    let ghost id = |p: ProcessModel| identity(p);
    let mut out: Vec<Owned> = Vec::new();
    let mut i: usize = 0;
    assert(t.take(0).filter(keep) =~= Seq::<ProcessModel>::empty()) by {
        reveal(Seq::filter);
    }
    assert(out@ =~= t.take(0).filter(keep).map_values(id));
    while i < rows.len()
        invariant
            i <= rows@.len(),
            t == model::table(rows@),
            keep == (|p: ProcessModel| p.group == Some(group)),
            id == (|p: ProcessModel| identity(p)),
            out@ == t.take(i as int).filter(keep).map_values(id),
        decreases rows@.len() - i,
    {
        assert(t[i as int] == rows@[i as int]@);
        assert(t.take(i + 1) =~= t.take(i as int).push(t[i as int]));
        proof {
            t.take(i as int).lemma_filter_push(t[i as int], keep);
        }
        let mine = match rows[i].group {
            Some(g) => g == group,
            None => false,
        };
        assert(mine == keep(t[i as int]));
        if mine {
            let ghost held = out@;
            out.push(Owned { pid: rows[i].pid, start_time: rows[i].start_time });
            assert(out@ =~= held.push(id(t[i as int])));
            assert(out@ =~= t.take(i + 1).filter(keep).map_values(id));
        }
        i += 1;
    }
    assert(t.take(i as int) =~= t);
    out
}

fn in_group(rows: &Vec<Process>, pid: u32, group: u32) -> (r: bool)
    ensures
        r == is_in_group(model::table(rows@), pid, group),
{
    let ghost t = model::table(rows@);
    let mut i: usize = 0;
    while i < rows.len()
        invariant
            i <= rows@.len(),
            t == model::table(rows@),
            forall|j: int|
                0 <= j < i ==> !((#[trigger] t[j]).pid == pid && t[j].group == Some(group)),
        decreases rows@.len() - i,
    {
        assert(t[i as int] == rows@[i as int]@);
        if rows[i].pid == pid {
            if let Some(g) = rows[i].group {
                if g == group {
                    return true;
                }
            }
        }
        i += 1;
    }
    false
}

fn member(rows: &Vec<Process>, o: Owned, group: u32) -> (r: bool)
    ensures
        r == is_member(model::table(rows@), o, group),
{
    let ghost t = model::table(rows@);
    let mut i: usize = 0;
    while i < rows.len()
        invariant
            i <= rows@.len(),
            t == model::table(rows@),
            forall|j: int|
                0 <= j < i ==> !(identity(#[trigger] t[j]) == o && t[j].group == Some(group)),
        decreases rows@.len() - i,
    {
        assert(t[i as int] == rows@[i as int]@);
        if rows[i].pid == o.pid && rows[i].start_time == o.start_time {
            if let Some(g) = rows[i].group {
                if g == group {
                    return true;
                }
            }
        }
        i += 1;
    }
    false
}

fn alive_of(rows: &Vec<Process>, list: &Vec<Owned>) -> (r: Vec<Owned>)
    ensures
        r@ == still_alive(model::table(rows@), list@),
{
    let ghost keep = |o: Owned| fleet::is_present(model::table(rows@), o);
    let mut out: Vec<Owned> = Vec::new();
    let mut i: usize = 0;
    assert(list@.take(0).filter(keep) =~= Seq::<Owned>::empty()) by {
        reveal(Seq::filter);
    }
    while i < list.len()
        invariant
            i <= list@.len(),
            keep == (|o: Owned| fleet::is_present(model::table(rows@), o)),
            out@ == list@.take(i as int).filter(keep),
        decreases list@.len() - i,
    {
        assert(list@.take(i + 1) =~= list@.take(i as int).push(list@[i as int]));
        proof {
            list@.take(i as int).lemma_filter_push(list@[i as int], keep);
        }
        let here = present(rows, list[i]);
        assert(here == keep(list@[i as int]));
        if here {
            out.push(list[i]);
        }
        i += 1;
    }
    assert(list@.take(i as int) =~= list@);
    out
}

fn show_members(list: &Vec<Owned>) -> (j: Json)
    ensures
        j@ == members_json(list@),
{
    let ghost look = |o: Owned|
        JsonModel::List(
            seq![JsonModel::Integer(o.pid as int), JsonModel::Integer(o.start_time as int)],
        );
    let mut out: Vec<Json> = Vec::new();
    let mut i: usize = 0;
    while i < list.len()
        invariant
            i <= list@.len(),
            out@.len() == i,
            look == (|o: Owned|
                JsonModel::List(
                    seq![JsonModel::Integer(o.pid as int), JsonModel::Integer(o.start_time as int)],
                )),
            json::models(out@) == list@.map_values(look).take(i as int),
        decreases list@.len() - i,
    {
        let pair = vec![Json::UInt(list[i].pid as u64), Json::UInt(list[i].start_time)];
        let ghost o = list@[i as int];
        assert(json::models(pair@) =~= seq![
            JsonModel::Integer(o.pid as int),
            JsonModel::Integer(o.start_time as int),
        ]);
        out.push(list_of(pair));
        assert(json::models(out@) =~= list@.map_values(look).take(i + 1));
        i += 1;
    }
    assert(json::models(out@) =~= list@.map_values(look));
    list_of(out)
}

fn check_next(service: String, group: u32, alive: Vec<Owned>, next: usize) -> (r: Progress<Stop, ()>)
    ensures
        r@ == stop_check(service@, group, alive@, next as int),
{
    if next < alive.len() {
        Progress::Act(
            Action::Look,
            StopTask { service, stage: StopStage::Checking { group, alive, next } },
        )
    } else {
        Progress::Act(Action::Pause, StopTask { service, stage: StopStage::Settling { alive } })
    }
}

/// Begins to stop a service.
pub fn stop_owned(service: &str) -> (r: Progress<Stop, ()>)
    ensures
        r@ == stop_first(service@),
{
    Progress::Act(
        Action::Look,
        StopTask { service: service.to_string(), stage: StopStage::Looking },
    )
}

impl Engine {
    fn stop_begin(&self, service: String, r: &Readings) -> (p: Progress<Stop, ()>)
        ensures
            p@ == stop_looked(self@, service@, r@),
    {
        let group: u32 = match self.fleet.owned().get(service.as_str()) {
            None => {
                return Progress::Over(Err(Denial::NotOwned));
            },
            Some(o) => o.pid,
        };
        if !in_group(&r.rows, group, group) {
            return Progress::Over(Err(Denial::GroupMismatch));
        }
        let list = group_members(&r.rows, group);
        let f = vec![
            field("service", text(service.as_str())),
            field("members", show_members(&list)),
        ];
        assert(json::fields(f@) =~= intent_fields(service@, list@));
        Progress::Act(
            Action::Record { event: "service_stop_intent".to_string(), detail: object_of(f) },
            StopTask { service, stage: StopStage::Intending { group, members: list } },
        )
    }

    /// Goes on with a stop.
    pub fn stop_step(&mut self, task: Stop, event: Happening) -> (p: Progress<Stop, ()>)
        ensures
            (final(self)@, p@) == stop_next(old(self)@, task@, event@),
    {
        let StopTask { service, stage } = task;
        match (stage, event) {
            (StopStage::Looking, Event::Seen(r)) => {
                self.refresh(&r);
                self.stop_begin(service, &r)
            },
            (StopStage::Intending { group, members }, Event::Done) => Progress::Act(
                Action::Terminate { group },
                StopTask { service, stage: StopStage::Terminating { group, members } },
            ),
            (StopStage::Terminating { group, members }, Event::Sent(now)) => Progress::Act(
                Action::Look,
                StopTask {
                    service,
                    stage: StopStage::Watching {
                        group,
                        members,
                        deadline_ms: now.saturating_add(2000),
                    },
                },
            ),
            (StopStage::Terminating { group: _, members: _ }, Event::Failed(_)) => Progress::Over(
                Err(Denial::TermFailed),
            ),
            (StopStage::Watching { group, members, deadline_ms }, Event::Seen(r)) => {
                let alive = alive_of(&r.rows, &members);
                if alive.len() == 0 {
                    self.fleet.disown(service.as_str());
                    Progress::Act(
                        record_service("service_stopped", service.as_str()),
                        StopTask { service, stage: StopStage::Closing },
                    )
                } else if r.now_ms >= deadline_ms {
                    check_next(service, group, alive, 0)
                } else {
                    Progress::Act(
                        Action::Pause,
                        StopTask {
                            service,
                            stage: StopStage::Watching { group, members, deadline_ms },
                        },
                    )
                }
            },
            (StopStage::Checking { group, alive, next }, Event::Seen(r)) => {
                if next < alive.len() && member(&r.rows, alive[next], group) {
                    let pid: u32 = alive[next].pid;
                    Progress::Act(
                        Action::Kill { pid },
                        StopTask { service, stage: StopStage::Killing { group, alive, next } },
                    )
                } else if next < alive.len() {
                    check_next(service, group, alive, next + 1)
                } else {
                    Progress::Act(
                        Action::Pause,
                        StopTask { service, stage: StopStage::Settling { alive } },
                    )
                }
            },
            (StopStage::Killing { group, alive, next }, _) => {
                if next < alive.len() {
                    check_next(service, group, alive, next + 1)
                } else {
                    Progress::Act(
                        Action::Pause,
                        StopTask { service, stage: StopStage::Settling { alive } },
                    )
                }
            },
            (StopStage::Settling { alive }, Event::Seen(r)) => {
                if alive_of(&r.rows, &alive).len() > 0 {
                    Progress::Over(Err(Denial::StopIncomplete))
                } else {
                    self.fleet.disown(service.as_str());
                    let f = vec![
                        field("service", text(service.as_str())),
                        field("escalated", Json::Bool(true)),
                    ];
                    assert(json::fields(f@) =~= escalated_fields(service@));
                    Progress::Act(
                        Action::Record {
                            event: "service_stopped".to_string(),
                            detail: object_of(f),
                        },
                        StopTask { service, stage: StopStage::Closing },
                    )
                }
            },
            (StopStage::Closing, Event::Done) => Progress::Over(Ok(())),
            (StopStage::Intending { group: _, members: _ }, Event::Failed(s)) => {
                self.storage_failed = true;
                Progress::Over(Err(Denial::Failed(s)))
            },
            (StopStage::Closing, Event::Failed(s)) => {
                self.storage_failed = true;
                Progress::Over(Err(Denial::Failed(s)))
            },
            _ => Progress::Over(Err(Denial::OutOfTurn)),
        }
    }
}

/// A stop that began on the readings `seen`, with `owned` as it then stood: the
/// service was owned and led its own process group, and everything that the stop
/// goes on with is of that group.
pub open spec fn is_under_way(owned: fleet::OwnedSeq, seen: ReadingsModel, t: StopModel) -> bool {
    let group = ids::value(owned, t.service).pid;
    let all = members(seen.rows, group);
    &&& ids::has(owned, t.service)
    &&& is_in_group(seen.rows, group, group)
    &&& match t.stage {
        StopStage::Looking => false,
        StopStage::Intending { group: g, members } => g == group && members == all,
        StopStage::Terminating { group: g, members } => g == group && members == all,
        StopStage::Watching { group: g, members, .. } => g == group && members == all,
        StopStage::Checking { group: g, alive, .. } => g == group && all_among(alive, all),
        StopStage::Killing { group: g, alive, .. } => g == group && all_among(alive, all),
        StopStage::Settling { alive } => all_among(alive, all),
        StopStage::Closing => true,
    }
}

pub open spec fn all_among(list: Seq<Owned>, all: Seq<Owned>) -> bool {
    forall|k: int| 0 <= k < list.len() ==> all.contains(#[trigger] list[k])
}

/// The signals that a stop may send: one to the group of a process that was owned
/// when the stop began, and a kill to a process that was a member of the group
/// then and is, by number, start time and group, the same member now.
pub open spec fn is_rightful(
    owned: fleet::OwnedSeq,
    seen: ReadingsModel,
    service: Seq<char>,
    ev: HappeningModel,
    a: Action<Seq<char>, JsonModel>,
) -> bool {
    let group = ids::value(owned, service).pid;
    match a {
        Action::Terminate { group: g } => g == group,
        Action::Kill { pid } => exists|o: Owned| #[trigger]
            members(seen.rows, group).contains(o) && o.pid == pid && ev is Seen && is_member(
                ev->Seen_0.rows,
                o,
                group,
            ),
        Action::Discard { .. } => false,
        Action::Spawn { .. } => false,
        _ => true,
    }
}

/// A stop goes on only where the service is owned and leads its own group; it
/// then sends nothing yet.
pub proof fn law_stop_begins_on_owned_group(e: EngineModel, t: StopModel, r: ReadingsModel)
    requires
        t.stage is Looking,
    ensures
        ({
            let (after, p) = stop_next(e, t, Event::Seen(r));
            &&& after == engine::refreshed(e, r)
            &&& p matches ProgressModel::Act(a, next) ==> a is Record && next.service == t.service
                && is_under_way(after.owned, r, next)
            &&& p matches ProgressModel::Over(res) ==> res is Err
        }),
{
}

/// Every later step of a stop sends rightful signals only, and keeps to the group
/// that it began on. It changes no job, and gives up no other service; when it
/// succeeds the service is no longer owned.
pub proof fn law_stop_signals_only_its_group(
    owned: fleet::OwnedSeq,
    seen: ReadingsModel,
    e: EngineModel,
    t: StopModel,
    ev: HappeningModel,
)
    requires
        is_under_way(owned, seen, t),
        ids::ascending(ids::keys(e.owned)),
        t.stage is Closing ==> !ids::has(e.owned, t.service),
    ensures
        ({
            let (after, p) = stop_next(e, t, ev);
            &&& after.jobs == e.jobs && after.config == e.config
            &&& after.owned == e.owned || after.owned == ids::without(e.owned, t.service)
            &&& e.storage_failed ==> after.storage_failed
            &&& p matches ProgressModel::Act(a, next) ==> {
                &&& next.service == t.service
                &&& is_under_way(owned, seen, next)
                &&& is_rightful(owned, seen, t.service, ev, a)
                &&& next.stage is Closing ==> !ids::has(after.owned, t.service)
            }
            &&& p == ProgressModel::<StopModel, ()>::Over(Ok(())) ==> !ids::has(
                after.owned,
                t.service,
            )
        }),
{
    let group = ids::value(owned, t.service).pid;
    let all = members(seen.rows, group);
    ids::lemma_without(e.owned, t.service);
    match (t.stage, ev) {
        (StopStage::Watching { members, .. }, Event::Seen(r)) => {
            let keep = |o: Owned| fleet::is_present(r.rows, o);
            let alive = still_alive(r.rows, members);
            assert forall|k: int| 0 <= k < alive.len() implies all.contains(#[trigger] alive[k]) by {
                assert(alive.contains(alive[k]));
                members.lemma_filter_contains_rev(keep, alive[k]);
            }
        },
        (StopStage::Checking { alive, next, .. }, Event::Seen(r)) => {
            if next < alive.len() && is_member(r.rows, alive[next as int], group) {
                assert(all.contains(alive[next as int]));
            }
        },
        _ => {},
    }
}

/// A stop waits for its group no longer than until its deadline, and checks each
/// process that is left once.
pub proof fn law_stop_comes_to_an_end(e: EngineModel, t: StopModel, r: ReadingsModel)
    ensures
        ({
            let p = stop_next(e, t, Event::Seen(r)).1;
            &&& t.stage matches StopStage::Watching { deadline_ms, .. } ==> r.now_ms >= deadline_ms
                ==> p is Act && !(p->Act_1.stage is Watching)
            &&& t.stage matches StopStage::Checking { alive, next, .. } ==> {
                ||| p matches ProgressModel::Act(_, n) && (n.stage matches StopStage::Killing {
                    alive: a,
                    next: k,
                    ..
                } && a == alive && k == next)
                ||| p == stop_check(t.service, t.stage->Checking_group, alive, next + 1)
            }
            &&& t.stage is Settling ==> p is Over || p->Act_1.stage is Closing
        }),
{
}

/// A stop leaves a supervisor well-formed.
pub proof fn law_stop_keeps_form(e: EngineModel, t: StopModel, ev: HappeningModel)
    requires
        engine::is_well_formed(e),
    ensures
        engine::is_well_formed(stop_next(e, t, ev).0),
        stop_next(e, t, ev).0.jobs == e.jobs,
        stop_next(e, t, ev).0.config == e.config,
{
    if let Event::Seen(r) = ev {
        engine::law_refreshed_is_well_formed(e, r);
    }
    ids::lemma_without(e.owned, t.service);
    fleet::lemma_without_configured(e.config.services, e.owned, t.service);
}

/// The processes that a stop has in hand.
pub open spec fn in_hand(stage: StopStage<Seq<Owned>>) -> Seq<Owned> {
    match stage {
        StopStage::Intending { members, .. } => members,
        StopStage::Terminating { members, .. } => members,
        StopStage::Watching { members, .. } => members,
        StopStage::Checking { alive, .. } => alive,
        StopStage::Killing { alive, .. } => alive,
        StopStage::Settling { alive } => alive,
        _ => Seq::empty(),
    }
}

/// What is left of a list is what of it is in the table.
proof fn lemma_still_alive(rows: Seq<ProcessModel>, list: Seq<Owned>)
    ensures
        forall|o: Owned| #[trigger]
            still_alive(rows, list).contains(o) <==> list.contains(o) && exists|k: int|
                0 <= k < rows.len() && (#[trigger] rows[k]).pid == o.pid && rows[k].start_time
                    == o.start_time,
        still_alive(rows, list).len() == 0 <==> forall|j: int, k: int|
            0 <= j < list.len() && 0 <= k < rows.len() ==> !((#[trigger] rows[k]).pid == (
            #[trigger] list[j]).pid && rows[k].start_time == list[j].start_time),
{
    let keep = |o: Owned| fleet::is_present(rows, o);
    let left = still_alive(rows, list);
    assert forall|o: Owned| #[trigger] left.contains(o) <==> list.contains(o) && exists|k: int|
        0 <= k < rows.len() && (#[trigger] rows[k]).pid == o.pid && rows[k].start_time
            == o.start_time by {
        if left.contains(o) {
            list.lemma_filter_contains_rev(keep, o);
            let i = choose|i: int| 0 <= i < left.len() && left[i] == o;
            list.lemma_filter_pred(keep, i);
        }
        if list.contains(o) && keep(o) {
            let i = choose|i: int| 0 <= i < list.len() && list[i] == o;
            list.lemma_filter_contains(keep, i);
        }
    }
    if left.len() > 0 {
        let o = left[0];
        assert(left.contains(o));
        let j = choose|j: int| 0 <= j < list.len() && list[j] == o;
        let k = choose|k: int|
            0 <= k < rows.len() && (#[trigger] rows[k]).pid == o.pid && rows[k].start_time
                == o.start_time;
        assert(rows[k].pid == list[j].pid);
    } else {
        assert forall|j: int, k: int|
            0 <= j < list.len() && 0 <= k < rows.len() implies !((#[trigger] rows[k]).pid == (
        #[trigger] list[j]).pid && rows[k].start_time == list[j].start_time) by {
            if rows[k].pid == list[j].pid && rows[k].start_time == list[j].start_time {
                assert(list.contains(list[j]));
                assert(left.contains(list[j]));
            }
        }
    }
}

/// A stop begins on the whole group: it has in hand just the processes that the
/// table shows in the group of the owned process, each with its start time. It is
/// refused where nothing is owned for the service, and where the owned process
/// does not lead a group of its own.
#[verifier::rlimit(60)]
#[verifier::spinoff_prover]
pub proof fn law_stop_takes_the_whole_group(
    e: EngineModel,
    t: StopModel,
    r: ReadingsModel,
    i: int,
)
    requires
        t.stage is Looking,
        engine::is_well_formed(e),
        0 <= i < engine::refreshed(e, r).owned.len(),
        engine::refreshed(e, r).owned[i].0 == t.service,
    ensures
        ({
            let pid = engine::refreshed(e, r).owned[i].1.pid;
            let p = stop_next(e, t, Event::Seen(r)).1;
            let leads = exists|k: int|
                0 <= k < r.rows.len() && (#[trigger] r.rows[k]).pid == pid && r.rows[k].group
                    == Some(pid);
            &&& !leads ==> p == ProgressModel::<StopModel, ()>::Over(Err(Denial::GroupMismatch))
            &&& leads ==> {
                &&& p matches ProgressModel::Act(a, next)
                &&& next.service == t.service
                &&& next.stage matches StopStage::Intending { group, members }
                &&& group == pid
                &&& forall|o: Owned| #[trigger]
                    members.contains(o) <==> exists|k: int|
                        0 <= k < r.rows.len() && (#[trigger] r.rows[k]).pid == o.pid
                            && r.rows[k].start_time == o.start_time && r.rows[k].group == Some(pid)
                &&& a matches Action::Record { event, detail } && event == "service_stop_intent"@
                    && json::as_map(detail).contains_pair("service"@, JsonModel::Text(t.service))
                    && json::as_map(detail).contains_pair("members"@, members_json(members))
            }
        }),
{
    let after = engine::refreshed(e, r);
    engine::law_refreshed_is_well_formed(e, r);
    ids::lemma_at(after.owned, i);
    let pid = after.owned[i].1.pid;
    let keep = |p: ProcessModel| p.group == Some(pid);
    let look = |p: ProcessModel| identity(p);
    let part = r.rows.filter(keep);
    let list = members(r.rows, pid);
    assert forall|o: Owned| #[trigger] list.contains(o) <==> exists|k: int|
        0 <= k < r.rows.len() && (#[trigger] r.rows[k]).pid == o.pid && r.rows[k].start_time
            == o.start_time && r.rows[k].group == Some(pid) by {
        if list.contains(o) {
            let j = choose|j: int| 0 <= j < list.len() && list[j] == o;
            assert(list[j] == identity(part[j]));
            assert(part.contains(part[j]));
            r.rows.lemma_filter_contains_rev(keep, part[j]);
            r.rows.lemma_filter_pred(keep, j);
            let k = choose|k: int| 0 <= k < r.rows.len() && r.rows[k] == part[j];
            assert(r.rows[k].pid == o.pid);
        }
        assert forall|k: int|
            0 <= k < r.rows.len() && (#[trigger] r.rows[k]).pid == o.pid && r.rows[k].start_time
                == o.start_time && r.rows[k].group == Some(pid) implies list.contains(o) by {
            r.rows.lemma_filter_contains(keep, k);
            let j = choose|j: int| 0 <= j < part.len() && part[j] == r.rows[k];
            assert(list[j] == identity(part[j]));
            assert(list[j] == o);
        }
    }
    reveal_strlit("service");
    reveal_strlit("members");
    let f = intent_fields(t.service, list);
    assert("service"@[0] != "members"@[0]);
    assert(f[0].0 != f[1].0);
    json::lemma_last_field(f, 0);
    json::lemma_last_field(f, 1);
}

/// A stop gives nothing up and comes to no end before every process that it has in
/// hand is gone: it gives up the service, and goes to its closing record, only on
/// a look at the machine at which none of them is in the table with its number and
/// start time. It succeeds only once that record is written.
#[verifier::rlimit(60)]
#[verifier::spinoff_prover]
pub proof fn law_stop_ends_only_when_all_are_gone(e: EngineModel, t: StopModel, ev: HappeningModel)
    requires
        engine::is_well_formed(e),
        !(t.stage is Looking),
    ensures
        ({
            let (after, p) = stop_next(e, t, ev);
            let given_up = after.owned != e.owned;
            let closing = p matches ProgressModel::Act(_, next) && next.stage is Closing;
            &&& given_up || closing ==> {
                &&& t.stage is Watching || t.stage is Settling
                &&& ev matches Event::Seen(r)
                &&& forall|j: int, k: int|
                    0 <= j < in_hand(t.stage).len() && 0 <= k < r.rows.len() ==> !((
                    #[trigger] r.rows[k]).pid == (#[trigger] in_hand(t.stage)[j]).pid
                        && r.rows[k].start_time == in_hand(t.stage)[j].start_time)
                &&& forall|x: Seq<char>| #[trigger]
                    ids::has(after.owned, x) <==> ids::has(e.owned, x) && x != t.service
            }
            &&& p == ProgressModel::<StopModel, ()>::Over(Ok(())) ==> t.stage is Closing
                && ev is Done
            &&& after.storage_failed != e.storage_failed ==> ev is Failed && (t.stage is Intending
                || t.stage is Closing)
        }),
{
    ids::lemma_without(e.owned, t.service);
    if let Event::Seen(r) = ev {
        lemma_still_alive(r.rows, in_hand(t.stage));
    }
}

/// Where all that it has in hand is gone, a stop gives up the service and records
/// it; with `escalated` where it had come to that.
#[verifier::rlimit(60)]
#[verifier::spinoff_prover]
pub proof fn law_stop_closes_once_all_are_gone(e: EngineModel, t: StopModel, r: ReadingsModel)
    requires
        engine::is_well_formed(e),
        t.stage is Watching || t.stage is Settling,
        forall|j: int, k: int|
            0 <= j < in_hand(t.stage).len() && 0 <= k < r.rows.len() ==> !((
            #[trigger] r.rows[k]).pid == (#[trigger] in_hand(t.stage)[j]).pid
                && r.rows[k].start_time == in_hand(t.stage)[j].start_time),
    ensures
        ({
            let (after, p) = stop_next(e, t, Event::Seen(r));
            &&& !ids::has(after.owned, t.service)
            &&& p matches ProgressModel::Act(a, next)
            &&& next.service == t.service && next.stage is Closing
            &&& a matches Action::Record { event, detail }
            &&& event == "service_stopped"@
            &&& json::as_map(detail).contains_pair("service"@, JsonModel::Text(t.service))
            &&& t.stage is Settling ==> json::as_map(detail).contains_pair(
                "escalated"@,
                JsonModel::Bool(true),
            )
            &&& t.stage is Watching ==> !json::as_map(detail).contains_key("escalated"@)
        }),
{
    ids::lemma_without(e.owned, t.service);
    lemma_still_alive(r.rows, in_hand(t.stage));
    reveal_strlit("service");
    reveal_strlit("escalated");
    let f = escalated_fields(t.service);
    assert("service"@.len() != "escalated"@.len());
    assert(f[0].0 != f[1].0);
    json::lemma_last_field(f, 0);
    json::lemma_last_field(f, 1);
    let g = seq![("service"@, JsonModel::Text(t.service))];
    json::lemma_object(g);
    json::lemma_last_field(g, 0);
}

/// No process is lost from sight: what a stop has in hand it keeps in hand for as
/// long as the machine shows it, and takes nothing else up.
#[verifier::rlimit(60)]
#[verifier::spinoff_prover]
pub proof fn law_stop_keeps_survivors_in_hand(e: EngineModel, t: StopModel, ev: HappeningModel)
    requires
        !(t.stage is Looking),
        stop_next(e, t, ev).1 is Act,
    ensures
        ({
            let next = stop_next(e, t, ev).1->Act_1;
            &&& next.service == t.service
            &&& forall|o: Owned| #[trigger]
                in_hand(next.stage).contains(o) ==> in_hand(t.stage).contains(o)
            &&& forall|o: Owned| #[trigger]
                in_hand(t.stage).contains(o) ==> in_hand(next.stage).contains(o) || (
                ev matches Event::Seen(r) && forall|k: int|
                    0 <= k < r.rows.len() ==> !((#[trigger] r.rows[k]).pid == o.pid
                        && r.rows[k].start_time == o.start_time))
        }),
{
    if let Event::Seen(r) = ev {
        lemma_still_alive(r.rows, in_hand(t.stage));
        let held = in_hand(t.stage);
        assert forall|o: Owned| held.contains(o) && still_alive(r.rows, held).len()
            == 0 implies forall|k: int|
            0 <= k < r.rows.len() ==> !((#[trigger] r.rows[k]).pid == o.pid && r.rows[k].start_time
                == o.start_time) by {
            let j = choose|j: int| 0 <= j < held.len() && held[j] == o;
            assert(held[j] == o);
        }
    }
}

/// A process that does not end of itself has two seconds from the request to do so,
/// and is waited for until then; after that the survivors are gone through one by
/// one.
#[verifier::rlimit(60)]
#[verifier::spinoff_prover]
pub proof fn law_survivors_have_two_seconds(
    e: EngineModel,
    service: Seq<char>,
    group: u32,
    members: Seq<Owned>,
    sent_ms: u64,
    r: ReadingsModel,
    j: int,
    k: int,
)
    requires
        0 <= j < members.len(),
        0 <= k < r.rows.len(),
        r.rows[k].pid == members[j].pid,
        r.rows[k].start_time == members[j].start_time,
        sent_ms + 2000 <= u64::MAX,
    ensures
        ({
            let t = StopTask { service, stage: StopStage::Terminating { group, members } };
            let sent = stop_next(e, t, Event::Sent(sent_ms)).1;
            &&& sent matches ProgressModel::Act(a, watching)
            &&& a == Action::<Seq<char>, JsonModel>::Look
            &&& watching.stage is Watching
            &&& in_hand(watching.stage) == members
            &&& r.now_ms < sent_ms + 2000 ==> stop_next(e, watching, Event::Seen(r)) == (
                e,
                ProgressModel::<StopModel, ()>::Act(Action::Pause, watching),
            )
            &&& r.now_ms >= sent_ms + 2000 ==> {
                let (after, p) = stop_next(e, watching, Event::Seen(r));
                &&& after == e
                &&& p matches ProgressModel::Act(b, next)
                &&& b == Action::<Seq<char>, JsonModel>::Look
                &&& next.stage matches StopStage::Checking { group: g, alive, next: n }
                &&& g == group && n == 0
                &&& alive.contains(members[j])
            }
        }),
{
    lemma_still_alive(r.rows, members);
    assert(members.contains(members[j]));
    assert(still_alive(r.rows, members).contains(members[j]));
}

/// Every survivor is looked at once more and, if it is still that process and still
/// in the group, killed; then the next one, and after the last one a pause.
#[verifier::rlimit(60)]
#[verifier::spinoff_prover]
pub proof fn law_every_survivor_is_killed(
    e: EngineModel,
    service: Seq<char>,
    group: u32,
    alive: Seq<Owned>,
    n: usize,
    r: ReadingsModel,
    ev: HappeningModel,
)
    requires
        n < alive.len() <= usize::MAX,
    ensures
        ({
            let checking = StopTask { service, stage: StopStage::Checking { group, alive, next: n } };
            let killing = StopTask { service, stage: StopStage::Killing { group, alive, next: n } };
            let there = exists|k: int|
                0 <= k < r.rows.len() && (#[trigger] r.rows[k]).pid == alive[n as int].pid
                    && r.rows[k].start_time == alive[n as int].start_time && r.rows[k].group
                    == Some(group);
            let on = if n + 1 < alive.len() {
                ProgressModel::<StopModel, ()>::Act(
                    Action::Look,
                    StopTask {
                        service,
                        stage: StopStage::Checking { group, alive, next: (n + 1) as usize },
                    },
                )
            } else {
                ProgressModel::<StopModel, ()>::Act(
                    Action::Pause,
                    StopTask { service, stage: StopStage::Settling { alive } },
                )
            };
            &&& there ==> stop_next(e, checking, Event::Seen(r)) == (
                e,
                ProgressModel::<StopModel, ()>::Act(
                    Action::Kill { pid: alive[n as int].pid },
                    killing,
                ),
            )
            &&& !there ==> stop_next(e, checking, Event::Seen(r)) == (e, on)
            &&& stop_next(e, killing, ev) == (e, on)
        }),
{
    let o = alive[n as int];
    if is_member(r.rows, o, group) {
        let k = choose|k: int|
            0 <= k < r.rows.len() && identity(#[trigger] r.rows[k]) == o && r.rows[k].group
                == Some(group);
        assert(r.rows[k].pid == o.pid);
    }
    assert forall|k: int|
        0 <= k < r.rows.len() && (#[trigger] r.rows[k]).pid == o.pid && r.rows[k].start_time
            == o.start_time && r.rows[k].group == Some(group) implies is_member(
        r.rows,
        o,
        group,
    ) by {
        assert(identity(r.rows[k]) == o);
    }
}

/// A stop that cannot be completed says so, and leaves the service owned: where
/// the request to end could not be sent, where a survivor is still there after
/// all, and where the record could not be written.
#[verifier::rlimit(60)]
#[verifier::spinoff_prover]
pub proof fn law_incomplete_stop_keeps_ownership(
    e: EngineModel,
    t: StopModel,
    r: ReadingsModel,
    j: int,
    k: int,
    s: Seq<char>,
)
    ensures
        t.stage is Settling && 0 <= j < in_hand(t.stage).len() && 0 <= k < r.rows.len()
            && r.rows[k].pid == in_hand(t.stage)[j].pid && r.rows[k].start_time == in_hand(
            t.stage,
        )[j].start_time ==> stop_next(e, t, Event::Seen(r)) == (
            e,
            ProgressModel::<StopModel, ()>::Over(Err(Denial::StopIncomplete)),
        ),
        t.stage is Terminating ==> stop_next(e, t, Event::Failed(s)) == (
            e,
            ProgressModel::<StopModel, ()>::Over(Err(Denial::TermFailed)),
        ),
        t.stage is Intending || t.stage is Closing ==> stop_next(e, t, Event::Failed(s)) == (
            EngineModel { storage_failed: true, ..e },
            ProgressModel::<StopModel, ()>::Over(Err(Denial::Failed(s))),
        ),
        t.stage is Closing ==> stop_next(e, t, Event::Done) == (
            e,
            ProgressModel::<StopModel, ()>::Over(Ok(())),
        ),
        t.stage matches StopStage::Intending { group, members } ==> stop_next(e, t, Event::Done)
            == (
            e,
            ProgressModel::<StopModel, ()>::Act(
                Action::Terminate { group },
                StopTask { service: t.service, stage: StopStage::Terminating { group, members } },
            ),
        ),
        t.stage is Looking && (forall|i: int|
            0 <= i < engine::refreshed(e, r).owned.len() ==> (
            #[trigger] engine::refreshed(e, r).owned[i]).0 != t.service) ==> stop_next(
            e,
            t,
            Event::Seen(r),
        ) == (
            engine::refreshed(e, r),
            ProgressModel::<StopModel, ()>::Over(Err(Denial::NotOwned)),
        ),
{
    lemma_still_alive(r.rows, in_hand(t.stage));
    let owned = engine::refreshed(e, r).owned;
    if ids::has(owned, t.service) {
        let i = ids::keys(owned).index_of(t.service);
        assert(owned[i].0 == t.service);
    }
}

/// The record of a stop lists every process with its number and start time.
pub proof fn law_recorded_members_are_pairs(list: Seq<Owned>, i: int)
    requires
        0 <= i < list.len(),
    ensures
        members_json(list) matches JsonModel::List(l) && l.len() == list.len() && l[i]
            == JsonModel::List(
            seq![
                JsonModel::Integer(list[i].pid as int),
                JsonModel::Integer(list[i].start_time as int),
            ],
        ),
{
}

} // verus!
