//! Starting a service: nothing may stand in its place, its program is run as the
//! leader of a process group of its own, and it has to pass its checks in time.

use vstd::prelude::*;
use vstd::string::*;
use crate::action;
use crate::action::{record_service, Action, Event, Happening, HappeningModel, Progress, ProgressModel};
use crate::attribution;
use crate::config::Mode;
use crate::denial::Denial;
use crate::engine;
use crate::engine::{Engine, EngineModel};
use crate::fleet;
use crate::gate;
use crate::ids;
use crate::json;
use crate::json::JsonModel;
use crate::model;
use crate::model::{Owned, Process, ProcessModel};
use crate::sight;
use crate::sight::{Readings, ReadingsModel, SightModel};
use crate::stop;
use crate::stop::{stop_owned, Stop, StopTask};
use crate::text::same;
use crate::views;
use crate::views::{service_health, service_reachable};

verus! {

/// What a start is waiting for.
#[derive(Debug, PartialEq)]
pub enum StartStage<T, L> {
    Looking,
    Preparing,
    Intending,
    Spawning,
    Registering { pid: u32 },
    Discarding,
    Waiting { deadline_ms: u64 },
    Announcing,
    Undoing(StopTask<T, L>),
}

/// A start under way.
#[derive(Debug, PartialEq)]
pub struct StartTask<T, L> {
    pub service: T,
    pub stage: StartStage<T, L>,
}

pub type Start = StartTask<String, Vec<Owned>>;

pub type StartModel = StartTask<Seq<char>, Seq<Owned>>;

impl View for StartTask<String, Vec<Owned>> {
    type V = StartTask<Seq<char>, Seq<Owned>>;

    open spec fn view(&self) -> StartTask<Seq<char>, Seq<Owned>> {
        StartTask {
            service: self.service@,
            stage: match self.stage {
                StartStage::Looking => StartStage::Looking,
                StartStage::Preparing => StartStage::Preparing,
                StartStage::Intending => StartStage::Intending,
                StartStage::Spawning => StartStage::Spawning,
                StartStage::Registering { pid } => StartStage::Registering { pid },
                StartStage::Discarding => StartStage::Discarding,
                StartStage::Waiting { deadline_ms } => StartStage::Waiting { deadline_ms },
                StartStage::Announcing => StartStage::Announcing,
                StartStage::Undoing(t) => StartStage::Undoing(t@),
            },
        }
    }
}

pub type StartProgress = ProgressModel<StartModel, ()>;

/// The readings with every process attributed.
pub open spec fn attributed(e: EngineModel, r: ReadingsModel) -> ReadingsModel {
    ReadingsModel { rows: attribution::attributed(e.config.services, e.owned, r.rows), ..r }
}

/// Some process belongs to the service.
pub open spec fn has_process(rows: Seq<ProcessModel>, id: Seq<char>) -> bool {
    exists|k: int| 0 <= k < rows.len() && (#[trigger] rows[k]).service == Some(id)
}

/// The step of a start that waits at `stage`.
pub open spec fn waits(
    a: Action<Seq<char>, JsonModel>,
    service: Seq<char>,
    stage: StartStage<Seq<char>, Seq<Owned>>,
) -> StartProgress {
    ProgressModel::Act(a, StartTask { service, stage })
}

/// How a start begins.
pub open spec fn start_first(e: EngineModel, service: Seq<char>) -> StartProgress {
    match engine::action_denial(e, service, "start"@) {
        Some(d) => ProgressModel::Over(Err(d)),
        None => waits(Action::Look, service, StartStage::Looking),
    }
}

/// The service is already owned, or something stands in its place, or the way is
/// free.
pub open spec fn start_looked(e: EngineModel, service: Seq<char>, r: ReadingsModel) -> StartProgress {
    if ids::has(e.owned, service) {
        ProgressModel::Over(Ok(()))
    } else if !ids::has(e.config.services, service) {
        ProgressModel::Over(Err(Denial::UnknownService))
    } else if has_process(attributed(e, r).rows, service) {
        ProgressModel::Over(Err(Denial::External))
    } else if views::is_reachable(ids::value(e.config.services, service), r) {
        ProgressModel::Over(Err(Denial::PortConflict))
    } else {
        waits(Action::Prepare { service }, service, StartStage::Preparing)
    }
}

/// The start time of the process of that number.
pub open spec fn start_time(rows: Seq<ProcessModel>, pid: u32) -> Option<u64>
    decreases rows.len(),
{
    if rows.len() == 0 {
        None
    } else if rows.first().pid == pid {
        Some(rows.first().start_time)
    } else {
        start_time(rows.drop_first(), pid)
    }
}

/// The state once the service is owned.
pub open spec fn owning(e: EngineModel, service: Seq<char>, o: Owned) -> EngineModel {
    EngineModel { owned: ids::with(e.owned, service, o), ..e }
}

/// The service passes its checks, as far as it has any.
pub open spec fn is_up(e: EngineModel, service: Seq<char>, r: ReadingsModel) -> bool {
    views::health(ids::value(e.config.services, service), service, attributed(e, r)) != Some(false)
}

/// How the undoing of a start ends.
pub open spec fn undone(service: Seq<char>, p: stop::StopProgress) -> StartProgress {
    match p {
        ProgressModel::Act(a, t) => waits(a, service, StartStage::Undoing(t)),
        ProgressModel::Over(Ok(())) => ProgressModel::Over(Err(Denial::HealthTimeout(None))),
        ProgressModel::Over(Err(d)) => ProgressModel::Over(
            Err(Denial::HealthTimeout(Some(d.text()))),
        ),
    }
}

/// How a start goes on.
pub open spec fn start_next(e: EngineModel, t: StartModel, ev: HappeningModel) -> (
    EngineModel,
    StartProgress,
) {
    let service = t.service;
    match (t.stage, ev) {
        (StartStage::Looking, Event::Seen(r)) => {
            let e = engine::refreshed(e, r);
            (e, start_looked(e, service, r))
        },
        (StartStage::Preparing, Event::Done) => (
            e,
            waits(
                action::service_event("service_start_intent"@, service),
                service,
                StartStage::Intending,
            ),
        ),
        (StartStage::Preparing, Event::Failed(s)) => (
            e,
            ProgressModel::Over(Err(Denial::Failed(s))),
        ),
        (StartStage::Intending, Event::Done) => (
            e,
            waits(Action::Spawn { service }, service, StartStage::Spawning),
        ),
        (StartStage::Spawning, Event::Spawned(pid)) => (
            e,
            waits(Action::Look, service, StartStage::Registering { pid }),
        ),
        (StartStage::Spawning, Event::Failed(_)) => (
            e,
            ProgressModel::Over(Err(Denial::SpawnFailed)),
        ),
        (StartStage::Registering { pid }, Event::Seen(r)) => {
            if !ids::has(e.config.services, service) {
                (e, ProgressModel::Over(Err(Denial::UnknownService)))
            } else {
                match start_time(r.rows, pid) {
                    None => (
                        e,
                        waits(Action::Discard { pid }, service, StartStage::Discarding),
                    ),
                    Some(start_time) => (
                        owning(e, service, Owned { pid, start_time }),
                        waits(
                            Action::Pause,
                            service,
                            StartStage::Waiting {
                                deadline_ms: gate::capped(
                                    r.now_ms + ids::value(
                                        e.config.services,
                                        service,
                                    ).startup_timeout_ms,
                                ) as u64,
                            },
                        ),
                    ),
                }
            }
        },
        (StartStage::Discarding, _) => (e, ProgressModel::Over(Err(Denial::ExitedEarly))),
        (StartStage::Waiting { deadline_ms }, Event::Seen(r)) => {
            let e = engine::refreshed(e, r);
            if !ids::has(e.owned, service) {
                (e, ProgressModel::Over(Err(Denial::StartFailed)))
            } else if !ids::has(e.config.services, service) {
                (e, ProgressModel::Over(Err(Denial::UnknownService)))
            } else if is_up(e, service, r) {
                (
                    e,
                    waits(
                        action::service_event("service_started"@, service),
                        service,
                        StartStage::Announcing,
                    ),
                )
            } else if r.now_ms >= deadline_ms {
                (e, undone(service, stop::stop_first(service)))
            } else {
                (e, waits(Action::Pause, service, StartStage::Waiting { deadline_ms }))
            }
        },
        (StartStage::Announcing, Event::Done) => (e, ProgressModel::Over(Ok(()))),
        (StartStage::Intending, Event::Failed(s)) => (
            action::unrecorded(e),
            ProgressModel::Over(Err(Denial::Failed(s))),
        ),
        (StartStage::Announcing, Event::Failed(s)) => (
            action::unrecorded(e),
            ProgressModel::Over(Err(Denial::Failed(s))),
        ),
        (StartStage::Undoing(inner), ev) => {
            let (e, p) = stop::stop_next(e, inner, ev);
            (e, undone(service, p))
        },
        _ => (e, ProgressModel::Over(Err(Denial::OutOfTurn))),
    }
}

fn process_found(rows: &Vec<Process>, id: &str) -> (r: bool)
    ensures
        r == has_process(model::table(rows@), id@),
{
    let ghost t = model::table(rows@);
    let mut i: usize = 0;
    while i < rows.len()
        invariant
            i <= rows@.len(),
            t == model::table(rows@),
            forall|j: int| 0 <= j < i ==> (#[trigger] t[j]).service != Some(id@),
        decreases rows@.len() - i,
    {
        assert(t[i as int] == rows@[i as int]@);
        if let Some(s) = &rows[i].service {
            if same(s.as_str(), id) {
                return true;
            }
        }
        i += 1;
    }
    false
}

fn started_at(rows: &Vec<Process>, pid: u32) -> (r: Option<u64>)
    ensures
        r == start_time(model::table(rows@), pid),
{
    let ghost t = model::table(rows@);
    let mut i: usize = 0;
    assert(t.skip(0) =~= t);
    while i < rows.len()
        invariant
            i <= rows@.len(),
            t == model::table(rows@),
            start_time(t, pid) == start_time(t.skip(i as int), pid),
        decreases rows@.len() - i,
    {
        assert(t.skip(i as int).first() == rows@[i as int]@);
        assert(t.skip(i as int).drop_first() =~= t.skip(i + 1));
        if rows[i].pid == pid {
            return Some(rows[i].start_time);
        }
        i += 1;
    }
    None
}

/// What is true of some attributed process is true whatever order they are in.
proof fn lemma_ranked_reads(t: Seq<ProcessModel>, rows: Seq<ProcessModel>)
    requires
        attribution::is_ranked(t, rows),
    ensures
        forall|id: Seq<char>| #[trigger] has_process(t, id) == has_process(rows, id),
        forall|pid: u32, id: Seq<char>| #[trigger]
            sight::belongs(t, pid, id) == sight::belongs(rows, pid, id),
{
    assert forall|id: Seq<char>| #[trigger] has_process(t, id) == has_process(rows, id) by {
        if has_process(t, id) {
            let k = choose|k: int| 0 <= k < t.len() && (#[trigger] t[k]).service == Some(id);
            attribution::lemma_ranked_same(t, rows, t[k]);
            let j = choose|j: int| 0 <= j < rows.len() && rows[j] == t[k];
            assert(rows[j].service == Some(id));
        }
        if has_process(rows, id) {
            let k = choose|k: int| 0 <= k < rows.len() && (#[trigger] rows[k]).service == Some(id);
            attribution::lemma_ranked_same(t, rows, rows[k]);
            let j = choose|j: int| 0 <= j < t.len() && t[j] == rows[k];
            assert(t[j].service == Some(id));
        }
    }
    assert forall|pid: u32, id: Seq<char>| #[trigger]
        sight::belongs(t, pid, id) == sight::belongs(rows, pid, id) by {
        if sight::belongs(t, pid, id) {
            let k = choose|k: int|
                0 <= k < t.len() && (#[trigger] t[k]).pid == pid && t[k].service == Some(id);
            attribution::lemma_ranked_same(t, rows, t[k]);
            let j = choose|j: int| 0 <= j < rows.len() && rows[j] == t[k];
            assert(rows[j].pid == pid);
        }
        if sight::belongs(rows, pid, id) {
            let k = choose|k: int|
                0 <= k < rows.len() && (#[trigger] rows[k]).pid == pid && rows[k].service == Some(
                    id,
                );
            attribution::lemma_ranked_same(t, rows, rows[k]);
            let j = choose|j: int| 0 <= j < t.len() && t[j] == rows[k];
            assert(t[j].pid == pid);
        }
    }
}

fn undo(service: String, p: Progress<Stop, ()>) -> (r: Progress<Start, ()>)
    ensures
        r@ == undone(service@, p@),
{
    match p {
        Progress::Act(a, t) => Progress::Act(
            a,
            StartTask { service, stage: StartStage::Undoing(t) },
        ),
        Progress::Over(Ok(())) => Progress::Over(Err(Denial::HealthTimeout(None))),
        Progress::Over(Err(d)) => Progress::Over(Err(Denial::HealthTimeout(Some(d.message())))),
    }
}

/// How the program of a service is run. Where `program` is none it is the
/// supervisor's own.
#[derive(Debug, PartialEq, Eq)]
pub struct Launch {
    pub program: Option<String>,
    pub args: Vec<String>,
    pub cwd: Option<String>,
    pub log: String,
}

impl Engine {
    /// How the program of the service is run; none for a service that is not
    /// known or has no command.
    pub fn launch(&self, service: &str) -> (r: Option<Launch>)
        ensures
            ({
                let known = ids::has(self@.config.services, service@);
                let s = ids::value(self@.config.services, service@);
                &&& r is Some <==> known && s.command.len() > 0
                &&& r matches Some(l) ==> {
                    &&& crate::config::opt_text(l.program) == (if s.command[0] == "@self"@ {
                        None
                    } else {
                        Some(s.command[0])
                    })
                    &&& ids::texts(l.args@) == s.command.skip(1)
                    &&& crate::config::opt_text(l.cwd) == s.cwd
                    &&& l.log@ == service@ + ".log"@
                }
            }),
    {
        let s = match self.fleet.config().services.get(service) {
            None => {
                return None;
            },
            Some(s) => s,
        };
        if s.command.len() == 0 {
            return None;
        }
        assert(s@.command[0] == s.command@[0]@);
        let program: Option<String> = if same(s.command[0].as_str(), "@self") {
            None
        } else {
            Some(s.command[0].clone())
        };
        let mut args: Vec<String> = Vec::new();
        let mut i: usize = 1;
        while i < s.command.len()
            invariant
                1 <= i <= s.command@.len(),
                args@ == s.command@.subrange(1, i as int),
            decreases s.command@.len() - i,
        {
            args.push(s.command[i].clone());
            assert(args@ =~= s.command@.subrange(1, i + 1));
            i += 1;
        }
        assert(ids::texts(args@) =~= s@.command.skip(1));
        let cwd: Option<String> = match &s.cwd {
            Some(c) => Some(c.clone()),
            None => None,
        };
        let log: String = crate::text::joined(service, ".log");
        Some(Launch { program, args, cwd, log })
    }

    /// Begins to start a service.
    pub fn start(&self, service: &str) -> (r: Progress<Start, ()>)
        ensures
            r@ == start_first(self@, service@),
    {
        match self.action_allowed(service, "start") {
            Err(d) => Progress::Over(Err(d)),
            Ok(()) => Progress::Act(
                Action::Look,
                StartTask { service: service.to_string(), stage: StartStage::Looking },
            ),
        }
    }

    fn start_begin(&self, service: String, r: Readings) -> (p: Progress<Start, ()>)
        ensures
            p@ == start_looked(self@, service@, r@),
    {
        if self.fleet.owned().contains(service.as_str()) {
            return Progress::Over(Ok(()));
        }
        let ghost seen = r@;
        let s = match self.fleet.config().services.get(service.as_str()) {
            None => {
                return Progress::Over(Err(Denial::UnknownService));
            },
            Some(s) => s,
        };
        let reachable = service_reachable(s, &r);
        let rows = self.processes(r.rows);
        proof {
            lemma_ranked_reads(model::table(rows@), attributed(self@, seen).rows);
        }
        if process_found(&rows, service.as_str()) {
            return Progress::Over(Err(Denial::External));
        }
        if reachable {
            return Progress::Over(Err(Denial::PortConflict));
        }
        Progress::Act(
            Action::Prepare { service: service.clone() },
            StartTask { service, stage: StartStage::Preparing },
        )
    }

    fn start_register(&mut self, service: String, pid: u32, r: &Readings) -> (p: Progress<
        Start,
        (),
    >)
        ensures
            (final(self)@, p@) == start_next(
                old(self)@,
                StartTask { service: service@, stage: StartStage::Registering { pid } },
                Event::Seen(r@),
            ),
    {
        let limit: u64 = match self.fleet.config().services.get(service.as_str()) {
            None => {
                return Progress::Over(Err(Denial::UnknownService));
            },
            Some(s) => s.startup_timeout_ms,
        };
        match started_at(&r.rows, pid) {
            None => Progress::Act(
                Action::Discard { pid },
                StartTask { service, stage: StartStage::Discarding },
            ),
            Some(start_time) => {
                self.fleet.own(service.clone(), Owned { pid, start_time });
                Progress::Act(
                    Action::Pause,
                    StartTask {
                        service,
                        stage: StartStage::Waiting { deadline_ms: r.now_ms.saturating_add(limit) },
                    },
                )
            },
        }
    }

    fn start_wait(&mut self, service: String, deadline_ms: u64, r: Readings) -> (p: Progress<
        Start,
        (),
    >)
        ensures
            (final(self)@, p@) == start_next(
                old(self)@,
                StartTask { service: service@, stage: StartStage::Waiting { deadline_ms } },
                Event::Seen(r@),
            ),
    {
        let ghost seen = r@;
        self.refresh(&r);
        if !self.fleet.owned().contains(service.as_str()) {
            return Progress::Over(Err(Denial::StartFailed));
        }
        let s = match self.fleet.config().services.get(service.as_str()) {
            None => {
                return Progress::Over(Err(Denial::UnknownService));
            },
            Some(s) => s,
        };
        let rows = self.processes(r.rows);
        proof {
            lemma_ranked_reads(model::table(rows@), attributed(self@, seen).rows);
        }
        let r = Readings { rows, ..r };
        assert(views::health(s@, service@, r@) == views::health(
            s@,
            service@,
            attributed(self@, seen),
        ));
        let up = match service_health(s, service.as_str(), &r) {
            Some(false) => false,
            _ => true,
        };
        if up {
            Progress::Act(
                record_service("service_started", service.as_str()),
                StartTask { service, stage: StartStage::Announcing },
            )
        } else if r.now_ms >= deadline_ms {
            let p = stop_owned(service.as_str());
            undo(service, p)
        } else {
            Progress::Act(
                Action::Pause,
                StartTask { service, stage: StartStage::Waiting { deadline_ms } },
            )
        }
    }

    /// Goes on with a start.
    pub fn start_step(&mut self, task: Start, event: Happening) -> (p: Progress<Start, ()>)
        ensures
            (final(self)@, p@) == start_next(old(self)@, task@, event@),
    {
        let StartTask { service, stage } = task;
        match (stage, event) {
            (StartStage::Looking, Event::Seen(r)) => {
                self.refresh(&r);
                self.start_begin(service, r)
            },
            (StartStage::Preparing, Event::Done) => Progress::Act(
                record_service("service_start_intent", service.as_str()),
                StartTask { service, stage: StartStage::Intending },
            ),
            (StartStage::Preparing, Event::Failed(s)) => Progress::Over(Err(Denial::Failed(s))),
            (StartStage::Intending, Event::Done) => Progress::Act(
                Action::Spawn { service: service.clone() },
                StartTask { service, stage: StartStage::Spawning },
            ),
            (StartStage::Spawning, Event::Spawned(pid)) => Progress::Act(
                Action::Look,
                StartTask { service, stage: StartStage::Registering { pid } },
            ),
            (StartStage::Spawning, Event::Failed(_)) => Progress::Over(Err(Denial::SpawnFailed)),
            (StartStage::Registering { pid }, Event::Seen(r)) => self.start_register(
                service,
                pid,
                &r,
            ),
            (StartStage::Discarding, _) => Progress::Over(Err(Denial::ExitedEarly)),
            (StartStage::Waiting { deadline_ms }, Event::Seen(r)) => self.start_wait(
                service,
                deadline_ms,
                r,
            ),
            (StartStage::Announcing, Event::Done) => Progress::Over(Ok(())),
            (StartStage::Intending, Event::Failed(s)) => {
                self.storage_failed = true;
                Progress::Over(Err(Denial::Failed(s)))
            },
            (StartStage::Announcing, Event::Failed(s)) => {
                self.storage_failed = true;
                Progress::Over(Err(Denial::Failed(s)))
            },
            (StartStage::Undoing(inner), ev) => {
                let p = self.stop_step(inner, ev);
                undo(service, p)
            },
            _ => Progress::Over(Err(Denial::OutOfTurn)),
        }
    }
}

/// A start that has come so far that the service is owned, and that undoes
/// nothing but itself.
pub open spec fn is_under_way(e: EngineModel, t: StartModel) -> bool {
    &&& t.stage is Announcing ==> ids::has(e.owned, t.service)
    &&& t.stage matches StartStage::Undoing(inner) ==> inner.service == t.service
}

/// A start goes on from its first look only where nothing stands in the place of
/// the service: no process belongs to it, and nothing listens on its port. What
/// runs already is never taken over.
pub proof fn law_start_never_adopts(e: EngineModel, service: Seq<char>, r: ReadingsModel)
    ensures
        ({
            let t = StartTask { service, stage: StartStage::Looking };
            let (after, p) = start_next(e, t, Event::Seen(r));
            &&& after == engine::refreshed(e, r)
            &&& p is Act ==> {
                &&& p->Act_0 == Action::<Seq<char>, JsonModel>::Prepare { service }
                &&& !ids::has(after.owned, service)
                &&& !has_process(attributed(after, r).rows, service)
                &&& !views::is_reachable(ids::value(e.config.services, service), r)
            }
        }),
{
}

/// A start changes no job and no other service: what is owned of others was owned
/// before, unchanged. Programs are run only once the intent is on record; signals
/// are sent only to undo this very start. A start succeeds only with the service
/// owned.
pub proof fn law_start_keeps_to_its_service(e: EngineModel, t: StartModel, ev: HappeningModel)
    requires
        ids::ascending(ids::keys(e.owned)),
        is_under_way(e, t),
    ensures
        ({
            let (after, p) = start_next(e, t, ev);
            &&& after.jobs == e.jobs && after.config == e.config
            &&& ids::ascending(ids::keys(after.owned))
            &&& e.storage_failed ==> after.storage_failed
            &&& forall|id: Seq<char>|
                id != t.service && #[trigger] ids::has(after.owned, id) ==> ids::has(e.owned, id)
                    && ids::value(after.owned, id) == ids::value(e.owned, id)
            &&& p matches ProgressModel::Act(a, next) ==> {
                &&& next.service == t.service
                &&& is_under_way(after, next)
                &&& a is Spawn ==> t.stage is Intending && ev is Done
                &&& a is Discard ==> t.stage is Registering
                &&& a is Terminate || a is Kill ==> t.stage is Undoing
            }
            &&& p == ProgressModel::<StartModel, ()>::Over(Ok(())) ==> ids::has(
                after.owned,
                t.service,
            )
        }),
{
    match (t.stage, ev) {
        (StartStage::Looking, Event::Seen(r)) => {
            engine::lemma_refreshed(e, r);
        },
        (StartStage::Waiting { .. }, Event::Seen(r)) => {
            engine::lemma_refreshed(e, r);
        },
        (StartStage::Registering { pid }, Event::Seen(r)) => {
            if let Some(at) = start_time(r.rows, pid) {
                ids::lemma_with(e.owned, t.service, Owned { pid, start_time: at });
            }
        },
        (StartStage::Undoing(inner), ev) => {
            ids::lemma_without(e.owned, t.service);
            if let Event::Seen(r) = ev {
                engine::lemma_refreshed(e, r);
            }
        },
        _ => {},
    }
}

/// A start waits for its service no longer than until its deadline.
pub proof fn law_start_comes_to_an_end(
    e: EngineModel,
    service: Seq<char>,
    deadline_ms: u64,
    r: ReadingsModel,
)
    requires
        r.now_ms >= deadline_ms,
    ensures
        ({
            let t = StartTask { service, stage: StartStage::Waiting { deadline_ms } };
            let p = start_next(e, t, Event::Seen(r)).1;
            p is Act ==> p->Act_1.stage is Announcing || p->Act_1.stage is Undoing
        }),
{
}

/// A start leaves a supervisor well-formed: what it comes to own is owned for a
/// configured service.
pub proof fn law_start_keeps_form(e: EngineModel, t: StartModel, ev: HappeningModel)
    requires
        engine::is_well_formed(e),
    ensures
        engine::is_well_formed(start_next(e, t, ev).0),
        start_next(e, t, ev).0.jobs == e.jobs,
        start_next(e, t, ev).0.config == e.config,
{
    match (t.stage, ev) {
        (StartStage::Registering { pid }, Event::Seen(r)) => {
            if ids::has(e.config.services, t.service) {
                if let Some(start_time) = start_time(r.rows, pid) {
                    let o = Owned { pid, start_time };
                    ids::lemma_with(e.owned, t.service, o);
                    fleet::lemma_with_configured(e.config.services, e.owned, t.service, o);
                }
            }
        },
        (StartStage::Undoing(inner), ev) => {
            stop::law_stop_keeps_form(e, inner, ev);
        },
        (_, Event::Seen(r)) => {
            engine::law_refreshed_is_well_formed(e, r);
        },
        _ => {},
    }
}

/// A start begins only where the service is configured to be managed, a start is
/// allowed for it, and no job holds it.
pub proof fn law_start_needs_permission(e: EngineModel, i: int)
    requires
        engine::is_well_formed(e),
        0 <= i < e.config.services.len(),
    ensures
        ({
            let (id, s) = e.config.services[i];
            let p = start_first(e, id);
            let permitted = s.mode == Mode::Managed && s.allowed_actions.contains("start"@);
            &&& p is Act <==> permitted && engine::leases(e, id).len() == 0
            &&& p is Act ==> p == ProgressModel::<StartModel, ()>::Act(
                Action::Look,
                StartTask { service: id, stage: StartStage::Looking },
            )
            &&& !permitted ==> p == ProgressModel::<StartModel, ()>::Over(
                Err(Denial::ControlDenied),
            )
            &&& permitted && !(p is Act) ==> p == ProgressModel::<StartModel, ()>::Over(
                Err(Denial::Protected),
            )
        }),
{
    engine::law_action_needs_permission_and_no_lease(e, i, e.config.services[i].0, "start"@);
}

/// At its first look a start is over where the service is owned; it is refused
/// where another process is of the service, or something listens on its port; else
/// the program is prepared.
#[verifier::rlimit(60)]
#[verifier::spinoff_prover]
pub proof fn law_start_goes_on_only_from_nothing(e: EngineModel, r: ReadingsModel, i: int)
    requires
        engine::is_well_formed(e),
        0 <= i < e.config.services.len(),
    ensures
        ({
            let (id, s) = e.config.services[i];
            let t = StartTask { service: id, stage: StartStage::Looking };
            let (after, p) = start_next(e, t, Event::Seen(r));
            let rows = attribution::attributed(e.config.services, after.owned, r.rows);
            let owned = exists|k: int|
                0 <= k < after.owned.len() && (#[trigger] after.owned[k]).0 == id;
            let taken = exists|k: int|
                0 <= k < rows.len() && (#[trigger] rows[k]).service == Some(id);
            let open = s.port matches Some(n) && r.open_ports.contains(n);
            &&& after == engine::refreshed(e, r)
            &&& owned ==> p == ProgressModel::<StartModel, ()>::Over(Ok(()))
            &&& !owned && taken ==> p == ProgressModel::<StartModel, ()>::Over(
                Err(Denial::External),
            )
            &&& !owned && !taken && open ==> p == ProgressModel::<StartModel, ()>::Over(
                Err(Denial::PortConflict),
            )
            &&& !owned && !taken && !open ==> p == ProgressModel::<StartModel, ()>::Act(
                Action::Prepare { service: id },
                StartTask { service: id, stage: StartStage::Preparing },
            )
        }),
{
    let id = e.config.services[i].0;
    ids::lemma_at(e.config.services, i);
    let owned = engine::refreshed(e, r).owned;
    if ids::has(owned, id) {
        let k = ids::keys(owned).index_of(id);
        assert(owned[k].0 == id);
    }
    assert forall|k: int| 0 <= k < owned.len() && (#[trigger] owned[k]).0 == id implies ids::has(
        owned,
        id,
    ) by {
        assert(ids::keys(owned)[k] == id);
    }
}

/// The program is run only after the intent has been recorded, and what cannot be
/// prepared, recorded or run ends the start with nothing owned.
#[verifier::rlimit(60)]
#[verifier::spinoff_prover]
pub proof fn law_start_records_before_it_runs(
    e: EngineModel,
    service: Seq<char>,
    pid: u32,
    s: Seq<char>,
)
    ensures
        ({
            let at = |stage: StartStage<Seq<char>, Seq<Owned>>| StartTask { service, stage };
            let p = start_next(e, at(StartStage::Preparing), Event::Done).1;
            &&& p matches ProgressModel::Act(Action::Record { event, detail }, next)
            &&& event == "service_start_intent"@ && next == at(StartStage::Intending)
            &&& json::as_map(detail).contains_pair("service"@, JsonModel::Text(service))
            &&& start_next(e, at(StartStage::Intending), Event::Done) == (
                e,
                ProgressModel::<StartModel, ()>::Act(
                    Action::Spawn { service },
                    at(StartStage::Spawning),
                ),
            )
            &&& start_next(e, at(StartStage::Spawning), Event::Spawned(pid)) == (
                e,
                ProgressModel::<StartModel, ()>::Act(
                    Action::Look,
                    at(StartStage::Registering { pid }),
                ),
            )
            &&& start_next(e, at(StartStage::Preparing), Event::Failed(s)) == (
                e,
                ProgressModel::<StartModel, ()>::Over(Err(Denial::Failed(s))),
            )
            &&& start_next(e, at(StartStage::Spawning), Event::Failed(s)) == (
                e,
                ProgressModel::<StartModel, ()>::Over(Err(Denial::SpawnFailed)),
            )
            &&& start_next(e, at(StartStage::Intending), Event::Failed(s)) == (
                EngineModel { storage_failed: true, ..e },
                ProgressModel::<StartModel, ()>::Over(Err(Denial::Failed(s))),
            )
            &&& start_next(e, at(StartStage::Announcing), Event::Failed(s)) == (
                EngineModel { storage_failed: true, ..e },
                ProgressModel::<StartModel, ()>::Over(Err(Denial::Failed(s))),
            )
            &&& start_next(e, at(StartStage::Announcing), Event::Done) == (
                e,
                ProgressModel::<StartModel, ()>::Over(Ok(())),
            )
        }),
{
    let f = seq![("service"@, JsonModel::Text(service))];
    json::lemma_last_field(f, 0);
}

proof fn lemma_start_time(rows: Seq<ProcessModel>, pid: u32, k: int)
    requires
        0 <= k < rows.len(),
        rows[k].pid == pid,
        forall|j: int| 0 <= j < k ==> (#[trigger] rows[j]).pid != pid,
    ensures
        start_time(rows, pid) == Some(rows[k].start_time),
    decreases rows.len(),
{
    if k > 0 {
        assert(rows[0].pid != pid);
        let rest = rows.drop_first();
        assert forall|j: int| 0 <= j < k - 1 implies (#[trigger] rest[j]).pid != pid by {
            assert(rest[j] == rows[j + 1]);
        }
        lemma_start_time(rest, pid, k - 1);
    }
}

proof fn lemma_no_start_time(rows: Seq<ProcessModel>, pid: u32)
    requires
        forall|j: int| 0 <= j < rows.len() ==> (#[trigger] rows[j]).pid != pid,
    ensures
        start_time(rows, pid) is None,
    decreases rows.len(),
{
    if rows.len() > 0 {
        assert(rows[0].pid != pid);
        let rest = rows.drop_first();
        assert forall|j: int| 0 <= j < rest.len() implies (#[trigger] rest[j]).pid != pid by {
            assert(rest[j] == rows[j + 1]);
        }
        lemma_no_start_time(rest, pid);
    }
}

/// The process that was run is owned with the start time that the table shows for
/// its number, and then has as long to pass its checks as the service allows. One
/// that the table does not show is discarded, and nothing is owned.
#[verifier::rlimit(60)]
#[verifier::spinoff_prover]
pub proof fn law_what_was_run_is_owned(
    e: EngineModel,
    i: int,
    pid: u32,
    r: ReadingsModel,
    k: int,
    ev: HappeningModel,
)
    requires
        engine::is_well_formed(e),
        0 <= i < e.config.services.len(),
    ensures
        ({
            let (id, s) = e.config.services[i];
            let t = StartTask { service: id, stage: StartStage::Registering { pid } };
            let (after, p) = start_next(e, t, Event::Seen(r));
            &&& 0 <= k < r.rows.len() && r.rows[k].pid == pid && (forall|j: int|
                0 <= j < k ==> (#[trigger] r.rows[j]).pid != pid) ==> {
                &&& after.jobs == e.jobs && after.config == e.config && after.storage_failed
                    == e.storage_failed
                &&& ids::has(after.owned, id)
                &&& ids::value(after.owned, id) == (Owned {
                    pid,
                    start_time: r.rows[k].start_time,
                })
                &&& forall|x: Seq<char>| #[trigger]
                    ids::has(after.owned, x) <==> ids::has(e.owned, x) || x == id
                &&& p matches ProgressModel::Act(Action::Pause, next)
                &&& next.service == id
                &&& next.stage matches StartStage::Waiting { deadline_ms }
                &&& r.now_ms + s.startup_timeout_ms <= u64::MAX ==> deadline_ms == r.now_ms
                    + s.startup_timeout_ms
                &&& r.now_ms + s.startup_timeout_ms > u64::MAX ==> deadline_ms == u64::MAX
            }
            &&& (forall|j: int| 0 <= j < r.rows.len() ==> (#[trigger] r.rows[j]).pid != pid)
                ==> after == e && p == ProgressModel::<StartModel, ()>::Act(
                Action::Discard { pid },
                StartTask { service: id, stage: StartStage::Discarding },
            )
            &&& start_next(e, StartTask { service: id, stage: StartStage::Discarding }, ev) == (
                e,
                ProgressModel::<StartModel, ()>::Over(Err(Denial::ExitedEarly)),
            )
        }),
{
    let id = e.config.services[i].0;
    ids::lemma_at(e.config.services, i);
    if 0 <= k < r.rows.len() && r.rows[k].pid == pid && (forall|j: int|
        0 <= j < k ==> (#[trigger] r.rows[j]).pid != pid) {
        lemma_start_time(r.rows, pid, k);
        ids::lemma_with(e.owned, id, Owned { pid, start_time: r.rows[k].start_time });
        let w = ids::with(e.owned, id, Owned { pid, start_time: r.rows[k].start_time });
        assert forall|x: Seq<char>| #[trigger] ids::has(w, x) <==> ids::has(e.owned, x) || x
            == id by {
            let slot = ids::lemma_slot_exists(ids::keys(e.owned), id, e.owned.len() as int);
            ids::lemma_added(ids::keys(e.owned), id, slot);
        }
    }
    if forall|j: int| 0 <= j < r.rows.len() ==> (#[trigger] r.rows[j]).pid != pid {
        lemma_no_start_time(r.rows, pid);
    }
}

/// A start succeeds only when the process that it runs is still there and what is
/// seen of the service does not fail its checks. It waits for that until the
/// deadline, and then stops what it started.
#[verifier::rlimit(60)]
#[verifier::spinoff_prover]
pub proof fn law_start_waits_for_the_checks(
    e: EngineModel,
    i: int,
    deadline_ms: u64,
    r: ReadingsModel,
    sight: SightModel,
)
    requires
        engine::is_well_formed(e),
        0 <= i < e.config.services.len(),
        sight.readings == (ReadingsModel {
            rows: attribution::attributed(
                e.config.services,
                engine::refreshed(e, r).owned,
                r.rows,
            ),
            ..r
        }),
    ensures
        ({
            let id = e.config.services[i].0;
            let t = StartTask { service: id, stage: StartStage::Waiting { deadline_ms } };
            let (after, p) = start_next(e, t, Event::Seen(r));
            let owned = exists|k: int|
                0 <= k < after.owned.len() && (#[trigger] after.owned[k]).0 == id;
            let fails = views::service_view(after, sight, i).healthy == Some(false);
            &&& after == engine::refreshed(e, r)
            &&& !owned ==> p == ProgressModel::<StartModel, ()>::Over(Err(Denial::StartFailed))
            &&& owned && !fails ==> {
                &&& p matches ProgressModel::Act(Action::Record { event, detail }, next)
                &&& event == "service_started"@
                &&& json::as_map(detail).contains_pair("service"@, JsonModel::Text(id))
                &&& next.service == id && next.stage is Announcing
            }
            &&& owned && fails && r.now_ms < deadline_ms ==> p == ProgressModel::<
                StartModel,
                (),
            >::Act(Action::Pause, t)
            &&& owned && fails && r.now_ms >= deadline_ms ==> {
                &&& p matches ProgressModel::Act(Action::Look, next)
                &&& next.service == id
                &&& next.stage matches StartStage::Undoing(inner)
                &&& inner.service == id && inner.stage is Looking
            }
        }),
{
    let id = e.config.services[i].0;
    ids::lemma_at(e.config.services, i);
    let owned = engine::refreshed(e, r).owned;
    if ids::has(owned, id) {
        let k = ids::keys(owned).index_of(id);
        assert(owned[k].0 == id);
    }
    assert forall|k: int| 0 <= k < owned.len() && (#[trigger] owned[k]).0 == id implies ids::has(
        owned,
        id,
    ) by {
        assert(ids::keys(owned)[k] == id);
    }
    let f = seq![("service"@, JsonModel::Text(id))];
    json::lemma_last_field(f, 0);
}

/// A start succeeds only where the service was owned at its first look, or once its
/// last record is written; one that undoes itself fails in any case, and goes
/// through the stop to its end.
#[verifier::rlimit(60)]
#[verifier::spinoff_prover]
pub proof fn law_start_succeeds_only_when_announced(
    e: EngineModel,
    t: StartModel,
    ev: HappeningModel,
)
    ensures
        ({
            let (after, p) = start_next(e, t, ev);
            &&& p == ProgressModel::<StartModel, ()>::Over(Ok(())) ==> t.stage is Announcing && ev
                is Done || t.stage is Looking && ids::has(after.owned, t.service)
            &&& t.stage matches StartStage::Undoing(inner) ==> {
                let (stopped, q) = stop::stop_next(e, inner, ev);
                &&& after == stopped
                &&& q matches ProgressModel::Act(a, rest) ==> p == ProgressModel::<
                    StartModel,
                    (),
                >::Act(
                    a,
                    StartTask { service: t.service, stage: StartStage::Undoing(rest) },
                )
                &&& q matches ProgressModel::Over(Ok(_)) ==> p == ProgressModel::<
                    StartModel,
                    (),
                >::Over(Err(Denial::HealthTimeout(None)))
                &&& q matches ProgressModel::Over(Err(d)) ==> p == ProgressModel::<
                    StartModel,
                    (),
                >::Over(Err(Denial::HealthTimeout(Some(d.text()))))
            }
        }),
{
}

} // verus!
