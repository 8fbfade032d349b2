//! The tools that callers have, each of them one call.

use vstd::prelude::*;
use vstd::string::*;
use crate::action;
use crate::action::{Action, Event, Happening, HappeningModel, Progress, ProgressModel};
use crate::assess;
use crate::config::Mode;
use crate::denial::Denial;
use crate::engine;
use crate::engine::{Engine, EngineModel};
use crate::fresh;
use crate::fresh::fresh_runtime_id;
use crate::gate;
use crate::gate::observed;
use crate::ids;
use crate::json;
use crate::json::{field, list_of, object_of, text, Json, JsonModel};
use crate::model;
use crate::model::{Job, JobModel, Jobs};
use crate::request;
use crate::request::{show_outcome, Asking, AskingModel};
use crate::show;
use crate::show::{show_job, show_jobs};
use crate::sight::{ReadingsModel, Sight, SightModel};
use crate::start;
use crate::start::{Start, StartModel};
use crate::stop;
use crate::stop::{stop_owned, Stop, StopModel, StopStage, StopTask};
use crate::text::same;
use crate::views;
use crate::views::show_views;

verus! {

/// What is done with a service.
#[derive(Clone, Copy, PartialEq, Eq, Structural, Debug)]
pub enum Verb {
    Start,
    Stop,
    Restart,
}

impl Verb {
    pub open spec fn text(self) -> Seq<char> {
        match self {
            Verb::Start => "start"@,
            Verb::Stop => "stop"@,
            Verb::Restart => "restart"@,
        }
    }

    pub fn name(self) -> (s: &'static str)
        ensures
            s@ == self.text(),
    {
        match self {
            Verb::Start => "start",
            Verb::Stop => "stop",
            Verb::Restart => "restart",
        }
    }
}

/// What a call is waiting for.
#[derive(Debug, PartialEq)]
pub enum Task {
    Status,
    List,
    Get { id: String },
    Decoding { fresh: String },
    Asking(Asking),
    Releasing { runtime_id: String },
    Sweeping,
    Cleaning { left: Vec<String>, results: Vec<Json>, stop: Stop },
    Gating { id: String, verb: Verb },
    Stopping { id: String, verb: Verb, stop: Stop },
    Starting { id: String, verb: Verb, start: Start },
}

pub enum TaskModel {
    Status,
    List,
    Get { id: Seq<char> },
    Decoding { fresh: Seq<char> },
    Asking(AskingModel),
    Releasing { runtime_id: Seq<char> },
    Sweeping,
    Cleaning { left: Seq<Seq<char>>, results: Seq<JsonModel>, stop: StopModel },
    Gating { id: Seq<char>, verb: Verb },
    Stopping { id: Seq<char>, verb: Verb, stop: StopModel },
    Starting { id: Seq<char>, verb: Verb, start: StartModel },
}

impl View for Task {
    type V = TaskModel;

    open spec fn view(&self) -> TaskModel {
        match self {
            Task::Status => TaskModel::Status,
            Task::List => TaskModel::List,
            Task::Get { id } => TaskModel::Get { id: id@ },
            Task::Decoding { fresh } => TaskModel::Decoding { fresh: fresh@ },
            Task::Asking(t) => TaskModel::Asking(t@),
            Task::Releasing { runtime_id } => TaskModel::Releasing { runtime_id: runtime_id@ },
            Task::Sweeping => TaskModel::Sweeping,
            Task::Cleaning { left, results, stop } => TaskModel::Cleaning {
                left: ids::texts(left@),
                results: json::models(results@),
                stop: stop@,
            },
            Task::Gating { id, verb } => TaskModel::Gating { id: id@, verb: *verb },
            Task::Stopping { id, verb, stop } => TaskModel::Stopping {
                id: id@,
                verb: *verb,
                stop: stop@,
            },
            Task::Starting { id, verb, start } => TaskModel::Starting {
                id: id@,
                verb: *verb,
                start: start@,
            },
        }
    }
}

pub type CallProgress = ProgressModel<TaskModel, JsonModel>;

/// The tools that only read.
pub open spec fn is_reading(name: Seq<char>) -> bool {
    ||| name == "runtime.status"@
    ||| name == "services.list"@
    ||| name == "services.get"@
    ||| name == "jobs.list"@
    ||| name == "jobs.get"@
}

pub fn reading(name: &str) -> (r: bool)
    ensures
        r == is_reading(name@),
{
    same(name, "runtime.status") || same(name, "services.list") || same(name, "services.get")
        || same(name, "jobs.list") || same(name, "jobs.get")
}

/// The argument of that name: a text that is not empty.
pub open spec fn argument(args: JsonModel, key: Seq<char>) -> Option<Seq<char>> {
    if json::as_map(args).contains_key(key) {
        match json::as_map(args)[key] {
            JsonModel::Text(s) => if s.len() > 0 {
                Some(s)
            } else {
                None
            },
            _ => None,
        }
    } else {
        None
    }
}

fn argument_of(args: &Json, key: &str) -> (r: Result<String, Denial<String>>)
    ensures
        match r {
            Ok(s) => argument(args@, key@) == Some(s@),
            Err(d) => argument(args@, key@) is None && d@ == Denial::Missing(key@),
        },
{
    if let Some(v) = args.get(key) {
        if let Some(s) = v.as_text() {
            let empty = same(s.as_str(), "");
            proof {
                reveal_strlit("");
                if s@.len() == 0 {
                    assert(s@ =~= ""@);
                }
            }
            if !empty {
                return Ok(s.clone());
            }
        }
    }
    Err(Denial::Missing(key.to_string()))
}

/// The first job of that lease.
pub open spec fn job_of(jobs: Jobs, runtime_id: Seq<char>, from: int) -> Option<int>
    decreases jobs.len() - from,
{
    if from >= jobs.len() {
        None
    } else if jobs[from].1.runtime_id == runtime_id {
        Some(from)
    } else {
        job_of(jobs, runtime_id, from + 1)
    }
}

pub open spec fn released_fields(runtime_id: Seq<char>) -> show::Fields {
    seq![("status"@, JsonModel::Text("RELEASED"@)), ("runtime_id"@, JsonModel::Text(runtime_id))]
}

/// The jobs with the one at `i` released.
pub open spec fn released(jobs: Jobs, i: int) -> Jobs {
    let (id, j) = jobs[i];
    jobs.update(
        i,
        (
            id,
            JobModel {
                status: "RELEASED"@,
                result: show::object(released_fields(j.runtime_id)),
                ..j
            },
        ),
    )
}

pub open spec fn release_note(runtime_id: Seq<char>) -> show::Fields {
    seq![
        ("status"@, JsonModel::Text("RELEASED"@)),
        ("runtime_id"@, JsonModel::Text(runtime_id)),
        (
            "note"@,
            JsonModel::Text("services retained; runtime.cleanup stops idle disposable services"@),
        ),
    ]
}

/// How a release begins: the lease ends at once, and that is recorded.
pub open spec fn release_first(e: EngineModel, runtime_id: Seq<char>) -> (
    EngineModel,
    CallProgress,
) {
    match job_of(e.jobs, runtime_id, 0) {
        None => (e, ProgressModel::Over(Err(Denial::UnknownRuntime))),
        Some(i) => (
            EngineModel { jobs: released(e.jobs, i), ..e },
            ProgressModel::Act(
                Action::Record {
                    event: "runtime_released"@,
                    detail: show::object(seq![("runtime_id"@, JsonModel::Text(runtime_id))]),
                },
                TaskModel::Releasing { runtime_id },
            ),
        ),
    }
}

/// Why the service may not be acted on. A restart has to be allowed as such, and
/// as a start and a stop.
pub open spec fn control_denial(e: EngineModel, id: Seq<char>, verb: Verb) -> Option<
    Denial<Seq<char>>,
> {
    match engine::action_denial(e, id, verb.text()) {
        Some(d) => Some(d),
        None => if verb == Verb::Restart {
            match engine::action_denial(e, id, "start"@) {
                Some(d) => Some(d),
                None => engine::action_denial(e, id, "stop"@),
            }
        } else {
            None
        },
    }
}

/// How the control of a service begins.
pub open spec fn control_first(e: EngineModel, args: JsonModel, verb: Verb) -> CallProgress {
    match argument(args, "service_id"@) {
        None => ProgressModel::Over(Err(Denial::Missing("service_id"@))),
        Some(id) => match control_denial(e, id, verb) {
            Some(d) => ProgressModel::Over(Err(d)),
            None => if verb == Verb::Stop {
                stopping(id, verb, stop::stop_first(id))
            } else {
                ProgressModel::Act(Action::Survey, TaskModel::Gating { id, verb })
            },
        },
    }
}

pub open spec fn controlled_fields(id: Seq<char>, verb: Verb) -> show::Fields {
    seq![
        ("status"@, JsonModel::Text("OK"@)),
        ("service_id"@, JsonModel::Text(id)),
        ("action"@, JsonModel::Text(verb.text())),
    ]
}

/// The control of a service while it is being stopped.
pub open spec fn stopping(id: Seq<char>, verb: Verb, p: stop::StopProgress) -> CallProgress {
    match p {
        ProgressModel::Act(a, stop) => ProgressModel::Act(
            a,
            TaskModel::Stopping { id, verb, stop },
        ),
        ProgressModel::Over(Ok(_)) => ProgressModel::Over(
            Ok(show::object(controlled_fields(id, verb))),
        ),
        ProgressModel::Over(Err(d)) => ProgressModel::Over(Err(d)),
    }
}

/// The control of a service while it is being started.
pub open spec fn starting(id: Seq<char>, verb: Verb, p: start::StartProgress) -> CallProgress {
    match p {
        ProgressModel::Act(a, start) => ProgressModel::Act(
            a,
            TaskModel::Starting { id, verb, start },
        ),
        ProgressModel::Over(Ok(_)) => ProgressModel::Over(
            Ok(show::object(controlled_fields(id, verb))),
        ),
        ProgressModel::Over(Err(d)) => ProgressModel::Over(Err(d)),
    }
}

/// The memory that a start or restart takes: of a restart only what the service
/// does not use already.
pub open spec fn control_memory(e: EngineModel, sight: SightModel, id: Seq<char>, verb: Verb) -> int {
    let memory = gate::or_zero(ids::value(e.config.services, id).memory_bytes);
    if verb == Verb::Restart {
        model::less(memory, assess::stands(e, sight, id).ram_bytes)
    } else {
        memory
    }
}

/// Memory is asked for before a start or restart.
pub open spec fn control_gated(
    e: EngineModel,
    sight: SightModel,
    id: Seq<char>,
    verb: Verb,
) -> CallProgress {
    let v = views::all_views(e, sight);
    let observed = gate::observed_memory(sight);
    let required = control_memory(e, sight, id, verb) as u64;
    if !ids::has(e.config.services, id) {
        ProgressModel::Over(Err(Denial::UnknownService))
    } else if !gate::is_ready(e, v, observed, required) {
        ProgressModel::Over(Ok(gate::gate_json(e, v, observed, required)))
    } else if verb == Verb::Restart {
        stopping(id, verb, stop::stop_first(id))
    } else {
        starting(id, verb, start::start_first(e, id))
    }
}

/// A service that may be swept away: disposable, with a stop allowed, and held by
/// no job.
pub open spec fn is_sweepable(e: EngineModel, id: Seq<char>) -> bool {
    &&& ids::has(e.config.services, id)
    &&& ids::value(e.config.services, id).disposable
    &&& ids::value(e.config.services, id).allowed_actions.contains("stop"@)
    &&& !engine::is_leased(e, id)
}

/// The owned services that may be swept away.
pub open spec fn sweep(e: EngineModel) -> Seq<Seq<char>> {
    ids::keys(e.owned).filter(|id: Seq<char>| is_sweepable(e, id))
}

pub open spec fn results_fields(results: Seq<JsonModel>) -> show::Fields {
    seq![("results"@, JsonModel::List(results))]
}

/// The cleanup goes on with the first of `left`, or is done.
pub open spec fn clean_on(left: Seq<Seq<char>>, results: Seq<JsonModel>) -> CallProgress {
    if left.len() == 0 {
        ProgressModel::Over(Ok(show::object(results_fields(results))))
    } else {
        ProgressModel::Act(
            Action::Look,
            TaskModel::Cleaning {
                left: left.drop_first(),
                results,
                stop: StopTask { service: left.first(), stage: StopStage::Looking },
            },
        )
    }
}

pub open spec fn asking(p: request::RequestProgress) -> CallProgress {
    match p {
        ProgressModel::Act(a, t) => ProgressModel::Act(a, TaskModel::Asking(t)),
        ProgressModel::Over(r) => ProgressModel::Over(r),
    }
}

/// How a call begins. `fresh` is the id that a new lease gets.
pub open spec fn call_first(
    e: EngineModel,
    name: Seq<char>,
    args: JsonModel,
    fresh: Seq<char>,
) -> (EngineModel, CallProgress) {
    if e.storage_failed && !is_reading(name) {
        (e, ProgressModel::Over(Err(Denial::StorageFailed)))
    } else if name == "runtime.status"@ {
        (e, ProgressModel::Act(Action::Survey, TaskModel::Status))
    } else if name == "services.list"@ {
        (e, ProgressModel::Act(Action::Survey, TaskModel::List))
    } else if name == "services.get"@ {
        (
            e,
            match argument(args, "service_id"@) {
                None => ProgressModel::Over(Err(Denial::Missing("service_id"@))),
                Some(id) => ProgressModel::Act(Action::Survey, TaskModel::Get { id }),
            },
        )
    } else if name == "jobs.list"@ {
        (e, ProgressModel::Over(Ok(show::object(seq![("jobs"@, show::job_list(e.jobs))]))))
    } else if name == "jobs.get"@ {
        (
            e,
            match argument(args, "job_id"@) {
                None => ProgressModel::Over(Err(Denial::Missing("job_id"@))),
                Some(id) => if ids::has(e.jobs, id) {
                    ProgressModel::Over(
                        Ok(show::object(show::job_fields(ids::value(e.jobs, id)))),
                    )
                } else {
                    ProgressModel::Over(Err(Denial::UnknownJob))
                },
            },
        )
    } else if name == "runtime.request"@ {
        (e, ProgressModel::Act(Action::Decode(args), TaskModel::Decoding { fresh }))
    } else if name == "runtime.release"@ {
        match argument(args, "runtime_id"@) {
            None => (e, ProgressModel::Over(Err(Denial::Missing("runtime_id"@)))),
            Some(id) => release_first(e, id),
        }
    } else if name == "runtime.cleanup"@ {
        (e, ProgressModel::Act(Action::Look, TaskModel::Sweeping))
    } else if name == "services.start"@ {
        (e, control_first(e, args, Verb::Start))
    } else if name == "services.stop"@ {
        (e, control_first(e, args, Verb::Stop))
    } else if name == "services.restart"@ {
        (e, control_first(e, args, Verb::Restart))
    } else {
        (e, ProgressModel::Over(Err(Denial::UnknownTool(name))))
    }
}

/// How a call goes on.
pub open spec fn call_next(e: EngineModel, t: TaskModel, ev: HappeningModel) -> (
    EngineModel,
    CallProgress,
) {
    match (t, ev) {
        (TaskModel::Status, Event::Surveyed(sight)) => (
            e,
            ProgressModel::Over(Ok(show::object(gate::status_fields(e, sight)))),
        ),
        (TaskModel::List, Event::Surveyed(sight)) => (
            e,
            ProgressModel::Over(
                Ok(
                    show::object(
                        seq![
                            (
                                "services"@,
                                JsonModel::List(views::view_list(views::all_views(e, sight))),
                            ),
                        ],
                    ),
                ),
            ),
        ),
        (TaskModel::Get { id }, Event::Surveyed(sight)) => (
            e,
            if ids::has(e.config.services, id) {
                ProgressModel::Over(Ok(views::view_json(assess::stands(e, sight, id))))
            } else {
                ProgressModel::Over(Err(Denial::UnknownService))
            },
        ),
        (TaskModel::Decoding { fresh }, Event::Decoded(r)) => (
            e,
            asking(request::request_first(e, r, fresh)),
        ),
        (TaskModel::Decoding { .. }, Event::Failed(s)) => (
            e,
            ProgressModel::Over(Err(Denial::Failed(s))),
        ),
        (TaskModel::Asking(inner), ev) => {
            let (e, p) = request::request_next(e, inner, ev);
            (e, asking(p))
        },
        (TaskModel::Releasing { runtime_id }, Event::Done) => (
            e,
            ProgressModel::Over(Ok(show::object(release_note(runtime_id)))),
        ),
        (TaskModel::Releasing { .. }, Event::Failed(s)) => (
            action::unrecorded(e),
            ProgressModel::Over(Err(Denial::Failed(s))),
        ),
        (TaskModel::Sweeping, Event::Seen(r)) => {
            let e = engine::refreshed(e, r);
            (e, clean_on(sweep(e), Seq::empty()))
        },
        (TaskModel::Cleaning { left, results, stop }, ev) => {
            let (e, p) = stop::stop_next(e, stop, ev);
            match p {
                ProgressModel::Act(a, stop) => (
                    e,
                    ProgressModel::Act(a, TaskModel::Cleaning { left, results, stop }),
                ),
                ProgressModel::Over(r) => (
                    e,
                    clean_on(
                        left,
                        results.push(show::object(request::outcome_fields(stop.service, r))),
                    ),
                ),
            }
        },
        (TaskModel::Gating { id, verb }, Event::Surveyed(sight)) => (
            e,
            control_gated(e, sight, id, verb),
        ),
        (TaskModel::Stopping { id, verb, stop }, ev) => {
            let (e, p) = stop::stop_next(e, stop, ev);
            if verb == Verb::Restart && p is Over && p->Over_0 is Ok {
                (e, starting(id, verb, start::start_first(e, id)))
            } else {
                (e, stopping(id, verb, p))
            }
        },
        (TaskModel::Starting { id, verb, start }, ev) => {
            let (e, p) = start::start_next(e, start, ev);
            (e, starting(id, verb, p))
        },
        _ => (e, ProgressModel::Over(Err(Denial::OutOfTurn))),
    }
}

fn show_controlled(id: &str, verb: Verb) -> (j: Json)
    ensures
        j@ == show::object(controlled_fields(id@, verb)),
{
    let f = vec![
        field("status", text("OK")),
        field("service_id", text(id)),
        field("action", text(verb.name())),
    ];
    assert(json::fields(f@) =~= controlled_fields(id@, verb));
    object_of(f)
}

fn while_stopping(id: String, verb: Verb, p: Progress<Stop, ()>) -> (r: Progress<Task, Json>)
    ensures
        r@ == stopping(id@, verb, p@),
{
    match p {
        Progress::Act(a, stop) => Progress::Act(a, Task::Stopping { id, verb, stop }),
        Progress::Over(Ok(())) => Progress::Over(Ok(show_controlled(id.as_str(), verb))),
        Progress::Over(Err(d)) => Progress::Over(Err(d)),
    }
}

fn while_starting(id: String, verb: Verb, p: Progress<Start, ()>) -> (r: Progress<Task, Json>)
    ensures
        r@ == starting(id@, verb, p@),
{
    match p {
        Progress::Act(a, start) => Progress::Act(a, Task::Starting { id, verb, start }),
        Progress::Over(Ok(())) => Progress::Over(Ok(show_controlled(id.as_str(), verb))),
        Progress::Over(Err(d)) => Progress::Over(Err(d)),
    }
}

fn while_asking(p: Progress<Asking, Json>) -> (r: Progress<Task, Json>)
    ensures
        r@ == asking(p@),
{
    match p {
        Progress::Act(a, t) => Progress::Act(a, Task::Asking(t)),
        Progress::Over(Ok(v)) => Progress::Over(Ok(v)),
        Progress::Over(Err(d)) => Progress::Over(Err(d)),
    }
}

fn clean_rest(left: Vec<String>, results: Vec<Json>) -> (r: Progress<Task, Json>)
    ensures
        r@ == clean_on(ids::texts(left@), json::models(results@)),
{
    let mut left = left;
    let ghost all = ids::texts(left@);
    assert(all.len() == left@.len());
    if left.len() == 0 {
        let f = vec![field("results", list_of(results))];
        assert(json::fields(f@) =~= results_fields(json::models(results@)));
        return Progress::Over(Ok(object_of(f)));
    }
    let first: String = left.remove(0);
    assert(all.first() == first@);
    assert(ids::texts(left@) =~= all.drop_first());
    Progress::Act(
        Action::Look,
        Task::Cleaning {
            left,
            results,
            stop: StopTask { service: first, stage: StopStage::Looking },
        },
    )
}

impl Engine {
    fn find_job(&self, runtime_id: &str) -> (r: Option<usize>)
        ensures
            match r {
                Some(i) => job_of(self@.jobs, runtime_id@, 0) == Some(i as int) && i
                    < self@.jobs.len() && self@.jobs[i as int].1.runtime_id == runtime_id@,
                None => job_of(self@.jobs, runtime_id@, 0) is None,
            },
    {
        let n: usize = self.state.jobs.len();
        let mut i: usize = 0;
        while i < n
            invariant
                i <= n == self@.jobs.len(),
                job_of(self@.jobs, runtime_id@, 0) == job_of(self@.jobs, runtime_id@, i as int),
            decreases n - i,
        {
            if same(self.state.jobs.at(i).runtime_id.as_str(), runtime_id) {
                return Some(i);
            }
            i += 1;
        }
        None
    }

    fn release(&mut self, runtime_id: String) -> (p: Progress<Task, Json>)
        ensures
            (final(self)@, p@) == release_first(old(self)@, runtime_id@),
    {
        let i: usize = match self.find_job(runtime_id.as_str()) {
            None => {
                return Progress::Over(Err(Denial::UnknownRuntime));
            },
            Some(i) => i,
        };
        let f = vec![
            field("status", text("RELEASED")),
            field("runtime_id", text(runtime_id.as_str())),
        ];
        assert(json::fields(f@) =~= released_fields(runtime_id@));
        let j = self.state.jobs.at(i);
        let next = Job {
            runtime_id: j.runtime_id.clone(),
            request: j.request.copy(),
            status: "RELEASED".to_string(),
            result: object_of(f),
        };
        self.state.jobs.set(i, next);
        assert(self.state.jobs@ =~= released(old(self)@.jobs, i as int));
        let d = vec![field("runtime_id", text(runtime_id.as_str()))];
        assert(json::fields(d@) =~= seq![("runtime_id"@, JsonModel::Text(runtime_id@))]);
        Progress::Act(
            Action::Record { event: "runtime_released".to_string(), detail: object_of(d) },
            Task::Releasing { runtime_id },
        )
    }

    fn control_allowed(&self, id: &str, verb: Verb) -> (r: Result<(), Denial<String>>)
        ensures
            match r {
                Ok(()) => control_denial(self@, id@, verb) is None,
                Err(d) => control_denial(self@, id@, verb) == Some(d@),
            },
    {
        if let Err(d) = self.action_allowed(id, verb.name()) {
            return Err(d);
        }
        if verb == Verb::Restart {
            if let Err(d) = self.action_allowed(id, "start") {
                return Err(d);
            }
            if let Err(d) = self.action_allowed(id, "stop") {
                return Err(d);
            }
        }
        Ok(())
    }

    fn control(&self, args: &Json, verb: Verb) -> (p: Progress<Task, Json>)
        ensures
            p@ == control_first(self@, args@, verb),
    {
        let id: String = match argument_of(args, "service_id") {
            Err(d) => {
                return Progress::Over(Err(d));
            },
            Ok(id) => id,
        };
        if let Err(d) = self.control_allowed(id.as_str(), verb) {
            return Progress::Over(Err(d));
        }
        if verb == Verb::Stop {
            let p = stop_owned(id.as_str());
            while_stopping(id, verb, p)
        } else {
            Progress::Act(Action::Survey, Task::Gating { id, verb })
        }
    }

    fn control_gate(&self, sight: &Sight, id: String, verb: Verb) -> (p: Progress<Task, Json>)
        ensures
            p@ == control_gated(self@, sight@, id@, verb),
    {
        let i: usize = match self.fleet.config().services.find(id.as_str()) {
            None => {
                return Progress::Over(Err(Denial::UnknownService));
            },
            Some(i) => i,
        };
        let v = self.views(sight);
        assert(views::view_models(v@).len() == v@.len());
        assert(views::view_models(v@)[i as int] == v@[i as int]@);
        let memory: u64 = match self.fleet.config().services.at(i).memory_bytes {
            Some(m) => m,
            None => 0,
        };
        let required: u64 = if verb == Verb::Restart {
            memory.saturating_sub(v[i].ram_bytes)
        } else {
            memory
        };
        assert(required == control_memory(self@, sight@, id@, verb));
        let (ready, reply) = self.gate(required, &v, observed(sight));
        if !ready {
            return Progress::Over(Ok(reply));
        }
        if verb == Verb::Restart {
            let p = stop_owned(id.as_str());
            while_stopping(id, verb, p)
        } else {
            let p = self.start(id.as_str());
            while_starting(id, verb, p)
        }
    }

    /// The owned services that a cleanup stops.
    pub fn sweepable(&self) -> (r: Vec<String>)
        ensures
            ids::texts(r@) == sweep(self@),
    {
        let ghost all = ids::keys(self@.owned);
        let ghost keep = |id: Seq<char>| is_sweepable(self@, id);
        let services = &self.fleet.config().services;
        let n: usize = self.fleet.owned().len();
        let mut out: Vec<String> = Vec::new();
        let mut i: usize = 0;
        assert(all.take(0).filter(keep) =~= Seq::<Seq<char>>::empty()) by {
            reveal(Seq::filter);
        }
        assert(ids::texts(out@) =~= all.take(0).filter(keep));
        while i < n
            invariant
                i <= n == all.len(),
                all == ids::keys(self@.owned),
                keep == (|id: Seq<char>| is_sweepable(self@, id)),
                services@ == self@.config.services,
                ids::texts(out@) == all.take(i as int).filter(keep),
            decreases n - i,
        {
            let id = self.fleet.owned().id_at(i);
            assert(all[i as int] == id@);
            assert(all.take(i + 1) =~= all.take(i as int).push(all[i as int]));
            proof {
                all.take(i as int).lemma_filter_push(all[i as int], keep);
            }
            let ghost held = out@;
            let mine = match services.get(id.as_str()) {
                None => false,
                Some(s) => s.disposable && s.allowed_actions.contains("stop") && !self.leased(
                    id.as_str(),
                ),
            };
            assert(mine == keep(all[i as int]));
            if mine {
                out.push(id.clone());
                assert(ids::texts(out@) =~= ids::texts(held).push(id@));
            }
            i += 1;
        }
        assert(all.take(n as int) =~= all);
        out
    }

    /// Begins a call: see [`Engine::call_as`]. A random id is drawn only for a
    /// request.
    pub fn call(&mut self, name: &str, args: Json) -> (p: Progress<Task, Json>)
        ensures
            name@ != "runtime.request"@ ==> (final(self)@, p@) == call_first(
                old(self)@,
                name@,
                args@,
                Seq::empty(),
            ),
            name@ == "runtime.request"@ ==> exists|id: Seq<char>| #[trigger]
                fresh::is_runtime_id(id) && (final(self)@, p@) == call_first(
                    old(self)@,
                    name@,
                    args@,
                    id,
                ),
    {
        if same(name, "runtime.request") {
            let id = fresh_runtime_id();
            self.call_as(name, args, id)
        } else {
            let none = String::new();
            assert(none@ =~= Seq::empty());
            self.call_as(name, args, none)
        }
    }

    /// Begins a call. A new lease gets the id `fresh`.
    pub fn call_as(&mut self, name: &str, args: Json, fresh: String) -> (p: Progress<Task, Json>)
        ensures
            (final(self)@, p@) == call_first(old(self)@, name@, args@, fresh@),
    {
        if self.storage_failed && !reading(name) {
            return Progress::Over(Err(Denial::StorageFailed));
        }
        if same(name, "runtime.status") {
            Progress::Act(Action::Survey, Task::Status)
        } else if same(name, "services.list") {
            Progress::Act(Action::Survey, Task::List)
        } else if same(name, "services.get") {
            match argument_of(&args, "service_id") {
                Err(d) => Progress::Over(Err(d)),
                Ok(id) => Progress::Act(Action::Survey, Task::Get { id }),
            }
        } else if same(name, "jobs.list") {
            let f = vec![field("jobs", show_jobs(&self.state.jobs))];
            assert(json::fields(f@) =~= seq![("jobs"@, show::job_list(self@.jobs))]);
            Progress::Over(Ok(object_of(f)))
        } else if same(name, "jobs.get") {
            match argument_of(&args, "job_id") {
                Err(d) => Progress::Over(Err(d)),
                Ok(id) => match self.state.jobs.get(id.as_str()) {
                    None => Progress::Over(Err(Denial::UnknownJob)),
                    Some(j) => Progress::Over(Ok(show_job(j))),
                },
            }
        } else if same(name, "runtime.request") {
            Progress::Act(Action::Decode(args), Task::Decoding { fresh })
        } else if same(name, "runtime.release") {
            match argument_of(&args, "runtime_id") {
                Err(d) => Progress::Over(Err(d)),
                Ok(id) => self.release(id),
            }
        } else if same(name, "runtime.cleanup") {
            Progress::Act(Action::Look, Task::Sweeping)
        } else if same(name, "services.start") {
            self.control(&args, Verb::Start)
        } else if same(name, "services.stop") {
            self.control(&args, Verb::Stop)
        } else if same(name, "services.restart") {
            self.control(&args, Verb::Restart)
        } else {
            Progress::Over(Err(Denial::UnknownTool(name.to_string())))
        }
    }

    /// Goes on with a call.
    pub fn resume(&mut self, task: Task, event: Happening) -> (p: Progress<Task, Json>)
        ensures
            (final(self)@, p@) == call_next(old(self)@, task@, event@),
    {
        match (task, event) {
            (Task::Status, Event::Surveyed(sight)) => Progress::Over(Ok(self.status(&sight))),
            (Task::List, Event::Surveyed(sight)) => {
                let v = self.views(&sight);
                let f = vec![field("services", show_views(&v))];
                assert(json::fields(f@) =~= seq![
                    (
                        "services"@,
                        JsonModel::List(views::view_list(views::all_views(self@, sight@))),
                    ),
                ]);
                Progress::Over(Ok(object_of(f)))
            },
            (Task::Get { id }, Event::Surveyed(sight)) => {
                match self.fleet.config().services.find(id.as_str()) {
                    None => Progress::Over(Err(Denial::UnknownService)),
                    Some(i) => {
                        let v = self.views(&sight);
                        assert(views::view_models(v@).len() == v@.len());
                        assert(views::view_models(v@)[i as int] == v@[i as int]@);
                        Progress::Over(Ok(v[i].show()))
                    },
                }
            },
            (Task::Decoding { fresh }, Event::Decoded(r)) => while_asking(
                self.request_as(r, fresh),
            ),
            (Task::Decoding { fresh: _ }, Event::Failed(s)) => Progress::Over(
                Err(Denial::Failed(s)),
            ),
            (Task::Asking(inner), ev) => while_asking(self.request_step(inner, ev)),
            (Task::Releasing { runtime_id }, Event::Done) => {
                let f = vec![
                    field("status", text("RELEASED")),
                    field("runtime_id", text(runtime_id.as_str())),
                    field(
                        "note",
                        text("services retained; runtime.cleanup stops idle disposable services"),
                    ),
                ];
                assert(json::fields(f@) =~= release_note(runtime_id@));
                Progress::Over(Ok(object_of(f)))
            },
            (Task::Releasing { runtime_id: _ }, Event::Failed(s)) => {
                self.storage_failed = true;
                Progress::Over(Err(Denial::Failed(s)))
            },
            (Task::Sweeping, Event::Seen(r)) => {
                self.refresh(&r);
                let results: Vec<Json> = Vec::new();
                assert(json::models(results@) =~= Seq::<JsonModel>::empty());
                clean_rest(self.sweepable(), results)
            },
            (Task::Cleaning { left, results, stop }, ev) => {
                let now: String = stop.service.clone();
                match self.stop_step(stop, ev) {
                    Progress::Act(a, stop) => Progress::Act(
                        a,
                        Task::Cleaning { left, results, stop },
                    ),
                    Progress::Over(r) => {
                        let mut results = results;
                        let ghost held = json::models(results@);
                        let shown = show_outcome(now.as_str(), &r);
                        results.push(shown);
                        assert(json::models(results@) =~= held.push(shown@));
                        clean_rest(left, results)
                    },
                }
            },
            (Task::Gating { id, verb }, Event::Surveyed(sight)) => self.control_gate(
                &sight,
                id,
                verb,
            ),
            (Task::Stopping { id, verb, stop }, ev) => {
                let p = self.stop_step(stop, ev);
                let ended = match &p {
                    Progress::Over(Ok(())) => true,
                    _ => false,
                };
                if verb == Verb::Restart && ended {
                    let p = self.start(id.as_str());
                    while_starting(id, verb, p)
                } else {
                    while_stopping(id, verb, p)
                }
            },
            (Task::Starting { id, verb, start }, ev) => {
                let p = self.start_step(start, ev);
                while_starting(id, verb, p)
            },
            _ => Progress::Over(Err(Denial::OutOfTurn)),
        }
    }
}

/// Once a record could not be written, every call that would change something is
/// refused, and nothing but a restart ends that.
pub proof fn law_storage_failure_disables_changes(
    e: EngineModel,
    name: Seq<char>,
    args: JsonModel,
    fresh: Seq<char>,
    t: TaskModel,
    ev: HappeningModel,
)
    requires
        e.storage_failed,
    ensures
        !is_reading(name) ==> call_first(e, name, args, fresh) == (
            e,
            CallProgress::Over(Err(Denial::StorageFailed)),
        ),
        call_first(e, name, args, fresh).0.storage_failed,
        call_next(e, t, ev).0.storage_failed,
{
}

/// A service that a job holds is neither started nor stopped nor restarted by a
/// call, whoever makes it.
pub proof fn law_leased_service_is_left_alone(
    e: EngineModel,
    name: Seq<char>,
    args: JsonModel,
    fresh: Seq<char>,
    id: Seq<char>,
)
    requires
        name == "services.start"@ || name == "services.stop"@ || name == "services.restart"@,
        argument(args, "service_id"@) == Some(id),
        engine::is_leased(e, id),
    ensures
        call_first(e, name, args, fresh).0 == e,
        call_first(e, name, args, fresh).1 is Over,
        call_first(e, name, args, fresh).1->Over_0 is Err,
{
    lemma_tool_names();
}

proof fn lemma_tool_names()
    ensures
        "services.start"@ != "runtime.status"@,
        "services.start"@ != "services.list"@,
        "services.start"@ != "services.get"@,
        "services.start"@ != "jobs.list"@,
        "services.start"@ != "jobs.get"@,
        "services.start"@ != "runtime.request"@,
        "services.start"@ != "runtime.release"@,
        "services.start"@ != "runtime.cleanup"@,
        "services.stop"@ != "runtime.status"@,
        "services.stop"@ != "services.list"@,
        "services.stop"@ != "services.get"@,
        "services.stop"@ != "jobs.list"@,
        "services.stop"@ != "jobs.get"@,
        "services.stop"@ != "runtime.request"@,
        "services.stop"@ != "runtime.release"@,
        "services.stop"@ != "runtime.cleanup"@,
        "services.restart"@ != "runtime.status"@,
        "services.restart"@ != "services.list"@,
        "services.restart"@ != "services.get"@,
        "services.restart"@ != "jobs.list"@,
        "services.restart"@ != "jobs.get"@,
        "services.restart"@ != "runtime.request"@,
        "services.restart"@ != "runtime.release"@,
        "services.restart"@ != "runtime.cleanup"@,
{
    reveal_strlit("services.start");
    reveal_strlit("services.stop");
    reveal_strlit("services.restart");
    reveal_strlit("services.list");
    reveal_strlit("services.get");
    reveal_strlit("runtime.status");
    reveal_strlit("runtime.request");
    reveal_strlit("runtime.release");
    reveal_strlit("runtime.cleanup");
    reveal_strlit("jobs.list");
    reveal_strlit("jobs.get");
    assert("services.start"@[0] == 's' && "services.start"@.len() == 14);
    assert("services.stop"@[0] == 's' && "services.stop"@.len() == 13 && "services.stop"@[9] == 's');
    assert("services.restart"@[0] == 's' && "services.restart"@.len() == 16);
    assert("services.list"@.len() == 13 && "services.list"@[9] == 'l');
    assert("services.get"@.len() == 12);
    assert("runtime.status"@[0] == 'r');
    assert("runtime.request"@[0] == 'r');
    assert("runtime.release"@[0] == 'r');
    assert("runtime.cleanup"@[0] == 'r');
    assert("jobs.list"@[0] == 'j');
    assert("jobs.get"@[0] == 'j');
}

/// A cleanup stops only services that the supervisor owns, that are disposable,
/// for which a stop is allowed, and that no job holds.
pub proof fn law_cleanup_stops_only_idle_disposable_services(e: EngineModel, id: Seq<char>)
    requires
        sweep(e).contains(id),
    ensures
        ids::has(e.owned, id),
        ids::value(e.config.services, id).disposable,
        ids::value(e.config.services, id).allowed_actions.contains("stop"@),
        !engine::is_leased(e, id),
{
    let keep = |x: Seq<char>| is_sweepable(e, x);
    let keys = ids::keys(e.owned);
    keys.lemma_filter_contains_rev(keep, id);
    let i = choose|i: int| 0 <= i < sweep(e).len() && sweep(e)[i] == id;
    keys.lemma_filter_pred(keep, i);
}

/// A release ends one lease: no service is stopped or given up, the other jobs
/// stay as they are, and a second release of the same lease changes nothing more.
pub proof fn law_release_is_idempotent_and_stops_nothing(e: EngineModel, runtime_id: Seq<char>)
    requires
        job_of(e.jobs, runtime_id, 0) is Some,
    ensures
        ({
            let i = job_of(e.jobs, runtime_id, 0)->0;
            let (after, p) = release_first(e, runtime_id);
            &&& 0 <= i < e.jobs.len()
            &&& after.owned == e.owned && after.config == e.config
            &&& after.jobs.len() == e.jobs.len()
            &&& forall|k: int| 0 <= k < e.jobs.len() && k != i ==> #[trigger] after.jobs[k] == e.jobs[k]
            &&& after.jobs[i].0 == e.jobs[i].0
            &&& !model::is_holding(after.jobs[i].1.status)
            &&& after.jobs[i].1.request == e.jobs[i].1.request
            &&& p is Act && p->Act_0 is Record
            &&& release_first(after, runtime_id) == (after, p)
        }),
{
    let i = job_of(e.jobs, runtime_id, 0)->0;
    lemma_job_of(e.jobs, runtime_id, 0);
    let (after, p) = release_first(e, runtime_id);
    reveal_strlit("RELEASED");
    reveal_strlit("READY");
    reveal_strlit("INTERRUPTED");
    assert("RELEASED"@.len() == 8);
    assert("READY"@.len() == 5);
    assert("INTERRUPTED"@.len() == 11);
    lemma_job_of_released(e.jobs, runtime_id, 0);
    assert(released(after.jobs, i) =~= after.jobs);
}

proof fn lemma_job_of(jobs: Jobs, runtime_id: Seq<char>, from: int)
    requires
        0 <= from,
        job_of(jobs, runtime_id, from) is Some,
    ensures
        from <= job_of(jobs, runtime_id, from)->0 < jobs.len(),
        jobs[job_of(jobs, runtime_id, from)->0].1.runtime_id == runtime_id,
    decreases jobs.len() - from,
{
    if from < jobs.len() && jobs[from].1.runtime_id != runtime_id {
        lemma_job_of(jobs, runtime_id, from + 1);
    }
}

proof fn lemma_job_of_released(jobs: Jobs, runtime_id: Seq<char>, from: int)
    requires
        0 <= from,
        job_of(jobs, runtime_id, from) is Some,
    ensures
        job_of(released(jobs, job_of(jobs, runtime_id, from)->0), runtime_id, from) == job_of(
            jobs,
            runtime_id,
            from,
        ),
    decreases jobs.len() - from,
{
    let i = job_of(jobs, runtime_id, from)->0;
    lemma_job_of(jobs, runtime_id, from);
    if jobs[from].1.runtime_id != runtime_id {
        lemma_job_of_released(jobs, runtime_id, from + 1);
    }
}

/// A call that only reads leaves the state as it is, at its beginning and when it
/// goes on.
pub proof fn law_reading_changes_nothing(
    e: EngineModel,
    name: Seq<char>,
    args: JsonModel,
    fresh: Seq<char>,
    ev: HappeningModel,
)
    requires
        is_reading(name),
    ensures
        call_first(e, name, args, fresh).0 == e,
        call_first(e, name, args, fresh).1 matches ProgressModel::Act(a, t) ==> a
            == Action::<Seq<char>, JsonModel>::Survey && call_next(e, t, ev).0 == e && call_next(
            e,
            t,
            ev,
        ).1 is Over,
{
}

/// A cleanup at work on `list`: so many services have their results, one is being
/// stopped, and the rest is to follow.
pub open spec fn is_cleaning(t: TaskModel, list: Seq<Seq<char>>) -> bool {
    t matches TaskModel::Cleaning { left, results, stop } && {
        let k = results.len() as int;
        &&& k < list.len()
        &&& stop.service == list[k]
        &&& left == list.skip(k + 1)
        &&& forall|i: int| 0 <= i < k ==> request::is_outcome_of(#[trigger] results[i], list[i])
    }
}

/// A cleanup begins on just the services that may be swept away; it then stops
/// one after the other, whatever comes of each, and ends with one result for
/// every one of them. It changes no job.
#[verifier::rlimit(60)]
#[verifier::spinoff_prover]
pub proof fn law_cleanup_goes_through_its_list(
    e: EngineModel,
    t: TaskModel,
    ev: HappeningModel,
    list: Seq<Seq<char>>,
)
    ensures
        ev matches Event::Seen(r) ==> ({
            let (after, p) = call_next(e, TaskModel::Sweeping, ev);
            &&& after == engine::refreshed(e, r)
            &&& p matches ProgressModel::Act(a, next) ==> is_cleaning(next, sweep(after))
            &&& p is Over ==> sweep(after).len() == 0
        }),
        is_cleaning(t, list) ==> ({
            let (after, p) = call_next(e, t, ev);
            &&& after.jobs == e.jobs && after.config == e.config
            &&& p matches ProgressModel::Act(a, next) ==> is_cleaning(next, list)
            &&& p matches ProgressModel::Over(r) ==> r is Ok && exists|all: Seq<JsonModel>|
                all.len() == list.len() && r->Ok_0 == show::object(
                    #[trigger] results_fields(all),
                ) && forall|i: int|
                    0 <= i < all.len() ==> request::is_outcome_of(#[trigger] all[i], list[i])
        }),
{
    if let Event::Seen(r) = ev {
        let after = engine::refreshed(e, r);
        let l = sweep(after);
        if l.len() > 0 {
            assert(l.drop_first() =~= l.skip(1));
        }
    }
    if let TaskModel::Cleaning { left, results, stop } = t {
        if is_cleaning(t, list) {
            let (after, p) = stop::stop_next(e, stop, ev);
            if let ProgressModel::Over(r) = p {
                let k = results.len() as int;
                let more = results.push(show::object(request::outcome_fields(stop.service, r)));
                assert forall|i: int| 0 <= i < more.len() implies request::is_outcome_of(
                    #[trigger] more[i],
                    list[i],
                ) by {
                    if i < k {
                        assert(more[i] == results[i]);
                    }
                }
                if left.len() > 0 {
                    assert(left.first() == list[k + 1]);
                    assert(left.drop_first() =~= list.skip(k + 2));
                } else {
                    assert(call_next(e, t, ev).1 == clean_on(left, more));
                    assert(more.len() == list.len());
                    assert(results_fields(more).len() == 1);
                }
            }
        }
    }
}

/// The control of one service, by stopping or starting it.
pub open spec fn is_controlling(t: TaskModel, id: Seq<char>) -> bool {
    match t {
        TaskModel::Gating { id: x, .. } => x == id,
        TaskModel::Stopping { id: x, stop, .. } => x == id && stop.service == id,
        TaskModel::Starting { id: x, start, .. } => x == id && start.service == id,
        _ => false,
    }
}

/// A call that controls a service acts on that service alone. It begins only
/// where the action is allowed and no job holds the service, and a restart starts
/// the service only once it has been stopped.
pub proof fn law_control_keeps_to_its_service(
    e: EngineModel,
    args: JsonModel,
    verb: Verb,
    t: TaskModel,
    ev: HappeningModel,
    id: Seq<char>,
)
    ensures
        control_first(e, args, verb) matches ProgressModel::Act(a, next) ==> argument(
            args,
            "service_id"@,
        ) is Some && ({
            let x = argument(args, "service_id"@)->0;
            is_controlling(next, x) && !engine::is_leased(e, x) && control_denial(e, x, verb) is None
        }),
        is_controlling(t, id) ==> ({
            let (after, p) = call_next(e, t, ev);
            &&& after.jobs == e.jobs && after.config == e.config
            &&& p matches ProgressModel::Act(a, next) ==> {
                &&& is_controlling(next, id)
                &&& t is Stopping && next is Starting ==> stop::stop_next(
                    e,
                    t->Stopping_stop,
                    ev,
                ).1 == stop::StopProgress::Over(Ok(()))
            }
        }),
{
}

/// The start may come to stop the service.
pub open spec fn start_may_stop(t: StartModel, s: Seq<char>) -> bool {
    t.service == s || (t.stage matches start::StartStage::Undoing(inner) && inner.service == s)
}

/// The call may come to stop the service.
pub open spec fn may_stop(t: TaskModel, s: Seq<char>) -> bool {
    match t {
        TaskModel::Asking(inner) => match inner.stage {
            request::RequestStageModel::Starting { todo, started, start, .. } => {
                todo.contains(s) || started.contains(s) || start_may_stop(start, s)
            },
            request::RequestStageModel::Rolling { left, stop, .. } => {
                left.contains(s) || stop.service == s
            },
            _ => false,
        },
        TaskModel::Cleaning { left, stop, .. } => left.contains(s) || stop.service == s,
        TaskModel::Gating { id, .. } => id == s,
        TaskModel::Stopping { id, stop, .. } => id == s || stop.service == s,
        TaskModel::Starting { id, start, .. } => id == s || start_may_stop(start, s),
        _ => false,
    }
}

/// No job holds a service that the call may come to stop.
pub open spec fn is_harmless(e: EngineModel, t: TaskModel) -> bool {
    forall|s: Seq<char>| #[trigger] may_stop(t, s) ==> !engine::is_leased(e, s)
}

/// A signal to a running service.
pub open spec fn is_signal(a: Action<Seq<char>, JsonModel>) -> bool {
    a is Terminate || a is Kill
}

/// No call ever comes to stop a service that a job holds. A call begins without a
/// signal, and on services that no job holds; so does every step after it, and a
/// signal is sent only for a service that the call may come to stop. Looks at the
/// machine between the steps change nothing of this: they change no job.
pub proof fn law_no_call_stops_a_leased_service(
    e: EngineModel,
    name: Seq<char>,
    args: JsonModel,
    fresh: Seq<char>,
    t: TaskModel,
    ev: HappeningModel,
    r: ReadingsModel,
)
    ensures
        call_first(e, name, args, fresh).1 matches ProgressModel::Act(a, next) ==> is_harmless(
            call_first(e, name, args, fresh).0,
            next,
        ) && !is_signal(a),
        is_harmless(e, t) ==> is_harmless(engine::refreshed(e, r), t),
        is_harmless(e, t) ==> (call_next(e, t, ev).1 matches ProgressModel::Act(a, next) ==> {
            &&& is_harmless(call_next(e, t, ev).0, next)
            &&& is_signal(a) ==> exists|s: Seq<char>| #[trigger]
                may_stop(t, s) && !engine::is_leased(e, s)
        }),
{
    lemma_leases_kept(e, engine::refreshed(e, r));
    lemma_harmless_first(e, name, args, fresh);
    if is_harmless(e, t) {
        lemma_harmless_next(e, t, ev);
    }
}

proof fn lemma_leases_kept(e: EngineModel, after: EngineModel)
    requires
        after.jobs == e.jobs,
        after.config == e.config,
    ensures
        forall|s: Seq<char>| #[trigger] engine::is_leased(after, s) == engine::is_leased(e, s),
{
    assert forall|s: Seq<char>| #[trigger] engine::is_leased(after, s) == engine::is_leased(
        e,
        s,
    ) by {
        assert(engine::lessees(after, s) == engine::lessees(e, s));
    }
}

proof fn lemma_harmless_first(
    e: EngineModel,
    name: Seq<char>,
    args: JsonModel,
    fresh: Seq<char>,
)
    ensures
        call_first(e, name, args, fresh).1 matches ProgressModel::Act(a, next) ==> is_harmless(
            call_first(e, name, args, fresh).0,
            next,
        ) && !is_signal(a),
{
}

/// What a step keeps.
spec fn is_kept(e: EngineModel, t: TaskModel, ev: HappeningModel) -> bool {
    call_next(e, t, ev).1 matches ProgressModel::Act(a, next) ==> {
        &&& is_harmless(call_next(e, t, ev).0, next)
        &&& is_signal(a) ==> exists|s: Seq<char>| #[trigger]
            may_stop(t, s) && !engine::is_leased(e, s)
    }
}

proof fn lemma_harmless_next(e: EngineModel, t: TaskModel, ev: HappeningModel)
    requires
        is_harmless(e, t),
    ensures
        is_kept(e, t, ev),
{
    match t {
        TaskModel::Asking(inner) => {
            lemma_harmless_asking(e, inner, ev);
        },
        TaskModel::Sweeping => {
            lemma_harmless_sweep(e, ev);
        },
        TaskModel::Cleaning { .. } => {
            lemma_harmless_cleaning(e, t, ev);
        },
        TaskModel::Gating { .. } => {
            lemma_harmless_gating(e, t, ev);
        },
        TaskModel::Stopping { .. } => {
            lemma_harmless_stopping(e, t, ev);
        },
        TaskModel::Starting { .. } => {
            lemma_harmless_starting(e, t, ev);
        },
        _ => {},
    }
}

proof fn lemma_harmless_sweep(e: EngineModel, ev: HappeningModel)
    ensures
        is_kept(e, TaskModel::Sweeping, ev),
{
    if let Event::Seen(r) = ev {
        let after = engine::refreshed(e, r);
        let l = sweep(after);
        assert forall|s: Seq<char>| l.contains(s) implies !engine::is_leased(after, s) by {
            law_cleanup_stops_only_idle_disposable_services(after, s);
        }
        if l.len() > 0 {
            assert(l.contains(l[0]));
            assert forall|s: Seq<char>| l.drop_first().contains(s) implies l.contains(s) by {
                let k = choose|k: int| 0 <= k < l.drop_first().len() && l.drop_first()[k] == s;
                assert(l[k + 1] == s);
            }
        }
    }
}

proof fn lemma_harmless_cleaning(e: EngineModel, t: TaskModel, ev: HappeningModel)
    requires
        t is Cleaning,
        is_harmless(e, t),
    ensures
        is_kept(e, t, ev),
{
    if let TaskModel::Cleaning { left, results, stop } = t {
        let (after, p) = stop::stop_next(e, stop, ev);
        lemma_leases_kept(e, after);
        assert(may_stop(t, stop.service));
        assert forall|s: Seq<char>| left.contains(s) implies !engine::is_leased(after, s) by {
            assert(may_stop(t, s));
        }
        if left.len() > 0 {
            assert(left.contains(left[0]));
            assert forall|s: Seq<char>| left.drop_first().contains(s) implies left.contains(s) by {
                let k = choose|k: int| 0 <= k < left.drop_first().len() && left.drop_first()[k] == s;
                assert(left[k + 1] == s);
            }
        }
        match p {
            ProgressModel::Act(a, next) => {
                assert(next.service == stop.service);
            },
            _ => {},
        }
    }
}

proof fn lemma_harmless_gating(e: EngineModel, t: TaskModel, ev: HappeningModel)
    requires
        t is Gating,
        is_harmless(e, t),
    ensures
        is_kept(e, t, ev),
{
    if let TaskModel::Gating { id, .. } = t {
        assert(may_stop(t, id));
    }
}

proof fn lemma_harmless_stopping(e: EngineModel, t: TaskModel, ev: HappeningModel)
    requires
        t is Stopping,
        is_harmless(e, t),
    ensures
        is_kept(e, t, ev),
{
    if let TaskModel::Stopping { id, verb, stop } = t {
        let (after, p) = stop::stop_next(e, stop, ev);
        lemma_leases_kept(e, after);
        assert(may_stop(t, id));
        assert(may_stop(t, stop.service));
        match p {
            ProgressModel::Act(a, next) => {
                assert(next.service == stop.service);
            },
            _ => {},
        }
    }
}

proof fn lemma_harmless_starting(e: EngineModel, t: TaskModel, ev: HappeningModel)
    requires
        t is Starting,
        is_harmless(e, t),
    ensures
        is_kept(e, t, ev),
{
    if let TaskModel::Starting { id, verb, start } = t {
        let (after, p) = start::start_next(e, start, ev);
        request::lemma_start_keeps_jobs(e, start, ev);
        lemma_leases_kept(e, after);
        lemma_start_stays(e, start, ev);
        assert(may_stop(t, id));
        assert(may_stop(t, start.service));
        assert forall|s: Seq<char>| start_may_stop(start, s) implies !engine::is_leased(
            after,
            s,
        ) by {
            assert(may_stop(t, s));
        }
    }
}

/// A start comes to stop nothing but what it could stop before.
proof fn lemma_start_stays(e: EngineModel, t: StartModel, ev: HappeningModel)
    ensures
        start::start_next(e, t, ev).1 matches ProgressModel::Act(_, next) ==> forall|s: Seq<char>|
            #[trigger] start_may_stop(next, s) ==> start_may_stop(t, s),
{
}

proof fn lemma_harmless_asking(e: EngineModel, inner: AskingModel, ev: HappeningModel)
    requires
        is_harmless(e, TaskModel::Asking(inner)),
    ensures
        request::request_next(e, inner, ev).1 matches ProgressModel::Act(a, next) ==> {
            &&& is_harmless(request::request_next(e, inner, ev).0, TaskModel::Asking(next))
            &&& is_signal(a) ==> exists|s: Seq<char>| #[trigger]
                may_stop(TaskModel::Asking(inner), s) && !engine::is_leased(e, s)
        },
{
    let t = TaskModel::Asking(inner);
    let (after, p) = request::request_next(e, inner, ev);
    match (inner.stage, ev) {
        (request::RequestStageModel::Assessing { runtime_id }, Event::Surveyed(sight)) => {
            if let assess::Verdict::Ready { reply, plan } = assess::verdict(
                e,
                sight,
                inner.request,
                inner.full,
            ) {
                assess::law_ready_means_everything_is_there(
                    e,
                    sight,
                    inner.request,
                    inner.full,
                );
                lemma_harmless_start_on(
                    e,
                    inner.request,
                    inner.full,
                    runtime_id,
                    reply,
                    plan,
                    Seq::empty(),
                );
            }
        },
        (
            request::RequestStageModel::Starting { runtime_id, reply, todo, started, start },
            ev,
        ) => {
            let (e1, q) = start::start_next(e, start, ev);
            request::lemma_start_keeps_jobs(e, start, ev);
            lemma_leases_kept(e, e1);
            lemma_start_stays(e, start, ev);
            assert(may_stop(t, start.service));
            assert forall|s: Seq<char>| todo.contains(s) || started.contains(s) || start_may_stop(
                start,
                s,
            ) implies !engine::is_leased(e1, s) by {
                assert(may_stop(t, s));
            }
            match q {
                ProgressModel::Act(a, next) => {
                    assert forall|s: Seq<char>| start_may_stop(next, s) implies !engine::is_leased(
                        e1,
                        s,
                    ) by {
                        assert(start_may_stop(start, s));
                    }
                },
                ProgressModel::Over(Ok(_)) => {
                    let more = started.push(start.service);
                    assert forall|s: Seq<char>| more.contains(s) implies !engine::is_leased(
                        e1,
                        s,
                    ) by {
                        let k = choose|k: int| 0 <= k < more.len() && more[k] == s;
                        if k < started.len() {
                            assert(started[k] == s);
                        } else {
                            assert(start_may_stop(start, s));
                        }
                    }
                    lemma_harmless_start_on(
                        e1,
                        inner.request,
                        inner.full,
                        runtime_id,
                        reply,
                        todo,
                        more,
                    );
                },
                ProgressModel::Over(Err(d)) => {
                    lemma_harmless_roll_back(
                        e1,
                        inner.request,
                        inner.full,
                        runtime_id,
                        start.service,
                        d.text(),
                        started,
                        Seq::empty(),
                    );
                },
            }
        },
        (
            request::RequestStageModel::Rolling {
                runtime_id,
                service,
                reason,
                left,
                rollback,
                stop,
            },
            ev,
        ) => {
            let (e1, q) = stop::stop_next(e, stop, ev);
            lemma_leases_kept(e, e1);
            assert(may_stop(t, stop.service));
            assert forall|s: Seq<char>| left.contains(s) implies !engine::is_leased(e1, s) by {
                assert(may_stop(t, s));
            }
            if let ProgressModel::Over(res) = q {
                lemma_harmless_roll_back(
                    e1,
                    inner.request,
                    inner.full,
                    runtime_id,
                    service,
                    reason,
                    left,
                    rollback.push(show::object(request::outcome_fields(stop.service, res))),
                );
            }
        },
        _ => {},
    }
}

proof fn lemma_harmless_start_on(
    e: EngineModel,
    r: crate::model::RequestModel,
    full: Seq<Seq<char>>,
    runtime_id: Seq<char>,
    reply: JsonModel,
    todo: Seq<Seq<char>>,
    started: Seq<Seq<char>>,
)
    requires
        forall|s: Seq<char>|
            #![trigger engine::is_leased(e, s)]
            todo.contains(s) || started.contains(s) ==> !engine::is_leased(e, s),
    ensures
        request::start_on(e, r, full, runtime_id, reply, todo, started).1 matches ProgressModel::Act(
            a,
            next,
        ) ==> !is_signal(a) && is_harmless(
            request::start_on(e, r, full, runtime_id, reply, todo, started).0,
            TaskModel::Asking(next),
        ),
{
    if todo.len() > 0 {
        assert(todo.contains(todo[0]));
        assert forall|s: Seq<char>| todo.drop_first().contains(s) implies !engine::is_leased(
            e,
            s,
        ) by {
            let k = choose|k: int| 0 <= k < todo.drop_first().len() && todo.drop_first()[k] == s;
            assert(todo[k + 1] == s);
            assert(todo.contains(s));
        }
        if let Some(d) = engine::action_denial(e, todo.first(), "start"@) {
            lemma_harmless_roll_back(
                e,
                r,
                full,
                runtime_id,
                todo.first(),
                d.text(),
                started,
                Seq::empty(),
            );
        }
    }
}

proof fn lemma_harmless_roll_back(
    e: EngineModel,
    r: crate::model::RequestModel,
    full: Seq<Seq<char>>,
    runtime_id: Seq<char>,
    service: Seq<char>,
    reason: Seq<char>,
    left: Seq<Seq<char>>,
    rollback: Seq<JsonModel>,
)
    requires
        forall|s: Seq<char>|
            #![trigger engine::is_leased(e, s)]
            left.contains(s) ==> !engine::is_leased(e, s),
    ensures
        request::roll_back(
            e,
            r,
            full,
            runtime_id,
            service,
            reason,
            left,
            rollback,
        ).1 matches ProgressModel::Act(a, next) ==> !is_signal(a) && is_harmless(
            request::roll_back(e, r, full, runtime_id, service, reason, left, rollback).0,
            TaskModel::Asking(next),
        ),
{
    if left.len() > 0 {
        assert(left.contains(left[left.len() - 1]));
        assert forall|s: Seq<char>| left.drop_last().contains(s) implies !engine::is_leased(
            e,
            s,
        ) by {
            let k = choose|k: int| 0 <= k < left.drop_last().len() && left.drop_last()[k] == s;
            assert(left[k] == s);
            assert(left.contains(s));
        }
    }
}

/// A restart has to be allowed as such, and as a start and a stop.
pub proof fn law_restart_needs_all_three_actions(e: EngineModel, id: Seq<char>)
    requires
        control_denial(e, id, Verb::Restart) is None,
    ensures
        ids::value(e.config.services, id).allowed_actions.contains("start"@),
        ids::value(e.config.services, id).allowed_actions.contains("stop"@),
        ids::value(e.config.services, id).allowed_actions.contains("restart"@),
{
}

/// The memory of a job is held back until the job is released, and no longer.
pub proof fn law_release_frees_the_memory_of_the_job(jobs: Jobs, i: int)
    requires
        0 <= i < jobs.len(),
    ensures
        gate::held_by_jobs(released(jobs, i)) == gate::held_by_jobs(jobs) - if model::is_holding(
            jobs[i].1.status,
        ) {
            gate::or_zero(jobs[i].1.request.memory_bytes)
        } else {
            0
        },
    decreases jobs.len(),
{
    reveal_strlit("RELEASED");
    reveal_strlit("READY");
    reveal_strlit("INTERRUPTED");
    assert("RELEASED"@.len() == 8);
    assert("READY"@.len() == 5);
    assert("INTERRUPTED"@.len() == 11);
    let after = released(jobs, i);
    if i < jobs.len() - 1 {
        law_release_frees_the_memory_of_the_job(jobs.drop_last(), i);
        assert(after.drop_last() =~= released(jobs.drop_last(), i));
        assert(after.last() == jobs.last());
    } else {
        assert(after.drop_last() =~= jobs.drop_last());
    }
}

/// However a call begins, it leaves a supervisor well-formed.
pub proof fn law_call_begins_in_form(
    e: EngineModel,
    name: Seq<char>,
    args: JsonModel,
    fresh: Seq<char>,
)
    requires
        engine::is_well_formed(e),
    ensures
        engine::is_well_formed(call_first(e, name, args, fresh).0),
        call_first(e, name, args, fresh).0.config == e.config,
{
    if let Some(id) = argument(args, "runtime_id"@) {
        if let Some(i) = job_of(e.jobs, id, 0) {
            lemma_job_of(e.jobs, id, 0);
            assert(ids::keys(released(e.jobs, i)) =~= ids::keys(e.jobs));
        }
    }
}

/// However a call goes on, it leaves a supervisor well-formed.
pub proof fn law_call_keeps_form(e: EngineModel, t: TaskModel, ev: HappeningModel)
    requires
        engine::is_well_formed(e),
    ensures
        engine::is_well_formed(call_next(e, t, ev).0),
        call_next(e, t, ev).0.config == e.config,
{
    match (t, ev) {
        (TaskModel::Asking(inner), ev) => {
            request::law_request_keeps_form(e, inner, ev);
        },
        (TaskModel::Sweeping, Event::Seen(r)) => {
            engine::law_refreshed_is_well_formed(e, r);
        },
        (TaskModel::Cleaning { stop, .. }, ev) => {
            stop::law_stop_keeps_form(e, stop, ev);
        },
        (TaskModel::Stopping { stop, .. }, ev) => {
            stop::law_stop_keeps_form(e, stop, ev);
        },
        (TaskModel::Starting { start, .. }, ev) => {
            start::law_start_keeps_form(e, start, ev);
        },
        _ => {},
    }
}

/// The names of all tools, no two of them alike.
proof fn lemma_all_tools(all: Seq<Seq<char>>)
    requires
        all == seq![
            "runtime.status"@,
            "services.list"@,
            "services.get"@,
            "jobs.list"@,
            "jobs.get"@,
            "runtime.request"@,
            "runtime.release"@,
            "runtime.cleanup"@,
            "services.start"@,
            "services.stop"@,
            "services.restart"@,
        ],
    ensures
        forall|i: int, j: int|
            0 <= i < j < all.len() ==> #[trigger] all[i] != #[trigger] all[j],
{
    reveal_strlit("runtime.status");
    reveal_strlit("services.list");
    reveal_strlit("services.get");
    reveal_strlit("jobs.list");
    reveal_strlit("jobs.get");
    reveal_strlit("runtime.request");
    reveal_strlit("runtime.release");
    reveal_strlit("runtime.cleanup");
    reveal_strlit("services.start");
    reveal_strlit("services.stop");
    reveal_strlit("services.restart");
    assert("runtime.status"@[0] != "services.start"@[0]);
    assert("services.list"@[9] != "services.stop"@[9]);
    assert("runtime.request"@[10] != "runtime.release"@[10]);
    assert("runtime.request"@[8] != "runtime.cleanup"@[8]);
    assert("runtime.release"@[8] != "runtime.cleanup"@[8]);
    assert(all[0] == "runtime.status"@ && all[0].len() == 14);
    assert(all[1] == "services.list"@ && all[1].len() == 13);
    assert(all[2] == "services.get"@ && all[2].len() == 12);
    assert(all[3] == "jobs.list"@ && all[3].len() == 9);
    assert(all[4] == "jobs.get"@ && all[4].len() == 8);
    assert(all[5] == "runtime.request"@ && all[5].len() == 15);
    assert(all[6] == "runtime.release"@ && all[6].len() == 15);
    assert(all[7] == "runtime.cleanup"@ && all[7].len() == 15);
    assert(all[8] == "services.start"@ && all[8].len() == 14);
    assert(all[9] == "services.stop"@ && all[9].len() == 13);
    assert(all[10] == "services.restart"@ && all[10].len() == 16);
}

/// An argument is a text that is not empty, under its name in an object.
pub proof fn law_argument_is_a_text(args: JsonModel, key: Seq<char>, s: Seq<char>)
    ensures
        argument(args, key) == Some(s) <==> s.len() > 0 && (args matches JsonModel::Object(m)
            && m.contains_pair(key, JsonModel::Text(s))),
{
}

/// While records can be written no call is refused for want of them. Once one could
/// not be written, just the five calls that read are answered, and as before.
#[verifier::rlimit(60)]
#[verifier::spinoff_prover]
pub proof fn law_only_readers_survive_storage_failure(
    e: EngineModel,
    name: Seq<char>,
    args: JsonModel,
    fresh: Seq<char>,
)
    ensures
        ({
            let well = EngineModel { storage_failed: false, ..e };
            let ill = EngineModel { storage_failed: true, ..e };
            let refused = CallProgress::Over(Err(Denial::StorageFailed));
            let reads = name == "runtime.status"@ || name == "services.list"@ || name
                == "services.get"@ || name == "jobs.list"@ || name == "jobs.get"@;
            &&& call_first(well, name, args, fresh).1 != refused
            &&& reads ==> call_first(ill, name, args, fresh).1 == call_first(
                well,
                name,
                args,
                fresh,
            ).1
            &&& !reads ==> call_first(ill, name, args, fresh) == (ill, refused)
        }),
{
    let well = EngineModel { storage_failed: false, ..e };
    let ill = EngineModel { storage_failed: true, ..e };
    assert(show::job_list(well.jobs) == show::job_list(ill.jobs));
}

/// A call for a status, for the services or for the jobs is answered with all of
/// them; a call for one service or one job with that one, or with an error where
/// it is not known.
#[verifier::rlimit(60)]
#[verifier::spinoff_prover]
pub proof fn law_readers_answer_with_what_is_there(
    e: EngineModel,
    args: JsonModel,
    fresh: Seq<char>,
    sight: SightModel,
    id: Seq<char>,
    i: int,
)
    requires
        engine::is_well_formed(e),
    ensures
        call_first(e, "runtime.status"@, args, fresh) == (
            e,
            CallProgress::Act(Action::Survey, TaskModel::Status),
        ),
        call_first(e, "services.list"@, args, fresh) == (
            e,
            CallProgress::Act(Action::Survey, TaskModel::List),
        ),
        call_first(e, "jobs.list"@, args, fresh).1 matches ProgressModel::Over(Ok(j))
            && json::as_map(j).contains_pair("jobs"@, show::job_list(e.jobs)),
        argument(args, "service_id"@) == Some(id) ==> call_first(
            e,
            "services.get"@,
            args,
            fresh,
        ) == (e, CallProgress::Act(Action::Survey, TaskModel::Get { id })),
        argument(args, "service_id"@) is None ==> call_first(
            e,
            "services.get"@,
            args,
            fresh,
        ) == (e, CallProgress::Over(Err(Denial::Missing("service_id"@)))),
        argument(args, "job_id"@) is None ==> call_first(e, "jobs.get"@, args, fresh) == (
            e,
            CallProgress::Over(Err(Denial::Missing("job_id"@))),
        ),
        argument(args, "job_id"@) == Some(id) && 0 <= i < e.jobs.len() && e.jobs[i].0 == id
            ==> call_first(e, "jobs.get"@, args, fresh) == (
            e,
            CallProgress::Over(Ok(show::object(show::job_fields(e.jobs[i].1)))),
        ),
        argument(args, "job_id"@) == Some(id) && (forall|k: int|
            0 <= k < e.jobs.len() ==> (#[trigger] e.jobs[k]).0 != id) ==> call_first(
            e,
            "jobs.get"@,
            args,
            fresh,
        ) == (e, CallProgress::Over(Err(Denial::UnknownJob))),
        call_next(e, TaskModel::List, Event::Surveyed(sight)).1 matches ProgressModel::Over(Ok(j))
            && json::as_map(j).contains_pair(
            "services"@,
            JsonModel::List(views::view_list(views::all_views(e, sight))),
        ),
        0 <= i < e.config.services.len() && e.config.services[i].0 == id ==> call_next(
            e,
            TaskModel::Get { id },
            Event::Surveyed(sight),
        ).1 == CallProgress::Over(Ok(views::view_json(views::service_view(e, sight, i)))),
        (forall|k: int|
            0 <= k < e.config.services.len() ==> (#[trigger] e.config.services[k]).0 != id)
            ==> call_next(e, TaskModel::Get { id }, Event::Surveyed(sight)).1
            == CallProgress::Over(Err(Denial::UnknownService)),
        call_next(e, TaskModel::Status, Event::Surveyed(sight)).1 == CallProgress::Over(
            Ok(show::object(gate::status_fields(e, sight))),
        ),
{
    let all = seq![
        "runtime.status"@,
        "services.list"@,
        "services.get"@,
        "jobs.list"@,
        "jobs.get"@,
        "runtime.request"@,
        "runtime.release"@,
        "runtime.cleanup"@,
        "services.start"@,
        "services.stop"@,
        "services.restart"@,
    ];
    lemma_all_tools(all);
    assert(all[0] == "runtime.status"@);
    assert(all[1] == "services.list"@);
    assert(all[2] == "services.get"@);
    assert(all[3] == "jobs.list"@);
    assert(all[4] == "jobs.get"@);
    assert(all[5] == "runtime.request"@);
    assert(all[6] == "runtime.release"@);
    assert(all[7] == "runtime.cleanup"@);
    assert(all[8] == "services.start"@);
    assert(all[9] == "services.stop"@);
    assert(all[10] == "services.restart"@);
    let f = seq![("jobs"@, show::job_list(e.jobs))];
    json::lemma_last_field(f, 0);
    let g = seq![("services"@, JsonModel::List(views::view_list(views::all_views(e, sight))))];
    json::lemma_last_field(g, 0);
    if 0 <= i < e.jobs.len() {
        ids::lemma_at(e.jobs, i);
    }
    if 0 <= i < e.config.services.len() {
        ids::lemma_at(e.config.services, i);
    }
    if ids::has(e.jobs, id) {
        let k = ids::keys(e.jobs).index_of(id);
        assert(e.jobs[k].0 == id);
    }
    if ids::has(e.config.services, id) {
        let k = ids::keys(e.config.services).index_of(id);
        assert(e.config.services[k].0 == id);
    }
}

/// A request is handed over to be decoded, a cleanup begins with a look, and any
/// name that is not a tool's is refused by that name.
#[verifier::rlimit(60)]
#[verifier::spinoff_prover]
pub proof fn law_tools_go_by_their_names(
    e: EngineModel,
    name: Seq<char>,
    args: JsonModel,
    fresh: Seq<char>,
    r: crate::model::RequestModel,
    s: Seq<char>,
)
    requires
        !e.storage_failed,
    ensures
        call_first(e, "runtime.request"@, args, fresh) == (
            e,
            CallProgress::Act(Action::Decode(args), TaskModel::Decoding { fresh }),
        ),
        call_next(e, TaskModel::Decoding { fresh }, Event::Decoded(r)) == (
            e,
            asking(request::request_first(e, r, fresh)),
        ),
        call_next(e, TaskModel::Decoding { fresh }, Event::Failed(s)) == (
            e,
            CallProgress::Over(Err(Denial::Failed(s))),
        ),
        call_first(e, "runtime.cleanup"@, args, fresh) == (
            e,
            CallProgress::Act(Action::Look, TaskModel::Sweeping),
        ),
        !seq![
            "runtime.status"@,
            "services.list"@,
            "services.get"@,
            "jobs.list"@,
            "jobs.get"@,
            "runtime.request"@,
            "runtime.release"@,
            "runtime.cleanup"@,
            "services.start"@,
            "services.stop"@,
            "services.restart"@,
        ].contains(name) ==> call_first(e, name, args, fresh) == (
            e,
            CallProgress::Over(Err(Denial::UnknownTool(name))),
        ),
{
    let all = seq![
        "runtime.status"@,
        "services.list"@,
        "services.get"@,
        "jobs.list"@,
        "jobs.get"@,
        "runtime.request"@,
        "runtime.release"@,
        "runtime.cleanup"@,
        "services.start"@,
        "services.stop"@,
        "services.restart"@,
    ];
    lemma_all_tools(all);
    assert(all[0] == "runtime.status"@);
    assert(all[1] == "services.list"@);
    assert(all[2] == "services.get"@);
    assert(all[3] == "jobs.list"@);
    assert(all[4] == "jobs.get"@);
    assert(all[5] == "runtime.request"@);
    assert(all[6] == "runtime.release"@);
    assert(all[7] == "runtime.cleanup"@);
    assert(all[8] == "services.start"@);
    assert(all[9] == "services.stop"@);
    assert(all[10] == "services.restart"@);
}

/// A service is acted on only where it is named and configured to be managed, no
/// job holds it, and the action is allowed; a restart only where a start and a stop
/// are allowed too. A stop then begins with a look, and a start or restart with a
/// survey of the memory.
#[verifier::rlimit(60)]
#[verifier::spinoff_prover]
pub proof fn law_control_needs_permission(
    e: EngineModel,
    args: JsonModel,
    fresh: Seq<char>,
    verb: Verb,
    i: int,
)
    requires
        engine::is_well_formed(e),
        !e.storage_failed,
        0 <= i < e.config.services.len(),
        argument(args, "service_id"@) == Some(e.config.services[i].0),
    ensures
        ({
            let (id, s) = e.config.services[i];
            let name = match verb {
                Verb::Start => "services.start"@,
                Verb::Stop => "services.stop"@,
                Verb::Restart => "services.restart"@,
            };
            let (after, p) = call_first(e, name, args, fresh);
            let allowed = match verb {
                Verb::Start => s.allowed_actions.contains("start"@),
                Verb::Stop => s.allowed_actions.contains("stop"@),
                Verb::Restart => s.allowed_actions.contains("restart"@)
                    && s.allowed_actions.contains("start"@) && s.allowed_actions.contains("stop"@),
            };
            let may = s.mode == Mode::Managed && allowed && engine::leases(e, id).len() == 0;
            &&& after == e
            &&& may && verb == Verb::Stop ==> p == CallProgress::Act(
                Action::Look,
                TaskModel::Stopping {
                    id,
                    verb,
                    stop: StopTask { service: id, stage: StopStage::Looking },
                },
            )
            &&& may && verb != Verb::Stop ==> p == CallProgress::Act(
                Action::Survey,
                TaskModel::Gating { id, verb },
            )
            &&& s.mode != Mode::Managed || !allowed ==> p == CallProgress::Over(
                Err(Denial::ControlDenied),
            ) || engine::leases(e, id).len() > 0 && p == CallProgress::Over(
                Err(Denial::Protected),
            )
            &&& s.mode == Mode::Managed && allowed && !may ==> p == CallProgress::Over(
                Err(Denial::Protected),
            )
        }),
{
    let (id, s) = e.config.services[i];
    lemma_tool_names();
    reveal_strlit("services.start");
    reveal_strlit("services.stop");
    reveal_strlit("services.restart");
    assert("services.start"@.len() == 14);
    assert("services.stop"@.len() == 13);
    assert("services.restart"@.len() == 16);
    engine::law_action_needs_permission_and_no_lease(e, i, id, "start"@);
    engine::law_action_needs_permission_and_no_lease(e, i, id, "stop"@);
    engine::law_action_needs_permission_and_no_lease(e, i, id, "restart"@);
}

/// A start or restart goes on from the survey only where the memory that it takes
/// is free: for a start what the service is configured to take, for a restart what
/// of that its processes do not use already. Where it is not free, the call is over
/// with an answer that says what was required, and nothing is done.
#[verifier::rlimit(60)]
#[verifier::spinoff_prover]
pub proof fn law_control_is_gated_by_memory(
    e: EngineModel,
    sight: SightModel,
    verb: Verb,
    i: int,
)
    requires
        engine::is_well_formed(e),
        0 <= i < e.config.services.len(),
        verb != Verb::Stop,
    ensures
        ({
            let (id, s) = e.config.services[i];
            let (after, p) = call_next(
                e,
                TaskModel::Gating { id, verb },
                Event::Surveyed(sight),
            );
            let free = gate::free_for_request(
                e,
                views::all_views(e, sight),
                gate::observed_memory(sight),
            );
            let whole: int = match s.memory_bytes {
                Some(n) => n as int,
                None => 0,
            };
            let used = views::service_view(e, sight, i).ram_bytes;
            let takes: int = if verb == Verb::Start {
                whole
            } else if used < whole {
                whole - used
            } else {
                0
            };
            &&& after == e
            &&& takes > free ==> {
                &&& p matches ProgressModel::Over(Ok(j))
                &&& json::as_map(j).contains_pair(
                    "status"@,
                    JsonModel::Text("BLOCKED_RESOURCE"@),
                )
                &&& json::as_map(j).contains_pair("required"@, JsonModel::Integer(takes))
                &&& json::as_map(j).contains_pair("available"@, JsonModel::Integer(free))
                &&& json::as_map(j).contains_pair("shortfall"@, JsonModel::Integer(takes - free))
            }
            &&& takes <= free && verb == Verb::Restart ==> p == CallProgress::Act(
                Action::Look,
                TaskModel::Stopping {
                    id,
                    verb,
                    stop: StopTask { service: id, stage: StopStage::Looking },
                },
            )
            &&& takes <= free && verb == Verb::Start && engine::leases(e, id).len() > 0 ==> p is Over
                && p->Over_0 is Err
            &&& takes <= free && verb == Verb::Start && s.mode == Mode::Managed
                && s.allowed_actions.contains("start"@) && engine::leases(e, id).len() == 0
                ==> p == CallProgress::Act(
                Action::Look,
                TaskModel::Starting {
                    id,
                    verb,
                    start: start::StartTask { service: id, stage: start::StartStage::Looking },
                },
            )
        }),
{
    let (id, s) = e.config.services[i];
    ids::lemma_at(e.config.services, i);
    start::law_start_needs_permission(e, i);
    crate::sight::lemma_part_ram(sight.readings.rows, Some(id));
    let v = views::all_views(e, sight);
    let observed = gate::observed_memory(sight);
    let required = control_memory(e, sight, id, verb) as u64;
    gate::lemma_gate_fields(e, v, observed, required);
    let f = gate::gate_fields(e, v, observed, required);
    assert(f[0].0 == "status"@);
    assert(f[3].0 == "required"@);
    assert(f[4].0 == "available"@);
    assert(f[5].0 == "shortfall"@);
}

/// The control of a service follows the stop, and the start, to their ends. A
/// restart starts the service once it has been stopped; else a success is answered
/// with the service and the action, and a failure with its reason.
#[verifier::rlimit(60)]
#[verifier::spinoff_prover]
pub proof fn law_control_ends_as_its_work_ends(
    e: EngineModel,
    id: Seq<char>,
    verb: Verb,
    halt: StopModel,
    begin: StartModel,
    ev: HappeningModel,
)
    ensures
        ({
            let done = |j: JsonModel|
                json::as_map(j).contains_pair("status"@, JsonModel::Text("OK"@)) && json::as_map(
                    j,
                ).contains_pair("service_id"@, JsonModel::Text(id)) && json::as_map(
                    j,
                ).contains_pair(
                    "action"@,
                    JsonModel::Text(
                        match verb {
                            Verb::Start => "start"@,
                            Verb::Stop => "stop"@,
                            Verb::Restart => "restart"@,
                        },
                    ),
                );
            let (stopped, q) = stop::stop_next(e, halt, ev);
            let (after, p) = call_next(e, TaskModel::Stopping { id, verb, stop: halt }, ev);
            let (started, u) = start::start_next(e, begin, ev);
            let (then, w) = call_next(e, TaskModel::Starting { id, verb, start: begin }, ev);
            &&& after == stopped && then == started
            &&& q matches ProgressModel::Act(a, rest) ==> p == CallProgress::Act(
                a,
                TaskModel::Stopping { id, verb, stop: rest },
            )
            &&& q matches ProgressModel::Over(Err(d)) ==> p == CallProgress::Over(Err(d))
            &&& q == stop::StopProgress::Over(Ok(())) && verb != Verb::Restart ==> (
            p matches ProgressModel::Over(Ok(j)) && done(j))
            &&& q == stop::StopProgress::Over(Ok(())) && verb == Verb::Restart ==> match start::start_first(stopped, id) {
                ProgressModel::Act(a, rest) => p == CallProgress::Act(
                    a,
                    TaskModel::Starting { id, verb, start: rest },
                ),
                ProgressModel::Over(Err(d)) => p == CallProgress::Over(Err(d)),
                ProgressModel::Over(Ok(_)) => false,
            }
            &&& u matches ProgressModel::Act(a, rest) ==> w == CallProgress::Act(
                a,
                TaskModel::Starting { id, verb, start: rest },
            )
            &&& u matches ProgressModel::Over(Err(d)) ==> w == CallProgress::Over(Err(d))
            &&& u matches ProgressModel::Over(Ok(_)) ==> (w matches ProgressModel::Over(Ok(j))
                && done(j))
        }),
{
    let f = controlled_fields(id, verb);
    reveal_strlit("status");
    reveal_strlit("service_id");
    reveal_strlit("action");
    assert("status"@[0] != "action"@[0]);
    assert(f.len() == 3);
    assert(f[0].0 == "status"@ && f[0].0.len() == 6);
    assert(f[1].0 == "service_id"@ && f[1].0.len() == 10);
    assert(f[2].0 == "action"@ && f[2].0.len() == 6);
    assert(json::distinct(f));
    json::lemma_object(f);
    assert(json::object(f).contains_pair(f[0].0, f[0].1));
    assert(json::object(f).contains_pair(f[1].0, f[1].1));
    assert(json::object(f).contains_pair(f[2].0, f[2].1));
}

/// A release ends the first job of that lease, and only it: the job is released,
/// keeps its request and its lease id, and says so in its result; no other job, no
/// process and nothing else changes. A lease that no job has is unknown.
#[verifier::rlimit(60)]
#[verifier::spinoff_prover]
pub proof fn law_release_ends_the_lease(e: EngineModel, args: JsonModel, fresh: Seq<char>, i: int)
    requires
        !e.storage_failed,
    ensures
        argument(args, "runtime_id"@) is None ==> call_first(e, "runtime.release"@, args, fresh)
            == (e, CallProgress::Over(Err(Denial::Missing("runtime_id"@)))),
        argument(args, "runtime_id"@) matches Some(id) ==> {
            let (after, p) = call_first(e, "runtime.release"@, args, fresh);
            &&& (forall|k: int|
                0 <= k < e.jobs.len() ==> (#[trigger] e.jobs[k]).1.runtime_id != id) ==> after == e
                && p == CallProgress::Over(Err(Denial::UnknownRuntime))
            &&& 0 <= i < e.jobs.len() && e.jobs[i].1.runtime_id == id && (forall|k: int|
                0 <= k < i ==> (#[trigger] e.jobs[k]).1.runtime_id != id) ==> {
                &&& after.config == e.config && after.owned == e.owned && after.storage_failed
                    == e.storage_failed
                &&& after.jobs.len() == e.jobs.len()
                &&& forall|k: int|
                    0 <= k < e.jobs.len() && k != i ==> #[trigger] after.jobs[k] == e.jobs[k]
                &&& after.jobs[i].0 == e.jobs[i].0
                &&& after.jobs[i].1.status == "RELEASED"@
                &&& after.jobs[i].1.request == e.jobs[i].1.request
                &&& after.jobs[i].1.runtime_id == id
                &&& json::as_map(after.jobs[i].1.result).contains_pair(
                    "status"@,
                    JsonModel::Text("RELEASED"@),
                )
                &&& json::as_map(after.jobs[i].1.result).contains_pair(
                    "runtime_id"@,
                    JsonModel::Text(id),
                )
                &&& p matches ProgressModel::Act(Action::Record { event, detail }, next)
                &&& event == "runtime_released"@
                &&& json::as_map(detail).contains_pair("runtime_id"@, JsonModel::Text(id))
                &&& next == TaskModel::Releasing { runtime_id: id }
            }
        },
{
    let all = seq![
        "runtime.status"@,
        "services.list"@,
        "services.get"@,
        "jobs.list"@,
        "jobs.get"@,
        "runtime.request"@,
        "runtime.release"@,
        "runtime.cleanup"@,
        "services.start"@,
        "services.stop"@,
        "services.restart"@,
    ];
    lemma_all_tools(all);
    assert(all[0] == "runtime.status"@);
    assert(all[1] == "services.list"@);
    assert(all[2] == "services.get"@);
    assert(all[3] == "jobs.list"@);
    assert(all[4] == "jobs.get"@);
    assert(all[5] == "runtime.request"@);
    assert(all[6] == "runtime.release"@);
    assert(all[7] == "runtime.cleanup"@);
    assert(all[8] == "services.start"@);
    assert(all[9] == "services.stop"@);
    assert(all[10] == "services.restart"@);
    if let Some(id) = argument(args, "runtime_id"@) {
        lemma_first_job(e.jobs, id, 0, i);
        let f = released_fields(id);
        reveal_strlit("status");
        reveal_strlit("runtime_id");
        assert("status"@.len() != "runtime_id"@.len());
        assert(f[0].0 != f[1].0);
        json::lemma_last_field(f, 0);
        json::lemma_last_field(f, 1);
        let g = seq![("runtime_id"@, JsonModel::Text(id))];
        json::lemma_last_field(g, 0);
    }
}

proof fn lemma_first_job(jobs: Jobs, runtime_id: Seq<char>, from: int, i: int)
    requires
        0 <= from <= jobs.len(),
    ensures
        (forall|k: int| from <= k < jobs.len() ==> (#[trigger] jobs[k]).1.runtime_id != runtime_id)
            ==> job_of(jobs, runtime_id, from) is None,
        from <= i < jobs.len() && jobs[i].1.runtime_id == runtime_id && (forall|k: int|
            from <= k < i ==> (#[trigger] jobs[k]).1.runtime_id != runtime_id) ==> job_of(
            jobs,
            runtime_id,
            from,
        ) == Some(i),
    decreases jobs.len() - from,
{
    if from < jobs.len() {
        lemma_first_job(jobs, runtime_id, from + 1, i);
        if from < i {
            assert(jobs[from].1.runtime_id == jobs[from].1.runtime_id);
        }
    }
}

/// A release is answered once it is on record; where the record could not be
/// written, no more changes are made.
pub proof fn law_release_is_answered_once_recorded(e: EngineModel, runtime_id: Seq<char>, s: Seq<char>)
    ensures
        call_next(e, TaskModel::Releasing { runtime_id }, Event::Done).0 == e,
        call_next(e, TaskModel::Releasing { runtime_id }, Event::Done).1 matches ProgressModel::Over(
            Ok(j),
        ) && json::as_map(j).contains_pair("status"@, JsonModel::Text("RELEASED"@))
            && json::as_map(j).contains_pair("runtime_id"@, JsonModel::Text(runtime_id)),
        call_next(e, TaskModel::Releasing { runtime_id }, Event::Failed(s)) == (
            EngineModel { storage_failed: true, ..e },
            CallProgress::Over(Err(Denial::Failed(s))),
        ),
{
    let f = release_note(runtime_id);
    reveal_strlit("status");
    reveal_strlit("runtime_id");
    reveal_strlit("note");
    assert(f.len() == 3);
    assert(f[0].0 == "status"@ && f[0].0.len() == 6);
    assert(f[1].0 == "runtime_id"@ && f[1].0.len() == 10);
    assert(f[2].0 == "note"@ && f[2].0.len() == 4);
    assert(json::distinct(f));
    json::lemma_object(f);
    assert(json::object(f).contains_pair(f[0].0, f[0].1));
    assert(json::object(f).contains_pair(f[1].0, f[1].1));
}

/// A cleanup takes up, after a look, just the services that are still owned, that
/// are configured as disposable with a stop allowed, and that no job holds; in the
/// order in which they are owned.
#[verifier::rlimit(60)]
#[verifier::spinoff_prover]
pub proof fn law_cleanup_takes_up_every_idle_disposable_service(
    e: EngineModel,
    r: ReadingsModel,
    k: int,
    i: int,
)
    requires
        engine::is_well_formed(e),
        0 <= k < engine::refreshed(e, r).owned.len(),
        0 <= i < e.config.services.len(),
        engine::refreshed(e, r).owned[k].0 == e.config.services[i].0,
    ensures
        ({
            let (id, s) = e.config.services[i];
            let (after, p) = call_next(e, TaskModel::Sweeping, Event::Seen(r));
            let idle = s.disposable && s.allowed_actions.contains("stop"@) && engine::leases(
                after,
                id,
            ).len() == 0;
            let list = match p {
                ProgressModel::Act(_, TaskModel::Cleaning { left, results, stop }) => seq![
                    stop.service,
                ] + left,
                _ => Seq::empty(),
            };
            &&& after == engine::refreshed(e, r)
            &&& list.contains(id) <==> idle
            &&& p matches ProgressModel::Act(a, next) ==> a == Action::<
                Seq<char>,
                JsonModel,
            >::Look && next is Cleaning && next->Cleaning_results.len() == 0
                && next->Cleaning_stop.stage is Looking
            &&& forall|x: int, y: int|
                0 <= x < y < list.len() ==> views::stands_before(
                    ids::keys(after.owned),
                    #[trigger] list[x],
                    #[trigger] list[y],
                )
        }),
{
    let (id, s) = e.config.services[i];
    let after = engine::refreshed(e, r);
    engine::law_refreshed_is_well_formed(e, r);
    ids::lemma_at(e.config.services, i);
    let keys = ids::keys(after.owned);
    let keep = |x: Seq<char>| is_sweepable(after, x);
    assert(keys[k] == id);
    assert(engine::leases(after, id).len() == engine::lessees(after, id).len());
    views::lemma_filter_order(keys, keep);
    let l = sweep(after);
    if keep(id) {
        keys.lemma_filter_contains(keep, k);
    }
    if l.contains(id) {
        let n = choose|n: int| 0 <= n < l.len() && l[n] == id;
        keys.lemma_filter_pred(keep, n);
    }
    if l.len() > 0 {
        assert(seq![l.first()] + l.drop_first() =~= l);
    }
}

/// A cleanup reports of each service what came of stopping it: that it was stopped,
/// or why it was not; and then goes on with the next one.
#[verifier::rlimit(60)]
#[verifier::spinoff_prover]
pub proof fn law_cleanup_reports_what_came_of_it(
    e: EngineModel,
    left: Seq<Seq<char>>,
    results: Seq<JsonModel>,
    halt: StopModel,
    ev: HappeningModel,
)
    ensures
        ({
            let (stopped, q) = stop::stop_next(e, halt, ev);
            let (after, p) = call_next(
                e,
                TaskModel::Cleaning { left, results, stop: halt },
                ev,
            );
            &&& after == stopped
            &&& q matches ProgressModel::Act(a, rest) ==> p == CallProgress::Act(
                a,
                TaskModel::Cleaning { left, results, stop: rest },
            )
            &&& q matches ProgressModel::Over(r) ==> {
                let all = match p {
                    ProgressModel::Act(_, TaskModel::Cleaning { results, .. }) => results,
                    ProgressModel::Over(Ok(j)) => match json::as_map(j)["results"@] {
                        JsonModel::List(all) => all,
                        _ => Seq::empty(),
                    },
                    _ => Seq::empty(),
                };
                &&& all.len() == results.len() + 1
                &&& all.drop_last() == results
                &&& json::as_map(all.last()).contains_pair(
                    "service"@,
                    JsonModel::Text(halt.service),
                )
                &&& r is Ok ==> json::as_map(all.last()).contains_pair(
                    "result"@,
                    JsonModel::Text("stopped"@),
                )
                &&& r matches Err(d) ==> json::as_map(all.last()).contains_pair(
                    "result"@,
                    JsonModel::Text(d.text()),
                )
                &&& left.len() == 0 <==> p is Over
                &&& left.len() > 0 ==> p == CallProgress::Act(
                    Action::Look,
                    TaskModel::Cleaning {
                        left: left.drop_first(),
                        results: all,
                        stop: StopTask { service: left[0], stage: StopStage::Looking },
                    },
                )
            }
        }),
{
    let (stopped, q) = stop::stop_next(e, halt, ev);
    if let ProgressModel::Over(r) = q {
        request::law_outcome_says_what_happened(halt.service, r);
        let one = show::object(request::outcome_fields(halt.service, r));
        let all = results.push(one);
        assert(all.drop_last() =~= results);
        let f = results_fields(all);
        json::lemma_last_field(f, 0);
    }
}

/// A call for a request follows the request, step by step, to its end.
#[verifier::rlimit(60)]
#[verifier::spinoff_prover]
pub proof fn law_call_follows_its_request(
    e: EngineModel,
    inner: AskingModel,
    r: crate::model::RequestModel,
    fresh: Seq<char>,
    ev: HappeningModel,
)
    ensures
        ({
            let (then, q) = request::request_next(e, inner, ev);
            let (after, p) = call_next(e, TaskModel::Asking(inner), ev);
            &&& after == then
            &&& q matches ProgressModel::Act(a, rest) ==> p == CallProgress::Act(
                a,
                TaskModel::Asking(rest),
            )
            &&& q matches ProgressModel::Over(x) ==> p == CallProgress::Over(x)
        }),
        ({
            let q = request::request_first(e, r, fresh);
            let (after, p) = call_next(e, TaskModel::Decoding { fresh }, Event::Decoded(r));
            &&& after == e
            &&& q matches ProgressModel::Act(a, rest) ==> p == CallProgress::Act(
                a,
                TaskModel::Asking(rest),
            )
            &&& q matches ProgressModel::Over(x) ==> p == CallProgress::Over(x)
        }),
{
}

/// The control of a service has to be told which, and of one that is not configured
/// it says so.
#[verifier::rlimit(60)]
#[verifier::spinoff_prover]
pub proof fn law_control_needs_a_known_service(
    e: EngineModel,
    name: Seq<char>,
    args: JsonModel,
    fresh: Seq<char>,
)
    requires
        !e.storage_failed,
        name == "services.start"@ || name == "services.stop"@ || name == "services.restart"@,
    ensures
        argument(args, "service_id"@) is None ==> call_first(e, name, args, fresh) == (
            e,
            CallProgress::Over(Err(Denial::Missing("service_id"@))),
        ),
        argument(args, "service_id"@) matches Some(id) ==> ((forall|k: int|
            0 <= k < e.config.services.len() ==> (#[trigger] e.config.services[k]).0 != id)
            ==> call_first(e, name, args, fresh) == (
            e,
            CallProgress::Over(Err(Denial::UnknownService)),
        )),
{
    lemma_tool_names();
    if let Some(id) = argument(args, "service_id"@) {
        if ids::has(e.config.services, id) {
            let k = ids::keys(e.config.services).index_of(id);
            assert(e.config.services[k].0 == id);
        }
    }
}

} // verus!
