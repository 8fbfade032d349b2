//! A request for a runtime: it is looked at once, the services that it needs are
//! started one after the other, and what was started is stopped again should one
//! of them fail.

use vstd::prelude::*;
use vstd::string::*;
use crate::action;
use crate::action::{Action, Event, Happening, HappeningModel, Progress, ProgressModel};
use crate::assess;
use crate::assess::{sort_texts, Verdict};
use crate::denial::Denial;
use crate::depend;
use crate::engine;
use crate::engine::{Engine, EngineModel};
use crate::fresh;
use crate::fresh::fresh_runtime_id;
use crate::ids;
use crate::json;
use crate::json::{field, list_of, object_of, text, text_list, Json, JsonModel};
use crate::model;
use crate::model::{holding, Job, JobModel, Request, RequestModel};
use crate::show;
use crate::sight::{Sight, SightModel};
use crate::start;
use crate::start::{Start, StartModel, StartStage, StartTask};
use crate::stop;
use crate::stop::{Stop, StopModel, StopStage, StopTask};
use crate::text;
use crate::text::{blank, chars_of, same};
use crate::views;
use crate::views::{show_views, Condition};

verus! {

/// What a request is waiting for. `todo` are the services still to be started
/// after the one under way, `started` those that this request has started, and
/// `left` those of them still to be stopped after the one under way.
#[derive(Debug, PartialEq)]
pub enum RequestStage {
    Repeating { runtime_id: String, ready: bool },
    Assessing { runtime_id: String },
    Starting {
        runtime_id: String,
        reply: Json,
        todo: Vec<String>,
        started: Vec<String>,
        start: Start,
    },
    Rolling {
        runtime_id: String,
        service: String,
        reason: String,
        left: Vec<String>,
        rollback: Vec<Json>,
        stop: Stop,
    },
    Concluding { reply: Json },
}

pub enum RequestStageModel {
    Repeating { runtime_id: Seq<char>, ready: bool },
    Assessing { runtime_id: Seq<char> },
    Starting {
        runtime_id: Seq<char>,
        reply: JsonModel,
        todo: Seq<Seq<char>>,
        started: Seq<Seq<char>>,
        start: StartModel,
    },
    Rolling {
        runtime_id: Seq<char>,
        service: Seq<char>,
        reason: Seq<char>,
        left: Seq<Seq<char>>,
        rollback: Seq<JsonModel>,
        stop: StopModel,
    },
    Concluding { reply: JsonModel },
}

/// A request under way. `full` are the services that it requires, with all that
/// they require.
#[derive(Debug, PartialEq)]
pub struct Asking {
    pub request: Request,
    pub full: Vec<String>,
    pub stage: RequestStage,
}

pub struct AskingModel {
    pub request: RequestModel,
    pub full: Seq<Seq<char>>,
    pub stage: RequestStageModel,
}

impl View for Asking {
    type V = AskingModel;

    open spec fn view(&self) -> AskingModel {
        AskingModel {
            request: self.request@,
            full: ids::texts(self.full@),
            stage: match self.stage {
                RequestStage::Repeating { runtime_id, ready } => RequestStageModel::Repeating {
                    runtime_id: runtime_id@,
                    ready,
                },
                RequestStage::Assessing { runtime_id } => RequestStageModel::Assessing {
                    runtime_id: runtime_id@,
                },
                RequestStage::Starting { runtime_id, reply, todo, started, start } => {
                    RequestStageModel::Starting {
                        runtime_id: runtime_id@,
                        reply: reply@,
                        todo: ids::texts(todo@),
                        started: ids::texts(started@),
                        start: start@,
                    }
                },
                RequestStage::Rolling { runtime_id, service, reason, left, rollback, stop } => {
                    RequestStageModel::Rolling {
                        runtime_id: runtime_id@,
                        service: service@,
                        reason: reason@,
                        left: ids::texts(left@),
                        rollback: json::models(rollback@),
                        stop: stop@,
                    }
                },
                RequestStage::Concluding { reply } => RequestStageModel::Concluding {
                    reply: reply@,
                },
            },
        }
    }
}

pub type RequestProgress = ProgressModel<AskingModel, JsonModel>;

/// A name has 1 to 128 characters, and not only white space.
pub open spec fn is_fit(name: Seq<char>) -> bool {
    !text::is_blank(name) && name.len() <= 128
}

/// The request with what it requires in order, each once.
pub open spec fn normal(r: RequestModel) -> RequestModel {
    RequestModel { requires: assess::sorted(r.requires), ..r }
}

pub open spec fn asks(
    a: Action<Seq<char>, JsonModel>,
    request: RequestModel,
    full: Seq<Seq<char>>,
    stage: RequestStageModel,
) -> RequestProgress {
    ProgressModel::Act(a, AskingModel { request, full, stage })
}

/// How a request begins. `fresh` is the id that a new lease gets.
pub open spec fn request_first(e: EngineModel, r: RequestModel, fresh: Seq<char>) -> RequestProgress {
    let services = e.config.services;
    let n = normal(r);
    let full = depend::expansion(services, n.requires);
    if !is_fit(r.job_id) || !is_fit(r.agent) {
        ProgressModel::Over(Err(Denial::Names))
    } else if r.requires.len() == 0 {
        ProgressModel::Over(Err(Denial::NoRequires))
    } else {
        match depend::walk_all(services, n.requires, Set::empty()) {
            Some(f) => ProgressModel::Over(Err(Denial::Requires(f))),
            None => if ids::has(e.jobs, n.job_id) {
                let j = ids::value(e.jobs, n.job_id);
                if j.request != n {
                    ProgressModel::Over(Err(Denial::JobConflict))
                } else if model::is_holding(j.status) {
                    asks(
                        Action::Survey,
                        n,
                        full,
                        RequestStageModel::Repeating {
                            runtime_id: j.runtime_id,
                            ready: j.status == "READY"@,
                        },
                    )
                } else if j.status == "RELEASED"@ {
                    ProgressModel::Over(Err(Denial::JobClosed))
                } else {
                    asks(
                        Action::Survey,
                        n,
                        full,
                        RequestStageModel::Assessing { runtime_id: j.runtime_id },
                    )
                }
            } else {
                asks(
                    Action::Survey,
                    n,
                    full,
                    RequestStageModel::Assessing { runtime_id: fresh },
                )
            },
        }
    }
}

/// All of the services run and pass their checks.
pub open spec fn all_up(e: EngineModel, sight: SightModel, full: Seq<Seq<char>>) -> bool {
    forall|k: int| 0 <= k < full.len() ==> assess::is_up(e, sight, #[trigger] full[k])
}

pub open spec fn repeat_fields(
    e: EngineModel,
    sight: SightModel,
    r: RequestModel,
    runtime_id: Seq<char>,
    ready: bool,
) -> show::Fields {
    seq![
        (
            "status"@,
            JsonModel::Text(
                if ready {
                    "READY"@
                } else {
                    "BLOCKED_SERVICE"@
                },
            ),
        ),
        ("runtime_id"@, JsonModel::Text(runtime_id)),
        ("job_id"@, JsonModel::Text(r.job_id)),
        ("idempotent"@, JsonModel::Bool(true)),
        ("services"@, JsonModel::List(views::view_list(views::all_views(e, sight)))),
    ]
}

/// The answer to a request that already has its lease.
pub open spec fn repeat_reply(
    e: EngineModel,
    sight: SightModel,
    t: AskingModel,
    runtime_id: Seq<char>,
    ready: bool,
) -> JsonModel {
    let still = ready && all_up(e, sight, t.full);
    let fields = json::object(repeat_fields(e, sight, t.request, runtime_id, still));
    JsonModel::Object(
        if still {
            assess::assured(fields, t.request)
        } else {
            fields
        },
    )
}

/// A reply with the ids of the lease and of the job.
pub open spec fn signed(reply: JsonModel, runtime_id: Seq<char>, job_id: Seq<char>) -> JsonModel {
    JsonModel::Object(
        json::as_map(reply).insert("runtime_id"@, JsonModel::Text(runtime_id)).insert(
            "job_id"@,
            JsonModel::Text(job_id),
        ),
    )
}

/// The state with the job on it.
pub open spec fn with_job(e: EngineModel, id: Seq<char>, j: JobModel) -> EngineModel {
    EngineModel { jobs: ids::with(e.jobs, id, j), ..e }
}

/// The end of a request: the job is kept with what came of it, and recorded.
pub open spec fn conclude(
    e: EngineModel,
    request: RequestModel,
    full: Seq<Seq<char>>,
    runtime_id: Seq<char>,
    status: Seq<char>,
    reply: JsonModel,
) -> (EngineModel, RequestProgress) {
    let result = signed(reply, runtime_id, request.job_id);
    (
        with_job(e, request.job_id, JobModel { runtime_id, request, status, result }),
        asks(
            Action::Record { event: "runtime_request"@, detail: result },
            request,
            full,
            RequestStageModel::Concluding { reply: result },
        ),
    )
}

pub open spec fn failed_fields(
    full: Seq<Seq<char>>,
    service: Seq<char>,
    reason: Seq<char>,
    rollback: Seq<JsonModel>,
) -> show::Fields {
    seq![
        ("status"@, JsonModel::Text("BLOCKED_SERVICE"@)),
        ("service"@, JsonModel::Text(service)),
        ("reason"@, JsonModel::Text(reason)),
        ("rollback"@, JsonModel::List(rollback)),
        ("expanded_requires"@, JsonModel::List(json::texts_model(full))),
    ]
}

/// What a stop came to, as it is shown.
pub open spec fn outcome_fields(
    service: Seq<char>,
    r: Result<(), Denial<Seq<char>>>,
) -> show::Fields {
    seq![
        ("service"@, JsonModel::Text(service)),
        (
            "result"@,
            JsonModel::Text(
                match r {
                    Ok(_) => "stopped"@,
                    Err(d) => d.text(),
                },
            ),
        ),
    ]
}

/// The rollback goes on with the last of `left`, or is done.
pub open spec fn roll_back(
    e: EngineModel,
    request: RequestModel,
    full: Seq<Seq<char>>,
    runtime_id: Seq<char>,
    service: Seq<char>,
    reason: Seq<char>,
    left: Seq<Seq<char>>,
    rollback: Seq<JsonModel>,
) -> (EngineModel, RequestProgress) {
    if left.len() == 0 {
        conclude(
            e,
            request,
            full,
            runtime_id,
            "BLOCKED_SERVICE"@,
            show::object(failed_fields(full, service, reason, rollback)),
        )
    } else {
        (
            e,
            asks(
                Action::Look,
                request,
                full,
                RequestStageModel::Rolling {
                    runtime_id,
                    service,
                    reason,
                    left: left.drop_last(),
                    rollback,
                    stop: StopTask { service: left.last(), stage: StopStage::Looking },
                },
            ),
        )
    }
}

/// The first of `todo` is started, or all is ready.
pub open spec fn start_on(
    e: EngineModel,
    request: RequestModel,
    full: Seq<Seq<char>>,
    runtime_id: Seq<char>,
    reply: JsonModel,
    todo: Seq<Seq<char>>,
    started: Seq<Seq<char>>,
) -> (EngineModel, RequestProgress) {
    if todo.len() == 0 {
        conclude(e, request, full, runtime_id, "READY"@, reply)
    } else {
        match engine::action_denial(e, todo.first(), "start"@) {
            Some(d) => roll_back(
                e,
                request,
                full,
                runtime_id,
                todo.first(),
                d.text(),
                started,
                Seq::empty(),
            ),
            None => (
                e,
                asks(
                    Action::Look,
                    request,
                    full,
                    RequestStageModel::Starting {
                        runtime_id,
                        reply,
                        todo: todo.drop_first(),
                        started,
                        start: StartTask { service: todo.first(), stage: StartStage::Looking },
                    },
                ),
            ),
        }
    }
}

/// How a request goes on.
pub open spec fn request_next(e: EngineModel, t: AskingModel, ev: HappeningModel) -> (
    EngineModel,
    RequestProgress,
) {
    let request = t.request;
    let full = t.full;
    match (t.stage, ev) {
        (RequestStageModel::Repeating { runtime_id, ready }, Event::Surveyed(sight)) => (
            e,
            ProgressModel::Over(Ok(repeat_reply(e, sight, t, runtime_id, ready))),
        ),
        (RequestStageModel::Assessing { runtime_id }, Event::Surveyed(sight)) => {
            match assess::verdict(e, sight, request, full) {
                Verdict::Overflow => (e, ProgressModel::Over(Err(Denial::Overflow))),
                Verdict::Blocked { status, reply } => conclude(
                    e,
                    request,
                    full,
                    runtime_id,
                    status,
                    reply,
                ),
                Verdict::Ready { reply, plan } => start_on(
                    e,
                    request,
                    full,
                    runtime_id,
                    reply,
                    plan,
                    Seq::empty(),
                ),
            }
        },
        (RequestStageModel::Starting { runtime_id, reply, todo, started, start }, ev) => {
            let (e, p) = start::start_next(e, start, ev);
            match p {
                ProgressModel::Act(a, start) => (
                    e,
                    asks(
                        a,
                        request,
                        full,
                        RequestStageModel::Starting { runtime_id, reply, todo, started, start },
                    ),
                ),
                ProgressModel::Over(Ok(_)) => start_on(
                    e,
                    request,
                    full,
                    runtime_id,
                    reply,
                    todo,
                    started.push(start.service),
                ),
                ProgressModel::Over(Err(d)) => roll_back(
                    e,
                    request,
                    full,
                    runtime_id,
                    start.service,
                    d.text(),
                    started,
                    Seq::empty(),
                ),
            }
        },
        (
            RequestStageModel::Rolling { runtime_id, service, reason, left, rollback, stop },
            ev,
        ) => {
            let (e, p) = stop::stop_next(e, stop, ev);
            match p {
                ProgressModel::Act(a, stop) => (
                    e,
                    asks(
                        a,
                        request,
                        full,
                        RequestStageModel::Rolling {
                            runtime_id,
                            service,
                            reason,
                            left,
                            rollback,
                            stop,
                        },
                    ),
                ),
                ProgressModel::Over(r) => roll_back(
                    e,
                    request,
                    full,
                    runtime_id,
                    service,
                    reason,
                    left,
                    rollback.push(show::object(outcome_fields(stop.service, r))),
                ),
            }
        },
        (RequestStageModel::Concluding { reply }, Event::Done) => (
            e,
            ProgressModel::Over(Ok(reply)),
        ),
        (RequestStageModel::Concluding { .. }, Event::Failed(s)) => (
            action::unrecorded(e),
            ProgressModel::Over(Err(Denial::Failed(s))),
        ),
        _ => (e, ProgressModel::Over(Err(Denial::OutOfTurn))),
    }
}

pub fn fit(name: &String) -> (r: bool)
    ensures
        r == is_fit(name@),
{
    !blank(name.as_str()) && chars_of(name.as_str()).len() <= 128
}

/// What a stop came to, as a value.
pub fn show_outcome(service: &str, r: &Result<(), Denial<String>>) -> (j: Json)
    ensures
        j@ == show::object(
            outcome_fields(
                service@,
                match r {
                    Ok(_) => Ok(()),
                    Err(d) => Err(d@),
                },
            ),
        ),
{
    let result: Json = match r {
        Ok(_) => text("stopped"),
        Err(d) => Json::Text(d.message()),
    };
    let ghost shown = match r {
        Ok(_) => Ok(()),
        Err(d) => Err(d@),
    };
    let f = vec![field("service", text(service)), field("result", result)];
    assert(json::fields(f@) =~= outcome_fields(service@, shown));
    object_of(f)
}

/// What a request is about, whatever it is waiting for.
struct Errand {
    request: Request,
    full: Vec<String>,
    runtime_id: String,
}

impl Engine {
    /// Begins a request for a runtime: see [`Engine::request_as`]. A random id is
    /// drawn only for a job that is not known yet.
    pub fn request(&self, r: Request) -> (p: Progress<Asking, Json>)
        ensures
            ids::has(self@.jobs, r@.job_id) ==> p@ == request_first(self@, r@, Seq::empty()),
            !ids::has(self@.jobs, r@.job_id) ==> exists|id: Seq<char>| #[trigger]
                fresh::is_runtime_id(id) && p@ == request_first(self@, r@, id),
    {
        if self.state.jobs.contains(r.job_id.as_str()) {
            let none = String::new();
            assert(none@ =~= Seq::empty());
            self.request_as(r, none)
        } else {
            let id = fresh_runtime_id();
            self.request_as(r, id)
        }
    }

    /// Begins a request for a runtime. A new lease gets the id `fresh`.
    pub fn request_as(&self, r: Request, fresh: String) -> (p: Progress<Asking, Json>)
        ensures
            p@ == request_first(self@, r@, fresh@),
    {
        if !fit(&r.job_id) || !fit(&r.agent) {
            return Progress::Over(Err(Denial::Names));
        }
        assert(r@.requires.len() == r.requires@.len());
        if r.requires.len() == 0 {
            return Progress::Over(Err(Denial::NoRequires));
        }
        let list = sort_texts(&r.requires);
        let ghost n = normal(r@);
        let r = Request { requires: list, ..r };
        assert(r@ == n);
        let full = match self.fleet.roster().expanded(&r.requires) {
            Err(f) => {
                return Progress::Over(Err(Denial::Requires(f)));
            },
            Ok(full) => full,
        };
        let _ = self.fleet.config();
        proof {
            depend::lemma_expansion(self@.config.services, n.requires, ids::texts(full@));
        }
        match self.state.jobs.get(r.job_id.as_str()) {
            Some(j) => {
                if !j.request.same(&r) {
                    return Progress::Over(Err(Denial::JobConflict));
                }
                let runtime_id: String = j.runtime_id.clone();
                if holding(j.status.as_str()) {
                    let ready = same(j.status.as_str(), "READY");
                    return Progress::Act(
                        Action::Survey,
                        Asking {
                            request: r,
                            full,
                            stage: RequestStage::Repeating { runtime_id, ready },
                        },
                    );
                }
                if same(j.status.as_str(), "RELEASED") {
                    return Progress::Over(Err(Denial::JobClosed));
                }
                Progress::Act(
                    Action::Survey,
                    Asking { request: r, full, stage: RequestStage::Assessing { runtime_id } },
                )
            },
            None => Progress::Act(
                Action::Survey,
                Asking { request: r, full, stage: RequestStage::Assessing { runtime_id: fresh } },
            ),
        }
    }

    fn repeat(
        &self,
        request: &Request,
        full: &Vec<String>,
        runtime_id: String,
        ready: bool,
        sight: &Sight,
    ) -> (j: Json)
        ensures
            forall|t: AskingModel|
                t.request == request@ && t.full == ids::texts(full@) ==> j@ == #[trigger]
                repeat_reply(self@, sight@, t, runtime_id@, ready),
    {
        let v = self.views(sight);
        let up = self.all_up(sight, &v, full);
        let still = ready && up;
        let f = vec![
            field(
                "status",
                text(
                    if still {
                        "READY"
                    } else {
                        "BLOCKED_SERVICE"
                    },
                ),
            ),
            field("runtime_id", Json::Text(runtime_id)),
            field("job_id", text(request.job_id.as_str())),
            field("idempotent", Json::Bool(true)),
            field("services", show_views(&v)),
        ];
        assert(json::fields(f@) =~= repeat_fields(self@, sight@, request@, runtime_id@, still));
        let mut reply = object_of(f);
        assert(up == all_up(self@, sight@, ids::texts(full@)));
        if still && request.memory_bytes.is_none() {
            reply.put("memory_assurance", text("unknown"));
        }
        reply
    }

    fn finish(&mut self, errand: Errand, status: &str, reply: Json) -> (p: Progress<Asking, Json>)
        ensures
            (final(self)@, p@) == conclude(
                old(self)@,
                errand.request@,
                ids::texts(errand.full@),
                errand.runtime_id@,
                status@,
                reply@,
            ),
    {
        let Errand { request, full, runtime_id } = errand;
        let mut result = reply;
        result.put("runtime_id", text(runtime_id.as_str()));
        result.put("job_id", text(request.job_id.as_str()));
        let job = Job {
            runtime_id,
            request: request.copy(),
            status: status.to_string(),
            result: result.copy(),
        };
        self.state.jobs.insert(request.job_id.clone(), job);
        Progress::Act(
            Action::Record { event: "runtime_request".to_string(), detail: result.copy() },
            Asking { request, full, stage: RequestStage::Concluding { reply: result } },
        )
    }

    fn undo_rest(
        &mut self,
        errand: Errand,
        service: String,
        reason: String,
        left: Vec<String>,
        rollback: Vec<Json>,
    ) -> (p: Progress<Asking, Json>)
        ensures
            (final(self)@, p@) == roll_back(
                old(self)@,
                errand.request@,
                ids::texts(errand.full@),
                errand.runtime_id@,
                service@,
                reason@,
                ids::texts(left@),
                json::models(rollback@),
            ),
    {
        let mut left = left;
        let ghost all = ids::texts(left@);
        assert(all.len() == left@.len());
        match left.pop() {
            None => {
                let f = vec![
                    field("status", text("BLOCKED_SERVICE")),
                    field("service", Json::Text(service)),
                    field("reason", Json::Text(reason)),
                    field("rollback", list_of(rollback)),
                    field("expanded_requires", text_list(&errand.full)),
                ];
                assert(json::fields(f@) =~= failed_fields(
                    ids::texts(errand.full@),
                    service@,
                    reason@,
                    json::models(rollback@),
                ));
                self.finish(errand, "BLOCKED_SERVICE", object_of(f))
            },
            Some(last) => {
                assert(all.last() == last@);
                assert(ids::texts(left@) =~= all.drop_last());
                let Errand { request, full, runtime_id } = errand;
                Progress::Act(
                    Action::Look,
                    Asking {
                        request,
                        full,
                        stage: RequestStage::Rolling {
                            runtime_id,
                            service,
                            reason,
                            left,
                            rollback,
                            stop: StopTask { service: last, stage: StopStage::Looking },
                        },
                    },
                )
            },
        }
    }

    fn start_rest(
        &mut self,
        errand: Errand,
        reply: Json,
        todo: Vec<String>,
        started: Vec<String>,
    ) -> (p: Progress<Asking, Json>)
        ensures
            (final(self)@, p@) == start_on(
                old(self)@,
                errand.request@,
                ids::texts(errand.full@),
                errand.runtime_id@,
                reply@,
                ids::texts(todo@),
                ids::texts(started@),
            ),
    {
        let mut todo = todo;
        let ghost all = ids::texts(todo@);
        assert(all.len() == todo@.len());
        if todo.len() == 0 {
            return self.finish(errand, "READY", reply);
        }
        let id: String = todo.remove(0);
        assert(all.first() == id@);
        assert(ids::texts(todo@) =~= all.drop_first());
        match self.action_allowed(id.as_str(), "start") {
            Err(d) => {
                let rollback: Vec<Json> = Vec::new();
                assert(json::models(rollback@) =~= Seq::<JsonModel>::empty());
                self.undo_rest(errand, id, d.message(), started, rollback)
            },
            Ok(()) => {
                let Errand { request, full, runtime_id } = errand;
                Progress::Act(
                    Action::Look,
                    Asking {
                        request,
                        full,
                        stage: RequestStage::Starting {
                            runtime_id,
                            reply,
                            todo,
                            started,
                            start: StartTask { service: id, stage: StartStage::Looking },
                        },
                    },
                )
            },
        }
    }

    /// Goes on with a request.
    pub fn request_step(&mut self, task: Asking, event: Happening) -> (p: Progress<Asking, Json>)
        ensures
            (final(self)@, p@) == request_next(old(self)@, task@, event@),
    {
        let ghost t = task@;
        let Asking { request, full, stage } = task;
        match (stage, event) {
            (RequestStage::Repeating { runtime_id, ready }, Event::Surveyed(sight)) => {
                let reply = self.repeat(&request, &full, runtime_id, ready, &sight);
                assert(reply@ == repeat_reply(self@, sight@, t, runtime_id@, ready));
                Progress::Over(Ok(reply))
            },
            (RequestStage::Assessing { runtime_id }, Event::Surveyed(sight)) => {
                match self.assess(&request, &full, &sight) {
                    Verdict::Overflow => Progress::Over(Err(Denial::Overflow)),
                    Verdict::Blocked { status, reply } => self.finish(
                        Errand { request, full, runtime_id },
                        status.as_str(),
                        reply,
                    ),
                    Verdict::Ready { reply, plan } => {
                        let started: Vec<String> = Vec::new();
                        assert(ids::texts(started@) =~= Seq::<Seq<char>>::empty());
                        self.start_rest(Errand { request, full, runtime_id }, reply, plan, started)
                    },
                }
            },
            (RequestStage::Starting { runtime_id, reply, todo, started, start }, ev) => {
                let service: String = start.service.clone();
                match self.start_step(start, ev) {
                    Progress::Act(a, start) => Progress::Act(
                        a,
                        Asking {
                            request,
                            full,
                            stage: RequestStage::Starting {
                                runtime_id,
                                reply,
                                todo,
                                started,
                                start,
                            },
                        },
                    ),
                    Progress::Over(Ok(())) => {
                        let mut started = started;
                        let ghost held = ids::texts(started@);
                        started.push(service);
                        assert(ids::texts(started@) =~= held.push(service@));
                        self.start_rest(Errand { request, full, runtime_id }, reply, todo, started)
                    },
                    Progress::Over(Err(d)) => {
                        let rollback: Vec<Json> = Vec::new();
                        assert(json::models(rollback@) =~= Seq::<JsonModel>::empty());
                        self.undo_rest(
                            Errand { request, full, runtime_id },
                            service,
                            d.message(),
                            started,
                            rollback,
                        )
                    },
                }
            },
            (
                RequestStage::Rolling { runtime_id, service, reason, left, rollback, stop },
                ev,
            ) => {
                let now: String = stop.service.clone();
                match self.stop_step(stop, ev) {
                    Progress::Act(a, stop) => Progress::Act(
                        a,
                        Asking {
                            request,
                            full,
                            stage: RequestStage::Rolling {
                                runtime_id,
                                service,
                                reason,
                                left,
                                rollback,
                                stop,
                            },
                        },
                    ),
                    Progress::Over(r) => {
                        let mut rollback = rollback;
                        let ghost held = json::models(rollback@);
                        let shown = show_outcome(now.as_str(), &r);
                        rollback.push(shown);
                        assert(json::models(rollback@) =~= held.push(shown@));
                        self.undo_rest(
                            Errand { request, full, runtime_id },
                            service,
                            reason,
                            left,
                            rollback,
                        )
                    },
                }
            },
            (RequestStage::Concluding { reply }, Event::Done) => Progress::Over(Ok(reply)),
            (RequestStage::Concluding { reply: _ }, Event::Failed(s)) => {
                self.storage_failed = true;
                Progress::Over(Err(Denial::Failed(s)))
            },
            _ => Progress::Over(Err(Denial::OutOfTurn)),
        }
    }
}

proof fn lemma_statuses()
    ensures
        model::is_holding("READY"@),
        !model::is_holding("BLOCKED_SERVICE"@),
        !model::is_holding("BLOCKED_RESOURCE"@),
        !model::is_holding("RELEASED"@),
        "READY"@ != "BLOCKED_SERVICE"@,
{
    reveal_strlit("READY");
    reveal_strlit("INTERRUPTED");
    reveal_strlit("BLOCKED_SERVICE");
    reveal_strlit("BLOCKED_RESOURCE");
    reveal_strlit("RELEASED");
    assert("READY"@.len() == 5);
    assert("INTERRUPTED"@.len() == 11);
    assert("BLOCKED_SERVICE"@.len() == 15);
    assert("BLOCKED_RESOURCE"@.len() == 16);
    assert("RELEASED"@.len() == 8);
}

/// A request that is blocked starts nothing, stops nothing and gives up nothing:
/// all that it leaves is its own job, which holds no lease.
pub proof fn law_blocked_request_leaves_everything_alone(
    e: EngineModel,
    t: AskingModel,
    sight: SightModel,
)
    requires
        t.stage is Assessing,
        !(assess::verdict(e, sight, t.request, t.full) is Ready),
        ids::ascending(ids::keys(e.jobs)),
    ensures
        ({
            let (after, p) = request_next(e, t, Event::Surveyed(sight));
            let id = t.request.job_id;
            &&& after.owned == e.owned && after.config == e.config
            &&& p is Act ==> p->Act_0 is Record
            &&& after.jobs == e.jobs || after.jobs == ids::with(
                e.jobs,
                id,
                ids::value(after.jobs, id),
            ) && !model::is_holding(ids::value(after.jobs, id).status)
        }),
{
    lemma_statuses();
    match assess::verdict(e, sight, t.request, t.full) {
        Verdict::Blocked { status, reply } => {
            let runtime_id = t.stage->Assessing_runtime_id;
            let result = signed(reply, runtime_id, t.request.job_id);
            let j = JobModel { runtime_id, request: t.request, status, result };
            ids::lemma_with(e.jobs, t.request.job_id, j);
        },
        _ => {},
    }
}

/// The same request again, whatever the order of what it requires, finds its
/// lease: it gets the same id, nothing is started, and no job is added or
/// changed.
pub proof fn law_same_request_is_idempotent(
    e: EngineModel,
    r: RequestModel,
    fresh: Seq<char>,
    sight: SightModel,
)
    requires
        is_fit(r.job_id) && is_fit(r.agent) && r.requires.len() > 0,
        depend::walk_all(e.config.services, normal(r).requires, Set::empty()) is None,
        ids::has(e.jobs, r.job_id),
        ids::value(e.jobs, r.job_id).request == normal(r),
        model::is_holding(ids::value(e.jobs, r.job_id).status),
    ensures
        ({
            let first = request_first(e, r, fresh);
            let (after, p) = request_next(e, first->Act_1, Event::Surveyed(sight));
            let runtime_id = ids::value(e.jobs, r.job_id).runtime_id;
            &&& first is Act && first->Act_0 == Action::<Seq<char>, JsonModel>::Survey
            &&& after == e
            &&& p matches ProgressModel::Over(Ok(reply)) && json::as_map(reply)["runtime_id"@]
                == JsonModel::Text(runtime_id)
        }),
{
    let first = request_first(e, r, fresh);
    let t = first->Act_1;
    let j = ids::value(e.jobs, r.job_id);
    let ready = j.status == "READY"@;
    let still = ready && all_up(e, sight, t.full);
    let f = repeat_fields(e, sight, t.request, j.runtime_id, still);
    lemma_repeat_names();
    json::lemma_object(f);
    assert(json::distinct(f));
    assert(f[1].0 == "runtime_id"@);
    assert(json::object(f)["runtime_id"@] == JsonModel::Text(j.runtime_id));
}

proof fn lemma_repeat_names()
    ensures
        "status"@ != "runtime_id"@,
        "status"@ != "job_id"@,
        "status"@ != "idempotent"@,
        "status"@ != "services"@,
        "runtime_id"@ != "job_id"@,
        "runtime_id"@ != "idempotent"@,
        "runtime_id"@ != "services"@,
        "job_id"@ != "idempotent"@,
        "job_id"@ != "services"@,
        "idempotent"@ != "services"@,
        "memory_assurance"@ != "runtime_id"@,
{
    reveal_strlit("status");
    reveal_strlit("runtime_id");
    reveal_strlit("job_id");
    reveal_strlit("idempotent");
    reveal_strlit("services");
    reveal_strlit("memory_assurance");
    assert("status"@[0] == 's' && "status"@.len() == 6);
    assert("runtime_id"@[0] == 'r' && "runtime_id"@.len() == 10);
    assert("job_id"@[0] == 'j' && "job_id"@.len() == 6);
    assert("idempotent"@[0] == 'i' && "idempotent"@.len() == 10);
    assert("services"@.len() == 8);
    assert("memory_assurance"@.len() == 16);
}

/// A job id stands for one request: another request under it is refused, and a
/// released job stays closed.
pub proof fn law_job_id_cannot_change(e: EngineModel, r: RequestModel, fresh: Seq<char>)
    requires
        is_fit(r.job_id) && is_fit(r.agent) && r.requires.len() > 0,
        depend::walk_all(e.config.services, normal(r).requires, Set::empty()) is None,
        ids::has(e.jobs, r.job_id),
    ensures
        ids::value(e.jobs, r.job_id).request != normal(r) ==> request_first(e, r, fresh)
            == ProgressModel::<AskingModel, JsonModel>::Over(Err(Denial::JobConflict)),
        ids::value(e.jobs, r.job_id).request == normal(r) && ids::value(e.jobs, r.job_id).status
            == "RELEASED"@ ==> request_first(e, r, fresh)
            == ProgressModel::<AskingModel, JsonModel>::Over(Err(Denial::JobClosed)),
{
    lemma_statuses();
}

/// An entry of a rollback that is about the service.
pub open spec fn is_outcome_of(j: JsonModel, service: Seq<char>) -> bool {
    exists|r: Result<(), Denial<Seq<char>>>| j == show::object(#[trigger] outcome_fields(service, r))
}

/// A request at work on `plan`: the services before the one under way have been
/// started, or are being stopped again, the last one first.
pub open spec fn is_at_work(t: AskingModel, plan: Seq<Seq<char>>) -> bool {
    match t.stage {
        RequestStageModel::Starting { todo, started, start, .. } => started.push(start.service)
            + todo == plan,
        RequestStageModel::Rolling { service, left, rollback, stop, .. } => {
            let n = left.len() + 1 + rollback.len();
            &&& n < plan.len()
            &&& service == plan[n as int]
            &&& left == plan.take(left.len() as int)
            &&& stop.service == plan[left.len() as int]
            &&& forall|k: int|
                0 <= k < rollback.len() ==> is_outcome_of(#[trigger] rollback[k], plan[n - 1 - k])
        },
        _ => false,
    }
}

/// A rollback of all services of the plan that stand before the one that failed,
/// the last one first.
pub open spec fn is_full_rollback(
    all: Seq<JsonModel>,
    plan: Seq<Seq<char>>,
    failed: Seq<char>,
) -> bool {
    &&& all.len() < plan.len()
    &&& plan[all.len() as int] == failed
    &&& forall|k: int|
        0 <= k < all.len() ==> is_outcome_of(#[trigger] all[k], plan[all.len() - 1 - k])
}

/// A request has gone through its plan: all of it was started and the job is
/// ready, or one service failed, the ones started before it have been stopped in
/// reverse order, and the job holds nothing.
pub open spec fn is_done(
    e: EngineModel,
    t: AskingModel,
    plan: Seq<Seq<char>>,
    was: RequestStageModel,
) -> bool {
    &&& t.stage is Concluding
    &&& ids::has(e.jobs, t.request.job_id)
    &&& ids::value(e.jobs, t.request.job_id).request == t.request
    &&& ids::value(e.jobs, t.request.job_id).result == t.stage->Concluding_reply
    &&& match was {
        RequestStageModel::Starting { started, start, .. } => {
            ||| ids::value(e.jobs, t.request.job_id).status == "READY"@ && plan == started.push(
                start.service,
            )
            ||| ids::value(e.jobs, t.request.job_id).status == "BLOCKED_SERVICE"@ && started.len()
                == 0
        },
        RequestStageModel::Rolling { runtime_id, service, reason, left, .. } => {
            &&& ids::value(e.jobs, t.request.job_id).status == "BLOCKED_SERVICE"@
            &&& left.len() == 0
            &&& exists|all: Seq<JsonModel>| #[trigger]
                is_full_rollback(all, plan, service) && t.stage->Concluding_reply == signed(
                    show::object(failed_fields(t.full, service, reason, all)),
                    runtime_id,
                    t.request.job_id,
                )
        },
        _ => false,
    }
}

/// A request at work starts the services of its plan one after the other and, if
/// one fails, stops just those that it has started, the last one first: services
/// that ran before are not touched. Its job becomes ready only when the whole
/// plan has been started. Other jobs stay as they are.
pub proof fn law_request_keeps_to_its_plan(
    e: EngineModel,
    t: AskingModel,
    ev: HappeningModel,
    plan: Seq<Seq<char>>,
)
    requires
        is_at_work(t, plan),
        ids::ascending(ids::keys(e.jobs)),
    ensures
        ({
            let (after, p) = request_next(e, t, ev);
            let id = t.request.job_id;
            &&& p matches ProgressModel::Act(a, next) && {
                &&& next.request == t.request && next.full == t.full
                &&& is_at_work(next, plan) && after.jobs == e.jobs || is_done(
                    after,
                    next,
                    plan,
                    t.stage,
                )
            }
            &&& after.config == e.config
            &&& forall|x: Seq<char>|
                x != id ==> #[trigger] ids::has(after.jobs, x) == ids::has(e.jobs, x) && (ids::has(
                    e.jobs,
                    x,
                ) ==> ids::value(after.jobs, x) == ids::value(e.jobs, x))
        }),
{
    let id = t.request.job_id;
    let (after, p) = request_next(e, t, ev);
    match t.stage {
        RequestStageModel::Starting { runtime_id, reply, todo, started, start } => {
            let (e1, q) = start::start_next(e, start, ev);
            lemma_start_keeps_jobs(e, start, ev);
            let all = started.push(start.service);
            assert(forall|k: int| 0 <= k < all.len() ==> plan[k] == all[k]);
            match q {
                ProgressModel::Act(a, s) => {
                    assert(s.service == start.service);
                },
                ProgressModel::Over(Ok(_)) => {
                    if todo.len() == 0 {
                        assert(plan =~= all);
                        let result = signed(reply, runtime_id, id);
                        ids::lemma_with(
                            e1.jobs,
                            id,
                            JobModel { runtime_id, request: t.request, status: "READY"@, result },
                        );
                    } else {
                        assert(todo.first() == plan[all.len() as int]);
                        assert(all.push(todo.first()) + todo.drop_first() =~= plan);
                        assert(all.drop_last() =~= plan.take(all.len() - 1));
                        assert(all.last() == plan[all.len() - 1]);
                    }
                },
                ProgressModel::Over(Err(d)) => {
                    if started.len() == 0 {
                        let result = signed(
                            show::object(
                                failed_fields(t.full, start.service, d.text(), Seq::empty()),
                            ),
                            runtime_id,
                            id,
                        );
                        ids::lemma_with(
                            e1.jobs,
                            id,
                            JobModel {
                                runtime_id,
                                request: t.request,
                                status: "BLOCKED_SERVICE"@,
                                result,
                            },
                        );
                    } else {
                        assert(all[started.len() as int] == start.service);
                        assert(started.drop_last() =~= plan.take(started.len() - 1)) by {
                            assert(forall|k: int| 0 <= k < started.len() ==> all[k] == started[k]);
                        }
                        assert(started.last() == all[started.len() - 1]);
                    }
                },
            }
        },
        RequestStageModel::Rolling { runtime_id, service, reason, left, rollback, stop } => {
            let (e1, q) = stop::stop_next(e, stop, ev);
            match q {
                ProgressModel::Act(a, s) => {
                    assert(s.service == stop.service);
                },
                ProgressModel::Over(r) => {
                    let more = rollback.push(show::object(outcome_fields(stop.service, r)));
                    let n = (left.len() + 1 + rollback.len()) as int;
                    assert forall|k: int| 0 <= k < more.len() implies is_outcome_of(
                        #[trigger] more[k],
                        plan[n - 1 - k],
                    ) by {
                        if k < rollback.len() {
                            assert(more[k] == rollback[k]);
                        } else {
                            assert(plan[n - 1 - k] == stop.service);
                        }
                    }
                    if left.len() == 0 {
                        assert(is_full_rollback(more, plan, service));
                        let result = signed(
                            show::object(failed_fields(t.full, service, reason, more)),
                            runtime_id,
                            id,
                        );
                        ids::lemma_with(
                            e1.jobs,
                            id,
                            JobModel {
                                runtime_id,
                                request: t.request,
                                status: "BLOCKED_SERVICE"@,
                                result,
                            },
                        );
                    } else {
                        let m = left.len() as int;
                        assert(left[m - 1] == plan.take(m)[m - 1]);
                        assert(left.drop_last() =~= plan.take(m - 1));
                    }
                },
            }
        },
        _ => {},
    }
}

/// A start changes neither jobs nor services, and stays with its service.
pub proof fn lemma_start_keeps_jobs(e: EngineModel, t: StartModel, ev: HappeningModel)
    ensures
        start::start_next(e, t, ev).0.jobs == e.jobs,
        start::start_next(e, t, ev).0.config == e.config,
        start::start_next(e, t, ev).1 matches ProgressModel::Act(_, s) ==> s.service == t.service,
{
}

/// A ready request is at work on what does not run of the services that it needs,
/// or is done where all of them run.
pub proof fn law_ready_request_starts_what_is_down(
    e: EngineModel,
    t: AskingModel,
    sight: SightModel,
)
    requires
        t.stage is Assessing,
        assess::verdict(e, sight, t.request, t.full) is Ready,
        ids::ascending(ids::keys(e.jobs)),
    ensures
        ({
            let (after, p) = request_next(e, t, Event::Surveyed(sight));
            let plan = assess::to_start(e, sight, t.full);
            let id = t.request.job_id;
            &&& after.owned == e.owned
            &&& p matches ProgressModel::Act(a, next) && {
                &&& plan.len() > 0 ==> is_at_work(next, plan) && after.jobs == e.jobs
                &&& plan.len() == 0 ==> next.stage is Concluding && ids::has(after.jobs, id)
                    && ids::value(after.jobs, id).status == "READY"@
            }
        }),
{
    assess::law_ready_means_everything_is_there(e, sight, t.request, t.full);
    let plan = assess::to_start(e, sight, t.full);
    let runtime_id = t.stage->Assessing_runtime_id;
    let reply = assess::verdict(e, sight, t.request, t.full)->Ready_reply;
    if plan.len() > 0 {
        assert(plan.contains(plan[0]));
        assert(Seq::<Seq<char>>::empty().push(plan.first()) + plan.drop_first() =~= plan);
    } else {
        let result = signed(reply, runtime_id, t.request.job_id);
        ids::lemma_with(
            e.jobs,
            t.request.job_id,
            JobModel { runtime_id, request: t.request, status: "READY"@, result },
        );
    }
}

/// A job that is ready or interrupted holds every service that it needs, however
/// far down: no action on any of them is allowed.
pub proof fn law_lease_protects_what_is_needed(
    e: EngineModel,
    job: Seq<char>,
    id: Seq<char>,
    verb: Seq<char>,
)
    requires
        ids::has(e.jobs, job),
        model::is_holding(ids::value(e.jobs, job).status),
        depend::needed(e.config.services, ids::value(e.jobs, job).request.requires, id),
    ensures
        engine::is_leased(e, id),
        engine::action_denial(e, id, verb) is Some,
{
    let i = ids::keys(e.jobs).index_of(job);
    let keep = |j: (Seq<char>, JobModel)| engine::is_lease(e.config.services, j.1, id);
    assert(keep(e.jobs[i]));
    e.jobs.lemma_filter_contains(keep, i);
}

/// The reply has that status.
pub open spec fn says(reply: JsonModel, status: Seq<char>) -> bool {
    json::as_map(reply).contains_key("status"@) && json::as_map(reply)["status"@]
        == JsonModel::Text(status)
}

proof fn lemma_says(f: show::Fields, status: Seq<char>)
    requires
        f.len() > 0,
        f[0] == ("status"@, JsonModel::Text(status)),
        forall|k: int| 0 < k < f.len() ==> (#[trigger] f[k]).0 != "status"@,
    ensures
        says(show::object(f), status),
{
    json::lemma_last_field(f, 0);
}

proof fn lemma_field_names()
    ensures
        "resource"@ != "status"@,
        "units"@ != "status"@,
        "required"@ != "status"@,
        "available"@ != "status"@,
        "shortfall"@ != "status"@,
        "observed_available"@ != "status"@,
        "safety_margin"@ != "status"@,
        "outstanding_estimates"@ != "status"@,
        "reclaimable"@ != "status"@,
        "protected"@ != "status"@,
        "unavailable"@ != "status"@,
        "expanded_requires"@ != "status"@,
        "exclusive_group"@ != "status"@,
        "service"@ != "status"@,
        "reason"@ != "status"@,
        "rollback"@ != "status"@,
        "runtime_id"@ != "status"@,
        "job_id"@ != "status"@,
        "idempotent"@ != "status"@,
        "services"@ != "status"@,
        "memory_assurance"@ != "status"@,
{
    reveal_strlit("status");
    reveal_strlit("resource");
    reveal_strlit("units");
    reveal_strlit("required");
    reveal_strlit("available");
    reveal_strlit("shortfall");
    reveal_strlit("observed_available");
    reveal_strlit("safety_margin");
    reveal_strlit("outstanding_estimates");
    reveal_strlit("reclaimable");
    reveal_strlit("protected");
    reveal_strlit("unavailable");
    reveal_strlit("expanded_requires");
    reveal_strlit("exclusive_group");
    reveal_strlit("service");
    reveal_strlit("reason");
    reveal_strlit("rollback");
    reveal_strlit("runtime_id");
    reveal_strlit("job_id");
    reveal_strlit("idempotent");
    reveal_strlit("services");
    reveal_strlit("memory_assurance");
    assert("status"@.len() == 6 && "status"@[0] == 's');
    assert("reason"@[0] == 'r');
    assert("job_id"@[0] == 'j');
}

/// What a caller is told is what the job keeps: whenever a request ends with a
/// job, the job's result is the reply, and its status is the status that the
/// reply gives.
pub proof fn law_reply_and_job_agree(e: EngineModel, t: AskingModel, ev: HappeningModel)
    requires
        ids::ascending(ids::keys(e.jobs)),
        t.stage matches RequestStageModel::Starting { reply, .. } ==> says(reply, "READY"@),
        !(t.stage is Concluding),
    ensures
        ({
            let (after, p) = request_next(e, t, ev);
            let id = t.request.job_id;
            &&& p matches ProgressModel::Act(a, next) ==> {
                &&& next.stage matches RequestStageModel::Starting { reply, .. } ==> says(
                    reply,
                    "READY"@,
                )
                &&& next.stage matches RequestStageModel::Concluding { reply } ==> {
                    &&& ids::has(after.jobs, id)
                    &&& ids::value(after.jobs, id).result == reply
                    &&& says(reply, ids::value(after.jobs, id).status)
                }
            }
        }),
{
    let (after, p) = request_next(e, t, ev);
    let id = t.request.job_id;
    lemma_field_names();
    match (t.stage, ev) {
        (RequestStageModel::Assessing { runtime_id }, Event::Surveyed(sight)) => {
            let v = views::all_views(e, sight);
            let observed = crate::gate::observed_memory(sight);
            let required = assess::required_memory(e, sight, t.request, t.full) as u64;
            lemma_says(
                crate::gate::gate_fields(e, v, observed, required),
                if crate::gate::is_ready(e, v, observed, required) {
                    "READY"@
                } else {
                    "BLOCKED_RESOURCE"@
                },
            );
            lemma_says(assess::unavailable_fields(e, sight, t.full), "BLOCKED_SERVICE"@);
            if let Some(g) = assess::contended(e, t.full) {
                lemma_says(assess::contended_fields(e, g), "BLOCKED_RESOURCE"@);
            }
            match assess::verdict(e, sight, t.request, t.full) {
                Verdict::Overflow => {},
                Verdict::Blocked { status, reply } => {
                    lemma_concluded(e, t.request, t.full, runtime_id, status, reply);
                },
                Verdict::Ready { reply, plan } => {
                    assert(says(reply, "READY"@));
                    lemma_start_on(
                        e,
                        t.request,
                        t.full,
                        runtime_id,
                        reply,
                        plan,
                        Seq::empty(),
                    );
                },
            }
        },
        (RequestStageModel::Starting { runtime_id, reply, todo, started, start }, ev) => {
            let (e1, q) = start::start_next(e, start, ev);
            lemma_start_keeps_jobs(e, start, ev);
            match q {
                ProgressModel::Act(_, _) => {},
                ProgressModel::Over(Ok(_)) => {
                    lemma_start_on(
                        e1,
                        t.request,
                        t.full,
                        runtime_id,
                        reply,
                        todo,
                        started.push(start.service),
                    );
                },
                ProgressModel::Over(Err(d)) => {
                    lemma_roll_back(
                        e1,
                        t.request,
                        t.full,
                        runtime_id,
                        start.service,
                        d.text(),
                        started,
                        Seq::empty(),
                    );
                },
            }
        },
        (
            RequestStageModel::Rolling { runtime_id, service, reason, left, rollback, stop },
            ev,
        ) => {
            let (e1, q) = stop::stop_next(e, stop, ev);
            assert(e1.jobs == e.jobs);
            if let ProgressModel::Over(r) = q {
                lemma_roll_back(
                    e1,
                    t.request,
                    t.full,
                    runtime_id,
                    service,
                    reason,
                    left,
                    rollback.push(show::object(outcome_fields(stop.service, r))),
                );
            }
        },
        _ => {},
    }
}

proof fn lemma_concluded(
    e: EngineModel,
    request: RequestModel,
    full: Seq<Seq<char>>,
    runtime_id: Seq<char>,
    status: Seq<char>,
    reply: JsonModel,
)
    requires
        ids::ascending(ids::keys(e.jobs)),
        says(reply, status),
    ensures
        ({
            let (after, p) = conclude(e, request, full, runtime_id, status, reply);
            let id = request.job_id;
            &&& p matches ProgressModel::Act(a, next) && (next.stage
                matches RequestStageModel::Concluding { reply } && {
                &&& ids::has(after.jobs, id)
                &&& ids::value(after.jobs, id).result == reply
                &&& ids::value(after.jobs, id).status == status
                &&& says(reply, status)
            })
        }),
{
    lemma_field_names();
    let result = signed(reply, runtime_id, request.job_id);
    ids::lemma_with(
        e.jobs,
        request.job_id,
        JobModel { runtime_id, request, status, result },
    );
}

proof fn lemma_roll_back(
    e: EngineModel,
    request: RequestModel,
    full: Seq<Seq<char>>,
    runtime_id: Seq<char>,
    service: Seq<char>,
    reason: Seq<char>,
    left: Seq<Seq<char>>,
    rollback: Seq<JsonModel>,
)
    requires
        ids::ascending(ids::keys(e.jobs)),
    ensures
        ({
            let (after, p) = roll_back(
                e,
                request,
                full,
                runtime_id,
                service,
                reason,
                left,
                rollback,
            );
            let id = request.job_id;
            &&& p matches ProgressModel::Act(a, next) && {
                &&& !(next.stage is Starting)
                &&& next.stage matches RequestStageModel::Concluding { reply } ==> {
                    &&& ids::has(after.jobs, id)
                    &&& ids::value(after.jobs, id).result == reply
                    &&& says(reply, ids::value(after.jobs, id).status)
                }
            }
        }),
{
    if left.len() == 0 {
        lemma_field_names();
        lemma_says(failed_fields(full, service, reason, rollback), "BLOCKED_SERVICE"@);
        lemma_concluded(
            e,
            request,
            full,
            runtime_id,
            "BLOCKED_SERVICE"@,
            show::object(failed_fields(full, service, reason, rollback)),
        );
    }
}

proof fn lemma_start_on(
    e: EngineModel,
    request: RequestModel,
    full: Seq<Seq<char>>,
    runtime_id: Seq<char>,
    reply: JsonModel,
    todo: Seq<Seq<char>>,
    started: Seq<Seq<char>>,
)
    requires
        ids::ascending(ids::keys(e.jobs)),
        says(reply, "READY"@),
    ensures
        ({
            let (after, p) = start_on(e, request, full, runtime_id, reply, todo, started);
            let id = request.job_id;
            &&& p matches ProgressModel::Act(a, next) && {
                &&& next.stage matches RequestStageModel::Starting { reply, .. } ==> says(
                    reply,
                    "READY"@,
                )
                &&& next.stage matches RequestStageModel::Concluding { reply } ==> {
                    &&& ids::has(after.jobs, id)
                    &&& ids::value(after.jobs, id).result == reply
                    &&& says(reply, ids::value(after.jobs, id).status)
                }
            }
        }),
{
    if todo.len() == 0 {
        lemma_concluded(e, request, full, runtime_id, "READY"@, reply);
    } else if let Some(d) = engine::action_denial(e, todo.first(), "start"@) {
        lemma_roll_back(
            e,
            request,
            full,
            runtime_id,
            todo.first(),
            d.text(),
            started,
            Seq::empty(),
        );
    }
}

/// A repeated request is told that it is ready only where its lease is, and all
/// that it needs runs and passes its checks: a service that has gone in the
/// meantime does not stay hidden.
pub proof fn law_repeated_request_looks_again(
    e: EngineModel,
    sight: SightModel,
    t: AskingModel,
    runtime_id: Seq<char>,
    ready: bool,
)
    ensures
        says(repeat_reply(e, sight, t, runtime_id, ready), "READY"@) <==> ready && all_up(
            e,
            sight,
            t.full,
        ),
        !(ready && all_up(e, sight, t.full)) ==> says(
            repeat_reply(e, sight, t, runtime_id, ready),
            "BLOCKED_SERVICE"@,
        ),
{
    let still = ready && all_up(e, sight, t.full);
    lemma_field_names();
    lemma_statuses();
    lemma_says(
        repeat_fields(e, sight, t.request, runtime_id, still),
        if still {
            "READY"@
        } else {
            "BLOCKED_SERVICE"@
        },
    );
}

/// A job that was blocked can be asked for again, with the same request: it is
/// looked at anew, under the id that it was given the first time.
pub proof fn law_blocked_job_can_be_retried(e: EngineModel, r: RequestModel, fresh: Seq<char>)
    requires
        is_fit(r.job_id) && is_fit(r.agent) && r.requires.len() > 0,
        depend::walk_all(e.config.services, normal(r).requires, Set::empty()) is None,
        ids::has(e.jobs, r.job_id),
        ids::value(e.jobs, r.job_id).request == normal(r),
        ids::value(e.jobs, r.job_id).status == "BLOCKED_SERVICE"@ || ids::value(
            e.jobs,
            r.job_id,
        ).status == "BLOCKED_RESOURCE"@,
    ensures
        request_first(e, r, fresh) == asks(
            Action::Survey,
            normal(r),
            depend::expansion(e.config.services, normal(r).requires),
            RequestStageModel::Assessing { runtime_id: ids::value(e.jobs, r.job_id).runtime_id },
        ),
{
    lemma_statuses();
    reveal_strlit("RELEASED");
    reveal_strlit("BLOCKED_SERVICE");
    reveal_strlit("BLOCKED_RESOURCE");
    assert("RELEASED"@.len() == 8);
    assert("BLOCKED_SERVICE"@.len() == 15);
    assert("BLOCKED_RESOURCE"@.len() == 16);
}

/// A request leaves a supervisor well-formed.
pub proof fn law_request_keeps_form(e: EngineModel, t: AskingModel, ev: HappeningModel)
    requires
        engine::is_well_formed(e),
    ensures
        engine::is_well_formed(request_next(e, t, ev).0),
        request_next(e, t, ev).0.config == e.config,
{
    let id = t.request.job_id;
    assert forall|j: JobModel| ids::ascending(ids::keys(#[trigger] ids::with(e.jobs, id, j))) by {
        ids::lemma_with(e.jobs, id, j);
    }
    match t.stage {
        RequestStageModel::Starting { start, .. } => {
            start::law_start_keeps_form(e, start, ev);
        },
        RequestStageModel::Rolling { stop, .. } => {
            stop::law_stop_keeps_form(e, stop, ev);
        },
        _ => {},
    }
}

/// What is reported of a stop is the service, and that it was stopped or why not.
pub proof fn law_outcome_says_what_happened(service: Seq<char>, r: Result<(), Denial<Seq<char>>>)
    ensures
        ({
            let m = json::object(outcome_fields(service, r));
            &&& m.contains_pair("service"@, JsonModel::Text(service))
            &&& r is Ok ==> m.contains_pair("result"@, JsonModel::Text("stopped"@))
            &&& r matches Err(d) ==> m.contains_pair("result"@, JsonModel::Text(d.text()))
        }),
{
    let f = outcome_fields(service, r);
    reveal_strlit("service");
    reveal_strlit("result");
    assert(f.len() == 2);
    assert(f[0].0 == "service"@ && f[0].0.len() == 7);
    assert(f[1].0 == "result"@ && f[1].0.len() == 6);
    assert(json::distinct(f));
    json::lemma_object(f);
    assert(json::object(f).contains_pair(f[0].0, f[0].1));
    assert(json::object(f).contains_pair(f[1].0, f[1].1));
}

/// The job that a request leaves: what was asked for, the lease, and the reply,
/// which names the lease and the job and is else as it was.
proof fn lemma_left_job(
    e: EngineModel,
    request: RequestModel,
    full: Seq<Seq<char>>,
    runtime_id: Seq<char>,
    status: Seq<char>,
    reply: JsonModel,
)
    requires
        engine::is_well_formed(e),
    ensures
        ({
            let (after, p) = conclude(e, request, full, runtime_id, status, reply);
            let id = request.job_id;
            &&& after.config == e.config && after.owned == e.owned && after.storage_failed
                == e.storage_failed
            &&& ids::has(after.jobs, id)
            &&& ids::value(after.jobs, id).runtime_id == runtime_id
            &&& ids::value(after.jobs, id).request == request
            &&& ids::value(after.jobs, id).status == status
            &&& forall|x: Seq<char>|
                x != id ==> #[trigger] ids::has(after.jobs, x) == ids::has(e.jobs, x) && (ids::has(
                    e.jobs,
                    x,
                ) ==> ids::value(after.jobs, x) == ids::value(e.jobs, x))
            &&& p matches ProgressModel::Act(Action::Record { event, detail }, next)
            &&& event == "runtime_request"@
            &&& detail == ids::value(after.jobs, id).result
            &&& next.stage matches RequestStageModel::Concluding { reply: told }
            &&& told == detail
            &&& json::as_map(told).contains_pair("runtime_id"@, JsonModel::Text(runtime_id))
            &&& json::as_map(told).contains_pair("job_id"@, JsonModel::Text(id))
            &&& forall|key: Seq<char>|
                key != "runtime_id"@ && key != "job_id"@ ==> (#[trigger] json::as_map(
                    told,
                ).contains_key(key) <==> json::as_map(reply).contains_key(key)) && json::as_map(
                    told,
                )[key] == json::as_map(reply)[key]
        }),
{
    let result = signed(reply, runtime_id, request.job_id);
    ids::lemma_with(e.jobs, request.job_id, JobModel { runtime_id, request, status, result });
    reveal_strlit("runtime_id");
    reveal_strlit("job_id");
    assert("runtime_id"@.len() != "job_id"@.len());
}

/// A request is taken up only where job and agent have names of 1 to 128 characters
/// that are not all white space, something is required, and all that is required
/// can be listed. A job id that is known stands for its request: with another one it
/// is refused; a job in force is repeated under its own lease, a released one is
/// closed, and any other is looked at anew under its lease. A job id that is not
/// known gets the fresh lease.
#[verifier::rlimit(60)]
#[verifier::spinoff_prover]
pub proof fn law_request_is_taken_up(e: EngineModel, r: RequestModel, fresh: Seq<char>, i: int)
    requires
        engine::is_well_formed(e),
    ensures
        ({
            let p = request_first(e, r, fresh);
            let fine = |s: Seq<char>|
                s.len() <= 128 && exists|k: int| 0 <= k < s.len() && !text::is_space(#[trigger] s[k]);
            let named = fine(r.job_id) && fine(r.agent);
            let list = assess::sorted(r.requires);
            let asked = RequestModel { requires: list, ..r };
            let fault = depend::walk_all(e.config.services, list, Set::empty());
            let begins = named && r.requires.len() > 0 && fault is None;
            let known = 0 <= i < e.jobs.len() && e.jobs[i].0 == r.job_id;
            let j = e.jobs[i].1;
            &&& p == RequestProgress::Over(Err(Denial::Names)) <==> !named
            &&& p == RequestProgress::Over(Err(Denial::NoRequires)) <==> named && r.requires.len()
                == 0
            &&& named && r.requires.len() > 0 ==> (fault matches Some(f) ==> p
                == RequestProgress::Over(Err(Denial::Requires(f))))
            &&& begins && known && j.request != asked ==> p == RequestProgress::Over(
                Err(Denial::JobConflict),
            )
            &&& begins && known && j.request == asked && j.status == "RELEASED"@ ==> p
                == RequestProgress::Over(Err(Denial::JobClosed))
            &&& begins && known && j.request == asked && j.status != "RELEASED"@ ==> {
                &&& p matches ProgressModel::Act(Action::Survey, next)
                &&& next.request == asked
                &&& j.status == "READY"@ || j.status == "INTERRUPTED"@ ==> next.stage
                    == RequestStageModel::Repeating {
                    runtime_id: j.runtime_id,
                    ready: j.status == "READY"@,
                }
                &&& j.status != "READY"@ && j.status != "INTERRUPTED"@ ==> next.stage
                    == RequestStageModel::Assessing { runtime_id: j.runtime_id }
            }
            &&& begins && (forall|k: int|
                0 <= k < e.jobs.len() ==> (#[trigger] e.jobs[k]).0 != r.job_id) ==> {
                &&& p matches ProgressModel::Act(Action::Survey, next)
                &&& next.request == asked
                &&& next.stage == RequestStageModel::Assessing { runtime_id: fresh }
            }
            &&& p matches ProgressModel::Act(_, next) ==> ids::ascending(next.full) && forall|
                x: Seq<char>,
            | #[trigger]
                next.full.contains(x) <==> depend::needed(e.config.services, r.requires, x)
        }),
{
    let list = assess::sorted(r.requires);
    assess::law_order_of_requires_is_immaterial(r.requires, r.requires);
    lemma_statuses();
    if 0 <= i < e.jobs.len() {
        ids::lemma_at(e.jobs, i);
    }
    if ids::has(e.jobs, r.job_id) {
        let k = ids::keys(e.jobs).index_of(r.job_id);
        assert(e.jobs[k].0 == r.job_id);
    }
    assert(text::is_blank(r.job_id) <==> !exists|k: int|
        0 <= k < r.job_id.len() && !text::is_space(#[trigger] r.job_id[k]));
    assert(text::is_blank(r.agent) <==> !exists|k: int|
        0 <= k < r.agent.len() && !text::is_space(#[trigger] r.agent[k]));
    if depend::walk_all(e.config.services, list, Set::empty()) is None {
        let full = depend::expansion(e.config.services, list);
        depend::law_expansion_holds_what_is_needed(e.config.services, list);
        assert forall|x: Seq<char>| #[trigger] full.contains(x) <==> depend::needed(
            e.config.services,
            r.requires,
            x,
        ) by {
            depend::lemma_needed_same(e.config.services, list, r.requires, x);
        }
    }
}

/// What comes of looking at a request: an error where it cannot be counted; the
/// blocked reply, kept by the job; the ready one, kept by the job, where nothing
/// has to be started; and else a look before the first start.
#[verifier::rlimit(60)]
#[verifier::spinoff_prover]
pub proof fn law_assessment_is_acted_on(
    e: EngineModel,
    t: AskingModel,
    sight: SightModel,
    id: Seq<char>,
)
    requires
        engine::is_well_formed(e),
        t.stage matches RequestStageModel::Assessing { .. },
    ensures
        ({
            let (after, p) = request_next(e, t, Event::Surveyed(sight));
            let lease = t.stage->Assessing_runtime_id;
            let job = ids::value(after.jobs, t.request.job_id);
            let keeps = |status: Seq<char>, reply: JsonModel|
                {
                    &&& ids::has(after.jobs, t.request.job_id)
                    &&& job.status == status && job.runtime_id == lease && job.request == t.request
                    &&& p matches ProgressModel::Act(Action::Record { event, detail }, next)
                    &&& event == "runtime_request"@ && detail == job.result
                    &&& next.stage == RequestStageModel::Concluding { reply: job.result }
                    &&& json::as_map(job.result).contains_pair(
                        "runtime_id"@,
                        JsonModel::Text(lease),
                    )
                    &&& json::as_map(job.result).contains_pair(
                        "job_id"@,
                        JsonModel::Text(t.request.job_id),
                    )
                    &&& forall|key: Seq<char>|
                        key != "runtime_id"@ && key != "job_id"@ ==> (#[trigger] json::as_map(
                            job.result,
                        ).contains_key(key) <==> json::as_map(reply).contains_key(key))
                            && json::as_map(job.result)[key] == json::as_map(reply)[key]
                };
            &&& after.owned == e.owned && after.config == e.config
            &&& id != t.request.job_id ==> ids::has(after.jobs, id) == ids::has(e.jobs, id) && (
            ids::has(e.jobs, id) ==> ids::value(after.jobs, id) == ids::value(e.jobs, id))
            &&& match assess::verdict(e, sight, t.request, t.full) {
                Verdict::Overflow => after == e && p == RequestProgress::Over(
                    Err(Denial::Overflow),
                ),
                Verdict::Blocked { status, reply } => keeps(status, reply),
                Verdict::Ready { reply, plan } => if plan.len() == 0 {
                    keeps("READY"@, reply)
                } else {
                    &&& after == e
                    &&& p matches ProgressModel::Act(Action::Look, next)
                    &&& next.stage matches RequestStageModel::Starting {
                        runtime_id,
                        reply: said,
                        todo,
                        started,
                        start,
                    }
                    &&& runtime_id == lease && said == reply && started.len() == 0
                    &&& start.service == plan[0] && start.stage is Looking
                    &&& todo == plan.drop_first()
                },
            }
        }),
{
    let lease = t.stage->Assessing_runtime_id;
    match assess::verdict(e, sight, t.request, t.full) {
        Verdict::Overflow => {},
        Verdict::Blocked { status, reply } => {
            lemma_left_job(e, t.request, t.full, lease, status, reply);
        },
        Verdict::Ready { reply, plan } => {
            lemma_left_job(e, t.request, t.full, lease, "READY"@, reply);
            assess::law_ready_means_everything_is_there(e, sight, t.request, t.full);
            if plan.len() > 0 {
                assert(plan.contains(plan[0]));
            }
        },
    }
}

/// While a service is being started for a request, the request follows the start.
/// A failure is told with the service and the reason, and all that this request
/// started before is then stopped, the last one first. The job is ready only once
/// the last service has been started.
#[verifier::rlimit(60)]
#[verifier::spinoff_prover]
pub proof fn law_failed_start_is_told_and_undone(
    e: EngineModel,
    t: AskingModel,
    ev: HappeningModel,
)
    requires
        engine::is_well_formed(e),
        t.stage is Starting,
    ensures
        ({
            let (after, p) = request_next(e, t, ev);
            let lease = t.stage->Starting_runtime_id;
            let started = t.stage->Starting_started;
            let start = t.stage->Starting_start;
            let (then, q) = start::start_next(e, start, ev);
            let job = ids::value(after.jobs, t.request.job_id);
            &&& after.owned == then.owned && after.config == e.config
            &&& q matches ProgressModel::Act(a, rest) ==> after == then && p
                == RequestProgress::Act(
                a,
                AskingModel {
                    stage: RequestStageModel::Starting {
                        runtime_id: lease,
                        reply: t.stage->Starting_reply,
                        todo: t.stage->Starting_todo,
                        started,
                        start: rest,
                    },
                    ..t
                },
            )
            &&& q == start::StartProgress::Over(Ok(())) && t.stage->Starting_todo.len() == 0 ==> {
                &&& ids::has(after.jobs, t.request.job_id)
                &&& job.status == "READY"@ && job.runtime_id == lease && job.request == t.request
                &&& forall|key: Seq<char>|
                    key != "runtime_id"@ && key != "job_id"@ ==> (#[trigger] json::as_map(
                        job.result,
                    ).contains_key(key) <==> json::as_map(t.stage->Starting_reply).contains_key(
                        key,
                    )) && json::as_map(job.result)[key] == json::as_map(
                        t.stage->Starting_reply,
                    )[key]
            }
            &&& q matches ProgressModel::Over(Err(d)) ==> if started.len() == 0 {
                &&& ids::has(after.jobs, t.request.job_id)
                &&& job.status == "BLOCKED_SERVICE"@ && job.runtime_id == lease && job.request
                    == t.request
                &&& json::as_map(job.result).contains_pair(
                    "status"@,
                    JsonModel::Text("BLOCKED_SERVICE"@),
                )
                &&& json::as_map(job.result).contains_pair(
                    "service"@,
                    JsonModel::Text(start.service),
                )
                &&& json::as_map(job.result).contains_pair("reason"@, JsonModel::Text(d.text()))
            } else {
                &&& after == then
                &&& p matches ProgressModel::Act(Action::Look, next)
                &&& next.stage matches RequestStageModel::Rolling {
                    runtime_id,
                    service,
                    reason,
                    left,
                    rollback,
                    stop,
                }
                &&& runtime_id == lease && service == start.service && reason == d.text()
                &&& stop.service == started.last() && stop.stage is Looking
                &&& left == started.drop_last() && rollback.len() == 0
            }
        }),
{
    let lease = t.stage->Starting_runtime_id;
    let start = t.stage->Starting_start;
    let (then, q) = start::start_next(e, start, ev);
    start::law_start_keeps_form(e, start, ev);
    match q {
        ProgressModel::Act(_, _) => {},
        ProgressModel::Over(Ok(_)) => {
            lemma_left_job(
                then,
                t.request,
                t.full,
                lease,
                "READY"@,
                t.stage->Starting_reply,
            );
        },
        ProgressModel::Over(Err(d)) => {
            lemma_failed_reply(then, t, lease, start.service, d.text(), Seq::empty());
        },
    }
}

#[verifier::rlimit(60)]
#[verifier::spinoff_prover]
proof fn lemma_failed_reply(
    e: EngineModel,
    t: AskingModel,
    runtime_id: Seq<char>,
    service: Seq<char>,
    reason: Seq<char>,
    rollback: Seq<JsonModel>,
)
    requires
        engine::is_well_formed(e),
    ensures
        ({
            let reply = show::object(failed_fields(t.full, service, reason, rollback));
            let (after, p) = conclude(e, t.request, t.full, runtime_id, "BLOCKED_SERVICE"@, reply);
            let job = ids::value(after.jobs, t.request.job_id);
            &&& after.owned == e.owned && after.config == e.config
            &&& ids::has(after.jobs, t.request.job_id)
            &&& job.status == "BLOCKED_SERVICE"@ && job.runtime_id == runtime_id && job.request
                == t.request
            &&& json::as_map(job.result).contains_pair(
                "status"@,
                JsonModel::Text("BLOCKED_SERVICE"@),
            )
            &&& json::as_map(job.result).contains_pair("service"@, JsonModel::Text(service))
            &&& json::as_map(job.result).contains_pair("reason"@, JsonModel::Text(reason))
            &&& json::as_map(job.result).contains_pair("rollback"@, JsonModel::List(rollback))
        }),
{
    let f = failed_fields(t.full, service, reason, rollback);
    let reply = show::object(f);
    lemma_left_job(e, t.request, t.full, runtime_id, "BLOCKED_SERVICE"@, reply);
    reveal_strlit("status");
    reveal_strlit("service");
    reveal_strlit("reason");
    reveal_strlit("rollback");
    reveal_strlit("expanded_requires");
    assert("status"@[0] != "reason"@[0]);
    assert(f.len() == 5);
    assert(f[0].0 == "status"@ && f[0].0.len() == 6);
    assert(f[1].0 == "service"@ && f[1].0.len() == 7);
    assert(f[2].0 == "reason"@ && f[2].0.len() == 6);
    assert(f[3].0 == "rollback"@ && f[3].0.len() == 8);
    assert(f[4].0 == "expanded_requires"@ && f[4].0.len() == 17);
    assert(json::distinct(f));
    json::lemma_object(f);
    reveal_strlit("runtime_id");
    reveal_strlit("job_id");
    assert("status"@[0] != "job_id"@[0]);
    assert("reason"@[0] != "job_id"@[0]);
    let told = signed(reply, runtime_id, t.request.job_id);
    assert(json::as_map(told).contains_pair(f[0].0, f[0].1));
    assert(json::as_map(told).contains_pair(f[1].0, f[1].1));
    assert(json::as_map(told).contains_pair(f[2].0, f[2].1));
    assert(json::as_map(told).contains_pair(f[3].0, f[3].1));
}

/// A rollback follows each stop to its end and keeps what came of it, then goes on
/// to the one started before; after the first one the job is kept as blocked, with
/// the service that failed, the reason, and what came of every stop.
#[verifier::rlimit(60)]
#[verifier::spinoff_prover]
pub proof fn law_rollback_goes_back_to_the_first(e: EngineModel, t: AskingModel, ev: HappeningModel)
    requires
        engine::is_well_formed(e),
        t.stage is Rolling,
    ensures
        ({
            let (after, p) = request_next(e, t, ev);
            let lease = t.stage->Rolling_runtime_id;
            let left = t.stage->Rolling_left;
            let service = t.stage->Rolling_service;
            let reason = t.stage->Rolling_reason;
            let rollback = t.stage->Rolling_rollback;
            let halt = t.stage->Rolling_stop;
            let (then, q) = stop::stop_next(e, halt, ev);
            let job = ids::value(after.jobs, t.request.job_id);
            &&& after.owned == then.owned && after.config == e.config
            &&& q matches ProgressModel::Act(a, rest) ==> after == then && p
                == RequestProgress::Act(
                a,
                AskingModel {
                    stage: RequestStageModel::Rolling {
                        runtime_id: lease,
                        service,
                        reason,
                        left,
                        rollback,
                        stop: rest,
                    },
                    ..t
                },
            )
            &&& q matches ProgressModel::Over(r) ==> {
                let all = rollback.push(show::object(outcome_fields(halt.service, r)));
                if left.len() == 0 {
                    &&& ids::has(after.jobs, t.request.job_id)
                    &&& job.status == "BLOCKED_SERVICE"@ && job.runtime_id == lease && job.request
                        == t.request
                    &&& json::as_map(job.result).contains_pair(
                        "service"@,
                        JsonModel::Text(service),
                    )
                    &&& json::as_map(job.result).contains_pair("reason"@, JsonModel::Text(reason))
                    &&& json::as_map(job.result).contains_pair("rollback"@, JsonModel::List(all))
                } else {
                    &&& after == then
                    &&& p == RequestProgress::Act(
                        Action::Look,
                        AskingModel {
                            stage: RequestStageModel::Rolling {
                                runtime_id: lease,
                                service,
                                reason,
                                left: left.drop_last(),
                                rollback: all,
                                stop: StopTask { service: left.last(), stage: StopStage::Looking },
                            },
                            ..t
                        },
                    )
                }
            }
        }),
{
    let halt = t.stage->Rolling_stop;
    let (then, q) = stop::stop_next(e, halt, ev);
    stop::law_stop_keeps_form(e, halt, ev);
    if let ProgressModel::Over(r) = q {
        let all = t.stage->Rolling_rollback.push(show::object(outcome_fields(halt.service, r)));
        lemma_failed_reply(
            then,
            t,
            t.stage->Rolling_runtime_id,
            t.stage->Rolling_service,
            t.stage->Rolling_reason,
            all,
        );
    }
}

/// A request is answered once its job is on record; where the record could not be
/// written, no more changes are made.
pub proof fn law_request_is_answered_once_recorded(e: EngineModel, t: AskingModel, s: Seq<char>)
    requires
        t.stage is Concluding,
    ensures
        request_next(e, t, Event::Done) == (
            e,
            RequestProgress::Over(Ok(t.stage->Concluding_reply)),
        ),
        request_next(e, t, Event::Failed(s)) == (
            EngineModel { storage_failed: true, ..e },
            RequestProgress::Over(Err(Denial::Failed(s))),
        ),
{
}

/// A repeated request changes nothing. It is told its lease and its job, that it is
/// a repetition, and how the services stand; and that it is ready just where its
/// lease is, and every service that it needs is running.
#[verifier::rlimit(60)]
#[verifier::spinoff_prover]
pub proof fn law_repetition_tells_how_things_stand(
    e: EngineModel,
    t: AskingModel,
    sight: SightModel,
)
    requires
        engine::is_well_formed(e),
        t.stage is Repeating,
        forall|k: int| 0 <= k < t.full.len() ==> ids::has(e.config.services, #[trigger] t.full[k]),
    ensures
        ({
            let (after, p) = request_next(e, t, Event::Surveyed(sight));
            let all_run = forall|i: int|
                0 <= i < e.config.services.len() && t.full.contains(
                    (#[trigger] e.config.services[i]).0,
                ) ==> views::service_view(e, sight, i).state == Condition::Running;
            &&& after == e
            &&& p matches ProgressModel::Over(Ok(reply))
            &&& json::as_map(reply).contains_pair(
                "runtime_id"@,
                JsonModel::Text(t.stage->Repeating_runtime_id),
            )
            &&& json::as_map(reply).contains_pair("job_id"@, JsonModel::Text(t.request.job_id))
            &&& json::as_map(reply).contains_pair("idempotent"@, JsonModel::Bool(true))
            &&& json::as_map(reply).contains_pair(
                "services"@,
                JsonModel::List(views::view_list(views::all_views(e, sight))),
            )
            &&& json::as_map(reply).contains_pair(
                "status"@,
                JsonModel::Text(
                    if t.stage->Repeating_ready && all_run {
                        "READY"@
                    } else {
                        "BLOCKED_SERVICE"@
                    },
                ),
            )
            &&& json::as_map(reply).contains_key("memory_assurance"@)
                <==> t.stage->Repeating_ready && all_run && t.request.memory_bytes is None
        }),
{
    lemma_all_up(e, sight, t.full);
    lemma_repeat_reply(e, sight, t, t.stage->Repeating_runtime_id, t.stage->Repeating_ready);
}

proof fn lemma_all_up(e: EngineModel, sight: SightModel, full: Seq<Seq<char>>)
    requires
        engine::is_well_formed(e),
        forall|k: int| 0 <= k < full.len() ==> ids::has(e.config.services, #[trigger] full[k]),
    ensures
        all_up(e, sight, full) <==> forall|i: int|
            0 <= i < e.config.services.len() && full.contains((#[trigger] e.config.services[i]).0)
                ==> views::service_view(e, sight, i).state == Condition::Running,
{
    let all_run = forall|i: int|
        0 <= i < e.config.services.len() && full.contains((#[trigger] e.config.services[i]).0)
            ==> views::service_view(e, sight, i).state == Condition::Running;
    if all_up(e, sight, full) {
        assert forall|i: int|
            0 <= i < e.config.services.len() && full.contains(
                (#[trigger] e.config.services[i]).0,
            ) implies views::service_view(e, sight, i).state == Condition::Running by {
            ids::lemma_at(e.config.services, i);
            let k = choose|k: int|
                0 <= k < full.len() && full[k] == e.config.services[i].0;
            assert(assess::is_up(e, sight, full[k]));
        }
    }
    if all_run {
        assert forall|k: int| 0 <= k < full.len() implies assess::is_up(
            e,
            sight,
            #[trigger] full[k],
        ) by {
            let i = ids::keys(e.config.services).index_of(full[k]);
            assert(e.config.services[i].0 == full[k]);
            assert(full.contains(e.config.services[i].0));
        }
    }
}

#[verifier::rlimit(60)]
#[verifier::spinoff_prover]
proof fn lemma_repeat_reply(
    e: EngineModel,
    sight: SightModel,
    t: AskingModel,
    runtime_id: Seq<char>,
    ready: bool,
)
    ensures
        ({
            let reply = json::as_map(repeat_reply(e, sight, t, runtime_id, ready));
            let still = ready && all_up(e, sight, t.full);
            &&& reply.contains_pair("runtime_id"@, JsonModel::Text(runtime_id))
            &&& reply.contains_pair("job_id"@, JsonModel::Text(t.request.job_id))
            &&& reply.contains_pair("idempotent"@, JsonModel::Bool(true))
            &&& reply.contains_pair(
                "services"@,
                JsonModel::List(views::view_list(views::all_views(e, sight))),
            )
            &&& reply.contains_pair(
                "status"@,
                JsonModel::Text(
                    if still {
                        "READY"@
                    } else {
                        "BLOCKED_SERVICE"@
                    },
                ),
            )
            &&& reply.contains_key("memory_assurance"@) <==> still && t.request.memory_bytes is None
        }),
{
    let still = ready && all_up(e, sight, t.full);
    let f = repeat_fields(e, sight, t.request, runtime_id, still);
    reveal_strlit("status");
    reveal_strlit("runtime_id");
    reveal_strlit("job_id");
    reveal_strlit("idempotent");
    reveal_strlit("services");
    assert("status"@[0] != "job_id"@[0]);
    assert("runtime_id"@[0] != "idempotent"@[0]);
    assert(f.len() == 5);
    assert(f[0].0 == "status"@ && f[0].0.len() == 6);
    assert(f[1].0 == "runtime_id"@ && f[1].0.len() == 10);
    assert(f[2].0 == "job_id"@ && f[2].0.len() == 6);
    assert(f[3].0 == "idempotent"@ && f[3].0.len() == 10);
    assert(f[4].0 == "services"@ && f[4].0.len() == 8);
    assert(json::distinct(f));
    json::lemma_object(f);
    reveal_strlit("memory_assurance");
    assert("memory_assurance"@.len() == 16);
    let reply = repeat_reply(e, sight, t, runtime_id, ready);
    assert(json::as_map(reply).contains_pair(f[0].0, f[0].1));
    assert(json::as_map(reply).contains_pair(f[1].0, f[1].1));
    assert(json::as_map(reply).contains_pair(f[2].0, f[2].1));
    assert(json::as_map(reply).contains_pair(f[3].0, f[3].1));
    assert(json::as_map(reply).contains_pair(f[4].0, f[4].1));
}

/// Once a service has been started for a request, the next one of its plan is
/// looked at, where it may be started now; where it may not, the request fails for
/// that reason, and what it has started is stopped, the last one first.
#[verifier::rlimit(60)]
#[verifier::spinoff_prover]
pub proof fn law_next_service_follows(e: EngineModel, t: AskingModel, ev: HappeningModel)
    requires
        t.stage is Starting,
        t.stage->Starting_todo.len() > 0,
        start::start_next(e, t.stage->Starting_start, ev).1 == start::StartProgress::Over(Ok(())),
    ensures
        ({
            let (after, p) = request_next(e, t, ev);
            let then = start::start_next(e, t.stage->Starting_start, ev).0;
            let done = t.stage->Starting_started.push(t.stage->Starting_start.service);
            let next = t.stage->Starting_todo[0];
            &&& after == then
            &&& match engine::action_denial(then, next, "start"@) {
                None => p == RequestProgress::Act(
                    Action::Look,
                    AskingModel {
                        stage: RequestStageModel::Starting {
                            runtime_id: t.stage->Starting_runtime_id,
                            reply: t.stage->Starting_reply,
                            todo: t.stage->Starting_todo.drop_first(),
                            started: done,
                            start: StartTask { service: next, stage: StartStage::Looking },
                        },
                        ..t
                    },
                ),
                Some(d) => p == RequestProgress::Act(
                    Action::Look,
                    AskingModel {
                        stage: RequestStageModel::Rolling {
                            runtime_id: t.stage->Starting_runtime_id,
                            service: next,
                            reason: d.text(),
                            left: t.stage->Starting_started,
                            rollback: Seq::empty(),
                            stop: StopTask {
                                service: t.stage->Starting_start.service,
                                stage: StopStage::Looking,
                            },
                        },
                        ..t
                    },
                ),
            }
        }),
{
    let done = t.stage->Starting_started.push(t.stage->Starting_start.service);
    assert(done.drop_last() =~= t.stage->Starting_started);
}

} // verus!
