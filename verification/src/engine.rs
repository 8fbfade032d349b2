//! The supervisor's state: the checked configuration, the jobs, and the processes
//! that it owns.

use vstd::prelude::*;
use vstd::string::*;
use crate::attribution;
use crate::attribution::attribute;
use crate::config::{Config, ConfigModel, Mode, Services};
use crate::denial::Denial;
use crate::depend;
use crate::fleet;
use crate::fleet::Fleet;
use crate::ids;
use crate::json;
use crate::json::{field, object_of, text, Json, JsonModel};
use crate::model;
use crate::model::{holding, Job, JobModel, Jobs, Owned, Process, ProcessModel, State};
use crate::roster::Roster;
use crate::show;
use crate::show::show_lease;
use crate::sight::{Readings, ReadingsModel};
use crate::text::same;
use crate::validate;
use crate::validate::ConfigError;

verus! {

/// The supervisor. A process is owned only while the child handle is live: what
/// a former run started is never taken over. Any jobs and either mark make a
/// supervisor; what is owned is kept by the fleet.
#[derive(Debug, PartialEq)]
pub struct Engine {
    pub fleet: Fleet,
    pub state: State,
    pub storage_failed: bool,
}

pub struct EngineModel {
    pub config: ConfigModel,
    pub jobs: Jobs,
    pub owned: fleet::OwnedSeq,
    pub storage_failed: bool,
}

impl View for Engine {
    type V = EngineModel;

    open spec fn view(&self) -> EngineModel {
        EngineModel {
            config: self.fleet@.config,
            jobs: self.state.jobs@,
            owned: self.fleet@.owned,
            storage_failed: self.storage_failed,
        }
    }
}

/// What holds of every supervisor: services, jobs and owned processes are in the
/// order of their ids, and a process is owned only for a configured service.
pub open spec fn is_well_formed(e: EngineModel) -> bool {
    &&& ids::ascending(ids::keys(e.config.services))
    &&& ids::ascending(ids::keys(e.jobs))
    &&& ids::ascending(ids::keys(e.owned))
    &&& fleet::all_configured(e.config.services, e.owned)
}

/// What a job comes to that was ready when the supervisor went down.
pub open spec fn interrupted_result() -> JsonModel {
    show::object(
        seq![
            ("status"@, JsonModel::Text("INTERRUPTED"@)),
            (
                "reason"@,
                JsonModel::Text(
                    "daemon restarted; verify external services and release old lease"@,
                ),
            ),
        ],
    )
}

/// A job as the next run finds it: no longer ready, but its lease stays.
pub open spec fn interrupted(j: JobModel) -> JobModel {
    if j.status == "READY"@ {
        JobModel { status: "INTERRUPTED"@, result: interrupted_result(), ..j }
    } else {
        j
    }
}

pub open spec fn all_interrupted(jobs: Jobs) -> Jobs {
    jobs.map_values(|e: (Seq<char>, JobModel)| (e.0, interrupted(e.1)))
}

/// The state after a look at the machine.
pub open spec fn refreshed(e: EngineModel, r: ReadingsModel) -> EngineModel {
    EngineModel { owned: fleet::still_owned(e.owned, r), ..e }
}

/// The job holds the service: its lease is in force, and it requires the service,
/// itself or through others.
pub open spec fn is_lease(services: Services, j: JobModel, id: Seq<char>) -> bool {
    model::is_holding(j.status) && depend::needed(services, j.request.requires, id)
}

/// The jobs that hold the service.
pub open spec fn lessees(e: EngineModel, id: Seq<char>) -> Jobs {
    e.jobs.filter(|j: (Seq<char>, JobModel)| is_lease(e.config.services, j.1, id))
}

/// The leases on the service, as they are shown.
pub open spec fn leases(e: EngineModel, id: Seq<char>) -> Seq<JsonModel> {
    lessees(e, id).map_values(|j: (Seq<char>, JobModel)| show::object(show::lease_fields(j.1)))
}

/// Some job holds the service.
pub open spec fn is_leased(e: EngineModel, id: Seq<char>) -> bool {
    lessees(e, id).len() > 0
}

/// Why an action on a service is refused by itself, whatever runs.
pub open spec fn action_denial(e: EngineModel, id: Seq<char>, action: Seq<char>) -> Option<
    Denial<Seq<char>>,
> {
    if !ids::has(e.config.services, id) {
        Some(Denial::UnknownService)
    } else if !(ids::value(e.config.services, id).mode == Mode::Managed && ids::value(
        e.config.services,
        id,
    ).allowed_actions.contains(action)) {
        Some(Denial::ControlDenied)
    } else if is_leased(e, id) {
        Some(Denial::Protected)
    } else {
        None
    }
}

impl Engine {
    /// Takes up a state that a former run left, or an empty one. No process is
    /// adopted; leases are kept until they are released.
    pub fn new(config: Config, state: State, dirs: Vec<String>) -> (r: Result<
        Engine,
        ConfigError<String>,
    >)
        ensures
            match r {
                Ok(e) => {
                    &&& validate::is_valid(config@, ids::texts(dirs@))
                    &&& e@ == (EngineModel {
                        config: config@,
                        jobs: all_interrupted(state.jobs@),
                        owned: Seq::empty(),
                        storage_failed: false,
                    })
                    &&& is_well_formed(e@)
                },
                Err(f) => validate::config_fault(config@, ids::texts(dirs@)) == Some(f@),
            },
    {
        let roster = match Roster::new(config, dirs) {
            Ok(r) => r,
            Err(f) => {
                return Err(f);
            },
        };
        let ghost before = state.jobs@;
        let mut jobs = state.jobs;
        let n: usize = jobs.len();
        let mut i: usize = 0;
        while i < n
            invariant
                i <= n == before.len(),
                jobs@ == all_interrupted(before).take(i as int) + before.skip(i as int),
            decreases n - i,
        {
            assert(jobs@[i as int] == before[i as int]);
            let j = jobs.at(i);
            if same(j.status.as_str(), "READY") {
                let f = vec![
                    field("status", text("INTERRUPTED")),
                    field(
                        "reason",
                        text("daemon restarted; verify external services and release old lease"),
                    ),
                ];
                assert(json::fields(f@) =~= seq![
                    ("status"@, JsonModel::Text("INTERRUPTED"@)),
                    (
                        "reason"@,
                        JsonModel::Text(
                            "daemon restarted; verify external services and release old lease"@,
                        ),
                    ),
                ]);
                let next = Job {
                    runtime_id: j.runtime_id.clone(),
                    request: j.request.copy(),
                    status: "INTERRUPTED".to_string(),
                    result: object_of(f),
                };
                assert(next@ == interrupted(before[i as int].1));
                jobs.set(i, next);
            } else {
                assert(interrupted(before[i as int].1) == before[i as int].1);
            }
            assert(jobs@ =~= all_interrupted(before).take(i + 1) + before.skip(i + 1));
            i += 1;
        }
        assert(jobs@ =~= all_interrupted(before));
        let e = Engine {
            fleet: Fleet::new(roster),
            state: State { jobs },
            storage_failed: false,
        };
        e.note_form();
        Ok(e)
    }

    /// Does nothing; it is called for what it says.
    fn note_form(&self)
        ensures
            is_well_formed(self@),
    {
        let _ = self.fleet.config();
        let _ = self.fleet.owned();
        let _ = self.state.jobs.len();
    }

    /// Gives up what the readings show to be gone.
    pub fn refresh(&mut self, r: &Readings)
        ensures
            final(self)@ == refreshed(old(self)@, r@),
    {
        self.fleet.refresh(r);
    }

    /// The processes with the services that they belong to, by memory.
    pub fn processes(&self, rows: Vec<Process>) -> (out: Vec<Process>)
        ensures
            out@.len() == rows@.len(),
            attribution::is_ranked(
                model::table(out@),
                attribution::attributed(
                    self@.config.services,
                    self@.owned,
                    model::table(rows@),
                ),
            ),
            attribution::all_known(self@.config.services, model::table(out@)),
    {
        let out = attribute(&self.fleet.config().services, self.fleet.owned(), rows);
        proof {
            attribution::law_processes_are_of_configured_services(
                self@.config.services,
                self@.owned,
                model::table(rows@),
                model::table(out@),
            );
        }
        out
    }

    /// Takes readings up: gives up what is gone, and attributes the processes.
    pub fn observe(&mut self, r: Readings) -> (out: Readings)
        ensures
            final(self)@ == refreshed(old(self)@, r@),
            attribution::is_ranked(
                out@.rows,
                attribution::attributed(
                    final(self)@.config.services,
                    final(self)@.owned,
                    r@.rows,
                ),
            ),
            out@ == (ReadingsModel { rows: out@.rows, ..r@ }),
            attribution::all_known(final(self)@.config.services, out@.rows),
            is_well_formed(final(self)@),
    {
        self.refresh(&r);
        let rows = self.processes(r.rows);
        self.note_form();
        Readings { rows, ..r }
    }

    /// The leases on the service.
    pub fn leases(&self, id: &str) -> (r: Vec<Json>)
        ensures
            json::models(r@) == leases(self@, id@),
            r@.len() == lessees(self@, id@).len(),
    {
        let ghost all = self@.jobs;
        let ghost keep = |j: (Seq<char>, JobModel)| is_lease(self@.config.services, j.1, id@);
        let ghost look = |j: (Seq<char>, JobModel)| show::object(show::lease_fields(j.1));
        let n: usize = self.state.jobs.len();
        let mut out: Vec<Json> = Vec::new();
        let mut i: usize = 0;
        assert(all.take(0).filter(keep) =~= Seq::<(Seq<char>, JobModel)>::empty()) by {
            reveal(Seq::filter);
        }
        assert(json::models(out@) =~= all.take(0).filter(keep).map_values(look));
        while i < n
            invariant
                i <= n == all.len(),
                all == self@.jobs,
                keep == (|j: (Seq<char>, JobModel)| is_lease(self@.config.services, j.1, id@)),
                look == (|j: (Seq<char>, JobModel)| show::object(show::lease_fields(j.1))),
                json::models(out@) == all.take(i as int).filter(keep).map_values(look),
            decreases n - i,
        {
            let j = self.state.jobs.at(i);
            assert(all.take(i + 1) =~= all.take(i as int).push(all[i as int]));
            proof {
                all.take(i as int).lemma_filter_push(all[i as int], keep);
            }
            let ghost held = out@;
            if holding(j.status.as_str()) && self.fleet.roster().needs(&j.request.requires, id) {
                assert(keep(all[i as int]));
                out.push(show_lease(j));
                assert(json::models(out@) =~= json::models(held).push(look(all[i as int])));
                assert(json::models(out@) =~= all.take(i + 1).filter(keep).map_values(look));
            } else {
                assert(!keep(all[i as int]));
            }
            i += 1;
        }
        assert(all.take(n as int) =~= all);
        assert(json::models(out@) =~= leases(self@, id@));
        assert(json::models(out@).len() == out@.len());
        out
    }

    /// Whether some job holds the service.
    pub fn leased(&self, id: &str) -> (r: bool)
        ensures
            r == is_leased(self@, id@),
    {
        self.leases(id).len() > 0
    }

    /// Whether the service may be acted on: the action is allowed for it, and no
    /// job holds it.
    pub fn action_allowed(&self, id: &str, action: &str) -> (r: Result<(), Denial<String>>)
        ensures
            match r {
                Ok(()) => action_denial(self@, id@, action@) is None,
                Err(d) => action_denial(self@, id@, action@) == Some(d@),
            },
    {
        match self.fleet.config().services.get(id) {
            None => Err(Denial::UnknownService),
            Some(s) => {
                if s.mode != Mode::Managed || !s.allowed_actions.contains(action) {
                    return Err(Denial::ControlDenied);
                }
                if self.leased(id) {
                    return Err(Denial::Protected);
                }
                Ok(())
            },
        }
    }
}

/// A look only gives up processes: what is still owned was owned before, and is
/// live.
pub proof fn lemma_refreshed(e: EngineModel, r: ReadingsModel)
    requires
        ids::ascending(ids::keys(e.owned)),
    ensures
        ids::ascending(ids::keys(refreshed(e, r).owned)),
        forall|id: Seq<char>| #[trigger]
            ids::has(refreshed(e, r).owned, id) <==> ids::has(e.owned, id) && fleet::is_live(
                r,
                ids::value(e.owned, id),
            ),
        forall|id: Seq<char>|
            ids::has(refreshed(e, r).owned, id) ==> #[trigger] ids::value(
                refreshed(e, r).owned,
                id,
            ) == ids::value(e.owned, id),
{
    ids::lemma_filter(e.owned, |x: (Seq<char>, Owned)| fleet::is_live(r, x.1));
}

/// A look at the machine leaves a supervisor well-formed, and its jobs and its
/// configuration as they were.
pub proof fn law_refreshed_is_well_formed(e: EngineModel, r: ReadingsModel)
    requires
        is_well_formed(e),
    ensures
        is_well_formed(refreshed(e, r)),
        refreshed(e, r).jobs == e.jobs,
        refreshed(e, r).config == e.config,
{
    lemma_refreshed(e, r);
    fleet::lemma_still_configured(e.config.services, e.owned, r);
}

/// A restart keeps every lease: a service is leased after it just where it was
/// before. No job is ready any more, and nothing is owned.
pub proof fn law_restart_keeps_leases(config: ConfigModel, jobs: Jobs, e: EngineModel)
    requires
        e == (EngineModel {
            config,
            jobs: all_interrupted(jobs),
            owned: Seq::empty(),
            storage_failed: false,
        }),
    ensures
        ids::keys(e.jobs) == ids::keys(jobs),
        forall|i: int|
            #![trigger e.jobs[i]]
            0 <= i < jobs.len() ==> e.jobs[i].1.status != "READY"@ && e.jobs[i].1.request
                == jobs[i].1.request && e.jobs[i].1.runtime_id == jobs[i].1.runtime_id,
        forall|i: int, id: Seq<char>|
            0 <= i < jobs.len() ==> is_lease(config.services, (#[trigger] e.jobs[i]).1, id)
                == #[trigger] is_lease(config.services, jobs[i].1, id),
{
    reveal_strlit("READY");
    reveal_strlit("INTERRUPTED");
    assert("READY"@.len() != "INTERRUPTED"@.len());
    assert(ids::keys(e.jobs) =~= ids::keys(jobs));
    assert forall|i: int| #![trigger e.jobs[i]] 0 <= i < jobs.len() implies e.jobs[i].1.status
        != "READY"@ && e.jobs[i].1.request == jobs[i].1.request && e.jobs[i].1.runtime_id
        == jobs[i].1.runtime_id by {
        assert(e.jobs[i].1 == interrupted(jobs[i].1));
    }
    assert forall|i: int, id: Seq<char>| 0 <= i < jobs.len() implies is_lease(
        config.services,
        (#[trigger] e.jobs[i]).1,
        id,
    ) == #[trigger] is_lease(config.services, jobs[i].1, id) by {
        assert(e.jobs[i].1 == interrupted(jobs[i].1));
    }
}

/// A discovered service is only watched: no action on it is allowed, whether or
/// not a job holds it.
pub proof fn law_discovered_is_read_only(e: EngineModel, id: Seq<char>, action: Seq<char>)
    requires
        ids::has(e.config.services, id),
        ids::value(e.config.services, id).mode == Mode::Discovered,
    ensures
        action_denial(e, id, action) == Some(Denial::<Seq<char>>::ControlDenied),
{
}

/// A service is held just by the jobs that are ready or interrupted and need it.
/// One job more adds just its own lease, at the end, where it is such a one.
pub proof fn law_leases_are_those_in_force(e: EngineModel, entry: (Seq<char>, JobModel), id: Seq<char>)
    ensures
        ({
            let more = EngineModel { jobs: e.jobs.push(entry), ..e };
            let j = entry.1;
            let holds = (j.status == "READY"@ || j.status == "INTERRUPTED"@) && depend::needed(
                e.config.services,
                j.request.requires,
                id,
            );
            &&& e.jobs.len() == 0 ==> leases(e, id).len() == 0
            &&& holds ==> leases(more, id) == leases(e, id).push(
                show::object(show::lease_fields(j)),
            )
            &&& !holds ==> leases(more, id) == leases(e, id)
            &&& is_leased(e, id) <==> leases(e, id).len() > 0
            &&& is_leased(e, id) <==> exists|i: int|
                0 <= i < e.jobs.len() && ((#[trigger] e.jobs[i]).1.status == "READY"@
                    || e.jobs[i].1.status == "INTERRUPTED"@) && depend::needed(
                    e.config.services,
                    e.jobs[i].1.request.requires,
                    id,
                )
        }),
{
    let more = EngineModel { jobs: e.jobs.push(entry), ..e };
    let keep = |j: (Seq<char>, JobModel)| is_lease(e.config.services, j.1, id);
    e.jobs.lemma_filter_push(entry, keep);
    if e.jobs.len() == 0 {
        reveal(Seq::filter);
    }
    if keep(entry) {
        assert(leases(more, id) =~= leases(e, id).push(show::object(show::lease_fields(entry.1))));
    } else {
        assert(leases(more, id) =~= leases(e, id));
    }
    let l = lessees(e, id);
    if l.len() > 0 {
        assert(l.contains(l[0]));
        e.jobs.lemma_filter_contains_rev(keep, l[0]);
        e.jobs.lemma_filter_pred(keep, 0);
        let i = choose|i: int| 0 <= i < e.jobs.len() && e.jobs[i] == l[0];
        assert(keep(e.jobs[i]));
    }
    assert forall|i: int|
        0 <= i < e.jobs.len() && ((#[trigger] e.jobs[i]).1.status == "READY"@
            || e.jobs[i].1.status == "INTERRUPTED"@) && depend::needed(
            e.config.services,
            e.jobs[i].1.request.requires,
            id,
        ) implies l.len() > 0 by {
        assert(keep(e.jobs[i]));
        e.jobs.lemma_filter_contains(keep, i);
    }
}

/// A service may be acted on just where it is configured, and to be managed, with
/// the action among those allowed, and no job holds it; the reason for a refusal
/// is the first of these that fails.
pub proof fn law_action_needs_permission_and_no_lease(
    e: EngineModel,
    i: int,
    id: Seq<char>,
    action: Seq<char>,
)
    requires
        ids::ascending(ids::keys(e.config.services)),
        0 <= i < e.config.services.len(),
    ensures
        ({
            let (known, s) = e.config.services[i];
            let permitted = s.mode == Mode::Managed && s.allowed_actions.contains(action);
            let d = action_denial(e, known, action);
            &&& d is None <==> permitted && leases(e, known).len() == 0
            &&& d == Some(Denial::<Seq<char>>::ControlDenied) <==> !permitted
            &&& d == Some(Denial::<Seq<char>>::Protected) <==> permitted && leases(e, known).len()
                > 0
        }),
        (forall|k: int|
            0 <= k < e.config.services.len() ==> (#[trigger] e.config.services[k]).0 != id)
            <==> action_denial(e, id, action) == Some(Denial::<Seq<char>>::UnknownService),
{
    ids::lemma_at(e.config.services, i);
    assert(leases(e, e.config.services[i].0).len() == lessees(e, e.config.services[i].0).len());
    if ids::has(e.config.services, id) {
        let k = ids::keys(e.config.services).index_of(id);
        assert(e.config.services[k].0 == id);
    }
    assert forall|k: int|
        0 <= k < e.config.services.len() && (#[trigger] e.config.services[k]).0
            == id implies ids::has(e.config.services, id) by {
        assert(ids::keys(e.config.services)[k] == id);
    }
}

/// A restart interrupts the jobs that were ready, and says why; it touches no
/// other job.
pub proof fn law_restart_interrupts_what_was_ready(jobs: Jobs, i: int)
    requires
        0 <= i < jobs.len(),
    ensures
        ({
            let (id, j) = all_interrupted(jobs)[i];
            &&& all_interrupted(jobs).len() == jobs.len()
            &&& id == jobs[i].0
            &&& jobs[i].1.status != "READY"@ ==> j == jobs[i].1
            &&& jobs[i].1.status == "READY"@ ==> j.status == "INTERRUPTED"@ && j.runtime_id
                == jobs[i].1.runtime_id && j.request == jobs[i].1.request && json::as_map(
                j.result,
            ).contains_pair("status"@, JsonModel::Text("INTERRUPTED"@))
        }),
{
    reveal_strlit("status");
    reveal_strlit("reason");
    assert("status"@[1] != "reason"@[1]);
    let f = seq![
        ("status"@, JsonModel::Text("INTERRUPTED"@)),
        (
            "reason"@,
            JsonModel::Text("daemon restarted; verify external services and release old lease"@),
        ),
    ];
    assert(f[0].0 != f[1].0);
    json::lemma_last_field(f, 0);
}

/// A process stays owned just where its child has not exited and the table has a
/// process of its number that was started when it was. For every service that
/// stays owned, what is owned is as it was.
pub proof fn law_only_the_living_stay_owned(e: EngineModel, r: ReadingsModel, i: int)
    requires
        is_well_formed(e),
        0 <= i < e.owned.len(),
    ensures
        ({
            let (id, o) = e.owned[i];
            let after = refreshed(e, r);
            let lives = !r.exited.contains(o.pid) && exists|k: int|
                0 <= k < r.rows.len() && (#[trigger] r.rows[k]).pid == o.pid && r.rows[k].start_time
                    == o.start_time;
            &&& ids::has(after.owned, id) <==> lives
            &&& lives ==> after.owned.contains((id, o))
            &&& forall|k: int|
                0 <= k < after.owned.len() ==> e.owned.contains(#[trigger] after.owned[k])
        }),
{
    let (id, o) = e.owned[i];
    let keep = |x: (Seq<char>, Owned)| fleet::is_live(r, x.1);
    ids::lemma_at(e.owned, i);
    lemma_refreshed(e, r);
    let after = refreshed(e, r).owned;
    if keep(e.owned[i]) {
        e.owned.lemma_filter_contains(keep, i);
    }
    assert forall|k: int| 0 <= k < after.len() implies e.owned.contains(#[trigger] after[k]) by {
        assert(after.contains(after[k]));
        e.owned.lemma_filter_contains_rev(keep, after[k]);
    }
}

} // verus!
