//! The services as they stand: who runs them, how they fare, and what may be done
//! with them.

use vstd::prelude::*;
use crate::config::{Mode, Service, ServiceModel};
use crate::attribution;
use crate::engine;
use crate::engine::{Engine, EngineModel};
use crate::ids;
use crate::ids::IdSet;
use crate::json;
use crate::json::{field, list_of, object_of, opt_number, text, text_list, Json, JsonModel};
use crate::model;
use crate::model::{Class, Process, ProcessModel};
use crate::show;
use crate::show::{mode_name, show_process};
use crate::sight;
use crate::sight::{has_port, owned_listeners, Readings, ReadingsModel, Sight, SightModel};
use crate::text::same;

verus! {

/// How a service fares.
#[derive(Clone, Copy, PartialEq, Eq, Structural, Debug)]
pub enum Condition {
    Running,
    Unhealthy,
    Stopped,
}

impl Condition {
    pub open spec fn text(self) -> Seq<char> {
        match self {
            Condition::Running => "running"@,
            Condition::Unhealthy => "unhealthy"@,
            Condition::Stopped => "stopped"@,
        }
    }

    pub fn name(self) -> (s: &'static str)
        ensures
            s@ == self.text(),
    {
        match self {
            Condition::Running => "running",
            Condition::Unhealthy => "unhealthy",
            Condition::Stopped => "stopped",
        }
    }
}

/// A service as it stands.
#[derive(Debug, PartialEq)]
pub struct ServiceView {
    pub id: String,
    pub class: Class,
    pub mode: Mode,
    pub state: Condition,
    pub healthy: Option<bool>,
    pub port: Option<u16>,
    pub ram_bytes: u64,
    pub cpu_percent: Json,
    pub memory_estimate_bytes: Option<u64>,
    pub disposable: bool,
    pub leases: Vec<Json>,
    pub processes: Vec<Json>,
    pub actions: Vec<String>,
}

pub struct ServiceViewModel {
    pub id: Seq<char>,
    pub class: Class,
    pub mode: Mode,
    pub state: Condition,
    pub healthy: Option<bool>,
    pub port: Option<u16>,
    pub ram_bytes: int,
    pub cpu_percent: JsonModel,
    pub memory_estimate_bytes: Option<u64>,
    pub disposable: bool,
    pub leases: Seq<JsonModel>,
    pub processes: Seq<JsonModel>,
    pub actions: Seq<Seq<char>>,
}

impl View for ServiceView {
    type V = ServiceViewModel;

    open spec fn view(&self) -> ServiceViewModel {
        ServiceViewModel {
            id: self.id@,
            class: self.class,
            mode: self.mode,
            state: self.state,
            healthy: self.healthy,
            port: self.port,
            ram_bytes: self.ram_bytes as int,
            cpu_percent: self.cpu_percent@,
            memory_estimate_bytes: self.memory_estimate_bytes,
            disposable: self.disposable,
            leases: json::models(self.leases@),
            processes: json::models(self.processes@),
            actions: ids::texts(self.actions@),
        }
    }
}

/// What the views of a list are.
pub open spec fn view_models(v: Seq<ServiceView>) -> Seq<ServiceViewModel> {
    v.map_values(|x: ServiceView| x@)
}

/// Something accepts connections on the service's port.
pub open spec fn is_reachable(s: ServiceModel, r: ReadingsModel) -> bool {
    s.port is Some && r.open_ports.contains(s.port->0)
}

/// Whether the service passes its checks; none where it has no port. With a
/// health path that path has to answer, and with a registered executable the
/// listeners have to be known to be the service's own processes.
pub open spec fn health(s: ServiceModel, id: Seq<char>, r: ReadingsModel) -> Option<bool> {
    match s.port {
        None => None,
        Some(p) => Some(
            {
                &&& r.open_ports.contains(p)
                &&& s.http_health_path is Some ==> r.answering.contains(p)
                &&& s.match_executable is Some ==> sight::owns_listeners(r, p, id)
            },
        ),
    }
}

/// The service has a process, or something listens in its place.
pub open spec fn is_running(s: ServiceModel, id: Seq<char>, r: ReadingsModel) -> bool {
    sight::of_service(r.rows, Some(id)).len() > 0 || is_reachable(s, r)
}

pub open spec fn condition(s: ServiceModel, id: Seq<char>, r: ReadingsModel) -> Condition {
    if !is_running(s, id, r) {
        Condition::Stopped
    } else if health(s, id, r) == Some(false) {
        Condition::Unhealthy
    } else {
        Condition::Running
    }
}

/// A service is managed while the supervisor owns its process, or while nothing
/// runs and the supervisor could start it.
pub open spec fn standing_class(e: EngineModel, s: ServiceModel, id: Seq<char>, r: ReadingsModel) -> Class {
    if ids::has(e.owned, id) {
        Class::Managed
    } else if is_running(s, id, r) {
        Class::Discovered
    } else if s.mode == Mode::Managed {
        Class::Managed
    } else {
        Class::Discovered
    }
}

/// The action makes sense for the service now: a start while nothing runs,
/// anything else while the supervisor owns the process.
pub open spec fn is_apt(action: Seq<char>, running: bool, owned: bool) -> bool {
    if action == "start"@ {
        !running
    } else {
        owned
    }
}

/// What may be done with the service now.
pub open spec fn apt(
    e: EngineModel,
    s: ServiceModel,
    id: Seq<char>,
    r: ReadingsModel,
) -> Seq<Seq<char>> {
    if s.mode == Mode::Managed && standing_class(e, s, id, r) == Class::Managed && !engine::is_leased(e, id) {
        s.allowed_actions.filter(
            |a: Seq<char>| is_apt(a, is_running(s, id, r), ids::has(e.owned, id)),
        )
    } else {
        Seq::empty()
    }
}

/// The service at `i` as it stands.
pub open spec fn service_view(e: EngineModel, sight: SightModel, i: int) -> ServiceViewModel {
    let (id, s) = e.config.services[i];
    let r = sight.readings;
    let ps = sight::of_service(r.rows, Some(id));
    ServiceViewModel {
        id,
        class: standing_class(e, s, id, r),
        mode: s.mode,
        state: condition(s, id, r),
        healthy: health(s, id, r),
        port: s.port,
        ram_bytes: sight::total_ram(ps),
        cpu_percent: sight::cpu_at(sight, i),
        memory_estimate_bytes: s.memory_bytes,
        disposable: s.disposable,
        leases: engine::leases(e, id),
        processes: show::process_list(ps),
        actions: apt(e, s, id, r),
    }
}

/// All services as they stand, in the order of their ids.
pub open spec fn all_views(e: EngineModel, sight: SightModel) -> Seq<ServiceViewModel> {
    Seq::new(e.config.services.len(), |i: int| service_view(e, sight, i))
}

pub open spec fn opt_bool_model(b: Option<bool>) -> JsonModel {
    match b {
        Some(b) => JsonModel::Bool(b),
        None => JsonModel::Null,
    }
}

pub open spec fn view_fields(v: ServiceViewModel) -> show::Fields {
    seq![
        ("id"@, JsonModel::Text(v.id)),
        ("class"@, JsonModel::Text(v.class.text())),
        ("configured_mode"@, JsonModel::Text(show::mode_text(v.mode))),
        ("state"@, JsonModel::Text(v.state.text())),
        ("healthy"@, opt_bool_model(v.healthy)),
        (
            "port"@,
            json::opt_number_model(
                match v.port {
                    Some(p) => Some(p as int),
                    None => None,
                },
            ),
        ),
        ("ram_bytes"@, JsonModel::Integer(v.ram_bytes)),
        ("cpu_percent"@, v.cpu_percent),
        (
            "memory_estimate_bytes"@,
            json::opt_number_model(
                match v.memory_estimate_bytes {
                    Some(n) => Some(n as int),
                    None => None,
                },
            ),
        ),
        ("disposable"@, JsonModel::Bool(v.disposable)),
        ("leases"@, JsonModel::List(v.leases)),
        ("processes"@, JsonModel::List(v.processes)),
        ("actions"@, JsonModel::List(json::texts_model(v.actions))),
    ]
}

pub open spec fn view_json(v: ServiceViewModel) -> JsonModel {
    show::object(view_fields(v))
}

/// A list of values that is the same.
pub fn copy_all(v: &Vec<Json>) -> (r: Vec<Json>)
    ensures
        json::models(r@) == json::models(v@),
{
    let mut out: Vec<Json> = Vec::new();
    let mut i: usize = 0;
    while i < v.len()
        invariant
            i <= v@.len(),
            out@.len() == i,
            json::models(out@) == json::models(v@).take(i as int),
        decreases v@.len() - i,
    {
        out.push(v[i].copy());
        assert(json::models(out@) =~= json::models(v@).take(i + 1));
        i += 1;
    }
    assert(json::models(out@) =~= json::models(v@));
    out
}

impl ServiceView {
    pub fn show(&self) -> (j: Json)
        ensures
            j@ == view_json(self@),
    {
        let f = vec![
            field("id", text(self.id.as_str())),
            field("class", text(self.class.name())),
            field("configured_mode", text(mode_name(self.mode))),
            field("state", text(self.state.name())),
            field(
                "healthy",
                match self.healthy {
                    Some(b) => Json::Bool(b),
                    None => Json::Null,
                },
            ),
            field(
                "port",
                opt_number(
                    match self.port {
                        Some(p) => Some(p as u64),
                        None => None,
                    },
                ),
            ),
            field("ram_bytes", Json::UInt(self.ram_bytes)),
            field("cpu_percent", self.cpu_percent.copy()),
            field("memory_estimate_bytes", opt_number(self.memory_estimate_bytes)),
            field("disposable", Json::Bool(self.disposable)),
            field("leases", list_of(copy_all(&self.leases))),
            field("processes", list_of(copy_all(&self.processes))),
            field("actions", text_list(&self.actions)),
        ];
        assert(json::fields(f@) =~= view_fields(self@));
        object_of(f)
    }
}

/// The views, as a list.
pub open spec fn view_list(v: Seq<ServiceViewModel>) -> Seq<JsonModel> {
    v.map_values(|x: ServiceViewModel| view_json(x))
}

pub fn show_views(v: &Vec<ServiceView>) -> (r: Json)
    ensures
        r@ == JsonModel::List(view_list(view_models(v@))),
{
    let mut out: Vec<Json> = Vec::new();
    let mut i: usize = 0;
    while i < v.len()
        invariant
            i <= v@.len(),
            out@.len() == i,
            json::models(out@) == view_list(view_models(v@)).take(i as int),
        decreases v@.len() - i,
    {
        out.push(v[i].show());
        assert(json::models(out@) =~= view_list(view_models(v@)).take(i + 1));
        i += 1;
    }
    assert(json::models(out@) =~= view_list(view_models(v@)));
    list_of(out)
}

/// The service passes its checks.
pub fn service_health(s: &Service, id: &str, r: &Readings) -> (b: Option<bool>)
    ensures
        b == health(s@, id@, r@),
{
    match s.port {
        None => None,
        Some(p) => Some(
            has_port(&r.open_ports, p) && (s.http_health_path.is_none() || has_port(
                &r.answering,
                p,
            )) && (s.match_executable.is_none() || owned_listeners(r, p, id)),
        ),
    }
}

pub fn service_reachable(s: &Service, r: &Readings) -> (b: bool)
    ensures
        b == is_reachable(s@, r@),
{
    match s.port {
        None => false,
        Some(p) => has_port(&r.open_ports, p),
    }
}

/// The processes of a service as values, and their memory. The process is of no
/// service where `id` is none.
pub fn processes_of(rows: &Vec<Process>, id: Option<&str>) -> (r: (Vec<Json>, u64))
    requires
        sight::total_ram(model::table(rows@)) <= u64::MAX,
    ensures
        json::models(r.0@) == show::process_list(
            sight::of_service(
                model::table(rows@),
                match id {
                    Some(s) => Some(s@),
                    None => None,
                },
            ),
        ),
        r.1 == sight::total_ram(
            sight::of_service(
                model::table(rows@),
                match id {
                    Some(s) => Some(s@),
                    None => None,
                },
            ),
        ),
{
    let ghost t = model::table(rows@);
    let ghost want: Option<Seq<char>> = match id {
        Some(s) => Some(s@),
        None => None,
    };
    let ghost keep = |p: ProcessModel| p.service == want;
    let mut out: Vec<Json> = Vec::new();
    let mut sum: u64 = 0;
    let mut i: usize = 0;
    assert(t.take(0).filter(keep) =~= Seq::<ProcessModel>::empty()) by {
        reveal(Seq::filter);
    }
    assert(json::models(out@) =~= show::process_list(sight::of_service(t.take(0), want)));
    while i < rows.len()
        invariant
            i <= rows@.len(),
            t == model::table(rows@),
            want == (match id {
                Some(s) => Some(s@),
                None => None::<Seq<char>>,
            }),
            keep == (|p: ProcessModel| p.service == want),
            sight::total_ram(t) <= u64::MAX,
            json::models(out@) == show::process_list(sight::of_service(t.take(i as int), want)),
            sum == sight::total_ram(sight::of_service(t.take(i as int), want)),
        decreases rows@.len() - i,
    {
        assert(t[i as int] == rows@[i as int]@);
        assert(t.take(i + 1) =~= t.take(i as int).push(t[i as int]));
        let mine = match (&rows[i].service, id) {
            (Some(a), Some(b)) => same(a.as_str(), b),
            (None, None) => true,
            _ => false,
        };
        assert(mine == keep(t[i as int]));
        let ghost held = out@;
        let ghost part = sight::of_service(t.take(i as int), want);
        proof {
            t.take(i as int).lemma_filter_push(t[i as int], keep);
            sight::lemma_part_ram(t.take(i + 1), want);
            sight::lemma_first_ram(t, i + 1);
        }
        if mine {
            assert(sight::of_service(t.take(i + 1), want) == part.push(t[i as int]));
            assert(part.push(t[i as int]).drop_last() =~= part);
            out.push(show_process(&rows[i]));
            assert(json::models(out@) =~= json::models(held).push(
                show::object(show::process_fields(t[i as int])),
            ));
            assert(json::models(out@) =~= show::process_list(part.push(t[i as int])));
            sum = sum + rows[i].ram_bytes;
        }
        i += 1;
    }
    assert(t.take(i as int) =~= t);
    (out, sum)
}

fn apt_actions(allowed: &IdSet, running: bool, owned: bool) -> (r: Vec<String>)
    ensures
        ids::texts(r@) == allowed@.filter(|a: Seq<char>| is_apt(a, running, owned)),
{
    let ghost keep = |a: Seq<char>| is_apt(a, running, owned);
    let n: usize = allowed.len();
    let mut out: Vec<String> = Vec::new();
    let mut i: usize = 0;
    assert(allowed@.take(0).filter(keep) =~= Seq::<Seq<char>>::empty()) by {
        reveal(Seq::filter);
    }
    assert(ids::texts(out@) =~= allowed@.take(0).filter(keep));
    while i < n
        invariant
            i <= n == allowed@.len(),
            keep == (|a: Seq<char>| is_apt(a, running, owned)),
            ids::texts(out@) == allowed@.take(i as int).filter(keep),
        decreases n - i,
    {
        let a = allowed.at(i);
        assert(allowed@.take(i + 1) =~= allowed@.take(i as int).push(allowed@[i as int]));
        proof {
            allowed@.take(i as int).lemma_filter_push(allowed@[i as int], keep);
        }
        let ghost held = out@;
        let apt = if same(a.as_str(), "start") {
            !running
        } else {
            owned
        };
        assert(apt == keep(allowed@[i as int]));
        if apt {
            out.push(a.clone());
            assert(ids::texts(out@) =~= ids::texts(held).push(a@));
        }
        i += 1;
    }
    assert(allowed@.take(n as int) =~= allowed@);
    out
}

impl Engine {
    fn view_at(&self, sight: &Sight, i: usize) -> (v: ServiceView)
        requires
            i < self@.config.services.len(),
        ensures
            v@ == service_view(self@, sight@, i as int),
    {
        let services = &self.fleet.config().services;
        let id = services.id_at(i);
        let s = services.at(i);
        let r = sight.readings();
        let (processes, ram_bytes) = processes_of(&r.rows, Some(id.as_str()));
        let reachable = service_reachable(s, r);
        assert(json::models(processes@).len() == processes@.len());
        let running = processes.len() > 0 || reachable;
        let healthy = service_health(s, id.as_str(), r);
        let owned = self.fleet.owned().contains(id.as_str());
        let leases = self.leases(id.as_str());
        let class = if owned {
            Class::Managed
        } else if running {
            Class::Discovered
        } else if s.mode == Mode::Managed {
            Class::Managed
        } else {
            Class::Discovered
        };
        let state = if !running {
            Condition::Stopped
        } else {
            match healthy {
                Some(false) => Condition::Unhealthy,
                _ => Condition::Running,
            }
        };
        let actions: Vec<String> = if s.mode == Mode::Managed && class == Class::Managed
            && leases.len() == 0 {
            apt_actions(&s.allowed_actions, running, owned)
        } else {
            Vec::new()
        };
        assert(ids::texts(actions@) =~= apt(self@, s@, id@, r@));
        ServiceView {
            id: id.clone(),
            class,
            mode: s.mode,
            state,
            healthy,
            port: s.port,
            ram_bytes,
            cpu_percent: sight.cpu(i),
            memory_estimate_bytes: s.memory_bytes,
            disposable: s.disposable,
            leases,
            processes,
            actions,
        }
    }

    /// All services as they stand, in the order of their ids.
    pub fn views(&self, sight: &Sight) -> (r: Vec<ServiceView>)
        ensures
            view_models(r@) == all_views(self@, sight@),
    {
        let n: usize = self.fleet.config().services.len();
        let mut out: Vec<ServiceView> = Vec::new();
        let mut i: usize = 0;
        while i < n
            invariant
                i <= n == self@.config.services.len(),
                out@.len() == i,
                view_models(out@) == all_views(self@, sight@).take(i as int),
            decreases n - i,
        {
            out.push(self.view_at(sight, i));
            assert(view_models(out@) =~= all_views(self@, sight@).take(i + 1));
            i += 1;
        }
        assert(view_models(out@) =~= all_views(self@, sight@));
        out
    }
}

/// The memory of the processes of the first `n` services.
pub open spec fn services_ram(
    services: crate::config::Services,
    rows: Seq<ProcessModel>,
    n: int,
) -> int
    decreases n,
{
    if n <= 0 {
        0
    } else {
        services_ram(services, rows, n - 1) + sight::total_ram(
            sight::of_service(rows, Some(services[n - 1].0)),
        )
    }
}

/// The memory of the services together, as it is shown.
pub open spec fn shown_ram(v: Seq<ServiceViewModel>) -> int
    decreases v.len(),
{
    if v.len() == 0 {
        0
    } else {
        shown_ram(v.drop_last()) + v.last().ram_bytes
    }
}

/// The views show the memory of the processes of each service.
pub proof fn lemma_shown_ram(e: EngineModel, sight: SightModel, n: int)
    requires
        0 <= n <= e.config.services.len(),
    ensures
        shown_ram(all_views(e, sight).take(n)) == services_ram(
            e.config.services,
            sight.readings.rows,
            n,
        ),
    decreases n,
{
    let v = all_views(e, sight);
    if n > 0 {
        lemma_shown_ram(e, sight, n - 1);
        assert(v.take(n).drop_last() =~= v.take(n - 1));
        assert(v.take(n).last() == service_view(e, sight, n - 1));
    }
}

/// Every process is counted once: the memory of all processes is that of the
/// services together with that of the processes of no service.
pub proof fn law_every_process_is_counted_once(
    services: crate::config::Services,
    rows: Seq<ProcessModel>,
)
    requires
        ids::ascending(ids::keys(services)),
        attribution::all_known(services, rows),
    ensures
        sight::total_ram(rows) == services_ram(services, rows, services.len() as int)
            + sight::total_ram(sight::of_service(rows, None)),
    decreases rows.len(),
{
    let n = services.len() as int;
    if rows.len() == 0 {
        lemma_no_rows(services, rows, n);
        assert(sight::of_service(rows, None) =~= rows) by {
            reveal(Seq::filter);
        }
    } else {
        let head = rows.drop_last();
        let p = rows.last();
        assert forall|k: int| 0 <= k < head.len() && (#[trigger] head[k]).service is Some implies
            ids::has(services, head[k].service->0) by {
            assert(rows[k] == head[k]);
        }
        law_every_process_is_counted_once(services, head);
        assert(rows =~= head.push(p));
        assert(rows[rows.len() - 1] == p);
        lemma_part_push(head, p, None);
        match p.service {
            None => {
                lemma_services_push(services, head, p, n, n);
            },
            Some(id) => {
                let i = ids::keys(services).index_of(id);
                assert(services[i].0 == id);
                lemma_services_push(services, head, p, i, n);
            },
        }
    }
}

proof fn lemma_part_push(rows: Seq<ProcessModel>, p: ProcessModel, id: Option<Seq<char>>)
    ensures
        sight::total_ram(sight::of_service(rows.push(p), id)) == sight::total_ram(
            sight::of_service(rows, id),
        ) + if p.service == id {
            p.ram_bytes as int
        } else {
            0
        },
{
    rows.lemma_filter_push(p, |q: ProcessModel| q.service == id);
    if p.service == id {
        assert(sight::of_service(rows, id).push(p).drop_last() =~= sight::of_service(rows, id));
    }
}

/// A process of the service at `i`, or of none where `i` is past the end, adds to
/// that service alone.
proof fn lemma_services_push(
    services: crate::config::Services,
    rows: Seq<ProcessModel>,
    p: ProcessModel,
    i: int,
    n: int,
)
    requires
        ids::ascending(ids::keys(services)),
        0 <= n <= services.len(),
        0 <= i <= services.len(),
        i < services.len() ==> p.service == Some(services[i].0),
        i == services.len() ==> p.service is None,
    ensures
        services_ram(services, rows.push(p), n) == services_ram(services, rows, n) + if i < n {
            p.ram_bytes as int
        } else {
            0
        },
    decreases n,
{
    if n > 0 {
        lemma_services_push(services, rows, p, i, n - 1);
        lemma_part_push(rows, p, Some(services[n - 1].0));
        ids::lemma_ascending_distinct(ids::keys(services));
        if i < services.len() && i != n - 1 {
            assert(ids::keys(services)[i] != ids::keys(services)[n - 1]);
        }
    }
}

proof fn lemma_no_rows(services: crate::config::Services, rows: Seq<ProcessModel>, n: int)
    requires
        rows.len() == 0,
    ensures
        services_ram(services, rows, n) == 0,
    decreases n,
{
    if n > 0 {
        lemma_no_rows(services, rows, n - 1);
        assert(sight::of_service(rows, Some(services[n - 1].0)) =~= rows) by {
            reveal(Seq::filter);
        }
    }
}

/// A service is stopped just where it has no process and nothing accepts
/// connections on its port; where it is not, it is running unless it fails its
/// checks. It fails them where nothing accepts connections on its port, where its
/// health path does not answer, or where its executable is registered and a
/// listener on the port is unknown or none of its processes. Without a port there
/// is nothing to check.
#[verifier::rlimit(60)]
#[verifier::spinoff_prover]
pub proof fn law_state_follows_from_what_is_seen(e: EngineModel, sight: SightModel, i: int)
    requires
        0 <= i < e.config.services.len(),
    ensures
        ({
            let v = service_view(e, sight, i);
            let (id, s) = e.config.services[i];
            let r = sight.readings;
            let alive = exists|k: int|
                0 <= k < r.rows.len() && (#[trigger] r.rows[k]).service == Some(id);
            &&& v.id == id && v.port == s.port
            &&& s.port is None ==> v.healthy is None && (v.state == Condition::Running <==> alive)
                && (v.state == Condition::Stopped <==> !alive)
            &&& s.port matches Some(p) ==> {
                let open = r.open_ports.contains(p);
                &&& v.healthy is Some
                &&& v.state == Condition::Stopped <==> !alive && !open
                &&& v.state == Condition::Running <==> v.healthy == Some(true)
                &&& v.healthy == Some(true) ==> open
                &&& v.healthy == Some(true) && s.http_health_path is Some ==> r.answering.contains(
                    p,
                )
                &&& v.healthy == Some(true) && s.match_executable is Some ==> {
                    &&& r.listeners matches Some(m)
                    &&& m.contains_key(p)
                    &&& exists|pid: u32| #[trigger] m[p].contains(pid)
                    &&& forall|pid: u32| #[trigger]
                        m[p].contains(pid) ==> exists|k: int|
                            0 <= k < r.rows.len() && (#[trigger] r.rows[k]).pid == pid
                                && r.rows[k].service == Some(id)
                }
                &&& open && s.http_health_path is None && s.match_executable is None
                    ==> v.healthy == Some(true)
                &&& open && r.answering.contains(p) && s.match_executable is None ==> v.healthy
                    == Some(true)
                &&& open && (s.http_health_path is None || r.answering.contains(p)) && (
                r.listeners matches Some(m) && m.contains_key(p) && (exists|pid: u32| #[trigger]
                    m[p].contains(pid)) && (forall|pid: u32| #[trigger]
                    m[p].contains(pid) ==> exists|k: int|
                        0 <= k < r.rows.len() && (#[trigger] r.rows[k]).pid == pid
                            && r.rows[k].service == Some(id))) ==> v.healthy == Some(true)
            }
        }),
{
    let (id, s) = e.config.services[i];
    let r = sight.readings;
    let mine = |p: ProcessModel| p.service == Some(id);
    let ps = sight::of_service(r.rows, Some(id));
    if ps.len() > 0 {
        r.rows.lemma_filter_contains_rev(mine, ps[0]);
        r.rows.lemma_filter_pred(mine, 0);
        let k = choose|k: int| 0 <= k < r.rows.len() && r.rows[k] == ps[0];
        assert(r.rows[k].service == Some(id));
    }
    assert forall|k: int|
        0 <= k < r.rows.len() && (#[trigger] r.rows[k]).service == Some(id) implies ps.len() > 0 by {
        r.rows.lemma_filter_contains(mine, k);
    }
    if let Some(p) = s.port {
        if sight::owns_listeners(r, p, id) {
            let m = r.listeners->0;
            if forall|pid: u32| !#[trigger] m[p].contains(pid) {
                assert(m[p] =~= Set::<u32>::empty());
            }
            assert forall|pid: u32| #[trigger] m[p].contains(pid) implies exists|k: int|
                0 <= k < r.rows.len() && (#[trigger] r.rows[k]).pid == pid && r.rows[k].service
                    == Some(id) by {
                assert(sight::belongs(r.rows, pid, id));
            }
        }
        if r.listeners matches Some(m) && m.contains_key(p) && (exists|pid: u32| #[trigger]
            m[p].contains(pid)) && (forall|pid: u32| #[trigger]
            m[p].contains(pid) ==> exists|k: int|
                0 <= k < r.rows.len() && (#[trigger] r.rows[k]).pid == pid && r.rows[k].service
                    == Some(id)) {
            let m = r.listeners->0;
            assert forall|pid: u32| #[trigger] m[p].contains(pid) implies sight::belongs(
                r.rows,
                pid,
                id,
            ) by {}
            assert(sight::owns_listeners(r, p, id));
        }
    }
}

/// A service is shown as managed just where the supervisor owns its process, or
/// where it is stopped and is configured to be managed; else as discovered.
pub proof fn law_class_follows_from_ownership(e: EngineModel, sight: SightModel, i: int)
    requires
        0 <= i < e.config.services.len(),
    ensures
        ({
            let v = service_view(e, sight, i);
            let (id, s) = e.config.services[i];
            let owned = exists|k: int| 0 <= k < e.owned.len() && (#[trigger] e.owned[k]).0 == id;
            &&& v.class == Class::Managed <==> owned || v.state == Condition::Stopped && s.mode
                == Mode::Managed
            &&& v.class == Class::Discovered <==> v.class != Class::Managed
            &&& v.mode == s.mode && v.disposable == s.disposable && v.memory_estimate_bytes
                == s.memory_bytes
            &&& v.cpu_percent == (if i < sight.cpu.len() {
                sight.cpu[i]
            } else {
                JsonModel::Null
            })
        }),
{
    let id = e.config.services[i].0;
    lemma_has_entry(e.owned, id);
}

proof fn lemma_has_entry<A>(s: Seq<(Seq<char>, A)>, id: Seq<char>)
    ensures
        ids::has(s, id) <==> exists|k: int| 0 <= k < s.len() && (#[trigger] s[k]).0 == id,
{
    if ids::has(s, id) {
        let k = ids::keys(s).index_of(id);
        assert(s[k].0 == id);
    }
    assert forall|k: int| 0 <= k < s.len() && (#[trigger] s[k]).0 == id implies ids::has(s, id) by {
        assert(ids::keys(s)[k] == id);
    }
}

/// An action can be taken just where it is allowed for a service that is
/// configured to be managed and that no job holds: a start where the service is
/// stopped, any other where the supervisor owns its process. No action is listed
/// twice, and they keep their order.
pub proof fn law_actions_are_allowed_and_possible(
    e: EngineModel,
    sight: SightModel,
    i: int,
    a: Seq<char>,
)
    requires
        0 <= i < e.config.services.len(),
    ensures
        ({
            let v = service_view(e, sight, i);
            let (id, s) = e.config.services[i];
            let owned = exists|k: int| 0 <= k < e.owned.len() && (#[trigger] e.owned[k]).0 == id;
            let stopped = v.state == Condition::Stopped;
            &&& v.actions.contains(a) <==> s.mode == Mode::Managed && v.leases.len() == 0
                && s.allowed_actions.contains(a) && (if a == "start"@ {
                stopped
            } else {
                owned
            })
            &&& forall|x: int, y: int|
                0 <= x < y < v.actions.len() ==> stands_before(
                    s.allowed_actions,
                    #[trigger] v.actions[x],
                    #[trigger] v.actions[y],
                )
        }),
{
    let v = service_view(e, sight, i);
    let (id, s) = e.config.services[i];
    let r = sight.readings;
    lemma_has_entry(e.owned, id);
    law_class_follows_from_ownership(e, sight, i);
    let keep = |a: Seq<char>| is_apt(a, is_running(s, id, r), ids::has(e.owned, id));
    assert(engine::leases(e, id).len() == engine::lessees(e, id).len());
    lemma_filter_order(s.allowed_actions, keep);
    if v.actions.contains(a) {
        s.allowed_actions.lemma_filter_contains_rev(keep, a);
        let k = choose|k: int| 0 <= k < v.actions.len() && v.actions[k] == a;
        s.allowed_actions.lemma_filter_pred(keep, k);
    }
    if s.allowed_actions.contains(a) && keep(a) {
        let k = choose|k: int| 0 <= k < s.allowed_actions.len() && s.allowed_actions[k] == a;
        s.allowed_actions.lemma_filter_contains(keep, k);
    }
}

/// Somewhere in the sequence `a` stands before `b`.
pub open spec fn stands_before<A>(s: Seq<A>, a: A, b: A) -> bool {
    exists|p: int, q: int| 0 <= p < q < s.len() && #[trigger] s[p] == a && #[trigger] s[q] == b
}

/// What is filtered keeps its order.
pub proof fn lemma_filter_order<A>(s: Seq<A>, keep: spec_fn(A) -> bool)
    ensures
        forall|x: int, y: int|
            0 <= x < y < s.filter(keep).len() ==> stands_before(
                s,
                #[trigger] s.filter(keep)[x],
                #[trigger] s.filter(keep)[y],
            ),
    decreases s.len(),
{
    if s.len() == 0 {
        reveal(Seq::filter);
    } else {
        let h = s.drop_last();
        lemma_filter_order(h, keep);
        assert(s =~= h.push(s.last()));
        h.lemma_filter_push(s.last(), keep);
        let f = s.filter(keep);
        let g = h.filter(keep);
        assert forall|x: int, y: int| 0 <= x < y < f.len() implies stands_before(
            s,
            #[trigger] f[x],
            #[trigger] f[y],
        ) by {
            if y < g.len() {
                assert(stands_before(h, g[x], g[y]));
                let (p, q) = choose|p: int, q: int|
                    0 <= p < q < h.len() && #[trigger] h[p] == g[x] && #[trigger] h[q] == g[y];
                assert(s[p] == f[x] && s[q] == f[y]);
            } else {
                assert(g.contains(g[x]));
                h.lemma_filter_contains_rev(keep, g[x]);
                let p = choose|p: int| 0 <= p < h.len() && h[p] == g[x];
                let q = s.len() - 1;
                assert(s[p] == f[x] && s[q] == f[y]);
            }
        }
    }
}

/// One process more is shown, and counts, for its own service alone.
pub proof fn law_process_counts_for_its_service(
    e: EngineModel,
    sight: SightModel,
    more: SightModel,
    p: ProcessModel,
    i: int,
)
    requires
        0 <= i < e.config.services.len(),
        more.readings.rows == sight.readings.rows.push(p),
    ensures
        ({
            let v = service_view(e, sight, i);
            let w = service_view(e, more, i);
            if p.service == Some(e.config.services[i].0) {
                w.ram_bytes == v.ram_bytes + p.ram_bytes && w.processes == v.processes.push(
                    show::object(show::process_fields(p)),
                ) && w.state != Condition::Stopped
            } else {
                w.ram_bytes == v.ram_bytes && w.processes == v.processes
            }
        }),
        sight.readings.rows.len() == 0 ==> service_view(e, sight, i).ram_bytes == 0
            && service_view(e, sight, i).processes.len() == 0,
{
    let id = e.config.services[i].0;
    let rows = sight.readings.rows;
    let mine = |q: ProcessModel| q.service == Some(id);
    sight::law_memory_adds_up(rows, p, Some(id));
    rows.lemma_filter_push(p, mine);
    if p.service == Some(id) {
        assert(service_view(e, more, i).processes =~= service_view(e, sight, i).processes.push(
            show::object(show::process_fields(p)),
        ));
    }
    if rows.len() == 0 {
        reveal(Seq::filter);
        assert(sight::of_service(rows, Some(id)) =~= rows);
    }
}

/// The services are shown one by one, in their order.
pub proof fn law_every_service_is_shown(e: EngineModel, sight: SightModel, i: int)
    requires
        0 <= i < e.config.services.len(),
    ensures
        all_views(e, sight).len() == e.config.services.len(),
        all_views(e, sight)[i].id == e.config.services[i].0,
        view_list(all_views(e, sight)).len() == e.config.services.len(),
        view_list(all_views(e, sight))[i] == view_json(service_view(e, sight, i)),
{
}

/// A service is shown with all that is known of how it stands.
#[verifier::rlimit(60)]
#[verifier::spinoff_prover]
pub proof fn law_view_is_shown(v: ServiceViewModel)
    ensures
        ({
            let m = json::object(view_fields(v));
            &&& m.contains_pair(
                "id"@,
                JsonModel::Text(v.id),
            )
            &&& m.contains_pair(
                "class"@,
                match v.class {
                    Class::Managed => JsonModel::Text("managed"@),
                    Class::Discovered => JsonModel::Text("discovered"@),
                    Class::Unknown => JsonModel::Text("unknown"@),
                },
            )
            &&& m.contains_pair(
                "configured_mode"@,
                match v.mode {
                    Mode::Managed => JsonModel::Text("managed"@),
                    Mode::Discovered => JsonModel::Text("discovered"@),
                },
            )
            &&& m.contains_pair(
                "state"@,
                match v.state {
                    Condition::Running => JsonModel::Text("running"@),
                    Condition::Unhealthy => JsonModel::Text("unhealthy"@),
                    Condition::Stopped => JsonModel::Text("stopped"@),
                },
            )
            &&& m.contains_pair(
                "healthy"@,
                match v.healthy {
                    Some(b) => JsonModel::Bool(b),
                    None => JsonModel::Null,
                },
            )
            &&& m.contains_pair(
                "port"@,
                match v.port {
                    Some(n) => JsonModel::Integer(n as int),
                    None => JsonModel::Null,
                },
            )
            &&& m.contains_pair(
                "ram_bytes"@,
                JsonModel::Integer(v.ram_bytes),
            )
            &&& m.contains_pair(
                "cpu_percent"@,
                v.cpu_percent,
            )
            &&& m.contains_pair(
                "memory_estimate_bytes"@,
                match v.memory_estimate_bytes {
                    Some(n) => JsonModel::Integer(n as int),
                    None => JsonModel::Null,
                },
            )
            &&& m.contains_pair(
                "disposable"@,
                JsonModel::Bool(v.disposable),
            )
            &&& m.contains_pair(
                "leases"@,
                JsonModel::List(v.leases),
            )
            &&& m.contains_pair(
                "processes"@,
                JsonModel::List(v.processes),
            )
            &&& m.contains_pair(
                "actions"@,
                JsonModel::List(v.actions.map_values(|s: Seq<char>| JsonModel::Text(s))),
            )
            &&& forall|k: Seq<char>| #[trigger] m.contains_key(k) <==> seq!["id"@, "class"@, "configured_mode"@, "state"@, "healthy"@, "port"@, "ram_bytes"@, "cpu_percent"@, "memory_estimate_bytes"@, "disposable"@, "leases"@, "processes"@, "actions"@].contains(k)
        }),
{
    let f = view_fields(v);
    reveal_strlit("id");
    reveal_strlit("class");
    reveal_strlit("configured_mode");
    reveal_strlit("state");
    reveal_strlit("healthy");
    reveal_strlit("port");
    reveal_strlit("ram_bytes");
    reveal_strlit("cpu_percent");
    reveal_strlit("memory_estimate_bytes");
    reveal_strlit("disposable");
    reveal_strlit("leases");
    reveal_strlit("processes");
    reveal_strlit("actions");
    assert("class"@[0] != "state"@[0]);
    assert("healthy"@[0] != "actions"@[0]);
    assert("ram_bytes"@[0] != "processes"@[0]);
    assert(f.len() == 13);
    assert(f[0].0 == "id"@ && f[0].0.len() == 2);
    assert(f[1].0 == "class"@ && f[1].0.len() == 5);
    assert(f[2].0 == "configured_mode"@ && f[2].0.len() == 15);
    assert(f[3].0 == "state"@ && f[3].0.len() == 5);
    assert(f[4].0 == "healthy"@ && f[4].0.len() == 7);
    assert(f[5].0 == "port"@ && f[5].0.len() == 4);
    assert(f[6].0 == "ram_bytes"@ && f[6].0.len() == 9);
    assert(f[7].0 == "cpu_percent"@ && f[7].0.len() == 11);
    assert(f[8].0 == "memory_estimate_bytes"@ && f[8].0.len() == 21);
    assert(f[9].0 == "disposable"@ && f[9].0.len() == 10);
    assert(f[10].0 == "leases"@ && f[10].0.len() == 6);
    assert(f[11].0 == "processes"@ && f[11].0.len() == 9);
    assert(f[12].0 == "actions"@ && f[12].0.len() == 7);
    assert(json::distinct(f));
    json::lemma_object(f);
    assert(json::object(f).contains_pair(f[0].0, f[0].1));
    assert(json::object(f).contains_pair(f[1].0, f[1].1));
    assert(json::object(f).contains_pair(f[2].0, f[2].1));
    assert(json::object(f).contains_pair(f[3].0, f[3].1));
    assert(json::object(f).contains_pair(f[4].0, f[4].1));
    assert(json::object(f).contains_pair(f[5].0, f[5].1));
    assert(json::object(f).contains_pair(f[6].0, f[6].1));
    assert(json::object(f).contains_pair(f[7].0, f[7].1));
    assert(json::object(f).contains_pair(f[8].0, f[8].1));
    assert(json::object(f).contains_pair(f[9].0, f[9].1));
    assert(json::object(f).contains_pair(f[10].0, f[10].1));
    assert(json::object(f).contains_pair(f[11].0, f[11].1));
    assert(json::object(f).contains_pair(f[12].0, f[12].1));
    let names = seq!["id"@, "class"@, "configured_mode"@, "state"@, "healthy"@, "port"@, "ram_bytes"@, "cpu_percent"@, "memory_estimate_bytes"@, "disposable"@, "leases"@, "processes"@, "actions"@];
    assert(names[0] == f[0].0);
    assert(names[1] == f[1].0);
    assert(names[2] == f[2].0);
    assert(names[3] == f[3].0);
    assert(names[4] == f[4].0);
    assert(names[5] == f[5].0);
    assert(names[6] == f[6].0);
    assert(names[7] == f[7].0);
    assert(names[8] == f[8].0);
    assert(names[9] == f[9].0);
    assert(names[10] == f[10].0);
    assert(names[11] == f[11].0);
    assert(names[12] == f[12].0);
    assert forall|k: Seq<char>| #[trigger] json::object(f).contains_key(k) <==> names.contains(k) by {
        if json::object(f).contains_key(k) {
            let i = choose|i: int| 0 <= i < f.len() && f[i].0 == k;
            assert(names[i] == k);
        }
        if names.contains(k) {
            let i = choose|i: int| 0 <= i < names.len() && names[i] == k;
            assert(f[i].0 == k);
        }
    }
}

} // verus!
