//! Whole calls, played through on a machine that only exists in these tests.

use runtime_gatekeeper::action::{Action, Event, Happening, Progress};
use runtime_gatekeeper::config::{Config, Mode, Service};
use runtime_gatekeeper::engine::Engine;
use runtime_gatekeeper::ids::{IdMap, IdSet};
use runtime_gatekeeper::json::Json;
use runtime_gatekeeper::model::{Class, Process, Request, State};
use runtime_gatekeeper::protocol::{called, rpc, Rpc};
use runtime_gatekeeper::sight::{Machine, Readings, Sight};
use serde_json::Value;

const DEMO_PORT: u16 = 47991;
const EXTERNAL_PORT: u16 = 47992;
const SLOW_PORT: u16 = 47993;

fn value(text: &str) -> Value {
    serde_json::from_str(text).unwrap()
}

fn json(text: &str) -> Json {
    Json::read(text.as_bytes()).unwrap()
}

fn actions(list: &[&str]) -> IdSet {
    let mut set = IdSet::new();
    for a in list {
        set.insert(a.to_string());
    }
    set
}

fn service(mode: Mode, command: &[&str], port: Option<u16>, allowed: &[&str]) -> Service {
    Service {
        mode,
        command: command.iter().map(|s| s.to_string()).collect(),
        cwd: None,
        match_executable: None,
        match_args: Vec::new(),
        port,
        memory_bytes: None,
        http_health_path: None,
        exclusive_group: None,
        requires: Vec::new(),
        disposable: false,
        allowed_actions: actions(allowed),
        startup_timeout_ms: 5000,
    }
}

fn config() -> Config {
    let mut services = IdMap::new();
    let mut demo = service(
        Mode::Managed,
        &["@self", "fixture", "47991"],
        Some(DEMO_PORT),
        &["start", "stop", "restart"],
    );
    demo.memory_bytes = Some(1048576);
    demo.disposable = true;
    services.insert("demo".to_string(), demo);
    services.insert(
        "external".to_string(),
        service(Mode::Discovered, &[], Some(EXTERNAL_PORT), &[]),
    );
    let mut slow = service(Mode::Managed, &["/bin/sleep", "30"], Some(SLOW_PORT), &["start", "stop"]);
    slow.startup_timeout_ms = 100;
    services.insert("slow".to_string(), slow);
    services.insert(
        "fail".to_string(),
        service(Mode::Managed, &["/usr/bin/false"], None, &["start", "stop"]),
    );
    Config { port: 47831, state_dir: "/state".to_string(), safety_margin_bytes: 0, services }
}

struct Child {
    service: String,
    pid: u32,
    start_time: u64,
    ports: Vec<u16>,
    alive: bool,
    stubborn: bool,
}

struct World {
    engine: Engine,
    now: u64,
    next_pid: u32,
    children: Vec<Child>,
    foreign: Vec<Process>,
    external_ports: Vec<u16>,
    available: u64,
    storage_broken: bool,
    break_after: Option<&'static str>,
    stubborn: bool,
    records: Vec<(String, Value)>,
    signals: Vec<String>,
}

impl World {
    fn with(config: Config, state: State) -> World {
        World {
            engine: Engine::new(config, state, Vec::new()).unwrap(),
            now: 1000,
            next_pid: 500,
            children: Vec::new(),
            foreign: Vec::new(),
            external_ports: Vec::new(),
            available: 8 << 30,
            storage_broken: false,
            break_after: None,
            stubborn: false,
            records: Vec::new(),
            signals: Vec::new(),
        }
    }

    fn new() -> World {
        World::with(config(), State::new())
    }

    fn process(&self, c: &Child) -> Process {
        Process {
            pid: c.pid,
            parent: Some(1),
            start_time: c.start_time,
            name: c.service.clone(),
            executable: None,
            args: Vec::new(),
            ram_bytes: 4096,
            cpu_percent: Json::UInt(0),
            group: Some(c.pid),
            service: None,
            class: Class::Unknown,
        }
    }

    fn readings(&self) -> Readings {
        let mut rows: Vec<Process> =
            self.children.iter().filter(|c| c.alive).map(|c| self.process(c)).collect();
        for p in &self.foreign {
            rows.push(copy(p));
        }
        let mut open_ports = self.external_ports.clone();
        for c in self.children.iter().filter(|c| c.alive) {
            open_ports.extend(&c.ports);
        }
        Readings {
            now_ms: self.now,
            rows,
            exited: self.children.iter().filter(|c| !c.alive).map(|c| c.pid).collect(),
            answering: open_ports.clone(),
            open_ports,
            listeners: None,
        }
    }

    fn machine(&self) -> Machine {
        Machine {
            os: "linux".to_string(),
            arch: "x86_64".to_string(),
            total: 16 << 30,
            used: 4 << 30,
            available: self.available,
            free: 0,
            swap_used: 0,
            swap_total: 0,
            cpu_percent: Json::UInt(3),
        }
    }

    fn perform(&mut self, a: Action<String, Json>) -> Happening {
        match a {
            Action::Look => Event::Seen(self.readings()),
            Action::Pause => {
                self.now += 100;
                Event::Seen(self.readings())
            }
            Action::Survey => {
                let r = self.readings();
                let r = self.engine.observe(r);
                Event::Surveyed(Sight::new(r, self.machine(), Vec::new()).unwrap())
            }
            Action::Decode(v) => decode(&v),
            Action::Record { event, detail } => {
                if self.storage_broken {
                    return Event::Failed("Is a directory (os error 21)".to_string());
                }
                if self.break_after == Some(event.as_str()) {
                    self.storage_broken = true;
                }
                self.records.push((event, detail.into_value()));
                Event::Done
            }
            Action::Prepare { .. } => Event::Done,
            Action::Spawn { service } => {
                let launch = self.engine.launch(&service).unwrap();
                assert_eq!(launch.log, format!("{service}.log"));
                self.next_pid += 1;
                let ports = if service == "demo" { vec![DEMO_PORT] } else { vec![] };
                self.children.push(Child {
                    service: service.clone(),
                    pid: self.next_pid,
                    start_time: self.now,
                    ports,
                    alive: true,
                    stubborn: self.stubborn,
                });
                Event::Spawned(self.next_pid)
            }
            Action::Discard { pid } => {
                self.signals.push(format!("discard {pid}"));
                Event::Done
            }
            Action::Terminate { group } => {
                self.signals.push(format!("terminate {group}"));
                for c in self.children.iter_mut().filter(|c| c.pid == group && !c.stubborn) {
                    c.alive = false;
                }
                Event::Sent(self.now)
            }
            Action::Kill { pid } => {
                self.signals.push(format!("kill {pid}"));
                for c in self.children.iter_mut().filter(|c| c.pid == pid) {
                    c.alive = false;
                }
                Event::Done
            }
        }
    }

    fn rpc(&mut self, name: &str, args: &str) -> Value {
        let message = json(&format!(
            "{{\"jsonrpc\":\"2.0\",\"id\":1,\"method\":\"tools/call\",\"params\":{{\"name\":\"{name}\",\"arguments\":{args}}}}}"
        ));
        match rpc(&message) {
            Rpc::Silent => panic!("no answer"),
            Rpc::Answer(j) => j.into_value(),
            Rpc::Call { id, name, args } => {
                let mut p = self.engine.call(&name, args);
                loop {
                    match p {
                        Progress::Over(r) => return called(id, r).into_value(),
                        Progress::Act(a, t) => {
                            // A program that fails does so before it is looked at again.
                            let pausing = a == Action::Pause;
                            if pausing {
                                for c in self.children.iter_mut().filter(|c| c.service == "fail") {
                                    c.alive = false;
                                }
                            }
                            let ev = self.perform(a);
                            p = self.engine.resume(t, ev);
                        }
                    }
                }
            }
        }
    }

    fn call(&mut self, name: &str, args: &str) -> Value {
        let v = self.rpc(name, args);
        assert_eq!(v["result"]["isError"], false, "{v}");
        v["result"]["structuredContent"].clone()
    }

    fn request(&mut self, id: &str) -> Value {
        self.call(
            "runtime.request",
            &format!("{{\"job_id\":\"{id}\",\"agent\":\"test\",\"requires\":[\"demo\"]}}"),
        )
    }

    fn release(&mut self, lease: &Value) -> Value {
        let id = lease["runtime_id"].as_str().unwrap().to_string();
        self.call("runtime.release", &format!("{{\"runtime_id\":\"{id}\"}}"))
    }

    fn alive(&self, service: &str) -> usize {
        self.children.iter().filter(|c| c.alive && c.service == service).count()
    }

    fn recorded(&self, event: &str) -> usize {
        self.records.iter().filter(|r| r.0 == event).count()
    }
}

fn copy(p: &Process) -> Process {
    Process {
        pid: p.pid,
        parent: p.parent,
        start_time: p.start_time,
        name: p.name.clone(),
        executable: p.executable.clone(),
        args: p.args.clone(),
        ram_bytes: p.ram_bytes,
        cpu_percent: p.cpu_percent.copy(),
        group: p.group,
        service: None,
        class: Class::Unknown,
    }
}

fn decode(v: &Json) -> Happening {
    let text = |key: &str| v.get(key).and_then(|x| x.as_text()).cloned();
    let list: Option<Vec<String>> = match v.get("requires") {
        Some(Json::List(items)) => items.iter().map(|x| x.as_text().cloned()).collect(),
        _ => None,
    };
    let memory_bytes = match v.get("memory_bytes") {
        Some(Json::UInt(n)) => Some(*n),
        _ => None,
    };
    match (text("job_id"), text("agent"), list) {
        (Some(job_id), Some(agent), Some(requires)) => {
            Event::Decoded(Request { job_id, agent, requires, memory_bytes })
        }
        _ => Event::Failed("invalid request".to_string()),
    }
}

#[test]
fn lifecycle_shared_leases_and_blocked_resources() {
    let mut h = World::new();
    let blocked = h.call(
        "runtime.request",
        &format!(
            "{{\"job_id\":\"huge\",\"agent\":\"test\",\"requires\":[\"demo\"],\"memory_bytes\":{}}}",
            u64::MAX - 1048576
        ),
    );
    assert_eq!(blocked["status"], "BLOCKED_RESOURCE");
    assert!(blocked["shortfall"].as_u64().unwrap() > 0);
    assert_eq!(h.alive("demo"), 0);
    let one = h.request("one");
    assert_eq!(one["status"], "READY");
    assert_eq!(h.request("one")["runtime_id"], one["runtime_id"]);
    let two = h.request("two");
    assert_eq!(two["status"], "READY");
    let service = h.call("services.get", "{\"service_id\":\"demo\"}");
    assert_eq!(service["class"], "managed");
    assert_eq!(service["leases"].as_array().unwrap().len(), 2);
    assert!(!service["processes"].as_array().unwrap().is_empty());
    for action in ["services.stop", "services.restart"] {
        assert_eq!(h.rpc(action, "{\"service_id\":\"demo\"}")["result"]["isError"], true);
    }
    h.release(&one);
    assert!(h.call("runtime.cleanup", "{}")["results"].as_array().unwrap().is_empty());
    h.release(&two);
    h.call("services.restart", "{\"service_id\":\"demo\"}");
    let result = h.call("runtime.cleanup", "{}");
    assert_eq!(result["results"][0]["result"], "stopped");
    assert_eq!(h.alive("demo"), 0);
    assert_eq!(h.rpc("services.restart", "{\"service_id\":\"external\"}")["result"]["isError"], true);
    assert_eq!(h.recorded("service_started"), 2);
    assert_eq!(h.recorded("service_stopped"), 2);
}

#[test]
fn external_listener_is_never_adopted_or_stopped() {
    let mut h = World::new();
    h.external_ports.push(DEMO_PORT);
    let v = h.call("services.get", "{\"service_id\":\"demo\"}");
    assert_eq!(v["class"], "discovered");
    assert_eq!(h.rpc("services.start", "{\"service_id\":\"demo\"}")["result"]["isError"], true);
    assert_eq!(h.rpc("services.stop", "{\"service_id\":\"demo\"}")["result"]["isError"], true);
    h.call("runtime.cleanup", "{}");
    assert!(h.signals.is_empty());
    assert!(h.children.is_empty());
}

#[test]
fn failure_rolls_back_new_services_and_does_not_lease() {
    let mut h = World::new();
    let v = h.call(
        "runtime.request",
        "{\"job_id\":\"failure\",\"agent\":\"test\",\"requires\":[\"demo\",\"fail\"]}",
    );
    assert_eq!(v["status"], "BLOCKED_SERVICE");
    assert_eq!(v["service"], "fail");
    assert_eq!(v["reason"], "START_FAILED: service exited (see service log)");
    assert_eq!(v["rollback"][0]["result"], "stopped");
    assert_eq!(v["rollback"][0]["service"], "demo");
    assert_eq!(h.alive("demo"), 0);
    assert_eq!(h.call("services.get", "{\"service_id\":\"demo\"}")["leases"], value("[]"));
}

#[test]
fn restart_preserves_leases_without_adopting_processes() {
    let mut h = World::new();
    h.external_ports.push(DEMO_PORT);
    let lease = h.request("existing");
    assert_eq!(lease["status"], "READY");
    let state = std::mem::replace(&mut h.engine.state, State::new());
    let mut h = World::with(config(), state);
    h.external_ports.push(DEMO_PORT);
    assert_eq!(h.call("jobs.get", "{\"job_id\":\"existing\"}")["status"], "INTERRUPTED");
    assert_eq!(h.request("existing")["status"], "BLOCKED_SERVICE");
    assert_eq!(h.call("services.get", "{\"service_id\":\"demo\"}")["class"], "discovered");
    assert_eq!(h.rpc("services.stop", "{\"service_id\":\"demo\"}")["result"]["isError"], true);
    h.release(&lease);
    assert!(h.call("runtime.cleanup", "{}")["results"].as_array().unwrap().is_empty());
}

#[test]
fn unhealthy_start_rolls_back_and_job_id_cannot_change() {
    let mut h = World::new();
    assert_eq!(h.request("same")["status"], "READY");
    assert_eq!(
        h.rpc(
            "runtime.request",
            "{\"job_id\":\"same\",\"agent\":\"other\",\"requires\":[\"demo\"]}"
        )["result"]["isError"],
        true
    );
    let lease = h.call("jobs.get", "{\"job_id\":\"same\"}");
    h.release(&lease);
    h.call("runtime.cleanup", "{}");
    let failed = h.call(
        "runtime.request",
        "{\"job_id\":\"timeout\",\"agent\":\"test\",\"requires\":[\"slow\"]}",
    );
    assert_eq!(failed["status"], "BLOCKED_SERVICE");
    assert!(failed["reason"].as_str().unwrap().contains("HEALTH_TIMEOUT"));
    assert_eq!(failed["reason"], "HEALTH_TIMEOUT: rollback result Ok(())");
    assert_eq!(h.call("services.get", "{\"service_id\":\"slow\"}")["state"], "stopped");
}

#[test]
fn storage_failure_disables_mutations() {
    let mut h = World::new();
    h.external_ports.push(DEMO_PORT);
    h.storage_broken = true;
    assert_eq!(
        h.rpc(
            "runtime.request",
            "{\"job_id\":\"storage\",\"agent\":\"test\",\"requires\":[\"demo\"]}"
        )["result"]["isError"],
        true
    );
    assert_eq!(h.call("runtime.status", "{}")["storage_failed"], true);
    let denied = h.rpc("runtime.cleanup", "{}");
    assert_eq!(denied["result"]["isError"], true);
    assert!(denied["result"]["content"][0]["text"].as_str().unwrap().contains("STORAGE_FAILED"));
}

#[test]
fn concurrent_requests_start_once_and_failed_batch_preserves_shared_service() {
    let mut h = World::new();
    let results = vec![h.request("parallel-a"), h.request("parallel-b")];
    assert!(results.iter().all(|v| v["status"] == "READY"));
    assert_eq!(h.recorded("service_started"), 1);
    let failed = h.call(
        "runtime.request",
        "{\"job_id\":\"batch\",\"agent\":\"test\",\"requires\":[\"demo\",\"fail\"]}",
    );
    assert_eq!(failed["status"], "BLOCKED_SERVICE");
    assert_eq!(h.call("services.get", "{\"service_id\":\"demo\"}")["state"], "running");
    for r in &results {
        h.release(r);
        h.release(r);
    }
    h.call("runtime.cleanup", "{}");
    assert_eq!(h.alive("demo"), 0);
}

#[test]
fn process_exit_is_not_reported_ready_on_retry() {
    let mut h = World::new();
    let lease = h.request("exit");
    let service = h.call("services.get", "{\"service_id\":\"demo\"}");
    assert_eq!(service["processes"][0]["pid"], h.children[0].pid);
    h.children[0].alive = false;
    assert_eq!(h.request("exit")["status"], "BLOCKED_SERVICE");
    assert_eq!(
        h.call("services.get", "{\"service_id\":\"demo\"}")["leases"].as_array().unwrap().len(),
        1
    );
    h.release(&lease);
}

#[test]
fn rollback_write_failure_keeps_survivor_visible_and_disables_control() {
    let mut h = World::new();
    h.break_after = Some("service_started");
    let reply = h.rpc(
        "runtime.request",
        "{\"job_id\":\"rollback-fault\",\"agent\":\"test\",\"requires\":[\"demo\",\"slow\"]}",
    );
    assert_eq!(reply["result"]["isError"], true);
    let status = h.call("runtime.status", "{}");
    assert_eq!(status["storage_failed"], true);
    let job = h.call("jobs.get", "{\"job_id\":\"rollback-fault\"}");
    assert_eq!(job["status"], "BLOCKED_SERVICE");
    assert!(
        job["result"]["rollback"].as_array().unwrap().iter().any(|r| r["result"] != "stopped")
    );
    assert_eq!(h.rpc("runtime.cleanup", "{}")["result"]["isError"], true);
    let demo = status["services"]
        .as_array()
        .unwrap()
        .iter()
        .find(|s| s["id"] == "demo")
        .unwrap();
    assert_eq!(demo["class"], "managed");
    assert_eq!(demo["processes"].as_array().unwrap().len(), 1);
}

#[test]
fn stop_kills_what_ignores_the_request_to_end() {
    let mut h = World::new();
    h.stubborn = true;
    assert_eq!(h.call("services.start", "{\"service_id\":\"demo\"}")["status"], "OK");
    let began = h.now;
    let v = h.call("services.stop", "{\"service_id\":\"demo\"}");
    assert_eq!(v, value("{\"status\":\"OK\",\"service_id\":\"demo\",\"action\":\"stop\"}"));
    assert!(h.now - began >= 2000);
    let pid = h.children[0].pid;
    assert_eq!(h.signals, vec![format!("terminate {pid}"), format!("kill {pid}")]);
    let (event, detail) = h.records.last().unwrap();
    assert_eq!(event, "service_stopped");
    assert_eq!(*detail, value("{\"service\":\"demo\",\"escalated\":true}"));
    let (_, intent) = &h.records[h.records.len() - 2];
    assert_eq!(intent["members"][0][0], pid);
}

#[test]
fn kill_is_withheld_from_a_process_that_took_over_the_number() {
    let mut h = World::new();
    h.stubborn = true;
    h.call("services.start", "{\"service_id\":\"demo\"}");
    let pid = h.children[0].pid;
    let mut p = h.engine.call("services.stop", json("{\"service_id\":\"demo\"}"));
    let mut changed = false;
    let reply = loop {
        match p {
            Progress::Over(r) => break r,
            Progress::Act(a, t) => {
                assert!(!matches!(a, Action::Kill { .. }));
                let terminated = matches!(a, Action::Terminate { .. });
                let ev = h.perform(a);
                if terminated && !changed {
                    changed = true;
                    // The number is used by another process from now on.
                    h.children[0].start_time += 7;
                }
                p = h.engine.resume(t, ev);
            }
        }
    };
    assert!(reply.is_ok());
    assert_eq!(h.signals, vec![format!("terminate {pid}")]);
    assert!(!h.engine.fleet.owned().contains("demo"));
}

#[test]
fn stop_is_refused_without_ownership() {
    let mut h = World::new();
    let v = h.rpc("services.stop", "{\"service_id\":\"demo\"}");
    assert_eq!(
        v["result"]["content"][0]["text"],
        "NOT_OWNED: no live child handle; discovered processes are read-only"
    );
    let v = h.rpc("services.stop", "{\"service_id\":\"external\"}");
    assert_eq!(
        v["result"]["content"][0]["text"],
        "CONTROL_DENIED: action not allowed for managed service"
    );
    let v = h.rpc("services.restart", "{\"service_id\":\"slow\"}");
    assert_eq!(
        v["result"]["content"][0]["text"],
        "CONTROL_DENIED: action not allowed for managed service"
    );
    let v = h.rpc("services.stop", "{\"service_id\":\"nothing\"}");
    assert_eq!(v["result"]["content"][0]["text"], "unknown service");
}

#[test]
fn start_is_refused_where_something_stands_in_its_place() {
    let mut h = World::new();
    h.external_ports.push(DEMO_PORT);
    let v = h.rpc("services.start", "{\"service_id\":\"demo\"}");
    assert_eq!(v["result"]["content"][0]["text"], "PORT_CONFLICT: listener already exists");

    let mut c = config();
    let mut watched = service(Mode::Managed, &["/opt/tool"], None, &["start", "stop"]);
    watched.match_executable = Some("/opt/tool".to_string());
    watched.match_args = vec!["--serve".to_string()];
    c.services.insert("watched".to_string(), watched);
    let mut h = World::with(c, State::new());
    h.foreign.push(Process {
        pid: 77,
        parent: None,
        start_time: 5,
        name: "tool".to_string(),
        executable: Some("/opt/tool".to_string()),
        args: vec!["/opt/tool".to_string(), "--serve".to_string()],
        ram_bytes: 10,
        cpu_percent: Json::UInt(0),
        group: Some(70),
        service: None,
        class: Class::Unknown,
    });
    let v = h.rpc("services.start", "{\"service_id\":\"watched\"}");
    assert_eq!(
        v["result"]["content"][0]["text"],
        "EXTERNAL_SERVICE: refusing to adopt or duplicate discovered process"
    );
    assert!(h.children.is_empty());
}

#[test]
fn requests_are_checked_before_anything_is_looked_at() {
    let mut h = World::new();
    let mut refused = |args: &str| {
        h.rpc("runtime.request", args)["result"]["content"][0]["text"].as_str().unwrap().to_string()
    };
    assert_eq!(
        refused("{\"job_id\":\" \",\"agent\":\"a\",\"requires\":[\"demo\"]}"),
        "job_id and agent must be 1..128 characters"
    );
    let long = "x".repeat(129);
    assert_eq!(
        refused(&format!("{{\"job_id\":\"a\",\"agent\":\"{long}\",\"requires\":[\"demo\"]}}")),
        "job_id and agent must be 1..128 characters"
    );
    assert_eq!(
        refused("{\"job_id\":\"a\",\"agent\":\"a\",\"requires\":[]}"),
        "requires cannot be empty"
    );
    assert_eq!(
        refused("{\"job_id\":\"bad\",\"agent\":\"t\",\"requires\":[\"missing\"]}"),
        "unknown required service: missing"
    );
    assert_eq!(
        refused(&format!(
            "{{\"job_id\":\"a\",\"agent\":\"a\",\"requires\":[\"demo\"],\"memory_bytes\":{}}}",
            u64::MAX
        )),
        "memory requirement overflow"
    );
    let long = "x".repeat(128);
    let v = h.call(
        "runtime.request",
        &format!("{{\"job_id\":\"{long}\",\"agent\":\"a\",\"requires\":[\"demo\",\"demo\"]}}"),
    );
    assert_eq!(v["status"], "READY");
    assert_eq!(v["memory_assurance"], "unknown");
    assert!(v["runtime_id"].as_str().unwrap().starts_with("rt-"));
    assert_eq!(v["runtime_id"].as_str().unwrap().len(), 39);
    let job = h.call("jobs.get", &format!("{{\"job_id\":\"{long}\"}}"));
    assert_eq!(job["request"]["requires"], value("[\"demo\"]"));
}

#[test]
fn released_job_stays_closed_and_blocked_job_can_be_retried() {
    let mut h = World::new();
    let lease = h.request("once");
    let note = h.release(&lease);
    assert_eq!(
        note["note"],
        "services retained; runtime.cleanup stops idle disposable services"
    );
    assert_eq!(h.alive("demo"), 1);
    let v = h.rpc(
        "runtime.request",
        "{\"job_id\":\"once\",\"agent\":\"test\",\"requires\":[\"demo\"]}",
    );
    assert_eq!(v["result"]["content"][0]["text"], "JOB_CLOSED: use a new job_id");
    h.available = 0;
    let blocked = h.call(
        "runtime.request",
        "{\"job_id\":\"later\",\"agent\":\"test\",\"requires\":[\"demo\"],\"memory_bytes\":1}",
    );
    assert_eq!(blocked["status"], "BLOCKED_RESOURCE");
    assert_eq!(blocked["resource"], "memory");
    h.available = 8 << 30;
    let ready = h.call(
        "runtime.request",
        "{\"job_id\":\"later\",\"agent\":\"test\",\"requires\":[\"demo\"],\"memory_bytes\":1}",
    );
    assert_eq!(ready["status"], "READY");
    assert_eq!(ready["runtime_id"], blocked["runtime_id"]);
    let v = h.rpc("runtime.release", "{\"runtime_id\":\"rt-none\"}");
    assert_eq!(v["result"]["content"][0]["text"], "unknown runtime_id");
    let v = h.rpc("runtime.release", "{\"runtime_id\":\"\"}");
    assert_eq!(v["result"]["content"][0]["text"], "missing runtime_id");
    let v = h.rpc("jobs.get", "{\"job_id\":\"none\"}");
    assert_eq!(v["result"]["content"][0]["text"], "unknown job");
}

#[test]
fn memory_of_jobs_and_growth_of_services_are_held_back() {
    let mut h = World::new();
    h.available = 10 * 1048576;
    let one = h.call(
        "runtime.request",
        "{\"job_id\":\"one\",\"agent\":\"t\",\"requires\":[\"demo\"],\"memory_bytes\":3145728}",
    );
    assert_eq!(one["status"], "READY");
    assert_eq!(one["required"], 4 * 1048576);
    assert_eq!(one["available"], 10 * 1048576);
    let two = h.call(
        "runtime.request",
        "{\"job_id\":\"two\",\"agent\":\"t\",\"requires\":[\"demo\"],\"memory_bytes\":7340032}",
    );
    // Three mebibytes of the first job, and what the service may still grow by.
    let outstanding = 3 * 1048576 + (1048576 - 4096);
    assert_eq!(two["status"], "BLOCKED_RESOURCE");
    assert_eq!(two["outstanding_estimates"], outstanding);
    assert_eq!(two["available"], 10 * 1048576 - outstanding);
    assert_eq!(two["shortfall"], 7340032 - (10 * 1048576 - outstanding));
    assert_eq!(two["protected"][0]["id"], "demo");
    assert_eq!(two["reclaimable"], value("[]"));
    h.release(&one);
    let three = h.call(
        "runtime.request",
        "{\"job_id\":\"three\",\"agent\":\"t\",\"requires\":[\"demo\"],\"memory_bytes\":99999999}",
    );
    assert_eq!(three["outstanding_estimates"], 1048576 - 4096);
    assert_eq!(three["reclaimable"][0]["id"], "demo");
    assert_eq!(three["protected"], value("[]"));
}

#[test]
fn dependencies_are_started_and_leased_with_the_service() {
    let mut c = config();
    let mut top = service(Mode::Managed, &["/bin/top"], None, &["start", "stop"]);
    top.requires = vec!["demo".to_string()];
    c.services.insert("top".to_string(), top);
    let mut h = World::with(c, State::new());
    let v = h.call(
        "runtime.request",
        "{\"job_id\":\"j\",\"agent\":\"t\",\"requires\":[\"top\"],\"memory_bytes\":0}",
    );
    assert_eq!(v["status"], "READY");
    assert_eq!(v.get("memory_assurance"), None);
    assert_eq!(h.alive("demo"), 1);
    assert_eq!(h.alive("top"), 1);
    let denied = h.rpc("services.stop", "{\"service_id\":\"demo\"}");
    assert_eq!(
        denied["result"]["content"][0]["text"],
        "PROTECTED: service has active or interrupted leases"
    );
    assert_eq!(h.call("runtime.cleanup", "{}")["results"], value("[]"));
    let v = h.call(
        "runtime.request",
        "{\"job_id\":\"k\",\"agent\":\"t\",\"requires\":[\"top\",\"external\"]}",
    );
    assert_eq!(v["status"], "BLOCKED_SERVICE");
    assert_eq!(v["unavailable"], value("[\"external\"]"));
    assert_eq!(v["expanded_requires"], value("[\"demo\",\"external\",\"top\"]"));
}

#[test]
fn one_job_at_a_time_holds_an_exclusive_group() {
    let mut c = config();
    for id in ["heavy-a", "heavy-b"] {
        let mut s = service(Mode::Managed, &["/bin/heavy"], None, &["start", "stop"]);
        s.exclusive_group = Some("gpu".to_string());
        c.services.insert(id.to_string(), s);
    }
    let mut h = World::with(c, State::new());
    let first = h.call(
        "runtime.request",
        "{\"job_id\":\"a\",\"agent\":\"t\",\"requires\":[\"heavy-a\"]}",
    );
    assert_eq!(first["status"], "READY");
    let second = h.call(
        "runtime.request",
        "{\"job_id\":\"b\",\"agent\":\"t\",\"requires\":[\"heavy-b\"]}",
    );
    assert_eq!(second["status"], "BLOCKED_RESOURCE");
    assert_eq!(second["resource"], "exclusive_group");
    assert_eq!(second["protected"][0]["job_id"], "a");
    assert_eq!(h.alive("heavy-b"), 0);
    h.release(&first);
    let again = h.call(
        "runtime.request",
        "{\"job_id\":\"b\",\"agent\":\"t\",\"requires\":[\"heavy-b\"]}",
    );
    assert_eq!(again["status"], "READY");
}

#[test]
fn status_tells_memory_and_unknown_processes() {
    let mut h = World::new();
    h.request("one");
    h.foreign.push(Process {
        pid: 9,
        parent: None,
        start_time: 1,
        name: "stranger".to_string(),
        executable: None,
        args: Vec::new(),
        ram_bytes: 1000,
        cpu_percent: Json::UInt(0),
        group: None,
        service: None,
        class: Class::Unknown,
    });
    let s = h.call("runtime.status", "{}");
    assert_eq!(s["name"], "Runtime Gatekeeper");
    assert_eq!(s["platform"], "linux");
    assert_eq!(s["arch"], "x86_64");
    assert_eq!(s["cpu_percent"], 3);
    assert_eq!(s["memory"]["process_total"], 5096);
    assert_eq!(s["memory"]["unknown_process_ram"], 1000);
    assert_eq!(s["memory"]["system_unaccounted"], (4u64 << 30) - 5096);
    assert_eq!(s["unknown"].as_array().unwrap().len(), 1);
    assert_eq!(s["unknown"][0]["name"], "stranger");
    assert_eq!(s["unknown"][0].get("args"), None);
    assert_eq!(s["jobs"].as_array().unwrap().len(), 1);
    assert_eq!(s["services"].as_array().unwrap().len(), 4);
    let of_services: u64 =
        s["services"].as_array().unwrap().iter().map(|v| v["ram_bytes"].as_u64().unwrap()).sum();
    assert_eq!(of_services, 4096);
    assert_eq!(s["memory"]["process_total"], of_services + 1000);
    let listed = h.call("services.list", "{}");
    assert_eq!(listed["services"], s["services"]);
    let jobs = h.call("jobs.list", "{}");
    assert_eq!(jobs["jobs"], s["jobs"]);
}

#[test]
fn events_out_of_turn_change_nothing() {
    let mut h = World::new();
    let p = h.engine.call("runtime.cleanup", json("{}"));
    let t = match p {
        Progress::Act(Action::Look, t) => t,
        _ => panic!("a look was due"),
    };
    match h.engine.resume(t, Event::Done) {
        Progress::Over(Err(d)) => assert_eq!(d.message(), "event out of turn"),
        _ => panic!("an error was due"),
    }
    match h.engine.call("no.such.tool", json("{}")) {
        Progress::Over(Err(d)) => assert_eq!(d.message(), "unknown tool: no.such.tool"),
        _ => panic!("an error was due"),
    }
}

#[test]
fn service_with_a_health_path_has_to_answer() {
    let mut c = config();
    let mut s = service(Mode::Discovered, &[], Some(47999), &[]);
    s.http_health_path = Some("/health".to_string());
    c.services.insert("web".to_string(), s);
    let mut h = World::with(c, State::new());
    h.external_ports.push(47999);
    assert_eq!(h.call("services.get", "{\"service_id\":\"web\"}")["state"], "running");
    let mut r = h.readings();
    r.answering = Vec::new();
    let r = h.engine.observe(r);
    let sight = Sight::new(r, h.machine(), Vec::new()).unwrap();
    let views = h.engine.views(&sight);
    let web = views.iter().find(|v| v.id == "web").unwrap().show().into_value();
    assert_eq!(web["state"], "unhealthy");
    assert_eq!(web["healthy"], false);
    assert_eq!(web["class"], "discovered");
}

#[test]
fn reply_is_what_the_job_keeps() {
    let mut h = World::new();
    let ready = h.request("one");
    let job = h.call("jobs.get", "{\"job_id\":\"one\"}");
    assert_eq!(job["result"], ready);
    assert_eq!(job["status"], ready["status"]);
    assert_eq!(job["runtime_id"], ready["runtime_id"]);
    let failed = h.call(
        "runtime.request",
        "{\"job_id\":\"two\",\"agent\":\"t\",\"requires\":[\"fail\"]}",
    );
    assert_eq!(failed["rollback"], value("[]"));
    let job = h.call("jobs.get", "{\"job_id\":\"two\"}");
    assert_eq!(job["result"], failed);
    assert_eq!(job["status"], "BLOCKED_SERVICE");
}

#[test]
fn cleanup_goes_through_all_idle_disposable_services() {
    let mut c = config();
    for id in ["a", "b", "kept", "held"] {
        let mut s = service(Mode::Managed, &["/bin/x"], None, &["start", "stop"]);
        s.disposable = id != "kept";
        c.services.insert(id.to_string(), s);
    }
    let mut h = World::with(c, State::new());
    for id in ["b", "a", "kept"] {
        h.call("services.start", &format!("{{\"service_id\":\"{id}\"}}"));
    }
    h.call(
        "runtime.request",
        "{\"job_id\":\"j\",\"agent\":\"t\",\"requires\":[\"held\"]}",
    );
    assert_eq!(
        h.call("runtime.cleanup", "{}"),
        value("{\"results\":[{\"service\":\"a\",\"result\":\"stopped\"},{\"service\":\"b\",\"result\":\"stopped\"}]}")
    );
    assert_eq!(h.alive("kept"), 1);
    assert_eq!(h.alive("held"), 1);
}

#[test]
fn rollback_stops_the_last_started_first() {
    let mut c = config();
    for id in ["a", "b"] {
        c.services.insert(
            id.to_string(),
            service(Mode::Managed, &["/bin/x"], None, &["start", "stop"]),
        );
    }
    let mut h = World::with(c, State::new());
    let v = h.call(
        "runtime.request",
        "{\"job_id\":\"j\",\"agent\":\"t\",\"requires\":[\"fail\",\"b\",\"a\"]}",
    );
    assert_eq!(v["service"], "fail");
    assert_eq!(
        v["rollback"],
        value("[{\"service\":\"b\",\"result\":\"stopped\"},{\"service\":\"a\",\"result\":\"stopped\"}]")
    );
    assert_eq!(h.alive("a") + h.alive("b"), 0);
}
