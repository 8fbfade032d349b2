//! The parts by themselves.

use runtime_gatekeeper::action::{event_line, Action, Event, Progress};
use runtime_gatekeeper::assess::sort_texts;
use runtime_gatekeeper::attribution::attribute;
use runtime_gatekeeper::config::{timeout, Config, Mode, Service};
use runtime_gatekeeper::denial::Denial;
use runtime_gatekeeper::depend::DependencyFault;
use runtime_gatekeeper::engine::Engine;
use runtime_gatekeeper::fresh::{fresh_runtime_id, fresh_token};
use runtime_gatekeeper::http::{
    answer_rpc, bearer, has_body, refuse, refuse_body, route, rpc_url, take_line, undelivered, Head,
    Line, Route,
};
use runtime_gatekeeper::ids::{IdMap, IdSet};
use runtime_gatekeeper::json::{field, object_of, text, Json};
use runtime_gatekeeper::model::{memory_gate, Class, Job, Owned, Process, Request, State};
use runtime_gatekeeper::path::paths_match;
use runtime_gatekeeper::platform::{
    admission_available_memory, listening_pids, macos_phys_footprint, measured_memory,
    process_memory_basis, Platform,
};
use runtime_gatekeeper::protocol::{accepts, called, error, rpc, rpc_body, tools, Rpc};
use runtime_gatekeeper::sight::{owned_listeners, Machine, Readings, Sight};
use runtime_gatekeeper::text::{lines_of, number, relation, trim, unsigned, Relation};
use runtime_gatekeeper::validate::ConfigError;
use serde_json::Value;
use std::collections::{BTreeMap, BTreeSet};

fn parsed(s: &str) -> Value {
    serde_json::from_str(s).unwrap()
}

fn strings(list: &[&str]) -> Vec<String> {
    list.iter().map(|s| s.to_string()).collect()
}

fn plain() -> Service {
    Service {
        mode: Mode::Managed,
        command: strings(&["/bin/true"]),
        cwd: None,
        match_executable: None,
        match_args: Vec::new(),
        port: None,
        memory_bytes: None,
        http_health_path: None,
        exclusive_group: None,
        requires: Vec::new(),
        disposable: false,
        allowed_actions: IdSet::new(),
        startup_timeout_ms: timeout(),
    }
}

fn watched() -> Service {
    Service { mode: Mode::Discovered, command: Vec::new(), ..plain() }
}

fn configured(list: Vec<(&str, Service)>) -> Config {
    let mut services = IdMap::new();
    for (id, s) in list {
        services.insert(id.to_string(), s);
    }
    Config { port: 47831, state_dir: ".runtime".to_string(), safety_margin_bytes: 0, services }
}

fn row(pid: u32, parent: Option<u32>, ram_bytes: u64) -> Process {
    Process {
        pid,
        parent,
        start_time: 1,
        name: format!("p{pid}"),
        executable: None,
        args: Vec::new(),
        ram_bytes,
        cpu_percent: Json::UInt(0),
        group: None,
        service: None,
        class: Class::Unknown,
    }
}

#[test]
fn deterministic_gate_boundaries() {
    assert_eq!(memory_gate(60, 100, 20, 20).status, "READY");
    let g = memory_gate(61, 100, 20, 20);
    assert_eq!((g.status, g.available, g.shortfall), ("BLOCKED_RESOURCE", 60, 1));
    assert_eq!(memory_gate(1, 1, 20, u64::MAX).shortfall, 1);
}

#[test]
fn reject_discovered_control() {
    let mut external = watched();
    external.command = strings(&["/bin/sleep", "10"]);
    let c = configured(vec![("external", external)]);
    assert!(c.validate(&Vec::new()).is_err());
}

#[test]
fn reports_a_non_empty_memory_basis() {
    assert!(!process_memory_basis(Platform::MacOs).is_empty());
    assert!(!process_memory_basis(Platform::Other).is_empty());
    assert_eq!(process_memory_basis(Platform::Other), "RSS");
    assert!(process_memory_basis(Platform::MacOs).starts_with("macOS phys_footprint"));
}

#[test]
fn admission_uses_only_free_pages_when_sysinfo_available_saturates() {
    let p = Platform::MacOs;
    assert_eq!(
        admission_available_memory(p, 0, 1_048_576),
        (1_048_576, "macos_free_pages_fallback")
    );
    assert_eq!(admission_available_memory(p, 0, 0), (0, "sysinfo_available"));
    assert_eq!(
        admission_available_memory(p, 2_097_152, 1_048_576),
        (2_097_152, "sysinfo_available")
    );
    let (zero, _) = admission_available_memory(p, 0, 0);
    assert_eq!(memory_gate(1, zero, 0, 0).status, "BLOCKED_RESOURCE");
    let (free_pages, _) = admission_available_memory(p, 0, 1_048_576);
    assert_eq!(memory_gate(1, free_pages, 1_048_576, 0).status, "BLOCKED_RESOURCE");
    assert_eq!(memory_gate(1_048_577, free_pages, 0, 0).status, "BLOCKED_RESOURCE");
}

#[test]
fn free_pages_stand_in_on_macos_only() {
    assert_eq!(admission_available_memory(Platform::Other, 0, 5), (0, "sysinfo_available"));
    assert_eq!(Platform::of("macos"), Platform::MacOs);
    assert_eq!(Platform::of("linux"), Platform::Other);
}

#[test]
fn footprint_is_read_from_its_place() {
    let mut usage = [0u8; 296];
    assert_eq!(macos_phys_footprint(0, &usage), None);
    usage[72..80].copy_from_slice(&0x0102_0304_0506_0708u64.to_le_bytes());
    usage[71] = 9;
    usage[80] = 9;
    assert_eq!(macos_phys_footprint(0, &usage), Some(0x0102_0304_0506_0708));
    assert_eq!(macos_phys_footprint(-1, &usage), None);
    assert_eq!(measured_memory(Some(7), 3), 7);
    assert_eq!(measured_memory(None, 3), 3);
}

#[test]
fn listeners_are_read_from_field_output() {
    let out = "p12\nn127.0.0.1:80\nn[::1]:80\nf3\np+7\r\nn*:443\npbad\nn*:22\np9\nn*:0x\nnnone\nn*:80\nn*:70000";
    let m = listening_pids(true, out.as_bytes().to_vec()).unwrap();
    let mut want: BTreeMap<u16, BTreeSet<u32>> = BTreeMap::new();
    want.insert(80, BTreeSet::from([9, 12]));
    want.insert(443, BTreeSet::from([7]));
    assert_eq!(m, want);
    assert_eq!(listening_pids(false, out.as_bytes().to_vec()), None);
    assert_eq!(listening_pids(true, vec![b'p', 0xff]), None);
    assert_eq!(listening_pids(true, Vec::new()), Some(BTreeMap::new()));
}

#[test]
fn lines_and_numbers_are_read_as_usual() {
    let lines: Vec<String> =
        lines_of("a\r\nb\n\nc\r").iter().map(|l| l.iter().collect()).collect();
    assert_eq!(lines, "a\r\nb\n\nc\r".lines().map(String::from).collect::<Vec<_>>());
    let n = |s: &str| unsigned(&s.chars().collect(), 0, 65535);
    for s in ["0", "7", "65535", "+5", "007", "", "+", "-1", "65536", "1a", "99999999999999999999", "++1"] {
        assert_eq!(n(s), s.parse::<u16>().ok().map(u64::from), "{s}");
    }
    assert_eq!(number(0), "0");
    assert_eq!(number(u64::MAX), u64::MAX.to_string());
    for s in ["", " ", "\u{3000}a b\n", "a", "\u{a0}"] {
        assert_eq!(trim(s), s.trim());
    }
    assert_eq!(relation("a", "b"), Relation::Before);
    assert_eq!(relation("a", "a"), Relation::Same);
    assert_eq!(relation("ab", "a"), Relation::After);
}

#[test]
fn paths_are_told_apart_by_their_components() {
    for (a, b) in [
        ("/a/b", "/a//b/"),
        ("/a/./b", "/a/b"),
        ("./a", "a"),
        ("a/.", "a"),
        ("/a", "a"),
        ("/a/b", "/a/c"),
        ("/", "//"),
        ("", "."),
    ] {
        assert_eq!(paths_match(a, b), std::path::Path::new(a) == std::path::Path::new(b), "{a} {b}");
    }
}

#[test]
fn texts_are_sorted_and_made_distinct() {
    assert_eq!(sort_texts(&strings(&["b", "a", "b", "A", ""])), strings(&["", "A", "a", "b"]));
}

#[test]
fn processes_inherit_from_their_parents() {
    let mut services = IdMap::new();
    let mut s = watched();
    s.match_executable = Some("/opt/tool".to_string());
    s.match_args = strings(&["serve"]);
    services.insert("tool".to_string(), s);
    let mut owned = IdMap::new();
    owned.insert("mine".to_string(), Owned { pid: 50, start_time: 1 });
    let mut root = row(10, None, 5);
    root.executable = Some("/opt//tool".to_string());
    root.args = strings(&["/opt/tool", "serve"]);
    let mut other = row(20, None, 7);
    other.executable = Some("/opt/tool".to_string());
    let mut member = row(51, Some(50), 1);
    member.group = Some(50);
    let rows = vec![row(12, Some(11), 9), row(11, Some(10), 5), root, other, member, row(52, Some(51), 1)];
    let out = attribute(&services, &owned, rows);
    let seen: Vec<(u32, Option<&str>, Class)> =
        out.iter().map(|p| (p.pid, p.service.as_deref(), p.class)).collect();
    assert_eq!(
        seen,
        vec![
            (12, Some("tool"), Class::Discovered),
            (20, None, Class::Unknown),
            (11, Some("tool"), Class::Discovered),
            (10, Some("tool"), Class::Discovered),
            (51, Some("mine"), Class::Managed),
            (52, Some("mine"), Class::Managed),
        ]
    );
}

#[test]
fn ambiguous_process_belongs_to_nobody() {
    let mut services = IdMap::new();
    for id in ["a", "b"] {
        let mut s = watched();
        s.match_executable = Some("/opt/tool".to_string());
        services.insert(id.to_string(), s);
    }
    let mut p = row(1, None, 1);
    p.executable = Some("/opt/tool".to_string());
    let out = attribute(&services, &IdMap::new(), vec![p]);
    assert_eq!(out[0].service, None);
    assert_eq!(out[0].class, Class::Unknown);
}

#[test]
fn every_fault_of_a_configuration_has_its_message() {
    let dirs = strings(&["/srv"]);
    let fault = |s: Service| {
        let e = configured(vec![("s", s)]).validate(&dirs).unwrap_err();
        e.message()
    };
    let mut c = configured(vec![]);
    c.port = 0;
    assert_eq!(c.validate(&dirs), Err(ConfigError::PortZero));
    assert_eq!(c.validate(&dirs).unwrap_err().message(), "port cannot be zero");
    assert_eq!(
        configured(vec![("a b", plain())]).validate(&dirs).unwrap_err().message(),
        "invalid service id"
    );
    assert_eq!(fault(Service { port: Some(47831), ..plain() }), "duplicate/invalid port: 47831");
    assert_eq!(fault(Service { port: Some(0), ..plain() }), "duplicate/invalid port: 0");
    assert_eq!(
        fault(Service { startup_timeout_ms: 99, ..plain() }),
        "startup timeout out of range"
    );
    let mut set = IdSet::new();
    set.insert("kill".to_string());
    assert_eq!(fault(Service { allowed_actions: set, ..plain() }), "unknown action");
    assert_eq!(
        fault(Service { command: Vec::new(), ..plain() }),
        "managed service s requires command"
    );
    assert_eq!(
        fault(Service { command: strings(&["true"]), ..plain() }),
        "command must be absolute or @self"
    );
    assert_eq!(
        fault(Service { disposable: true, ..watched() }),
        "discovered service s is read-only"
    );
    assert_eq!(
        fault(Service { cwd: Some("/nowhere".to_string()), ..plain() }),
        "cwd must be an existing absolute directory"
    );
    assert_eq!(
        fault(Service { match_executable: Some("tool".to_string()), ..plain() }),
        "match_executable must be absolute"
    );
    assert_eq!(
        fault(Service { http_health_path: Some("/x".to_string()), ..plain() }),
        "http_health_path requires a port and a single HTTP path"
    );
    assert_eq!(
        fault(Service { exclusive_group: Some("".to_string()), ..plain() }),
        "invalid exclusive_group for s"
    );
    assert_eq!(
        fault(Service { requires: strings(&["t"]), ..plain() }),
        "invalid dependency t for s"
    );
    let c = configured(vec![
        ("a", Service { requires: strings(&["b"]), ..plain() }),
        ("b", Service { requires: strings(&["a"]), ..plain() }),
    ]);
    assert_eq!(c.validate(&dirs).unwrap_err().message(), "service dependency cycle at a");
    let good = Service {
        cwd: Some("/srv".to_string()),
        command: strings(&["@self"]),
        port: Some(9),
        http_health_path: Some("/ok".to_string()),
        startup_timeout_ms: 60000,
        ..plain()
    };
    assert_eq!(configured(vec![("s", good)]).validate(&dirs), Ok(()));
}

#[test]
fn requirements_are_listed_all_the_way_down() {
    let c = configured(vec![
        ("a", Service { requires: strings(&["b", "c"]), ..plain() }),
        ("b", Service { requires: strings(&["c"]), ..plain() }),
        ("c", plain()),
        ("d", plain()),
    ]);
    assert_eq!(c.expand_requires(&strings(&["a"])), Ok(strings(&["a", "b", "c"])));
    assert_eq!(c.expand_requires(&strings(&["c", "b", "c"])), Ok(strings(&["b", "c"])));
    assert_eq!(c.expand_requires(&strings(&[])), Ok(strings(&[])));
    assert_eq!(
        c.expand_requires(&strings(&["d", "x"])),
        Err(DependencyFault::Unknown("x".to_string()))
    );
    assert_eq!(
        DependencyFault::Unknown("x".to_string()).message(),
        "unknown required service: x"
    );
    let again = c.expand_requires(&c.expand_requires(&strings(&["a"])).unwrap());
    assert_eq!(again, Ok(strings(&["a", "b", "c"])));
}

#[test]
fn restart_interrupts_ready_jobs_only() {
    let mut state = State::new();
    for (id, status) in [("a", "READY"), ("b", "RELEASED"), ("c", "BLOCKED_SERVICE")] {
        state.jobs.insert(
            id.to_string(),
            Job {
                runtime_id: format!("rt-{id}"),
                request: Request {
                    job_id: id.to_string(),
                    agent: "t".to_string(),
                    requires: strings(&["s"]),
                    memory_bytes: None,
                },
                status: status.to_string(),
                result: Json::Null,
            },
        );
    }
    let e = Engine::new(configured(vec![("s", plain())]), state, Vec::new()).unwrap();
    let seen: Vec<&str> = (0..3).map(|i| e.state.jobs.at(i).status.as_str()).collect();
    assert_eq!(seen, vec!["INTERRUPTED", "RELEASED", "BLOCKED_SERVICE"]);
    assert_eq!(
        e.state.jobs.at(0).result.copy().into_value()["reason"],
        "daemon restarted; verify external services and release old lease"
    );
    assert!(e.leased("s"));
    assert_eq!(e.leases("s").len(), 1);
    assert_eq!(e.fleet.owned().len(), 0);
    let mut bad = configured(vec![]);
    bad.port = 0;
    assert_eq!(Engine::new(bad, State::new(), Vec::new()), Err(ConfigError::PortZero));
}

#[test]
fn refresh_gives_up_what_is_gone() {
    let all = vec![("a", plain()), ("b", plain()), ("c", plain()), ("d", plain())];
    let mut e = Engine::new(configured(all), State::new(), Vec::new()).unwrap();
    for (id, pid) in [("a", 1), ("b", 2), ("c", 3), ("d", 4)] {
        e.fleet.own(id.to_string(), Owned { pid, start_time: 1 });
    }
    let mut changed = row(3, None, 1);
    changed.start_time = 2;
    let r = Readings {
        now_ms: 0,
        rows: vec![row(1, None, 1), row(2, None, 1), changed],
        exited: vec![2],
        open_ports: Vec::new(),
        answering: Vec::new(),
        listeners: None,
    };
    e.refresh(&r);
    assert_eq!(e.fleet.owned().len(), 1);
    assert!(e.fleet.owned().contains("a"));
}

#[test]
fn disowned_services_are_no_longer_owned() {
    let all = vec![("a", plain()), ("b", plain())];
    let mut e = Engine::new(configured(all), State::new(), Vec::new()).unwrap();
    e.fleet.own("b".to_string(), Owned { pid: 2, start_time: 1 });
    e.fleet.own("a".to_string(), Owned { pid: 1, start_time: 1 });
    e.fleet.own("b".to_string(), Owned { pid: 3, start_time: 4 });
    assert_eq!(e.fleet.owned().len(), 2);
    assert_eq!(e.fleet.owned().get("b"), Some(&Owned { pid: 3, start_time: 4 }));
    e.fleet.disown("b");
    e.fleet.disown("b");
    assert_eq!(e.fleet.owned().len(), 1);
    assert!(e.fleet.owned().contains("a"));
}

#[test]
fn status_after_a_look_adds_up() {
    let mut web = watched();
    web.match_executable = Some("/bin/web".to_string());
    let all = vec![("job", plain()), ("web", web)];
    let mut e = Engine::new(configured(all), State::new(), Vec::new()).unwrap();
    e.fleet.own("job".to_string(), Owned { pid: 10, start_time: 1 });
    e.fleet.own("web".to_string(), Owned { pid: 99, start_time: 1 });
    let mut leader = row(10, None, 100);
    leader.group = Some(10);
    let mut server = row(20, None, 300);
    server.executable = Some("/bin/web".to_string());
    let rows =
        vec![row(1, None, 7), leader, row(11, Some(10), 40), server, row(21, Some(20), 5)];
    let seen = e.observe(Readings {
        now_ms: 0,
        rows,
        exited: Vec::new(),
        open_ports: Vec::new(),
        answering: Vec::new(),
        listeners: None,
    });
    assert!(e.fleet.owned().contains("job"));
    assert!(!e.fleet.owned().contains("web"));
    let read: Vec<(u32, Option<&str>, Class)> =
        seen.rows.iter().map(|p| (p.pid, p.service.as_deref(), p.class)).collect();
    assert_eq!(
        read,
        vec![
            (20, Some("web"), Class::Discovered),
            (10, Some("job"), Class::Managed),
            (11, Some("job"), Class::Managed),
            (1, None, Class::Unknown),
            (21, Some("web"), Class::Discovered),
        ]
    );
    let machine = Machine {
        os: "linux".to_string(),
        arch: "x".to_string(),
        total: 1000,
        used: 500,
        available: 500,
        free: 500,
        swap_used: 0,
        swap_total: 0,
        cpu_percent: Json::UInt(0),
    };
    let sight = Sight::new(seen, machine, vec![Json::UInt(0), Json::UInt(0)]).unwrap();
    let v = e.status(&sight).into_value();
    assert_eq!(v["memory"]["process_total"], 452);
    assert_eq!(v["memory"]["unknown_process_ram"], 7);
    assert_eq!(v["memory"]["system_unaccounted"], 48);
    assert_eq!(v["services"][0]["ram_bytes"], 140);
    assert_eq!(v["services"][1]["ram_bytes"], 305);
}

#[test]
fn names_are_measured_in_characters() {
    let ask = |job_id: String| Request {
        job_id,
        agent: "t".to_string(),
        requires: strings(&["s"]),
        memory_bytes: None,
    };
    let e = Engine::new(configured(vec![("s", plain())]), State::new(), Vec::new()).unwrap();
    for fine in ["\u{4e16}".repeat(100), "\u{4e16}".repeat(128), "x".repeat(128)] {
        assert!(matches!(e.request(ask(fine)), Progress::Act(Action::Survey, _)));
    }
    for wrong in ["\u{4e16}".repeat(129), "x".repeat(129), " ".to_string(), String::new()] {
        match e.request(ask(wrong)) {
            Progress::Over(Err(d)) => assert_eq!(d, Denial::Names),
            _ => panic!("an error was due"),
        }
    }
}

#[test]
fn listeners_have_to_be_known_and_owned() {
    let mut mine = row(1, None, 1);
    mine.service = Some("s".to_string());
    let mut r = Readings {
        now_ms: 0,
        rows: vec![mine, row(2, None, 1)],
        exited: Vec::new(),
        open_ports: vec![80],
        answering: Vec::new(),
        listeners: None,
    };
    assert!(!owned_listeners(&r, 80, "s"));
    r.listeners = Some(BTreeMap::from([(80, BTreeSet::from([1]))]));
    assert!(owned_listeners(&r, 80, "s"));
    assert!(!owned_listeners(&r, 81, "s"));
    assert!(!owned_listeners(&r, 80, "t"));
    r.listeners = Some(BTreeMap::from([(80, BTreeSet::from([1, 2]))]));
    assert!(!owned_listeners(&r, 80, "s"));
    r.listeners = Some(BTreeMap::from([(80, BTreeSet::new())]));
    assert!(!owned_listeners(&r, 80, "s"));
}

#[test]
fn sight_needs_memory_that_fits() {
    let machine = || Machine {
        os: "macos".to_string(),
        arch: "aarch64".to_string(),
        total: 1,
        used: 1,
        available: 0,
        free: 4,
        swap_used: 0,
        swap_total: 0,
        cpu_percent: Json::Null,
    };
    let readings = |rows| Readings {
        now_ms: 0,
        rows,
        exited: Vec::new(),
        open_ports: Vec::new(),
        answering: Vec::new(),
        listeners: None,
    };
    assert!(Sight::new(readings(vec![row(1, None, u64::MAX)]), machine(), vec![]).is_some());
    assert!(
        Sight::new(readings(vec![row(1, None, u64::MAX), row(2, None, 1)]), machine(), vec![])
            .is_none()
    );
    let e = Engine::new(configured(vec![]), State::new(), Vec::new()).unwrap();
    let sight = Sight::new(readings(vec![]), machine(), vec![]).unwrap();
    assert_eq!(runtime_gatekeeper::gate::observed(&sight), 4);
    let (ready, reply) = e.gate(5, &e.views(&sight), 4);
    assert!(!ready);
    assert_eq!(reply.into_value()["shortfall"], 1);
}

#[test]
fn json_goes_to_and_fro() {
    let s = "{\"a\":[null,true,-3,18446744073709551615,1.5,\"x\\n\"],\"b\":{}}";
    let j = Json::read(s.as_bytes()).unwrap();
    assert_eq!(j.copy().write(), s);
    assert_eq!(j.copy().into_value(), parsed(s));
    assert_eq!(Json::from_value(parsed(s)).into_value(), parsed(s));
    assert!(Json::read(b"{").is_none());
    assert!(Json::read(b"").is_none());
    let mut o = object_of(vec![field("k", Json::UInt(1)), field("k", Json::UInt(2))]);
    assert_eq!(o.get("k"), Some(&Json::UInt(2)));
    o.put("k", text("v"));
    assert_eq!(o.copy().write(), "{\"k\":\"v\"}");
    let twice = object_of(vec![
        field("k", Json::UInt(1)),
        field("l", Json::Null),
        field("k", Json::UInt(2)),
    ]);
    assert_eq!(twice.copy().into_value(), parsed("{\"k\":2,\"l\":null}"));
    assert_eq!(twice.write(), "{\"k\":2,\"l\":null}");
    for whole in ["7", "-7", "18446744073709551615", "-9223372036854775808"] {
        assert!(!matches!(Json::from_value(parsed(whole)), Json::Decimal(_)));
    }
    for broken in ["1.5", "-0.25", "1e300", "18446744073709551616"] {
        let j = Json::read(broken.as_bytes()).unwrap();
        assert!(matches!(j, Json::Decimal(_)));
        assert_eq!(j.copy(), j);
        assert_eq!(j.into_value(), parsed(broken));
    }
    let mut n = Json::Null;
    n.put("k", Json::Bool(false));
    assert_eq!(n.write(), "{\"k\":false}");
    assert_eq!(
        event_line(7, "e", Json::Null),
        "{\"at\":7,\"detail\":null,\"event\":\"e\"}"
    );
}

#[test]
fn fresh_ids_are_random_uuids() {
    let t = fresh_token();
    assert_eq!(t.len(), 36);
    let parts: Vec<usize> = t.split('-').map(|p| p.len()).collect();
    assert_eq!(parts, vec![8, 4, 4, 4, 12]);
    assert_eq!(t.as_bytes()[14], b'4');
    assert!(b"89ab".contains(&t.as_bytes()[19]));
    assert!(t.bytes().all(|b| b == b'-' || b"0123456789abcdef".contains(&b)));
    assert!(fresh_runtime_id().starts_with("rt-"));
    assert_ne!(fresh_runtime_id(), fresh_runtime_id());
}

#[test]
fn stdio_protocol_and_http_security() {
    let first = "{\"jsonrpc\":\"2.0\",\"id\":1,\"method\":\"initialize\",\"params\":{\"protocolVersion\":\"2025-06-18\",\"capabilities\":{},\"clientInfo\":{\"name\":\"test\",\"version\":\"1\"}}}";
    let note = "{\"jsonrpc\":\"2.0\",\"method\":\"notifications/initialized\"}";
    let list = "{\"jsonrpc\":\"2.0\",\"id\":2,\"method\":\"tools/list\"}";
    let mut lines: Vec<Value> = Vec::new();
    for m in [first, note, list] {
        let message = match take_line(m.as_bytes()) {
            Line::Forward { message, owed } => {
                assert_eq!(owed, m != note);
                message
            }
            _ => panic!("the message was due"),
        };
        match rpc(&message) {
            Rpc::Answer(j) => lines.push(j.into_value()),
            Rpc::Silent => assert_eq!(answer_rpc(None).code, 204),
            Rpc::Call { .. } => panic!("nothing is called"),
        }
    }
    assert_eq!(lines.len(), 2);
    assert_eq!(lines[0]["result"]["protocolVersion"], "2025-06-18");
    assert_eq!(lines[1]["result"]["tools"].as_array().unwrap().len(), 11);
    let token = fresh_token();
    let head = |host: &str, origin: Option<&str>, auth: Option<String>| Head {
        method: "GET".to_string(),
        url: "/api/status".to_string(),
        host: Some(host.to_string()),
        origin: origin.map(String::from),
        authorization: auth,
        content_type: None,
    };
    let answered = |h: Head| match refuse(route(&h, 47831, &token)) {
        Some(r) => r.code,
        None => 200,
    };
    let auth = bearer(&format!("{token}\n"));
    assert_eq!(answered(head("127.0.0.1:47831", None, None)), 401);
    assert_eq!(
        answered(head("127.0.0.1:47831", Some("https://evil.example"), Some(auth.clone()))),
        403
    );
    assert_eq!(answered(head("evil.example", None, None)), 403);
    assert_eq!(answered(head("localhost:47831", Some("http://localhost:47831"), Some(auth))), 200);
    let forced = "{\"jsonrpc\":\"2.0\",\"id\":1,\"method\":\"tools/call\",\"params\":{\"name\":\"runtime.cleanup\",\"arguments\":{\"force\":true}}}";
    match rpc_body(forced.as_bytes()) {
        Rpc::Answer(j) => assert_eq!(j.into_value()["error"]["code"], -32602),
        _ => panic!("an error was due"),
    }
}

#[test]
fn messages_find_their_route() {
    let mut h = Head {
        method: "POST".to_string(),
        url: "/rpc".to_string(),
        host: Some("localhost:5".to_string()),
        origin: Some("http://127.0.0.1:5".to_string()),
        authorization: Some("Bearer t".to_string()),
        content_type: Some("application/json; charset=utf-8".to_string()),
    };
    assert_eq!(route(&h, 5, "t"), Route::Rpc);
    h.content_type = Some("text/plain".to_string());
    assert_eq!(refuse(route(&h, 5, "t")).unwrap().code, 415);
    h.content_type = None;
    assert_eq!(route(&h, 5, "t"), Route::NotJson);
    h.url = "/other".to_string();
    assert_eq!(refuse(route(&h, 5, "t")).unwrap().body, "Not found");
    h.authorization = None;
    h.method = "GET".to_string();
    h.url = "/".to_string();
    assert_eq!(route(&h, 5, "t"), Route::Dashboard);
    assert_eq!(refuse(Route::Dashboard), None);
    h.host = None;
    assert_eq!(route(&h, 5, "t"), Route::Forbidden);
    assert_eq!(refuse_body(&Some("x".repeat(1024 * 1024))), None);
    assert_eq!(refuse_body(&Some("x".repeat(1024 * 1024 + 1))).unwrap().code, 413);
    assert_eq!(refuse_body(&None).unwrap().body, "Body too large or invalid UTF-8");
    let a = answer_rpc(Some(Json::Null));
    assert_eq!((a.code, a.kind, a.body.as_str()), (200, "application/json", "null"));
}

#[test]
fn bridge_takes_lines() {
    assert_eq!(take_line(b""), Line::End);
    assert_eq!(take_line(&vec![b' '; 1024 * 1024 + 1]), Line::TooLong);
    match take_line(b"nonsense\n") {
        Line::Say(s) => assert_eq!(
            parsed(&s),
            parsed("{\"jsonrpc\":\"2.0\",\"id\":null,\"error\":{\"code\":-32700,\"message\":\"Parse error\"}}")
        ),
        _ => panic!("an answer was due"),
    }
    assert_eq!(rpc_url(47831), "http://127.0.0.1:47831/rpc");
    assert_eq!(bearer(" tok\n"), "Bearer tok");
    assert!(!has_body(204));
    assert!(has_body(200));
    assert_eq!(undelivered(false, "x"), Ok(()));
    assert_eq!(undelivered(true, "x"), Err("daemon transport failed: x".to_string()));
}

#[test]
fn protocol_answers_each_kind_of_message() {
    let ask = |s: &str| match rpc_body(s.as_bytes()) {
        Rpc::Answer(j) => j.into_value(),
        other => panic!("{other:?}"),
    };
    assert_eq!(ask("[")["error"]["code"], -32700);
    assert_eq!(ask("[]")["error"]["code"], -32600);
    assert_eq!(ask("{\"id\":5,\"method\":\"ping\"}")["id"], 5);
    assert_eq!(ask("{\"jsonrpc\":\"2.0\",\"id\":5,\"method\":7}")["error"]["message"], "Invalid Request");
    assert_eq!(
        ask("{\"jsonrpc\":\"2.0\",\"id\":null,\"method\":\"ping\"}"),
        parsed("{\"jsonrpc\":\"2.0\",\"id\":null,\"result\":{}}")
    );
    assert_eq!(ask("{\"jsonrpc\":\"2.0\",\"id\":5,\"method\":\"x\"}")["error"]["code"], -32601);
    assert_eq!(
        ask("{\"jsonrpc\":\"2.0\",\"id\":5,\"method\":\"tools/call\"}")["error"]["message"],
        "Unknown tool"
    );
    for (asked, said) in [
        ("\"2024-11-05\"", "2024-11-05"),
        ("\"2025-11-25\"", "2025-11-25"),
        ("\"1999-01-01\"", "2025-06-18"),
        ("3", "2025-06-18"),
    ] {
        let m = format!(
            "{{\"jsonrpc\":\"2.0\",\"id\":5,\"method\":\"initialize\",\"params\":{{\"protocolVersion\":{asked}}}}}"
        );
        assert_eq!(ask(&m)["result"]["protocolVersion"], said);
    }
    let call = "{\"jsonrpc\":\"2.0\",\"id\":5,\"method\":\"tools/call\",\"params\":{\"name\":\"runtime.status\"}}";
    match rpc_body(call.as_bytes()) {
        Rpc::Call { id, name, args } => {
            assert_eq!(id, Json::UInt(5));
            assert_eq!(name, "runtime.status");
            assert_eq!(args.write(), "{}");
        }
        other => panic!("{other:?}"),
    }
    let o = |s: &str| Json::read(s.as_bytes()).unwrap();
    assert!(accepts("runtime.release", &o("{\"runtime_id\":\"x\"}")));
    assert!(!accepts("runtime.release", &o("{}")));
    assert!(!accepts("runtime.release", &o("{\"runtime_id\":\"x\",\"more\":1}")));
    assert!(!accepts("runtime.status", &o("null")));
    assert!(accepts("runtime.request", &o("{\"job_id\":1,\"agent\":2,\"requires\":3,\"memory_bytes\":4}")));
    assert!(!accepts("runtime.request", &o("{\"job_id\":1,\"agent\":2}")));
}

#[test]
fn tools_are_listed_with_their_schemas() {
    let t = tools().into_value();
    let names: Vec<&str> =
        t.as_array().unwrap().iter().map(|x| x["name"].as_str().unwrap()).collect();
    assert_eq!(
        names,
        vec![
            "runtime.status",
            "runtime.request",
            "runtime.release",
            "services.list",
            "services.get",
            "services.start",
            "services.stop",
            "services.restart",
            "jobs.list",
            "jobs.get",
            "runtime.cleanup",
        ]
    );
    assert_eq!(
        t[1]["inputSchema"],
        parsed("{\"type\":\"object\",\"properties\":{\"job_id\":{\"type\":\"string\",\"minLength\":1,\"maxLength\":128},\"agent\":{\"type\":\"string\",\"minLength\":1,\"maxLength\":128},\"requires\":{\"type\":\"array\",\"items\":{\"type\":\"string\"},\"minItems\":1},\"memory_bytes\":{\"type\":\"integer\",\"minimum\":0,\"description\":\"Additional job memory beyond service startup estimates, in bytes\"}},\"required\":[\"job_id\",\"agent\",\"requires\"],\"additionalProperties\":false}")
    );
    assert_eq!(t[4]["annotations"], parsed("{\"readOnlyHint\":true,\"openWorldHint\":false}"));
    assert_eq!(t[5]["annotations"]["readOnlyHint"], false);
    assert_eq!(t[10]["inputSchema"]["properties"], parsed("{}"));
    assert_eq!(
        error(Json::UInt(1), -5, "m").into_value(),
        parsed("{\"jsonrpc\":\"2.0\",\"id\":1,\"error\":{\"code\":-5,\"message\":\"m\"}}")
    );
    assert_eq!(
        called(Json::UInt(1), Ok(Json::UInt(2))).into_value(),
        parsed("{\"jsonrpc\":\"2.0\",\"id\":1,\"result\":{\"content\":[{\"type\":\"text\",\"text\":\"2\"}],\"structuredContent\":2,\"isError\":false}}")
    );
    assert_eq!(
        called(Json::UInt(1), Err(Denial::UnknownJob)).into_value(),
        parsed("{\"jsonrpc\":\"2.0\",\"id\":1,\"result\":{\"content\":[{\"type\":\"text\",\"text\":\"unknown job\"}],\"isError\":true}}")
    );
}

#[test]
fn start_that_goes_wrong_says_how() {
    let mut allowed = IdSet::new();
    allowed.insert("start".to_string());
    let mut e = Engine::new(
        configured(vec![("s", Service { allowed_actions: allowed, ..plain() })]),
        State::new(),
        Vec::new(),
    )
    .unwrap();
    let readings = |rows| Readings {
        now_ms: 10,
        rows,
        exited: Vec::new(),
        open_ports: Vec::new(),
        answering: Vec::new(),
        listeners: None,
    };
    let wrong = |p: Progress<_, ()>| match p {
        Progress::Over(Err(d)) => Denial::message(&d),
        Progress::Over(Ok(())) => "ok".to_string(),
        Progress::Act(_, _) => "more".to_string(),
    };
    let to = |e: &mut Engine, events: Vec<_>| {
        let mut p = e.start("s");
        for ev in events {
            p = match p {
                Progress::Act(_, t) => e.start_step(t, ev),
                over => over,
            };
        }
        p
    };
    let seen = |rows| Event::Seen(readings(rows));
    let p = to(&mut e, vec![seen(vec![]), Event::Failed("no log".to_string())]);
    assert_eq!(wrong(p), "no log");
    let p = to(&mut e, vec![seen(vec![]), Event::Done, Event::Done, Event::Failed("x".to_string())]);
    assert_eq!(wrong(p), "service spawn failed");
    let p = to(
        &mut e,
        vec![seen(vec![]), Event::Done, Event::Done, Event::Spawned(9), seen(vec![]), Event::Done],
    );
    assert_eq!(wrong(p), "service exited before ownership registration");
    assert!(!e.storage_failed);
    let p = to(&mut e, vec![seen(vec![]), Event::Done, Event::Failed("disk".to_string())]);
    assert_eq!(wrong(p), "disk");
    assert!(e.storage_failed);
    let p = to(
        &mut e,
        vec![seen(vec![]), Event::Done, Event::Done, Event::Spawned(9), seen(vec![row(9, None, 1)])],
    );
    assert_eq!(wrong(p), "more");
    assert!(e.fleet.owned().contains("s"));
    let p = to(&mut e, vec![seen(vec![row(9, None, 1)])]);
    assert_eq!(wrong(p), "ok");
    match e.start("t") {
        Progress::Over(Err(d)) => assert_eq!(d, Denial::UnknownService),
        _ => panic!("an error was due"),
    }
    assert_eq!(e.launch("s").unwrap().program, Some("/bin/true".to_string()));
    assert_eq!(e.launch("t"), None);
}

#[test]
fn stop_that_goes_wrong_says_how() {
    use_stop(vec![row(9, None, 1)], vec![], "ownership group mismatch");
    let mut leader = row(9, None, 1);
    leader.group = Some(9);
    let again = || {
        let mut p = row(9, None, 1);
        p.group = Some(9);
        p
    };
    use_stop(
        vec![leader],
        vec![Event::Done, Event::Failed("ESRCH".to_string())],
        "SIGTERM failed",
    );
    use_stop(vec![again()], vec![Event::Failed("disk".to_string())], "disk");
    let late = |now_ms: u64| {
        Event::Seen(Readings {
            now_ms,
            rows: vec![again()],
            exited: Vec::new(),
            open_ports: Vec::new(),
            answering: Vec::new(),
            listeners: None,
        })
    };
    use_stop(
        vec![again()],
        vec![
            Event::Done,
            Event::Sent(0),
            late(1999),
            late(2000),
            late(2000),
            Event::Done,
            late(2100),
        ],
        "STOP_INCOMPLETE: inspect remaining processes",
    );
}

fn use_stop(
    first: Vec<Process>,
    events: Vec<runtime_gatekeeper::action::Happening>,
    want: &str,
) {
    let mut e = Engine::new(configured(vec![("s", plain())]), State::new(), Vec::new()).unwrap();
    e.fleet.own("s".to_string(), Owned { pid: 9, start_time: 1 });
    let mut p = runtime_gatekeeper::stop::stop_owned("s");
    let mut all = vec![Event::Seen(Readings {
        now_ms: 0,
        rows: first,
        exited: Vec::new(),
        open_ports: Vec::new(),
        answering: Vec::new(),
        listeners: None,
    })];
    all.extend(events);
    for ev in all {
        p = match p {
            Progress::Act(a, t) => {
                assert!(a != Action::Kill { pid: 8 });
                e.stop_step(t, ev)
            }
            over => over,
        };
    }
    match p {
        Progress::Over(Err(d)) => assert_eq!(d.message(), want),
        other => panic!("{other:?}"),
    }
    assert!(e.fleet.owned().contains("s"));
}

#[test]
fn denials_have_their_messages() {
    assert_eq!(Denial::HealthTimeout(Some("x".to_string())).message(), "HEALTH_TIMEOUT: rollback result Err(x)");
    assert_eq!(Denial::HealthTimeout(None).message(), "HEALTH_TIMEOUT: rollback result Ok(())");
    assert_eq!(Denial::Missing("k".to_string()).message(), "missing k");
    assert_eq!(
        Denial::JobConflict.message(),
        "JOB_CONFLICT: job_id already used with different request"
    );
    assert_eq!(
        Denial::Requires(DependencyFault::Cycle("c".to_string())).message(),
        "service dependency cycle at c"
    );
}
