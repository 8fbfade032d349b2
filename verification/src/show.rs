//! How the records look as JSON.

use vstd::prelude::*;
use crate::config::Mode;
use crate::ids::IdMap;
use crate::json;
use crate::json::{field, list_of, object_of, opt_number, opt_text, text, text_list, Json, JsonModel};
use crate::model::{Class, Job, JobModel, Jobs, Process, ProcessModel, Request, RequestModel};

verus! {

pub open spec fn mode_text(mode: Mode) -> Seq<char> {
    match mode {
        Mode::Managed => "managed"@,
        Mode::Discovered => "discovered"@,
    }
}

pub fn mode_name(mode: Mode) -> (s: &'static str)
    ensures
        s@ == mode_text(mode),
{
    match mode {
        Mode::Managed => "managed",
        Mode::Discovered => "discovered",
    }
}

/// The fields of an object.
pub type Fields = Seq<(Seq<char>, JsonModel)>;

/// An object of the given fields.
pub open spec fn object(f: Fields) -> JsonModel {
    JsonModel::Object(json::object(f))
}

/// A process, without its arguments and its group.
pub open spec fn process_fields(p: ProcessModel) -> Fields {
    seq![
        ("pid"@, JsonModel::Integer(p.pid as int)),
        (
            "parent"@,
            json::opt_number_model(
                match p.parent {
                    Some(n) => Some(n as int),
                    None => None,
                },
            ),
        ),
        ("start_time"@, JsonModel::Integer(p.start_time as int)),
        ("name"@, JsonModel::Text(p.name)),
        ("executable"@, json::opt_text_model(p.executable)),
        ("ram_bytes"@, JsonModel::Integer(p.ram_bytes as int)),
        ("cpu_percent"@, p.cpu_percent),
        ("service"@, json::opt_text_model(p.service)),
        ("class"@, JsonModel::Text(p.class.text())),
    ]
}

pub fn show_process(p: &Process) -> (j: Json)
    ensures
        j@ == object(process_fields(p@)),
{
    let f = vec![
        field("pid", Json::UInt(p.pid as u64)),
        field(
            "parent",
            opt_number(
                match p.parent {
                    Some(n) => Some(n as u64),
                    None => None,
                },
            ),
        ),
        field("start_time", Json::UInt(p.start_time)),
        field("name", text(p.name.as_str())),
        field("executable", opt_text(&p.executable)),
        field("ram_bytes", Json::UInt(p.ram_bytes)),
        field("cpu_percent", p.cpu_percent.copy()),
        field("service", opt_text(&p.service)),
        field("class", text(p.class.name())),
    ];
    assert(json::fields(f@) =~= process_fields(p@));
    object_of(f)
}

/// The processes of a table, as a list.
pub open spec fn process_list(rows: Seq<ProcessModel>) -> Seq<JsonModel> {
    rows.map_values(|p: ProcessModel| object(process_fields(p)))
}

pub open spec fn request_fields(r: RequestModel) -> Fields {
    seq![
        ("job_id"@, JsonModel::Text(r.job_id)),
        ("agent"@, JsonModel::Text(r.agent)),
        ("requires"@, JsonModel::List(json::texts_model(r.requires))),
        (
            "memory_bytes"@,
            json::opt_number_model(
                match r.memory_bytes {
                    Some(n) => Some(n as int),
                    None => None,
                },
            ),
        ),
    ]
}

pub fn show_request(r: &Request) -> (j: Json)
    ensures
        j@ == object(request_fields(r@)),
{
    let f = vec![
        field("job_id", text(r.job_id.as_str())),
        field("agent", text(r.agent.as_str())),
        field("requires", text_list(&r.requires)),
        field("memory_bytes", opt_number(r.memory_bytes)),
    ];
    assert(json::fields(f@) =~= request_fields(r@));
    object_of(f)
}

pub open spec fn job_fields(j: JobModel) -> Fields {
    seq![
        ("runtime_id"@, JsonModel::Text(j.runtime_id)),
        ("request"@, object(request_fields(j.request))),
        ("status"@, JsonModel::Text(j.status)),
        ("result"@, j.result),
    ]
}

pub fn show_job(j: &Job) -> (r: Json)
    ensures
        r@ == object(job_fields(j@)),
{
    let f = vec![
        field("runtime_id", text(j.runtime_id.as_str())),
        field("request", show_request(&j.request)),
        field("status", text(j.status.as_str())),
        field("result", j.result.copy()),
    ];
    assert(json::fields(f@) =~= job_fields(j@));
    object_of(f)
}

/// The jobs, as a list in the order of their ids.
pub open spec fn job_list(jobs: Jobs) -> JsonModel {
    JsonModel::List(jobs.map_values(|e: (Seq<char>, JobModel)| object(job_fields(e.1))))
}

pub fn show_jobs(jobs: &IdMap<Job>) -> (r: Json)
    ensures
        r@ == job_list(jobs@),
{
    let ghost want = jobs@.map_values(|e: (Seq<char>, JobModel)| object(job_fields(e.1)));
    let n: usize = jobs.len();
    let mut out: Vec<Json> = Vec::new();
    let mut i: usize = 0;
    while i < n
        invariant
            i <= n == jobs@.len(),
            out@.len() == i,
            want == jobs@.map_values(|e: (Seq<char>, JobModel)| object(job_fields(e.1))),
            json::models(out@) == want.take(i as int),
        decreases n - i,
    {
        out.push(show_job(jobs.at(i)));
        assert(json::models(out@) =~= want.take(i + 1));
        i += 1;
    }
    assert(json::models(out@) =~= want);
    list_of(out)
}

/// A job's hold on a service.
pub open spec fn lease_fields(j: JobModel) -> Fields {
    seq![
        ("runtime_id"@, JsonModel::Text(j.runtime_id)),
        ("job_id"@, JsonModel::Text(j.request.job_id)),
        ("agent"@, JsonModel::Text(j.request.agent)),
        ("status"@, JsonModel::Text(j.status)),
    ]
}

pub fn show_lease(j: &Job) -> (r: Json)
    ensures
        r@ == object(lease_fields(j@)),
{
    let f = vec![
        field("runtime_id", text(j.runtime_id.as_str())),
        field("job_id", text(j.request.job_id.as_str())),
        field("agent", text(j.request.agent.as_str())),
        field("status", text(j.status.as_str())),
    ];
    assert(json::fields(f@) =~= lease_fields(j@));
    object_of(f)
}

/// A process is shown with its number, parent, start, name, executable, memory, load,
/// service and class, and with nothing else: its arguments are not shown.
pub proof fn law_process_is_shown(p: ProcessModel)
    ensures
        ({
            let m = json::object(process_fields(p));
            &&& m.contains_pair(
                "pid"@,
                JsonModel::Integer(p.pid as int),
            )
            &&& m.contains_pair(
                "parent"@,
                match p.parent {
                    Some(n) => JsonModel::Integer(n as int),
                    None => JsonModel::Null,
                },
            )
            &&& m.contains_pair(
                "start_time"@,
                JsonModel::Integer(p.start_time as int),
            )
            &&& m.contains_pair(
                "name"@,
                JsonModel::Text(p.name),
            )
            &&& m.contains_pair(
                "executable"@,
                match p.executable {
                    Some(s) => JsonModel::Text(s),
                    None => JsonModel::Null,
                },
            )
            &&& m.contains_pair(
                "ram_bytes"@,
                JsonModel::Integer(p.ram_bytes as int),
            )
            &&& m.contains_pair(
                "cpu_percent"@,
                p.cpu_percent,
            )
            &&& m.contains_pair(
                "service"@,
                match p.service {
                    Some(s) => JsonModel::Text(s),
                    None => JsonModel::Null,
                },
            )
            &&& m.contains_pair(
                "class"@,
                match p.class {
                    Class::Managed => JsonModel::Text("managed"@),
                    Class::Discovered => JsonModel::Text("discovered"@),
                    Class::Unknown => JsonModel::Text("unknown"@),
                },
            )
            &&& forall|k: Seq<char>| #[trigger] m.contains_key(k) <==> seq!["pid"@, "parent"@, "start_time"@, "name"@, "executable"@, "ram_bytes"@, "cpu_percent"@, "service"@, "class"@].contains(k)
        }),
{
    let f = process_fields(p);
    reveal_strlit("pid");
    reveal_strlit("parent");
    reveal_strlit("start_time");
    reveal_strlit("name");
    reveal_strlit("executable");
    reveal_strlit("ram_bytes");
    reveal_strlit("cpu_percent");
    reveal_strlit("service");
    reveal_strlit("class");
    assert("start_time"@[0] != "executable"@[0]);
    assert(f.len() == 9);
    assert(f[0].0 == "pid"@ && f[0].0.len() == 3);
    assert(f[1].0 == "parent"@ && f[1].0.len() == 6);
    assert(f[2].0 == "start_time"@ && f[2].0.len() == 10);
    assert(f[3].0 == "name"@ && f[3].0.len() == 4);
    assert(f[4].0 == "executable"@ && f[4].0.len() == 10);
    assert(f[5].0 == "ram_bytes"@ && f[5].0.len() == 9);
    assert(f[6].0 == "cpu_percent"@ && f[6].0.len() == 11);
    assert(f[7].0 == "service"@ && f[7].0.len() == 7);
    assert(f[8].0 == "class"@ && f[8].0.len() == 5);
    assert(json::distinct(f));
    json::lemma_object(f);
    assert(json::object(f).contains_pair(f[0].0, f[0].1));
    assert(json::object(f).contains_pair(f[1].0, f[1].1));
    assert(json::object(f).contains_pair(f[2].0, f[2].1));
    assert(json::object(f).contains_pair(f[3].0, f[3].1));
    assert(json::object(f).contains_pair(f[4].0, f[4].1));
    assert(json::object(f).contains_pair(f[5].0, f[5].1));
    assert(json::object(f).contains_pair(f[6].0, f[6].1));
    assert(json::object(f).contains_pair(f[7].0, f[7].1));
    assert(json::object(f).contains_pair(f[8].0, f[8].1));
    let names = seq!["pid"@, "parent"@, "start_time"@, "name"@, "executable"@, "ram_bytes"@, "cpu_percent"@, "service"@, "class"@];
    assert(names[0] == f[0].0);
    assert(names[1] == f[1].0);
    assert(names[2] == f[2].0);
    assert(names[3] == f[3].0);
    assert(names[4] == f[4].0);
    assert(names[5] == f[5].0);
    assert(names[6] == f[6].0);
    assert(names[7] == f[7].0);
    assert(names[8] == f[8].0);
    assert forall|k: Seq<char>| #[trigger] json::object(f).contains_key(k) <==> names.contains(k) by {
        if json::object(f).contains_key(k) {
            let i = choose|i: int| 0 <= i < f.len() && f[i].0 == k;
            assert(names[i] == k);
        }
        if names.contains(k) {
            let i = choose|i: int| 0 <= i < names.len() && names[i] == k;
            assert(f[i].0 == k);
        }
    }
}

/// A request is shown as it was made.
pub proof fn law_request_is_shown(r: RequestModel)
    ensures
        ({
            let m = json::object(request_fields(r));
            &&& m.contains_pair(
                "job_id"@,
                JsonModel::Text(r.job_id),
            )
            &&& m.contains_pair(
                "agent"@,
                JsonModel::Text(r.agent),
            )
            &&& m.contains_pair(
                "requires"@,
                JsonModel::List(r.requires.map_values(|s: Seq<char>| JsonModel::Text(s))),
            )
            &&& m.contains_pair(
                "memory_bytes"@,
                match r.memory_bytes {
                    Some(n) => JsonModel::Integer(n as int),
                    None => JsonModel::Null,
                },
            )
            &&& forall|k: Seq<char>| #[trigger] m.contains_key(k) <==> seq!["job_id"@, "agent"@, "requires"@, "memory_bytes"@].contains(k)
        }),
{
    let f = request_fields(r);
    reveal_strlit("job_id");
    reveal_strlit("agent");
    reveal_strlit("requires");
    reveal_strlit("memory_bytes");
    assert(f.len() == 4);
    assert(f[0].0 == "job_id"@ && f[0].0.len() == 6);
    assert(f[1].0 == "agent"@ && f[1].0.len() == 5);
    assert(f[2].0 == "requires"@ && f[2].0.len() == 8);
    assert(f[3].0 == "memory_bytes"@ && f[3].0.len() == 12);
    assert(json::distinct(f));
    json::lemma_object(f);
    assert(json::object(f).contains_pair(f[0].0, f[0].1));
    assert(json::object(f).contains_pair(f[1].0, f[1].1));
    assert(json::object(f).contains_pair(f[2].0, f[2].1));
    assert(json::object(f).contains_pair(f[3].0, f[3].1));
    let names = seq!["job_id"@, "agent"@, "requires"@, "memory_bytes"@];
    assert(names[0] == f[0].0);
    assert(names[1] == f[1].0);
    assert(names[2] == f[2].0);
    assert(names[3] == f[3].0);
    assert forall|k: Seq<char>| #[trigger] json::object(f).contains_key(k) <==> names.contains(k) by {
        if json::object(f).contains_key(k) {
            let i = choose|i: int| 0 <= i < f.len() && f[i].0 == k;
            assert(names[i] == k);
        }
        if names.contains(k) {
            let i = choose|i: int| 0 <= i < names.len() && names[i] == k;
            assert(f[i].0 == k);
        }
    }
}

/// A job is shown with its lease, its request, its status and its result.
pub proof fn law_job_is_shown(j: JobModel)
    ensures
        ({
            let m = json::object(job_fields(j));
            &&& m.contains_pair(
                "runtime_id"@,
                JsonModel::Text(j.runtime_id),
            )
            &&& m.contains_pair(
                "request"@,
                JsonModel::Object(json::object(request_fields(j.request))),
            )
            &&& m.contains_pair(
                "status"@,
                JsonModel::Text(j.status),
            )
            &&& m.contains_pair(
                "result"@,
                j.result,
            )
            &&& forall|k: Seq<char>| #[trigger] m.contains_key(k) <==> seq!["runtime_id"@, "request"@, "status"@, "result"@].contains(k)
        }),
{
    let f = job_fields(j);
    reveal_strlit("runtime_id");
    reveal_strlit("request");
    reveal_strlit("status");
    reveal_strlit("result");
    assert("status"@[0] != "result"@[0]);
    assert(f.len() == 4);
    assert(f[0].0 == "runtime_id"@ && f[0].0.len() == 10);
    assert(f[1].0 == "request"@ && f[1].0.len() == 7);
    assert(f[2].0 == "status"@ && f[2].0.len() == 6);
    assert(f[3].0 == "result"@ && f[3].0.len() == 6);
    assert(json::distinct(f));
    json::lemma_object(f);
    assert(json::object(f).contains_pair(f[0].0, f[0].1));
    assert(json::object(f).contains_pair(f[1].0, f[1].1));
    assert(json::object(f).contains_pair(f[2].0, f[2].1));
    assert(json::object(f).contains_pair(f[3].0, f[3].1));
    let names = seq!["runtime_id"@, "request"@, "status"@, "result"@];
    assert(names[0] == f[0].0);
    assert(names[1] == f[1].0);
    assert(names[2] == f[2].0);
    assert(names[3] == f[3].0);
    assert forall|k: Seq<char>| #[trigger] json::object(f).contains_key(k) <==> names.contains(k) by {
        if json::object(f).contains_key(k) {
            let i = choose|i: int| 0 <= i < f.len() && f[i].0 == k;
            assert(names[i] == k);
        }
        if names.contains(k) {
            let i = choose|i: int| 0 <= i < names.len() && names[i] == k;
            assert(f[i].0 == k);
        }
    }
}

/// A lease is shown with the job that holds it: lease, job, agent and status.
pub proof fn law_lease_is_shown(j: JobModel)
    ensures
        ({
            let m = json::object(lease_fields(j));
            &&& m.contains_pair(
                "runtime_id"@,
                JsonModel::Text(j.runtime_id),
            )
            &&& m.contains_pair(
                "job_id"@,
                JsonModel::Text(j.request.job_id),
            )
            &&& m.contains_pair(
                "agent"@,
                JsonModel::Text(j.request.agent),
            )
            &&& m.contains_pair(
                "status"@,
                JsonModel::Text(j.status),
            )
            &&& forall|k: Seq<char>| #[trigger] m.contains_key(k) <==> seq!["runtime_id"@, "job_id"@, "agent"@, "status"@].contains(k)
        }),
{
    let f = lease_fields(j);
    reveal_strlit("runtime_id");
    reveal_strlit("job_id");
    reveal_strlit("agent");
    reveal_strlit("status");
    assert("job_id"@[0] != "status"@[0]);
    assert(f.len() == 4);
    assert(f[0].0 == "runtime_id"@ && f[0].0.len() == 10);
    assert(f[1].0 == "job_id"@ && f[1].0.len() == 6);
    assert(f[2].0 == "agent"@ && f[2].0.len() == 5);
    assert(f[3].0 == "status"@ && f[3].0.len() == 6);
    assert(json::distinct(f));
    json::lemma_object(f);
    assert(json::object(f).contains_pair(f[0].0, f[0].1));
    assert(json::object(f).contains_pair(f[1].0, f[1].1));
    assert(json::object(f).contains_pair(f[2].0, f[2].1));
    assert(json::object(f).contains_pair(f[3].0, f[3].1));
    let names = seq!["runtime_id"@, "job_id"@, "agent"@, "status"@];
    assert(names[0] == f[0].0);
    assert(names[1] == f[1].0);
    assert(names[2] == f[2].0);
    assert(names[3] == f[3].0);
    assert forall|k: Seq<char>| #[trigger] json::object(f).contains_key(k) <==> names.contains(k) by {
        if json::object(f).contains_key(k) {
            let i = choose|i: int| 0 <= i < f.len() && f[i].0 == k;
            assert(names[i] == k);
        }
        if names.contains(k) {
            let i = choose|i: int| 0 <= i < names.len() && names[i] == k;
            assert(f[i].0 == k);
        }
    }
}

/// All jobs are shown, each once, in their order.
pub proof fn law_every_job_is_shown(jobs: Jobs, i: int)
    requires
        0 <= i < jobs.len(),
    ensures
        job_list(jobs) matches JsonModel::List(l) && l.len() == jobs.len() && l[i]
            == JsonModel::Object(json::object(job_fields(jobs[i].1))),
{
}

} // verus!
