//! The records that the supervisor keeps: requests, jobs, processes, and the
//! memory that a job may have.

use vstd::prelude::*;
use crate::config;
use crate::ids;
use crate::ids::IdMap;
use crate::json::{Json, JsonModel};
use crate::text::same;

verus! {

/// What an agent asks for.
#[derive(Debug, PartialEq, Eq)]
pub struct Request {
    pub job_id: String,
    pub agent: String,
    pub requires: Vec<String>,
    /// Additional job memory, beyond the incremental service startup estimates.
    pub memory_bytes: Option<u64>,
}

pub struct RequestModel {
    pub job_id: Seq<char>,
    pub agent: Seq<char>,
    pub requires: Seq<Seq<char>>,
    pub memory_bytes: Option<u64>,
}

impl View for Request {
    type V = RequestModel;

    open spec fn view(&self) -> RequestModel {
        RequestModel {
            job_id: self.job_id@,
            agent: self.agent@,
            requires: ids::texts(self.requires@),
            memory_bytes: self.memory_bytes,
        }
    }
}

/// Vectors of strings that hold the same texts.
pub fn same_texts(a: &Vec<String>, b: &Vec<String>) -> (r: bool)
    ensures
        r == (ids::texts(a@) == ids::texts(b@)),
{
    if a.len() != b.len() {
        assert(ids::texts(a@).len() != ids::texts(b@).len());
        return false;
    }
    let mut i: usize = 0;
    while i < a.len()
        invariant
            i <= a@.len() == b@.len(),
            forall|j: int| 0 <= j < i ==> (#[trigger] a@[j])@ == b@[j]@,
        decreases a@.len() - i,
    {
        if !same(a[i].as_str(), b[i].as_str()) {
            assert(ids::texts(a@)[i as int] != ids::texts(b@)[i as int]);
            return false;
        }
        i += 1;
    }
    assert(ids::texts(a@) =~= ids::texts(b@));
    true
}

/// A vector that holds the same texts.
pub fn copy_texts(v: &Vec<String>) -> (r: Vec<String>)
    ensures
        ids::texts(r@) == ids::texts(v@),
{
    let mut out: Vec<String> = Vec::new();
    let mut i: usize = 0;
    while i < v.len()
        invariant
            i <= v@.len(),
            out@ == v@.take(i as int),
        decreases v@.len() - i,
    {
        out.push(v[i].clone());
        assert(out@ =~= v@.take(i + 1));
        i += 1;
    }
    assert(out@ =~= v@);
    out
}

impl Request {
    pub fn same(&self, other: &Request) -> (r: bool)
        ensures
            r == (self@ == other@),
    {
        same(self.job_id.as_str(), other.job_id.as_str()) && same(
            self.agent.as_str(),
            other.agent.as_str(),
        ) && same_texts(&self.requires, &other.requires) && (match (
            self.memory_bytes,
            other.memory_bytes,
        ) {
            (Some(a), Some(b)) => a == b,
            (None, None) => true,
            _ => false,
        })
    }

    pub fn copy(&self) -> (r: Request)
        ensures
            r@ == self@,
    {
        Request {
            job_id: self.job_id.clone(),
            agent: self.agent.clone(),
            requires: copy_texts(&self.requires),
            memory_bytes: self.memory_bytes,
        }
    }
}

/// A job: what was asked for, and what came of it.
#[derive(Debug, PartialEq)]
pub struct Job {
    pub runtime_id: String,
    pub request: Request,
    pub status: String,
    pub result: Json,
}

pub struct JobModel {
    pub runtime_id: Seq<char>,
    pub request: RequestModel,
    pub status: Seq<char>,
    pub result: JsonModel,
}

impl View for Job {
    type V = JobModel;

    open spec fn view(&self) -> JobModel {
        JobModel {
            runtime_id: self.runtime_id@,
            request: self.request@,
            status: self.status@,
            result: self.result@,
        }
    }
}

/// The jobs by id, in the order of the ids.
pub type Jobs = Seq<(Seq<char>, JobModel)>;

/// All that the supervisor keeps across a restart.
#[derive(Debug, PartialEq)]
pub struct State {
    pub jobs: IdMap<Job>,
}

impl State {
    pub fn new() -> (s: State)
        ensures
            s.jobs@ == Seq::<(Seq<char>, JobModel)>::empty(),
    {
        State { jobs: IdMap::new() }
    }
}

/// A job of this status holds its lease.
pub open spec fn is_holding(status: Seq<char>) -> bool {
    status == "READY"@ || status == "INTERRUPTED"@
}

pub fn holding(status: &str) -> (r: bool)
    ensures
        r == is_holding(status@),
{
    same(status, "READY") || same(status, "INTERRUPTED")
}

/// What is known of who runs a process or a service.
#[derive(Clone, Copy, PartialEq, Eq, Structural, Debug)]
pub enum Class {
    Managed,
    Discovered,
    Unknown,
}

impl Class {
    pub open spec fn text(self) -> Seq<char> {
        match self {
            Class::Managed => "managed"@,
            Class::Discovered => "discovered"@,
            Class::Unknown => "unknown"@,
        }
    }

    pub fn name(self) -> (s: &'static str)
        ensures
            s@ == self.text(),
    {
        match self {
            Class::Managed => "managed",
            Class::Discovered => "discovered",
            Class::Unknown => "unknown",
        }
    }
}

/// A process, and the service that it belongs to. `group` is its process group,
/// as far as the system tells it.
#[derive(Debug, PartialEq)]
pub struct Process {
    pub pid: u32,
    pub parent: Option<u32>,
    pub start_time: u64,
    pub name: String,
    pub executable: Option<String>,
    pub args: Vec<String>,
    pub ram_bytes: u64,
    pub cpu_percent: Json,
    pub group: Option<u32>,
    pub service: Option<String>,
    pub class: Class,
}

pub struct ProcessModel {
    pub pid: u32,
    pub parent: Option<u32>,
    pub start_time: u64,
    pub name: Seq<char>,
    pub executable: Option<Seq<char>>,
    pub args: Seq<Seq<char>>,
    pub ram_bytes: u64,
    pub cpu_percent: JsonModel,
    pub group: Option<u32>,
    pub service: Option<Seq<char>>,
    pub class: Class,
}

impl View for Process {
    type V = ProcessModel;

    open spec fn view(&self) -> ProcessModel {
        ProcessModel {
            pid: self.pid,
            parent: self.parent,
            start_time: self.start_time,
            name: self.name@,
            executable: config::opt_text(self.executable),
            args: ids::texts(self.args@),
            ram_bytes: self.ram_bytes,
            cpu_percent: self.cpu_percent@,
            group: self.group,
            service: config::opt_text(self.service),
            class: self.class,
        }
    }
}

/// What the processes of a table are.
pub open spec fn table(v: Seq<Process>) -> Seq<ProcessModel> {
    v.map_values(|p: Process| p@)
}

/// A process that the supervisor started: the leader of its own process group,
/// known by its start time too.
#[derive(Clone, Copy, PartialEq, Eq, Structural, Debug)]
pub struct Owned {
    pub pid: u32,
    pub start_time: u64,
}

impl View for Owned {
    type V = Owned;

    open spec fn view(&self) -> Owned {
        *self
    }
}

/// The answer of the memory gate.
#[derive(Debug, PartialEq, Eq)]
pub struct MemoryGate {
    pub status: &'static str,
    pub required: u64,
    pub available: u64,
    pub shortfall: u64,
}

/// `a` less `b`, but not below zero.
pub open spec fn less(a: int, b: int) -> int {
    if a > b {
        a - b
    } else {
        0
    }
}

/// What is left of the observed memory once margin and outstanding estimates
/// are taken off.
pub open spec fn spare(observed_available: u64, margin: u64, outstanding: u64) -> int {
    less(observed_available as int, margin + outstanding)
}

/// Whether `required` bytes can be had, in whole bytes.
pub fn memory_gate(
    required: u64,
    observed_available: u64,
    margin: u64,
    outstanding: u64,
) -> (g: MemoryGate)
    ensures
        g.required == required,
        g.available == spare(observed_available, margin, outstanding),
        g.shortfall == less(required as int, g.available as int),
        g.status@ == if required <= g.available {
            "READY"@
        } else {
            "BLOCKED_RESOURCE"@
        },
{
    let available: u64 = observed_available.saturating_sub(margin).saturating_sub(outstanding);
    MemoryGate {
        status: if required <= available {
            "READY"
        } else {
            "BLOCKED_RESOURCE"
        },
        required,
        available,
        shortfall: required.saturating_sub(available),
    }
}

/// Memory is there just where nothing falls short; more margin, or more that is
/// outstanding, never makes a blocked request ready.
pub proof fn law_memory_gate(
    required: u64,
    observed: u64,
    margin: u64,
    outstanding: u64,
    more_margin: u64,
    more_outstanding: u64,
)
    requires
        margin <= more_margin,
        outstanding <= more_outstanding,
    ensures
        required <= spare(observed, margin, outstanding) <==> less(
            required as int,
            spare(observed, margin, outstanding),
        ) == 0,
        required <= spare(observed, more_margin, more_outstanding) ==> required <= spare(
            observed,
            margin,
            outstanding,
        ),
        spare(observed, margin, outstanding) <= observed,
{
}

} // verus!
