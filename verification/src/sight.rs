//! What is seen of the machine at one time.

use vstd::prelude::*;
use std::collections::{BTreeMap, BTreeSet};
use crate::json::{Json, JsonModel};
use crate::model;
use crate::model::{Process, ProcessModel};
use crate::text::same;

verus! {

/// Readings of the process table and of the ports. `exited` are the children
/// that have exited, `open_ports` the configured ports that accept a connection,
/// and `answering` those of them whose health path answers with success.
/// `now_ms` is a clock that never goes back.
#[derive(Debug, PartialEq)]
pub struct Readings {
    pub now_ms: u64,
    pub rows: Vec<Process>,
    pub exited: Vec<u32>,
    pub open_ports: Vec<u16>,
    pub answering: Vec<u16>,
    pub listeners: Option<BTreeMap<u16, BTreeSet<u32>>>,
}

pub struct ReadingsModel {
    pub now_ms: u64,
    pub rows: Seq<ProcessModel>,
    pub exited: Seq<u32>,
    pub open_ports: Seq<u16>,
    pub answering: Seq<u16>,
    pub listeners: Option<Map<u16, Set<u32>>>,
}

/// The processes under each port.
pub open spec fn listener_sets(m: Map<u16, BTreeSet<u32>>) -> Map<u16, Set<u32>> {
    m.map_values(|s: BTreeSet<u32>| s@)
}

impl View for Readings {
    type V = ReadingsModel;

    open spec fn view(&self) -> ReadingsModel {
        ReadingsModel {
            now_ms: self.now_ms,
            rows: model::table(self.rows@),
            exited: self.exited@,
            open_ports: self.open_ports@,
            answering: self.answering@,
            listeners: match self.listeners {
                Some(m) => Some(listener_sets(m@)),
                None => None,
            },
        }
    }
}

/// The memory and the load of the machine as a whole, in bytes.
#[derive(Debug, PartialEq)]
pub struct Machine {
    pub os: String,
    pub arch: String,
    pub total: u64,
    pub used: u64,
    pub available: u64,
    pub free: u64,
    pub swap_used: u64,
    pub swap_total: u64,
    pub cpu_percent: Json,
}

pub struct MachineModel {
    pub os: Seq<char>,
    pub arch: Seq<char>,
    pub total: u64,
    pub used: u64,
    pub available: u64,
    pub free: u64,
    pub swap_used: u64,
    pub swap_total: u64,
    pub cpu_percent: JsonModel,
}

impl View for Machine {
    type V = MachineModel;

    open spec fn view(&self) -> MachineModel {
        MachineModel {
            os: self.os@,
            arch: self.arch@,
            total: self.total,
            used: self.used,
            available: self.available,
            free: self.free,
            swap_used: self.swap_used,
            swap_total: self.swap_total,
            cpu_percent: self.cpu_percent@,
        }
    }
}

/// The memory of all processes together.
pub open spec fn total_ram(rows: Seq<ProcessModel>) -> int
    decreases rows.len(),
{
    if rows.len() == 0 {
        0
    } else {
        total_ram(rows.drop_last()) + rows.last().ram_bytes
    }
}

/// The processes of a service; those of none where `id` is none.
pub open spec fn of_service(rows: Seq<ProcessModel>, id: Option<Seq<char>>) -> Seq<ProcessModel> {
    rows.filter(|p: ProcessModel| p.service == id)
}

/// The memory of all processes together does not depend on their order.
pub proof fn lemma_same_ram(a: Seq<ProcessModel>, b: Seq<ProcessModel>)
    requires
        a.to_multiset() == b.to_multiset(),
    ensures
        total_ram(a) == total_ram(b),
{
    let f = |p: ProcessModel, n: int| n + p.ram_bytes;
    lemma_ram_folded(a, f, 0);
    lemma_ram_folded(b, f, 0);
    vstd::seq_lib::lemma_fold_right_permutation(a, b, f, 0);
}

proof fn lemma_ram_folded(rows: Seq<ProcessModel>, f: spec_fn(ProcessModel, int) -> int, n: int)
    requires
        f == (|p: ProcessModel, n: int| n + p.ram_bytes),
    ensures
        rows.fold_right(f, n) == total_ram(rows) + n,
    decreases rows.len(),
{
    if rows.len() > 0 {
        lemma_ram_folded(rows.drop_last(), f, n + rows.last().ram_bytes);
    }
}

/// Rows that use the same memory one by one use the same memory together.
pub proof fn lemma_ram_by_row(a: Seq<ProcessModel>, b: Seq<ProcessModel>)
    requires
        a.len() == b.len(),
        forall|i: int| 0 <= i < a.len() ==> (#[trigger] a[i]).ram_bytes == b[i].ram_bytes,
    ensures
        total_ram(a) == total_ram(b),
    decreases a.len(),
{
    if a.len() > 0 {
        assert forall|i: int| 0 <= i < a.len() - 1 implies (
        #[trigger] a.drop_last()[i]).ram_bytes == b.drop_last()[i].ram_bytes by {
            assert(a[i].ram_bytes == b[i].ram_bytes);
        }
        lemma_ram_by_row(a.drop_last(), b.drop_last());
        assert(a[a.len() - 1].ram_bytes == b[b.len() - 1].ram_bytes);
    }
}

/// A part of the processes has no more memory than all of them.
pub proof fn lemma_part_ram(rows: Seq<ProcessModel>, id: Option<Seq<char>>)
    ensures
        0 <= total_ram(of_service(rows, id)) <= total_ram(rows),
    decreases rows.len(),
{
    reveal(Seq::filter);
    if rows.len() > 0 {
        let head = rows.drop_last();
        lemma_part_ram(head, id);
        assert(rows =~= head.push(rows.last()));
        head.lemma_filter_push(rows.last(), |p: ProcessModel| p.service == id);
        let part = of_service(rows, id);
        if rows.last().service == id {
            assert(part.drop_last() =~= of_service(head, id));
        }
    }
}

/// The memory of the first `n` processes is part of that of all.
pub proof fn lemma_first_ram(rows: Seq<ProcessModel>, n: int)
    requires
        0 <= n <= rows.len(),
    ensures
        0 <= total_ram(rows.take(n)) <= total_ram(rows),
    decreases rows.len(),
{
    if n == rows.len() {
        assert(rows.take(n) =~= rows);
        if n > 0 {
            lemma_first_ram(rows.drop_last(), n - 1);
            assert(rows.drop_last().take(n - 1) =~= rows.drop_last());
        }
    } else {
        lemma_first_ram(rows.drop_last(), n);
        assert(rows.drop_last().take(n) =~= rows.take(n));
    }
}

/// The memory of all processes together, where it fits.
pub fn summed_ram(rows: &Vec<Process>) -> (r: Option<u64>)
    ensures
        match r {
            Some(n) => n == total_ram(model::table(rows@)),
            None => total_ram(model::table(rows@)) > u64::MAX,
        },
{
    let ghost t = model::table(rows@);
    let mut sum: u64 = 0;
    let mut i: usize = 0;
    assert(t.take(0) =~= Seq::<ProcessModel>::empty());
    while i < rows.len()
        invariant
            i <= rows@.len(),
            t == model::table(rows@),
            sum == total_ram(t.take(i as int)),
        decreases rows@.len() - i,
    {
        proof {
            assert(t.take(i + 1).drop_last() =~= t.take(i as int));
            assert(t.take(i + 1).last() == rows@[i as int]@);
            lemma_first_ram(t, i + 1);
        }
        match sum.checked_add(rows[i].ram_bytes) {
            Some(n) => {
                sum = n;
            },
            None => {
                return None;
            },
        }
        i += 1;
    }
    assert(t.take(i as int) =~= t);
    Some(sum)
}

/// Readings whose processes have been attributed to services, with the machine's
/// figures. `cpu` is the load of each service's processes, in the order of the
/// service ids. The memory of all processes together fits in 64 bits.
#[derive(Debug, PartialEq)]
pub struct Sight {
    readings: Readings,
    machine: Machine,
    cpu: Vec<Json>,
}

pub struct SightModel {
    pub readings: ReadingsModel,
    pub machine: MachineModel,
    pub cpu: Seq<JsonModel>,
}

impl View for Sight {
    type V = SightModel;

    closed spec fn view(&self) -> SightModel {
        SightModel {
            readings: self.readings@,
            machine: self.machine@,
            cpu: self.cpu@.map_values(|j: Json| j@),
        }
    }
}

impl Sight {
    #[verifier::type_invariant]
    spec fn fits(self) -> bool {
        total_ram(self.readings@.rows) <= u64::MAX
    }

    /// None where the memory of all processes together does not fit in 64 bits.
    pub fn new(readings: Readings, machine: Machine, cpu: Vec<Json>) -> (r: Option<Sight>)
        ensures
            r is Some <==> total_ram(readings@.rows) <= u64::MAX,
            r matches Some(s) ==> s@ == (SightModel {
                readings: readings@,
                machine: machine@,
                cpu: cpu@.map_values(|j: Json| j@),
            }),
    {
        if summed_ram(&readings.rows).is_some() {
            Some(Sight { readings, machine, cpu })
        } else {
            None
        }
    }

    pub fn readings(&self) -> (r: &Readings)
        ensures
            r@ == self@.readings,
            0 <= total_ram(self@.readings.rows) <= u64::MAX,
    {
        proof {
            use_type_invariant(self);
            lemma_first_ram(self@.readings.rows, 0);
        }
        &self.readings
    }

    pub fn machine(&self) -> (r: &Machine)
        ensures
            r@ == self@.machine,
    {
        &self.machine
    }

    /// The load of the service at `i`; null where none was handed over.
    pub fn cpu(&self, i: usize) -> (j: Json)
        ensures
            j@ == cpu_at(self@, i as int),
    {
        if i < self.cpu.len() {
            self.cpu[i].copy()
        } else {
            Json::Null
        }
    }
}

pub open spec fn cpu_at(s: SightModel, i: int) -> JsonModel {
    if 0 <= i < s.cpu.len() {
        s.cpu[i]
    } else {
        JsonModel::Null
    }
}

/// Whether the port is among the ports.
pub fn has_port(v: &Vec<u16>, port: u16) -> (r: bool)
    ensures
        r == v@.contains(port),
{
    let mut i: usize = 0;
    while i < v.len()
        invariant
            i <= v@.len(),
            forall|j: int| 0 <= j < i ==> v@[j] != port,
        decreases v@.len() - i,
    {
        if v[i] == port {
            return true;
        }
        i += 1;
    }
    false
}

/// Whether the process is among the processes.
pub fn has_pid(v: &Vec<u32>, pid: u32) -> (r: bool)
    ensures
        r == v@.contains(pid),
{
    let mut i: usize = 0;
    while i < v.len()
        invariant
            i <= v@.len(),
            forall|j: int| 0 <= j < i ==> v@[j] != pid,
        decreases v@.len() - i,
    {
        if v[i] == pid {
            return true;
        }
        i += 1;
    }
    false
}

/// A process of that number belongs to the service.
pub open spec fn belongs(rows: Seq<ProcessModel>, pid: u32, id: Seq<char>) -> bool {
    exists|k: int| 0 <= k < rows.len() && (#[trigger] rows[k]).pid == pid && rows[k].service == Some(id)
}

fn process_belongs(rows: &Vec<Process>, pid: u32, id: &str) -> (r: bool)
    ensures
        r == belongs(model::table(rows@), pid, id@),
{
    let mut i: usize = 0;
    while i < rows.len()
        invariant
            i <= rows@.len(),
            forall|j: int|
                0 <= j < i ==> !((#[trigger] model::table(rows@)[j]).pid == pid && model::table(
                    rows@,
                )[j].service == Some(id@)),
        decreases rows@.len() - i,
    {
        let ghost t = model::table(rows@);
        assert(t[i as int] == rows@[i as int]@);
        if rows[i].pid == pid {
            if let Some(s) = &rows[i].service {
                if same(s.as_str(), id) {
                    return true;
                }
            }
        }
        i += 1;
    }
    false
}

/// Who listens on the port is known, and all of them belong to the service.
pub open spec fn owns_listeners(r: ReadingsModel, port: u16, id: Seq<char>) -> bool {
    &&& r.listeners is Some
    &&& r.listeners->0.contains_key(port)
    &&& r.listeners->0[port] != Set::<u32>::empty()
    &&& forall|pid: u32| #[trigger] r.listeners->0[port].contains(pid) ==> belongs(r.rows, pid, id)
}

pub fn owned_listeners(r: &Readings, port: u16, id: &str) -> (b: bool)
    ensures
        b == owns_listeners(r@, port, id@),
{
    match &r.listeners {
        None => false,
        Some(m) => {
            match m.get(&port) {
                None => false,
                Some(pids) => {
                    assert(r@.listeners->0[port] == pids@);
                    if pids.is_empty() {
                        assert(pids@ =~= Set::<u32>::empty());
                        return false;
                    }
                    let mut all = true;
                    let ghost mut passed: Seq<u32> = Seq::empty();
                    for pid in it: pids.iter()
                        invariant
                            it.seq().unref().to_set() == pids@,
                            passed == it.seq().unref().take(it.index() as int),
                            all == (forall|k: int|
                                0 <= k < passed.len() ==> belongs(
                                    r@.rows,
                                    #[trigger] passed[k],
                                    id@,
                                )),
                            it.index() == it.seq().len() ==> passed.to_set() == pids@,
                    {
                        let ghost before = passed;
                        proof {
                            passed = passed.push(*pid);
                            assert(passed =~= it.seq().unref().take(it.index() as int + 1));
                            if it.index() + 1 == it.seq().len() {
                                assert(passed =~= it.seq().unref());
                            }
                            assert(forall|k: int| 0 <= k < before.len() ==> passed[k] == before[k]);
                        }
                        if !process_belongs(&r.rows, *pid, id) {
                            all = false;
                            assert(!belongs(r@.rows, passed[passed.len() - 1], id@));
                        }
                    }
                    proof {
                        assert(exists|pid: u32| pids@.contains(pid));
                        if all {
                            assert forall|pid: u32| #[trigger] pids@.contains(pid) implies belongs(
                                r@.rows,
                                pid,
                                id@,
                            ) by {
                                assert(passed.to_set().contains(pid));
                                let k = choose|k: int| 0 <= k < passed.len() && passed[k] == pid;
                                assert(belongs(r@.rows, passed[k], id@));
                            }
                        } else {
                            let k = choose|k: int|
                                0 <= k < passed.len() && !belongs(
                                    r@.rows,
                                    #[trigger] passed[k],
                                    id@,
                                );
                            assert(passed.to_set().contains(passed[k]));
                        }
                    }
                    all
                },
            }
        },
    }
}

/// The memory of processes is added up: one process more adds just its own.
pub proof fn law_memory_adds_up(rows: Seq<ProcessModel>, p: ProcessModel, id: Option<Seq<char>>)
    ensures
        total_ram(Seq::<ProcessModel>::empty()) == 0,
        total_ram(rows.push(p)) == total_ram(rows) + p.ram_bytes,
        p.service == id ==> total_ram(of_service(rows.push(p), id)) == total_ram(
            of_service(rows, id),
        ) + p.ram_bytes,
        p.service != id ==> total_ram(of_service(rows.push(p), id)) == total_ram(
            of_service(rows, id),
        ),
{
    assert(rows.push(p).drop_last() =~= rows);
    rows.lemma_filter_push(p, |q: ProcessModel| q.service == id);
    assert(of_service(rows, id).push(p).drop_last() =~= of_service(rows, id));
}

} // verus!
