//! What the supervisor asks to be done on the machine, and what it hears back.

use vstd::prelude::*;
use crate::denial::Denial;
use crate::engine::EngineModel;
use crate::json::{field, object_of, text, Json, JsonModel};
use crate::json;
use crate::model::{Request, RequestModel};
use crate::show;
use crate::sight::{Readings, ReadingsModel, Sight, SightModel};

verus! {

/// One thing to do on the machine.
#[derive(Debug, PartialEq)]
pub enum Action<T, J> {
    /// Take readings.
    Look,
    /// Let 100 milliseconds pass, and take readings.
    Pause,
    /// Take readings and the machine's figures, and have them observed.
    Survey,
    /// Read a request out of a value.
    Decode(J),
    /// Write the state down, and add an event to the log.
    Record { event: T, detail: J },
    /// Find the program of a service, and open its log.
    Prepare { service: T },
    /// Run the program of a service as the leader of a new process group.
    Spawn { service: T },
    /// Kill and reap a child that was spawned a moment ago.
    Discard { pid: u32 },
    /// Ask all members of a process group to end.
    Terminate { group: u32 },
    /// Kill one process.
    Kill { pid: u32 },
}

impl View for Action<String, Json> {
    type V = Action<Seq<char>, JsonModel>;

    open spec fn view(&self) -> Action<Seq<char>, JsonModel> {
        match self {
            Action::Look => Action::Look,
            Action::Pause => Action::Pause,
            Action::Survey => Action::Survey,
            Action::Decode(v) => Action::Decode(v@),
            Action::Record { event, detail } => Action::Record { event: event@, detail: detail@ },
            Action::Prepare { service } => Action::Prepare { service: service@ },
            Action::Spawn { service } => Action::Spawn { service: service@ },
            Action::Discard { pid } => Action::Discard { pid: *pid },
            Action::Terminate { group } => Action::Terminate { group: *group },
            Action::Kill { pid } => Action::Kill { pid: *pid },
        }
    }
}

/// What came of an action.
#[derive(Debug, PartialEq)]
pub enum Event<T, R, S, Q> {
    /// It was done.
    Done,
    /// It could not be done, in the words of the system.
    Failed(T),
    /// The readings, after a look or a pause.
    Seen(R),
    /// The sight, after a survey.
    Surveyed(S),
    /// The request that was read.
    Decoded(Q),
    /// The number of the new process.
    Spawned(u32),
    /// The time at which a signal was sent.
    Sent(u64),
}

pub type Happening = Event<String, Readings, Sight, Request>;

pub type HappeningModel = Event<Seq<char>, ReadingsModel, SightModel, RequestModel>;

impl View for Event<String, Readings, Sight, Request> {
    type V = Event<Seq<char>, ReadingsModel, SightModel, RequestModel>;

    open spec fn view(&self) -> Event<Seq<char>, ReadingsModel, SightModel, RequestModel> {
        match self {
            Event::Done => Event::Done,
            Event::Failed(s) => Event::Failed(s@),
            Event::Seen(r) => Event::Seen(r@),
            Event::Surveyed(s) => Event::Surveyed(s@),
            Event::Decoded(r) => Event::Decoded(r@),
            Event::Spawned(pid) => Event::Spawned(*pid),
            Event::Sent(now) => Event::Sent(*now),
        }
    }
}

/// How far a piece of work has come: something is to be done before it goes on,
/// or it is over.
#[derive(Debug, PartialEq)]
pub enum Progress<K, V> {
    Act(Action<String, Json>, K),
    Over(Result<V, Denial<String>>),
}

pub enum ProgressModel<K, V> {
    Act(Action<Seq<char>, JsonModel>, K),
    Over(Result<V, Denial<Seq<char>>>),
}

impl<K: View, V: View> View for Progress<K, V> {
    type V = ProgressModel<K::V, V::V>;

    open spec fn view(&self) -> ProgressModel<K::V, V::V> {
        match self {
            Progress::Act(a, k) => ProgressModel::Act(a@, k@),
            Progress::Over(Ok(v)) => ProgressModel::Over(Ok(v@)),
            Progress::Over(Err(d)) => ProgressModel::Over(Err(d@)),
        }
    }
}

/// The state after a record could not be written: no more changes are made.
pub open spec fn unrecorded(e: EngineModel) -> EngineModel {
    EngineModel { storage_failed: true, ..e }
}

/// An event about a service.
pub open spec fn service_event(name: Seq<char>, service: Seq<char>) -> Action<Seq<char>, JsonModel> {
    Action::Record {
        event: name,
        detail: show::object(seq![("service"@, JsonModel::Text(service))]),
    }
}

pub fn record_service(name: &str, service: &str) -> (a: Action<String, Json>)
    ensures
        a@ == service_event(name@, service@),
{
    let f = vec![field("service", text(service))];
    assert(json::fields(f@) =~= seq![("service"@, JsonModel::Text(service@))]);
    Action::Record { event: name.to_string(), detail: object_of(f) }
}

/// A line of the event log.
pub open spec fn event_fields(at: u64, event: Seq<char>, detail: JsonModel) -> show::Fields {
    seq![
        ("at"@, JsonModel::Integer(at as int)),
        ("event"@, JsonModel::Text(event)),
        ("detail"@, detail),
    ]
}

/// The line of the event log for an event at `at`, in seconds since 1970.
pub fn event_line(at: u64, event: &str, detail: Json) -> (s: String)
    ensures
        s@ == json::written(show::object(event_fields(at, event@, detail@))),
{
    let f = vec![
        field("at", Json::UInt(at)),
        field("event", text(event)),
        field("detail", detail),
    ];
    assert(json::fields(f@) =~= event_fields(at, event@, detail@));
    object_of(f).write()
}

/// A line of the event log tells when, what, and with what particulars.
pub proof fn law_event_is_told(at: u64, event: Seq<char>, detail: JsonModel)
    ensures
        ({
            let m = json::object(event_fields(at, event, detail));
            &&& m.contains_pair(
                "at"@,
                JsonModel::Integer(at as int),
            )
            &&& m.contains_pair(
                "event"@,
                JsonModel::Text(event),
            )
            &&& m.contains_pair(
                "detail"@,
                detail,
            )
            &&& forall|k: Seq<char>| #[trigger] m.contains_key(k) <==> seq!["at"@, "event"@, "detail"@].contains(k)
        }),
{
    let f = event_fields(at, event, detail);
    reveal_strlit("at");
    reveal_strlit("event");
    reveal_strlit("detail");
    assert(f.len() == 3);
    assert(f[0].0 == "at"@ && f[0].0.len() == 2);
    assert(f[1].0 == "event"@ && f[1].0.len() == 5);
    assert(f[2].0 == "detail"@ && f[2].0.len() == 6);
    assert(json::distinct(f));
    json::lemma_object(f);
    assert(json::object(f).contains_pair(f[0].0, f[0].1));
    assert(json::object(f).contains_pair(f[1].0, f[1].1));
    assert(json::object(f).contains_pair(f[2].0, f[2].1));
    let names = seq!["at"@, "event"@, "detail"@];
    assert(names[0] == f[0].0);
    assert(names[1] == f[1].0);
    assert(names[2] == f[2].0);
    assert forall|k: Seq<char>| #[trigger] json::object(f).contains_key(k) <==> names.contains(k) by {
        if json::object(f).contains_key(k) {
            let i = choose|i: int| 0 <= i < f.len() && f[i].0 == k;
            assert(names[i] == k);
        }
        if names.contains(k) {
            let i = choose|i: int| 0 <= i < names.len() && names[i] == k;
            assert(f[i].0 == k);
        }
    }
}

} // verus!
