//! Why a call is refused, or what went wrong in it.

use vstd::prelude::*;
use vstd::string::*;
use crate::depend::DependencyFault;
use crate::text::{joined, joined3};

verus! {

/// Why a call is refused, or what went wrong in it. `Failed` carries the words
/// of the system; `OutOfTurn` answers an event that nothing was waiting for.
#[derive(Debug, PartialEq, Eq)]
pub enum Denial<T> {
    StorageFailed,
    UnknownTool(T),
    Missing(T),
    UnknownService,
    UnknownJob,
    UnknownRuntime,
    Names,
    NoRequires,
    Requires(DependencyFault<T>),
    JobConflict,
    JobClosed,
    Overflow,
    ControlDenied,
    Protected,
    External,
    PortConflict,
    SpawnFailed,
    ExitedEarly,
    StartFailed,
    HealthTimeout(Option<T>),
    NotOwned,
    GroupMismatch,
    TermFailed,
    StopIncomplete,
    OutOfTurn,
    Failed(T),
}

impl View for Denial<String> {
    type V = Denial<Seq<char>>;

    open spec fn view(&self) -> Denial<Seq<char>> {
        match self {
            Denial::StorageFailed => Denial::StorageFailed,
            Denial::UnknownTool(s) => Denial::UnknownTool(s@),
            Denial::Missing(s) => Denial::Missing(s@),
            Denial::UnknownService => Denial::UnknownService,
            Denial::UnknownJob => Denial::UnknownJob,
            Denial::UnknownRuntime => Denial::UnknownRuntime,
            Denial::Names => Denial::Names,
            Denial::NoRequires => Denial::NoRequires,
            Denial::Requires(f) => Denial::Requires(f@),
            Denial::JobConflict => Denial::JobConflict,
            Denial::JobClosed => Denial::JobClosed,
            Denial::Overflow => Denial::Overflow,
            Denial::ControlDenied => Denial::ControlDenied,
            Denial::Protected => Denial::Protected,
            Denial::External => Denial::External,
            Denial::PortConflict => Denial::PortConflict,
            Denial::SpawnFailed => Denial::SpawnFailed,
            Denial::ExitedEarly => Denial::ExitedEarly,
            Denial::StartFailed => Denial::StartFailed,
            Denial::HealthTimeout(None) => Denial::HealthTimeout(None),
            Denial::HealthTimeout(Some(s)) => Denial::HealthTimeout(Some(s@)),
            Denial::NotOwned => Denial::NotOwned,
            Denial::GroupMismatch => Denial::GroupMismatch,
            Denial::TermFailed => Denial::TermFailed,
            Denial::StopIncomplete => Denial::StopIncomplete,
            Denial::OutOfTurn => Denial::OutOfTurn,
            Denial::Failed(s) => Denial::Failed(s@),
        }
    }
}

impl Denial<Seq<char>> {
    /// The message of the denial.
    pub open spec fn text(self) -> Seq<char> {
        match self {
            Denial::StorageFailed => {
                "STORAGE_FAILED: mutations disabled; repair storage and restart daemon"@
            },
            Denial::UnknownTool(name) => "unknown tool: "@ + name,
            Denial::Missing(key) => "missing "@ + key,
            Denial::UnknownService => "unknown service"@,
            Denial::UnknownJob => "unknown job"@,
            Denial::UnknownRuntime => "unknown runtime_id"@,
            Denial::Names => "job_id and agent must be 1..128 characters"@,
            Denial::NoRequires => "requires cannot be empty"@,
            Denial::Requires(f) => f.text(),
            Denial::JobConflict => "JOB_CONFLICT: job_id already used with different request"@,
            Denial::JobClosed => "JOB_CLOSED: use a new job_id"@,
            Denial::Overflow => "memory requirement overflow"@,
            Denial::ControlDenied => "CONTROL_DENIED: action not allowed for managed service"@,
            Denial::Protected => "PROTECTED: service has active or interrupted leases"@,
            Denial::External => {
                "EXTERNAL_SERVICE: refusing to adopt or duplicate discovered process"@
            },
            Denial::PortConflict => "PORT_CONFLICT: listener already exists"@,
            Denial::SpawnFailed => "service spawn failed"@,
            Denial::ExitedEarly => "service exited before ownership registration"@,
            Denial::StartFailed => "START_FAILED: service exited (see service log)"@,
            Denial::HealthTimeout(None) => "HEALTH_TIMEOUT: rollback result Ok(())"@,
            Denial::HealthTimeout(Some(s)) => "HEALTH_TIMEOUT: rollback result Err("@ + s + ")"@,
            Denial::NotOwned => {
                "NOT_OWNED: no live child handle; discovered processes are read-only"@
            },
            Denial::GroupMismatch => "ownership group mismatch"@,
            Denial::TermFailed => "SIGTERM failed"@,
            Denial::StopIncomplete => "STOP_INCOMPLETE: inspect remaining processes"@,
            Denial::OutOfTurn => "event out of turn"@,
            Denial::Failed(s) => s,
        }
    }
}

impl Denial<String> {
    pub fn message(&self) -> (s: String)
        ensures
            s@ == self@.text(),
    {
        match self {
            Denial::StorageFailed => {
                "STORAGE_FAILED: mutations disabled; repair storage and restart daemon".to_string()
            },
            Denial::UnknownTool(name) => joined("unknown tool: ", name.as_str()),
            Denial::Missing(key) => joined("missing ", key.as_str()),
            Denial::UnknownService => "unknown service".to_string(),
            Denial::UnknownJob => "unknown job".to_string(),
            Denial::UnknownRuntime => "unknown runtime_id".to_string(),
            Denial::Names => "job_id and agent must be 1..128 characters".to_string(),
            Denial::NoRequires => "requires cannot be empty".to_string(),
            Denial::Requires(f) => f.message(),
            Denial::JobConflict => {
                "JOB_CONFLICT: job_id already used with different request".to_string()
            },
            Denial::JobClosed => "JOB_CLOSED: use a new job_id".to_string(),
            Denial::Overflow => "memory requirement overflow".to_string(),
            Denial::ControlDenied => {
                "CONTROL_DENIED: action not allowed for managed service".to_string()
            },
            Denial::Protected => "PROTECTED: service has active or interrupted leases".to_string(),
            Denial::External => {
                "EXTERNAL_SERVICE: refusing to adopt or duplicate discovered process".to_string()
            },
            Denial::PortConflict => "PORT_CONFLICT: listener already exists".to_string(),
            Denial::SpawnFailed => "service spawn failed".to_string(),
            Denial::ExitedEarly => "service exited before ownership registration".to_string(),
            Denial::StartFailed => "START_FAILED: service exited (see service log)".to_string(),
            Denial::HealthTimeout(None) => "HEALTH_TIMEOUT: rollback result Ok(())".to_string(),
            Denial::HealthTimeout(Some(s)) => joined3(
                "HEALTH_TIMEOUT: rollback result Err(",
                s.as_str(),
                ")",
            ),
            Denial::NotOwned => {
                "NOT_OWNED: no live child handle; discovered processes are read-only".to_string()
            },
            Denial::GroupMismatch => "ownership group mismatch".to_string(),
            Denial::TermFailed => "SIGTERM failed".to_string(),
            Denial::StopIncomplete => "STOP_INCOMPLETE: inspect remaining processes".to_string(),
            Denial::OutOfTurn => "event out of turn".to_string(),
            Denial::Failed(s) => s.clone(),
        }
    }
}

/// Refusals that a client is to tell apart begin with their code, and messages about
/// a tool, an argument or a failure end with what they are about.
pub proof fn law_messages_begin_with_their_code(name: Seq<char>, d: Denial<Seq<char>>)
    ensures
        crate::text::begins_with(Denial::<Seq<char>>::StorageFailed.text(), "STORAGE_FAILED: "@),
        crate::text::begins_with(Denial::<Seq<char>>::JobConflict.text(), "JOB_CONFLICT: "@),
        crate::text::begins_with(Denial::<Seq<char>>::JobClosed.text(), "JOB_CLOSED: "@),
        crate::text::begins_with(Denial::<Seq<char>>::ControlDenied.text(), "CONTROL_DENIED: "@),
        crate::text::begins_with(Denial::<Seq<char>>::Protected.text(), "PROTECTED: "@),
        crate::text::begins_with(Denial::<Seq<char>>::External.text(), "EXTERNAL_SERVICE: "@),
        crate::text::begins_with(Denial::<Seq<char>>::PortConflict.text(), "PORT_CONFLICT: "@),
        crate::text::begins_with(Denial::<Seq<char>>::StartFailed.text(), "START_FAILED: "@),
        crate::text::begins_with(Denial::<Seq<char>>::NotOwned.text(), "NOT_OWNED: "@),
        crate::text::begins_with(Denial::<Seq<char>>::StopIncomplete.text(), "STOP_INCOMPLETE: "@),
        d matches Denial::HealthTimeout(_) ==> crate::text::begins_with(
            d.text(),
            "HEALTH_TIMEOUT: "@,
        ),
        Denial::UnknownTool(name).text() == "unknown tool: "@ + name,
        Denial::Missing(name).text() == "missing "@ + name,
        Denial::Failed(name).text() == name,
        Denial::HealthTimeout(Some(name)).text() == "HEALTH_TIMEOUT: rollback result Err("@ + name
            + ")"@,
        Denial::Requires(DependencyFault::Unknown(name)).text() == "unknown required service: "@
            + name,
        Denial::Requires(DependencyFault::Cycle(name)).text() == "service dependency cycle at "@
            + name,
{
    reveal_strlit("STORAGE_FAILED: ");
    reveal_strlit("STORAGE_FAILED: mutations disabled; repair storage and restart daemon");
    assert("STORAGE_FAILED: mutations disabled; repair storage and restart daemon"@.take(16) =~= "STORAGE_FAILED: "@);
    reveal_strlit("JOB_CONFLICT: ");
    reveal_strlit("JOB_CONFLICT: job_id already used with different request");
    assert("JOB_CONFLICT: job_id already used with different request"@.take(14) =~= "JOB_CONFLICT: "@);
    reveal_strlit("JOB_CLOSED: ");
    reveal_strlit("JOB_CLOSED: use a new job_id");
    assert("JOB_CLOSED: use a new job_id"@.take(12) =~= "JOB_CLOSED: "@);
    reveal_strlit("CONTROL_DENIED: ");
    reveal_strlit("CONTROL_DENIED: action not allowed for managed service");
    assert("CONTROL_DENIED: action not allowed for managed service"@.take(16) =~= "CONTROL_DENIED: "@);
    reveal_strlit("PROTECTED: ");
    reveal_strlit("PROTECTED: service has active or interrupted leases");
    assert("PROTECTED: service has active or interrupted leases"@.take(11) =~= "PROTECTED: "@);
    reveal_strlit("EXTERNAL_SERVICE: ");
    reveal_strlit("EXTERNAL_SERVICE: refusing to adopt or duplicate discovered process");
    assert("EXTERNAL_SERVICE: refusing to adopt or duplicate discovered process"@.take(18) =~= "EXTERNAL_SERVICE: "@);
    reveal_strlit("PORT_CONFLICT: ");
    reveal_strlit("PORT_CONFLICT: listener already exists");
    assert("PORT_CONFLICT: listener already exists"@.take(15) =~= "PORT_CONFLICT: "@);
    reveal_strlit("START_FAILED: ");
    reveal_strlit("START_FAILED: service exited (see service log)");
    assert("START_FAILED: service exited (see service log)"@.take(14) =~= "START_FAILED: "@);
    reveal_strlit("NOT_OWNED: ");
    reveal_strlit("NOT_OWNED: no live child handle; discovered processes are read-only");
    assert("NOT_OWNED: no live child handle; discovered processes are read-only"@.take(11) =~= "NOT_OWNED: "@);
    reveal_strlit("STOP_INCOMPLETE: ");
    reveal_strlit("STOP_INCOMPLETE: inspect remaining processes");
    assert("STOP_INCOMPLETE: inspect remaining processes"@.take(17) =~= "STOP_INCOMPLETE: "@);
    reveal_strlit("HEALTH_TIMEOUT: rollback result Ok(())");
    reveal_strlit("HEALTH_TIMEOUT: rollback result Err(");
    reveal_strlit("HEALTH_TIMEOUT: ");
    match d {
        Denial::HealthTimeout(None) => {
            assert(d.text().take(16) =~= "HEALTH_TIMEOUT: "@);
        },
        Denial::HealthTimeout(Some(s)) => {
            assert(d.text().take(16) =~= "HEALTH_TIMEOUT: "@);
        },
        _ => {},
    }
}

} // verus!
