//! The static service definitions.

use vstd::prelude::*;
use crate::ids;
use crate::ids::{IdMap, IdSet};

verus! {

/// Whether the supervisor may run a service, or only watches for it.
#[derive(Clone, Copy, PartialEq, Eq, Structural, Debug)]
pub enum Mode {
    Managed,
    Discovered,
}

/// One service definition.
#[derive(Debug, PartialEq, Eq)]
pub struct Service {
    pub mode: Mode,
    pub command: Vec<String>,
    pub cwd: Option<String>,
    pub match_executable: Option<String>,
    pub match_args: Vec<String>,
    pub port: Option<u16>,
    pub memory_bytes: Option<u64>,
    pub http_health_path: Option<String>,
    pub exclusive_group: Option<String>,
    pub requires: Vec<String>,
    pub disposable: bool,
    pub allowed_actions: IdSet,
    pub startup_timeout_ms: u64,
}

/// What a service definition says.
pub struct ServiceModel {
    pub mode: Mode,
    pub command: Seq<Seq<char>>,
    pub cwd: Option<Seq<char>>,
    pub match_executable: Option<Seq<char>>,
    pub match_args: Seq<Seq<char>>,
    pub port: Option<u16>,
    pub memory_bytes: Option<u64>,
    pub http_health_path: Option<Seq<char>>,
    pub exclusive_group: Option<Seq<char>>,
    pub requires: Seq<Seq<char>>,
    pub disposable: bool,
    pub allowed_actions: Seq<Seq<char>>,
    pub startup_timeout_ms: u64,
}

/// The text in an optional string.
pub open spec fn opt_text(s: Option<String>) -> Option<Seq<char>> {
    match s {
        Some(s) => Some(s@),
        None => None,
    }
}

impl View for Service {
    type V = ServiceModel;

    open spec fn view(&self) -> ServiceModel {
        ServiceModel {
            mode: self.mode,
            command: ids::texts(self.command@),
            cwd: opt_text(self.cwd),
            match_executable: opt_text(self.match_executable),
            match_args: ids::texts(self.match_args@),
            port: self.port,
            memory_bytes: self.memory_bytes,
            http_health_path: opt_text(self.http_health_path),
            exclusive_group: opt_text(self.exclusive_group),
            requires: ids::texts(self.requires@),
            disposable: self.disposable,
            allowed_actions: self.allowed_actions@,
            startup_timeout_ms: self.startup_timeout_ms,
        }
    }
}

/// The service definitions by id, in the order of the ids.
pub type Services = Seq<(Seq<char>, ServiceModel)>;

/// The whole configuration.
#[derive(Debug, PartialEq, Eq)]
pub struct Config {
    pub port: u16,
    pub state_dir: String,
    pub safety_margin_bytes: u64,
    pub services: IdMap<Service>,
}

/// What a configuration says.
pub struct ConfigModel {
    pub port: u16,
    pub state_dir: Seq<char>,
    pub safety_margin_bytes: u64,
    pub services: Services,
}

impl View for Config {
    type V = ConfigModel;

    open spec fn view(&self) -> ConfigModel {
        ConfigModel {
            port: self.port,
            state_dir: self.state_dir@,
            safety_margin_bytes: self.safety_margin_bytes,
            services: self.services@,
        }
    }
}

/// The startup timeout of a service that names none, in milliseconds.
pub fn timeout() -> (ms: u64)
    ensures
        ms == 5000,
{
    5000
}

} // verus!
