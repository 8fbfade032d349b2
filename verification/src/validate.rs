//! The check that a configuration passes before anything runs on it.

use vstd::prelude::*;
use vstd::string::*;
use crate::config::{Config, ConfigModel, Mode, ServiceModel};
use crate::depend;
use crate::depend::DependencyFault;
use crate::ids;
use crate::ids::contains_text;
use crate::text;
use crate::text::{absolute, joined, joined3, name, number, same, unbroken};

verus! {

/// What is wrong with a configuration.
#[derive(Debug, PartialEq, Eq)]
pub enum ConfigError<T> {
    PortZero,
    InvalidId,
    Port(u16),
    Timeout,
    UnknownAction,
    CommandMissing(T),
    CommandPath,
    ReadOnly(T),
    Cwd,
    MatchPath,
    HealthPath,
    Group(T),
    Dependency(T, T),
    Requires(DependencyFault<T>),
}

impl View for ConfigError<String> {
    type V = ConfigError<Seq<char>>;

    open spec fn view(&self) -> ConfigError<Seq<char>> {
        match self {
            ConfigError::PortZero => ConfigError::PortZero,
            ConfigError::InvalidId => ConfigError::InvalidId,
            ConfigError::Port(p) => ConfigError::Port(*p),
            ConfigError::Timeout => ConfigError::Timeout,
            ConfigError::UnknownAction => ConfigError::UnknownAction,
            ConfigError::CommandMissing(id) => ConfigError::CommandMissing(id@),
            ConfigError::CommandPath => ConfigError::CommandPath,
            ConfigError::ReadOnly(id) => ConfigError::ReadOnly(id@),
            ConfigError::Cwd => ConfigError::Cwd,
            ConfigError::MatchPath => ConfigError::MatchPath,
            ConfigError::HealthPath => ConfigError::HealthPath,
            ConfigError::Group(id) => ConfigError::Group(id@),
            ConfigError::Dependency(d, id) => ConfigError::Dependency(d@, id@),
            ConfigError::Requires(f) => ConfigError::Requires(f@),
        }
    }
}

impl DependencyFault<Seq<char>> {
    /// The message of the fault.
    pub open spec fn text(self) -> Seq<char> {
        match self {
            DependencyFault::Unknown(id) => "unknown required service: "@ + id,
            DependencyFault::Cycle(id) => "service dependency cycle at "@ + id,
        }
    }
}

impl DependencyFault<String> {
    pub fn message(&self) -> (s: String)
        ensures
            s@ == self@.text(),
    {
        match self {
            DependencyFault::Unknown(id) => joined("unknown required service: ", id.as_str()),
            DependencyFault::Cycle(id) => joined("service dependency cycle at ", id.as_str()),
        }
    }
}

impl ConfigError<Seq<char>> {
    /// The message of the error.
    pub open spec fn text(self) -> Seq<char> {
        match self {
            ConfigError::PortZero => "port cannot be zero"@,
            ConfigError::InvalidId => "invalid service id"@,
            ConfigError::Port(p) => "duplicate/invalid port: "@ + text::decimal(p as nat),
            ConfigError::Timeout => "startup timeout out of range"@,
            ConfigError::UnknownAction => "unknown action"@,
            ConfigError::CommandMissing(id) => "managed service "@ + id + " requires command"@,
            ConfigError::CommandPath => "command must be absolute or @self"@,
            ConfigError::ReadOnly(id) => "discovered service "@ + id + " is read-only"@,
            ConfigError::Cwd => "cwd must be an existing absolute directory"@,
            ConfigError::MatchPath => "match_executable must be absolute"@,
            ConfigError::HealthPath => "http_health_path requires a port and a single HTTP path"@,
            ConfigError::Group(id) => "invalid exclusive_group for "@ + id,
            ConfigError::Dependency(d, id) => "invalid dependency "@ + d + " for "@ + id,
            ConfigError::Requires(f) => f.text(),
        }
    }
}

impl ConfigError<String> {
    pub fn message(&self) -> (s: String)
        ensures
            s@ == self@.text(),
    {
        match self {
            ConfigError::PortZero => "port cannot be zero".to_string(),
            ConfigError::InvalidId => "invalid service id".to_string(),
            ConfigError::Port(p) => joined("duplicate/invalid port: ", number(*p as u64).as_str()),
            ConfigError::Timeout => "startup timeout out of range".to_string(),
            ConfigError::UnknownAction => "unknown action".to_string(),
            ConfigError::CommandMissing(id) => joined3(
                "managed service ",
                id.as_str(),
                " requires command",
            ),
            ConfigError::CommandPath => "command must be absolute or @self".to_string(),
            ConfigError::ReadOnly(id) => joined3(
                "discovered service ",
                id.as_str(),
                " is read-only",
            ),
            ConfigError::Cwd => "cwd must be an existing absolute directory".to_string(),
            ConfigError::MatchPath => "match_executable must be absolute".to_string(),
            ConfigError::HealthPath => {
                "http_health_path requires a port and a single HTTP path".to_string()
            },
            ConfigError::Group(id) => joined("invalid exclusive_group for ", id.as_str()),
            ConfigError::Dependency(d, id) => {
                let mut s = joined3("invalid dependency ", d.as_str(), " for ");
                s.append(id.as_str());
                s
            },
            ConfigError::Requires(f) => f.message(),
        }
    }
}

/// An action that a service definition can allow.
pub open spec fn is_action(a: Seq<char>) -> bool {
    a == "start"@ || a == "stop"@ || a == "restart"@
}

pub open spec fn actions_known(s: ServiceModel) -> bool {
    forall|k: int| 0 <= k < s.allowed_actions.len() ==> is_action(#[trigger] s.allowed_actions[k])
}

/// The port is in use: it is the supervisor's own, or that of a service before
/// the one at `i`.
pub open spec fn port_taken(c: ConfigModel, i: int, p: u16) -> bool {
    p == c.port || exists|j: int| 0 <= j < i && (#[trigger] c.services[j]).1.port == Some(p)
}

/// A requirement of the service `id` that is `id` itself or not known.
pub open spec fn is_bad_requirement(c: ConfigModel, id: Seq<char>, d: Seq<char>) -> bool {
    d == id || !ids::has(c.services, d)
}

/// The first of the requirements that cannot stand.
pub open spec fn bad_requirement(c: ConfigModel, id: Seq<char>, list: Seq<Seq<char>>) -> Option<
    Seq<char>,
>
    decreases list.len(),
{
    if list.len() == 0 {
        None
    } else if is_bad_requirement(c, id, list.first()) {
        Some(list.first())
    } else {
        bad_requirement(c, id, list.drop_first())
    }
}

/// What is wrong with the service at `i`: the first of the rules that it breaks.
/// `dirs` are the paths at which a directory stands.
pub open spec fn service_fault(c: ConfigModel, dirs: Seq<Seq<char>>, i: int) -> Option<
    ConfigError<Seq<char>>,
> {
    let id = c.services[i].0;
    let s = c.services[i].1;
    if !text::is_name(id) {
        Some(ConfigError::InvalidId)
    } else if s.port is Some && (s.port->0 == 0 || port_taken(c, i, s.port->0)) {
        Some(ConfigError::Port(s.port->0))
    } else if !(100 <= s.startup_timeout_ms <= 60000) {
        Some(ConfigError::Timeout)
    } else if !actions_known(s) {
        Some(ConfigError::UnknownAction)
    } else if s.mode == Mode::Managed && s.command.len() == 0 {
        Some(ConfigError::CommandMissing(id))
    } else if s.mode == Mode::Managed && !(s.command[0] == "@self"@ || text::is_absolute(
        s.command[0],
    )) {
        Some(ConfigError::CommandPath)
    } else if s.mode == Mode::Discovered && (s.command.len() > 0 || s.allowed_actions.len() > 0
        || s.disposable) {
        Some(ConfigError::ReadOnly(id))
    } else if s.cwd is Some && !(text::is_absolute(s.cwd->0) && dirs.contains(s.cwd->0)) {
        Some(ConfigError::Cwd)
    } else if s.match_executable is Some && !text::is_absolute(s.match_executable->0) {
        Some(ConfigError::MatchPath)
    } else if s.http_health_path is Some && !(s.port is Some && text::is_absolute(
        s.http_health_path->0,
    ) && text::is_unbroken(s.http_health_path->0)) {
        Some(ConfigError::HealthPath)
    } else if s.exclusive_group is Some && !text::is_name(s.exclusive_group->0) {
        Some(ConfigError::Group(id))
    } else {
        match bad_requirement(c, id, s.requires) {
            Some(d) => Some(ConfigError::Dependency(d, id)),
            None => None,
        }
    }
}

/// What is wrong with the first faulty service before the one at `n`.
pub open spec fn services_fault(c: ConfigModel, dirs: Seq<Seq<char>>, n: int) -> Option<
    ConfigError<Seq<char>>,
>
    decreases n,
{
    if n <= 0 {
        None
    } else {
        match services_fault(c, dirs, n - 1) {
            Some(e) => Some(e),
            None => service_fault(c, dirs, n - 1),
        }
    }
}

/// What the first service before the one at `n` meets whose requirements cannot
/// be listed.
pub open spec fn requires_fault(c: ConfigModel, n: int) -> Option<ConfigError<Seq<char>>>
    decreases n,
{
    if n <= 0 {
        None
    } else {
        match requires_fault(c, n - 1) {
            Some(e) => Some(e),
            None => match depend::walk_all(
                c.services,
                seq![c.services[n - 1].0],
                Set::empty(),
            ) {
                Some(f) => Some(ConfigError::Requires(f)),
                None => None,
            },
        }
    }
}

/// What is wrong with a configuration: the supervisor's port first, then each
/// service in the order of the ids, then the ways down their requirements.
pub open spec fn config_fault(c: ConfigModel, dirs: Seq<Seq<char>>) -> Option<
    ConfigError<Seq<char>>,
> {
    if c.port == 0 {
        Some(ConfigError::PortZero)
    } else {
        match services_fault(c, dirs, c.services.len() as int) {
            Some(e) => Some(e),
            None => requires_fault(c, c.services.len() as int),
        }
    }
}

/// The rules for one service, but for those on ports and on requirements.
pub open spec fn is_proper(id: Seq<char>, s: ServiceModel, dirs: Seq<Seq<char>>) -> bool {
    &&& text::is_name(id)
    &&& 100 <= s.startup_timeout_ms <= 60000
    &&& actions_known(s)
    &&& match s.mode {
        Mode::Managed => s.command.len() > 0 && (s.command[0] == "@self"@ || text::is_absolute(
            s.command[0],
        )),
        Mode::Discovered => s.command.len() == 0 && s.allowed_actions.len() == 0 && !s.disposable,
    }
    &&& s.cwd is Some ==> text::is_absolute(s.cwd->0) && dirs.contains(s.cwd->0)
    &&& s.match_executable is Some ==> text::is_absolute(s.match_executable->0)
    &&& s.http_health_path is Some ==> s.port is Some && text::is_absolute(s.http_health_path->0)
        && text::is_unbroken(s.http_health_path->0)
    &&& s.exclusive_group is Some ==> text::is_name(s.exclusive_group->0)
}

/// A valid configuration: every service is proper, no port is zero or used
/// twice, and requirements are known and lead to no service that requires itself.
pub open spec fn is_valid(c: ConfigModel, dirs: Seq<Seq<char>>) -> bool {
    &&& c.port != 0
    &&& forall|i: int|
        0 <= i < c.services.len() ==> is_proper(
            (#[trigger] c.services[i]).0,
            c.services[i].1,
            dirs,
        )
    &&& forall|i: int|
        0 <= i < c.services.len() && (#[trigger] c.services[i]).1.port is Some
            ==> c.services[i].1.port->0 != 0 && !port_taken(c, i, c.services[i].1.port->0)
    &&& forall|i: int, d: Seq<char>|
        0 <= i < c.services.len() && (#[trigger] c.services[i]).1.requires.contains(d)
            ==> !#[trigger] is_bad_requirement(c, c.services[i].0, d)
    &&& forall|x: Seq<char>| #[trigger] ids::has(c.services, x) ==> !depend::leads(c.services, x, x)
}

proof fn lemma_bad_requirement(c: ConfigModel, id: Seq<char>, list: Seq<Seq<char>>, k: int)
    requires
        0 <= k <= list.len(),
        forall|j: int| 0 <= j < k ==> !is_bad_requirement(c, id, #[trigger] list[j]),
    ensures
        k < list.len() && is_bad_requirement(c, id, list[k]) ==> bad_requirement(c, id, list)
            == Some(list[k]),
        k == list.len() ==> bad_requirement(c, id, list) is None,
    decreases list.len(),
{
    if k > 0 {
        assert(!is_bad_requirement(c, id, list[0]));
        let rest = list.drop_first();
        assert forall|j: int| 0 <= j < k - 1 implies !is_bad_requirement(
            c,
            id,
            #[trigger] rest[j],
        ) by {
            assert(rest[j] == list[j + 1]);
        }
        lemma_bad_requirement(c, id, rest, k - 1);
    }
}

impl Config {
    /// What is wrong with the service at `i`.
    fn check_service(&self, i: usize, dirs: &Vec<String>) -> (r: Result<(), ConfigError<String>>)
        requires
            i < self.services@.len(),
        ensures
            match r {
                Ok(()) => service_fault(self@, ids::texts(dirs@), i as int) is None,
                Err(e) => service_fault(self@, ids::texts(dirs@), i as int) == Some(e@),
            },
    {
        let id = self.services.id_at(i);
        let s = self.services.at(i);
        if !name(id.as_str()) {
            return Err(ConfigError::InvalidId);
        }
        if let Some(p) = s.port {
            if p == 0 || self.port_in_use(i, p) {
                return Err(ConfigError::Port(p));
            }
        }
        if !(100 <= s.startup_timeout_ms && s.startup_timeout_ms <= 60000) {
            return Err(ConfigError::Timeout);
        }
        let mut k: usize = 0;
        let count: usize = s.allowed_actions.len();
        while k < count
            invariant
                k <= count,
                count == s.allowed_actions@.len(),
                s@ == self@.services[i as int].1,
                id@ == self@.services[i as int].0,
                forall|j: int| 0 <= j < k ==> is_action(#[trigger] s.allowed_actions@[j]),
                !actions_known(s@) ==> service_fault(self@, ids::texts(dirs@), i as int) == Some(
                    ConfigError::<Seq<char>>::UnknownAction,
                ),
            decreases count - k,
        {
            let a = s.allowed_actions.at(k).as_str();
            if !(same(a, "start") || same(a, "stop") || same(a, "restart")) {
                assert(!is_action(s.allowed_actions@[k as int]));
                return Err(ConfigError::UnknownAction);
            }
            k += 1;
        }
        assert(actions_known(s@));
        match s.mode {
            Mode::Managed => {
                if s.command.len() == 0 {
                    return Err(ConfigError::CommandMissing(id.clone()));
                }
                assert(s@.command[0] == s.command@[0]@);
                if !(same(s.command[0].as_str(), "@self") || absolute(s.command[0].as_str())) {
                    return Err(ConfigError::CommandPath);
                }
            },
            Mode::Discovered => {
                if s.command.len() > 0 || count > 0 || s.disposable {
                    return Err(ConfigError::ReadOnly(id.clone()));
                }
            },
        }
        if let Some(p) = &s.cwd {
            if !(absolute(p.as_str()) && contains_text(dirs, p.as_str())) {
                return Err(ConfigError::Cwd);
            }
        }
        if let Some(p) = &s.match_executable {
            if !absolute(p.as_str()) {
                return Err(ConfigError::MatchPath);
            }
        }
        if let Some(p) = &s.http_health_path {
            if !(s.port.is_some() && absolute(p.as_str()) && unbroken(p.as_str())) {
                return Err(ConfigError::HealthPath);
            }
        }
        if let Some(g) = &s.exclusive_group {
            if !name(g.as_str()) {
                return Err(ConfigError::Group(id.clone()));
            }
        }
        let ghost passed = (match bad_requirement(self@, id@, s@.requires) {
            Some(d) => Some(ConfigError::Dependency(d, id@)),
            None => None,
        });
        assert(service_fault(self@, ids::texts(dirs@), i as int) == passed);
        let mut k: usize = 0;
        while k < s.requires.len()
            invariant
                k <= s.requires@.len(),
                s@.requires == ids::texts(s.requires@),
                service_fault(self@, ids::texts(dirs@), i as int) == passed,
                passed == (match bad_requirement(self@, id@, s@.requires) {
                    Some(d) => Some(ConfigError::Dependency(d, id@)),
                    None => None,
                }),
                forall|j: int|
                    0 <= j < k ==> !is_bad_requirement(self@, id@, #[trigger] s@.requires[j]),
            decreases s.requires@.len() - k,
        {
            let d = s.requires[k].as_str();
            assert(s@.requires[k as int] == d@);
            if same(d, id.as_str()) || !self.services.contains(d) {
                proof {
                    lemma_bad_requirement(self@, id@, s@.requires, k as int);
                }
                return Err(ConfigError::Dependency(s.requires[k].clone(), id.clone()));
            }
            k += 1;
        }
        proof {
            lemma_bad_requirement(self@, id@, s@.requires, k as int);
        }
        Ok(())
    }

    fn port_in_use(&self, i: usize, p: u16) -> (r: bool)
        requires
            i <= self.services@.len(),
        ensures
            r == port_taken(self@, i as int, p),
    {
        if p == self.port {
            return true;
        }
        let mut j: usize = 0;
        while j < i
            invariant
                j <= i <= self.services@.len(),
                p != self.port,
                forall|k: int| 0 <= k < j ==> (#[trigger] self@.services[k]).1.port != Some(p),
            decreases i - j,
        {
            let s = self.services.at(j);
            if let Some(q) = s.port {
                if q == p {
                    assert(self@.services[j as int].1.port == Some(p));
                    return true;
                }
            }
            j += 1;
        }
        false
    }

    /// Checks the configuration. `dirs` are the paths at which a directory
    /// stands, as far as the services name them.
    pub fn validate(&self, dirs: &Vec<String>) -> (r: Result<(), ConfigError<String>>)
        ensures
            match r {
                Ok(()) => config_fault(self@, ids::texts(dirs@)) is None,
                Err(e) => config_fault(self@, ids::texts(dirs@)) == Some(e@),
            },
            r is Ok <==> is_valid(self@, ids::texts(dirs@)),
    {
        let ghost d = ids::texts(dirs@);
        let n: usize = self.services.len();
        proof {
            law_valid_is_faultless(self@, d);
        }
        if self.port == 0 {
            return Err(ConfigError::PortZero);
        }
        let mut i: usize = 0;
        while i < n
            invariant
                i <= n,
                n == self.services@.len(),
                d == ids::texts(dirs@),
                self.port != 0,
                services_fault(self@, d, i as int) is None,
                config_fault(self@, d) is None <==> is_valid(self@, d),
            decreases n - i,
        {
            match self.check_service(i, dirs) {
                Ok(()) => {},
                Err(e) => {
                    proof {
                        lemma_services_fault(self@, d, i as int + 1, n as int);
                    }
                    return Err(e);
                },
            }
            i += 1;
        }
        let mut i: usize = 0;
        while i < n
            invariant
                i <= n,
                n == self.services@.len(),
                d == ids::texts(dirs@),
                self.port != 0,
                services_fault(self@, d, n as int) is None,
                requires_fault(self@, i as int) is None,
                config_fault(self@, d) is None <==> is_valid(self@, d),
            decreases n - i,
        {
            let one: Vec<String> = vec![self.services.id_at(i).clone()];
            assert(ids::texts(one@) =~= seq![self@.services[i as int].0]);
            match self.expand_requires(one.as_slice()) {
                Ok(_) => {},
                Err(f) => {
                    proof {
                        lemma_requires_fault(self@, i as int + 1, n as int);
                    }
                    return Err(ConfigError::Requires(f));
                },
            }
            i += 1;
        }
        Ok(())
    }
}

proof fn lemma_services_fault(c: ConfigModel, dirs: Seq<Seq<char>>, m: int, n: int)
    requires
        0 <= m <= n,
        services_fault(c, dirs, m) is Some,
    ensures
        services_fault(c, dirs, n) == services_fault(c, dirs, m),
    decreases n - m,
{
    if m < n {
        lemma_services_fault(c, dirs, m + 1, n);
    }
}

proof fn lemma_requires_fault(c: ConfigModel, m: int, n: int)
    requires
        0 <= m <= n,
        requires_fault(c, m) is Some,
    ensures
        requires_fault(c, n) == requires_fault(c, m),
    decreases n - m,
{
    if m < n {
        lemma_requires_fault(c, m + 1, n);
    }
}

/// A configuration passes the check just where it is valid.
pub proof fn law_valid_is_faultless(c: ConfigModel, dirs: Seq<Seq<char>>)
    requires
        ids::ascending(ids::keys(c.services)),
    ensures
        config_fault(c, dirs) is None <==> is_valid(c, dirs),
{
    let n = c.services.len() as int;
    lemma_services_none(c, dirs, n);
    lemma_requires_none(c, n);
    if config_fault(c, dirs) is None || is_valid(c, dirs) {
        assert forall|i: int| 0 <= i < n implies bad_requirement(
            c,
            (#[trigger] c.services[i]).0,
            c.services[i].1.requires,
        ) is None by {
            if is_valid(c, dirs) {
                let list = c.services[i].1.requires;
                assert forall|j: int| 0 <= j < list.len() implies !is_bad_requirement(
                    c,
                    c.services[i].0,
                    #[trigger] list[j],
                ) by {
                    assert(list.contains(list[j]));
                }
                lemma_bad_requirement(c, c.services[i].0, list, list.len() as int);
            } else {
                assert(service_fault(c, dirs, i) is None);
            }
        }
        assert forall|i: int, d: Seq<char>|
            0 <= i < n && (#[trigger] c.services[i]).1.requires.contains(
                d,
            ) implies !#[trigger] is_bad_requirement(c, c.services[i].0, d) by {
            lemma_requirement_stands(c, c.services[i].0, c.services[i].1.requires, d);
        }
        assert forall|x: Seq<char>| #[trigger] ids::has(c.services, x) implies forall|y: Seq<char>|
            depend::needed(c.services, seq![x], y) ==> ids::has(c.services, y) by {
            assert forall|y: Seq<char>| depend::needed(c.services, seq![x], y) implies ids::has(
                c.services,
                y,
            ) by {
                let a = choose|a: Seq<char>|
                    seq![x].contains(a) && depend::reaches(c.services, a, y);
                assert(a == x);
                let way = choose|way: Seq<Seq<char>>|
                    depend::is_way(c.services, way) && way.first() == a && way.last() == y;
                lemma_way_known(c, way);
            }
        }
        assert forall|i: int| 0 <= i < n implies (depend::walk_all(
            c.services,
            seq![(#[trigger] c.services[i]).0],
            Set::empty(),
        ) is None <==> depend::is_sound(c.services, seq![c.services[i].0])) by {
            depend::law_expansion_refuses_unknown_and_cyclic(c.services, seq![c.services[i].0]);
        }
        if is_valid(c, dirs) {
            assert forall|i: int| 0 <= i < n implies service_fault(c, dirs, i) is None by {
                assert(is_proper(c.services[i].0, c.services[i].1, dirs));
            }
            assert forall|i: int| 0 <= i < n implies depend::walk_all(
                c.services,
                seq![(#[trigger] c.services[i]).0],
                Set::empty(),
            ) is None by {
                assert(ids::keys(c.services)[i] == c.services[i].0);
                assert(ids::has(c.services, c.services[i].0));
                assert(depend::is_sound(c.services, seq![c.services[i].0]));
            }
        } else {
            assert forall|x: Seq<char>| #[trigger] ids::has(
                c.services,
                x,
            ) implies !depend::leads(c.services, x, x) by {
                let i = ids::keys(c.services).index_of(x);
                assert(ids::keys(c.services)[i] == c.services[i].0);
                assert(c.services[i].0 == x);
                assert(depend::is_sound(c.services, seq![x]));
                assert(seq![x].contains(x)) by {
                    assert(seq![x][0] == x);
                }
                depend::lemma_reaches_self(c.services, x);
                assert(depend::needed(c.services, seq![x], x));
            }
            assert forall|i: int| 0 <= i < n implies is_proper(
                (#[trigger] c.services[i]).0,
                c.services[i].1,
                dirs,
            ) by {
                assert(service_fault(c, dirs, i) is None);
            }
            assert forall|i: int|
                0 <= i < n && (#[trigger] c.services[i]).1.port is Some implies c.services[i].1.port->0
                != 0 && !port_taken(c, i, c.services[i].1.port->0) by {
                assert(service_fault(c, dirs, i) is None);
            }
        }
    }
}

proof fn lemma_services_none(c: ConfigModel, dirs: Seq<Seq<char>>, n: int)
    requires
        0 <= n,
    ensures
        services_fault(c, dirs, n) is None <==> forall|i: int|
            0 <= i < n ==> #[trigger] service_fault(c, dirs, i) is None,
    decreases n,
{
    if n > 0 {
        lemma_services_none(c, dirs, n - 1);
        if services_fault(c, dirs, n) is None {
            assert forall|i: int| 0 <= i < n implies #[trigger] service_fault(
                c,
                dirs,
                i,
            ) is None by {
                if i < n - 1 {
                    assert(service_fault(c, dirs, i) is None);
                }
            }
        }
    }
}

/// No fault is met on the way down from any of the first `n` services.
pub proof fn lemma_requires_none(c: ConfigModel, n: int)
    requires
        0 <= n,
    ensures
        requires_fault(c, n) is None <==> forall|i: int|
            0 <= i < n ==> depend::walk_all(
                c.services,
                seq![(#[trigger] c.services[i]).0],
                Set::empty(),
            ) is None,
    decreases n,
{
    if n > 0 {
        lemma_requires_none(c, n - 1);
    }
}

proof fn lemma_requirement_stands(
    c: ConfigModel,
    id: Seq<char>,
    list: Seq<Seq<char>>,
    d: Seq<char>,
)
    requires
        bad_requirement(c, id, list) is None,
        list.contains(d),
    ensures
        !is_bad_requirement(c, id, d),
    decreases list.len(),
{
    if list.first() != d {
        let i = choose|i: int| 0 <= i < list.len() && list[i] == d;
        assert(list.drop_first()[i - 1] == d);
        lemma_requirement_stands(c, id, list.drop_first(), d);
    }
}

proof fn lemma_way_known(c: ConfigModel, way: Seq<Seq<char>>)
    requires
        depend::is_way(c.services, way),
        ids::has(c.services, way.first()),
        ids::ascending(ids::keys(c.services)),
        forall|i: int, d: Seq<char>|
            0 <= i < c.services.len() && (#[trigger] c.services[i]).1.requires.contains(d)
                ==> !#[trigger] is_bad_requirement(c, c.services[i].0, d),
    ensures
        ids::has(c.services, way.last()),
{
    if way.len() > 1 {
        let n = way.len() as int;
        let a = way[n - 2];
        assert(ids::has(c.services, a) && depend::needs(c.services, a).contains(way[n - 2 + 1]));
        let i = ids::keys(c.services).index_of(a);
        assert(c.services[i].1.requires.contains(way[n - 1]));
        assert(!is_bad_requirement(c, c.services[i].0, way[n - 1]));
    }
}

/// A configuration that passes keeps the rules. Ports are not zero, and no two of
/// them are alike, nor like the supervisor's own. Ids and groups are made of
/// letters, digits, `-` and `_`. A start has from a tenth of a second to a minute.
/// Only starts, stops and restarts can be allowed. A managed service has a command,
/// and a discovered one has nothing that could change it. Paths begin at the root,
/// a working directory stands, and a health path has no white space and a port to
/// go with. What is required is configured, is another service, and does not
/// require this one.
#[verifier::rlimit(60)]
#[verifier::spinoff_prover]
pub proof fn law_configuration_that_passes_keeps_the_rules(
    c: ConfigModel,
    dirs: Seq<Seq<char>>,
    i: int,
    j: int,
    k: int,
)
    requires
        ids::ascending(ids::keys(c.services)),
        config_fault(c, dirs) is None,
        0 <= i < c.services.len(),
    ensures
        ({
            let (id, s) = c.services[i];
            &&& c.port != 0
            &&& s.port != Some(0u16) && s.port != Some(c.port)
            &&& 0 <= j < c.services.len() && j != i && s.port is Some ==> c.services[j].1.port
                != s.port
            &&& id.len() > 0
            &&& forall|n: int|
                0 <= n < id.len() ==> ('a' <= #[trigger] id[n] <= 'z' || 'A' <= id[n] <= 'Z'
                    || '0' <= id[n] <= '9' || id[n] == '-' || id[n] == '_')
            &&& 100 <= s.startup_timeout_ms <= 60000
            &&& 0 <= k < s.allowed_actions.len() ==> s.allowed_actions[k] == "start"@
                || s.allowed_actions[k] == "stop"@ || s.allowed_actions[k] == "restart"@
            &&& s.mode == Mode::Managed ==> s.command.len() > 0 && (s.command[0] == "@self"@
                || s.command[0].len() > 0 && s.command[0][0] == '/')
            &&& s.mode == Mode::Discovered ==> s.command.len() == 0 && s.allowed_actions.len() == 0
                && !s.disposable
            &&& s.cwd matches Some(d) ==> d.len() > 0 && d[0] == '/' && dirs.contains(d)
            &&& s.match_executable matches Some(x) ==> x.len() > 0 && x[0] == '/'
            &&& s.http_health_path matches Some(h) ==> s.port is Some && h.len() > 0 && h[0] == '/'
                && forall|n: int| 0 <= n < h.len() ==> !text::is_space(#[trigger] h[n])
            &&& s.exclusive_group matches Some(g) ==> g.len() > 0 && forall|n: int|
                    0 <= n < g.len() ==> ('a' <= #[trigger] g[n] <= 'z' || 'A' <= g[n] <= 'Z'
                        || '0' <= g[n] <= '9' || g[n] == '-' || g[n] == '_')
            &&& 0 <= k < s.requires.len() ==> s.requires[k] != id && exists|m: int|
                0 <= m < c.services.len() && (#[trigger] c.services[m]).0 == s.requires[k]
            &&& !depend::needed(c.services, s.requires, id)
        }),
{
    let (id, s) = c.services[i];
    law_valid_is_faultless(c, dirs);
    ids::lemma_at(c.services, i);
    assert(is_proper(c.services[i].0, c.services[i].1, dirs));
    if 0 <= j < c.services.len() && j != i && s.port is Some && c.services[j].1.port == s.port {
        if j < i {
            assert(port_taken(c, i, s.port->0));
        } else {
            assert(port_taken(c, j, s.port->0));
        }
    }
    if 0 <= k < s.requires.len() {
        let d = s.requires[k];
        assert(s.requires.contains(d));
        assert(!is_bad_requirement(c, c.services[i].0, d));
        let m = ids::keys(c.services).index_of(d);
        assert(c.services[m].0 == d);
    }
    if depend::needed(c.services, s.requires, id) {
        let a = choose|a: Seq<char>| s.requires.contains(a) && depend::reaches(c.services, a, id);
        assert(depend::needs(c.services, id).contains(a));
        assert(depend::leads(c.services, id, id));
    }
}

/// A configuration that keeps the rules passes.
#[verifier::rlimit(60)]
#[verifier::spinoff_prover]
pub proof fn law_configuration_that_keeps_the_rules_passes(c: ConfigModel, dirs: Seq<Seq<char>>)
    requires
        ids::ascending(ids::keys(c.services)),
        c.port != 0,
        forall|i: int|
            0 <= i < c.services.len() ==> {
                let (id, s) = #[trigger] c.services[i];
                &&& s.port != Some(0u16) && s.port != Some(c.port)
                &&& id.len() > 0 && forall|n: int|
                    0 <= n < id.len() ==> ('a' <= #[trigger] id[n] <= 'z' || 'A' <= id[n] <= 'Z'
                        || '0' <= id[n] <= '9' || id[n] == '-' || id[n] == '_')
                &&& 100 <= s.startup_timeout_ms <= 60000
                &&& forall|a: Seq<char>| #[trigger]
                    s.allowed_actions.contains(a) ==> a == "start"@ || a == "stop"@ || a
                        == "restart"@
                &&& s.mode == Mode::Managed ==> s.command.len() > 0 && (s.command[0] == "@self"@
                    || s.command[0].len() > 0 && s.command[0][0] == '/')
                &&& s.mode == Mode::Discovered ==> s.command.len() == 0 && s.allowed_actions.len()
                    == 0 && !s.disposable
                &&& s.cwd matches Some(d) ==> d.len() > 0 && d[0] == '/' && dirs.contains(d)
                &&& s.match_executable matches Some(x) ==> x.len() > 0 && x[0] == '/'
                &&& s.http_health_path matches Some(h) ==> s.port is Some && h.len() > 0 && h[0]
                    == '/' && forall|n: int| 0 <= n < h.len() ==> !text::is_space(#[trigger] h[n])
                &&& s.exclusive_group matches Some(g) ==> g.len() > 0 && forall|n: int|
                    0 <= n < g.len() ==> ('a' <= #[trigger] g[n] <= 'z' || 'A' <= g[n] <= 'Z'
                        || '0' <= g[n] <= '9' || g[n] == '-' || g[n] == '_')
            },
        forall|i: int, j: int|
            0 <= j < i < c.services.len() && (#[trigger] c.services[i]).1.port is Some ==> (
            #[trigger] c.services[j]).1.port != c.services[i].1.port,
        forall|i: int, d: Seq<char>|
            0 <= i < c.services.len() && #[trigger] c.services[i].1.requires.contains(d) ==> d
                != c.services[i].0 && exists|m: int|
                0 <= m < c.services.len() && (#[trigger] c.services[m]).0 == d,
        forall|i: int|
            0 <= i < c.services.len() ==> !depend::needed(
                c.services,
                (#[trigger] c.services[i]).1.requires,
                c.services[i].0,
            ),
    ensures
        config_fault(c, dirs) is None,
{
    law_valid_is_faultless(c, dirs);
    assert forall|i: int| 0 <= i < c.services.len() implies is_proper(
        (#[trigger] c.services[i]).0,
        c.services[i].1,
        dirs,
    ) by {
        let (id, s) = c.services[i];
        assert forall|k: int| 0 <= k < s.allowed_actions.len() implies is_action(
            #[trigger] s.allowed_actions[k],
        ) by {
            assert(s.allowed_actions.contains(s.allowed_actions[k]));
        }
    }
    assert forall|i: int|
        0 <= i < c.services.len() && (#[trigger] c.services[i]).1.port is Some implies c.services[i].1.port->0
        != 0 && !port_taken(c, i, c.services[i].1.port->0) by {
        let s = c.services[i].1;
        assert(s.port == Some(s.port->0));
    }
    assert forall|i: int, d: Seq<char>|
        0 <= i < c.services.len() && (#[trigger] c.services[i]).1.requires.contains(
            d,
        ) implies !#[trigger] is_bad_requirement(c, c.services[i].0, d) by {
        assert(c.services[i].1.requires.contains(d));
        let m = choose|m: int| 0 <= m < c.services.len() && (#[trigger] c.services[m]).0 == d;
        assert(ids::keys(c.services)[m] == d);
    }
    assert forall|x: Seq<char>| #[trigger] ids::has(c.services, x) implies !depend::leads(
        c.services,
        x,
        x,
    ) by {
        let i = ids::keys(c.services).index_of(x);
        assert(c.services[i].0 == x);
        if depend::leads(c.services, x, x) {
            let y = choose|y: Seq<char>|
                depend::needs(c.services, x).contains(y) && depend::reaches(c.services, y, x);
            assert(c.services[i].1.requires.contains(y));
            assert(depend::needed(c.services, c.services[i].1.requires, x));
        }
    }
}

proof fn lemma_faulty_service(c: ConfigModel, dirs: Seq<Seq<char>>, n: int) -> (i: int)
    requires
        0 <= n,
        services_fault(c, dirs, n) is Some,
    ensures
        0 <= i < n,
        service_fault(c, dirs, i) == services_fault(c, dirs, n),
        services_fault(c, dirs, i) is None,
    decreases n,
{
    if services_fault(c, dirs, n - 1) is Some {
        lemma_faulty_service(c, dirs, n - 1)
    } else {
        n - 1
    }
}

proof fn lemma_faulty_list(c: ConfigModel, n: int) -> (i: int)
    requires
        0 <= n,
        requires_fault(c, n) is Some,
    ensures
        0 <= i < n,
        depend::walk_all(c.services, seq![c.services[i].0], Set::empty()) matches Some(f)
            && requires_fault(c, n) == Some(ConfigError::Requires(f)),
    decreases n,
{
    if requires_fault(c, n - 1) is Some {
        lemma_faulty_list(c, n - 1)
    } else {
        n - 1
    }
}

proof fn lemma_first_bad(c: ConfigModel, id: Seq<char>, list: Seq<Seq<char>>)
    ensures
        bad_requirement(c, id, list) matches Some(d) ==> list.contains(d) && (d == id
            || !ids::has(c.services, d)),
    decreases list.len(),
{
    if list.len() > 0 {
        lemma_first_bad(c, id, list.drop_first());
        assert(list.contains(list.first()));
        if bad_requirement(c, id, list.drop_first()) is Some {
            let d = bad_requirement(c, id, list.drop_first())->0;
            let k = choose|k: int|
                0 <= k < list.drop_first().len() && list.drop_first()[k] == d;
            if list.drop_first().contains(d) {
                assert(list[k + 1] == d);
            }
        }
    }
}

/// What a configuration is refused for is wrong with it: the error names a rule
/// that the supervisor or some service breaks, and that service where it names one.
#[verifier::rlimit(60)]
#[verifier::spinoff_prover]
pub proof fn law_error_names_what_is_wrong(
    c: ConfigModel,
    dirs: Seq<Seq<char>>,
    e: ConfigError<Seq<char>>,
) -> (i: int)
    requires
        config_fault(c, dirs) == Some(e),
    ensures
        e is PortZero <==> c.port == 0,
        !(e is PortZero) ==> 0 <= i < c.services.len(),
        !(e is PortZero) ==> ({
            let (id, s) = c.services[i];
            match e {
                ConfigError::PortZero => true,
                ConfigError::InvalidId => id.len() == 0 || exists|n: int|
                    0 <= n < id.len() && !('a' <= #[trigger] id[n] <= 'z' || 'A' <= id[n] <= 'Z'
                        || '0' <= id[n] <= '9' || id[n] == '-' || id[n] == '_'),
                ConfigError::Port(p) => s.port == Some(p) && (p == 0 || p == c.port || exists|
                    j: int,
                |
                    0 <= j < i && (#[trigger] c.services[j]).1.port == Some(p)),
                ConfigError::Timeout => s.startup_timeout_ms < 100 || s.startup_timeout_ms > 60000,
                ConfigError::UnknownAction => exists|a: Seq<char>|
                    s.allowed_actions.contains(a) && a != "start"@ && a != "stop"@ && a
                        != "restart"@,
                ConfigError::CommandMissing(x) => x == id && s.mode == Mode::Managed
                    && s.command.len() == 0,
                ConfigError::CommandPath => s.mode == Mode::Managed && s.command.len() > 0
                    && s.command[0] != "@self"@ && (s.command[0].len() == 0 || s.command[0][0]
                    != '/'),
                ConfigError::ReadOnly(x) => x == id && s.mode == Mode::Discovered && (
                s.command.len() > 0 || s.allowed_actions.len() > 0 || s.disposable),
                ConfigError::Cwd => s.cwd matches Some(d) && (d.len() == 0 || d[0] != '/'
                    || !dirs.contains(d)),
                ConfigError::MatchPath => s.match_executable matches Some(x) && (x.len() == 0
                    || x[0] != '/'),
                ConfigError::HealthPath => s.http_health_path matches Some(h) && (s.port is None
                    || h.len() == 0 || h[0] != '/' || exists|n: int|
                    0 <= n < h.len() && text::is_space(#[trigger] h[n])),
                ConfigError::Group(x) => x == id && (s.exclusive_group matches Some(g) && (g.len()
                    == 0 || exists|n: int|
                    0 <= n < g.len() && !('a' <= #[trigger] g[n] <= 'z' || 'A' <= g[n] <= 'Z'
                        || '0' <= g[n] <= '9' || g[n] == '-' || g[n] == '_'))),
                ConfigError::Dependency(d, x) => x == id && s.requires.contains(d) && (d == id
                    || forall|m: int|
                    0 <= m < c.services.len() ==> (#[trigger] c.services[m]).0 != d),
                ConfigError::Requires(f) => depend::walk_all(
                    c.services,
                    seq![id],
                    Set::empty(),
                ) == Some(f),
            }
        }),
{
    let n = c.services.len() as int;
    if c.port == 0 {
        0
    } else if services_fault(c, dirs, n) is Some {
        let i = lemma_faulty_service(c, dirs, n);
        let (id, s) = c.services[i];
        lemma_first_bad(c, id, s.requires);
        match e {
            ConfigError::UnknownAction => {
                let k = choose|k: int|
                    0 <= k < s.allowed_actions.len() && !is_action(#[trigger] s.allowed_actions[k]);
                assert(s.allowed_actions.contains(s.allowed_actions[k]));
            },
            ConfigError::Dependency(d, x) => {
                if d != id {
                    assert forall|m: int| 0 <= m < n implies (#[trigger] c.services[m]).0 != d by {
                        assert(ids::keys(c.services)[m] == c.services[m].0);
                    }
                }
            },
            _ => {},
        }
        i
    } else {
        lemma_faulty_list(c, n)
    }
}

} // verus!
