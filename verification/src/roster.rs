//! A configuration that has been checked.

use vstd::prelude::*;
use crate::config::{Config, ConfigModel};
use crate::depend;
use crate::depend::DependencyFault;
use crate::ids;
use crate::ids::contains_text;
use crate::text::same;
use crate::validate;
use crate::validate::ConfigError;

verus! {

/// A valid configuration.
#[derive(Debug, PartialEq, Eq)]
pub struct Roster {
    config: Config,
    dirs: Vec<String>,
}

impl View for Roster {
    type V = ConfigModel;

    closed spec fn view(&self) -> ConfigModel {
        self.config@
    }
}

impl Roster {
    #[verifier::type_invariant]
    spec fn is_checked(self) -> bool {
        validate::is_valid(self.config@, ids::texts(self.dirs@))
    }

    /// The directories that the configuration was checked against.
    pub closed spec fn dirs(self) -> Seq<Seq<char>> {
        ids::texts(self.dirs@)
    }

    /// Checks a configuration; `dirs` are the paths at which a directory stands,
    /// as far as the services name them.
    pub fn new(config: Config, dirs: Vec<String>) -> (r: Result<Roster, ConfigError<String>>)
        ensures
            match r {
                Ok(roster) => {
                    &&& roster@ == config@
                    &&& roster.dirs() == ids::texts(dirs@)
                    &&& validate::is_valid(config@, ids::texts(dirs@))
                },
                Err(e) => validate::config_fault(config@, ids::texts(dirs@)) == Some(e@),
            },
    {
        match config.validate(&dirs) {
            Ok(()) => Ok(Roster { config, dirs }),
            Err(e) => Err(e),
        }
    }

    pub fn config(&self) -> (c: &Config)
        ensures
            c@ == self@,
            validate::is_valid(self@, self.dirs()),
            ids::ascending(ids::keys(self@.services)),
    {
        proof {
            use_type_invariant(self);
        }
        let _ = self.config.services.len();
        &self.config
    }

    /// The services of `list` with all that they require, in the order of their
    /// ids.
    pub fn expanded(&self, list: &Vec<String>) -> (r: Result<Vec<String>, DependencyFault<String>>)
        ensures
            match r {
                Ok(full) => {
                    &&& depend::walk_all(self@.services, ids::texts(list@), Set::empty()) is None
                    &&& ids::ascending(ids::texts(full@))
                    &&& forall|x: Seq<char>| #[trigger]
                        ids::texts(full@).contains(x) <==> depend::needed(
                            self@.services,
                            ids::texts(list@),
                            x,
                        )
                },
                Err(f) => depend::walk_all(self@.services, ids::texts(list@), Set::empty()) == Some(
                    f@,
                ),
            },
    {
        self.config.expand_requires(list.as_slice())
    }

    /// Whether `id` is among `list`, or required by one of it.
    pub fn needs(&self, list: &Vec<String>, id: &str) -> (r: bool)
        ensures
            r == depend::needed(self@.services, ids::texts(list@), id@),
    {
        let ghost s = self@.services;
        let ghost l = ids::texts(list@);
        let mut k: usize = 0;
        while k < list.len()
            invariant
                k <= list@.len(),
                l == ids::texts(list@),
                s == self@.services,
                forall|j: int| 0 <= j < k ==> !depend::reaches(s, #[trigger] l[j], id@),
            decreases list@.len() - k,
        {
            assert(l[k as int] == list@[k as int]@);
            assert(l.contains(l[k as int]));
            if same(list[k].as_str(), id) {
                proof {
                    depend::lemma_reaches_self(s, id@);
                }
                return true;
            }
            match self.config.services.find(list[k].as_str()) {
                Some(i) => {
                    let one: Vec<String> = vec![list[k].clone()];
                    assert(ids::texts(one@) =~= seq![l[k as int]]);
                    match self.config.expand_requires(one.as_slice()) {
                        Ok(full) => {
                            assert(depend::needed(s, seq![l[k as int]], id@) == depend::reaches(
                                s,
                                l[k as int],
                                id@,
                            )) by {
                                let one = seq![l[k as int]];
                                assert(one[0] == l[k as int]);
                                assert(one.contains(l[k as int]));
                            }
                            if contains_text(&full, id) {
                                return true;
                            }
                        },
                        Err(f) => {
                            proof {
                                use_type_invariant(self);
                                validate::law_valid_is_faultless(self@, self.dirs());
                                validate::lemma_requires_none(self@, self@.services.len() as int);
                                assert(self@.services[i as int].0 == l[k as int]);
                                assert(depend::walk_all(
                                    self@.services,
                                    seq![self@.services[i as int].0],
                                    Set::empty(),
                                ) is None);
                            }
                        },
                    }
                },
                None => {
                    assert(!depend::reaches(s, l[k as int], id@)) by {
                        if depend::reaches(s, l[k as int], id@) {
                            let way = choose|way: Seq<Seq<char>>|
                                depend::is_way(s, way) && way.first() == l[k as int] && way.last()
                                    == id@;
                            assert(way[0] == l[k as int]);
                            assert(way.len() > 1);
                            assert(ids::has(s, way[0]));
                        }
                    }
                },
            }
            k += 1;
        }
        assert(!depend::needed(s, l, id@)) by {
            if depend::needed(s, l, id@) {
                let a = choose|a: Seq<char>| l.contains(a) && depend::reaches(s, a, id@);
                let j = choose|j: int| 0 <= j < l.len() && l[j] == a;
                assert(!depend::reaches(s, l[j], id@));
            }
        }
        false
    }
}

} // verus!
