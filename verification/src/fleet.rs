//! The configured services, and the processes that the supervisor owns for them.

use vstd::prelude::*;
use crate::config::{Config, ConfigModel, Services};
use crate::ids;
use crate::ids::IdMap;
use crate::model;
use crate::model::{Owned, Process, ProcessModel};
use crate::roster::Roster;
use crate::sight::{has_pid, Readings, ReadingsModel};
use crate::validate;

verus! {

/// The owned processes by service, in the order of the service ids.
pub type OwnedSeq = Seq<(Seq<char>, Owned)>;

/// The process is in the table under its number and with its start time.
pub open spec fn is_present(rows: Seq<ProcessModel>, o: Owned) -> bool {
    exists|k: int|
        0 <= k < rows.len() && (#[trigger] rows[k]).pid == o.pid && rows[k].start_time
            == o.start_time
}

pub fn present(rows: &Vec<Process>, o: Owned) -> (r: bool)
    ensures
        r == is_present(model::table(rows@), o),
{
    let ghost t = model::table(rows@);
    let mut i: usize = 0;
    while i < rows.len()
        invariant
            i <= rows@.len(),
            t == model::table(rows@),
            forall|j: int|
                0 <= j < i ==> !((#[trigger] t[j]).pid == o.pid && t[j].start_time == o.start_time),
        decreases rows@.len() - i,
    {
        assert(t[i as int] == rows@[i as int]@);
        if rows[i].pid == o.pid && rows[i].start_time == o.start_time {
            return true;
        }
        i += 1;
    }
    false
}

/// The process has not exited, and is still the one that was started.
pub open spec fn is_live(r: ReadingsModel, o: Owned) -> bool {
    !r.exited.contains(o.pid) && is_present(r.rows, o)
}

/// What is still owned, going by the readings.
pub open spec fn still_owned(owned: OwnedSeq, r: ReadingsModel) -> OwnedSeq {
    owned.filter(|e: (Seq<char>, Owned)| is_live(r, e.1))
}

/// What is owned is owned for a configured service.
pub open spec fn all_configured(services: Services, owned: OwnedSeq) -> bool {
    forall|i: int| 0 <= i < owned.len() ==> ids::has(services, (#[trigger] owned[i]).0)
}

/// A checked configuration with what is owned for its services, and for nothing
/// else.
#[derive(Debug, PartialEq)]
pub struct Fleet {
    roster: Roster,
    owned: IdMap<Owned>,
}

pub struct FleetModel {
    pub config: ConfigModel,
    pub owned: OwnedSeq,
}

impl View for Fleet {
    type V = FleetModel;

    closed spec fn view(&self) -> FleetModel {
        FleetModel { config: self.roster@, owned: self.owned@ }
    }
}

impl Fleet {
    #[verifier::type_invariant]
    spec fn is_closed(self) -> bool {
        all_configured(self.roster@.services, self.owned@)
    }

    /// The directories that the configuration was checked against.
    pub closed spec fn dirs(self) -> Seq<Seq<char>> {
        self.roster.dirs()
    }

    /// Owns nothing yet.
    pub fn new(roster: Roster) -> (f: Fleet)
        ensures
            f@ == (FleetModel { config: roster@, owned: Seq::empty() }),
            f.dirs() == roster.dirs(),
    {
        Fleet { roster, owned: IdMap::new() }
    }

    pub fn roster(&self) -> (r: &Roster)
        ensures
            r@ == self@.config,
            r.dirs() == self.dirs(),
    {
        &self.roster
    }

    pub fn config(&self) -> (c: &Config)
        ensures
            c@ == self@.config,
            validate::is_valid(self@.config, self.dirs()),
            ids::ascending(ids::keys(self@.config.services)),
    {
        self.roster.config()
    }

    pub fn owned(&self) -> (m: &IdMap<Owned>)
        ensures
            m@ == self@.owned,
            ids::ascending(ids::keys(self@.owned)),
            all_configured(self@.config.services, self@.owned),
    {
        proof {
            use_type_invariant(self);
        }
        let _ = self.owned.len();
        &self.owned
    }

    /// Owns a process for a configured service, in the place of any other.
    pub fn own(&mut self, id: String, o: Owned)
        requires
            ids::has(old(self)@.config.services, id@),
        ensures
            final(self)@ == (FleetModel {
                owned: ids::with(old(self)@.owned, id@, o),
                ..old(self)@
            }),
            final(self).dirs() == old(self).dirs(),
    {
        proof {
            use_type_invariant(&*self);
        }
        let ghost s = self.roster@.services;
        let ghost name = id@;
        let mut map: IdMap<Owned> = IdMap::new();
        std::mem::swap(&mut map, &mut self.owned);
        let _ = map.len();
        proof {
            lemma_with_configured(s, map@, name, o);
        }
        map.insert(id, o);
        self.owned = map;
    }

    /// Gives up what is owned for the service, if anything is.
    pub fn disown(&mut self, id: &str)
        ensures
            final(self)@ == (FleetModel {
                owned: ids::without(old(self)@.owned, id@),
                ..old(self)@
            }),
            final(self).dirs() == old(self).dirs(),
    {
        proof {
            use_type_invariant(&*self);
        }
        let ghost s = self.roster@.services;
        let mut map: IdMap<Owned> = IdMap::new();
        std::mem::swap(&mut map, &mut self.owned);
        let _ = map.len();
        proof {
            lemma_without_configured(s, map@, id@);
        }
        map.remove(id);
        self.owned = map;
    }

    /// Gives up what the readings show to be gone.
    pub fn refresh(&mut self, r: &Readings)
        ensures
            final(self)@ == (FleetModel {
                owned: still_owned(old(self)@.owned, r@),
                ..old(self)@
            }),
            final(self).dirs() == old(self).dirs(),
    {
        proof {
            use_type_invariant(&*self);
        }
        let mut map: IdMap<Owned> = IdMap::new();
        std::mem::swap(&mut map, &mut self.owned);
        proof {
            lemma_still_configured(self.roster@.services, map@, r@);
        }
        keep_live(&mut map, r);
        self.owned = map;
    }
}

/// Leaves only what the readings show to be live.
fn keep_live(owned: &mut IdMap<Owned>, r: &Readings)
    ensures
        final(owned)@ == still_owned(old(owned)@, r@),
{
    let ghost before = owned@;
    let ghost keep = |e: (Seq<char>, Owned)| is_live(r@, e.1);
    let mut i: usize = 0;
    let ghost mut j: int = 0;
    let mut left: usize = owned.len();
    assert(before.take(0).filter(keep) =~= Seq::<(Seq<char>, Owned)>::empty()) by {
        reveal(Seq::filter);
    }
    assert(before.skip(0) =~= before);
    assert(owned@ =~= before.take(0).filter(keep) + before.skip(0));
    while left > 0
        invariant
            keep == (|e: (Seq<char>, Owned)| is_live(r@, e.1)),
            left == before.len() - j,
            0 <= j <= before.len(),
            i == before.take(j).filter(keep).len(),
            owned@ == before.take(j).filter(keep) + before.skip(j),
        decreases left,
    {
        let n: usize = owned.len();
        let o: Owned = *owned.at(i);
        assert(owned@[i as int] == before[j]);
        assert(before.take(j + 1) =~= before.take(j).push(before[j]));
        proof {
            before.take(j).lemma_filter_push(before[j], keep);
        }
        let ghost held = owned@;
        if !has_pid(&r.exited, o.pid) && present(&r.rows, o) {
            assert(keep(before[j]));
            i += 1;
        } else {
            assert(!keep(before[j]));
            let id: String = owned.id_at(i).clone();
            proof {
                ids::lemma_at(held, i as int);
            }
            owned.remove(id.as_str());
            assert(owned@ == held.remove(i as int));
        }
        proof {
            assert(owned@ =~= before.take(j + 1).filter(keep) + before.skip(j + 1));
            j = j + 1;
        }
        left -= 1;
    }
    assert(before.take(j) =~= before);
    assert(owned@ =~= still_owned(before, r@));
}

pub proof fn lemma_with_configured(services: Services, owned: OwnedSeq, id: Seq<char>, o: Owned)
    requires
        all_configured(services, owned),
        ids::ascending(ids::keys(owned)),
        ids::has(services, id),
    ensures
        all_configured(services, ids::with(owned, id, o)),
{
    ids::lemma_with(owned, id, o);
    let w = ids::with(owned, id, o);
    assert forall|i: int| 0 <= i < w.len() implies ids::has(services, (#[trigger] w[i]).0) by {
        ids::lemma_at(w, i);
        assert(ids::has(w, w[i].0));
        if w[i].0 != id {
            lemma_configured(services, owned, w[i].0);
        }
    }
}

pub proof fn lemma_without_configured(services: Services, owned: OwnedSeq, id: Seq<char>)
    requires
        all_configured(services, owned),
        ids::ascending(ids::keys(owned)),
    ensures
        all_configured(services, ids::without(owned, id)),
{
    ids::lemma_without(owned, id);
    let w = ids::without(owned, id);
    assert forall|i: int| 0 <= i < w.len() implies ids::has(services, (#[trigger] w[i]).0) by {
        ids::lemma_at(w, i);
        assert(ids::has(w, w[i].0));
        lemma_configured(services, owned, w[i].0);
    }
}

pub proof fn lemma_still_configured(services: Services, owned: OwnedSeq, r: ReadingsModel)
    requires
        all_configured(services, owned),
    ensures
        all_configured(services, still_owned(owned, r)),
{
    let keep = |e: (Seq<char>, Owned)| is_live(r, e.1);
    let w = still_owned(owned, r);
    assert forall|i: int| 0 <= i < w.len() implies ids::has(services, (#[trigger] w[i]).0) by {
        assert(w.contains(w[i]));
        owned.lemma_filter_contains_rev(keep, w[i]);
        let k = choose|k: int| 0 <= k < owned.len() && owned[k] == w[i];
        assert(ids::has(services, owned[k].0));
    }
}

/// A service that something is owned for is configured.
pub proof fn lemma_configured(services: Services, owned: OwnedSeq, id: Seq<char>)
    requires
        all_configured(services, owned),
        ids::has(owned, id),
    ensures
        ids::has(services, id),
{
    let k = choose|k: int| 0 <= k < ids::keys(owned).len() && ids::keys(owned)[k] == id;
    assert(owned[k].0 == id);
}

} // verus!
