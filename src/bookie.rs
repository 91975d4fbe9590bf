use crate::booked::{booked_after, empty_ledger, last_of, Booked};
use crate::ids::ActorId;
use crate::version::{BookError, KnownDbVersion, VersionView};
use std::collections::HashMap;
use vstd::prelude::*;

verus! {

broadcast use vstd::std_specs::hash::group_hash_axioms;

/// The registry: one ledger for each actor this node has heard of, keyed
/// by the actor's identifier.
pub struct Bookie {
    ledgers: HashMap<u128, Booked>,
}

/// The ledger of `actor` in `m`, empty where the actor is unknown.
pub open spec fn ledger_or_empty(m: Map<u128, Map<int, VersionView>>, actor: ActorId) -> Map<int, VersionView> {
    if m.contains_key(actor.0) {
        m[actor.0]
    } else {
        empty_ledger()
    }
}

/// The registry after making sure that `actor` has a ledger.
pub open spec fn with_actor(m: Map<u128, Map<int, VersionView>>, actor: ActorId) -> Map<u128, Map<int, VersionView>> {
    m.insert(actor.0, ledger_or_empty(m, actor))
}

/// Looking an actor up twice is looking it up once: the second lookup
/// finds the ledger that the first one created or found, and changes
/// nothing; a ledger that existed is left as it was.
pub proof fn lemma_for_actor_idempotent(m: Map<u128, Map<int, VersionView>>, actor: ActorId)
    ensures
        with_actor(with_actor(m, actor), actor) == with_actor(m, actor),
        m.contains_key(actor.0) ==> with_actor(m, actor) == m,
{
    assert(with_actor(with_actor(m, actor), actor) =~= with_actor(m, actor));
    if m.contains_key(actor.0) {
        assert(with_actor(m, actor) =~= m);
    }
}

impl View for Bookie {
    type V = Map<u128, Map<int, VersionView>>;

    closed spec fn view(&self) -> Map<u128, Map<int, VersionView>> {
        self.ledgers@.map_values(|b: Booked| b@)
    }
}

impl Bookie {
    /// A registry that knows no actor.
    pub fn new() -> (r: Bookie)
        ensures
            r@.dom() == Set::<u128>::empty(),
    {
        let r = Bookie { ledgers: HashMap::new() };
        assert(r@.dom() =~= Set::<u128>::empty());
        r
    }

    /// Makes sure that `actor` has a ledger: an empty one is created on
    /// first reference, an existing one is left untouched.
    pub fn for_actor(&mut self, actor: ActorId)
        ensures
            final(self)@ == with_actor(old(self)@, actor),
    {
        if !self.ledgers.contains_key(&actor.0) {
            self.ledgers.insert(actor.0, Booked::new());
        }
        assert(self@ =~= old(self)@.insert(actor.0, ledger_or_empty(old(self)@, actor)));
    }

    /// Books `known` at `version` in the ledger of `actor`, creating that
    /// ledger first where the actor is unknown.
    pub fn add(&mut self, actor: ActorId, version: i64, known: KnownDbVersion) -> (r: Result<(), BookError>)
        ensures
            ({
                let before = ledger_or_empty(old(self)@, actor);
                let (after, res) = booked_after(before, version as int, known@);
                &&& final(self)@ == old(self)@.insert(actor.0, after)
                &&& r == res
            }),
    {
        let ghost before = ledger_or_empty(old(self)@, actor);
        self.for_actor(actor);
        let ghost mid = self@;
        let ghost raw = self.ledgers@;
        assert(mid.contains_key(actor.0));
        assert(mid.dom() == raw.dom());
        assert(raw.contains_key(actor.0));
        assert(mid[actor.0] == raw[actor.0]@);
        assert(mid[actor.0] == before);
        let mut booked = match self.ledgers.remove(&actor.0) {
            Some(b) => b,
            None => Booked::new(),
        };
        assert(booked@ == before);
        let r = booked.insert(version, known);
        self.ledgers.insert(actor.0, booked);
        assert(self.ledgers@ == raw.remove(actor.0).insert(actor.0, booked));
        assert(self@ =~= mid.insert(actor.0, booked@));
        assert(mid.insert(actor.0, booked@) =~= old(self)@.insert(actor.0, booked@));
        r
    }

    /// Whether the ledger of `actor` holds `version`; false for an unknown
    /// actor.
    pub fn contains(&self, actor: ActorId, version: i64) -> (r: bool)
        ensures
            r == ledger_or_empty(self@, actor).contains_key(version as int),
    {
        match self.ledgers.get(&actor.0) {
            Some(booked) => booked.contains(version),
            None => false,
        }
    }

    /// The highest version booked for `actor`; none for an unknown actor.
    pub fn last(&self, actor: &ActorId) -> (r: Option<i64>)
        ensures
            r matches Some(k) ==> last_of(ledger_or_empty(self@, *actor)) == Some(k as int),
            r is None <==> last_of(ledger_or_empty(self@, *actor)) is None,
    {
        match self.ledgers.get(&actor.0) {
            Some(booked) => booked.last(),
            None => {
                proof {
                    let m = ledger_or_empty(self@, *actor);
                    assert(m == empty_ledger());
                }
                None
            },
        }
    }

    /// The ledger of `actor`, if the actor is known.
    pub fn get(&self, actor: ActorId) -> (r: Option<&Booked>)
        ensures
            match r {
                Some(b) => self@.contains_key(actor.0) && b@ == self@[actor.0],
                None => !self@.contains_key(actor.0),
            },
    {
        self.ledgers.get(&actor.0)
    }
}

} // verus!
