//! Handler table: an explicit registry mapping route names to handlers,
//! built during module initialization and read by the dispatcher. Lookup is
//! by exact match; registering a route again overwrites the prior binding.
use vstd::prelude::*;

verus! {

/// Map model of an entry list: later entries shadow earlier ones.
pub open spec fn table_map<H>(entries: Seq<(String, H)>) -> Map<Seq<char>, H>
    decreases entries.len(),
{
    if entries.len() == 0 {
        Map::empty()
    } else {
        table_map(entries.drop_last()).insert(entries.last().0@, entries.last().1)
    }
}

/// The registry mapping route name to handler.
pub struct HandlerTable<H> {
    entries: Vec<(String, H)>,
}

impl<H> View for HandlerTable<H> {
    type V = Map<Seq<char>, H>;

    closed spec fn view(&self) -> Map<Seq<char>, H> {
        table_map(self.entries@)
    }
}

impl<H> HandlerTable<H> {
    /// An empty table: no route resolves.
    pub fn new() -> (t: HandlerTable<H>)
        ensures
            t@ == Map::<Seq<char>, H>::empty(),
    {
        HandlerTable { entries: Vec::new() }
    }

    /// Insert or replace the binding for `route`.
    pub fn register(&mut self, route: String, handler: H)
        ensures
            final(self)@ == old(self)@.insert(route@, handler),
    {
        let ghost before = self.entries@;
        self.entries.push((route, handler));
        proof {
            assert(self.entries@.drop_last() =~= before);
        }
    }

    fn resolve_prefix(&self, route: &String, i: usize) -> (r: Option<&H>)
        requires
            i <= self.entries@.len(),
        ensures
            match r {
                Some(h) => table_map(self.entries@.take(i as int)).contains_key(route@) && *h
                    == table_map(self.entries@.take(i as int))[route@],
                None => !table_map(self.entries@.take(i as int)).contains_key(route@),
            },
        decreases i,
    {
        if i == 0 {
            proof {
                assert(self.entries@.take(0) =~= Seq::<(String, H)>::empty());
            }
            None
        } else {
            proof {
                assert(self.entries@.take(i as int).drop_last() =~= self.entries@.take(
                    i as int - 1,
                ));
                assert(self.entries@.take(i as int).last() == self.entries@[i as int - 1]);
            }
            let entry = &self.entries[i - 1];
            if entry.0 == *route {
                Some(&entry.1)
            } else {
                self.resolve_prefix(route, i - 1)
            }
        }
    }

    /// Exact-match lookup; an unregistered route yields `None`.
    pub fn resolve(&self, route: &str) -> (r: Option<&H>)
        ensures
            match r {
                Some(h) => self@.contains_key(route@) && *h == self@[route@],
                None => !self@.contains_key(route@),
            },
    {
        let key = String::from_str(route);
        proof {
            assert(self.entries@.take(self.entries@.len() as int) =~= self.entries@);
        }
        self.resolve_prefix(&key, self.entries.len())
    }
}

/// Registering twice under one route leaves only the second binding
/// reachable, whatever was in the table before.
pub proof fn lemma_register_overwrite<H>(
    m: Map<Seq<char>, H>,
    route: Seq<char>,
    first: H,
    second: H,
)
    ensures
        m.insert(route, first).insert(route, second) == m.insert(route, second),
        m.insert(route, first).insert(route, second)[route] == second,
{
    assert(m.insert(route, first).insert(route, second) =~= m.insert(route, second));
}

} // verus!
