use vstd::prelude::*;
use dashmap::DashMap;
use crate::metrics::{count_of, MetricsError};

verus! {

/// `dashmap`'s concurrent map. Nothing is known of what is inside but
/// through `cmap_contents`.
#[verifier::external_type_specification]
#[verifier::external_body]
#[verifier::reject_recursive_types(K)]
#[verifier::reject_recursive_types(V)]
#[verifier::reject_recursive_types(S)]
pub struct ExDashMap<K, V, S>(dashmap::DashMap<K, V, S>);

/// What a map of counters holds: the count under each name.
pub uninterp spec fn cmap_contents(counters: DashMap<String, i64>) -> Map<Seq<char>, int>;

/// `DashMap::new` makes a map that holds nothing.
#[verifier::external_body]
fn cmap_new() -> (fresh: DashMap<String, i64>)
    ensures
        forall|name: Seq<char>| !(#[trigger] cmap_contents(fresh).contains_key(name)),
{
    DashMap::new()
}

/// `DashMap::entry` followed by `Entry::or_insert`: where the map holds
/// nothing under `key`, it now holds `start` there; where it holds a count,
/// nothing changes. Returns the count that the map holds under `key`
/// afterwards.
#[verifier::external_body]
fn cmap_or_insert(counters: &mut DashMap<String, i64>, key: String, start: i64) -> (count: i64)
    ensures
        cmap_contents(*final(counters)) == (if cmap_contents(*old(counters)).contains_key(key@) {
            cmap_contents(*old(counters))
        } else {
            cmap_contents(*old(counters)).insert(key@, start as int)
        }),
        count == cmap_contents(*final(counters))[key@],
{
    *counters.entry(key).or_insert(start)
}

/// `DashMap::insert` puts `count` under `key`, in place of what was there.
#[verifier::external_body]
fn cmap_insert(counters: &mut DashMap<String, i64>, key: String, count: i64)
    ensures
        cmap_contents(*final(counters)) == cmap_contents(*old(counters)).insert(key@, count as int),
{
    counters.insert(key, count);
}

/// `DashMap::get` finds the count under `key`, if the map holds one.
#[verifier::external_body]
fn cmap_get(counters: &DashMap<String, i64>, key: &str) -> (r: Option<i64>)
    ensures
        r is Some <==> cmap_contents(*counters).contains_key(key@),
        r matches Some(count) ==> count == cmap_contents(*counters)[key@],
{
    match counters.get(key) {
        Some(entry) => Some(*entry),
        None => None,
    }
}

/// Counters that come into being when first touched, kept in a `DashMap`.
pub struct CMapMetrics {
    data: DashMap<String, i64>,
}

impl View for CMapMetrics {
    type V = Map<Seq<char>, int>;

    /// The counters by name.
    closed spec fn view(&self) -> Map<Seq<char>, int> {
        cmap_contents(self.data)
    }
}

impl CMapMetrics {
    /// No counters yet.
    pub fn new() -> (m: Self)
        ensures
            m@ == Map::<Seq<char>, int>::empty(),
    {
        let m = Self { data: cmap_new() };
        assert(m@ =~= Map::<Seq<char>, int>::empty());
        m
    }

    /// Puts the counter named `key` at `count`, whether or not it existed.
    pub fn set(&mut self, key: &str, count: i64)
        ensures
            final(self)@ == old(self)@.insert(key@, count as int),
    {
        cmap_insert(&mut self.data, key.to_owned(), count);
    }

    /// Moves the counter named `key` by `delta`, from zero where it did not exist.
    fn shift(&mut self, key: &str, delta: i64) -> (r: Result<(), MetricsError>)
        ensures
            i64::MIN <= count_of(old(self)@, key@) <= i64::MAX,
            match r {
                Ok(_) => {
                    &&& i64::MIN <= count_of(old(self)@, key@) + delta <= i64::MAX
                    &&& final(self)@ == old(self)@.insert(
                        key@,
                        count_of(old(self)@, key@) + delta,
                    )
                },
                Err(e) => {
                    &&& e == MetricsError::Overflow
                    &&& !(i64::MIN <= count_of(old(self)@, key@) + delta <= i64::MAX)
                    &&& final(self)@ == old(self)@
                },
            },
    {
        let ghost before = self@;
        let count = cmap_or_insert(&mut self.data, key.to_owned(), 0);
        match count.checked_add(delta) {
            Some(next) => {
                cmap_insert(&mut self.data, key.to_owned(), next);
                assert(self@ =~= before.insert(key@, next as int));
                Ok(())
            },
            None => Err(MetricsError::Overflow),
        }
    }

    /// Adds one to the counter named `key`; a counter that did not exist
    /// starts from zero.
    pub fn incr(&mut self, key: &str) -> (r: Result<(), MetricsError>)
        ensures
            match r {
                Ok(_) => {
                    &&& count_of(old(self)@, key@) < i64::MAX
                    &&& final(self)@ == old(self)@.insert(key@, count_of(old(self)@, key@) + 1)
                },
                Err(e) => {
                    &&& e == MetricsError::Overflow
                    &&& count_of(old(self)@, key@) == i64::MAX
                    &&& final(self)@ == old(self)@
                },
            },
    {
        self.shift(key, 1)
    }

    /// Takes one from the counter named `key`; a counter that did not exist
    /// starts from zero.
    pub fn decr(&mut self, key: &str) -> (r: Result<(), MetricsError>)
        ensures
            match r {
                Ok(_) => {
                    &&& count_of(old(self)@, key@) > i64::MIN
                    &&& final(self)@ == old(self)@.insert(key@, count_of(old(self)@, key@) - 1)
                },
                Err(e) => {
                    &&& e == MetricsError::Overflow
                    &&& count_of(old(self)@, key@) == i64::MIN
                    &&& final(self)@ == old(self)@
                },
            },
    {
        self.shift(key, -1)
    }

    /// What the counter named `key` stands at, if it exists.
    pub fn get(&self, key: &str) -> (r: Option<i64>)
        ensures
            match r {
                Some(count) => self@.contains_key(key@) && self@[key@] == count,
                None => !self@.contains_key(key@),
            },
    {
        cmap_get(&self.data, key)
    }
}

impl Default for CMapMetrics {
    fn default() -> (m: Self)
        ensures
            m@ == Map::<Seq<char>, int>::empty(),
    {
        Self::new()
    }
}

} // verus!
