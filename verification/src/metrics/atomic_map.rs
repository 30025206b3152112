use vstd::prelude::*;
use crate::metrics::{
    absent, distinct_names, entries_of, find, lemma_table_absent, lemma_table_present,
    lemma_table_push, lemma_table_update, listing, render_counters, table, Counter, MetricsError,
};

verus! {

/// `v` brought back into the range of a counter, which wraps around at its ends.
pub open spec fn wrapped(v: int) -> int {
    if v > i64::MAX {
        v - 0x1_0000_0000_0000_0000
    } else if v < i64::MIN {
        v + 0x1_0000_0000_0000_0000
    } else {
        v
    }
}

/// One of `names` reads `key`.
pub open spec fn named(names: Seq<&'static str>, key: Seq<char>) -> bool {
    exists|i: int| 0 <= i < names.len() && (#[trigger] names[i])@ == key
}

/// Counters under names that are fixed when the set is made.
#[derive(Debug)]
pub struct AtomicMetrics {
    data: Vec<Counter>,
}

impl AtomicMetrics {
    /// No two counters have the same name.
    pub closed spec fn wf(&self) -> bool {
        distinct_names(entries_of(self.data@))
    }

    /// The counters, in the order in which they are listed.
    pub closed spec fn entries(&self) -> Seq<(Seq<char>, int)> {
        entries_of(self.data@)
    }
}

impl View for AtomicMetrics {
    type V = Map<Seq<char>, int>;

    /// The counters by name.
    open spec fn view(&self) -> Map<Seq<char>, int> {
        table(self.entries())
    }
}

impl AtomicMetrics {
    /// One counter at zero for each name; a name given twice counts once.
    pub fn new(metrics_names: &[&'static str]) -> (m: Self)
        ensures
            m.wf(),
            m@ == Map::<Seq<char>, int>::new(
                |key: Seq<char>| named(metrics_names@, key),
                |key: Seq<char>| 0int,
            ),
    {
        let mut data: Vec<Counter> = Vec::new();
        let mut i: usize = 0;
        while i < metrics_names.len()
            invariant
                i <= metrics_names@.len(),
                distinct_names(entries_of(data@)),
                forall|t: int|
                    0 <= t < data@.len() ==> (#[trigger] data@[t]).count == 0 && named(
                        metrics_names@.take(i as int),
                        data@[t].name@,
                    ),
                forall|j: int|
                    0 <= j < i ==> !absent(entries_of(data@), (#[trigger] metrics_names@[j])@),
            decreases metrics_names@.len() - i,
        {
            let name = metrics_names[i].to_owned();
            let ghost before = data@;
            let ghost seen = metrics_names@.take(i as int);
            let ghost next = metrics_names@.take(i + 1);
            proof {
                assert forall|key: Seq<char>| named(seen, key) implies named(next, key) by {
                    let j = choose|j: int| 0 <= j < seen.len() && (#[trigger] seen[j])@ == key;
                    assert(next[j] == seen[j]);
                }
                assert(next[i as int]@ == name@);
            }
            if find(&data, &name).is_none() {
                proof {
                    lemma_table_push(entries_of(before), name@, 0);
                }
                data.push(Counter { name, count: 0 });
                proof {
                    assert(entries_of(data@) =~= entries_of(before).push((name@, 0int)));
                    assert forall|j: int| 0 <= j <= i implies !absent(
                        entries_of(data@),
                        (#[trigger] metrics_names@[j])@,
                    ) by {
                        if j < i {
                            let t = choose|t: int|
                                0 <= t < entries_of(before).len() && !((#[trigger] entries_of(
                                    before,
                                )[t]).0 != metrics_names@[j]@);
                            assert(entries_of(data@)[t].0 == metrics_names@[j]@);
                        } else {
                            assert(entries_of(data@)[before.len() as int].0 == name@);
                        }
                    }
                }
            } else {
                proof {
                    assert forall|j: int| 0 <= j <= i implies !absent(
                        entries_of(data@),
                        (#[trigger] metrics_names@[j])@,
                    ) by {}
                }
            }
            i = i + 1;
        }
        let m = Self { data };
        proof {
            let want = Map::<Seq<char>, int>::new(
                |key: Seq<char>| named(metrics_names@, key),
                |key: Seq<char>| 0int,
            );
            let s = m.entries();
            assert(metrics_names@.take(i as int) =~= metrics_names@);
            assert forall|key: Seq<char>| #[trigger] m@.contains_key(key) == named(
                metrics_names@,
                key,
            ) by {
                if named(metrics_names@, key) {
                    let j = choose|j: int|
                        0 <= j < metrics_names@.len() && (#[trigger] metrics_names@[j])@ == key;
                    assert(!absent(s, metrics_names@[j]@));
                    let t = choose|t: int| 0 <= t < s.len() && !((#[trigger] s[t]).0 != key);
                    lemma_table_present(s, t);
                } else {
                    assert forall|t: int| 0 <= t < s.len() implies (#[trigger] s[t]).0 != key by {
                        assert(named(metrics_names@, m.data@[t].name@));
                    }
                    lemma_table_absent(s, key);
                }
            }
            assert forall|key: Seq<char>| #[trigger] m@.contains_key(key) implies m@[key] == 0 by {
                if absent(s, key) {
                    lemma_table_absent(s, key);
                } else {
                    let t = choose|t: int| 0 <= t < s.len() && !((#[trigger] s[t]).0 != key);
                    lemma_table_present(s, t);
                    assert(m.data@[t].count == 0);
                }
            }
            assert(m@ =~= want);
        }
        m
    }

    /// Puts the counter named `key` at `count`.
    pub fn set(&mut self, key: &str, count: i64) -> (r: Result<(), MetricsError>)
        requires
            old(self).wf(),
        ensures
            final(self).wf(),
            match r {
                Ok(_) => {
                    &&& old(self)@.contains_key(key@)
                    &&& final(self)@ == old(self)@.insert(key@, count as int)
                },
                Err(e) => {
                    &&& e == MetricsError::KeyNotFound
                    &&& !old(self)@.contains_key(key@)
                    &&& final(self)@ == old(self)@
                    &&& final(self).entries() == old(self).entries()
                },
            },
    {
        let name = key.to_owned();
        let ghost before = self.entries();
        match find(&self.data, &name) {
            Some(i) => {
                proof {
                    lemma_table_present(before, i as int);
                    lemma_table_update(before, i as int, count as int);
                }
                self.data.set(i, Counter { name, count });
                assert(self.entries() =~= before.update(i as int, (key@, count as int)));
                Ok(())
            },
            None => {
                proof {
                    lemma_table_absent(before, key@);
                }
                Err(MetricsError::KeyNotFound)
            },
        }
    }

    /// Moves the counter named `key` by `delta`, wrapping around at the ends
    /// of its range.
    fn shift(&mut self, key: &str, delta: i64) -> (r: Result<(), MetricsError>)
        requires
            old(self).wf(),
        ensures
            final(self).wf(),
            match r {
                Ok(_) => {
                    &&& old(self)@.contains_key(key@)
                    &&& final(self)@ == old(self)@.insert(key@, wrapped(old(self)@[key@] + delta))
                },
                Err(e) => {
                    &&& e == MetricsError::KeyNotFound
                    &&& !old(self)@.contains_key(key@)
                    &&& final(self)@ == old(self)@
                    &&& final(self).entries() == old(self).entries()
                },
            },
    {
        match self.get(key) {
            Some(count) => self.set(key, count.wrapping_add(delta)),
            None => Err(MetricsError::KeyNotFound),
        }
    }

    /// Adds one to the counter named `key`. After the greatest count comes the least.
    pub fn incr(&mut self, key: &str) -> (r: Result<(), MetricsError>)
        requires
            old(self).wf(),
        ensures
            final(self).wf(),
            match r {
                Ok(_) => {
                    &&& old(self)@.contains_key(key@)
                    &&& final(self)@ == old(self)@.insert(key@, wrapped(old(self)@[key@] + 1))
                },
                Err(e) => {
                    &&& e == MetricsError::KeyNotFound
                    &&& !old(self)@.contains_key(key@)
                    &&& final(self)@ == old(self)@
                    &&& final(self).entries() == old(self).entries()
                },
            },
    {
        self.shift(key, 1)
    }

    /// Takes one from the counter named `key`. Before the least count comes the greatest.
    pub fn decr(&mut self, key: &str) -> (r: Result<(), MetricsError>)
        requires
            old(self).wf(),
        ensures
            final(self).wf(),
            match r {
                Ok(_) => {
                    &&& old(self)@.contains_key(key@)
                    &&& final(self)@ == old(self)@.insert(key@, wrapped(old(self)@[key@] - 1))
                },
                Err(e) => {
                    &&& e == MetricsError::KeyNotFound
                    &&& !old(self)@.contains_key(key@)
                    &&& final(self)@ == old(self)@
                    &&& final(self).entries() == old(self).entries()
                },
            },
    {
        self.shift(key, -1)
    }

    /// What the counter named `key` stands at, if it exists.
    pub fn get(&self, key: &str) -> (r: Option<i64>)
        requires
            self.wf(),
        ensures
            match r {
                Some(count) => self@.contains_key(key@) && self@[key@] == count,
                None => !self@.contains_key(key@),
            },
    {
        let name = key.to_owned();
        match find(&self.data, &name) {
            Some(i) => {
                proof {
                    lemma_table_present(self.entries(), i as int);
                }
                Some(self.data[i].count)
            },
            None => {
                proof {
                    lemma_table_absent(self.entries(), key@);
                }
                None
            },
        }
    }

    /// The counters as text, one line each: the name, a colon, a space and the count.
    pub fn render(&self) -> (s: String)
        ensures
            s@ == listing(self.entries()),
    {
        render_counters(&self.data)
    }
}

} // verus!
