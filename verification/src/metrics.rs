//! Named counters that go up and down.
use vstd::prelude::*;
use vstd::string::*;
use crate::text::{decimal_text, push_decimal};

pub mod atomic_map;
pub mod cmap;

verus! {

/// Why a counter was not changed.
#[derive(Debug, Clone, Copy, PartialEq, Eq, Structural)]
pub enum MetricsError {
    /// The new count does not fit the counter.
    Overflow,
    /// No counter has that name.
    KeyNotFound,
}

impl MetricsError {
    /// The error in words.
    pub open spec fn text(self) -> Seq<char> {
        match self {
            MetricsError::Overflow => "counter out of range"@,
            MetricsError::KeyNotFound => "key not found"@,
        }
    }

    /// The error in words, for a reader.
    pub fn message(&self) -> (s: String)
        ensures
            s@ == self.text(),
    {
        match self {
            MetricsError::Overflow => "counter out of range".to_owned(),
            MetricsError::KeyNotFound => "key not found".to_owned(),
        }
    }
}

/// One counter: its name and what it stands at.
#[derive(Debug)]
pub struct Counter {
    pub name: String,
    pub count: i64,
}

/// The counters of `data` as pairs of name and count.
pub open spec fn entries_of(data: Seq<Counter>) -> Seq<(Seq<char>, int)> {
    Seq::new(data.len(), |i: int| (data[i].name@, data[i].count as int))
}

/// No two entries have the same name.
pub open spec fn distinct_names(s: Seq<(Seq<char>, int)>) -> bool {
    forall|i: int, j: int| 0 <= i < j < s.len() ==> (#[trigger] s[i]).0 != (#[trigger] s[j]).0
}

/// No entry is named `key`.
pub open spec fn absent(s: Seq<(Seq<char>, int)>, key: Seq<char>) -> bool {
    forall|i: int| 0 <= i < s.len() ==> (#[trigger] s[i]).0 != key
}

/// The entries as a map from name to count.
pub open spec fn table(s: Seq<(Seq<char>, int)>) -> Map<Seq<char>, int>
    decreases s.len(),
{
    if s.len() == 0 {
        Map::empty()
    } else {
        table(s.drop_last()).insert(s.last().0, s.last().1)
    }
}

/// What the counter named `key` stands at; a counter that does not exist
/// stands at zero.
pub open spec fn count_of(m: Map<Seq<char>, int>, key: Seq<char>) -> int {
    if m.contains_key(key) {
        m[key]
    } else {
        0
    }
}

/// The entries as text: one line per entry, the name, a colon, a space and the count.
pub open spec fn listing(s: Seq<(Seq<char>, int)>) -> Seq<char>
    decreases s.len(),
{
    if s.len() == 0 {
        Seq::empty()
    } else {
        listing(s.drop_last()) + s.last().0 + seq![':', ' '] + decimal_text(s.last().1) + seq!['\n']
    }
}

/// A name that no entry has is not in the table.
pub proof fn lemma_table_absent(s: Seq<(Seq<char>, int)>, key: Seq<char>)
    requires
        absent(s, key),
    ensures
        !table(s).contains_key(key),
    decreases s.len(),
{
    if s.len() > 0 {
        let front = s.drop_last();
        assert forall|i: int| 0 <= i < front.len() implies (#[trigger] front[i]).0 != key by {
            assert(front[i] == s[i]);
        }
        lemma_table_absent(front, key);
        assert(s[s.len() - 1].0 != key);
    }
}

/// Where the names are distinct, the table holds each entry's own count.
pub proof fn lemma_table_present(s: Seq<(Seq<char>, int)>, i: int)
    requires
        distinct_names(s),
        0 <= i < s.len(),
    ensures
        table(s).contains_key(s[i].0),
        table(s)[s[i].0] == s[i].1,
    decreases s.len(),
{
    let front = s.drop_last();
    if i < s.len() - 1 {
        assert forall|a: int, b: int| 0 <= a < b < front.len() implies (#[trigger] front[a]).0 != (
        #[trigger] front[b]).0 by {
            assert(front[a] == s[a] && front[b] == s[b]);
        }
        assert(front[i] == s[i]);
        lemma_table_present(front, i);
        assert(s[i].0 != s[s.len() - 1].0);
    }
}

/// Replacing the count of entry `i` is an insert into the table, and keeps
/// the names distinct.
pub proof fn lemma_table_update(s: Seq<(Seq<char>, int)>, i: int, count: int)
    requires
        distinct_names(s),
        0 <= i < s.len(),
    ensures
        distinct_names(s.update(i, (s[i].0, count))),
        table(s.update(i, (s[i].0, count))) == table(s).insert(s[i].0, count),
    decreases s.len(),
{
    let key = s[i].0;
    let next = s.update(i, (key, count));
    let front = s.drop_last();
    assert forall|a: int, b: int| 0 <= a < b < next.len() implies (#[trigger] next[a]).0 != (
    #[trigger] next[b]).0 by {
        assert(next[a].0 == s[a].0 && next[b].0 == s[b].0);
    }
    if i == s.len() - 1 {
        assert(next.drop_last() =~= front);
        assert(table(next) =~= table(s).insert(key, count));
    } else {
        assert forall|a: int, b: int| 0 <= a < b < front.len() implies (#[trigger] front[a]).0 != (
        #[trigger] front[b]).0 by {
            assert(front[a] == s[a] && front[b] == s[b]);
        }
        assert(front[i] == s[i]);
        lemma_table_update(front, i, count);
        assert(next.drop_last() =~= front.update(i, (key, count)));
        assert(next.last() == s.last());
        assert(s[s.len() - 1].0 != key);
        assert(table(next) =~= table(s).insert(key, count));
    }
}

/// Adding an entry under a new name is an insert into the table, and keeps
/// the names distinct.
pub proof fn lemma_table_push(s: Seq<(Seq<char>, int)>, key: Seq<char>, count: int)
    requires
        distinct_names(s),
        absent(s, key),
    ensures
        distinct_names(s.push((key, count))),
        table(s.push((key, count))) == table(s).insert(key, count),
{
    let next = s.push((key, count));
    assert(next.drop_last() =~= s);
    assert forall|a: int, b: int| 0 <= a < b < next.len() implies (#[trigger] next[a]).0 != (
    #[trigger] next[b]).0 by {
        if b < s.len() {
            assert(next[a] == s[a] && next[b] == s[b]);
        } else {
            assert(next[a] == s[a]);
        }
    }
}

/// The position of the counter named `key`, if there is one.
pub fn find(data: &Vec<Counter>, key: &String) -> (r: Option<usize>)
    ensures
        match r {
            Some(i) => i < data@.len() && data@[i as int].name@ == key@,
            None => absent(entries_of(data@), key@),
        },
{
    let mut i: usize = 0;
    while i < data.len()
        invariant
            i <= data@.len(),
            forall|t: int| 0 <= t < i ==> (#[trigger] data@[t]).name@ != key@,
        decreases data@.len() - i,
    {
        if data[i].name == *key {
            return Some(i);
        }
        i = i + 1;
    }
    proof {
        let s = entries_of(data@);
        assert forall|t: int| 0 <= t < s.len() implies (#[trigger] s[t]).0 != key@ by {
            assert(data@[t].name@ != key@);
        }
    }
    None
}

/// The counters as text, one line each.
pub fn render_counters(data: &Vec<Counter>) -> (s: String)
    ensures
        s@ == listing(entries_of(data@)),
{
    proof {
        reveal_strlit(": ");
        reveal_strlit("\n");
    }
    let ghost all = entries_of(data@);
    let mut out = String::new();
    let mut i: usize = 0;
    assert(all.take(0) =~= Seq::empty());
    while i < data.len()
        invariant
            i <= data@.len(),
            all == entries_of(data@),
            ": "@ == seq![':', ' '],
            "\n"@ == seq!['\n'],
            out@ == listing(all.take(i as int)),
        decreases data@.len() - i,
    {
        proof {
            let next = all.take(i + 1);
            assert(next.drop_last() =~= all.take(i as int));
            assert(next.last() == all[i as int]);
        }
        out.append(data[i].name.as_str());
        out.append(": ");
        push_decimal(&mut out, data[i].count);
        out.append("\n");
        assert(out@ =~= listing(all.take(i + 1)));
        i = i + 1;
    }
    assert(all.take(i as int) =~= all);
    out
}

/// Counters that come into being when first touched.
#[derive(Debug)]
pub struct Metrics {
    data: Vec<Counter>,
}

impl Metrics {
    /// No two counters have the same name.
    pub closed spec fn wf(&self) -> bool {
        distinct_names(entries_of(self.data@))
    }

    /// The counters, in the order in which they are listed.
    pub closed spec fn entries(&self) -> Seq<(Seq<char>, int)> {
        entries_of(self.data@)
    }
}

impl View for Metrics {
    type V = Map<Seq<char>, int>;

    /// The counters by name.
    open spec fn view(&self) -> Map<Seq<char>, int> {
        table(self.entries())
    }
}

impl Metrics {
    /// No counters yet.
    pub fn new() -> (m: Self)
        ensures
            m.wf(),
            m@ == Map::<Seq<char>, int>::empty(),
            m.entries() == Seq::<(Seq<char>, int)>::empty(),
    {
        let m = Self { data: Vec::new() };
        assert(m.entries() =~= Seq::empty());
        m
    }

    /// Puts the counter named `key` at `count`, whether or not it existed.
    pub fn set(&mut self, key: &str, count: i64)
        requires
            old(self).wf(),
        ensures
            final(self).wf(),
            final(self)@ == old(self)@.insert(key@, count as int),
    {
        let name = key.to_owned();
        let ghost before = self.entries();
        match find(&self.data, &name) {
            Some(i) => {
                proof {
                    lemma_table_update(before, i as int, count as int);
                }
                self.data.set(i, Counter { name, count });
                assert(self.entries() =~= before.update(i as int, (key@, count as int)));
            },
            None => {
                proof {
                    lemma_table_push(before, key@, count as int);
                }
                self.data.push(Counter { name, count });
                assert(self.entries() =~= before.push((key@, count as int)));
            },
        }
    }

    /// Moves the counter named `key` by `delta`, from zero where it did not exist.
    fn shift(&mut self, key: &str, delta: i64) -> (r: Result<(), MetricsError>)
        requires
            old(self).wf(),
        ensures
            final(self).wf(),
            i64::MIN <= count_of(old(self)@, key@) <= i64::MAX,
            match r {
                Ok(_) => {
                    &&& i64::MIN <= count_of(old(self)@, key@) + delta <= i64::MAX
                    &&& final(self)@ == old(self)@.insert(
                        key@,
                        count_of(old(self)@, key@) + delta,
                    )
                },
                Err(e) => {
                    &&& e == MetricsError::Overflow
                    &&& !(i64::MIN <= count_of(old(self)@, key@) + delta <= i64::MAX)
                    &&& final(self)@ == old(self)@
                    &&& final(self).entries() == old(self).entries()
                },
            },
    {
        let count = match self.get(key) {
            Some(count) => count,
            None => 0,
        };
        match count.checked_add(delta) {
            Some(next) => {
                self.set(key, next);
                Ok(())
            },
            None => Err(MetricsError::Overflow),
        }
    }

    /// Adds one to the counter named `key`; a counter that did not exist
    /// starts from zero.
    pub fn incr(&mut self, key: &str) -> (r: Result<(), MetricsError>)
        requires
            old(self).wf(),
        ensures
            final(self).wf(),
            match r {
                Ok(_) => {
                    &&& count_of(old(self)@, key@) < i64::MAX
                    &&& final(self)@ == old(self)@.insert(key@, count_of(old(self)@, key@) + 1)
                },
                Err(e) => {
                    &&& e == MetricsError::Overflow
                    &&& count_of(old(self)@, key@) == i64::MAX
                    &&& final(self)@ == old(self)@
                    &&& final(self).entries() == old(self).entries()
                },
            },
    {
        self.shift(key, 1)
    }

    /// Takes one from the counter named `key`; a counter that did not exist
    /// starts from zero.
    pub fn decr(&mut self, key: &str) -> (r: Result<(), MetricsError>)
        requires
            old(self).wf(),
        ensures
            final(self).wf(),
            match r {
                Ok(_) => {
                    &&& count_of(old(self)@, key@) > i64::MIN
                    &&& final(self)@ == old(self)@.insert(key@, count_of(old(self)@, key@) - 1)
                },
                Err(e) => {
                    &&& e == MetricsError::Overflow
                    &&& count_of(old(self)@, key@) == i64::MIN
                    &&& final(self)@ == old(self)@
                    &&& final(self).entries() == old(self).entries()
                },
            },
    {
        self.shift(key, -1)
    }

    /// What the counter named `key` stands at, if it exists.
    pub fn get(&self, key: &str) -> (r: Option<i64>)
        requires
            self.wf(),
        ensures
            match r {
                Some(count) => self@.contains_key(key@) && self@[key@] == count,
                None => !self@.contains_key(key@),
            },
    {
        let name = key.to_owned();
        match find(&self.data, &name) {
            Some(i) => {
                proof {
                    lemma_table_present(self.entries(), i as int);
                }
                Some(self.data[i].count)
            },
            None => {
                proof {
                    lemma_table_absent(self.entries(), key@);
                }
                None
            },
        }
    }

    /// The counters as text, one line each: the name, a colon, a space and the count.
    pub fn render(&self) -> (s: String)
        ensures
            s@ == listing(self.entries()),
    {
        render_counters(&self.data)
    }
}

impl Default for Metrics {
    fn default() -> (m: Self)
        ensures
            m.wf(),
            m@ == Map::<Seq<char>, int>::empty(),
    {
        Self::new()
    }
}

} // verus!
