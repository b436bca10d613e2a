//! The process-wide state snapshot and the byte-keyed map it is built on.

use vstd::prelude::*;

use crate::hvac::HvacRequest;
use crate::overrides::{oneshot_override_wf, timed_override_wf, OneshotOverride, TimedOverride};
use crate::temp::Temp;
use vstd::utf8::valid_utf8;

verus! {

/// An association map with byte-string keys, backed by a vector of entries
/// with pairwise distinct keys.
pub struct ByteMap<V> {
    entries: Vec<(Vec<u8>, V)>,
}

impl<V> ByteMap<V> {
    /// The entries hold pairwise distinct keys.
    pub closed spec fn inv(&self) -> bool {
        forall|i: int, j: int|
            0 <= i < j < self.entries@.len() ==> (#[trigger] self.entries@[i]).0@ != (
            #[trigger] self.entries@[j]).0@
    }

    /// The map a sequence of entries denotes.
    spec fn entries_map(es: Seq<(Vec<u8>, V)>) -> Map<Seq<u8>, V>
        decreases es.len(),
    {
        if es.len() == 0 {
            Map::empty()
        } else {
            Self::entries_map(es.drop_last()).insert(es.last().0@, es.last().1)
        }
    }

    /// The map this value denotes.
    pub closed spec fn view(&self) -> Map<Seq<u8>, V> {
        Self::entries_map(self.entries@)
    }

    /// A key of some entry is in the map, bound to the value of the last
    /// entry holding it.
    proof fn lemma_entries_map_get(es: Seq<(Vec<u8>, V)>, i: int)
        requires
            0 <= i < es.len(),
            forall|j: int| i < j < es.len() ==> (#[trigger] es[j]).0@ != es[i].0@,
        ensures
            Self::entries_map(es).contains_key(es[i].0@),
            Self::entries_map(es)[es[i].0@] == es[i].1,
        decreases es.len(),
    {
        if i < es.len() - 1 {
            assert(es.drop_last()[i] == es[i]);
            Self::lemma_entries_map_get(es.drop_last(), i);
        }
    }

    /// A key held by no entry is not in the map.
    proof fn lemma_entries_map_absent(es: Seq<(Vec<u8>, V)>, k: Seq<u8>)
        requires
            forall|j: int| 0 <= j < es.len() ==> (#[trigger] es[j]).0@ != k,
        ensures
            !Self::entries_map(es).contains_key(k),
        decreases es.len(),
    {
        if es.len() > 0 {
            Self::lemma_entries_map_absent(es.drop_last(), k);
        }
    }

    /// Updating the entry that holds a key updates the map at that key.
    proof fn lemma_entries_map_update(es: Seq<(Vec<u8>, V)>, i: int, e: (Vec<u8>, V))
        requires
            0 <= i < es.len(),
            e.0@ == es[i].0@,
            forall|j: int| 0 <= j < es.len() && j != i ==> (#[trigger] es[j]).0@ != es[i].0@,
        ensures
            Self::entries_map(es.update(i, e)) =~= Self::entries_map(es).insert(e.0@, e.1),
        decreases es.len(),
    {
        let up = es.update(i, e);
        if i == es.len() - 1 {
            assert(up.drop_last() =~= es.drop_last());
            assert(up.last() == e);
        } else {
            assert(up.last() == es.last());
            assert(up.drop_last() =~= es.drop_last().update(i, e));
            assert(es.drop_last()[i] == es[i]);
            Self::lemma_entries_map_update(es.drop_last(), i, e);
            assert(Self::entries_map(up) =~= Self::entries_map(es).insert(e.0@, e.1));
        }
    }

    /// Dropping the entry that holds a key removes the key from the map.
    proof fn lemma_entries_map_remove(es: Seq<(Vec<u8>, V)>, i: int)
        requires
            0 <= i < es.len(),
            forall|j: int| 0 <= j < es.len() && j != i ==> (#[trigger] es[j]).0@ != es[i].0@,
        ensures
            Self::entries_map(es.remove(i)) =~= Self::entries_map(es).remove(es[i].0@),
        decreases es.len(),
    {
        let rm = es.remove(i);
        if i == es.len() - 1 {
            assert(rm =~= es.drop_last());
            Self::lemma_entries_map_absent(es.drop_last(), es[i].0@);
        } else {
            assert(rm.last() == es.last());
            assert(rm.drop_last() =~= es.drop_last().remove(i));
            assert(es.drop_last()[i] == es[i]);
            Self::lemma_entries_map_remove(es.drop_last(), i);
            assert(Self::entries_map(rm) =~= Self::entries_map(es).remove(es[i].0@));
        }
    }

    /// An empty map.
    pub fn new() -> (r: Self)
        ensures
            r.inv(),
            r@ =~= Map::<Seq<u8>, V>::empty(),
    {
        ByteMap { entries: Vec::new() }
    }

    /// The index of the entry holding a key, if any.
    fn find(&self, k: &[u8]) -> (r: Option<usize>)
        requires
            self.inv(),
        ensures
            match r {
                Some(i) => i < self.entries@.len() && self.entries@[i as int].0@ == k@
                    && self@.contains_key(k@) && self@[k@] == self.entries@[i as int].1,
                None => !self@.contains_key(k@) && forall|j: int|
                    0 <= j < self.entries@.len() ==> (#[trigger] self.entries@[j]).0@ != k@,
            },
    {
        let n = self.entries.len();
        let mut i: usize = 0;
        while i < n
            invariant
                self.inv(),
                n == self.entries@.len(),
                0 <= i <= n,
                forall|j: int| 0 <= j < i ==> (#[trigger] self.entries@[j]).0@ != k@,
            decreases n - i,
        {
            if crate::ascii::bytes_eq(self.entries[i].0.as_slice(), k) {
                proof {
                    Self::lemma_entries_map_get(self.entries@, i as int);
                }
                return Some(i);
            }
            i = i + 1;
        }
        proof {
            Self::lemma_entries_map_absent(self.entries@, k@);
        }
        None
    }

    /// Whether the map holds a key.
    pub fn contains(&self, k: &[u8]) -> (r: bool)
        requires
            self.inv(),
        ensures
            r == self@.contains_key(k@),
    {
        self.find(k).is_some()
    }

    /// The value bound to a key, if any.
    pub fn get(&self, k: &[u8]) -> (r: Option<&V>)
        requires
            self.inv(),
        ensures
            match r {
                Some(v) => self@.contains_key(k@) && self@[k@] == *v,
                None => !self@.contains_key(k@),
            },
    {
        match self.find(k) {
            Some(i) => Some(&self.entries[i].1),
            None => None,
        }
    }

    /// Bind a key to a value, replacing any earlier binding.
    pub fn insert(&mut self, k: Vec<u8>, v: V)
        requires
            old(self).inv(),
        ensures
            final(self).inv(),
            final(self)@ =~= old(self)@.insert(k@, v),
    {
        let i = self.find(k.as_slice());
        match i {
            Some(i) => {
                proof {
                    Self::lemma_entries_map_update(self.entries@, i as int, (k, v));
                }
                self.entries.set(i, (k, v));
                proof {
                    assert forall|a: int, b: int|
                        0 <= a < b < self.entries@.len() implies (#[trigger] self.entries@[a]).0@
                        != (#[trigger] self.entries@[b]).0@ by {
                        if a != i as int {
                            assert(self.entries@[a] == old(self).entries@[a]);
                        }
                        if b != i as int {
                            assert(self.entries@[b] == old(self).entries@[b]);
                        }
                        assert(old(self).entries@[a].0@ != old(self).entries@[b].0@);
                    }
                }
            },
            None => {
                self.entries.push((k, v));
                proof {
                    assert(self.entries@.drop_last() =~= old(self).entries@);
                }
            },
        }
    }

    /// Drop the binding of a key, if any.
    pub fn remove(&mut self, k: &[u8])
        requires
            old(self).inv(),
        ensures
            final(self).inv(),
            final(self)@ =~= old(self)@.remove(k@),
    {
        let i = self.find(k);
        match i {
            Some(i) => {
                proof {
                    Self::lemma_entries_map_remove(self.entries@, i as int);
                }
                self.entries.remove(i);
                proof {
                    assert forall|a: int, b: int|
                        0 <= a < b < self.entries@.len() implies (#[trigger] self.entries@[a]).0@
                        != (#[trigger] self.entries@[b]).0@ by {
                        if b < i as int {
                            assert(self.entries@[a] == old(self).entries@[a]);
                            assert(self.entries@[b] == old(self).entries@[b]);
                        } else if a < i as int {
                            assert(self.entries@[a] == old(self).entries@[a]);
                            assert(self.entries@[b] == old(self).entries@[b + 1]);
                        } else {
                            assert(self.entries@[a] == old(self).entries@[a + 1]);
                            assert(self.entries@[b] == old(self).entries@[b + 1]);
                        }
                    }
                }
            },
            None => {
                proof {
                    assert(old(self)@.remove(k@) =~= old(self)@);
                }
            },
        }
    }

    /// How many entries the map holds.
    pub closed spec fn spec_len(&self) -> nat {
        self.entries@.len()
    }

    /// The key of the entry at an index.
    pub closed spec fn key_at(&self, i: int) -> Seq<u8> {
        self.entries@[i].0@
    }

    /// How many keys the map holds.
    pub fn len(&self) -> (r: usize)
        requires
            self.inv(),
        ensures
            r == self.spec_len(),
    {
        self.entries.len()
    }

    /// The entry at an index, for walking the map.
    pub fn entry_at(&self, i: usize) -> (r: (&Vec<u8>, &V))
        requires
            self.inv(),
            i < self.spec_len(),
        ensures
            r.0@ == self.key_at(i as int),
            self@.contains_key(r.0@),
            self@[r.0@] == *r.1,
    {
        proof {
            Self::lemma_entries_map_get(self.entries@, i as int);
        }
        (&self.entries[i].0, &self.entries[i].1)
    }
}

/// One probe reading as the cache holds it: the temperature and when it
/// arrived, in epoch milliseconds.
#[derive(Copy, Clone, PartialEq, Eq, Structural, Debug)]
pub struct Reading {
    /// The measured temperature.
    pub temp: Temp,
    /// When the reading landed, in epoch milliseconds.
    pub at_ms: i64,
}

/// The running record of the user script: its text and its version stamp.
pub struct ScriptRecord {
    /// The script source, always valid UTF-8.
    pub text: Vec<u8>,
    /// When the text was last replaced, in epoch milliseconds.
    pub version_ms: i64,
}

/// The process-wide snapshot the bus task and the decision task share.
pub struct CommonState {
    /// The operator-selected high-level mode.
    pub mode: HvacRequest,
    /// The most recently emitted relay command.
    pub last_call: HvacRequest,
    /// The timed override layer, when set.
    pub timed_override: Option<TimedOverride>,
    /// The one-shot override layer, when set.
    pub oneshot_override: Option<OneshotOverride>,
    /// The active script text and version.
    pub script: ScriptRecord,
    /// The last reading of each probe — value and arrival instant — by
    /// probe name.
    pub probe_values: ByteMap<Reading>,
    /// The last payload seen on each topic the script subscribed to.
    pub retained_keys: ByteMap<Vec<u8>>,
}

/// Everything the state promises between steps: both maps are well formed,
/// the overrides are well formed and the script text is UTF-8.
pub open spec fn state_wf(s: CommonState) -> bool {
    &&& s.probe_values.inv()
    &&& s.retained_keys.inv()
    &&& valid_utf8(s.script.text@)
    &&& match s.timed_override {
        Some(t) => timed_override_wf(t),
        None => true,
    }
    &&& match s.oneshot_override {
        Some(o) => oneshot_override_wf(o@),
        None => true,
    }
}

impl CommonState {
    /// A fresh state: off, no overrides, an empty script, no readings.
    pub fn new() -> (r: CommonState)
        ensures
            state_wf(r),
            r.mode == HvacRequest::Off,
            r.last_call == HvacRequest::Off,
            r.timed_override is None,
            r.oneshot_override is None,
            r.script.text@ == Seq::<u8>::empty(),
            r.script.version_ms == 0,
            r.probe_values@ =~= Map::<Seq<u8>, Reading>::empty(),
            r.retained_keys@ =~= Map::<Seq<u8>, Vec<u8>>::empty(),
    {
        let r = CommonState {
            mode: HvacRequest::Off,
            last_call: HvacRequest::Off,
            timed_override: None,
            oneshot_override: None,
            script: ScriptRecord { text: Vec::new(), version_ms: 0 },
            probe_values: ByteMap::new(),
            retained_keys: ByteMap::new(),
        };
        proof {
            assert(valid_utf8(r.script.text@));
        }
        r
    }
}

} // verus!
