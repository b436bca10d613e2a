//! Named temperature probes and their registry.
//!
//! A probe pairs a name with a bus topic and remembers its most recent
//! reading and when it arrived. Until the first readable payload the value
//! is absent; stale readings remain until overwritten.

use vstd::prelude::*;
use vstd::string::{StrSliceExecFns, StringSliceAdditionalSpecFns};

use crate::bus::{key_probe_endpoints_vec, Effect};
use crate::state::ByteMap;
use crate::temp::{parse_temp, spec_parse_temp, Temp};

verus! {

/// A named temperature probe fed from a bus topic.
pub struct Probe {
    name: String,
    endpoint: String,
    value: Option<Temp>,
    last_update_ms: i64,
}

impl Probe {
    /// The probe's name.
    pub closed spec fn spec_name(&self) -> Seq<char> {
        self.name@
    }

    /// The probe's bus topic.
    pub closed spec fn spec_endpoint(&self) -> Seq<char> {
        self.endpoint@
    }

    /// The probe's most recent reading, absent before the first one.
    pub closed spec fn spec_value(&self) -> Option<Temp> {
        self.value
    }

    /// When the probe was created or last read, in epoch milliseconds.
    pub closed spec fn spec_last_update(&self) -> i64 {
        self.last_update_ms
    }

    /// A fresh probe: no reading yet, stamped with its creation instant.
    pub fn new(name: String, endpoint: String, now_ms: i64) -> (r: Probe)
        ensures
            r.spec_name() == name@,
            r.spec_endpoint() == endpoint@,
            r.spec_value() is None,
            r.spec_last_update() == now_ms,
    {
        Probe { name, endpoint, value: None, last_update_ms: now_ms }
    }

    /// The probe's name.
    pub fn name(&self) -> (r: &str)
        ensures
            r@ == self.spec_name(),
    {
        self.name.as_str()
    }

    /// The probe's bus topic.
    pub fn endpoint(&self) -> (r: &str)
        ensures
            r@ == self.spec_endpoint(),
    {
        self.endpoint.as_str()
    }

    /// The probe's most recent reading, if any arrived yet.
    pub fn value(&self) -> (r: Option<Temp>)
        ensures
            r == self.spec_value(),
    {
        self.value
    }

    /// When the probe last changed, in epoch milliseconds.
    pub fn last_update(&self) -> (r: i64)
        ensures
            r == self.spec_last_update(),
    {
        self.last_update_ms
    }

    /// Store a reading and stamp its arrival.
    pub fn update(&mut self, value: Temp, now_ms: i64)
        ensures
            final(self).spec_name() == old(self).spec_name(),
            final(self).spec_endpoint() == old(self).spec_endpoint(),
            final(self).spec_value() == Some(value),
            final(self).spec_last_update() == now_ms,
    {
        self.value = Some(value);
        self.last_update_ms = now_ms;
    }

    /// Feed a raw bus payload to the probe: a plain decimal reading is
    /// stored with its arrival instant; anything else leaves the probe as
    /// it was.
    pub fn ingest(&mut self, payload: &[u8], now_ms: i64)
        ensures
            final(self).spec_name() == old(self).spec_name(),
            final(self).spec_endpoint() == old(self).spec_endpoint(),
            match spec_parse_temp(payload@) {
                Some(t) => final(self).spec_value() == Some(t) && final(self).spec_last_update()
                    == now_ms,
                None => *final(self) == *old(self),
            },
    {
        match parse_temp(payload) {
            Some(t) => {
                self.update(t, now_ms);
            },
            None => {},
        }
    }
}

/// The process-wide registry of probes, keyed by name.
pub struct Probes {
    probes: ByteMap<Probe>,
}

impl Probes {
    /// The registered probes by name.
    pub closed spec fn view(&self) -> Map<Seq<u8>, Probe> {
        self.probes@
    }

    /// How many probes are registered.
    pub closed spec fn spec_len(&self) -> nat {
        self.probes.spec_len()
    }

    /// The registry's internal map is well formed.
    pub closed spec fn inv(&self) -> bool {
        self.probes.inv()
    }

    /// An empty registry.
    pub fn new() -> (r: Probes)
        ensures
            r.inv(),
            r@ =~= Map::<Seq<u8>, Probe>::empty(),
    {
        Probes { probes: ByteMap::new() }
    }

    /// The probe registered under a name, if any.
    pub fn get(&self, name: &[u8]) -> (r: Option<&Probe>)
        requires
            self.inv(),
        ensures
            match r {
                Some(p) => self@.contains_key(name@) && self@[name@] == *p,
                None => !self@.contains_key(name@),
            },
    {
        self.probes.get(name)
    }

    /// Register a probe and return the effects the shell must perform: the
    /// endpoint is persisted under the probe-endpoints hash and subscribed
    /// to on the bus.
    pub fn create_probe(&mut self, name: &str, endpoint: &str, now_ms: i64) -> (effects: Vec<
        Effect,
    >)
        requires
            old(self).inv(),
        ensures
            final(self).inv(),
            ({
                let key = name.spec_bytes();
                &&& final(self)@.contains_key(key)
                &&& final(self)@[key].spec_name() == name@
                &&& final(self)@[key].spec_endpoint() == endpoint@
                &&& final(self)@[key].spec_value() is None
                &&& final(self)@[key].spec_last_update() == now_ms
                &&& final(self)@ =~= old(self)@.insert(key, final(self)@[key])
                &&& effects@.len() == 2
                &&& effects@[0] matches Effect::StoreHSet { key: k, field, value } && k@
                    == crate::bus::key_probe_endpoints() && field@ == name.spec_bytes() && value@
                    == endpoint.spec_bytes()
                &&& effects@[1] matches Effect::Subscribe { topic } && topic@
                    == endpoint.spec_bytes()
            }),
    {
        let mut effects: Vec<Effect> = Vec::new();
        effects.push(
            Effect::StoreHSet {
                key: key_probe_endpoints_vec(),
                field: name.as_bytes_vec(),
                value: endpoint.as_bytes_vec(),
            },
        );
        effects.push(Effect::Subscribe { topic: endpoint.as_bytes_vec() });
        let probe = Probe {
            name: name.to_owned(),
            endpoint: endpoint.to_owned(),
            value: None,
            last_update_ms: now_ms,
        };
        self.probes.insert(name.as_bytes_vec(), probe);
        effects
    }

    /// Drop a probe and return the effect that erases its endpoint from
    /// the durable store.
    pub fn delete_probe(&mut self, name: &[u8]) -> (effects: Vec<Effect>)
        requires
            old(self).inv(),
        ensures
            final(self).inv(),
            final(self)@ =~= old(self)@.remove(name@),
            effects@.len() == 1,
            effects@[0] matches Effect::StoreHDel { key, field } && key@
                == crate::bus::key_probe_endpoints() && field@ == name@,
    {
        let mut effects: Vec<Effect> = Vec::new();
        self.probes.remove(name);
        effects.push(
            Effect::StoreHDel {
                key: key_probe_endpoints_vec(),
                field: vstd::slice::slice_to_vec(name),
            },
        );
        effects
    }

    /// The names of the registered probes.
    pub fn keys(&self) -> (r: Vec<Vec<u8>>)
        requires
            self.inv(),
        ensures
            r@.len() == self.spec_len(),
            forall|i: int| 0 <= i < r@.len() ==> self@.contains_key((#[trigger] r@[i])@),
    {
        let n = self.probes.len();
        let mut out: Vec<Vec<u8>> = Vec::new();
        let mut i: usize = 0;
        while i < n
            invariant
                self.inv(),
                n == self.spec_len(),
                0 <= i <= n,
                out@.len() == i,
                forall|j: int| 0 <= j < i ==> self@.contains_key((#[trigger] out@[j])@),
            decreases n - i,
        {
            let (k, _) = self.probes.entry_at(i);
            out.push(vstd::slice::slice_to_vec(k.as_slice()));
            i = i + 1;
        }
        out
    }
}

} // verus!
