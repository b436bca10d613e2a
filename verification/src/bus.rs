//! The bus-event step: one incoming message against the shared state.
//!
//! The daemon's bus task drains the broker connection; for each publish it
//! receives it calls [`handle_message`], which routes the topic, updates the
//! state snapshot and hands back the effects — publishes, durable-store
//! writes and script-test requests — for the unverified shell to perform, in
//! order.

use vstd::prelude::*;
use vstd::string::{StrSliceExecFns, StringSliceAdditionalSpecFns};

use crate::hvac::HvacRequest;
use crate::overrides::{
    parse_oneshot_override, parse_timed_override, serialize_oneshot_override,
    serialize_timed_override, spec_parse_oneshot, spec_parse_timed, spec_serialize_oneshot,
    spec_serialize_timed, OneshotOverride, OneshotOverrideV,
};
use crate::report::{error_json, spec_error_json};
use crate::state::{state_wf, ByteMap, CommonState, Reading};
use crate::temp::{parse_temp, spec_parse_temp};
use vstd::utf8::valid_utf8;

verus! {

/// The delivery guarantee a publish asks of the broker.
#[derive(Copy, Clone, PartialEq, Eq, Structural, Debug)]
pub enum Qos {
    AtMostOnce,
    AtLeastOnce,
    ExactlyOnce,
}

/// One outgoing bus message.
#[derive(Clone, PartialEq, Eq, Debug)]
pub struct Publish {
    pub topic: Vec<u8>,
    pub payload: Vec<u8>,
    pub retained: bool,
    pub qos: Qos,
}

/// One action the unverified shell performs on the library's behalf.
#[derive(Clone, PartialEq, Eq, Debug)]
pub enum Effect {
    /// Send a message on the bus.
    Publish(Publish),
    /// Write a scalar key in the durable store.
    StoreSet { key: Vec<u8>, value: Vec<u8> },
    /// Delete a key in the durable store.
    StoreDel { key: Vec<u8> },
    /// Write a hash field in the durable store.
    StoreHSet { key: Vec<u8>, field: Vec<u8>, value: Vec<u8> },
    /// Delete a hash field in the durable store.
    StoreHDel { key: Vec<u8>, field: Vec<u8> },
    /// Subscribe to a topic on the bus.
    Subscribe { topic: Vec<u8> },
    /// Run the script test harness on a candidate text and report back.
    TestScript { text: Vec<u8> },
}

/// Whether an effect is the given publish.
pub open spec fn is_publish(
    e: Effect,
    topic: Seq<u8>,
    payload: Seq<u8>,
    retained: bool,
    qos: Qos,
) -> bool {
    match e {
        Effect::Publish(p) => p.topic@ == topic && p.payload@ == payload && p.retained == retained
            && p.qos == qos,
        _ => false,
    }
}

/// Whether an effect is the given scalar store write.
pub open spec fn is_store_set(e: Effect, key: Seq<u8>, value: Seq<u8>) -> bool {
    match e {
        Effect::StoreSet { key: k, value: v } => k@ == key && v@ == value,
        _ => false,
    }
}

/// The operator-mode topic.
pub open spec fn topic_hvac_mode() -> Seq<u8> {
    "home/thermostat/hvac/mode".spec_bytes()
}

/// The relay's reported command topic.
pub open spec fn topic_remotestate() -> Seq<u8> {
    "home/thermostat/hvac/remotestate".spec_bytes()
}

/// The topic the decided command is published on.
pub open spec fn topic_remotestate_set() -> Seq<u8> {
    "home/thermostat/hvac/remotestate/set".spec_bytes()
}

/// The retained script text topic.
pub open spec fn topic_script_data() -> Seq<u8> {
    "home/thermostatd/script".spec_bytes()
}

/// The script read-back request topic.
pub open spec fn topic_script_get() -> Seq<u8> {
    "home/thermostatd/script/get".spec_bytes()
}

/// The script replacement topic.
pub open spec fn topic_script_set() -> Seq<u8> {
    "home/thermostatd/script/set".spec_bytes()
}

/// The retained script status topic.
pub open spec fn topic_script_error() -> Seq<u8> {
    "home/thermostatd/script/error".spec_bytes()
}

/// The script dry-run request topic.
pub open spec fn topic_script_test() -> Seq<u8> {
    "home/thermostatd/script/test".spec_bytes()
}

/// The script dry-run status topic.
pub open spec fn topic_script_test_error() -> Seq<u8> {
    "home/thermostatd/script/test/error".spec_bytes()
}

/// The retained timed-override topic.
pub open spec fn topic_timed_override() -> Seq<u8> {
    "home/thermostatd/timed_override".spec_bytes()
}

/// The timed-override read-back request topic.
pub open spec fn topic_timed_override_get() -> Seq<u8> {
    "home/thermostatd/timed_override/get".spec_bytes()
}

/// The timed-override replacement topic.
pub open spec fn topic_timed_override_set() -> Seq<u8> {
    "home/thermostatd/timed_override/set".spec_bytes()
}

/// The timed-override error topic.
pub open spec fn topic_timed_override_error() -> Seq<u8> {
    "home/thermostatd/timed_override/error".spec_bytes()
}

/// The retained one-shot-override topic.
pub open spec fn topic_oneshot_override() -> Seq<u8> {
    "home/thermostatd/oneshot_override".spec_bytes()
}

/// The one-shot-override read-back request topic.
pub open spec fn topic_oneshot_override_get() -> Seq<u8> {
    "home/thermostatd/oneshot_override/get".spec_bytes()
}

/// The one-shot-override replacement topic.
pub open spec fn topic_oneshot_override_set() -> Seq<u8> {
    "home/thermostatd/oneshot_override/set".spec_bytes()
}

/// The one-shot-override error topic.
pub open spec fn topic_oneshot_override_error() -> Seq<u8> {
    "home/thermostatd/oneshot_override/error".spec_bytes()
}

/// The store key of the saved script.
pub open spec fn key_saved_script() -> Seq<u8> {
    "thermostatd.script".spec_bytes()
}

/// The store key of the timed override.
pub open spec fn key_timed_override() -> Seq<u8> {
    "thermostatd.timed_override".spec_bytes()
}

/// The store key of the one-shot override.
pub open spec fn key_oneshot_override() -> Seq<u8> {
    "thermostatd.oneshot_override".spec_bytes()
}

/// The store hash of probe endpoints.
pub open spec fn key_probe_endpoints() -> Seq<u8> {
    "thermostat.probes".spec_bytes()
}

/// The error text for a payload that is not UTF-8.
pub open spec fn utf8_error_text() -> Seq<u8> {
    "Utf8Error".spec_bytes()
}

/// The error text for an override payload that does not parse.
pub open spec fn override_error_text() -> Seq<u8> {
    "OverrideParseError".spec_bytes()
}

/// The operator-mode topic as a vector.
pub fn topic_hvac_mode_vec() -> (r: Vec<u8>)
    ensures
        r@ == topic_hvac_mode(),
{
    "home/thermostat/hvac/mode".as_bytes_vec()
}

/// The relay's reported command topic as a vector.
pub fn topic_remotestate_vec() -> (r: Vec<u8>)
    ensures
        r@ == topic_remotestate(),
{
    "home/thermostat/hvac/remotestate".as_bytes_vec()
}

/// The decided-command topic as a vector.
pub fn topic_remotestate_set_vec() -> (r: Vec<u8>)
    ensures
        r@ == topic_remotestate_set(),
{
    "home/thermostat/hvac/remotestate/set".as_bytes_vec()
}

/// The retained script text topic as a vector.
pub fn topic_script_data_vec() -> (r: Vec<u8>)
    ensures
        r@ == topic_script_data(),
{
    "home/thermostatd/script".as_bytes_vec()
}

/// The script read-back request topic as a vector.
pub fn topic_script_get_vec() -> (r: Vec<u8>)
    ensures
        r@ == topic_script_get(),
{
    "home/thermostatd/script/get".as_bytes_vec()
}

/// The script replacement topic as a vector.
pub fn topic_script_set_vec() -> (r: Vec<u8>)
    ensures
        r@ == topic_script_set(),
{
    "home/thermostatd/script/set".as_bytes_vec()
}

/// The retained script status topic as a vector.
pub fn topic_script_error_vec() -> (r: Vec<u8>)
    ensures
        r@ == topic_script_error(),
{
    "home/thermostatd/script/error".as_bytes_vec()
}

/// The script dry-run request topic as a vector.
pub fn topic_script_test_vec() -> (r: Vec<u8>)
    ensures
        r@ == topic_script_test(),
{
    "home/thermostatd/script/test".as_bytes_vec()
}

/// The script dry-run status topic as a vector.
pub fn topic_script_test_error_vec() -> (r: Vec<u8>)
    ensures
        r@ == topic_script_test_error(),
{
    "home/thermostatd/script/test/error".as_bytes_vec()
}

/// The retained timed-override topic as a vector.
pub fn topic_timed_override_vec() -> (r: Vec<u8>)
    ensures
        r@ == topic_timed_override(),
{
    "home/thermostatd/timed_override".as_bytes_vec()
}

/// The timed-override read-back request topic as a vector.
pub fn topic_timed_override_get_vec() -> (r: Vec<u8>)
    ensures
        r@ == topic_timed_override_get(),
{
    "home/thermostatd/timed_override/get".as_bytes_vec()
}

/// The timed-override replacement topic as a vector.
pub fn topic_timed_override_set_vec() -> (r: Vec<u8>)
    ensures
        r@ == topic_timed_override_set(),
{
    "home/thermostatd/timed_override/set".as_bytes_vec()
}

/// The timed-override error topic as a vector.
pub fn topic_timed_override_error_vec() -> (r: Vec<u8>)
    ensures
        r@ == topic_timed_override_error(),
{
    "home/thermostatd/timed_override/error".as_bytes_vec()
}

/// The retained one-shot-override topic as a vector.
pub fn topic_oneshot_override_vec() -> (r: Vec<u8>)
    ensures
        r@ == topic_oneshot_override(),
{
    "home/thermostatd/oneshot_override".as_bytes_vec()
}

/// The one-shot-override read-back request topic as a vector.
pub fn topic_oneshot_override_get_vec() -> (r: Vec<u8>)
    ensures
        r@ == topic_oneshot_override_get(),
{
    "home/thermostatd/oneshot_override/get".as_bytes_vec()
}

/// The one-shot-override replacement topic as a vector.
pub fn topic_oneshot_override_set_vec() -> (r: Vec<u8>)
    ensures
        r@ == topic_oneshot_override_set(),
{
    "home/thermostatd/oneshot_override/set".as_bytes_vec()
}

/// The one-shot-override error topic as a vector.
pub fn topic_oneshot_override_error_vec() -> (r: Vec<u8>)
    ensures
        r@ == topic_oneshot_override_error(),
{
    "home/thermostatd/oneshot_override/error".as_bytes_vec()
}

/// The saved-script store key as a vector.
pub fn key_saved_script_vec() -> (r: Vec<u8>)
    ensures
        r@ == key_saved_script(),
{
    "thermostatd.script".as_bytes_vec()
}

/// The timed-override store key as a vector.
pub fn key_timed_override_vec() -> (r: Vec<u8>)
    ensures
        r@ == key_timed_override(),
{
    "thermostatd.timed_override".as_bytes_vec()
}

/// The one-shot-override store key as a vector.
pub fn key_oneshot_override_vec() -> (r: Vec<u8>)
    ensures
        r@ == key_oneshot_override(),
{
    "thermostatd.oneshot_override".as_bytes_vec()
}

/// The probe-endpoints store hash key as a vector.
pub fn key_probe_endpoints_vec() -> (r: Vec<u8>)
    ensures
        r@ == key_probe_endpoints(),
{
    "thermostat.probes".as_bytes_vec()
}

/// The view of an optional one-shot override.
pub open spec fn oneshot_view(o: Option<OneshotOverride>) -> Option<OneshotOverrideV> {
    match o {
        Some(v) => Some(v@),
        None => None,
    }
}

/// All fields of the two states agree except the one a case changes.
pub open spec fn same_except_mode(a: CommonState, b: CommonState) -> bool {
    &&& b.last_call == a.last_call
    &&& b.timed_override == a.timed_override
    &&& b.oneshot_override == a.oneshot_override
    &&& b.script == a.script
    &&& b.probe_values == a.probe_values
    &&& b.retained_keys == a.retained_keys
}

/// All fields agree but `last_call`.
pub open spec fn same_except_last_call(a: CommonState, b: CommonState) -> bool {
    &&& b.mode == a.mode
    &&& b.timed_override == a.timed_override
    &&& b.oneshot_override == a.oneshot_override
    &&& b.script == a.script
    &&& b.probe_values == a.probe_values
    &&& b.retained_keys == a.retained_keys
}

/// All fields agree but the script record.
pub open spec fn same_except_script(a: CommonState, b: CommonState) -> bool {
    &&& b.mode == a.mode
    &&& b.last_call == a.last_call
    &&& b.timed_override == a.timed_override
    &&& b.oneshot_override == a.oneshot_override
    &&& b.probe_values == a.probe_values
    &&& b.retained_keys == a.retained_keys
}

/// All fields agree but the timed override.
pub open spec fn same_except_timed(a: CommonState, b: CommonState) -> bool {
    &&& b.mode == a.mode
    &&& b.last_call == a.last_call
    &&& b.oneshot_override == a.oneshot_override
    &&& b.script == a.script
    &&& b.probe_values == a.probe_values
    &&& b.retained_keys == a.retained_keys
}

/// All fields agree but the one-shot override.
pub open spec fn same_except_oneshot(a: CommonState, b: CommonState) -> bool {
    &&& b.mode == a.mode
    &&& b.last_call == a.last_call
    &&& b.timed_override == a.timed_override
    &&& b.script == a.script
    &&& b.probe_values == a.probe_values
    &&& b.retained_keys == a.retained_keys
}

/// All fields agree but the probe readings.
pub open spec fn same_except_probe_values(a: CommonState, b: CommonState) -> bool {
    &&& b.mode == a.mode
    &&& b.last_call == a.last_call
    &&& b.timed_override == a.timed_override
    &&& b.oneshot_override == a.oneshot_override
    &&& b.script == a.script
    &&& b.retained_keys == a.retained_keys
}

/// All fields agree but the retained-topic cache.
pub open spec fn same_except_retained(a: CommonState, b: CommonState) -> bool {
    &&& b.mode == a.mode
    &&& b.last_call == a.last_call
    &&& b.timed_override == a.timed_override
    &&& b.oneshot_override == a.oneshot_override
    &&& b.script == a.script
    &&& b.probe_values == a.probe_values
}

/// What a message on the mode topic does: set the mode when the payload
/// names a command; no effects.
pub open spec fn mode_post(
    pre: CommonState,
    post: CommonState,
    payload: Seq<u8>,
    effects: Seq<Effect>,
) -> bool {
    &&& same_except_mode(pre, post)
    &&& post.mode == match HvacRequest::spec_from_payload(payload) {
        Some(m) => m,
        None => pre.mode,
    }
    &&& effects.len() == 0
}

/// What a script read-back request does: publish the current text,
/// retained.
pub open spec fn script_get_post(pre: CommonState, post: CommonState, effects: Seq<Effect>) -> bool {
    &&& post == pre
    &&& effects.len() == 1
    &&& is_publish(effects[0], topic_script_data(), pre.script.text@, true, Qos::ExactlyOnce)
}

/// What a script replacement does: on UTF-8 text, persist it, stamp the
/// version with the current instant and republish it retained; otherwise
/// report the failure, retained so operators can read it back, and change
/// nothing.
pub open spec fn script_set_post(
    pre: CommonState,
    post: CommonState,
    payload: Seq<u8>,
    now_ms: i64,
    effects: Seq<Effect>,
) -> bool {
    if valid_utf8(payload) {
        &&& same_except_script(pre, post)
        &&& post.script.text@ == payload
        &&& post.script.version_ms == now_ms
        &&& effects.len() == 2
        &&& is_store_set(effects[0], key_saved_script(), payload)
        &&& is_publish(effects[1], topic_script_data(), payload, true, Qos::ExactlyOnce)
    } else {
        &&& post == pre
        &&& effects.len() == 1
        &&& is_publish(
            effects[0],
            topic_script_error(),
            spec_error_json(None, utf8_error_text()),
            true,
            Qos::ExactlyOnce,
        )
    }
}

/// What a script dry-run request does: hand UTF-8 text to the test
/// harness; report non-UTF-8 text and change nothing.
pub open spec fn script_test_post(
    pre: CommonState,
    post: CommonState,
    payload: Seq<u8>,
    effects: Seq<Effect>,
) -> bool {
    &&& post == pre
    &&& if valid_utf8(payload) {
        &&& effects.len() == 1
        &&& effects[0] matches Effect::TestScript { text } && text@ == payload
    } else {
        &&& effects.len() == 1
        &&& is_publish(
            effects[0],
            topic_script_test_error(),
            spec_error_json(None, utf8_error_text()),
            false,
            Qos::ExactlyOnce,
        )
    }
}

/// What a timed-override read-back request does: publish the current
/// record, retained.
pub open spec fn timed_get_post(pre: CommonState, post: CommonState, effects: Seq<Effect>) -> bool {
    &&& post == pre
    &&& effects.len() == 1
    &&& is_publish(
        effects[0],
        topic_timed_override(),
        spec_serialize_timed(pre.timed_override),
        true,
        Qos::ExactlyOnce,
    )
}

/// What a timed-override replacement does: on a well-formed payload,
/// persist and adopt the canonical record and republish it retained; on a
/// malformed one, report the failure, retained so operators can read it
/// back, and change nothing.
pub open spec fn timed_set_post(
    pre: CommonState,
    post: CommonState,
    payload: Seq<u8>,
    effects: Seq<Effect>,
) -> bool {
    match spec_parse_timed(payload) {
        Some(o) => {
            &&& same_except_timed(pre, post)
            &&& post.timed_override == o
            &&& effects.len() == 2
            &&& is_store_set(effects[0], key_timed_override(), spec_serialize_timed(o))
            &&& is_publish(
                effects[1],
                topic_timed_override(),
                spec_serialize_timed(o),
                true,
                Qos::AtLeastOnce,
            )
        },
        None => {
            &&& post == pre
            &&& effects.len() == 1
            &&& is_publish(
                effects[0],
                topic_timed_override_error(),
                spec_error_json(None, override_error_text()),
                true,
                Qos::ExactlyOnce,
            )
        },
    }
}

/// What a one-shot-override read-back request does: publish the current
/// record, not retained.
pub open spec fn oneshot_get_post(pre: CommonState, post: CommonState, effects: Seq<Effect>) -> bool {
    &&& post == pre
    &&& effects.len() == 1
    &&& is_publish(
        effects[0],
        topic_oneshot_override(),
        spec_serialize_oneshot(oneshot_view(pre.oneshot_override)),
        false,
        Qos::ExactlyOnce,
    )
}

/// What a one-shot-override replacement does, mirroring the timed case.
pub open spec fn oneshot_set_post(
    pre: CommonState,
    post: CommonState,
    payload: Seq<u8>,
    effects: Seq<Effect>,
) -> bool {
    match spec_parse_oneshot(payload) {
        Some(o) => {
            &&& same_except_oneshot(pre, post)
            &&& oneshot_view(post.oneshot_override) == o
            &&& effects.len() == 2
            &&& is_store_set(effects[0], key_oneshot_override(), spec_serialize_oneshot(o))
            &&& is_publish(
                effects[1],
                topic_oneshot_override(),
                spec_serialize_oneshot(o),
                true,
                Qos::AtLeastOnce,
            )
        },
        None => {
            &&& post == pre
            &&& effects.len() == 1
            &&& is_publish(
                effects[0],
                topic_oneshot_override_error(),
                spec_error_json(None, override_error_text()),
                true,
                Qos::ExactlyOnce,
            )
        },
    }
}

/// What a relay-state report does: record the observed command; no
/// effects.
pub open spec fn remotestate_post(
    pre: CommonState,
    post: CommonState,
    payload: Seq<u8>,
    effects: Seq<Effect>,
) -> bool {
    &&& same_except_last_call(pre, post)
    &&& post.last_call == match HvacRequest::spec_from_payload(payload) {
        Some(c) => c,
        None => pre.last_call,
    }
    &&& effects.len() == 0
}

/// What a probe reading does: cache the parsed temperature, stamped with
/// its arrival instant, under the probe's name; an unreadable payload
/// changes nothing. No effects.
pub open spec fn probe_post(
    pre: CommonState,
    post: CommonState,
    name: Seq<u8>,
    payload: Seq<u8>,
    now_ms: i64,
    effects: Seq<Effect>,
) -> bool {
    &&& same_except_probe_values(pre, post)
    &&& match spec_parse_temp(payload) {
        Some(t) => post.probe_values@ =~= pre.probe_values@.insert(
            name,
            Reading { temp: t, at_ms: now_ms },
        ),
        None => post.probe_values == pre.probe_values,
    }
    &&& effects.len() == 0
}

/// What a message on a script-subscribed topic does: cache the payload
/// when it is UTF-8; no effects.
pub open spec fn retained_post(
    pre: CommonState,
    post: CommonState,
    topic: Seq<u8>,
    payload: Seq<u8>,
    effects: Seq<Effect>,
) -> bool {
    &&& same_except_retained(pre, post)
    &&& if valid_utf8(payload) {
        &&& post.retained_keys@.contains_key(topic)
        &&& post.retained_keys@[topic]@ == payload
        &&& post.retained_keys@ =~= pre.retained_keys@.insert(topic, post.retained_keys@[topic])
    } else {
        post.retained_keys == pre.retained_keys
    }
    &&& effects.len() == 0
}

/// Adopt the persisted script text, or the packaged default when none is
/// saved, stamp it with the current instant, and return the retained
/// publish of the adopted text.
pub fn hydrate_script(
    state: &mut CommonState,
    saved: Option<Vec<u8>>,
    default_script: &[u8],
    now_ms: i64,
) -> (p: Publish)
    requires
        state_wf(*old(state)),
        saved matches Some(v) ==> valid_utf8(v@),
        valid_utf8(default_script@),
    ensures
        state_wf(*final(state)),
        same_except_script(*old(state), *final(state)),
        final(state).script.text@ == match saved {
            Some(v) => v@,
            None => default_script@,
        },
        final(state).script.version_ms == now_ms,
        p.topic@ == topic_script_data(),
        p.payload@ == final(state).script.text@,
        p.retained,
        p.qos == Qos::ExactlyOnce,
{
    let text: Vec<u8> = match saved {
        Some(v) => v,
        None => vstd::slice::slice_to_vec(default_script),
    };
    state.script.text = vstd::slice::slice_to_vec(text.as_slice());
    state.script.version_ms = now_ms;
    Publish {
        topic: topic_script_data_vec(),
        payload: text,
        retained: true,
        qos: Qos::ExactlyOnce,
    }
}

/// Adopt the persisted timed override: a missing key or an unreadable
/// record leaves the layer empty, and an unreadable record is deleted from
/// the store. The adopted record is republished retained either way.
pub fn hydrate_timed_override(state: &mut CommonState, data: Option<&[u8]>) -> (effects: Vec<
    Effect,
>)
    requires
        state_wf(*old(state)),
    ensures
        state_wf(*final(state)),
        same_except_timed(*old(state), *final(state)),
        ({
            match data {
                Some(d) => match spec_parse_timed(d@) {
                    Some(o) => {
                        &&& final(state).timed_override == o
                        &&& effects@.len() == 1
                        &&& is_publish(
                            effects@[0],
                            topic_timed_override(),
                            spec_serialize_timed(o),
                            true,
                            Qos::ExactlyOnce,
                        )
                    },
                    None => {
                        &&& final(state).timed_override == old(state).timed_override
                        &&& effects@.len() == 2
                        &&& effects@[0] matches Effect::StoreDel { key } && key@
                            == key_timed_override()
                        &&& is_publish(
                            effects@[1],
                            topic_timed_override(),
                            spec_serialize_timed(old(state).timed_override),
                            true,
                            Qos::ExactlyOnce,
                        )
                    },
                },
                None => {
                    &&& final(state).timed_override == old(state).timed_override
                    &&& effects@.len() == 1
                    &&& is_publish(
                        effects@[0],
                        topic_timed_override(),
                        spec_serialize_timed(old(state).timed_override),
                        true,
                        Qos::ExactlyOnce,
                    )
                },
            }
        }),
{
    let mut effects: Vec<Effect> = Vec::new();
    match data {
        Some(d) => {
            match parse_timed_override(d) {
                Ok(o) => {
                    state.timed_override = o;
                },
                Err(_) => {
                    effects.push(Effect::StoreDel { key: key_timed_override_vec() });
                },
            }
        },
        None => {},
    }
    effects.push(
        Effect::Publish(
            Publish {
                topic: topic_timed_override_vec(),
                payload: serialize_timed_override(&state.timed_override),
                retained: true,
                qos: Qos::ExactlyOnce,
            },
        ),
    );
    effects
}

/// Adopt the persisted one-shot override: a missing key or an unreadable
/// record leaves the layer empty, and an unreadable record is deleted from
/// the store. Nothing is republished at startup for this layer.
pub fn hydrate_oneshot_override(state: &mut CommonState, data: Option<&[u8]>) -> (effects: Vec<
    Effect,
>)
    requires
        state_wf(*old(state)),
    ensures
        state_wf(*final(state)),
        same_except_oneshot(*old(state), *final(state)),
        ({
            match data {
                Some(d) => match spec_parse_oneshot(d@) {
                    Some(o) => {
                        &&& oneshot_view(final(state).oneshot_override) == o
                        &&& effects@.len() == 0
                    },
                    None => {
                        &&& final(state).oneshot_override == old(state).oneshot_override
                        &&& effects@.len() == 1
                        &&& effects@[0] matches Effect::StoreDel { key } && key@
                            == key_oneshot_override()
                    },
                },
                None => {
                    &&& final(state).oneshot_override == old(state).oneshot_override
                    &&& effects@.len() == 0
                },
            }
        }),
{
    let mut effects: Vec<Effect> = Vec::new();
    match data {
        Some(d) => {
            match parse_oneshot_override(d) {
                Ok(o) => {
                    state.oneshot_override = o;
                },
                Err(_) => {
                    effects.push(Effect::StoreDel { key: key_oneshot_override_vec() });
                },
            }
        },
        None => {},
    }
    effects
}

/// Route one incoming bus message: update the state snapshot and return
/// the effects to perform, in order.
///
/// `probes` maps probe topics to probe names, as read from the durable
/// store at startup.
pub fn handle_message(
    state: &mut CommonState,
    probes: &ByteMap<Vec<u8>>,
    topic: &[u8],
    payload: &[u8],
    now_ms: i64,
) -> (effects: Vec<Effect>)
    requires
        state_wf(*old(state)),
        probes.inv(),
    ensures
        state_wf(*final(state)),
        ({
            let t = topic@;
            let pre = *old(state);
            let post = *final(state);
            if t == topic_hvac_mode() {
                mode_post(pre, post, payload@, effects@)
            } else if t == topic_script_get() {
                script_get_post(pre, post, effects@)
            } else if t == topic_script_set() {
                script_set_post(pre, post, payload@, now_ms, effects@)
            } else if t == topic_script_test() {
                script_test_post(pre, post, payload@, effects@)
            } else if t == topic_timed_override_get() {
                timed_get_post(pre, post, effects@)
            } else if t == topic_timed_override_set() {
                timed_set_post(pre, post, payload@, effects@)
            } else if t == topic_oneshot_override_get() {
                oneshot_get_post(pre, post, effects@)
            } else if t == topic_oneshot_override_set() {
                oneshot_set_post(pre, post, payload@, effects@)
            } else if t == topic_remotestate() {
                remotestate_post(pre, post, payload@, effects@)
            } else if probes@.contains_key(t) {
                probe_post(pre, post, probes@[t]@, payload@, now_ms, effects@)
            } else if pre.retained_keys@.contains_key(t) {
                retained_post(pre, post, t, payload@, effects@)
            } else {
                post == pre && effects@.len() == 0
            }
        }),
{
    let mut effects: Vec<Effect> = Vec::new();
    if crate::ascii::bytes_eq(topic, topic_hvac_mode_vec().as_slice()) {
        match HvacRequest::from_payload(payload) {
            Some(m) => {
                state.mode = m;
            },
            None => {},
        }
        effects
    } else if crate::ascii::bytes_eq(topic, topic_script_get_vec().as_slice()) {
        let text = vstd::slice::slice_to_vec(state.script.text.as_slice());
        effects.push(
            Effect::Publish(
                Publish {
                    topic: topic_script_data_vec(),
                    payload: text,
                    retained: true,
                    qos: Qos::ExactlyOnce,
                },
            ),
        );
        effects
    } else if crate::ascii::bytes_eq(topic, topic_script_set_vec().as_slice()) {
        if crate::textcheck::utf8_ok(payload) {
            let text = vstd::slice::slice_to_vec(payload);
            effects.push(
                Effect::StoreSet { key: key_saved_script_vec(), value: vstd::slice::slice_to_vec(payload) },
            );
            state.script.text = text;
            state.script.version_ms = now_ms;
            effects.push(
                Effect::Publish(
                    Publish {
                        topic: topic_script_data_vec(),
                        payload: vstd::slice::slice_to_vec(payload),
                        retained: true,
                        qos: Qos::ExactlyOnce,
                    },
                ),
            );
            effects
        } else {
            let u = "Utf8Error".as_bytes_vec();
            effects.push(
                Effect::Publish(
                    Publish {
                        topic: topic_script_error_vec(),
                        payload: error_json(None, u.as_slice()),
                        retained: true,
                        qos: Qos::ExactlyOnce,
                    },
                ),
            );
            effects
        }
    } else if crate::ascii::bytes_eq(topic, topic_script_test_vec().as_slice()) {
        if crate::textcheck::utf8_ok(payload) {
            effects.push(Effect::TestScript { text: vstd::slice::slice_to_vec(payload) });
            effects
        } else {
            let u = "Utf8Error".as_bytes_vec();
            effects.push(
                Effect::Publish(
                    Publish {
                        topic: topic_script_test_error_vec(),
                        payload: error_json(None, u.as_slice()),
                        retained: false,
                        qos: Qos::ExactlyOnce,
                    },
                ),
            );
            effects
        }
    } else if crate::ascii::bytes_eq(topic, topic_timed_override_get_vec().as_slice()) {
        effects.push(
            Effect::Publish(
                Publish {
                    topic: topic_timed_override_vec(),
                    payload: serialize_timed_override(&state.timed_override),
                    retained: true,
                    qos: Qos::ExactlyOnce,
                },
            ),
        );
        effects
    } else if crate::ascii::bytes_eq(topic, topic_timed_override_set_vec().as_slice()) {
        match parse_timed_override(payload) {
            Ok(o) => {
                let normalized = serialize_timed_override(&o);
                effects.push(
                    Effect::StoreSet {
                        key: key_timed_override_vec(),
                        value: vstd::slice::slice_to_vec(normalized.as_slice()),
                    },
                );
                state.timed_override = o;
                effects.push(
                    Effect::Publish(
                        Publish {
                            topic: topic_timed_override_vec(),
                            payload: normalized,
                            retained: true,
                            qos: Qos::AtLeastOnce,
                        },
                    ),
                );
                effects
            },
            Err(_) => {
                let u = "OverrideParseError".as_bytes_vec();
                effects.push(
                    Effect::Publish(
                        Publish {
                            topic: topic_timed_override_error_vec(),
                            payload: error_json(None, u.as_slice()),
                            retained: true,
                            qos: Qos::ExactlyOnce,
                        },
                    ),
                );
                effects
            },
        }
    } else if crate::ascii::bytes_eq(topic, topic_oneshot_override_get_vec().as_slice()) {
        effects.push(
            Effect::Publish(
                Publish {
                    topic: topic_oneshot_override_vec(),
                    payload: serialize_oneshot_override(&state.oneshot_override),
                    retained: false,
                    qos: Qos::ExactlyOnce,
                },
            ),
        );
        effects
    } else if crate::ascii::bytes_eq(topic, topic_oneshot_override_set_vec().as_slice()) {
        match parse_oneshot_override(payload) {
            Ok(o) => {
                let normalized = serialize_oneshot_override(&o);
                effects.push(
                    Effect::StoreSet {
                        key: key_oneshot_override_vec(),
                        value: vstd::slice::slice_to_vec(normalized.as_slice()),
                    },
                );
                state.oneshot_override = o;
                effects.push(
                    Effect::Publish(
                        Publish {
                            topic: topic_oneshot_override_vec(),
                            payload: normalized,
                            retained: true,
                            qos: Qos::AtLeastOnce,
                        },
                    ),
                );
                effects
            },
            Err(_) => {
                let u = "OverrideParseError".as_bytes_vec();
                effects.push(
                    Effect::Publish(
                        Publish {
                            topic: topic_oneshot_override_error_vec(),
                            payload: error_json(None, u.as_slice()),
                            retained: true,
                            qos: Qos::ExactlyOnce,
                        },
                    ),
                );
                effects
            },
        }
    } else if crate::ascii::bytes_eq(topic, topic_remotestate_vec().as_slice()) {
        match HvacRequest::from_payload(payload) {
            Some(c) => {
                state.last_call = c;
            },
            None => {},
        }
        effects
    } else if probes.contains(topic) {
        let name = match probes.get(topic) {
            Some(n) => vstd::slice::slice_to_vec(n.as_slice()),
            None => {
                proof {
                    assert(false);
                }
                Vec::new()
            },
        };
        match parse_temp(payload) {
            Some(t) => {
                state.probe_values.insert(name, Reading { temp: t, at_ms: now_ms });
            },
            None => {},
        }
        effects
    } else if state.retained_keys.contains(topic) {
        if crate::textcheck::utf8_ok(payload) {
            state.retained_keys.insert(
                vstd::slice::slice_to_vec(topic),
                vstd::slice::slice_to_vec(payload),
            );
        }
        effects
    } else {
        effects
    }
}

} // verus!
