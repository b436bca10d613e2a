//! The decision cycle: override arbitration and the committed call.
//!
//! Once per evaluation period the decision task arbitrates the override
//! layers in strict precedence — timed override, then one-shot override,
//! then the script — and commits the resulting call. Only absence,
//! expiration or a reached goal lets the next layer speak.

use vstd::prelude::*;

use crate::bus::{
    is_publish, oneshot_view, topic_oneshot_override, topic_remotestate_set, topic_timed_override,
    Effect, Publish, Qos,
};
use crate::hvac::HvacRequest;
use crate::overrides::{
    serialize_oneshot_override, serialize_timed_override, spec_serialize_oneshot,
    spec_serialize_timed, OneshotOrdering, OneshotOverride, OneshotOverrideV, TimedOverride,
};
use crate::state::{state_wf, CommonState, Reading};
use crate::temp::Temp;

verus! {

/// What arbitration decides: the call an override forces, if any, the
/// override layers as they stand afterwards, and which layers were cleared
/// this cycle.
pub struct Arbitration {
    pub call: Option<HvacRequest>,
    pub timed: Option<TimedOverride>,
    pub oneshot: Option<OneshotOverrideV>,
    pub timed_cleared: bool,
    pub oneshot_cleared: bool,
}

/// Whether a one-shot override has reached its goal against a reading:
/// watching `Less`, the goal is a reading below the setpoint; watching
/// `Greater`, one above it.
pub open spec fn spec_goal_reached(o: OneshotOverrideV, reading: Temp) -> bool {
    match o.comparison {
        OneshotOrdering::Less => reading.milli < o.setpoint.milli,
        OneshotOrdering::Greater => reading.milli > o.setpoint.milli,
    }
}

/// What the one-shot layer decides when the timed layer is silent: the
/// override clears when its probe is missing or its goal is reached, and
/// otherwise forces its command.
pub open spec fn spec_arbitrate_oneshot(
    oneshot: Option<OneshotOverrideV>,
    probes: Map<Seq<u8>, Reading>,
) -> Arbitration {
    match oneshot {
        None => Arbitration {
            call: None,
            timed: None,
            oneshot: None,
            timed_cleared: false,
            oneshot_cleared: false,
        },
        Some(o) => {
            if !probes.contains_key(o.probe) || spec_goal_reached(o, probes[o.probe].temp) {
                Arbitration {
                    call: None,
                    timed: None,
                    oneshot: None,
                    timed_cleared: false,
                    oneshot_cleared: true,
                }
            } else {
                Arbitration {
                    call: Some(o.command),
                    timed: None,
                    oneshot: Some(o),
                    timed_cleared: false,
                    oneshot_cleared: false,
                }
            }
        },
    }
}

/// What one arbitration cycle decides. A live timed override always wins;
/// an expired one is cleared and the one-shot layer speaks; with neither,
/// no call is forced and the script decides.
pub open spec fn spec_arbitrate(
    timed: Option<TimedOverride>,
    oneshot: Option<OneshotOverrideV>,
    probes: Map<Seq<u8>, Reading>,
    now_ms: i64,
) -> Arbitration {
    match timed {
        Some(t) => {
            if t.expiration_ms > now_ms {
                Arbitration {
                    call: Some(t.command),
                    timed: Some(t),
                    oneshot: oneshot,
                    timed_cleared: false,
                    oneshot_cleared: false,
                }
            } else {
                Arbitration { timed_cleared: true, ..spec_arbitrate_oneshot(oneshot, probes) }
            }
        },
        None => spec_arbitrate_oneshot(oneshot, probes),
    }
}

/// Arbitrate the override layers for one cycle.
///
/// Returns the call an override forces, or `None` when the script is to
/// decide, together with the effects: each cleared layer is republished,
/// retained, as `null`, before the cycle's call is committed.
pub fn arbitrate_overrides(state: &mut CommonState, now_ms: i64) -> (r: (
    Option<HvacRequest>,
    Vec<Effect>,
))
    requires
        state_wf(*old(state)),
    ensures
        state_wf(*final(state)),
        ({
            let a = spec_arbitrate(
                old(state).timed_override,
                oneshot_view(old(state).oneshot_override),
                old(state).probe_values@,
                now_ms,
            );
            let post = *final(state);
            &&& r.0 == a.call
            &&& post.timed_override == a.timed
            &&& oneshot_view(post.oneshot_override) == a.oneshot
            &&& post.mode == old(state).mode
            &&& post.last_call == old(state).last_call
            &&& post.script == old(state).script
            &&& post.probe_values == old(state).probe_values
            &&& post.retained_keys == old(state).retained_keys
            &&& r.1@.len() == (if a.timed_cleared {
                1int
            } else {
                0int
            }) + (if a.oneshot_cleared {
                1int
            } else {
                0int
            })
            &&& a.timed_cleared ==> is_publish(
                r.1@[0],
                topic_timed_override(),
                spec_serialize_timed(None),
                true,
                Qos::AtLeastOnce,
            )
            &&& a.oneshot_cleared ==> is_publish(
                r.1@[r.1@.len() - 1],
                topic_oneshot_override(),
                spec_serialize_oneshot(None),
                true,
                Qos::AtLeastOnce,
            )
        }),
{
    let mut effects: Vec<Effect> = Vec::new();
    let mut call: Option<HvacRequest> = None;
    let timed = state.timed_override;
    match timed {
        Some(t) => {
            if t.expiration_ms > now_ms {
                return (Some(t.command), effects);
            } else {
                state.timed_override = None;
                effects.push(
                    Effect::Publish(
                        Publish {
                            topic: crate::bus::topic_timed_override_vec(),
                            payload: serialize_timed_override(&None),
                            retained: true,
                            qos: Qos::AtLeastOnce,
                        },
                    ),
                );
            }
        },
        None => {},
    }
    // The timed layer is now silent; the one-shot layer speaks.
    let clear_oneshot: bool;
    match &state.oneshot_override {
        None => {
            clear_oneshot = false;
        },
        Some(o) => {
            match state.probe_values.get(o.probe.as_slice()) {
                None => {
                    clear_oneshot = true;
                },
                Some(reading) => {
                    let goal = match o.comparison {
                        OneshotOrdering::Less => reading.temp.milli < o.setpoint.milli,
                        OneshotOrdering::Greater => reading.temp.milli > o.setpoint.milli,
                    };
                    if goal {
                        clear_oneshot = true;
                    } else {
                        call = Some(o.command);
                        clear_oneshot = false;
                    }
                },
            }
        },
    }
    if clear_oneshot {
        state.oneshot_override = None;
        effects.push(
            Effect::Publish(
                Publish {
                    topic: crate::bus::topic_oneshot_override_vec(),
                    payload: serialize_oneshot_override(&None),
                    retained: true,
                    qos: Qos::AtLeastOnce,
                },
            ),
        );
    }
    (call, effects)
}

/// Commit the cycle's call: adopt it when one was decided and it differs
/// from the last call, then return the keep-alive publish of the current
/// call for the relay.
pub fn commit_call(state: &mut CommonState, next_call: Option<HvacRequest>) -> (p: Publish)
    requires
        state_wf(*old(state)),
    ensures
        state_wf(*final(state)),
        final(state).last_call == (match next_call {
            Some(c) => c,
            None => old(state).last_call,
        }),
        crate::bus::same_except_last_call(*old(state), *final(state)),
        p.topic@ == topic_remotestate_set(),
        p.payload@ == final(state).last_call.spec_payload_bytes(),
        !p.retained,
        p.qos == Qos::AtLeastOnce,
{
    match next_call {
        Some(c) => {
            state.last_call = c;
        },
        None => {},
    }
    Publish {
        topic: crate::bus::topic_remotestate_set_vec(),
        payload: state.last_call.payload(),
        retained: false,
        qos: Qos::AtLeastOnce,
    }
}

/// Override precedence: whenever a timed override has not yet expired, the
/// cycle's call is its command, whatever the one-shot layer, the readings
/// or the script would say.
pub proof fn law_override_precedence(
    timed: Option<TimedOverride>,
    oneshot: Option<OneshotOverrideV>,
    probes: Map<Seq<u8>, Reading>,
    now_ms: i64,
)
    requires
        timed matches Some(t) && t.expiration_ms > now_ms,
    ensures
        spec_arbitrate(timed, oneshot, probes, now_ms).call == Some(timed.unwrap().command),
        spec_arbitrate(timed, oneshot, probes, now_ms).timed == timed,
{
}

/// A timed override expired by the cycle's instant is cleared by that
/// cycle, and a cycle that starts without one never reports its command
/// through the timed layer again.
pub proof fn law_timed_clears_on_expiration(
    timed: Option<TimedOverride>,
    oneshot: Option<OneshotOverrideV>,
    probes: Map<Seq<u8>, Reading>,
    now_ms: i64,
)
    requires
        timed matches Some(t) && t.expiration_ms < now_ms,
    ensures
        spec_arbitrate(timed, oneshot, probes, now_ms).timed is None,
        spec_arbitrate(timed, oneshot, probes, now_ms).timed_cleared,
        spec_arbitrate(None, oneshot, probes, now_ms).timed is None,
{
}

/// A one-shot override whose goal the reading has reached is cleared the
/// first cycle that sees the reading and forces no call; the ensures of
/// [`arbitrate_overrides`] add that the cleared layer's retained null
/// republish is among the cycle's effects, ahead of the commit.
pub proof fn law_oneshot_clears_on_goal(
    oneshot: Option<OneshotOverrideV>,
    probes: Map<Seq<u8>, Reading>,
    now_ms: i64,
)
    requires
        oneshot matches Some(o) && probes.contains_key(o.probe) && spec_goal_reached(
            o,
            probes[o.probe].temp,
        ),
    ensures
        spec_arbitrate(None, oneshot, probes, now_ms).oneshot is None,
        spec_arbitrate(None, oneshot, probes, now_ms).oneshot_cleared,
        spec_arbitrate(None, oneshot, probes, now_ms).call is None,
{
}

/// A one-shot override whose probe has no reading is cleared at once.
pub proof fn law_oneshot_clears_on_missing_probe(
    oneshot: Option<OneshotOverrideV>,
    probes: Map<Seq<u8>, Reading>,
    now_ms: i64,
)
    requires
        oneshot matches Some(o) && !probes.contains_key(o.probe),
    ensures
        spec_arbitrate(None, oneshot, probes, now_ms).oneshot is None,
        spec_arbitrate(None, oneshot, probes, now_ms).oneshot_cleared,
        spec_arbitrate(None, oneshot, probes, now_ms).call is None,
{
}

/// A one-shot override still short of its goal forces its command.
pub proof fn law_oneshot_holds_until_goal(
    oneshot: Option<OneshotOverrideV>,
    probes: Map<Seq<u8>, Reading>,
    now_ms: i64,
)
    requires
        oneshot matches Some(o) && probes.contains_key(o.probe) && !spec_goal_reached(
            o,
            probes[o.probe].temp,
        ),
    ensures
        spec_arbitrate(None, oneshot, probes, now_ms).call == Some(oneshot.unwrap().command),
        spec_arbitrate(None, oneshot, probes, now_ms).oneshot == oneshot,
{
}

} // verus!
