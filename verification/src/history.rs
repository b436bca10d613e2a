//! Bounded, deduplicated history of probe readings and relay states.
//!
//! Entries are `value:epoch_ms` (or `call:epoch_ms`) in ASCII, pushed to the
//! head of a store list only when they add information, and the list is
//! trimmed to about two weeks at the recording cadence.

use vstd::prelude::*;

use crate::ascii::{dec_rep_int, push_dec_i64};
use crate::hvac::HvacRequest;
use crate::temp::{push_render_temp, spec_render_temp, Temp};

verus! {

/// How many history entries are kept: two weeks at ten-second cadence.
pub const HISTORY_MAX_LEN: u64 = 120960;

/// The list entry recording a probe reading at an instant.
pub open spec fn spec_probe_entry(value: Temp, ms: i64) -> Seq<u8> {
    spec_render_temp(value) + seq![':' as u8] + dec_rep_int(ms as int)
}

/// The list entry recording a relay state at an instant.
pub open spec fn spec_pinstate_entry(call: HvacRequest, ms: i64) -> Seq<u8> {
    call.spec_payload_bytes() + seq![':' as u8] + dec_rep_int(ms as int)
}

/// What the probe historian does with one probe: no reading means no
/// entry; otherwise the entry is pushed exactly when it differs from the
/// list head.
pub open spec fn spec_probe_history_step(
    head: Option<Seq<u8>>,
    value: Option<Temp>,
    last_update_ms: i64,
) -> Option<Seq<u8>> {
    match value {
        None => None,
        Some(v) => {
            let entry = spec_probe_entry(v, last_update_ms);
            match head {
                Some(h) => if h == entry {
                    None
                } else {
                    Some(entry)
                },
                None => Some(entry),
            }
        },
    }
}

/// What the pinstate historian does with one observed relay state: the
/// entry is pushed exactly when the head is absent or starts with a
/// different letter.
pub open spec fn spec_pinstate_history_step(
    head: Option<Seq<u8>>,
    call: HvacRequest,
    now_ms: i64,
) -> Option<Seq<u8>> {
    let entry = spec_pinstate_entry(call, now_ms);
    match head {
        Some(h) => if h.len() > 0 && h[0] == call.spec_payload_bytes()[0] {
            None
        } else {
            Some(entry)
        },
        None => Some(entry),
    }
}

/// Build the probe-history entry for a reading.
pub fn probe_entry(value: Temp, ms: i64) -> (r: Vec<u8>)
    ensures
        r@ == spec_probe_entry(value, ms),
{
    let mut out: Vec<u8> = Vec::new();
    push_render_temp(value, &mut out);
    out.push(':' as u8);
    push_dec_i64(ms, &mut out);
    proof {
        assert(out@ =~= spec_probe_entry(value, ms));
    }
    out
}

/// Build the pinstate-history entry for an observed relay state.
pub fn pinstate_entry(call: HvacRequest, ms: i64) -> (r: Vec<u8>)
    ensures
        r@ == spec_pinstate_entry(call, ms),
{
    let mut out = call.payload();
    out.push(':' as u8);
    push_dec_i64(ms, &mut out);
    proof {
        assert(out@ =~= spec_pinstate_entry(call, ms));
    }
    out
}

/// Decide what the probe historian records for one probe this pass: the
/// entry to push at the head, or nothing.
pub fn probe_history_step(
    head: Option<&Vec<u8>>,
    value: Option<Temp>,
    last_update_ms: i64,
) -> (r: Option<Vec<u8>>)
    ensures
        ({
            let h = match head {
                Some(h) => Some(h@),
                None => None,
            };
            match r {
                Some(e) => spec_probe_history_step(h, value, last_update_ms) == Some(e@),
                None => spec_probe_history_step(h, value, last_update_ms) is None,
            }
        }),
{
    match value {
        None => None,
        Some(v) => {
            let entry = probe_entry(v, last_update_ms);
            match head {
                Some(h) => {
                    if crate::ascii::bytes_eq(h.as_slice(), entry.as_slice()) {
                        None
                    } else {
                        Some(entry)
                    }
                },
                None => Some(entry),
            }
        },
    }
}

/// Decide what the pinstate historian records for one observed state.
pub fn pinstate_history_step(head: Option<&Vec<u8>>, call: HvacRequest, now_ms: i64) -> (r: Option<
    Vec<u8>,
>)
    ensures
        ({
            let h = match head {
                Some(h) => Some(h@),
                None => None,
            };
            match r {
                Some(e) => spec_pinstate_history_step(h, call, now_ms) == Some(e@),
                None => spec_pinstate_history_step(h, call, now_ms) is None,
            }
        }),
{
    let word = call.payload();
    match head {
        Some(h) => {
            if h.len() > 0 && h[0] == word[0] {
                None
            } else {
                Some(pinstate_entry(call, now_ms))
            }
        },
        None => Some(pinstate_entry(call, now_ms)),
    }
}

/// Two consecutive identical probe readings produce exactly one entry: the
/// first pass pushes it, and a second pass whose head is that entry pushes
/// nothing.
pub proof fn law_probe_history_dedup(value: Temp, last_update_ms: i64, head: Option<Seq<u8>>)
    requires
        head is None || head != Some(spec_probe_entry(value, last_update_ms)),
    ensures
        spec_probe_history_step(head, Some(value), last_update_ms) == Some(
            spec_probe_entry(value, last_update_ms),
        ),
        spec_probe_history_step(
            Some(spec_probe_entry(value, last_update_ms)),
            Some(value),
            last_update_ms,
        ) is None,
{
}

/// Two consecutive identical relay states produce exactly one entry, and a
/// differing state produces a new head.
pub proof fn law_pinstate_history_dedup(call: HvacRequest, other: HvacRequest, ms: i64, ms2: i64)
    requires
        call != other,
    ensures
        spec_pinstate_history_step(Some(spec_pinstate_entry(call, ms)), call, ms2) is None,
        spec_pinstate_history_step(Some(spec_pinstate_entry(call, ms)), other, ms2) == Some(
            spec_pinstate_entry(other, ms2),
        ),
{
    let e = spec_pinstate_entry(call, ms);
    assert(e[0] == call.spec_payload_bytes()[0]);
    assert(call.spec_payload_bytes()[0] != other.spec_payload_bytes()[0]);
}

} // verus!
