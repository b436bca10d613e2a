//! The two operator override records and their JSON wire forms.
//!
//! A `TimedOverride` preempts the script until a wall-clock expiration; a
//! `OneshotOverride` preempts it until a probe crosses a setpoint. Both
//! travel as flat JSON objects, with JSON `null` for absence, and persist in
//! the durable store in the same form.

use vstd::prelude::*;

use crate::ascii::bytes_eq;
use crate::hvac::HvacRequest;
use crate::json::{
    find_member, members_view, plain_str_bytes, read_members, skip_ws, spec_find_member,
    spec_member, spec_members, spec_skip_ws, spec_str_end,
};
use crate::temp::{parse_temp, spec_parse_temp, spec_render_temp, temp_in_range, Temp};
use crate::timefmt::{epoch_ms_in_range, parse_rfc3339_ms, rfc3339_bytes, rfc3339_ms_of};

verus! {

/// The direction a one-shot override watches: clear once the probe reads
/// below (`Less`) or above (`Greater`) the setpoint.
#[derive(Copy, Clone, PartialEq, Eq, Structural, Debug)]
pub enum OneshotOrdering {
    Less,
    Greater,
}

/// An operator override that holds a command until a wall-clock instant.
#[derive(Copy, Clone, PartialEq, Eq, Structural, Debug)]
pub struct TimedOverride {
    /// The command the override forces.
    pub command: HvacRequest,
    /// When it lapses, in milliseconds since the Unix epoch.
    pub expiration_ms: i64,
}

/// An operator override that holds a command until a probe reading crosses
/// a setpoint.
#[derive(Clone, PartialEq, Eq, Debug)]
pub struct OneshotOverride {
    /// The command the override forces while the goal is not reached.
    pub command: HvacRequest,
    /// The direction that counts as reaching the goal.
    pub comparison: OneshotOrdering,
    /// The goal temperature.
    pub setpoint: Temp,
    /// The name of the probe that is measured against the setpoint.
    pub probe: Vec<u8>,
}

/// The mathematical shape of a one-shot override.
pub struct OneshotOverrideV {
    pub command: HvacRequest,
    pub comparison: OneshotOrdering,
    pub setpoint: Temp,
    pub probe: Seq<u8>,
}

impl View for OneshotOverride {
    type V = OneshotOverrideV;

    open spec fn view(&self) -> OneshotOverrideV {
        OneshotOverrideV {
            command: self.command,
            comparison: self.comparison,
            setpoint: self.setpoint,
            probe: self.probe@,
        }
    }
}

/// A well-formed timed override expires at a formattable instant.
pub open spec fn timed_override_wf(t: TimedOverride) -> bool {
    epoch_ms_in_range(t.expiration_ms)
}

/// A well-formed one-shot override names its probe in plain JSON-string
/// bytes and keeps its setpoint in the renderable range.
pub open spec fn oneshot_override_wf(o: OneshotOverrideV) -> bool {
    plain_str_bytes(o.probe) && temp_in_range(o.setpoint)
}

/// A parse failure on an override payload.
#[derive(Copy, Clone, PartialEq, Eq, Structural, Debug)]
pub struct OverrideParseError;

/// The bytes of the member key `command`.
pub open spec fn key_command() -> Seq<u8> {
    seq!['c' as u8, 'o' as u8, 'm' as u8, 'm' as u8, 'a' as u8, 'n' as u8, 'd' as u8]
}

/// The bytes of the member key `expiration`.
pub open spec fn key_expiration() -> Seq<u8> {
    seq![
        'e' as u8,
        'x' as u8,
        'p' as u8,
        'i' as u8,
        'r' as u8,
        'a' as u8,
        't' as u8,
        'i' as u8,
        'o' as u8,
        'n' as u8,
    ]
}

/// The bytes of the member key `comparison`.
pub open spec fn key_comparison() -> Seq<u8> {
    seq![
        'c' as u8,
        'o' as u8,
        'm' as u8,
        'p' as u8,
        'a' as u8,
        'r' as u8,
        'i' as u8,
        's' as u8,
        'o' as u8,
        'n' as u8,
    ]
}

/// The bytes of the member key `setpoint`.
pub open spec fn key_setpoint() -> Seq<u8> {
    seq!['s' as u8, 'e' as u8, 't' as u8, 'p' as u8, 'o' as u8, 'i' as u8, 'n' as u8, 't' as u8]
}

/// The bytes of the member key `probe`.
pub open spec fn key_probe() -> Seq<u8> {
    seq!['p' as u8, 'r' as u8, 'o' as u8, 'b' as u8, 'e' as u8]
}

/// The bytes of the literal `null`.
pub open spec fn null_bytes() -> Seq<u8> {
    seq!['n' as u8, 'u' as u8, 'l' as u8, 'l' as u8]
}

/// The bytes of the word `less`.
pub open spec fn less_bytes() -> Seq<u8> {
    seq!['l' as u8, 'e' as u8, 's' as u8, 's' as u8]
}

/// The bytes of the word `greater`.
pub open spec fn greater_bytes() -> Seq<u8> {
    seq!['g' as u8, 'r' as u8, 'e' as u8, 'a' as u8, 't' as u8, 'e' as u8, 'r' as u8]
}

/// The command a JSON string value names: exactly `off`, `heat` or `cool`.
pub open spec fn spec_command_of(v: Seq<u8>) -> Option<HvacRequest> {
    if v == HvacRequest::Off.spec_payload_bytes() {
        Some(HvacRequest::Off)
    } else if v == HvacRequest::Heat.spec_payload_bytes() {
        Some(HvacRequest::Heat)
    } else if v == HvacRequest::Cool.spec_payload_bytes() {
        Some(HvacRequest::Cool)
    } else {
        None
    }
}

/// The ordering a JSON string value names: exactly `less` or `greater`.
pub open spec fn spec_comparison_of(v: Seq<u8>) -> Option<OneshotOrdering> {
    if v == less_bytes() {
        Some(OneshotOrdering::Less)
    } else if v == greater_bytes() {
        Some(OneshotOrdering::Greater)
    } else {
        None
    }
}

/// Whether the payload is the literal `null` with surrounding whitespace.
pub open spec fn spec_is_null_payload(s: Seq<u8>) -> bool {
    let i = spec_skip_ws(s, 0);
    &&& i + 4 <= s.len()
    &&& s.subrange(i, i + 4) == null_bytes()
    &&& spec_skip_ws(s, i + 4) == s.len()
}

/// The timed override a two-member object body denotes, if any.
pub open spec fn spec_timed_of_members(ms: Seq<(Seq<u8>, Seq<u8>, bool)>) -> Option<
    TimedOverride,
> {
    match (spec_find_member(ms, key_command()), spec_find_member(ms, key_expiration())) {
        (Some((cv, true)), Some((ev, true))) => {
            match (spec_command_of(cv), rfc3339_ms_of(ev)) {
                (Some(c), Some(ms_val)) => if epoch_ms_in_range(ms_val) {
                    Some(TimedOverride { command: c, expiration_ms: ms_val })
                } else {
                    None
                },
                _ => None,
            }
        },
        _ => None,
    }
}

/// The optional timed override a payload denotes: `null`, or an object with
/// exactly the members `command` and `expiration`.
pub open spec fn spec_parse_timed(s: Seq<u8>) -> Option<Option<TimedOverride>> {
    if spec_is_null_payload(s) {
        Some(None)
    } else {
        let i = spec_skip_ws(s, 0);
        if i < s.len() && s[i] == '{' as u8 {
            let j = spec_skip_ws(s, i + 1);
            match spec_members(s, j, 2) {
                Some((ms, e)) => {
                    if spec_skip_ws(s, e) == s.len() {
                        match spec_timed_of_members(ms) {
                            Some(t) => Some(Some(t)),
                            None => None,
                        }
                    } else {
                        None
                    }
                },
                None => None,
            }
        } else {
            None
        }
    }
}

/// The one-shot override a four-member object body denotes, if any.
pub open spec fn spec_oneshot_of_members(ms: Seq<(Seq<u8>, Seq<u8>, bool)>) -> Option<
    OneshotOverrideV,
> {
    match (
        spec_find_member(ms, key_command()),
        spec_find_member(ms, key_comparison()),
        spec_find_member(ms, key_setpoint()),
        spec_find_member(ms, key_probe()),
    ) {
        (Some((cv, true)), Some((ov, true)), Some((sv, false)), Some((pv, true))) => {
            match (spec_command_of(cv), spec_comparison_of(ov), spec_parse_temp(sv)) {
                (Some(c), Some(o), Some(t)) => Some(
                    OneshotOverrideV { command: c, comparison: o, setpoint: t, probe: pv },
                ),
                _ => None,
            }
        },
        _ => None,
    }
}

/// The optional one-shot override a payload denotes: `null`, or an object
/// with exactly the members `command`, `comparison`, `setpoint` and `probe`.
pub open spec fn spec_parse_oneshot(s: Seq<u8>) -> Option<Option<OneshotOverrideV>> {
    if spec_is_null_payload(s) {
        Some(None)
    } else {
        let i = spec_skip_ws(s, 0);
        if i < s.len() && s[i] == '{' as u8 {
            let j = spec_skip_ws(s, i + 1);
            match spec_members(s, j, 4) {
                Some((ms, e)) => {
                    if spec_skip_ws(s, e) == s.len() {
                        match spec_oneshot_of_members(ms) {
                            Some(o) => Some(Some(o)),
                            None => None,
                        }
                    } else {
                        None
                    }
                },
                None => None,
            }
        } else {
            None
        }
    }
}

/// The key `command` as a vector.
fn key_command_vec() -> (r: Vec<u8>)
    ensures
        r@ == key_command(),
{
    let mut v: Vec<u8> = Vec::new();
    v.push('c' as u8);
    v.push('o' as u8);
    v.push('m' as u8);
    v.push('m' as u8);
    v.push('a' as u8);
    v.push('n' as u8);
    v.push('d' as u8);
    proof {
        assert(v@ =~= key_command());
    }
    v
}

/// The key `expiration` as a vector.
fn key_expiration_vec() -> (r: Vec<u8>)
    ensures
        r@ == key_expiration(),
{
    let mut v: Vec<u8> = Vec::new();
    v.push('e' as u8);
    v.push('x' as u8);
    v.push('p' as u8);
    v.push('i' as u8);
    v.push('r' as u8);
    v.push('a' as u8);
    v.push('t' as u8);
    v.push('i' as u8);
    v.push('o' as u8);
    v.push('n' as u8);
    proof {
        assert(v@ =~= key_expiration());
    }
    v
}

/// The key `comparison` as a vector.
fn key_comparison_vec() -> (r: Vec<u8>)
    ensures
        r@ == key_comparison(),
{
    let mut v: Vec<u8> = Vec::new();
    v.push('c' as u8);
    v.push('o' as u8);
    v.push('m' as u8);
    v.push('p' as u8);
    v.push('a' as u8);
    v.push('r' as u8);
    v.push('i' as u8);
    v.push('s' as u8);
    v.push('o' as u8);
    v.push('n' as u8);
    proof {
        assert(v@ =~= key_comparison());
    }
    v
}

/// The key `setpoint` as a vector.
fn key_setpoint_vec() -> (r: Vec<u8>)
    ensures
        r@ == key_setpoint(),
{
    let mut v: Vec<u8> = Vec::new();
    v.push('s' as u8);
    v.push('e' as u8);
    v.push('t' as u8);
    v.push('p' as u8);
    v.push('o' as u8);
    v.push('i' as u8);
    v.push('n' as u8);
    v.push('t' as u8);
    proof {
        assert(v@ =~= key_setpoint());
    }
    v
}

/// The key `probe` as a vector.
fn key_probe_vec() -> (r: Vec<u8>)
    ensures
        r@ == key_probe(),
{
    let mut v: Vec<u8> = Vec::new();
    v.push('p' as u8);
    v.push('r' as u8);
    v.push('o' as u8);
    v.push('b' as u8);
    v.push('e' as u8);
    proof {
        assert(v@ =~= key_probe());
    }
    v
}

/// The literal `null` as a vector.
pub fn null_vec() -> (r: Vec<u8>)
    ensures
        r@ == null_bytes(),
{
    let mut v: Vec<u8> = Vec::new();
    v.push('n' as u8);
    v.push('u' as u8);
    v.push('l' as u8);
    v.push('l' as u8);
    proof {
        assert(v@ =~= null_bytes());
    }
    v
}

/// The word `less` as a vector.
fn less_vec() -> (r: Vec<u8>)
    ensures
        r@ == less_bytes(),
{
    let mut v: Vec<u8> = Vec::new();
    v.push('l' as u8);
    v.push('e' as u8);
    v.push('s' as u8);
    v.push('s' as u8);
    proof {
        assert(v@ =~= less_bytes());
    }
    v
}

/// The word `greater` as a vector.
fn greater_vec() -> (r: Vec<u8>)
    ensures
        r@ == greater_bytes(),
{
    let mut v: Vec<u8> = Vec::new();
    v.push('g' as u8);
    v.push('r' as u8);
    v.push('e' as u8);
    v.push('a' as u8);
    v.push('t' as u8);
    v.push('e' as u8);
    v.push('r' as u8);
    proof {
        assert(v@ =~= greater_bytes());
    }
    v
}

/// Whether the payload is `null` with surrounding whitespace.
fn is_null_payload(s: &[u8]) -> (r: bool)
    ensures
        r == spec_is_null_payload(s@),
{
    let i = skip_ws(s, 0);
    if s.len() - i >= 4 {
        let w = &s[i..i + 4];
        let nb = null_vec();
        if bytes_eq(w, nb.as_slice()) {
            skip_ws(s, i + 4) == s.len()
        } else {
            false
        }
    } else {
        false
    }
}

/// Decode a JSON command word.
fn command_of(v: &[u8]) -> (r: Option<HvacRequest>)
    ensures
        r == spec_command_of(v@),
{
    if bytes_eq(v, HvacRequest::Off.payload().as_slice()) {
        Some(HvacRequest::Off)
    } else if bytes_eq(v, HvacRequest::Heat.payload().as_slice()) {
        Some(HvacRequest::Heat)
    } else if bytes_eq(v, HvacRequest::Cool.payload().as_slice()) {
        Some(HvacRequest::Cool)
    } else {
        None
    }
}

/// Decode a JSON comparison word.
fn comparison_of(v: &[u8]) -> (r: Option<OneshotOrdering>)
    ensures
        r == spec_comparison_of(v@),
{
    if bytes_eq(v, less_vec().as_slice()) {
        Some(OneshotOrdering::Less)
    } else if bytes_eq(v, greater_vec().as_slice()) {
        Some(OneshotOrdering::Greater)
    } else {
        None
    }
}

/// Parse a timed-override payload: `null` or an object with exactly the
/// members `command` and `expiration`, in either order.
pub fn parse_timed_override(s: &[u8]) -> (r: Result<Option<TimedOverride>, OverrideParseError>)
    ensures
        match r {
            Ok(o) => spec_parse_timed(s@) == Some(o),
            Err(_) => spec_parse_timed(s@) is None,
        },
        r matches Ok(Some(t)) ==> timed_override_wf(t),
{
    if is_null_payload(s) {
        return Ok(None);
    }
    let i = skip_ws(s, 0);
    if i >= s.len() || s[i] != '{' as u8 {
        return Err(OverrideParseError);
    }
    let j = skip_ws(s, i + 1);
    let (ms, e) = match read_members(s, j, 2) {
        Some(x) => x,
        None => {
            return Err(OverrideParseError);
        },
    };
    if skip_ws(s, e) != s.len() {
        return Err(OverrideParseError);
    }
    let ck = key_command_vec();
    let ci = match find_member(&ms, ck.as_slice()) {
        Some(x) => x,
        None => {
            return Err(OverrideParseError);
        },
    };
    let ek = key_expiration_vec();
    let ei = match find_member(&ms, ek.as_slice()) {
        Some(x) => x,
        None => {
            return Err(OverrideParseError);
        },
    };
    if !ms[ci].string_value || !ms[ei].string_value {
        return Err(OverrideParseError);
    }
    let cmd = match command_of(ms[ci].value.as_slice()) {
        Some(c) => c,
        None => {
            return Err(OverrideParseError);
        },
    };
    let ems = match parse_rfc3339_ms(ms[ei].value.as_slice()) {
        Some(v) => v,
        None => {
            return Err(OverrideParseError);
        },
    };
    if ems < crate::timefmt::EPOCH_MS_MIN || ems > crate::timefmt::EPOCH_MS_MAX {
        return Err(OverrideParseError);
    }
    Ok(Some(TimedOverride { command: cmd, expiration_ms: ems }))
}

/// Parse a one-shot-override payload: `null` or an object with exactly the
/// members `command`, `comparison`, `setpoint` and `probe`, in any order.
pub fn parse_oneshot_override(s: &[u8]) -> (r: Result<Option<OneshotOverride>, OverrideParseError>)
    ensures
        match r {
            Ok(None) => spec_parse_oneshot(s@) == Some(None::<OneshotOverrideV>),
            Ok(Some(o)) => spec_parse_oneshot(s@) == Some(Some(o@)) && oneshot_override_wf(o@),
            Err(_) => spec_parse_oneshot(s@) is None,
        },
{
    if is_null_payload(s) {
        return Ok(None);
    }
    let i = skip_ws(s, 0);
    if i >= s.len() || s[i] != '{' as u8 {
        return Err(OverrideParseError);
    }
    let j = skip_ws(s, i + 1);
    let (ms, e) = match read_members(s, j, 4) {
        Some(x) => x,
        None => {
            return Err(OverrideParseError);
        },
    };
    if skip_ws(s, e) != s.len() {
        return Err(OverrideParseError);
    }
    let ck = key_command_vec();
    let ci = match find_member(&ms, ck.as_slice()) {
        Some(x) => x,
        None => {
            return Err(OverrideParseError);
        },
    };
    let ok = key_comparison_vec();
    let oi = match find_member(&ms, ok.as_slice()) {
        Some(x) => x,
        None => {
            return Err(OverrideParseError);
        },
    };
    let sk = key_setpoint_vec();
    let si = match find_member(&ms, sk.as_slice()) {
        Some(x) => x,
        None => {
            return Err(OverrideParseError);
        },
    };
    let pk = key_probe_vec();
    let pi = match find_member(&ms, pk.as_slice()) {
        Some(x) => x,
        None => {
            return Err(OverrideParseError);
        },
    };
    if !ms[ci].string_value || !ms[oi].string_value || ms[si].string_value
        || !ms[pi].string_value {
        return Err(OverrideParseError);
    }
    let cmd = match command_of(ms[ci].value.as_slice()) {
        Some(c) => c,
        None => {
            return Err(OverrideParseError);
        },
    };
    let cmp = match comparison_of(ms[oi].value.as_slice()) {
        Some(c) => c,
        None => {
            return Err(OverrideParseError);
        },
    };
    let setpoint = match parse_temp(ms[si].value.as_slice()) {
        Some(t) => t,
        None => {
            return Err(OverrideParseError);
        },
    };
    proof {
        crate::temp::lemma_parse_temp_in_range(ms@[si as int].value@);
        lemma_string_members_plain(s@, j as int, 4);
        let msv = members_view(ms@);
        assert(msv[pi as int] == ms@[pi as int]@);
        assert(msv[pi as int].2);
        assert(plain_str_bytes(msv[pi as int].1));
        assert(msv[pi as int].1 == ms@[pi as int].value@);
    }
    let probe = vstd::slice::slice_to_vec(ms[pi].value.as_slice());
    Ok(Some(OneshotOverride { command: cmd, comparison: cmp, setpoint, probe }))
}

/// Every string value among scanned members is made of plain bytes.
proof fn lemma_string_members_plain(s: Seq<u8>, i: int, n: nat)
    requires
        0 <= i <= s.len(),
    ensures
        match spec_members(s, i, n) {
            Some((ms, e)) => forall|k: int|
                0 <= k < ms.len() && (#[trigger] ms[k]).2 ==> plain_str_bytes(ms[k].1),
            None => true,
        },
    decreases n,
{
    if n > 0 {
        lemma_member_value_plain(s, i);
        match spec_member(s, i) {
            None => {},
            Some((k0, v0, st0, j)) => {
                let a = spec_skip_ws(s, j);
                lemma_skip_ws_bounds(s, j);
                if n > 1 && a < s.len() && s[a] == ',' as u8 {
                    let b = spec_skip_ws(s, a + 1);
                    lemma_skip_ws_bounds(s, a + 1);
                    lemma_string_members_plain(s, b, (n - 1) as nat);
                    match spec_members(s, b, (n - 1) as nat) {
                        None => {},
                        Some((rest, e)) => {
                            let ms = seq![(k0, v0, st0)] + rest;
                            assert forall|k: int|
                                0 <= k < ms.len() && (#[trigger] ms[k]).2 implies plain_str_bytes(
                                ms[k].1,
                            ) by {
                                if k > 0 {
                                    assert(ms[k] == rest[k - 1]);
                                }
                            }
                        },
                    }
                }
            },
        }
    }
}

/// The value of a string-valued member is made of plain bytes, and the
/// member ends within the input.
proof fn lemma_member_value_plain(s: Seq<u8>, i: int)
    requires
        0 <= i <= s.len(),
    ensures
        match spec_member(s, i) {
            Some((k, v, st, j)) => i < j <= s.len() && (st ==> plain_str_bytes(v)),
            None => true,
        },
{
    if 0 <= i < s.len() && s[i] == '"' as u8 {
        crate::json::lemma_str_end(s, i + 1);
        match spec_str_end(s, i + 1) {
            None => {},
            Some(kq) => {
                lemma_skip_ws_bounds(s, kq + 1);
                let j = spec_skip_ws(s, kq + 1);
                if j < s.len() && s[j] == ':' as u8 {
                    lemma_skip_ws_bounds(s, j + 1);
                    let k = spec_skip_ws(s, j + 1);
                    if k < s.len() && s[k] == '"' as u8 {
                        crate::json::lemma_str_end(s, k + 1);
                    } else {
                        crate::json::lemma_num_end(s, k);
                    }
                }
            },
        }
    }
}

/// The canonical wire form of an optional timed override.
pub open spec fn spec_serialize_timed(o: Option<TimedOverride>) -> Seq<u8> {
    match o {
        None => null_bytes(),
        Some(t) => seq!['{' as u8, '"' as u8] + key_command() + seq![
            '"' as u8,
            ':' as u8,
            '"' as u8,
        ] + t.command.spec_payload_bytes() + seq!['"' as u8, ',' as u8, '"' as u8]
            + key_expiration() + seq!['"' as u8, ':' as u8, '"' as u8] + rfc3339_bytes(
            t.expiration_ms,
        ) + seq!['"' as u8, '}' as u8],
    }
}

/// The canonical wire form of an optional one-shot override.
pub open spec fn spec_serialize_oneshot(o: Option<OneshotOverrideV>) -> Seq<u8> {
    match o {
        None => null_bytes(),
        Some(v) => seq!['{' as u8, '"' as u8] + key_command() + seq![
            '"' as u8,
            ':' as u8,
            '"' as u8,
        ] + v.command.spec_payload_bytes() + seq!['"' as u8, ',' as u8, '"' as u8]
            + key_comparison() + seq!['"' as u8, ':' as u8, '"' as u8] + comparison_bytes(
            v.comparison,
        ) + seq!['"' as u8, ',' as u8, '"' as u8] + key_setpoint() + seq!['"' as u8, ':' as u8]
            + spec_render_temp(v.setpoint) + seq![',' as u8, '"' as u8] + key_probe() + seq![
            '"' as u8,
            ':' as u8,
            '"' as u8,
        ] + v.probe + seq!['"' as u8, '}' as u8],
    }
}

/// The wire word of a comparison.
pub open spec fn comparison_bytes(c: OneshotOrdering) -> Seq<u8> {
    match c {
        OneshotOrdering::Less => less_bytes(),
        OneshotOrdering::Greater => greater_bytes(),
    }
}

/// Every fixed wire word is made of plain string bytes.
proof fn lemma_wire_words_plain()
    ensures
        plain_str_bytes(key_command()),
        plain_str_bytes(key_expiration()),
        plain_str_bytes(key_comparison()),
        plain_str_bytes(key_setpoint()),
        plain_str_bytes(key_probe()),
        plain_str_bytes(HvacRequest::Off.spec_payload_bytes()),
        plain_str_bytes(HvacRequest::Heat.spec_payload_bytes()),
        plain_str_bytes(HvacRequest::Cool.spec_payload_bytes()),
        plain_str_bytes(less_bytes()),
        plain_str_bytes(greater_bytes()),
{
}

/// `null` reads back as the absent override.
pub proof fn lemma_null_parses()
    ensures
        spec_parse_timed(null_bytes()) == Some(None::<TimedOverride>),
        spec_parse_oneshot(null_bytes()) == Some(None::<OneshotOverrideV>),
{
    let s = null_bytes();
    assert(spec_skip_ws(s, 0) == 0);
    assert(s.subrange(0, 4) =~= null_bytes());
    assert(spec_skip_ws(s, 4) == 4);
    assert(spec_is_null_payload(s));
}

/// A serialized timed override reads back as itself.
#[verifier::rlimit(100)]
pub proof fn lemma_timed_round_trip(t: TimedOverride)
    requires
        timed_override_wf(t),
        rfc3339_ms_of(rfc3339_bytes(t.expiration_ms)) == Some(t.expiration_ms),
        plain_str_bytes(rfc3339_bytes(t.expiration_ms)),
    ensures
        spec_parse_timed(spec_serialize_timed(Some(t))) == Some(Some(t)),
{
    lemma_wire_words_plain();
    let cb = t.command.spec_payload_bytes();
    let eb = rfc3339_bytes(t.expiration_ms);
    let l1 = cb.len() as int;
    let l2 = eb.len() as int;
    let s = spec_serialize_timed(Some(t));
    assert(key_command().len() == 7);
    assert(key_expiration().len() == 10);
    assert(s.len() == 30 + l1 + l2);
    assert(s[0] == '{' as u8);
    assert(s[1] == '"' as u8);
    assert forall|j: int| 2 <= j < 9 implies crate::json::plain_str_byte(#[trigger] s[j]) by {
        assert(s[j] == key_command()[j - 2]);
    }
    assert(s[9] == '"' as u8);
    assert(s[10] == ':' as u8);
    assert(s[11] == '"' as u8);
    assert forall|j: int| 12 <= j < 12 + l1 implies crate::json::plain_str_byte(
        #[trigger] s[j],
    ) by {
        assert(s[j] == cb[j - 12]);
    }
    assert(s[12 + l1] == '"' as u8);
    crate::json::lemma_member_string_at(s, 1, 7, l1);
    assert(s.subrange(2, 9) =~= key_command());
    assert(s.subrange(12, 12 + l1) =~= cb);
    let j1 = 13 + l1;
    assert(s[j1] == ',' as u8);
    assert(s[j1 + 1] == '"' as u8);
    assert forall|j: int| 15 + l1 <= j < 25 + l1 implies crate::json::plain_str_byte(
        #[trigger] s[j],
    ) by {
        assert(s[j] == key_expiration()[j - 15 - l1]);
    }
    assert(s[25 + l1] == '"' as u8);
    assert(s[26 + l1] == ':' as u8);
    assert(s[27 + l1] == '"' as u8);
    assert forall|j: int| 28 + l1 <= j < 28 + l1 + l2 implies crate::json::plain_str_byte(
        #[trigger] s[j],
    ) by {
        assert(s[j] == eb[j - 28 - l1]);
    }
    assert(s[28 + l1 + l2] == '"' as u8);
    crate::json::lemma_member_string_at(s, j1 + 1, 10, l2);
    assert(s.subrange(15 + l1, 25 + l1) =~= key_expiration());
    assert(s.subrange(28 + l1, 28 + l1 + l2) =~= eb);
    let j2 = 29 + l1 + l2;
    assert(s[j2] == '}' as u8);
    crate::json::lemma_members2_at(
        s,
        1,
        (key_command(), cb, true),
        j1,
        (key_expiration(), eb, true),
        j2,
    );
    let ms = seq![(key_command(), cb, true), (key_expiration(), eb, true)];
    assert(spec_skip_ws(s, 0) == 0);
    assert(!spec_is_null_payload(s)) by {
        if spec_is_null_payload(s) {
            assert(s.subrange(0, 4)[0] == s[0]);
            assert(null_bytes()[0] == 'n' as u8);
        }
    }
    assert(spec_skip_ws(s, 1) == 1);
    assert(spec_skip_ws(s, j2 + 1) == s.len() as int);
    assert(spec_find_member(ms, key_command()) == Some((cb, true)));
    assert(key_expiration() != key_command()) by {
        assert(key_expiration().len() != key_command().len());
    }
    assert(ms.drop_first() =~= seq![(key_expiration(), eb, true)]);
    assert(spec_find_member(seq![(key_expiration(), eb, true)], key_expiration()) == Some(
        (eb, true),
    ));
    assert(spec_find_member(ms, key_expiration()) == Some((eb, true)));
    assert(spec_command_of(cb) == Some(t.command)) by {
        assert(HvacRequest::Off.spec_payload_bytes().len() == 3);
        assert(HvacRequest::Heat.spec_payload_bytes().len() == 4);
        assert(HvacRequest::Cool.spec_payload_bytes().len() == 4);
        assert(HvacRequest::Heat.spec_payload_bytes()[0]
            != HvacRequest::Cool.spec_payload_bytes()[0]);
    }
    assert(spec_timed_of_members(ms) == Some(t));
}

/// Write an optional timed override in its canonical wire form; the result
/// reads back as the same record.
pub fn serialize_timed_override(o: &Option<TimedOverride>) -> (r: Vec<u8>)
    requires
        match *o {
            Some(t) => timed_override_wf(t),
            None => true,
        },
    ensures
        r@ == spec_serialize_timed(*o),
        spec_parse_timed(r@) == Some(*o),
{
    match o {
        None => {
            proof {
                lemma_null_parses();
            }
            null_vec()
        },
        Some(t) => {
            let eb = match crate::timefmt::format_rfc3339_ms(t.expiration_ms) {
                Some(b) => b,
                None => {
                    proof {
                        assert(false);
                    }
                    Vec::new()
                },
            };
            let mut out: Vec<u8> = Vec::new();
            out.push('{' as u8);
            out.push('"' as u8);
            let mut k = key_command_vec();
            out.append(&mut k);
            out.push('"' as u8);
            out.push(':' as u8);
            out.push('"' as u8);
            let mut c = t.command.payload();
            out.append(&mut c);
            out.push('"' as u8);
            out.push(',' as u8);
            out.push('"' as u8);
            let mut e = key_expiration_vec();
            out.append(&mut e);
            out.push('"' as u8);
            out.push(':' as u8);
            out.push('"' as u8);
            let mut ebv = eb;
            out.append(&mut ebv);
            out.push('"' as u8);
            out.push('}' as u8);
            proof {
                assert(out@ =~= spec_serialize_timed(Some(*t)));
                lemma_timed_round_trip(*t);
            }
            out
        },
    }
}

/// A serialized one-shot override reads back as itself.
pub proof fn lemma_oneshot_round_trip(v: OneshotOverrideV)
    requires
        oneshot_override_wf(v),
    ensures
        spec_parse_oneshot(spec_serialize_oneshot(Some(v))) == Some(Some(v)),
{
    let cb = v.command.spec_payload_bytes();
    let ob = comparison_bytes(v.comparison);
    let sb = spec_render_temp(v.setpoint);
    let pb = v.probe;
    let m1 = (key_command(), cb, true);
    let m2 = (key_comparison(), ob, true);
    let m3 = (key_setpoint(), sb, false);
    let m4 = (key_probe(), pb, true);
    let ms = seq![m1, m2, m3, m4];
    let s = spec_serialize_oneshot(Some(v));
    lemma_oneshot_layout(v);
    lemma_oneshot_interp(v);
    assert(spec_parse_oneshot(s) == Some(Some(v)));
}

/// The first member of the serialized one-shot form.
#[verifier::rlimit(100)]
proof fn lemma_oneshot_m1(v: OneshotOverrideV)
    requires
        oneshot_override_wf(v),
    ensures
        ({
            let s = spec_serialize_oneshot(Some(v));
            let cb = v.command.spec_payload_bytes();
            spec_member(s, 1) == Some((key_command(), cb, true, 13 + cb.len() as int))
        }),
{
    lemma_wire_words_plain();
    let cb = v.command.spec_payload_bytes();
    let l1 = cb.len() as int;
    let s = spec_serialize_oneshot(Some(v));
    assert(key_command().len() == 7);
    assert(s[1] == '"' as u8);
    assert forall|j: int| 2 <= j < 9 implies crate::json::plain_str_byte(#[trigger] s[j]) by {
        assert(s[j] == key_command()[j - 2]);
    }
    assert(s[9] == '"' as u8);
    assert(s[10] == ':' as u8);
    assert(s[11] == '"' as u8);
    assert forall|j: int| 12 <= j < 12 + l1 implies crate::json::plain_str_byte(
        #[trigger] s[j],
    ) by {
        assert(s[j] == cb[j - 12]);
    }
    assert(s[12 + l1] == '"' as u8);
    crate::json::lemma_member_string_at(s, 1, 7, l1);
    assert(s.subrange(2, 9) =~= key_command());
    assert(s.subrange(12, 12 + l1) =~= cb);
}

/// The second member of the serialized one-shot form.
#[verifier::rlimit(100)]
proof fn lemma_oneshot_m2(v: OneshotOverrideV)
    requires
        oneshot_override_wf(v),
    ensures
        ({
            let s = spec_serialize_oneshot(Some(v));
            let l1 = v.command.spec_payload_bytes().len() as int;
            let ob = comparison_bytes(v.comparison);
            spec_member(s, 14 + l1) == Some(
                (key_comparison(), ob, true, 29 + l1 + ob.len() as int),
            )
        }),
{
    lemma_wire_words_plain();
    let cb = v.command.spec_payload_bytes();
    let ob = comparison_bytes(v.comparison);
    let l1 = cb.len() as int;
    let l2 = ob.len() as int;
    let s = spec_serialize_oneshot(Some(v));
    assert(key_comparison().len() == 10);
    assert(s[14 + l1] == '"' as u8);
    assert forall|j: int| 15 + l1 <= j < 25 + l1 implies crate::json::plain_str_byte(
        #[trigger] s[j],
    ) by {
        assert(s[j] == key_comparison()[j - 15 - l1]);
    }
    assert(s[25 + l1] == '"' as u8);
    assert(s[26 + l1] == ':' as u8);
    assert(s[27 + l1] == '"' as u8);
    assert forall|j: int| 28 + l1 <= j < 28 + l1 + l2 implies crate::json::plain_str_byte(
        #[trigger] s[j],
    ) by {
        assert(s[j] == ob[j - 28 - l1]);
    }
    assert(s[28 + l1 + l2] == '"' as u8);
    crate::json::lemma_member_string_at(s, 14 + l1, 10, l2);
    assert(s.subrange(15 + l1, 25 + l1) =~= key_comparison());
    assert(s.subrange(28 + l1, 28 + l1 + l2) =~= ob);
}

/// The third member of the serialized one-shot form.
#[verifier::rlimit(100)]
proof fn lemma_oneshot_m3(v: OneshotOverrideV)
    requires
        oneshot_override_wf(v),
    ensures
        ({
            let s = spec_serialize_oneshot(Some(v));
            let l1 = v.command.spec_payload_bytes().len() as int;
            let l2 = comparison_bytes(v.comparison).len() as int;
            let sb = spec_render_temp(v.setpoint);
            spec_member(s, 30 + l1 + l2) == Some(
                (key_setpoint(), sb, false, 41 + l1 + l2 + sb.len() as int),
            )
        }),
{
    lemma_wire_words_plain();
    let cb = v.command.spec_payload_bytes();
    let ob = comparison_bytes(v.comparison);
    let sb = spec_render_temp(v.setpoint);
    let l1 = cb.len() as int;
    let l2 = ob.len() as int;
    let l3 = sb.len() as int;
    let s = spec_serialize_oneshot(Some(v));
    assert(key_setpoint().len() == 8);
    crate::temp::lemma_render_milli_bytes(v.setpoint.milli as int);
    assert(s[30 + l1 + l2] == '"' as u8);
    assert forall|j: int| 31 + l1 + l2 <= j < 39 + l1 + l2 implies crate::json::plain_str_byte(
        #[trigger] s[j],
    ) by {
        assert(s[j] == key_setpoint()[j - 31 - l1 - l2]);
    }
    assert(s[39 + l1 + l2] == '"' as u8);
    assert(s[40 + l1 + l2] == ':' as u8);
    assert forall|j: int| 41 + l1 + l2 <= j < 41 + l1 + l2 + l3 implies crate::json::is_num_byte(
        #[trigger] s[j],
    ) by {
        assert(s[j] == sb[j - 41 - l1 - l2]);
    }
    assert(s[41 + l1 + l2] == sb[0]);
    assert(s[41 + l1 + l2] != '"' as u8);
    assert(s[41 + l1 + l2 + l3] == ',' as u8);
    assert(!crate::json::is_num_byte(s[41 + l1 + l2 + l3]));
    crate::json::lemma_member_number_at(s, 30 + l1 + l2, 8, l3);
    assert(s.subrange(31 + l1 + l2, 39 + l1 + l2) =~= key_setpoint());
    assert(s.subrange(41 + l1 + l2, 41 + l1 + l2 + l3) =~= sb);
}

/// The fourth member of the serialized one-shot form.
#[verifier::rlimit(100)]
proof fn lemma_oneshot_m4(v: OneshotOverrideV)
    requires
        oneshot_override_wf(v),
    ensures
        ({
            let s = spec_serialize_oneshot(Some(v));
            let l1 = v.command.spec_payload_bytes().len() as int;
            let l2 = comparison_bytes(v.comparison).len() as int;
            let l3 = spec_render_temp(v.setpoint).len() as int;
            spec_member(s, 42 + l1 + l2 + l3) == Some(
                (key_probe(), v.probe, true, 52 + l1 + l2 + l3 + v.probe.len() as int),
            )
        }),
{
    lemma_wire_words_plain();
    let cb = v.command.spec_payload_bytes();
    let ob = comparison_bytes(v.comparison);
    let sb = spec_render_temp(v.setpoint);
    let pb = v.probe;
    let l1 = cb.len() as int;
    let l2 = ob.len() as int;
    let l3 = sb.len() as int;
    let l4 = pb.len() as int;
    let s = spec_serialize_oneshot(Some(v));
    assert(key_probe().len() == 5);
    assert(s[42 + l1 + l2 + l3] == '"' as u8);
    assert forall|j: int|
        43 + l1 + l2 + l3 <= j < 48 + l1 + l2 + l3 implies crate::json::plain_str_byte(
        #[trigger] s[j],
    ) by {
        assert(s[j] == key_probe()[j - 43 - l1 - l2 - l3]);
    }
    assert(s[48 + l1 + l2 + l3] == '"' as u8);
    assert(s[49 + l1 + l2 + l3] == ':' as u8);
    assert(s[50 + l1 + l2 + l3] == '"' as u8);
    assert forall|j: int|
        51 + l1 + l2 + l3 <= j < 51 + l1 + l2 + l3 + l4 implies crate::json::plain_str_byte(
        #[trigger] s[j],
    ) by {
        assert(s[j] == pb[j - 51 - l1 - l2 - l3]);
    }
    assert(s[51 + l1 + l2 + l3 + l4] == '"' as u8);
    crate::json::lemma_member_string_at(s, 42 + l1 + l2 + l3, 5, l4);
    assert(s.subrange(43 + l1 + l2 + l3, 48 + l1 + l2 + l3) =~= key_probe());
    assert(s.subrange(51 + l1 + l2 + l3, 51 + l1 + l2 + l3 + l4) =~= pb);
}

/// The serialized one-shot form scans as its four members.
#[verifier::rlimit(100)]
proof fn lemma_oneshot_layout(v: OneshotOverrideV)
    requires
        oneshot_override_wf(v),
    ensures
        ({
            let s = spec_serialize_oneshot(Some(v));
            &&& spec_skip_ws(s, 0) == 0
            &&& !spec_is_null_payload(s)
            &&& s.len() > 1 && s[0] == '{' as u8
            &&& spec_skip_ws(s, 1) == 1
            &&& spec_members(s, 1, 4) == Some(
                (
                    seq![
                        (key_command(), v.command.spec_payload_bytes(), true),
                        (key_comparison(), comparison_bytes(v.comparison), true),
                        (key_setpoint(), spec_render_temp(v.setpoint), false),
                        (key_probe(), v.probe, true),
                    ],
                    s.len() as int,
                ),
            )
            &&& spec_skip_ws(s, s.len() as int) == s.len()
        }),
{
    let cb = v.command.spec_payload_bytes();
    let ob = comparison_bytes(v.comparison);
    let sb = spec_render_temp(v.setpoint);
    let pb = v.probe;
    let l1 = cb.len() as int;
    let l2 = ob.len() as int;
    let l3 = sb.len() as int;
    let l4 = pb.len() as int;
    let s = spec_serialize_oneshot(Some(v));
    lemma_oneshot_m1(v);
    lemma_oneshot_m2(v);
    lemma_oneshot_m3(v);
    lemma_oneshot_m4(v);
    assert(s.len() == 53 + l1 + l2 + l3 + l4);
    assert(s[0] == '{' as u8);
    let j1 = 13 + l1;
    let j2 = 29 + l1 + l2;
    let j3 = 41 + l1 + l2 + l3;
    let j4 = 52 + l1 + l2 + l3 + l4;
    assert(s[j1] == ',' as u8);
    assert(s[j2] == ',' as u8);
    assert(s[j3] == ',' as u8);
    assert(s[j4] == '}' as u8);
    crate::json::lemma_members4_at(
        s,
        1,
        (key_command(), cb, true),
        j1,
        (key_comparison(), ob, true),
        j2,
        (key_setpoint(), sb, false),
        j3,
        (key_probe(), pb, true),
        j4,
    );
    assert(spec_skip_ws(s, 0) == 0);
    assert(!spec_is_null_payload(s)) by {
        if spec_is_null_payload(s) {
            assert(s.subrange(0, 4)[0] == s[0]);
            assert(null_bytes()[0] == 'n' as u8);
        }
    }
    assert(spec_skip_ws(s, 1) == 1);
    assert(spec_skip_ws(s, j4 + 1) == s.len() as int);
}

/// The four members of a serialized one-shot form decode to the record.
#[verifier::rlimit(100)]
proof fn lemma_oneshot_interp(v: OneshotOverrideV)
    requires
        oneshot_override_wf(v),
    ensures
        spec_oneshot_of_members(
            seq![
                (key_command(), v.command.spec_payload_bytes(), true),
                (key_comparison(), comparison_bytes(v.comparison), true),
                (key_setpoint(), spec_render_temp(v.setpoint), false),
                (key_probe(), v.probe, true),
            ],
        ) == Some(v),
{
    let cb = v.command.spec_payload_bytes();
    let ob = comparison_bytes(v.comparison);
    let sb = spec_render_temp(v.setpoint);
    let pb = v.probe;
    let m1 = (key_command(), cb, true);
    let m2 = (key_comparison(), ob, true);
    let m3 = (key_setpoint(), sb, false);
    let m4 = (key_probe(), pb, true);
    let ms = seq![m1, m2, m3, m4];
    assert(key_command().len() == 7);
    assert(key_comparison().len() == 10);
    assert(key_setpoint().len() == 8);
    assert(key_probe().len() == 5);
    assert(key_command().len() != key_comparison().len());
    assert(key_command().len() != key_setpoint().len());
    assert(key_command().len() != key_probe().len());
    assert(key_comparison().len() != key_setpoint().len());
    assert(key_comparison().len() != key_probe().len());
    assert(key_setpoint().len() != key_probe().len());
    assert(ms.drop_first() =~= seq![m2, m3, m4]);
    assert(seq![m2, m3, m4].drop_first() =~= seq![m3, m4]);
    assert(seq![m3, m4].drop_first() =~= seq![m4]);
    assert(spec_find_member(ms, key_command()) == Some((cb, true)));
    assert(spec_find_member(seq![m2, m3, m4], key_comparison()) == Some((ob, true)));
    assert(spec_find_member(ms, key_comparison()) == Some((ob, true)));
    assert(spec_find_member(seq![m3, m4], key_setpoint()) == Some((sb, false)));
    assert(spec_find_member(seq![m2, m3, m4], key_setpoint()) == Some((sb, false)));
    assert(spec_find_member(ms, key_setpoint()) == Some((sb, false)));
    assert(spec_find_member(seq![m4], key_probe()) == Some((pb, true)));
    assert(spec_find_member(seq![m3, m4], key_probe()) == Some((pb, true)));
    assert(spec_find_member(seq![m2, m3, m4], key_probe()) == Some((pb, true)));
    assert(spec_find_member(ms, key_probe()) == Some((pb, true)));
    assert(spec_command_of(cb) == Some(v.command)) by {
        assert(HvacRequest::Off.spec_payload_bytes().len() == 3);
        assert(HvacRequest::Heat.spec_payload_bytes().len() == 4);
        assert(HvacRequest::Cool.spec_payload_bytes().len() == 4);
        assert(HvacRequest::Heat.spec_payload_bytes()[0]
            != HvacRequest::Cool.spec_payload_bytes()[0]);
    }
    assert(spec_comparison_of(ob) == Some(v.comparison)) by {
        assert(less_bytes().len() != greater_bytes().len());
    }
    assert(spec_parse_temp(sb) == Some(v.setpoint)) by {
        crate::temp::lemma_parse_of_render(v.setpoint.milli as int);
    }
    assert(spec_oneshot_of_members(ms) == Some(v));
}

/// Write an optional one-shot override in its canonical wire form; the
/// result reads back as the same record.
#[verifier::rlimit(100)]
pub fn serialize_oneshot_override(o: &Option<OneshotOverride>) -> (r: Vec<u8>)
    requires
        match *o {
            Some(v) => oneshot_override_wf(v@),
            None => true,
        },
    ensures
        r@ == spec_serialize_oneshot(match *o {
            Some(v) => Some(v@),
            None => None,
        }),
        spec_parse_oneshot(r@) == Some(
            match *o {
                Some(v) => Some(v@),
                None => None,
            },
        ),
{
    match o {
        None => {
            proof {
                lemma_null_parses();
            }
            null_vec()
        },
        Some(v) => {
            let mut out: Vec<u8> = Vec::new();
            out.push('{' as u8);
            out.push('"' as u8);
            let mut k = key_command_vec();
            out.append(&mut k);
            out.push('"' as u8);
            out.push(':' as u8);
            out.push('"' as u8);
            let mut c = v.command.payload();
            out.append(&mut c);
            out.push('"' as u8);
            out.push(',' as u8);
            out.push('"' as u8);
            let mut ck = key_comparison_vec();
            out.append(&mut ck);
            out.push('"' as u8);
            out.push(':' as u8);
            out.push('"' as u8);
            let mut cw = match v.comparison {
                OneshotOrdering::Less => less_vec(),
                OneshotOrdering::Greater => greater_vec(),
            };
            out.append(&mut cw);
            out.push('"' as u8);
            out.push(',' as u8);
            out.push('"' as u8);
            let mut sk = key_setpoint_vec();
            out.append(&mut sk);
            out.push('"' as u8);
            out.push(':' as u8);
            crate::temp::push_render_temp(v.setpoint, &mut out);
            out.push(',' as u8);
            out.push('"' as u8);
            let mut pk = key_probe_vec();
            out.append(&mut pk);
            out.push('"' as u8);
            out.push(':' as u8);
            out.push('"' as u8);
            let mut pb = vstd::slice::slice_to_vec(v.probe.as_slice());
            out.append(&mut pb);
            out.push('"' as u8);
            out.push('}' as u8);
            proof {
                assert(out@ =~= spec_serialize_oneshot(Some(v@)));
                lemma_oneshot_round_trip(v@);
            }
            out
        },
    }
}

/// `spec_skip_ws` stays within bounds.
proof fn lemma_skip_ws_bounds(s: Seq<u8>, i: int)
    requires
        0 <= i <= s.len() + 1,
    ensures
        i <= spec_skip_ws(s, i),
        i <= s.len() ==> spec_skip_ws(s, i) <= s.len(),
    decreases s.len() - i,
{
    if 0 <= i < s.len() && crate::json::is_ws(s[i]) {
        lemma_skip_ws_bounds(s, i + 1);
    }
}

} // verus!
