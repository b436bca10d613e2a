//! Script lifecycle bookkeeping and the schedule helper.
//!
//! The interpreter itself runs outside the library; here live the decisions
//! around it: when to reload, which version becomes active, what to publish
//! for each lifecycle step, which entry of a timed program to run, and the
//! set of diagnostic issues the helpers collect.

use vstd::prelude::*;
use vstd::string::{StrSliceExecFns, StringSliceAdditionalSpecFns};

use crate::ascii::{bytes_lt, dec_rep_int, is_digit, push_dec_i64};
use crate::bus::{topic_script_error_vec, topic_script_test_error_vec, Publish, Qos};
use crate::report::{error_json, spec_error_json, spec_success_json, success_json};

verus! {

/// A lifecycle step of the script sandbox, as named on the error topic.
#[derive(Copy, Clone, PartialEq, Eq, Structural, Debug)]
pub enum ScriptStep {
    Test,
    Load,
    Init,
    Tick,
    Evaluate,
}

/// The name a step carries in the `error_at` field.
pub open spec fn spec_step_name(s: ScriptStep) -> Seq<u8> {
    match s {
        ScriptStep::Test => "test_script".spec_bytes(),
        ScriptStep::Load => "load_script".spec_bytes(),
        ScriptStep::Init => "init_script".spec_bytes(),
        ScriptStep::Tick => "tick_script".spec_bytes(),
        ScriptStep::Evaluate => "evaluate_script".spec_bytes(),
    }
}

/// The name a step carries in the `error_at` field, as a vector.
pub fn step_name_vec(s: ScriptStep) -> (r: Vec<u8>)
    ensures
        r@ == spec_step_name(s),
{
    match s {
        ScriptStep::Test => "test_script".as_bytes_vec(),
        ScriptStep::Load => "load_script".as_bytes_vec(),
        ScriptStep::Init => "init_script".as_bytes_vec(),
        ScriptStep::Tick => "tick_script".as_bytes_vec(),
        ScriptStep::Evaluate => "evaluate_script".as_bytes_vec(),
    }
}

/// The retained report published on the script status topic when a step
/// fails.
pub fn step_error_publish(step: ScriptStep, error: &[u8]) -> (p: Publish)
    ensures
        p.topic@ == crate::bus::topic_script_error(),
        p.payload@ == spec_error_json(Some(spec_step_name(step)), error@),
        p.retained,
        p.qos == Qos::ExactlyOnce,
{
    let name = step_name_vec(step);
    Publish {
        topic: topic_script_error_vec(),
        payload: error_json(Some(name.as_slice()), error),
        retained: true,
        qos: Qos::ExactlyOnce,
    }
}

/// The retained success report published after a reload goes through.
pub fn reload_success_publish() -> (p: Publish)
    ensures
        p.topic@ == crate::bus::topic_script_error(),
        p.payload@ == spec_success_json(),
        p.retained,
        p.qos == Qos::ExactlyOnce,
{
    Publish {
        topic: topic_script_error_vec(),
        payload: success_json(),
        retained: true,
        qos: Qos::ExactlyOnce,
    }
}

/// The report published on the dry-run status topic after a requested
/// script test: success, or the error it raised.
pub fn test_result_publish(error: Option<&Vec<u8>>) -> (p: Publish)
    ensures
        p.topic@ == crate::bus::topic_script_test_error(),
        p.payload@ == match error {
            None => spec_success_json(),
            Some(e) => spec_error_json(None, e@),
        },
        !p.retained,
        p.qos == Qos::ExactlyOnce,
{
    match error {
        None => Publish {
            topic: topic_script_test_error_vec(),
            payload: success_json(),
            retained: false,
            qos: Qos::ExactlyOnce,
        },
        Some(e) => Publish {
            topic: topic_script_test_error_vec(),
            payload: error_json(None, e.as_slice()),
            retained: false,
            qos: Qos::ExactlyOnce,
        },
    }
}

/// How one reload attempt ended: the first failing step and its error, or
/// a completed load.
#[derive(Clone, PartialEq, Eq, Debug)]
pub enum ReloadOutcome {
    TestFailed(Vec<u8>),
    LoadFailed(Vec<u8>),
    InitFailed(Vec<u8>),
    Loaded,
}

/// The decision task's view of which script version is loaded.
#[derive(Copy, Clone, PartialEq, Eq, Structural, Debug)]
pub struct ScriptMonitor {
    /// The version of the last reload attempt, successful or not.
    pub last_version_ms: i64,
    /// The version the live interpreter serves, if any loaded cleanly.
    pub active_version_ms: Option<i64>,
}

/// The monitor after observing a reload attempt: the attempt is recorded,
/// and the active version moves only on a completed load.
pub open spec fn spec_observe_reload(
    m: ScriptMonitor,
    version_ms: i64,
    outcome: ReloadOutcome,
) -> ScriptMonitor {
    ScriptMonitor {
        last_version_ms: version_ms,
        active_version_ms: if outcome is Loaded {
            Some(version_ms)
        } else {
            m.active_version_ms
        },
    }
}

impl ScriptMonitor {
    /// Before any reload: nothing attempted, nothing active.
    pub fn new() -> (r: ScriptMonitor)
        ensures
            r.last_version_ms == 0,
            r.active_version_ms is None,
    {
        ScriptMonitor { last_version_ms: 0, active_version_ms: None }
    }

    /// Whether the state's script version calls for a reload attempt.
    pub fn reload_needed(&self, current_version_ms: i64) -> (r: bool)
        ensures
            r == (current_version_ms != self.last_version_ms),
    {
        current_version_ms != self.last_version_ms
    }

    /// Record a reload attempt and return the retained report to publish.
    pub fn observe_reload(&mut self, version_ms: i64, outcome: &ReloadOutcome) -> (p: Publish)
        ensures
            *final(self) == spec_observe_reload(*old(self), version_ms, *outcome),
            p.topic@ == crate::bus::topic_script_error(),
            p.retained,
            p.qos == Qos::ExactlyOnce,
            p.payload@ == match *outcome {
                ReloadOutcome::TestFailed(e) => spec_error_json(
                    Some(spec_step_name(ScriptStep::Test)),
                    e@,
                ),
                ReloadOutcome::LoadFailed(e) => spec_error_json(
                    Some(spec_step_name(ScriptStep::Load)),
                    e@,
                ),
                ReloadOutcome::InitFailed(e) => spec_error_json(
                    Some(spec_step_name(ScriptStep::Init)),
                    e@,
                ),
                ReloadOutcome::Loaded => spec_success_json(),
            },
    {
        self.last_version_ms = version_ms;
        match outcome {
            ReloadOutcome::TestFailed(e) => step_error_publish(ScriptStep::Test, e.as_slice()),
            ReloadOutcome::LoadFailed(e) => step_error_publish(ScriptStep::Load, e.as_slice()),
            ReloadOutcome::InitFailed(e) => step_error_publish(ScriptStep::Init, e.as_slice()),
            ReloadOutcome::Loaded => {
                self.active_version_ms = Some(version_ms);
                reload_success_publish()
            },
        }
    }
}

/// Hot-reload atomicity: a reload attempt that fails at any step leaves
/// the active version — and with it the interpreter that serves ticks and
/// evaluations — exactly as it was, while still recording the attempt so
/// the text is not retried until it changes again.
pub proof fn law_reload_atomicity(m: ScriptMonitor, version_ms: i64, outcome: ReloadOutcome)
    ensures
        !(outcome is Loaded) ==> spec_observe_reload(m, version_ms, outcome).active_version_ms
            == m.active_version_ms,
        outcome is Loaded ==> spec_observe_reload(m, version_ms, outcome).active_version_ms
            == Some(version_ms),
        spec_observe_reload(m, version_ms, outcome).last_version_ms == version_ms,
{
}

/// The minutes past midnight a strict `HH:MM` string denotes.
pub open spec fn spec_parse_hhmm(s: Seq<u8>) -> Option<u16> {
    if s.len() == 5 && is_digit(s[0]) && is_digit(s[1]) && s[2] == ':' as u8 && is_digit(s[3])
        && is_digit(s[4]) {
        let h = (s[0] - '0' as u8) * 10 + (s[1] - '0' as u8);
        let m = (s[3] - '0' as u8) * 10 + (s[4] - '0' as u8);
        if h < 24 && m < 60 {
            Some((h * 60 + m) as u16)
        } else {
            None
        }
    } else {
        None
    }
}

/// Parse a strict `HH:MM` wall-clock time into minutes past midnight.
pub fn parse_hhmm(s: &[u8]) -> (r: Option<u16>)
    ensures
        r == spec_parse_hhmm(s@),
{
    if s.len() != 5 {
        return None;
    }
    let b0 = s[0];
    let b1 = s[1];
    let b2 = s[2];
    let b3 = s[3];
    let b4 = s[4];
    if b0 < '0' as u8 || b0 > '9' as u8 || b1 < '0' as u8 || b1 > '9' as u8 || b2 != ':' as u8
        || b3 < '0' as u8 || b3 > '9' as u8 || b4 < '0' as u8 || b4 > '9' as u8 {
        return None;
    }
    let h: u16 = (b0 - '0' as u8) as u16 * 10 + (b1 - '0' as u8) as u16;
    let m: u16 = (b3 - '0' as u8) as u16 * 10 + (b4 - '0' as u8) as u16;
    if h < 24 && m < 60 {
        Some(h * 60 + m)
    } else {
        None
    }
}

/// The running bests of a left-to-right scan over parsed keys: the latest
/// entry at or before the current time, and the latest entry overall. A
/// tie on time keeps the later entry, as a map keyed by time would.
pub open spec fn spec_scan_times(keys: Seq<Option<u16>>, now: u16) -> (
    Option<(u16, int)>,
    Option<(u16, int)>,
)
    decreases keys.len(),
{
    if keys.len() == 0 {
        (None, None)
    } else {
        let (ble, bany) = spec_scan_times(keys.drop_last(), now);
        let i = keys.len() - 1;
        match keys[i] {
            None => (ble, bany),
            Some(t) => {
                let nany = match bany {
                    None => Some((t, i)),
                    Some((bt, bi)) => if t >= bt {
                        Some((t, i))
                    } else {
                        Some((bt, bi))
                    },
                };
                let nle = if t <= now {
                    match ble {
                        None => Some((t, i)),
                        Some((bt, bi)) => if t >= bt {
                            Some((t, i))
                        } else {
                            Some((bt, bi))
                        },
                    }
                } else {
                    ble
                };
                (nle, nany)
            },
        }
    }
}

/// Which entry of a timed program runs: the latest entry whose time is at
/// or before the current time; wrapping past midnight, the latest entry
/// overall; none when no entry parses.
pub open spec fn spec_pick_timed(keys: Seq<Option<u16>>, now: u16) -> Option<int> {
    let (ble, bany) = spec_scan_times(keys, now);
    match ble {
        Some((t, i)) => Some(i),
        None => match bany {
            Some((t, i)) => Some(i),
            None => None,
        },
    }
}

/// Pick the entry of a timed program to run, given its keys in table
/// order and the current local time in minutes past midnight.
pub fn pick_timed_program(keys: &Vec<Vec<u8>>, now_minutes: u16) -> (r: Option<usize>)
    ensures
        ({
            let parsed = keys@.map_values(|k: Vec<u8>| spec_parse_hhmm(k@));
            match r {
                Some(i) => spec_pick_timed(parsed, now_minutes) == Some(i as int),
                None => spec_pick_timed(parsed, now_minutes) is None,
            }
        }),
{
    let ghost parsed = keys@.map_values(|k: Vec<u8>| spec_parse_hhmm(k@));
    let n = keys.len();
    let mut i: usize = 0;
    let mut ble: Option<(u16, usize)> = None;
    let mut bany: Option<(u16, usize)> = None;
    proof {
        assert(parsed.subrange(0, 0) =~= Seq::<Option<u16>>::empty());
    }
    while i < n
        invariant
            n == keys@.len(),
            parsed == keys@.map_values(|k: Vec<u8>| spec_parse_hhmm(k@)),
            0 <= i <= n,
            ({
                let (sle, sany) = spec_scan_times(parsed.subrange(0, i as int), now_minutes);
                &&& match ble {
                    Some((t, bi)) => sle == Some((t, bi as int)),
                    None => sle is None,
                }
                &&& match bany {
                    Some((t, bi)) => sany == Some((t, bi as int)),
                    None => sany is None,
                }
            }),
        decreases n - i,
    {
        let parsed_i = parse_hhmm(keys[i].as_slice());
        proof {
            assert(parsed.subrange(0, i + 1 as int).drop_last() =~= parsed.subrange(0, i as int));
            assert(parsed.subrange(0, i + 1 as int).last() == parsed[i as int]);
            assert(parsed[i as int] == spec_parse_hhmm(keys@[i as int]@));
        }
        match parsed_i {
            None => {},
            Some(t) => {
                bany = match bany {
                    None => Some((t, i)),
                    Some((bt, bi)) => if t >= bt {
                        Some((t, i))
                    } else {
                        Some((bt, bi))
                    },
                };
                if t <= now_minutes {
                    ble = match ble {
                        None => Some((t, i)),
                        Some((bt, bi)) => if t >= bt {
                            Some((t, i))
                        } else {
                            Some((bt, bi))
                        },
                    };
                }
            },
        }
        i = i + 1;
    }
    proof {
        assert(parsed.subrange(0, n as int) =~= parsed);
    }
    match ble {
        Some((_, i)) => Some(i),
        None => match bany {
            Some((_, i)) => Some(i),
            None => None,
        },
    }
}

/// The diagnostic for a timed-program key that is not `HH:MM`.
pub open spec fn spec_issue_bad_time(line: int, key: Seq<u8>) -> Seq<u8> {
    "[src:".spec_bytes() + dec_rep_int(line)
        + "] Timed program keys must be in 'HH:MM' format. Found ".spec_bytes() + key
}

/// The diagnostic for a timed-program table that is not time-to-function.
pub open spec fn spec_issue_bad_table(line: int) -> Seq<u8> {
    "[src:".spec_bytes()
        + dec_rep_int(line)
        + "] Timed program must be passed a table mapping time strings to functions".spec_bytes()
}

/// The diagnostic for an empty timed-program table.
pub open spec fn spec_issue_empty_table(line: int) -> Seq<u8> {
    "[src:".spec_bytes() + dec_rep_int(line) + "] Empty program table".spec_bytes()
}

/// Write the bad-key diagnostic.
pub fn issue_bad_time(line: i64, key: &[u8]) -> (r: Vec<u8>)
    ensures
        r@ == spec_issue_bad_time(line as int, key@),
{
    let mut out = "[src:".as_bytes_vec();
    push_dec_i64(line, &mut out);
    let mut mid = "] Timed program keys must be in 'HH:MM' format. Found ".as_bytes_vec();
    out.append(&mut mid);
    let mut k = vstd::slice::slice_to_vec(key);
    out.append(&mut k);
    proof {
        assert(out@ =~= spec_issue_bad_time(line as int, key@));
    }
    out
}

/// Write the bad-table diagnostic.
pub fn issue_bad_table(line: i64) -> (r: Vec<u8>)
    ensures
        r@ == spec_issue_bad_table(line as int),
{
    let mut out = "[src:".as_bytes_vec();
    push_dec_i64(line, &mut out);
    let mut mid =
        "] Timed program must be passed a table mapping time strings to functions".as_bytes_vec();
    out.append(&mut mid);
    proof {
        assert(out@ =~= spec_issue_bad_table(line as int));
    }
    out
}

/// Write the empty-table diagnostic.
pub fn issue_empty_table(line: i64) -> (r: Vec<u8>)
    ensures
        r@ == spec_issue_empty_table(line as int),
{
    let mut out = "[src:".as_bytes_vec();
    push_dec_i64(line, &mut out);
    let mut mid = "] Empty program table".as_bytes_vec();
    out.append(&mut mid);
    proof {
        assert(out@ =~= spec_issue_empty_table(line as int));
    }
    out
}

/// Whether a sequence of byte strings holds one equal to `x`.
pub open spec fn spec_has_issue(items: Seq<Seq<u8>>, x: Seq<u8>) -> bool {
    exists|i: int| 0 <= i < items.len() && items[i] == x
}

/// A sequence of byte strings in strictly increasing lexicographic order.
pub open spec fn issues_sorted(items: Seq<Seq<u8>>) -> bool {
    forall|i: int, j: int| 0 <= i < j < items.len() ==> bytes_lt(#[trigger] items[i], #[trigger] items[j])
}

/// The sequence after recording one more issue: unchanged when the issue
/// is already held, otherwise the issue stands at its lexicographic place.
pub open spec fn spec_record_issue(items: Seq<Seq<u8>>, x: Seq<u8>) -> Seq<Seq<u8>>
    decreases items.len(),
{
    if items.len() == 0 {
        seq![x]
    } else if items[0] == x {
        items
    } else if bytes_lt(x, items[0]) {
        seq![x] + items
    } else {
        seq![items[0]] + spec_record_issue(items.drop_first(), x)
    }
}

/// Where the scan stops is where the issue goes: past every entry below
/// `x`, the result keeps the sequence when `x` is already there and
/// splices `x` in otherwise.
proof fn lemma_record_issue_at(items: Seq<Seq<u8>>, x: Seq<u8>, i: int)
    requires
        0 <= i <= items.len(),
        forall|j: int| 0 <= j < i ==> bytes_lt(#[trigger] items[j], x),
        i < items.len() ==> !bytes_lt(items[i], x),
    ensures
        spec_record_issue(items, x) == if i < items.len() && items[i] == x {
            items
        } else {
            items.subrange(0, i).push(x) + items.subrange(i, items.len() as int)
        },
    decreases i,
{
    if i == 0 {
        if items.len() == 0 {
            assert(spec_record_issue(items, x) =~= items.subrange(0, 0).push(x) + items.subrange(
                0,
                0,
            ));
        } else if items[0] == x {
        } else {
            crate::ascii::lemma_bytes_lt_trichotomy(x, items[0]);
            assert(bytes_lt(x, items[0]));
            assert(spec_record_issue(items, x) =~= items.subrange(0, 0).push(x) + items.subrange(
                0,
                items.len() as int,
            ));
        }
    } else {
        assert(bytes_lt(items[0], x));
        crate::ascii::lemma_bytes_lt_trichotomy(items[0], x);
        assert(items[0] != x);
        assert(!bytes_lt(x, items[0]));
        let t = items.drop_first();
        assert forall|j: int| 0 <= j < i - 1 implies bytes_lt(#[trigger] t[j], x) by {
            assert(t[j] == items[j + 1]);
        }
        assert(i - 1 < t.len() ==> !bytes_lt(t[i - 1], x)) by {
            if i - 1 < t.len() {
                assert(t[i - 1] == items[i]);
            }
        }
        lemma_record_issue_at(t, x, i - 1);
        if i < items.len() && items[i] == x {
            assert(t[i - 1] == items[i]);
            assert(spec_record_issue(items, x) =~= items);
        } else {
            assert(spec_record_issue(t, x) == t.subrange(0, i - 1).push(x) + t.subrange(
                i - 1,
                t.len() as int,
            ));
            assert(spec_record_issue(items, x) =~= items.subrange(0, i).push(x) + items.subrange(
                i,
                items.len() as int,
            )) by {
                assert forall|k: int|
                    0 <= k < i - 1 implies #[trigger] t.subrange(0, i - 1)[k] == items.subrange(
                    0,
                    i,
                )[k + 1] by {
                    assert(t.subrange(0, i - 1)[k] == items[k + 1]);
                }
            }
        }
    }
}

/// Every element of the recorded sequence is the new issue or an old one,
/// and the new issue is held.
proof fn lemma_record_issue_members(items: Seq<Seq<u8>>, x: Seq<u8>)
    ensures
        spec_has_issue(spec_record_issue(items, x), x),
        forall|k: int|
            0 <= k < spec_record_issue(items, x).len() ==> #[trigger] spec_record_issue(items, x)[k]
                == x || spec_has_issue(items, spec_record_issue(items, x)[k]),
        forall|y: Seq<u8>|
            spec_has_issue(items, y) ==> #[trigger] spec_has_issue(spec_record_issue(items, x), y),
        spec_record_issue(items, x).len() <= items.len() + 1,
    decreases items.len(),
{
    let r = spec_record_issue(items, x);
    if items.len() == 0 {
        assert(r[0] == x);
    } else if items[0] == x {
        assert(r[0] == x);
    } else if bytes_lt(x, items[0]) {
        assert(r[0] == x);
        assert forall|k: int| 0 <= k < r.len() implies #[trigger] r[k] == x || spec_has_issue(
            items,
            r[k],
        ) by {
            if k > 0 {
                assert(r[k] == items[k - 1]);
            }
        }
        assert forall|y: Seq<u8>| spec_has_issue(items, y) implies #[trigger] spec_has_issue(
            r,
            y,
        ) by {
            let w = choose|i: int| 0 <= i < items.len() && items[i] == y;
            assert(r[w + 1] == y);
        }
    } else {
        let t = items.drop_first();
        lemma_record_issue_members(t, x);
        let rt = spec_record_issue(t, x);
        assert(r =~= seq![items[0]] + rt);
        let wx = choose|i: int| 0 <= i < rt.len() && rt[i] == x;
        assert(r[wx + 1] == x);
        assert forall|k: int| 0 <= k < r.len() implies #[trigger] r[k] == x || spec_has_issue(
            items,
            r[k],
        ) by {
            if k == 0 {
                assert(r[0] == items[0]);
            } else {
                assert(r[k] == rt[k - 1]);
                if rt[k - 1] != x {
                    let w = choose|i: int| 0 <= i < t.len() && t[i] == rt[k - 1];
                    assert(items[w + 1] == rt[k - 1]);
                }
            }
        }
        assert forall|y: Seq<u8>| spec_has_issue(items, y) implies #[trigger] spec_has_issue(
            r,
            y,
        ) by {
            let w = choose|i: int| 0 <= i < items.len() && items[i] == y;
            if w == 0 {
                assert(r[0] == y);
            } else {
                assert(t[w - 1] == y);
                assert(spec_has_issue(rt, y));
                let v = choose|i: int| 0 <= i < rt.len() && rt[i] == y;
                assert(r[v + 1] == y);
            }
        }
    }
}

/// Recording keeps the issues sorted and without duplicates: the set grows
/// by the new issue and nothing else, in lexicographic order throughout.
pub proof fn law_issue_set_sorted(items: Seq<Seq<u8>>, x: Seq<u8>)
    requires
        issues_sorted(items),
    ensures
        issues_sorted(spec_record_issue(items, x)),
        spec_has_issue(spec_record_issue(items, x), x),
        forall|y: Seq<u8>|
            spec_has_issue(items, y) ==> #[trigger] spec_has_issue(spec_record_issue(items, x), y),
        forall|y: Seq<u8>|
            spec_has_issue(spec_record_issue(items, x), y) ==> y == x || spec_has_issue(items, y),
    decreases items.len(),
{
    lemma_record_issue_members(items, x);
    let r = spec_record_issue(items, x);
    if items.len() == 0 {
        assert(issues_sorted(r)) by {
            assert(r.len() == 1);
        }
    } else if items[0] == x {
    } else if bytes_lt(x, items[0]) {
        assert forall|i: int, j: int| 0 <= i < j < r.len() implies bytes_lt(
            #[trigger] r[i],
            #[trigger] r[j],
        ) by {
            if i == 0 {
                assert(r[0] == x);
                assert(r[j] == items[j - 1]);
                if j > 1 {
                    crate::ascii::lemma_bytes_lt_trans(x, items[0], items[j - 1]);
                }
            } else {
                assert(r[i] == items[i - 1]);
                assert(r[j] == items[j - 1]);
            }
        }
    } else {
        crate::ascii::lemma_bytes_lt_trichotomy(x, items[0]);
        assert(bytes_lt(items[0], x));
        let t = items.drop_first();
        assert(issues_sorted(t)) by {
            assert forall|i: int, j: int| 0 <= i < j < t.len() implies bytes_lt(
                #[trigger] t[i],
                #[trigger] t[j],
            ) by {
                assert(t[i] == items[i + 1]);
                assert(t[j] == items[j + 1]);
            }
        }
        law_issue_set_sorted(t, x);
        lemma_record_issue_members(t, x);
        let rt = spec_record_issue(t, x);
        assert(r =~= seq![items[0]] + rt);
        assert forall|i: int, j: int| 0 <= i < j < r.len() implies bytes_lt(
            #[trigger] r[i],
            #[trigger] r[j],
        ) by {
            if i == 0 {
                assert(r[0] == items[0]);
                assert(r[j] == rt[j - 1]);
                if rt[j - 1] == x {
                } else {
                    let w = choose|k: int| 0 <= k < t.len() && t[k] == rt[j - 1];
                    assert(t[w] == items[w + 1]);
                    assert(bytes_lt(items[0], items[w + 1]));
                }
            } else {
                assert(r[i] == rt[i - 1]);
                assert(r[j] == rt[j - 1]);
            }
        }
        assert forall|y: Seq<u8>| spec_has_issue(r, y) implies y == x || spec_has_issue(
            items,
            y,
        ) by {
            let w = choose|i: int| 0 <= i < r.len() && r[i] == y;
            if w == 0 {
                assert(items[0] == y);
            } else {
                assert(rt[w - 1] == y);
            }
        }
    }
}

/// The set of diagnostic strings the script helpers collect during a
/// validation run, held in lexicographic order without duplicates.
pub struct IssueSet {
    items: Vec<Vec<u8>>,
}

impl IssueSet {
    /// The recorded issues, in lexicographic order.
    pub closed spec fn view(&self) -> Seq<Seq<u8>> {
        self.items@.map_values(|v: Vec<u8>| v@)
    }

    /// An empty set.
    pub fn new() -> (r: IssueSet)
        ensures
            r@ =~= Seq::<Seq<u8>>::empty(),
    {
        IssueSet { items: Vec::new() }
    }

    /// Drop every recorded issue.
    pub fn clear(&mut self)
        ensures
            final(self)@ =~= Seq::<Seq<u8>>::empty(),
    {
        self.items.clear();
    }

    /// Whether an issue is already recorded.
    pub fn contains(&self, x: &[u8]) -> (r: bool)
        ensures
            r == spec_has_issue(self@, x@),
    {
        let n = self.items.len();
        let mut i: usize = 0;
        while i < n
            invariant
                n == self.items@.len(),
                0 <= i <= n,
                forall|j: int| 0 <= j < i ==> self@[j] != x@,
            decreases n - i,
    {
            if crate::ascii::bytes_eq(self.items[i].as_slice(), x) {
                assert(self@[i as int] == x@);
                return true;
            }
            i = i + 1;
        }
        false
    }

    /// Record an issue at its lexicographic place, keeping the set free of
    /// duplicates.
    pub fn add(&mut self, x: Vec<u8>)
        ensures
            final(self)@ == spec_record_issue(old(self)@, x@),
    {
        let n = self.items.len();
        let mut i: usize = 0;
        while i < n && crate::ascii::bytes_lt_exec(self.items[i].as_slice(), x.as_slice())
            invariant
                n == self.items@.len(),
                0 <= i <= n,
                forall|j: int| 0 <= j < i ==> bytes_lt(#[trigger] self@[j], x@),
            decreases n - i,
        {
            i = i + 1;
        }
        proof {
            lemma_record_issue_at(self@, x@, i as int);
        }
        if i < n && crate::ascii::bytes_eq(self.items[i].as_slice(), x.as_slice()) {
            proof {
                assert(self@[i as int] == x@);
            }
            return;
        }
        proof {
            if i < n {
                assert(self@[i as int] != x@);
            }
        }
        self.items.insert(i, x);
        proof {
            assert(self@ =~= old(self)@.subrange(0, i as int).push(x@) + old(self)@.subrange(
                i as int,
                n as int,
            ));
        }
    }

    /// How many issues are recorded.
    pub fn len(&self) -> (r: usize)
        ensures
            r == self@.len(),
    {
        self.items.len()
    }

    /// The issue at an index.
    pub fn issue_at(&self, i: usize) -> (r: &Vec<u8>)
        requires
            i < self@.len(),
        ensures
            r@ == self@[i as int],
    {
        &self.items[i]
    }
}

} // verus!
