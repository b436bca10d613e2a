//! Temperatures as fixed-point numbers in thousandths of a degree.
//!
//! Readings and setpoints travel in plain decimal ASCII (`20.5`, `-3.25`,
//! `20.0625`). The library holds them in thousandths of a degree, so
//! comparisons and equalities are exact integer operations; fraction digits
//! beyond the third are read and dropped. Exponent forms are outside this
//! model and read as unreadable.

use vstd::prelude::*;

use crate::ascii::{
    all_digits, dec_rep, dec_val, is_digit, lemma_dec_rep_digits, lemma_dec_val_bound,
    lemma_dec_val_of_rep, lemma_pow10_increases, lemma_pow10_values, parse_dec_u64, pow10,
    push_dec_u64,
};

verus! {

/// A temperature in thousandths of a degree.
#[derive(Copy, Clone, PartialEq, Eq, Structural, Debug)]
pub struct Temp {
    pub milli: i64,
}

/// The index of the first `.` in `s`, or the length when there is none.
pub open spec fn first_dot(s: Seq<u8>) -> int
    decreases s.len(),
{
    if s.len() == 0 {
        0
    } else if s[0] == '.' as u8 {
        0
    } else {
        1 + first_dot(s.subrange(1, s.len() as int))
    }
}

/// `first_dot` points at the first dot, and no dot stands before it.
pub proof fn lemma_first_dot(s: Seq<u8>)
    ensures
        0 <= first_dot(s) <= s.len(),
        forall|j: int| 0 <= j < first_dot(s) ==> s[j] != '.' as u8,
        first_dot(s) < s.len() ==> s[first_dot(s)] == '.' as u8,
    decreases s.len(),
{
    if s.len() > 0 && s[0] != '.' as u8 {
        let t = s.subrange(1, s.len() as int);
        lemma_first_dot(t);
        assert forall|j: int| 0 <= j < first_dot(s) implies s[j] != '.' as u8 by {
            if j > 0 {
                assert(s[j] == t[j - 1]);
            }
        }
    }
}

/// Any position with the first-dot property is `first_dot`.
pub proof fn lemma_first_dot_unique(s: Seq<u8>, k: int)
    requires
        0 <= k <= s.len(),
        forall|j: int| 0 <= j < k ==> s[j] != '.' as u8,
        k < s.len() ==> s[k] == '.' as u8,
    ensures
        k == first_dot(s),
{
    lemma_first_dot(s);
    if k < first_dot(s) {
        assert(s[k] == '.' as u8);
        assert(false);
    }
    if first_dot(s) < k {
        assert(s[first_dot(s)] != '.' as u8);
        assert(false);
    }
}

/// The value in thousandths of a fractional part: its leading digits up
/// to the third count, further digits are dropped.
pub open spec fn frac_milli(fp: Seq<u8>) -> int {
    if fp.len() == 0 {
        0
    } else if fp.len() == 1 {
        dec_val(fp) * 100 as int
    } else if fp.len() == 2 {
        dec_val(fp) * 10 as int
    } else {
        dec_val(fp.subrange(0, 3)) as int
    }
}

/// The thousandths an unsigned decimal string denotes.
///
/// The accepted forms are `digits`, `digits.digits`, `.digits` and
/// `digits.`, with at most thirteen integer digits, any number of fraction
/// digits, and at least one digit in all.
pub open spec fn spec_parse_unsigned_milli(s: Seq<u8>) -> Option<int> {
    let d = first_dot(s);
    if d == s.len() {
        if 1 <= s.len() <= 13 && all_digits(s) {
            Some(dec_val(s) * 1000 as int)
        } else {
            None
        }
    } else {
        let ip = s.subrange(0, d);
        let fp = s.subrange(d + 1, s.len() as int);
        if ip.len() <= 13 && all_digits(ip) && all_digits(fp) && ip.len() + fp.len() >= 1 {
            Some(dec_val(ip) * 1000 as int + frac_milli(fp))
        } else {
            None
        }
    }
}

/// The thousandths a signed decimal string denotes.
pub open spec fn spec_parse_milli(s: Seq<u8>) -> Option<int> {
    if s.len() >= 1 && s[0] == '-' as u8 {
        match spec_parse_unsigned_milli(s.subrange(1, s.len() as int)) {
            Some(v) => Some(-v),
            None => None,
        }
    } else {
        spec_parse_unsigned_milli(s)
    }
}

/// The temperature a decimal string denotes, if any.
pub open spec fn spec_parse_temp(s: Seq<u8>) -> Option<Temp> {
    match spec_parse_milli(s) {
        Some(v) => Some(Temp { milli: v as i64 }),
        None => None,
    }
}

/// A temperature small enough to render and reparse exactly.
pub open spec fn temp_in_range(t: Temp) -> bool {
    -10000000000000000 < t.milli < 10000000000000000
}

/// Every parsed temperature lies in the renderable range.
pub proof fn lemma_parse_temp_in_range(s: Seq<u8>)
    ensures
        match spec_parse_temp(s) {
            Some(t) => temp_in_range(t),
            None => true,
        },
{
    if s.len() >= 1 && s[0] == '-' as u8 {
        lemma_parse_unsigned_bound(s.subrange(1, s.len() as int));
    } else {
        lemma_parse_unsigned_bound(s);
    }
}

/// A parsed unsigned value stays under ten to the sixteenth.
pub proof fn lemma_parse_unsigned_bound(s: Seq<u8>)
    ensures
        match spec_parse_unsigned_milli(s) {
            Some(v) => 0 <= v < 10000000000000000,
            None => true,
        },
{
    let d = first_dot(s);
    lemma_first_dot(s);
    if d == s.len() {
        if 1 <= s.len() <= 13 && all_digits(s) {
            lemma_dec_val_bound(s);
            lemma_pow10_increases(s.len(), 13);
            lemma_pow10_values();
        }
    } else {
        let ip = s.subrange(0, d);
        let fp = s.subrange(d + 1, s.len() as int);
        if ip.len() <= 13 && all_digits(ip) && all_digits(fp) && ip.len() + fp.len() >= 1 {
            lemma_dec_val_bound(ip);
            lemma_pow10_increases(ip.len(), 13);
            lemma_pow10_values();
            lemma_frac_milli_bound(fp);
        }
    }
}

/// A fractional part contributes less than one whole degree.
pub proof fn lemma_frac_milli_bound(fp: Seq<u8>)
    requires
        all_digits(fp),
    ensures
        0 <= frac_milli(fp) < 1000,
{
    lemma_pow10_values();
    if fp.len() == 0 {
    } else if fp.len() == 1 {
        lemma_dec_val_bound(fp);
        lemma_pow10_increases(fp.len(), 1);
    } else if fp.len() == 2 {
        lemma_dec_val_bound(fp);
        lemma_pow10_increases(fp.len(), 2);
    } else {
        let lead = fp.subrange(0, 3);
        assert(all_digits(lead)) by {
            assert forall|j: int| 0 <= j < lead.len() implies is_digit(#[trigger] lead[j]) by {
                assert(lead[j] == fp[j]);
            }
        }
        lemma_dec_val_bound(lead);
        lemma_pow10_increases(lead.len(), 3);
    }
}

/// Parse a plain decimal string into a temperature.
pub fn parse_temp(s: &[u8]) -> (r: Option<Temp>)
    ensures
        r == spec_parse_temp(s@),
{
    if s.len() >= 1 && s[0] == '-' as u8 {
        let rest = &s[1..s.len()];
        proof {
            lemma_parse_unsigned_bound(rest@);
        }
        match parse_unsigned_milli(rest) {
            Some(v) => Some(Temp { milli: -(v as i64) }),
            None => None,
        }
    } else {
        proof {
            lemma_parse_unsigned_bound(s@);
        }
        match parse_unsigned_milli(s) {
            Some(v) => Some(Temp { milli: v as i64 }),
            None => None,
        }
    }
}

/// Parse an unsigned decimal string into thousandths.
#[verifier::loop_isolation(false)]
fn parse_unsigned_milli(s: &[u8]) -> (r: Option<u64>)
    ensures
        match r {
            Some(v) => spec_parse_unsigned_milli(s@) == Some(v as int),
            None => spec_parse_unsigned_milli(s@) is None,
        },
{
    let n = s.len();
    let mut i: usize = 0;
    while i < n && s[i] != '.' as u8
        invariant
            n == s@.len(),
            0 <= i <= n,
            forall|j: int| 0 <= j < i ==> s@[j] != '.' as u8,
        decreases n - i,
    {
        i = i + 1;
    }
    proof {
        lemma_first_dot_unique(s@, i as int);
    }
    if i == n {
        // No dot: a plain integer.
        if n < 1 || n > 13 {
            return None;
        }
        let ip = parse_dec_u64(s);
        match ip {
            Some(v) => {
                proof {
                    lemma_dec_val_bound(s@);
                    lemma_pow10_increases(s@.len(), 13);
                    lemma_pow10_values();
                }
                Some(v * 1000)
            },
            None => None,
        }
    } else {
        let ips = &s[0..i];
        let fps = &s[i + 1..n];
        if i > 13 || n - i - 1 + i < 1 {
            return None;
        }
        let ip: u64 = if i == 0 {
            0
        } else {
            match parse_dec_u64(ips) {
                Some(v) => v,
                None => {
                    return None;
                },
            }
        };
        proof {
            if i == 0 {
                assert(ips@ =~= Seq::<u8>::empty());
                assert(all_digits(ips@));
            }
        }
        // Every fraction byte must be a digit, however many there are.
        let m = fps.len();
        let mut k: usize = 0;
        while k < m
            invariant
                m == fps@.len(),
                0 <= k <= m,
                forall|j: int| 0 <= j < k ==> is_digit(#[trigger] fps@[j]),
            decreases m - k,
        {
            let b = fps[k];
            if b < '0' as u8 || b > '9' as u8 {
                proof {
                    assert(!is_digit(fps@[k as int]));
                }
                return None;
            }
            k = k + 1;
        }
        // Only the leading three fraction digits carry value.
        let frac: u64 = if m == 0 {
            0
        } else if m == 1 {
            proof {
                lemma_dec_val_bound(fps@);
                lemma_pow10_values();
            }
            match parse_dec_u64(fps) {
                Some(v) => v * 100,
                None => {
                    proof {
                        assert(false);
                    }
                    0
                },
            }
        } else if m == 2 {
            proof {
                lemma_dec_val_bound(fps@);
                lemma_pow10_values();
            }
            match parse_dec_u64(fps) {
                Some(v) => v * 10,
                None => {
                    proof {
                        assert(false);
                    }
                    0
                },
            }
        } else {
            let lead = &fps[0..3];
            proof {
                assert(all_digits(lead@)) by {
                    assert forall|j: int| 0 <= j < lead@.len() implies is_digit(
                        #[trigger] lead@[j],
                    ) by {
                        assert(lead@[j] == fps@[j]);
                    }
                }
            }
            match parse_dec_u64(lead) {
                Some(v) => v,
                None => {
                    proof {
                        assert(false);
                    }
                    0
                },
            }
        };
        proof {
            lemma_dec_val_bound(ips@);
            lemma_pow10_increases(ips@.len(), 13);
            lemma_pow10_values();
            lemma_frac_milli_bound(fps@);
            assert(frac == frac_milli(fps@));
        }
        Some(ip * 1000 + frac)
    }
}

/// The canonical decimal text of a value in thousandths: the sign, the
/// integer digits, then the fraction with trailing zeros trimmed.
pub open spec fn spec_render_milli(m: int) -> Seq<u8> {
    let a = if m < 0 {
        -m
    } else {
        m
    };
    let sign: Seq<u8> = if m < 0 {
        seq!['-' as u8]
    } else {
        Seq::empty()
    };
    sign + dec_rep((a / 1000) as nat) + spec_render_frac((a % 1000) as nat)
}

/// The fraction text of a thousandths remainder, empty when zero.
pub open spec fn spec_render_frac(f: nat) -> Seq<u8> {
    let d1 = (f / 100 + '0' as u8) as u8;
    let d2 = (f / 10 % 10 + '0' as u8) as u8;
    let d3 = (f % 10 + '0' as u8) as u8;
    if f == 0 {
        Seq::empty()
    } else if f % 100 == 0 {
        seq!['.' as u8, d1]
    } else if f % 10 == 0 {
        seq!['.' as u8, d1, d2]
    } else {
        seq!['.' as u8, d1, d2, d3]
    }
}

/// The canonical text of a temperature.
pub open spec fn spec_render_temp(t: Temp) -> Seq<u8> {
    spec_render_milli(t.milli as int)
}

/// A number below ten to the `k` has at most `k` digits.
pub proof fn lemma_dec_rep_len(n: nat, k: nat)
    requires
        k >= 1,
        n < pow10(k),
    ensures
        dec_rep(n).len() <= k,
    decreases k,
{
    if n >= 10 {
        assert(pow10(k) == 10 * pow10((k - 1) as nat));
        assert(n / 10 < pow10((k - 1) as nat)) by (nonlinear_arith)
            requires
                n < 10 * pow10((k - 1) as nat),
        ;
        lemma_dec_rep_len(n / 10, (k - 1) as nat);
    }
}

/// Every byte of a rendered temperature is a digit, a minus or a dot, and
/// the first one is never a quote.
pub proof fn lemma_render_milli_bytes(m: int)
    ensures
        forall|j: int|
            0 <= j < spec_render_milli(m).len() ==> crate::json::is_num_byte(
                #[trigger] spec_render_milli(m)[j],
            ),
        spec_render_milli(m).len() >= 1,
        spec_render_milli(m)[0] != '"' as u8,
{
    let a = if m < 0 {
        -m
    } else {
        m
    };
    let ip = (a / 1000) as nat;
    let f = (a % 1000) as nat;
    lemma_dec_rep_digits(ip);
    let s = spec_render_milli(m);
    let sign: Seq<u8> = if m < 0 {
        seq!['-' as u8]
    } else {
        Seq::empty()
    };
    assert(s == sign + dec_rep(ip) + spec_render_frac(f));
    assert forall|j: int| 0 <= j < s.len() implies crate::json::is_num_byte(#[trigger] s[j]) by {
        if j < sign.len() {
            assert(s[j] == '-' as u8);
        } else if j < sign.len() + dec_rep(ip).len() {
            assert(s[j] == dec_rep(ip)[j - sign.len()]);
            assert(is_digit(dec_rep(ip)[j - sign.len()]));
        } else {
            let k = j - sign.len() - dec_rep(ip).len();
            assert(s[j] == spec_render_frac(f)[k]);
        }
    }
}

/// Reading back the canonical text of an in-range value gives the value.
#[verifier::rlimit(100)]
pub proof fn lemma_parse_of_render(m: int)
    requires
        -10000000000000000 < m < 10000000000000000,
    ensures
        spec_parse_milli(spec_render_milli(m)) == Some(m),
{
    let a = if m < 0 {
        -m
    } else {
        m
    };
    let ip = (a / 1000) as nat;
    let f = (a % 1000) as nat;
    lemma_dec_rep_digits(ip);
    lemma_dec_val_of_rep(ip);
    lemma_pow10_values();
    lemma_dec_rep_len(ip, 13);
    let u = dec_rep(ip) + spec_render_frac(f);
    lemma_parse_unsigned_of_render(a);
    if m < 0 {
        let s = spec_render_milli(m);
        assert(s == seq!['-' as u8] + u);
        assert(s[0] == '-' as u8);
        assert(s.subrange(1, s.len() as int) =~= u);
    } else {
        assert(spec_render_milli(m) == u);
        assert(u.len() >= 1);
        assert(u[0] == dec_rep(ip)[0]);
        assert(is_digit(u[0]));
        assert(u[0] != '-' as u8);
    }
}

/// Reading back the canonical unsigned text of an in-range value gives it.
#[verifier::rlimit(100)]
proof fn lemma_parse_unsigned_of_render(a: int)
    requires
        0 <= a < 10000000000000000,
    ensures
        spec_parse_unsigned_milli(dec_rep((a / 1000) as nat) + spec_render_frac((a % 1000) as nat))
            == Some(a),
{
    let ip = (a / 1000) as nat;
    let f = (a % 1000) as nat;
    lemma_dec_rep_digits(ip);
    lemma_dec_val_of_rep(ip);
    lemma_pow10_values();
    assert(ip < pow10(13));
    lemma_dec_rep_len(ip, 13);
    let d = dec_rep(ip);
    let u = d + spec_render_frac(f);
    assert(a == 1000 * (a / 1000) + a % 1000);
    if f == 0 {
        assert(u =~= d);
        assert(all_digits(u));
        assert forall|j: int| 0 <= j < u.len() implies u[j] != '.' as u8 by {
            assert(is_digit(u[j]));
        }
        lemma_first_dot_unique(u, u.len() as int);
        assert(spec_parse_unsigned_milli(u) == Some(dec_val(u) * 1000 as int));
    } else {
        let fr = spec_render_frac(f);
        let dl = d.len() as int;
        assert(u[dl] == '.' as u8);
        assert forall|j: int| 0 <= j < dl implies u[j] != '.' as u8 by {
            assert(u[j] == d[j]);
            assert(is_digit(d[j]));
        }
        lemma_first_dot_unique(u, dl);
        assert(u.subrange(0, dl) =~= d);
        let fp = u.subrange(dl + 1, u.len() as int);
        assert(fp =~= fr.subrange(1, fr.len() as int));
        let d1 = (f / 100 + '0' as u8) as u8;
        let d2 = (f / 10 % 10 + '0' as u8) as u8;
        let d3 = (f % 10 + '0' as u8) as u8;
        assert(f == 100 * (f / 100) + 10 * (f / 10 % 10) + f % 10) by (nonlinear_arith);
        if f % 100 == 0 {
            assert(fp =~= seq![d1]);
            crate::ascii::lemma_dec_val1(d1);
            assert(dec_val(fp) == f / 100);
            assert(frac_milli(fp) == f);
        } else if f % 10 == 0 {
            assert(fp =~= seq![d1, d2]);
            crate::ascii::lemma_dec_val2(d1, d2);
            assert(dec_val(fp) == (f / 100) * 10 + f / 10 % 10);
            assert(frac_milli(fp) == ((f / 100) * 10 + f / 10 % 10) * 10);
            assert(((f / 100) * 10 + f / 10 % 10) * 10 == f) by (nonlinear_arith)
                requires
                    0 <= f < 1000 && f % 10 == 0,
            ;
        } else {
            assert(fp =~= seq![d1, d2, d3]);
            crate::ascii::lemma_dec_val3(d1, d2, d3);
            assert(dec_val(fp) == ((f / 100) * 10 + f / 10 % 10) * 10 + f % 10);
            assert(((f / 100) * 10 + f / 10 % 10) * 10 + f % 10 == f) by (nonlinear_arith)
                requires
                    0 <= f < 1000,
            ;
            assert(fp.subrange(0, 3) =~= fp);
            assert(frac_milli(fp) == f);
        }
        assert(all_digits(fp));
        assert(1 <= d.len() <= 13);
        assert(spec_parse_unsigned_milli(u) == Some(dec_val(d) * 1000 as int + frac_milli(fp)));
    }
}

/// Render a temperature as canonical decimal text.
pub fn render_temp(t: Temp) -> (r: Vec<u8>)
    ensures
        r@ == spec_render_temp(t),
{
    let mut out: Vec<u8> = Vec::new();
    push_render_temp(t, &mut out);
    out
}

/// Append the canonical decimal text of a temperature to `out`.
pub fn push_render_temp(t: Temp, out: &mut Vec<u8>)
    ensures
        final(out)@ == old(out)@ + spec_render_temp(t),
{
    let m = t.milli;
    let a: u64 = if m < 0 {
        out.push('-' as u8);
        (-(m + 1)) as u64 + 1
    } else {
        m as u64
    };
    assert(a == if m < 0 {
        -(m as int)
    } else {
        m as int
    });
    push_dec_u64(a / 1000, out);
    let f = a % 1000;
    if f != 0 {
        out.push('.' as u8);
        out.push((f / 100) as u8 + '0' as u8);
        if f % 100 != 0 {
            if f % 10 == 0 {
                out.push((f / 10 % 10) as u8 + '0' as u8);
            } else {
                out.push((f / 10 % 10) as u8 + '0' as u8);
                out.push((f % 10) as u8 + '0' as u8);
            }
        }
    }
    proof {
        assert(out@ =~= old(out)@ + spec_render_temp(t));
    }
}

} // verus!
