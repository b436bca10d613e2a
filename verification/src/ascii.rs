//! ASCII byte-string helpers: equality, decimal digits, rendering and parsing.

use vstd::prelude::*;

verus! {

/// Whether a byte is an ASCII decimal digit.
pub open spec fn is_digit(b: u8) -> bool {
    '0' as u8 <= b <= '9' as u8
}

/// Whether every byte of a sequence is an ASCII decimal digit.
pub open spec fn all_digits(s: Seq<u8>) -> bool {
    forall|i: int| 0 <= i < s.len() ==> is_digit(#[trigger] s[i])
}

/// The numeric value of a digit sequence, read in base ten.
pub open spec fn dec_val(s: Seq<u8>) -> nat
    decreases s.len(),
{
    if s.len() == 0 {
        0
    } else {
        dec_val(s.drop_last()) * 10 + (s.last() - ('0' as u8)) as nat
    }
}

/// The base-ten digit string of a natural number, without leading zeros.
pub open spec fn dec_rep(n: nat) -> Seq<u8>
    decreases n,
{
    if n < 10 {
        seq![(n + '0' as u8) as u8]
    } else {
        dec_rep(n / 10) + seq![(n % 10 + '0' as u8) as u8]
    }
}

/// The base-ten digit string of an integer: a minus sign when negative.
pub open spec fn dec_rep_int(n: int) -> Seq<u8> {
    if n < 0 {
        seq!['-' as u8] + dec_rep((-n) as nat)
    } else {
        dec_rep(n as nat)
    }
}

/// A digit string holds digits only.
pub proof fn lemma_dec_rep_digits(n: nat)
    ensures
        all_digits(dec_rep(n)),
        dec_rep(n).len() >= 1,
    decreases n,
{
    if n >= 10 {
        lemma_dec_rep_digits(n / 10);
    }
}

/// Reading back the digit string of a number gives the number.
pub proof fn lemma_dec_val_of_rep(n: nat)
    ensures
        dec_val(dec_rep(n)) == n,
    decreases n,
{
    if n < 10 {
        let d = (n + '0' as u8) as u8;
        assert(dec_rep(n) == seq![d]);
        assert(dec_rep(n).last() == d);
        assert(dec_rep(n).drop_last() =~= Seq::<u8>::empty());
        assert(dec_val(Seq::<u8>::empty()) == 0);
        assert(dec_val(dec_rep(n)) == dec_val(dec_rep(n).drop_last()) * 10 + (d - '0' as u8) as nat);
        assert((d - '0' as u8) as nat == n);
    } else {
        lemma_dec_val_of_rep(n / 10);
        let d = (n % 10 + '0' as u8) as u8;
        assert(dec_rep(n) == dec_rep(n / 10) + seq![d]);
        assert(dec_rep(n).last() == d);
        assert(dec_rep(n).drop_last() =~= dec_rep(n / 10));
        assert(dec_val(dec_rep(n)) == dec_val(dec_rep(n).drop_last()) * 10 + (d - '0' as u8) as nat);
        assert(dec_val(dec_rep(n).drop_last()) == n / 10);
        assert((d - '0' as u8) as nat == n % 10);
        assert(n == (n / 10) * 10 + n % 10) by (nonlinear_arith);
        assert(dec_val(dec_rep(n)) == n);
    }
}

/// The index of the first occurrence of `b` in `s`, or the length when
/// there is none.
pub open spec fn find_byte(s: Seq<u8>, b: u8) -> int
    decreases s.len(),
{
    if s.len() == 0 {
        0
    } else if s[0] == b {
        0
    } else {
        1 + find_byte(s.subrange(1, s.len() as int), b)
    }
}

/// `find_byte` points at the first occurrence, and none stands before it.
pub proof fn lemma_find_byte(s: Seq<u8>, b: u8)
    ensures
        0 <= find_byte(s, b) <= s.len(),
        forall|j: int| 0 <= j < find_byte(s, b) ==> s[j] != b,
        find_byte(s, b) < s.len() ==> s[find_byte(s, b)] == b,
    decreases s.len(),
{
    if s.len() > 0 && s[0] != b {
        let t = s.subrange(1, s.len() as int);
        lemma_find_byte(t, b);
        assert forall|j: int| 0 <= j < find_byte(s, b) implies s[j] != b by {
            if j > 0 {
                assert(s[j] == t[j - 1]);
            }
        }
    }
}

/// Any position with the first-occurrence property is `find_byte`.
pub proof fn lemma_find_byte_unique(s: Seq<u8>, b: u8, k: int)
    requires
        0 <= k <= s.len(),
        forall|j: int| 0 <= j < k ==> s[j] != b,
        k < s.len() ==> s[k] == b,
    ensures
        k == find_byte(s, b),
{
    lemma_find_byte(s, b);
    if k < find_byte(s, b) {
        assert(s[k] == b);
        assert(false);
    }
    if find_byte(s, b) < k {
        assert(s[find_byte(s, b)] != b);
        assert(false);
    }
}

/// The value of a single digit.
pub proof fn lemma_dec_val1(d1: u8)
    ensures
        dec_val(seq![d1]) == (d1 - '0' as u8) as nat,
{
    let s = seq![d1];
    assert(s.last() == d1);
    assert(s.drop_last() =~= Seq::<u8>::empty());
    assert(dec_val(Seq::<u8>::empty()) == 0);
    assert(dec_val(s) == dec_val(s.drop_last()) * 10 + (d1 - '0' as u8) as nat);
}

/// The value of two digits.
pub proof fn lemma_dec_val2(d1: u8, d2: u8)
    ensures
        dec_val(seq![d1, d2]) == (d1 - '0' as u8) as nat * 10 + (d2 - '0' as u8) as nat,
{
    let s = seq![d1, d2];
    assert(s.last() == d2);
    assert(s.drop_last() =~= seq![d1]);
    lemma_dec_val1(d1);
    assert(dec_val(s) == dec_val(s.drop_last()) * 10 + (d2 - '0' as u8) as nat);
}

/// The value of three digits.
pub proof fn lemma_dec_val3(d1: u8, d2: u8, d3: u8)
    ensures
        dec_val(seq![d1, d2, d3]) == ((d1 - '0' as u8) as nat * 10 + (d2 - '0' as u8) as nat) * 10
            + (d3 - '0' as u8) as nat,
{
    let s = seq![d1, d2, d3];
    assert(s.last() == d3);
    assert(s.drop_last() =~= seq![d1, d2]);
    lemma_dec_val2(d1, d2);
    assert(dec_val(s) == dec_val(s.drop_last()) * 10 + (d3 - '0' as u8) as nat);
}

/// Strict lexicographic order on byte strings, byte by byte, with a
/// proper prefix ordered before its extensions.
pub open spec fn bytes_lt(a: Seq<u8>, b: Seq<u8>) -> bool
    decreases a.len(),
{
    if b.len() == 0 {
        false
    } else if a.len() == 0 {
        true
    } else if a[0] < b[0] {
        true
    } else if a[0] > b[0] {
        false
    } else {
        bytes_lt(a.drop_first(), b.drop_first())
    }
}

/// Lexicographic order is total: exactly one of below, equal and above.
pub proof fn lemma_bytes_lt_trichotomy(a: Seq<u8>, b: Seq<u8>)
    ensures
        bytes_lt(a, b) || a == b || bytes_lt(b, a),
        bytes_lt(a, b) ==> a != b && !bytes_lt(b, a),
        a == b ==> !bytes_lt(a, b),
    decreases a.len(),
{
    if a.len() == 0 && b.len() == 0 {
        assert(a =~= b);
    } else if a.len() > 0 && b.len() > 0 {
        if a[0] == b[0] {
            lemma_bytes_lt_trichotomy(a.drop_first(), b.drop_first());
            if a.drop_first() == b.drop_first() {
                assert(a =~= b) by {
                    assert forall|i: int| 0 <= i < a.len() implies a[i] == b[i] by {
                        if i > 0 {
                            assert(a[i] == a.drop_first()[i - 1]);
                            assert(b[i] == b.drop_first()[i - 1]);
                        }
                    }
                }
            }
            if a == b {
                assert(a.drop_first() =~= b.drop_first());
            }
        }
    }
}

/// Lexicographic order is transitive.
pub proof fn lemma_bytes_lt_trans(a: Seq<u8>, b: Seq<u8>, c: Seq<u8>)
    requires
        bytes_lt(a, b),
        bytes_lt(b, c),
    ensures
        bytes_lt(a, c),
    decreases a.len(),
{
    if a.len() > 0 && b.len() > 0 && c.len() > 0 {
        if a[0] == b[0] && b[0] == c[0] {
            lemma_bytes_lt_trans(a.drop_first(), b.drop_first(), c.drop_first());
        }
    }
}

/// Compare two byte slices lexicographically.
pub fn bytes_lt_exec(a: &[u8], b: &[u8]) -> (r: bool)
    ensures
        r == bytes_lt(a@, b@),
{
    let mut i: usize = 0;
    proof {
        assert(a@.skip(0) =~= a@);
        assert(b@.skip(0) =~= b@);
    }
    while i < a.len() && i < b.len() && a[i] == b[i]
        invariant
            0 <= i <= a@.len(),
            0 <= i <= b@.len(),
            bytes_lt(a@, b@) == bytes_lt(a@.skip(i as int), b@.skip(i as int)),
        decreases a@.len() - i,
    {
        proof {
            assert(a@.skip(i as int)[0] == a@[i as int]);
            assert(b@.skip(i as int)[0] == b@[i as int]);
            assert(a@.skip(i + 1 as int) =~= a@.skip(i as int).drop_first());
            assert(b@.skip(i + 1 as int) =~= b@.skip(i as int).drop_first());
        }
        i = i + 1;
    }
    proof {
        if i < a@.len() {
            assert(a@.skip(i as int)[0] == a@[i as int]);
        }
        if i < b@.len() {
            assert(b@.skip(i as int)[0] == b@[i as int]);
        }
        if i == a@.len() {
            assert(a@.skip(i as int) =~= Seq::<u8>::empty());
        }
        if i == b@.len() {
            assert(b@.skip(i as int) =~= Seq::<u8>::empty());
        }
    }
    if i == a.len() {
        i < b.len()
    } else if i == b.len() {
        false
    } else {
        a[i] < b[i]
    }
}

/// Whether two byte slices hold the same bytes.
pub fn bytes_eq(a: &[u8], b: &[u8]) -> (r: bool)
    ensures
        r == (a@ == b@),
{
    if a.len() != b.len() {
        return false;
    }
    let n = a.len();
    let mut i: usize = 0;
    while i < n
        invariant
            n == a@.len() == b@.len(),
            0 <= i <= n,
            forall|j: int| 0 <= j < i ==> a@[j] == b@[j],
        decreases n - i,
    {
        if a[i] != b[i] {
            return false;
        }
        i = i + 1;
    }
    proof {
        assert(a@ =~= b@);
    }
    true
}

/// Append the base-ten digits of `n` to `out`.
pub fn push_dec_u64(n: u64, out: &mut Vec<u8>)
    ensures
        final(out)@ == old(out)@ + dec_rep(n as nat),
    decreases n,
{
    if n < 10 {
        out.push((n as u8) + '0' as u8);
        proof {
            assert(out@ =~= old(out)@ + dec_rep(n as nat));
        }
    } else {
        push_dec_u64(n / 10, out);
        out.push(((n % 10) as u8) + '0' as u8);
        proof {
            assert(out@ =~= old(out)@ + dec_rep(n as nat));
        }
    }
}

/// Append the base-ten digits of `n`, with a minus sign when negative.
pub fn push_dec_i64(n: i64, out: &mut Vec<u8>)
    ensures
        final(out)@ == old(out)@ + dec_rep_int(n as int),
{
    if n < 0 {
        out.push('-' as u8);
        let m: u64 = (-(n + 1)) as u64 + 1;
        assert(m == -(n as int));
        push_dec_u64(m, out);
        proof {
            assert(out@ =~= old(out)@ + dec_rep_int(n as int));
        }
    } else {
        push_dec_u64(n as u64, out);
    }
}

/// The value of a digit string, stopping before it can exceed `u64`.
///
/// Returns `None` when a byte is not a digit, the string is empty, or the
/// value would not fit in 15 digits.
pub fn parse_dec_u64(s: &[u8]) -> (r: Option<u64>)
    ensures
        match r {
            Some(v) => s@.len() >= 1 && s@.len() <= 15 && all_digits(s@) && v == dec_val(s@),
            None => !(s@.len() >= 1 && s@.len() <= 15 && all_digits(s@)),
        },
{
    if s.len() == 0 || s.len() > 15 {
        return None;
    }
    let n = s.len();
    let mut i: usize = 0;
    let mut v: u64 = 0;
    while i < n
        invariant
            n == s@.len(),
            1 <= n <= 15,
            0 <= i <= n,
            all_digits(s@.subrange(0, i as int)),
            v == dec_val(s@.subrange(0, i as int)),
            v < pow10(i as nat),
        decreases n - i,
    {
        let b = s[i];
        if b < '0' as u8 || b > '9' as u8 {
            proof {
                assert(!is_digit(s@[i as int]));
            }
            return None;
        }
        proof {
            assert(s@.subrange(0, i + 1 as int).drop_last() =~= s@.subrange(0, i as int));
            assert(s@.subrange(0, i + 1 as int).last() == s@[i as int]);
            lemma_pow10_values();
            lemma_pow10_increases(i as nat, 14);
            assert(pow10((i + 1) as nat) == 10 * pow10(i as nat));
        }
        v = v * 10 + (b - '0' as u8) as u64;
        i = i + 1;
    }
    proof {
        assert(s@.subrange(0, n as int) =~= s@);
    }
    Some(v)
}

/// Small powers of ten, written out.
pub proof fn lemma_pow10_values()
    ensures
        pow10(1) == 10,
        pow10(2) == 100,
        pow10(3) == 1000,
        pow10(13) == 10000000000000,
        pow10(14) == 100000000000000,
        pow10(15) == 1000000000000000,
{
    assert(pow10(0) == 1);
    assert(pow10(1) == 10);
    assert(pow10(2) == 100);
    assert(pow10(3) == 1000);
    assert(pow10(4) == 10000);
    assert(pow10(5) == 100000);
    assert(pow10(6) == 1000000);
    assert(pow10(7) == 10000000);
    assert(pow10(8) == 100000000);
    assert(pow10(9) == 1000000000);
    assert(pow10(10) == 10000000000);
    assert(pow10(11) == 100000000000);
    assert(pow10(12) == 1000000000000);
    assert(pow10(13) == 10000000000000);
    assert(pow10(14) == 100000000000000);
    assert(pow10(15) == 1000000000000000);
}

/// Ten to a smaller power is no more than ten to a larger one.
pub proof fn lemma_pow10_increases(a: nat, b: nat)
    requires
        a <= b,
    ensures
        pow10(a) <= pow10(b),
    decreases b,
{
    if a < b {
        lemma_pow10_increases(a, (b - 1) as nat);
        lemma_pow10_positive((b - 1) as nat);
    }
}

/// Ten to any power is positive.
pub proof fn lemma_pow10_positive(k: nat)
    ensures
        pow10(k) >= 1,
    decreases k,
{
    if k > 0 {
        lemma_pow10_positive((k - 1) as nat);
    }
}

/// A digit string of `k` digits has value below ten to the `k`.
pub proof fn lemma_dec_val_bound(s: Seq<u8>)
    requires
        all_digits(s),
    ensures
        dec_val(s) < pow10(s.len()),
    decreases s.len(),
{
    if s.len() > 0 {
        lemma_dec_val_bound(s.drop_last());
    }
}

/// Ten to the power `k`.
pub open spec fn pow10(k: nat) -> nat
    decreases k,
{
    if k == 0 {
        1
    } else {
        10 * pow10((k - 1) as nat)
    }
}

} // verus!
