//! A small JSON reader and writer for the bus payloads.
//!
//! The override records travel as flat JSON objects whose values are plain
//! strings or decimal numbers; absence travels as `null`. This module scans
//! exactly that subset: strings without escape sequences, numbers made of
//! digits, a minus sign and a dot, and objects with a fixed number of
//! members. It also writes JSON strings, escaping quotes, backslashes and
//! control bytes.

use vstd::prelude::*;

use crate::ascii::is_digit;

verus! {

/// Whether a byte is JSON whitespace.
pub open spec fn is_ws(b: u8) -> bool {
    b == 0x20 || b == 0x09 || b == 0x0a || b == 0x0d
}

/// The first position at or after `i` that does not hold whitespace.
pub open spec fn spec_skip_ws(s: Seq<u8>, i: int) -> int
    decreases s.len() - i,
{
    if 0 <= i < s.len() && is_ws(s[i]) {
        spec_skip_ws(s, i + 1)
    } else {
        i
    }
}

/// Whether a byte may stand unescaped inside a JSON string: printable
/// ASCII except the quote and the backslash.
pub open spec fn plain_str_byte(b: u8) -> bool {
    0x20 <= b < 0x7f && b != '"' as u8 && b != '\\' as u8
}

/// Whether every byte of a sequence may stand unescaped in a JSON string.
pub open spec fn plain_str_bytes(s: Seq<u8>) -> bool {
    forall|i: int| 0 <= i < s.len() ==> plain_str_byte(#[trigger] s[i])
}

/// The position of the quote closing a string whose content starts at `i`,
/// when the content is made of plain bytes.
pub open spec fn spec_str_end(s: Seq<u8>, i: int) -> Option<int>
    decreases s.len() - i,
{
    if i < 0 || i >= s.len() {
        None
    } else if s[i] == '"' as u8 {
        Some(i)
    } else if plain_str_byte(s[i]) {
        spec_str_end(s, i + 1)
    } else {
        None
    }
}

/// `spec_str_end` points at the closing quote, past plain content only.
pub proof fn lemma_str_end(s: Seq<u8>, i: int)
    requires
        0 <= i <= s.len(),
    ensures
        match spec_str_end(s, i) {
            Some(e) => i <= e < s.len() && s[e] == '"' as u8 && plain_str_bytes(
                s.subrange(i, e),
            ),
            None => true,
        },
    decreases s.len() - i,
{
    if i < s.len() && s[i] != '"' as u8 && plain_str_byte(s[i]) {
        lemma_str_end(s, i + 1);
        match spec_str_end(s, i) {
            Some(e) => {
                assert forall|j: int| 0 <= j < e - i implies plain_str_byte(
                    #[trigger] s.subrange(i, e)[j],
                ) by {
                    if j > 0 {
                        assert(s.subrange(i, e)[j] == s.subrange(i + 1, e)[j - 1]);
                    }
                }
            },
            None => {},
        }
    }
}

/// A string of plain content closed by a quote ends at that quote.
pub proof fn lemma_str_end_of_plain(s: Seq<u8>, i: int, e: int)
    requires
        0 <= i <= e < s.len(),
        plain_str_bytes(s.subrange(i, e)),
        forall|j: int| i <= j < e ==> s[j] != '"' as u8,
        s[e] == '"' as u8,
    ensures
        spec_str_end(s, i) == Some(e),
    decreases e - i,
{
    if i < e {
        assert(plain_str_byte(s[i])) by {
            assert(s.subrange(i, e)[0] == s[i]);
        }
        assert(plain_str_bytes(s.subrange(i + 1, e))) by {
            assert forall|j: int| 0 <= j < e - i - 1 implies plain_str_byte(
                #[trigger] s.subrange(i + 1, e)[j],
            ) by {
                assert(s.subrange(i + 1, e)[j] == s.subrange(i, e)[j + 1]);
            }
        }
        lemma_str_end_of_plain(s, i + 1, e);
    }
}

/// Whether a byte can belong to a plain decimal number.
pub open spec fn is_num_byte(b: u8) -> bool {
    is_digit(b) || b == '-' as u8 || b == '.' as u8
}

/// The first position at or after `i` that does not hold a number byte.
pub open spec fn spec_num_end(s: Seq<u8>, i: int) -> int
    decreases s.len() - i,
{
    if 0 <= i < s.len() && is_num_byte(s[i]) {
        spec_num_end(s, i + 1)
    } else {
        i
    }
}

/// `spec_num_end` lands between `i` and the end, past number bytes only.
pub proof fn lemma_num_end(s: Seq<u8>, i: int)
    requires
        0 <= i <= s.len(),
    ensures
        i <= spec_num_end(s, i) <= s.len(),
        spec_num_end(s, i) < s.len() ==> !is_num_byte(s[spec_num_end(s, i)]),
        forall|j: int| i <= j < spec_num_end(s, i) ==> is_num_byte(#[trigger] s[j]),
    decreases s.len() - i,
{
    if i < s.len() && is_num_byte(s[i]) {
        lemma_num_end(s, i + 1);
    }
}

/// A run of number bytes bounded by a non-number byte ends there.
pub proof fn lemma_num_end_of_run(s: Seq<u8>, i: int, e: int)
    requires
        0 <= i <= e <= s.len(),
        forall|j: int| i <= j < e ==> is_num_byte(#[trigger] s[j]),
        e < s.len() ==> !is_num_byte(s[e]),
    ensures
        spec_num_end(s, i) == e,
    decreases e - i,
{
    if i < e {
        lemma_num_end_of_run(s, i + 1, e);
    }
}

/// Advance past whitespace.
pub fn skip_ws(s: &[u8], i: usize) -> (j: usize)
    requires
        i <= s@.len(),
    ensures
        j == spec_skip_ws(s@, i as int),
        i <= j <= s@.len(),
{
    let n = s.len();
    let mut j = i;
    while j < n && (s[j] == 0x20 || s[j] == 0x09 || s[j] == 0x0a || s[j] == 0x0d)
        invariant
            n == s@.len(),
            i <= j <= n,
            spec_skip_ws(s@, i as int) == spec_skip_ws(s@, j as int),
        decreases n - j,
    {
        j = j + 1;
    }
    j
}

/// Find the quote closing a string whose content starts at `i`.
pub fn str_end(s: &[u8], i: usize) -> (r: Option<usize>)
    requires
        i <= s@.len(),
    ensures
        match r {
            Some(e) => spec_str_end(s@, i as int) == Some(e as int) && i <= e < s@.len(),
            None => spec_str_end(s@, i as int) is None,
        },
{
    let n = s.len();
    let mut j = i;
    while j < n && s[j] != '"' as u8 && 0x20 <= s[j] && s[j] < 0x7f && s[j] != '\\' as u8
        invariant
            n == s@.len(),
            i <= j <= n,
            spec_str_end(s@, i as int) == spec_str_end(s@, j as int),
        decreases n - j,
    {
        j = j + 1;
    }
    if j < n && s[j] == '"' as u8 {
        Some(j)
    } else {
        None
    }
}

/// Advance past number bytes.
pub fn num_end(s: &[u8], i: usize) -> (j: usize)
    requires
        i <= s@.len(),
    ensures
        j == spec_num_end(s@, i as int),
        i <= j <= s@.len(),
{
    let n = s.len();
    let mut j = i;
    while j < n && (('0' as u8 <= s[j] && s[j] <= '9' as u8) || s[j] == '-' as u8 || s[j]
        == '.' as u8)
        invariant
            n == s@.len(),
            i <= j <= n,
            spec_num_end(s@, i as int) == spec_num_end(s@, j as int),
        decreases n - j,
    {
        j = j + 1;
    }
    j
}

/// One `"key": value` member of a flat object: the key bytes, the value
/// bytes, whether the value was a string, and the position after it.
pub open spec fn spec_member(s: Seq<u8>, i: int) -> Option<(Seq<u8>, Seq<u8>, bool, int)> {
    if 0 <= i < s.len() && s[i] == '"' as u8 {
        match spec_str_end(s, i + 1) {
            None => None,
            Some(kq) => {
                let key = s.subrange(i + 1, kq);
                let j = spec_skip_ws(s, kq + 1);
                if j < s.len() && s[j] == ':' as u8 {
                    let k = spec_skip_ws(s, j + 1);
                    if k < s.len() && s[k] == '"' as u8 {
                        match spec_str_end(s, k + 1) {
                            None => None,
                            Some(vq) => Some((key, s.subrange(k + 1, vq), true, vq + 1)),
                        }
                    } else {
                        let m = spec_num_end(s, k);
                        if m > k {
                            Some((key, s.subrange(k, m), false, m))
                        } else {
                            None
                        }
                    }
                } else {
                    None
                }
            },
        }
    } else {
        None
    }
}

/// Exactly `n` members separated by commas and closed by a brace, starting
/// at a non-blank position: the members in order and the position after
/// the closing brace.
pub open spec fn spec_members(s: Seq<u8>, i: int, n: nat) -> Option<
    (Seq<(Seq<u8>, Seq<u8>, bool)>, int),
>
    decreases n,
{
    if n == 0 {
        None
    } else {
        match spec_member(s, i) {
            None => None,
            Some((k, v, st, j)) => {
                let a = spec_skip_ws(s, j);
                if n == 1 {
                    if a < s.len() && s[a] == '}' as u8 {
                        Some((seq![(k, v, st)], a + 1))
                    } else {
                        None
                    }
                } else {
                    if a < s.len() && s[a] == ',' as u8 {
                        let b = spec_skip_ws(s, a + 1);
                        match spec_members(s, b, (n - 1) as nat) {
                            None => None,
                            Some((rest, e)) => Some((seq![(k, v, st)] + rest, e)),
                        }
                    } else {
                        None
                    }
                }
            },
        }
    }
}

/// The value and kind of the first member with the given key.
pub open spec fn spec_find_member(ms: Seq<(Seq<u8>, Seq<u8>, bool)>, key: Seq<u8>) -> Option<
    (Seq<u8>, bool),
>
    decreases ms.len(),
{
    if ms.len() == 0 {
        None
    } else if ms[0].0 == key {
        Some((ms[0].1, ms[0].2))
    } else {
        spec_find_member(ms.drop_first(), key)
    }
}

/// One scanned member of a flat JSON object.
pub struct RawMember {
    pub key: Vec<u8>,
    pub value: Vec<u8>,
    pub string_value: bool,
}

impl View for RawMember {
    type V = (Seq<u8>, Seq<u8>, bool);

    open spec fn view(&self) -> (Seq<u8>, Seq<u8>, bool) {
        (self.key@, self.value@, self.string_value)
    }
}

/// The views of a sequence of scanned members.
pub open spec fn members_view(v: Seq<RawMember>) -> Seq<(Seq<u8>, Seq<u8>, bool)> {
    v.map_values(|m: RawMember| m@)
}

/// Scan one `"key": value` member starting at `i`.
pub fn read_member(s: &[u8], i: usize) -> (r: Option<(RawMember, usize)>)
    requires
        i <= s@.len(),
    ensures
        match r {
            Some((m, next)) => spec_member(s@, i as int) == Some(
                (m.key@, m.value@, m.string_value, next as int),
            ) && next <= s@.len(),
            None => spec_member(s@, i as int) is None,
        },
{
    if i >= s.len() || s[i] != '"' as u8 {
        return None;
    }
    let kq = match str_end(s, i + 1) {
        Some(kq) => kq,
        None => {
            return None;
        },
    };
    let key = vstd::slice::slice_to_vec(&s[i + 1..kq]);
    let j = skip_ws(s, kq + 1);
    if j >= s.len() || s[j] != ':' as u8 {
        return None;
    }
    let k = skip_ws(s, j + 1);
    if k < s.len() && s[k] == '"' as u8 {
        match str_end(s, k + 1) {
            Some(vq) => {
                let value = vstd::slice::slice_to_vec(&s[k + 1..vq]);
                Some((RawMember { key, value, string_value: true }, vq + 1))
            },
            None => None,
        }
    } else {
        let m = num_end(s, k);
        if m > k {
            let value = vstd::slice::slice_to_vec(&s[k..m]);
            Some((RawMember { key, value, string_value: false }, m))
        } else {
            None
        }
    }
}

/// Scan exactly `n` members and the closing brace, starting at `i`.
pub fn read_members(s: &[u8], i: usize, n: usize) -> (r: Option<(Vec<RawMember>, usize)>)
    requires
        i <= s@.len(),
        n >= 1,
    ensures
        match r {
            Some((ms, e)) => spec_members(s@, i as int, n as nat) == Some(
                (members_view(ms@), e as int),
            ) && e <= s@.len(),
            None => spec_members(s@, i as int, n as nat) is None,
        },
    decreases n,
{
    let (m, j) = match read_member(s, i) {
        Some(r) => r,
        None => {
            return None;
        },
    };
    let a = skip_ws(s, j);
    if n == 1 {
        if a < s.len() && s[a] == '}' as u8 {
            let mut ms: Vec<RawMember> = Vec::new();
            ms.push(m);
            proof {
                assert(members_view(ms@) =~= seq![m@]);
            }
            Some((ms, a + 1))
        } else {
            None
        }
    } else {
        if a < s.len() && s[a] == ',' as u8 {
            let b = skip_ws(s, a + 1);
            match read_members(s, b, n - 1) {
                Some((mut rest, e)) => {
                    rest.insert(0, m);
                    proof {
                        assert(members_view(rest@) =~= seq![m@] + members_view(
                            rest@.drop_first(),
                        ));
                    }
                    Some((rest, e))
                },
                None => None,
            }
        } else {
            None
        }
    }
}

/// Find the first member with the given key.
pub fn find_member(ms: &Vec<RawMember>, key: &[u8]) -> (r: Option<usize>)
    ensures
        match r {
            Some(i) => i < ms@.len() && ms@[i as int].key@ == key@ && spec_find_member(
                members_view(ms@),
                key@,
            ) == Some((ms@[i as int].value@, ms@[i as int].string_value)),
            None => spec_find_member(members_view(ms@), key@) is None,
        },
{
    let n = ms.len();
    let mut i: usize = 0;
    proof {
        assert(ms@.subrange(0, n as int) =~= ms@);
    }
    while i < n
        invariant
            n == ms@.len(),
            0 <= i <= n,
            spec_find_member(members_view(ms@), key@) == spec_find_member(
                members_view(ms@.subrange(i as int, n as int)),
                key@,
            ),
        decreases n - i,
    {
        if crate::ascii::bytes_eq(ms[i].key.as_slice(), key) {
            proof {
                assert(members_view(ms@.subrange(i as int, n as int))[0] == ms@[i as int]@);
            }
            return Some(i);
        }
        proof {
            assert(members_view(ms@.subrange(i as int, n as int)).drop_first() =~= members_view(
                ms@.subrange(i + 1 as int, n as int),
            ));
            assert(members_view(ms@.subrange(i as int, n as int))[0] == ms@[i as int]@);
        }
        i = i + 1;
    }
    proof {
        assert(members_view(ms@.subrange(n as int, n as int)) =~= Seq::empty());
    }
    None
}

/// A laid-out `"key":"value"` member scans to exactly its parts.
pub proof fn lemma_member_string_at(s: Seq<u8>, i: int, klen: int, vlen: int)
    requires
        0 <= i,
        klen >= 0,
        vlen >= 0,
        i + klen + vlen + 5 <= s.len(),
        s[i] == '"' as u8,
        forall|j: int| i + 1 <= j < i + 1 + klen ==> plain_str_byte(#[trigger] s[j]),
        s[i + 1 + klen] == '"' as u8,
        s[i + 2 + klen] == ':' as u8,
        s[i + 3 + klen] == '"' as u8,
        forall|j: int| i + 4 + klen <= j < i + 4 + klen + vlen ==> plain_str_byte(#[trigger] s[j]),
        s[i + 4 + klen + vlen] == '"' as u8,
    ensures
        spec_member(s, i) == Some(
            (
                s.subrange(i + 1, i + 1 + klen),
                s.subrange(i + 4 + klen, i + 4 + klen + vlen),
                true,
                i + 5 + klen + vlen,
            ),
        ),
{
    let kq = i + 1 + klen;
    assert forall|j: int| i + 1 <= j < kq implies s[j] != '"' as u8 by {
        assert(plain_str_byte(s[j]));
    }
    assert(plain_str_bytes(s.subrange(i + 1, kq)));
    lemma_str_end_of_plain(s, i + 1, kq);
    assert(spec_skip_ws(s, kq + 1) == kq + 1);
    let vs = i + 4 + klen;
    let vq = vs + vlen;
    assert forall|j: int| vs <= j < vq implies s[j] != '"' as u8 by {
        assert(plain_str_byte(s[j]));
    }
    assert(plain_str_bytes(s.subrange(vs, vq)));
    lemma_str_end_of_plain(s, vs, vq);
}

/// A laid-out `"key":number` member scans to exactly its parts.
pub proof fn lemma_member_number_at(s: Seq<u8>, i: int, klen: int, vlen: int)
    requires
        0 <= i,
        klen >= 0,
        vlen >= 1,
        i + klen + vlen + 3 <= s.len(),
        s[i] == '"' as u8,
        forall|j: int| i + 1 <= j < i + 1 + klen ==> plain_str_byte(#[trigger] s[j]),
        s[i + 1 + klen] == '"' as u8,
        s[i + 2 + klen] == ':' as u8,
        s[i + 3 + klen] != '"' as u8,
        forall|j: int| i + 3 + klen <= j < i + 3 + klen + vlen ==> is_num_byte(#[trigger] s[j]),
        i + 3 + klen + vlen < s.len() ==> !is_num_byte(s[i + 3 + klen + vlen]),
    ensures
        spec_member(s, i) == Some(
            (
                s.subrange(i + 1, i + 1 + klen),
                s.subrange(i + 3 + klen, i + 3 + klen + vlen),
                false,
                i + 3 + klen + vlen,
            ),
        ),
{
    let kq = i + 1 + klen;
    assert forall|j: int| i + 1 <= j < kq implies s[j] != '"' as u8 by {
        assert(plain_str_byte(s[j]));
    }
    assert(plain_str_bytes(s.subrange(i + 1, kq)));
    lemma_str_end_of_plain(s, i + 1, kq);
    assert(spec_skip_ws(s, kq + 1) == kq + 1);
    lemma_num_end_of_run(s, i + 3 + klen, i + 3 + klen + vlen);
}

/// Two laid-out members joined by a comma and closed by a brace scan to
/// exactly that pair.
pub proof fn lemma_members2_at(
    s: Seq<u8>,
    i: int,
    m1: (Seq<u8>, Seq<u8>, bool),
    j1: int,
    m2: (Seq<u8>, Seq<u8>, bool),
    j2: int,
)
    requires
        0 <= i,
        spec_member(s, i) == Some((m1.0, m1.1, m1.2, j1)),
        0 <= j1 < s.len(),
        s[j1] == ',' as u8,
        spec_member(s, j1 + 1) == Some((m2.0, m2.1, m2.2, j2)),
        0 <= j2 < s.len(),
        s[j2] == '}' as u8,
    ensures
        spec_members(s, i, 2) == Some((seq![m1, m2], j2 + 1)),
{
    assert(spec_skip_ws(s, j1) == j1);
    assert(spec_skip_ws(s, j2) == j2);
    assert(spec_members(s, j1 + 1, 1) == Some((seq![m2], j2 + 1)));
    assert(seq![m1] + seq![m2] =~= seq![m1, m2]);
}

/// Four laid-out members joined by commas and closed by a brace scan to
/// exactly that quadruple.
pub proof fn lemma_members4_at(
    s: Seq<u8>,
    i: int,
    m1: (Seq<u8>, Seq<u8>, bool),
    j1: int,
    m2: (Seq<u8>, Seq<u8>, bool),
    j2: int,
    m3: (Seq<u8>, Seq<u8>, bool),
    j3: int,
    m4: (Seq<u8>, Seq<u8>, bool),
    j4: int,
)
    requires
        0 <= i,
        spec_member(s, i) == Some((m1.0, m1.1, m1.2, j1)),
        0 <= j1 < s.len(),
        s[j1] == ',' as u8,
        spec_member(s, j1 + 1) == Some((m2.0, m2.1, m2.2, j2)),
        0 <= j2 < s.len(),
        s[j2] == ',' as u8,
        spec_member(s, j2 + 1) == Some((m3.0, m3.1, m3.2, j3)),
        0 <= j3 < s.len(),
        s[j3] == ',' as u8,
        spec_member(s, j3 + 1) == Some((m4.0, m4.1, m4.2, j4)),
        0 <= j4 < s.len(),
        s[j4] == '}' as u8,
    ensures
        spec_members(s, i, 4) == Some((seq![m1, m2, m3, m4], j4 + 1)),
{
    assert(spec_skip_ws(s, j1) == j1);
    assert(spec_skip_ws(s, j2) == j2);
    assert(spec_skip_ws(s, j3) == j3);
    assert(spec_skip_ws(s, j4) == j4);
    assert(spec_members(s, j3 + 1, 1) == Some((seq![m4], j4 + 1)));
    assert(spec_members(s, j2 + 1, 2) == Some((seq![m3] + seq![m4], j4 + 1)));
    assert(spec_members(s, j1 + 1, 3) == Some((seq![m2] + (seq![m3] + seq![m4]), j4 + 1)));
    assert(seq![m1] + (seq![m2] + (seq![m3] + seq![m4])) =~= seq![m1, m2, m3, m4]);
    assert(spec_members(s, i, 4) == Some(
        (seq![m1] + (seq![m2] + (seq![m3] + seq![m4])), j4 + 1),
    ));
}

/// How one byte is written inside a JSON string.
pub open spec fn esc_byte(b: u8) -> Seq<u8> {
    if b == '"' as u8 {
        seq!['\\' as u8, '"' as u8]
    } else if b == '\\' as u8 {
        seq!['\\' as u8, '\\' as u8]
    } else if b < 0x20 {
        seq!['\\' as u8, 'u' as u8, '0' as u8, '0' as u8, hex_digit(b / 16), hex_digit(b % 16)]
    } else {
        seq![b]
    }
}

/// The lowercase hexadecimal digit of a value below sixteen.
pub open spec fn hex_digit(v: u8) -> u8 {
    if v < 10 {
        (v + '0' as u8) as u8
    } else {
        (v - 10 + 'a' as u8) as u8
    }
}

/// How a byte string is written inside a JSON string.
pub open spec fn spec_escape(s: Seq<u8>) -> Seq<u8>
    decreases s.len(),
{
    if s.len() == 0 {
        Seq::empty()
    } else {
        esc_byte(s[0]) + spec_escape(s.subrange(1, s.len() as int))
    }
}

/// Splitting the first byte off commutes with escaping.
proof fn lemma_escape_snoc(s: Seq<u8>)
    requires
        s.len() > 0,
    ensures
        spec_escape(s) == spec_escape(s.drop_last()) + esc_byte(s.last()),
    decreases s.len(),
{
    if s.len() == 1 {
        assert(s.drop_last() =~= Seq::<u8>::empty());
        assert(s.subrange(1, s.len() as int) =~= Seq::<u8>::empty());
        assert(spec_escape(s) =~= spec_escape(s.drop_last()) + esc_byte(s.last()));
    } else {
        let t = s.subrange(1, s.len() as int);
        lemma_escape_snoc(t);
        assert(t.drop_last() =~= s.drop_last().subrange(1, s.drop_last().len() as int));
        assert(t.last() == s.last());
        assert(s.drop_last()[0] == s[0]);
        assert(spec_escape(s) =~= spec_escape(s.drop_last()) + esc_byte(s.last()));
    }
}

/// Append the escaped form of `content` to `out`.
#[verifier::rlimit(50)]
pub fn push_escaped(content: &[u8], out: &mut Vec<u8>)
    ensures
        final(out)@ == old(out)@ + spec_escape(content@),
{
    let n = content.len();
    let mut i: usize = 0;
    while i < n
        invariant
            n == content@.len(),
            0 <= i <= n,
            out@ == old(out)@ + spec_escape(content@.subrange(0, i as int)),
        decreases n - i,
    {
        let b = content[i];
        if b == '"' as u8 {
            out.push('\\' as u8);
            out.push('"' as u8);
        } else if b == '\\' as u8 {
            out.push('\\' as u8);
            out.push('\\' as u8);
        } else if b < 0x20 {
            out.push('\\' as u8);
            out.push('u' as u8);
            out.push('0' as u8);
            out.push('0' as u8);
            let hi = b / 16;
            let lo = b % 16;
            out.push(if hi < 10 {
                hi + '0' as u8
            } else {
                hi - 10 + 'a' as u8
            });
            out.push(if lo < 10 {
                lo + '0' as u8
            } else {
                lo - 10 + 'a' as u8
            });
        } else {
            out.push(b);
        }
        i = i + 1;
        proof {
            let p = content@.subrange(0, i as int);
            lemma_escape_snoc(p);
            assert(p.drop_last() =~= content@.subrange(0, i - 1 as int));
            assert(p.last() == content@[i - 1 as int]);
            assert(out@ =~= old(out)@ + spec_escape(p));
        }
    }
    proof {
        assert(content@.subrange(0, n as int) =~= content@);
    }
}

} // verus!
