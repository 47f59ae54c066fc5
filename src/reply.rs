//! Reading a result field out of the text that the chain client prints for a
//! view call: the first line that contains the field's label is split at `:`,
//! and the second piece, trimmed of whitespace characters at both ends, is the
//! value. The text is taken as UTF-8 bytes; on valid UTF-8 the whitespace
//! matched is exactly the characters for which `char::is_whitespace` holds.
use vstd::prelude::*;

verus! {

/// Index of the first `b` at or after `from`, or the length when there is none.
pub open spec fn next_index(s: Seq<u8>, from: int, b: u8) -> int
    decreases s.len() - from,
{
    if from < 0 || from >= s.len() {
        s.len() as int
    } else if s[from] == b {
        from
    } else {
        next_index(s, from + 1, b)
    }
}

/// `f` occurs in `s` at position `i`.
pub open spec fn occurs_at(s: Seq<u8>, i: int, f: Seq<u8>) -> bool {
    0 <= i && i + f.len() <= s.len() && s.subrange(i, i + f.len()) == f
}

/// `f` occurs inside `s[lo..hi]`.
pub open spec fn occurs_in(s: Seq<u8>, lo: int, hi: int, f: Seq<u8>) -> bool {
    exists|i: int| lo <= i && i + f.len() <= hi && #[trigger] occurs_at(s, i, f)
}

/// Bounds of the first line starting at or after `start` that contains `f`
/// (lines end at `\n`).
pub open spec fn line_with(s: Seq<u8>, start: int, f: Seq<u8>) -> Option<(int, int)>
    decreases s.len() - start,
{
    if start < 0 || start > s.len() {
        None
    } else {
        let e = next_index(s, start, 10u8);
        if occurs_in(s, start, e, f) {
            Some((start, e))
        } else if e >= s.len() || e < start {
            None
        } else {
            line_with(s, e + 1, f)
        }
    }
}

/// Bounds of the second `:`-separated piece of the line `s[a..e]`.
pub open spec fn second_piece(s: Seq<u8>, a: int, e: int) -> Option<(int, int)> {
    let p = next_index(s, a, 58u8);
    if p >= e {
        None
    } else {
        let q = next_index(s, p + 1, 58u8);
        Some((p + 1, if q < e { q } else { e }))
    }
}

/// A one-byte whitespace character: tab, line feed, vertical tab, form feed,
/// carriage return, space.
pub open spec fn is_space1(b: u8) -> bool {
    b == 32 || (9 <= b && b <= 13)
}

/// The UTF-8 form of a two-byte whitespace character: U+0085, U+00A0.
pub open spec fn is_space2(a: u8, b: u8) -> bool {
    a == 0xC2u8 && (b == 0x85u8 || b == 0xA0u8)
}

/// The UTF-8 form of a three-byte whitespace character: U+1680,
/// U+2000 to U+200A, U+2028, U+2029, U+202F, U+205F, U+3000.
pub open spec fn is_space3(a: u8, b: u8, c: u8) -> bool {
    ||| (a == 0xE1u8 && b == 0x9Au8 && c == 0x80u8)
    ||| (a == 0xE2u8 && b == 0x80u8 && ((0x80u8 <= c && c <= 0x8Au8) || c == 0xA8u8 || c == 0xA9u8
        || c == 0xAFu8))
    ||| (a == 0xE2u8 && b == 0x81u8 && c == 0x9Fu8)
    ||| (a == 0xE3u8 && b == 0x80u8 && c == 0x80u8)
}

/// Length of the encoded whitespace character that starts at `i` and ends
/// by `hi`, or zero when there is none. Together the three forms are exactly
/// the characters for which `char::is_whitespace` holds.
pub open spec fn space_len_at(s: Seq<u8>, i: int, hi: int) -> int {
    if 0 <= i < hi && hi <= s.len() && is_space1(s[i]) {
        1
    } else if 0 <= i && i + 2 <= hi && hi <= s.len() && is_space2(s[i], s[i + 1]) {
        2
    } else if 0 <= i && i + 3 <= hi && hi <= s.len() && is_space3(s[i], s[i + 1], s[i + 2]) {
        3
    } else {
        0
    }
}

/// Length of the encoded whitespace character that ends at `hi` and starts
/// at or after `lo`, or zero when there is none.
pub open spec fn space_len_before(s: Seq<u8>, lo: int, hi: int) -> int {
    if 0 <= lo < hi && hi <= s.len() && is_space1(s[hi - 1]) {
        1
    } else if 0 <= lo && lo + 2 <= hi && hi <= s.len() && is_space2(s[hi - 2], s[hi - 1]) {
        2
    } else if 0 <= lo && lo + 3 <= hi && hi <= s.len() && is_space3(s[hi - 3], s[hi - 2], s[hi - 1]) {
        3
    } else {
        0
    }
}

/// Start of `s[lo..hi]` once leading whitespace characters are dropped.
pub open spec fn trim_lo(s: Seq<u8>, lo: int, hi: int) -> int
    decreases hi - lo,
{
    let n = space_len_at(s, lo, hi);
    if n > 0 && lo < hi {
        trim_lo(s, lo + n, hi)
    } else {
        lo
    }
}

/// End of `s[lo..hi]` once trailing whitespace characters are dropped.
pub open spec fn trim_hi(s: Seq<u8>, lo: int, hi: int) -> int
    decreases hi - lo,
{
    let n = space_len_before(s, lo, hi);
    if n > 0 && lo < hi {
        trim_hi(s, lo, hi - n)
    } else {
        hi
    }
}

/// The trimmed value of the field labelled `f` in `s`, if a line holds it.
pub open spec fn reply_field(s: Seq<u8>, f: Seq<u8>) -> Option<Seq<u8>> {
    match line_with(s, 0, f) {
        None => None,
        Some((a, e)) => match second_piece(s, a, e) {
            None => None,
            Some((lo, hi)) => {
                let t = trim_lo(s, lo, hi);
                Some(s.subrange(t, trim_hi(s, t, hi)))
            },
        },
    }
}

pub open spec fn is_digit(b: u8) -> bool {
    48 <= b && b <= 57
}

/// The number that the decimal digits `d` spell.
pub open spec fn digits_value(d: Seq<u8>) -> nat
    decreases d.len(),
{
    if d.len() == 0 {
        0
    } else {
        digits_value(d.drop_last()) * 10 + (d.last() - 48) as nat
    }
}

/// `t` without its leading `+`, if it has one.
pub open spec fn unsigned_digits(t: Seq<u8>) -> Seq<u8> {
    if t.len() > 0 && t[0] == 43u8 {
        t.skip(1)
    } else {
        t
    }
}

/// An unsigned 64-bit decimal: an optional `+`, then one or more digits whose
/// value fits.
pub open spec fn parse_u64(t: Seq<u8>) -> Option<u64> {
    let d = unsigned_digits(t);
    if d.len() > 0 && (forall|j: int| 0 <= j < d.len() ==> is_digit(#[trigger] d[j]))
        && digits_value(d) <= u64::MAX {
        Some(digits_value(d) as u64)
    } else {
        None
    }
}

/// The count in field `f` of `s`; zero when the field is absent or not a number.
pub open spec fn reply_count(s: Seq<u8>, f: Seq<u8>) -> u64 {
    match reply_field(s, f) {
        Some(t) => match parse_u64(t) {
            Some(v) => v,
            None => 0,
        },
        None => 0,
    }
}

/// The flag in field `f` of `s`: whether its value is exactly `true`.
pub open spec fn reply_flag(s: Seq<u8>, f: Seq<u8>) -> bool {
    reply_field(s, f) == Some(seq![116u8, 114u8, 117u8, 101u8])
}

fn find_byte(s: &[u8], from: usize, b: u8) -> (r: usize)
    requires
        from <= s@.len(),
    ensures
        r == next_index(s@, from as int, b),
        from <= r <= s@.len(),
        r < s@.len() ==> s@[r as int] == b,
        forall|j: int| from <= j < r ==> s@[j] != b,
{
    let mut i = from;
    while i < s.len()
        invariant
            from <= i <= s@.len(),
            next_index(s@, from as int, b) == next_index(s@, i as int, b),
            forall|j: int| from <= j < i ==> s@[j] != b,
        decreases s@.len() - i,
    {
        if s[i] == b {
            return i;
        }
        i = i + 1;
    }
    i
}

fn occurs_at_exec(s: &[u8], i: usize, f: &[u8]) -> (r: bool)
    requires
        i + f@.len() <= s@.len(),
    ensures
        r == occurs_at(s@, i as int, f@),
{
    let n = s.len();
    let mut k: usize = 0;
    while k < f.len()
        invariant
            k <= f@.len(),
            n == s@.len(),
            i + f@.len() <= s@.len(),
            forall|m: int| 0 <= m < k ==> s@[i + m] == f@[m],
        decreases f@.len() - k,
    {
        if s[i + k] != f[k] {
            assert(s@.subrange(i as int, i + f@.len())[k as int] != f@[k as int]);
            return false;
        }
        k = k + 1;
    }
    assert(s@.subrange(i as int, i + f@.len()) =~= f@);
    true
}

fn occurs_in_exec(s: &[u8], lo: usize, hi: usize, f: &[u8]) -> (r: bool)
    requires
        lo <= hi <= s@.len(),
    ensures
        r == occurs_in(s@, lo as int, hi as int, f@),
{
    let mut i = lo;
    loop
        invariant
            lo <= i <= hi,
            hi <= s@.len(),
            forall|j: int| lo <= j < i ==> !#[trigger] occurs_at(s@, j, f@),
        decreases hi - i,
    {
        if f.len() > hi - i {
            return false;
        }
        if occurs_at_exec(s, i, f) {
            return true;
        }
        if i == hi {
            return false;
        }
        i = i + 1;
    }
}

fn line_with_exec(s: &[u8], f: &[u8]) -> (r: Option<(usize, usize)>)
    ensures
        match r {
            Some((a, e)) => a <= e <= s@.len() && line_with(s@, 0, f@) == Some((a as int, e as int)),
            None => line_with(s@, 0, f@) is None,
        },
{
    let mut start: usize = 0;
    while start <= s.len()
        invariant
            start <= s@.len() + 1,
            line_with(s@, 0, f@) == line_with(s@, start as int, f@),
        decreases s@.len() + 1 - start,
    {
        let e = find_byte(s, start, 10u8);
        if occurs_in_exec(s, start, e, f) {
            return Some((start, e));
        }
        if e >= s.len() {
            return None;
        }
        start = e + 1;
    }
    None
}

fn space_len_at_exec(s: &[u8], i: usize, hi: usize) -> (r: usize)
    requires
        i <= hi <= s@.len(),
    ensures
        r == space_len_at(s@, i as int, hi as int),
{
    if i < hi && (s[i] == 32 || (9 <= s[i] && s[i] <= 13)) {
        1
    } else if hi - i >= 2 && s[i] == 0xC2u8 && (s[i + 1] == 0x85u8 || s[i + 1] == 0xA0u8) {
        2
    } else if hi - i >= 3 && ((s[i] == 0xE1u8 && s[i + 1] == 0x9Au8 && s[i + 2] == 0x80u8) || (s[i]
        == 0xE2u8 && s[i + 1] == 0x80u8 && ((0x80u8 <= s[i + 2] && s[i + 2] <= 0x8Au8) || s[i + 2]
        == 0xA8u8 || s[i + 2] == 0xA9u8 || s[i + 2] == 0xAFu8)) || (s[i] == 0xE2u8 && s[i + 1]
        == 0x81u8 && s[i + 2] == 0x9Fu8) || (s[i] == 0xE3u8 && s[i + 1] == 0x80u8 && s[i + 2]
        == 0x80u8)) {
        3
    } else {
        0
    }
}

fn space_len_before_exec(s: &[u8], lo: usize, hi: usize) -> (r: usize)
    requires
        lo <= hi <= s@.len(),
    ensures
        r == space_len_before(s@, lo as int, hi as int),
{
    if lo < hi && (s[hi - 1] == 32 || (9 <= s[hi - 1] && s[hi - 1] <= 13)) {
        1
    } else if hi - lo >= 2 && s[hi - 2] == 0xC2u8 && (s[hi - 1] == 0x85u8 || s[hi - 1] == 0xA0u8) {
        2
    } else if hi - lo >= 3 && ((s[hi - 3] == 0xE1u8 && s[hi - 2] == 0x9Au8 && s[hi - 1] == 0x80u8)
        || (s[hi - 3] == 0xE2u8 && s[hi - 2] == 0x80u8 && ((0x80u8 <= s[hi - 1] && s[hi - 1]
        <= 0x8Au8) || s[hi - 1] == 0xA8u8 || s[hi - 1] == 0xA9u8 || s[hi - 1] == 0xAFu8)) || (s[hi
        - 3] == 0xE2u8 && s[hi - 2] == 0x81u8 && s[hi - 1] == 0x9Fu8) || (s[hi - 3] == 0xE3u8
        && s[hi - 2] == 0x80u8 && s[hi - 1] == 0x80u8)) {
        3
    } else {
        0
    }
}

fn trim_exec(s: &[u8], lo: usize, hi: usize) -> (r: (usize, usize))
    requires
        lo <= hi <= s@.len(),
    ensures
        r.0 == trim_lo(s@, lo as int, hi as int),
        r.1 == trim_hi(s@, r.0 as int, hi as int),
        lo <= r.0 <= r.1 <= hi,
{
    let mut a = lo;
    loop
        invariant
            lo <= a <= hi <= s@.len(),
            trim_lo(s@, lo as int, hi as int) == trim_lo(s@, a as int, hi as int),
        ensures
            lo <= a <= hi,
            trim_lo(s@, lo as int, hi as int) == a,
        decreases hi - a,
    {
        let n = space_len_at_exec(s, a, hi);
        if n == 0 || a >= hi {
            break;
        }
        a = a + n;
    }
    let mut b = hi;
    loop
        invariant
            a <= b <= hi <= s@.len(),
            trim_hi(s@, a as int, hi as int) == trim_hi(s@, a as int, b as int),
        ensures
            a <= b <= hi,
            trim_hi(s@, a as int, hi as int) == b,
        decreases b - a,
    {
        let n = space_len_before_exec(s, a, b);
        if n == 0 || a >= b {
            break;
        }
        b = b - n;
    }
    (a, b)
}

fn reply_field_exec(s: &[u8], f: &[u8]) -> (r: Option<(usize, usize)>)
    ensures
        match r {
            Some((lo, hi)) => lo <= hi <= s@.len() && reply_field(s@, f@) == Some(
                s@.subrange(lo as int, hi as int),
            ),
            None => reply_field(s@, f@) is None,
        },
{
    match line_with_exec(s, f) {
        None => None,
        Some((a, e)) => {
            let p = find_byte(s, a, 58u8);
            if p >= e {
                return None;
            }
            let q = find_byte(s, p + 1, 58u8);
            let hi = if q < e {
                q
            } else {
                e
            };
            let (lo2, hi2) = trim_exec(s, p + 1, hi);
            Some((lo2, hi2))
        },
    }
}

proof fn lemma_digits_step(d: Seq<u8>, i: int)
    requires
        0 <= i < d.len(),
    ensures
        digits_value(d.subrange(0, i + 1)) == digits_value(d.subrange(0, i)) * 10 + (d[i] - 48) as nat,
{
    assert(d.subrange(0, i + 1).drop_last() =~= d.subrange(0, i));
}

fn parse_u64_exec(s: &[u8], lo: usize, hi: usize) -> (r: Option<u64>)
    requires
        lo <= hi <= s@.len(),
    ensures
        r == parse_u64(s@.subrange(lo as int, hi as int)),
{
    let ghost t = s@.subrange(lo as int, hi as int);
    let start = if lo < hi && s[lo] == 43u8 {
        lo + 1
    } else {
        lo
    };
    let ghost d = s@.subrange(start as int, hi as int);
    assert(d =~= unsigned_digits(t));
    if start == hi {
        return None;
    }
    let mut v: u64 = 0;
    let mut overflow = false;
    let mut i = start;
    while i < hi
        invariant
            start <= i <= hi <= s@.len(),
            d == s@.subrange(start as int, hi as int),
            t == s@.subrange(lo as int, hi as int),
            d == unsigned_digits(t),
            forall|j: int| 0 <= j < i - start ==> is_digit(#[trigger] d[j]),
            !overflow ==> v as nat == digits_value(d.subrange(0, i - start)),
            overflow ==> digits_value(d.subrange(0, i - start)) > u64::MAX,
        decreases hi - i,
    {
        let c = s[i];
        if c < 48 || c > 57 {
            assert(d[i - start] == c);
            assert(!is_digit(d[i - start]));
            return None;
        }
        proof {
            lemma_digits_step(d, i - start);
        }
        if !overflow {
            match v.checked_mul(10) {
                Some(w) => match w.checked_add((c - 48) as u64) {
                    Some(x) => {
                        v = x;
                    },
                    None => {
                        overflow = true;
                    },
                },
                None => {
                    overflow = true;
                },
            }
        } else {
            proof {
                let p = digits_value(d.subrange(0, i - start));
                assert(p * 10 >= p) by (nonlinear_arith);
            }
        }
        i = i + 1;
    }
    assert(d.subrange(0, d.len() as int) =~= d);
    if overflow {
        None
    } else {
        Some(v)
    }
}

/// The count that the chain client reports under the label `field` (for
/// instance `votes:`); zero when no line holds the label or its value is not
/// an unsigned decimal that fits in 64 bits.
pub fn parse_count_reply(output: &[u8], field: &[u8]) -> (r: u64)
    ensures
        r == reply_count(output@, field@),
{
    match reply_field_exec(output, field) {
        Some((lo, hi)) => match parse_u64_exec(output, lo, hi) {
            Some(v) => v,
            None => 0,
        },
        None => 0,
    }
}

/// The flag that the chain client reports under the label `field` (for
/// instance `has_voted:`): true exactly when its value is `true`.
pub fn parse_flag_reply(output: &[u8], field: &[u8]) -> (r: bool)
    ensures
        r == reply_flag(output@, field@),
{
    match reply_field_exec(output, field) {
        Some((lo, hi)) => {
            let ghost t = output@.subrange(lo as int, hi as int);
            let ghost w = seq![116u8, 114u8, 117u8, 101u8];
            assert(w.len() == 4 && w[0] == 116u8 && w[1] == 114u8 && w[2] == 117u8 && w[3] == 101u8);
            if hi - lo == 4 && output[lo] == 116u8 && output[lo + 1] == 114u8 && output[lo + 2]
                == 117u8 && output[lo + 3] == 101u8 {
                assert(t =~= seq![116u8, 114u8, 117u8, 101u8]);
                true
            } else {
                assert(hi - lo == 4 ==> t[0] == output@[lo as int] && t[1] == output@[lo + 1]
                    && t[2] == output@[lo + 2] && t[3] == output@[lo + 3]);
                assert(t != w);
                false
            }
        },
        None => false,
    }
}

} // verus!
