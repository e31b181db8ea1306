//! Byte-level helpers shared by the record decoders and the selector parser:
//! little-endian scalar readers, substring search, and decimal parsing.

use vstd::prelude::*;
use vstd::string::StringSliceAdditionalSpecFns;

verus! {

/// Upper bound on the length of any record buffer the decoders accept.
pub const MAX_RECORD_LEN: usize = 268435456;

/// The two bytes at `pos` read as a little-endian 16-bit value.
pub open spec fn le16(b: Seq<u8>, pos: int) -> u16 {
    (b[pos] as u16) | ((b[pos + 1] as u16) << 8)
}

/// The four bytes at `pos` read as a little-endian 32-bit value.
pub open spec fn le32(b: Seq<u8>, pos: int) -> u32 {
    (b[pos] as u32) | ((b[pos + 1] as u32) << 8) | ((b[pos + 2] as u32) << 16) | ((b[pos + 3] as u32)
        << 24)
}

/// The eight bytes at `pos` read as a little-endian 64-bit value.
pub open spec fn le64(b: Seq<u8>, pos: int) -> u64 {
    (le32(b, pos) as u64) | ((le32(b, pos + 4) as u64) << 32)
}

pub fn read_u16(b: &Vec<u8>, pos: usize) -> (r: u16)
    requires
        pos + 2 <= b.len(),
    ensures
        r == le16(b@, pos as int),
{
    (b[pos] as u16) | ((b[pos + 1] as u16) << 8)
}

pub fn read_u32(b: &Vec<u8>, pos: usize) -> (r: u32)
    requires
        pos + 4 <= b.len(),
    ensures
        r == le32(b@, pos as int),
{
    (b[pos] as u32) | ((b[pos + 1] as u32) << 8) | ((b[pos + 2] as u32) << 16) | ((b[pos + 3] as u32)
        << 24)
}

pub fn read_u64(b: &Vec<u8>, pos: usize) -> (r: u64)
    requires
        pos + 8 <= b.len(),
    ensures
        r == le64(b@, pos as int),
{
    (read_u32(b, pos) as u64) | ((read_u32(b, pos + 4) as u64) << 32)
}

pub fn read_i32(b: &Vec<u8>, pos: usize) -> (r: i32)
    requires
        pos + 4 <= b.len(),
    ensures
        r == le32(b@, pos as int) as i32,
{
    read_u32(b, pos) as i32
}

pub fn read_i64(b: &Vec<u8>, pos: usize) -> (r: i64)
    requires
        pos + 8 <= b.len(),
    ensures
        r == le64(b@, pos as int) as i64,
{
    read_u64(b, pos) as i64
}

/// Whether the two byte vectors hold the same bytes.
pub fn bytes_eq(a: &Vec<u8>, b: &Vec<u8>) -> (r: bool)
    ensures
        r == (a@ == b@),
{
    if a.len() != b.len() {
        return false;
    }
    let mut i: usize = 0;
    while i < a.len()
        invariant
            i <= a@.len(),
            a@.len() == b@.len(),
            forall|j: int| 0 <= j < i ==> a@[j] == b@[j],
        decreases a@.len() - i,
    {
        if a[i] != b[i] {
            return false;
        }
        i = i + 1;
    }
    proof {
        assert(a@ =~= b@);
    }
    true
}

/// Whether `pat` occurs in `s` starting exactly at `at`.
pub open spec fn spec_match_at(s: Seq<u8>, at: int, pat: Seq<u8>) -> bool {
    0 <= at && at + pat.len() <= s.len() && s.subrange(at, at + pat.len()) == pat
}

pub fn match_at(s: &Vec<u8>, at: usize, pat: &[u8]) -> (r: bool)
    ensures
        r == spec_match_at(s@, at as int, pat@),
{
    if pat.len() > s.len() || at > s.len() - pat.len() {
        proof {
            assert(!spec_match_at(s@, at as int, pat@));
        }
        return false;
    }
    let mut i: usize = 0;
    while i < pat.len()
        invariant
            i <= pat@.len(),
            at + pat@.len() <= s.len(),
            forall|j: int| 0 <= j < i ==> s@[at + j] == pat@[j],
        decreases pat@.len() - i,
    {
        if s[at + i] != pat[i] {
            proof {
                assert(s@.subrange(at as int, at + pat@.len())[i as int] != pat@[i as int]);
            }
            return false;
        }
        i = i + 1;
    }
    proof {
        assert(s@.subrange(at as int, at + pat@.len()) =~= pat@);
    }
    true
}

/// Whether the byte vector `n` holds exactly the bytes of the literal `k`.
pub fn vec_eq_str(n: &Vec<u8>, k: &str) -> (r: bool)
    ensures
        r == (n@ == k.spec_bytes()),
{
    let kb = k.as_bytes();
    if n.len() != kb.len() {
        return false;
    }
    proof {
        assert(n@.subrange(0, kb@.len() as int) =~= n@);
    }
    match_at(n, 0, kb)
}

/// Index of the first occurrence of byte `t` in `s` at or after `from`.
pub open spec fn spec_find_byte(s: Seq<u8>, from: int, t: u8) -> Option<int>
    decreases s.len() - from,
{
    if from < 0 || from >= s.len() {
        None
    } else if s[from] == t {
        Some(from)
    } else {
        spec_find_byte(s, from + 1, t)
    }
}

pub fn find_byte(s: &Vec<u8>, from: usize, t: u8) -> (r: Option<usize>)
    requires
        from <= s.len(),
    ensures
        match r {
            Some(i) => spec_find_byte(s@, from as int, t) == Some(i as int) && from <= i < s.len(),
            None => spec_find_byte(s@, from as int, t) is None,
        },
{
    let mut i: usize = from;
    while i < s.len()
        invariant
            from <= i <= s@.len(),
            spec_find_byte(s@, from as int, t) == spec_find_byte(s@, i as int, t),
        decreases s@.len() - i,
    {
        if s[i] == t {
            return Some(i);
        }
        i = i + 1;
    }
    None
}

/// Index of the first occurrence of `pat` in `s` at or after `from`.
pub open spec fn spec_find_sub(s: Seq<u8>, from: int, pat: Seq<u8>) -> Option<int>
    decreases s.len() - from,
{
    if from < 0 || from + pat.len() > s.len() {
        None
    } else if s.subrange(from, from + pat.len()) == pat {
        Some(from)
    } else if from < s.len() {
        spec_find_sub(s, from + 1, pat)
    } else {
        None
    }
}

pub fn find_sub(s: &Vec<u8>, from: usize, pat: &[u8]) -> (r: Option<usize>)
    requires
        from <= s.len(),
    ensures
        match r {
            Some(i) => spec_find_sub(s@, from as int, pat@) == Some(i as int) && from <= i && i
                + pat@.len() <= s.len(),
            None => spec_find_sub(s@, from as int, pat@) is None,
        },
{
    if pat.len() == 0 {
        proof {
            assert(s@.subrange(from as int, from as int) =~= pat@);
        }
        return Some(from);
    }
    let mut i: usize = from;
    loop
        invariant
            from <= i <= s.len(),
            pat@.len() > 0,
            spec_find_sub(s@, from as int, pat@) == spec_find_sub(s@, i as int, pat@),
        decreases s@.len() - i,
    {
        if pat.len() > s.len() - i {
            return None;
        }
        if match_at(s, i, pat) {
            return Some(i);
        }
        i = i + 1;
    }
}

/// Index of the last occurrence of byte `t` in `s`, if any.
pub open spec fn spec_rfind_byte(s: Seq<u8>, upto: int, t: u8) -> Option<int>
    decreases upto,
{
    if upto <= 0 || upto > s.len() {
        None
    } else if s[upto - 1] == t {
        Some(upto - 1)
    } else {
        spec_rfind_byte(s, upto - 1, t)
    }
}

pub fn rfind_byte(s: &Vec<u8>, t: u8) -> (r: Option<usize>)
    ensures
        match r {
            Some(i) => spec_rfind_byte(s@, s@.len() as int, t) == Some(i as int) && i < s.len(),
            None => spec_rfind_byte(s@, s@.len() as int, t) is None,
        },
{
    let mut i: usize = s.len();
    while i > 0
        invariant
            i <= s@.len(),
            spec_rfind_byte(s@, s@.len() as int, t) == spec_rfind_byte(s@, i as int, t),
        decreases i,
    {
        if s[i - 1] == t {
            return Some(i - 1);
        }
        i = i - 1;
    }
    None
}

/// A copy of the bytes `s[from..to]`.
pub fn copy_range(s: &Vec<u8>, from: usize, to: usize) -> (r: Vec<u8>)
    requires
        from <= to <= s.len(),
    ensures
        r@ == s@.subrange(from as int, to as int),
{
    let mut out: Vec<u8> = Vec::new();
    let mut i: usize = from;
    while i < to
        invariant
            from <= i <= to,
            to <= s.len(),
            out@ == s@.subrange(from as int, i as int),
        decreases to - i,
    {
        out.push(s[i]);
        proof {
            assert(out@ =~= s@.subrange(from as int, i + 1));
        }
        i = i + 1;
    }
    out
}

/// A copy of the whole byte vector.
pub fn copy_bytes(s: &Vec<u8>) -> (r: Vec<u8>)
    ensures
        r@ == s@,
{
    let r = copy_range(s, 0, s.len());
    proof {
        assert(s@.subrange(0, s@.len() as int) =~= s@);
    }
    r
}

/// The bytes `s[a0..a1]` followed by the bytes `s[b0..b1]`.
pub fn concat_ranges(s: &Vec<u8>, a0: usize, a1: usize, b0: usize, b1: usize) -> (r: Vec<u8>)
    requires
        a0 <= a1 <= s.len(),
        b0 <= b1 <= s.len(),
    ensures
        r@ == s@.subrange(a0 as int, a1 as int) + s@.subrange(b0 as int, b1 as int),
{
    let mut out = copy_range(s, a0, a1);
    proof {
        assert(out@ =~= s@.subrange(a0 as int, a1 as int) + s@.subrange(b0 as int, b0 as int));
    }
    let mut i: usize = b0;
    while i < b1
        invariant
            b0 <= i <= b1,
            b1 <= s.len(),
            a0 <= a1 <= s.len(),
            out@ == s@.subrange(a0 as int, a1 as int) + s@.subrange(b0 as int, i as int),
        decreases b1 - i,
    {
        out.push(s[i]);
        proof {
            assert(out@ =~= s@.subrange(a0 as int, a1 as int) + s@.subrange(b0 as int, i + 1));
        }
        i = i + 1;
    }
    out
}

/// Whether every byte of `s` is an ASCII decimal digit.
pub open spec fn spec_all_digits(s: Seq<u8>) -> bool {
    forall|i: int| 0 <= i < s.len() ==> 48 <= #[trigger] s[i] <= 57
}

/// The unbounded integer value of a sequence of ASCII decimal digits.
pub open spec fn spec_digits_val(s: Seq<u8>) -> int
    decreases s.len(),
{
    if s.len() == 0 {
        0
    } else {
        spec_digits_val(s.drop_last()) * 10 + (s.last() - 48)
    }
}

/// The signed 32-bit value denoted by `s` in decimal, if `s` is an optional
/// `+` or `-` sign followed by at least one digit and the value fits.
pub open spec fn spec_parse_i32(s: Seq<u8>) -> Option<i32> {
    let neg = s.len() > 0 && s[0] == 45;
    let ds = if s.len() > 0 && (s[0] == 43 || s[0] == 45) {
        s.skip(1)
    } else {
        s
    };
    if ds.len() == 0 || !spec_all_digits(ds) {
        None
    } else {
        let v = if neg {
            -spec_digits_val(ds)
        } else {
            spec_digits_val(ds)
        };
        if i32::MIN <= v <= i32::MAX {
            Some(v as i32)
        } else {
            None
        }
    }
}

/// Parses the bytes `s[from..to]` as a signed 32-bit decimal integer.
pub fn parse_i32_range(s: &Vec<u8>, from: usize, to: usize) -> (r: Option<i32>)
    requires
        from <= to <= s@.len(),
    ensures
        r == spec_parse_i32(s@.subrange(from as int, to as int)),
{
    let ghost sub = s@.subrange(from as int, to as int);
    let mut st: usize = from;
    let mut neg: bool = false;
    if from < to && (s[from] == 43 || s[from] == 45) {
        neg = s[from] == 45;
        st = from + 1;
    }
    let ghost ds = sub.skip(if st == from { 0int } else { 1int });
    proof {
        if from < to {
            assert(sub[0] == s@[from as int]);
        }
        assert(ds =~= s@.subrange(st as int, to as int));
    }
    if st == to {
        return None;
    }
    // `acc` tracks the digit value, saturated just above 2^31 so that an
    // out-of-range value is still detected without unbounded arithmetic.
    let mut acc: u64 = 0;
    let mut i: usize = st;
    while i < to
        invariant
            st <= i <= to <= s.len(),
            from <= st,
            sub == s@.subrange(from as int, to as int),
            ds == s@.subrange(st as int, to as int),
            ds == (if sub.len() > 0 && (sub[0] == 43 || sub[0] == 45) {
                sub.skip(1)
            } else {
                sub
            }),
            neg == (sub.len() > 0 && sub[0] == 45),
            spec_all_digits(s@.subrange(st as int, i as int)),
            spec_digits_val(s@.subrange(st as int, i as int)) >= 0,
            acc == if spec_digits_val(s@.subrange(st as int, i as int)) <= 0x8000_0000int {
                spec_digits_val(s@.subrange(st as int, i as int)) as u64
            } else {
                0x8000_0001u64
            },
        decreases to - i,
    {
        let c = s[i];
        if c < 48 || c > 57 {
            proof {
                assert(ds[i - st] == c);
                assert(!spec_all_digits(ds));
            }
            return None;
        }
        proof {
            assert(s@.subrange(st as int, i + 1).drop_last() =~= s@.subrange(st as int, i as int));
            assert(s@.subrange(st as int, i + 1).last() == c);
        }
        if acc <= 0x8000_0000 {
            let cand: u64 = acc * 10 + ((c - 48) as u64);
            if cand > 0x8000_0000 {
                acc = 0x8000_0001;
            } else {
                acc = cand;
            }
        }
        proof {
            let old_val = spec_digits_val(s@.subrange(st as int, i as int));
            let new_val = spec_digits_val(s@.subrange(st as int, i + 1));
            assert(new_val == old_val * 10 + (c - 48));
        }
        i = i + 1;
    }
    proof {
        assert(s@.subrange(st as int, to as int) =~= ds);
        assert(spec_all_digits(ds));
    }
    if neg {
        if acc <= 0x8000_0000 {
            let v: i64 = -(acc as i64);
            Some(v as i32)
        } else {
            None
        }
    } else {
        if acc <= 0x7fff_ffff {
            Some(acc as i32)
        } else {
            None
        }
    }
}

} // verus!
