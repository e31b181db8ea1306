//! Skipping and scalar reading for the self-delimiting, little-endian
//! named-binary-tag record format that the save store uses. A value is a tag
//! id, and the payload shape is fixed per tag; compounds hold named values up
//! to an end marker, lists hold a count of untagged payloads. The decoders
//! mirror total specification-level parse functions, so every contract pins
//! both success and failure exactly. Recursion is bounded by an explicit fuel
//! that the top-level decoders size from the buffer length.

use crate::bytes::{le16, le32, read_i32, read_u16};
use vstd::prelude::*;

verus! {

pub const TAG_END: u8 = 0;

pub const TAG_BYTE: u8 = 1;

pub const TAG_SHORT: u8 = 2;

pub const TAG_INT: u8 = 3;

pub const TAG_LONG: u8 = 4;

pub const TAG_FLOAT: u8 = 5;

pub const TAG_DOUBLE: u8 = 6;

pub const TAG_BYTE_ARRAY: u8 = 7;

pub const TAG_STRING: u8 = 8;

pub const TAG_LIST: u8 = 9;

pub const TAG_COMPOUND: u8 = 10;

pub const TAG_INT_ARRAY: u8 = 11;

pub const TAG_LONG_ARRAY: u8 = 12;

/// A length-prefixed string payload at `pos`: its bytes and the end offset.
pub open spec fn spec_read_str(b: Seq<u8>, pos: int) -> Option<(Seq<u8>, int)> {
    if 0 <= pos && pos + 2 <= b.len() {
        let n = le16(b, pos) as int;
        if pos + 2 + n <= b.len() {
            Some((b.subrange(pos + 2, pos + 2 + n), pos + 2 + n))
        } else {
            None
        }
    } else {
        None
    }
}

pub fn read_str(b: &Vec<u8>, pos: usize) -> (r: Option<(Vec<u8>, usize)>)
    requires
        pos <= b.len(),
    ensures
        match r {
            Some(sp) => spec_read_str(b@, pos as int) == Some((sp.0@, sp.1 as int)) && pos <= sp.1
                <= b@.len(),
            None => spec_read_str(b@, pos as int) is None,
        },
{
    if b.len() - pos < 2 {
        return None;
    }
    let n = read_u16(b, pos) as usize;
    if b.len() - (pos + 2) < n {
        return None;
    }
    let mut out: Vec<u8> = Vec::new();
    let mut i: usize = 0;
    while i < n
        invariant
            i <= n,
            pos + 2 + n <= b.len(),
            n == le16(b@, pos as int) as usize,
            out@ == b@.subrange(pos + 2, pos + 2 + i),
        decreases n - i,
    {
        out.push(b[pos + 2 + i]);
        proof {
            assert(out@ =~= b@.subrange(pos + 2, pos + 2 + i + 1));
        }
        i = i + 1;
    }
    Some((out, pos + 2 + n))
}

/// End offset of the tag-`tag` payload at `pos`, or `None` if the buffer does
/// not hold one (or the fuel runs out before it ends).
pub open spec fn spec_skip_value(b: Seq<u8>, pos: int, tag: u8, fuel: nat) -> Option<int>
    decreases fuel,
{
    if fuel == 0 {
        None
    } else if tag == TAG_BYTE {
        if pos + 1 <= b.len() {
            Some(pos + 1)
        } else {
            None
        }
    } else if tag == TAG_SHORT {
        if pos + 2 <= b.len() {
            Some(pos + 2)
        } else {
            None
        }
    } else if tag == TAG_INT || tag == TAG_FLOAT {
        if pos + 4 <= b.len() {
            Some(pos + 4)
        } else {
            None
        }
    } else if tag == TAG_LONG || tag == TAG_DOUBLE {
        if pos + 8 <= b.len() {
            Some(pos + 8)
        } else {
            None
        }
    } else if tag == TAG_BYTE_ARRAY || tag == TAG_INT_ARRAY || tag == TAG_LONG_ARRAY {
        let size: int = if tag == TAG_BYTE_ARRAY {
            1
        } else if tag == TAG_INT_ARRAY {
            4
        } else {
            8
        };
        if pos + 4 <= b.len() {
            let n = le32(b, pos) as i32;
            if n >= 0 && pos + 4 + n * size <= b.len() {
                Some(pos + 4 + n * size)
            } else {
                None
            }
        } else {
            None
        }
    } else if tag == TAG_STRING {
        match spec_read_str(b, pos) {
            Some(sp) => Some(sp.1),
            None => None,
        }
    } else if tag == TAG_LIST {
        if pos + 5 <= b.len() {
            let etag = b[pos];
            let n = le32(b, pos + 1) as i32;
            if n >= 0 {
                spec_skip_list(b, pos + 5, etag, n as nat, (fuel - 1) as nat)
            } else {
                None
            }
        } else {
            None
        }
    } else if tag == TAG_COMPOUND {
        spec_skip_fields(b, pos, (fuel - 1) as nat)
    } else {
        None
    }
}

/// End offset of `count` consecutive tag-`etag` payloads starting at `pos`.
pub open spec fn spec_skip_list(b: Seq<u8>, pos: int, etag: u8, count: nat, fuel: nat) -> Option<
    int,
>
    decreases fuel,
{
    if fuel == 0 {
        None
    } else if count == 0 {
        Some(pos)
    } else {
        match spec_skip_value(b, pos, etag, (fuel - 1) as nat) {
            Some(p) => spec_skip_list(b, p, etag, (count - 1) as nat, (fuel - 1) as nat),
            None => None,
        }
    }
}

/// End offset (one past the end marker) of the named fields of a compound
/// payload starting at `pos`.
pub open spec fn spec_skip_fields(b: Seq<u8>, pos: int, fuel: nat) -> Option<int>
    decreases fuel,
{
    if fuel == 0 {
        None
    } else if !(0 <= pos && pos + 1 <= b.len()) {
        None
    } else if b[pos] == TAG_END {
        Some(pos + 1)
    } else {
        match spec_read_str(b, pos + 1) {
            Some(nm) => match spec_skip_value(b, nm.1, b[pos], (fuel - 1) as nat) {
                Some(p) => spec_skip_fields(b, p, (fuel - 1) as nat),
                None => None,
            },
            None => None,
        }
    }
}

pub fn skip_value(b: &Vec<u8>, pos: usize, tag: u8, fuel: usize) -> (r: Option<usize>)
    requires
        pos <= b.len(),
    ensures
        match r {
            Some(p) => spec_skip_value(b@, pos as int, tag, fuel as nat) == Some(p as int) && pos
                <= p <= b@.len(),
            None => spec_skip_value(b@, pos as int, tag, fuel as nat) is None,
        },
    decreases fuel,
{
    if fuel == 0 {
        return None;
    }
    if tag == TAG_BYTE {
        if b.len() - pos >= 1 {
            Some(pos + 1)
        } else {
            None
        }
    } else if tag == TAG_SHORT {
        if b.len() - pos >= 2 {
            Some(pos + 2)
        } else {
            None
        }
    } else if tag == TAG_INT || tag == TAG_FLOAT {
        if b.len() - pos >= 4 {
            Some(pos + 4)
        } else {
            None
        }
    } else if tag == TAG_LONG || tag == TAG_DOUBLE {
        if b.len() - pos >= 8 {
            Some(pos + 8)
        } else {
            None
        }
    } else if tag == TAG_BYTE_ARRAY || tag == TAG_INT_ARRAY || tag == TAG_LONG_ARRAY {
        if b.len() - pos < 4 {
            return None;
        }
        let n = read_i32(b, pos);
        if n < 0 {
            return None;
        }
        let adv: u64 = if tag == TAG_BYTE_ARRAY {
            n as u64
        } else if tag == TAG_INT_ARRAY {
            (n as u64) * 4
        } else {
            (n as u64) * 8
        };
        let avail: u64 = (b.len() - (pos + 4)) as u64;
        if adv <= avail {
            Some(pos + 4 + (adv as usize))
        } else {
            None
        }
    } else if tag == TAG_STRING {
        if b.len() - pos < 2 {
            return None;
        }
        let n = read_u16(b, pos) as usize;
        if b.len() - (pos + 2) < n {
            return None;
        }
        Some(pos + 2 + n)
    } else if tag == TAG_LIST {
        if b.len() - pos < 5 {
            return None;
        }
        let etag = b[pos];
        let n = read_i32(b, pos + 1);
        if n < 0 {
            return None;
        }
        skip_list(b, pos + 5, etag, n as usize, fuel - 1)
    } else if tag == TAG_COMPOUND {
        skip_fields(b, pos, fuel - 1)
    } else {
        None
    }
}

pub fn skip_list(b: &Vec<u8>, pos: usize, etag: u8, count: usize, fuel: usize) -> (r: Option<
    usize,
>)
    requires
        pos <= b.len(),
    ensures
        match r {
            Some(p) => spec_skip_list(b@, pos as int, etag, count as nat, fuel as nat) == Some(
                p as int,
            ) && pos <= p <= b@.len(),
            None => spec_skip_list(b@, pos as int, etag, count as nat, fuel as nat) is None,
        },
    decreases fuel,
{
    let mut cur: usize = pos;
    let mut rem: usize = count;
    let mut f: usize = fuel;
    loop
        invariant
            pos <= cur <= b.len(),
            f <= fuel,
            spec_skip_list(b@, pos as int, etag, count as nat, fuel as nat) == spec_skip_list(
                b@,
                cur as int,
                etag,
                rem as nat,
                f as nat,
            ),
        decreases rem,
    {
        if f == 0 {
            return None;
        }
        if rem == 0 {
            return Some(cur);
        }
        match skip_value(b, cur, etag, f - 1) {
            Some(p) => {
                cur = p;
                rem = rem - 1;
                f = f - 1;
            },
            None => {
                return None;
            },
        }
    }
}

pub fn skip_fields(b: &Vec<u8>, pos: usize, fuel: usize) -> (r: Option<usize>)
    requires
        pos <= b.len(),
    ensures
        match r {
            Some(p) => spec_skip_fields(b@, pos as int, fuel as nat) == Some(p as int) && pos <= p
                <= b@.len(),
            None => spec_skip_fields(b@, pos as int, fuel as nat) is None,
        },
    decreases fuel,
{
    let mut cur: usize = pos;
    let mut f: usize = fuel;
    loop
        invariant
            pos <= cur <= b.len(),
            f <= fuel,
            spec_skip_fields(b@, pos as int, fuel as nat) == spec_skip_fields(
                b@,
                cur as int,
                f as nat,
            ),
        decreases f,
    {
        if f == 0 {
            return None;
        }
        if b.len() - cur < 1 {
            return None;
        }
        let t = b[cur];
        if t == TAG_END {
            return Some(cur + 1);
        }
        if b.len() - (cur + 1) < 2 {
            return None;
        }
        let n = read_u16(b, cur + 1) as usize;
        if b.len() - (cur + 3) < n {
            return None;
        }
        let p2 = cur + 3 + n;
        match skip_value(b, p2, t, f - 1) {
            Some(p3) => {
                cur = p3;
                f = f - 1;
            },
            None => {
                return None;
            },
        }
    }
}

} // verus!
