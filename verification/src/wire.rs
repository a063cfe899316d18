//! The protobuf wire format as used by vector tiles: base-128 varints,
//! ZigZag integers, little-endian fixed-width values and field framing.
use vstd::prelude::*;

use crate::bridge::{skip_group, skipped_group_rest};

verus! {

/// The largest value that the bytes from position `depth` onwards can still
/// contribute to a varint (a varint is at most ten bytes and carries 64 bits).
pub open spec fn varint_bound(depth: nat) -> nat {
    if depth == 0 { 18446744073709551615 }
    else if depth == 1 { 144115188075855871 }
    else if depth == 2 { 1125899906842623 }
    else if depth == 3 { 8796093022207 }
    else if depth == 4 { 68719476735 }
    else if depth == 5 { 536870911 }
    else if depth == 6 { 4194303 }
    else if depth == 7 { 32767 }
    else if depth == 8 { 255 }
    else { 1 }
}

/// Decodes a varint whose first `depth` bytes were already consumed: the
/// value and the number of bytes taken, or `None` when the bytes run out or
/// the tenth byte carries more than the 64th bit.
pub open spec fn parse_varint_at(s: Seq<u8>, depth: nat) -> Option<(nat, nat)>
    decreases s.len(),
{
    if s.len() == 0 {
        None
    } else if depth >= 9 {
        if s[0] <= 1 { Some((s[0] as nat, 1)) } else { None }
    } else if s[0] < 128 {
        Some((s[0] as nat, 1))
    } else {
        match parse_varint_at(s.drop_first(), depth + 1) {
            Some((v, n)) => Some(((s[0] - 128) as nat + 128 * v, n + 1)),
            None => None,
        }
    }
}

/// Decodes the varint at the start of `s`: its value and its length in bytes.
pub open spec fn parse_varint(s: Seq<u8>) -> Option<(nat, nat)> {
    parse_varint_at(s, 0)
}

/// The shortest base-128 encoding of `v`, least significant group first.
pub open spec fn varint_bytes(v: nat) -> Seq<u8>
    decreases v,
{
    if v < 128 {
        seq![v as u8]
    } else {
        seq![(v % 128 + 128) as u8] + varint_bytes(v / 128)
    }
}

/// A varint read from position `depth` on takes at least one byte, no more than the ten a varint may have, and holds a value that fits.
pub proof fn lemma_parse_varint_at_bounds(s: Seq<u8>, depth: nat)
    requires
        depth <= 9,
    ensures
        parse_varint_at(s, depth) matches Some((v, n)) ==> 1 <= n <= s.len() && n <= 10 - depth
            && v <= varint_bound(depth),
    decreases s.len(),
{
    if s.len() > 0 && depth < 9 && s[0] >= 128 {
        lemma_parse_varint_at_bounds(s.drop_first(), depth + 1);
    }
}

/// Decoding the encoding of a value that fits gives the value back, and
/// consumes exactly the encoding, whatever follows it.
pub proof fn lemma_varint_roundtrip_at(v: nat, rest: Seq<u8>, depth: nat)
    requires
        depth <= 9,
        v <= varint_bound(depth),
    ensures
        parse_varint_at(varint_bytes(v) + rest, depth) == Some((v, varint_bytes(v).len())),
    decreases v,
{
    let s = varint_bytes(v) + rest;
    if v < 128 {
        assert(s[0] == v as u8);
        assert(s.len() > 0);
    } else {
        assert(depth < 9);
        let b = (v % 128 + 128) as u8;
        assert(s[0] == b);
        assert(s.drop_first() =~= varint_bytes(v / 128) + rest);
        lemma_varint_roundtrip_at(v / 128, rest, depth + 1);
    }
}

/// Decoding the encoding of a 64-bit value gives it back and takes exactly its bytes.
pub proof fn lemma_varint_roundtrip(v: nat, rest: Seq<u8>)
    requires
        v <= u64::MAX,
    ensures
        parse_varint(varint_bytes(v) + rest) == Some((v, varint_bytes(v).len())),
{
    lemma_varint_roundtrip_at(v, rest, 0);
}

/// A varint takes one to ten bytes.
pub proof fn lemma_varint_bytes_len(v: nat)
    ensures
        1 <= varint_bytes(v).len() <= 10 || v > u64::MAX,
        v <= u64::MAX ==> varint_bytes(v).len() <= 10,
    decreases v,
{
    lemma_varint_bytes_len_at(v, 0);
}

proof fn lemma_varint_bytes_len_at(v: nat, depth: nat)
    ensures
        varint_bytes(v).len() >= 1,
        depth <= 9 && v <= varint_bound(depth) ==> varint_bytes(v).len() <= 10 - depth,
    decreases v,
{
    if v >= 128 {
        lemma_varint_bytes_len_at(v / 128, depth + 1);
    }
}

/// Reads the varint that starts at `pos` and ends no later than `end`.
pub fn read_varint(s: &[u8], pos: usize, end: usize) -> (r: Option<(u64, usize)>)
    requires
        pos <= end <= s@.len(),
    ensures
        match parse_varint(s@.subrange(pos as int, end as int)) {
            None => r.is_none(),
            Some((v, n)) => r == Some((v as u64, n as usize)),
        },
{
    read_varint_at(s, pos, end, 0)
}

fn read_varint_at(s: &[u8], pos: usize, end: usize, depth: usize) -> (r: Option<(u64, usize)>)
    requires
        pos <= end <= s@.len(),
        depth <= 9,
    ensures
        match parse_varint_at(s@.subrange(pos as int, end as int), depth as nat) {
            None => r.is_none(),
            Some((v, n)) => r == Some((v as u64, n as usize)),
        },
    decreases 9 - depth,
{
    let ghost t = s@.subrange(pos as int, end as int);
    proof {
        lemma_parse_varint_at_bounds(t, depth as nat);
    }
    if pos >= end {
        return None;
    }
    let b = s[pos];
    assert(t[0] == b);
    if depth >= 9 {
        if b <= 1 {
            Some((b as u64, 1))
        } else {
            None
        }
    } else if b < 128 {
        Some((b as u64, 1))
    } else {
        assert(t.drop_first() =~= s@.subrange(pos + 1, end as int));
        proof {
            lemma_parse_varint_at_bounds(t.drop_first(), (depth + 1) as nat);
        }
        match read_varint_at(s, pos + 1, end, depth + 1) {
            Some((v, n)) => {
                let low = (b - 128) as u64;
                Some((low + 128 * v, n + 1))
            },
            None => None,
        }
    }
}

/// Appends the varint encoding of `v` to `out`.
pub fn write_varint(out: &mut Vec<u8>, v: u64)
    ensures
        final(out)@ == old(out)@ + varint_bytes(v as nat),
{
    let mut x = v;
    let ghost start = out@;
    while x >= 128
        invariant
            out@ + varint_bytes(x as nat) == start + varint_bytes(v as nat),
        decreases x,
    {
        let b = (x % 128 + 128) as u8;
        proof {
            assert(varint_bytes(x as nat) == seq![b] + varint_bytes((x / 128) as nat));
            assert(out@.push(b) + varint_bytes((x / 128) as nat) =~= out@ + (seq![b]
                + varint_bytes((x / 128) as nat)));
        }
        out.push(b);
        x = x / 128;
    }
    proof {
        assert(varint_bytes(x as nat) == seq![x as u8]);
    }
    out.push(x as u8);
    assert(out@ =~= start + varint_bytes(v as nat));
}


/// The little-endian value of `s`.
pub open spec fn le_value(s: Seq<u8>) -> nat
    decreases s.len(),
{
    if s.len() == 0 { 0 } else { s[0] as nat + 256 * le_value(s.drop_first()) }
}

/// The `n` little-endian bytes of `v` (its low `8 * n` bits).
pub open spec fn le_bytes(v: nat, n: nat) -> Seq<u8>
    decreases n,
{
    if n == 0 { seq![] } else { seq![(v % 256) as u8] + le_bytes(v / 256, (n - 1) as nat) }
}

/// Little-endian bytes read back as the value they encode.
pub proof fn lemma_le_roundtrip(v: nat, n: nat)
    ensures
        le_bytes(v, n).len() == n,
        n == 4 && v <= u32::MAX ==> le_value(le_bytes(v, n)) == v,
        n == 8 && v <= u64::MAX ==> le_value(le_bytes(v, n)) == v,
{
    lemma_le_len(v, n);
    if n == 4 && v <= u32::MAX {
        lemma_le_value_bytes(v, 4);
    }
    if n == 8 && v <= u64::MAX {
        lemma_le_value_bytes(v, 8);
    }
}

/// `le_bytes(v, n)` is `n` bytes long.
pub proof fn lemma_le_len(v: nat, n: nat)
    ensures
        le_bytes(v, n).len() == n,
    decreases n,
{
    if n > 0 {
        lemma_le_len(v / 256, (n - 1) as nat);
    }
}

/// `le_value(le_bytes(v, n))` is `v` reduced modulo `256^n`, stated for the
/// two widths the wire format uses.
proof fn lemma_le_value_bytes(v: nat, n: nat)
    requires
        n == 4 && v <= u32::MAX || n == 8 && v <= u64::MAX,
    ensures
        le_value(le_bytes(v, n)) == v,
{
    reveal_with_fuel(le_bytes, 9);
    reveal_with_fuel(le_value, 9);
    let b = le_bytes(v, n);
    let v1 = v / 256;
    let v2 = v1 / 256;
    let v3 = v2 / 256;
    let v4 = v3 / 256;
    let v5 = v4 / 256;
    let v6 = v5 / 256;
    let v7 = v6 / 256;
    assert(b.drop_first() == le_bytes(v1, (n - 1) as nat));
    if n == 4 {
        assert(v3 < 256);
        assert(le_bytes(v3, 1) =~= seq![v3 as u8]);
        assert(le_value(le_bytes(v3, 1)) == v3);
        assert(le_value(le_bytes(v2, 2)) == v2 % 256 + 256 * v3);
        assert(le_value(le_bytes(v1, 3)) == v1 % 256 + 256 * v2);
    } else {
        assert(v7 < 256);
        assert(le_bytes(v7, 1) =~= seq![v7 as u8]);
        assert(le_value(le_bytes(v7, 1)) == v7);
        assert(le_value(le_bytes(v6, 2)) == v6 % 256 + 256 * v7);
        assert(le_value(le_bytes(v5, 3)) == v5 % 256 + 256 * v6);
        assert(le_value(le_bytes(v4, 4)) == v4 % 256 + 256 * v5);
        assert(le_value(le_bytes(v3, 5)) == v3 % 256 + 256 * v4);
        assert(le_value(le_bytes(v2, 6)) == v2 % 256 + 256 * v3);
        assert(le_value(le_bytes(v1, 7)) == v1 % 256 + 256 * v2);
    }
}

/// The ZigZag decoding of a 64-bit varint value: even values are the
/// non-negative integers, odd values the negative ones.
pub open spec fn zigzag_decode(v: nat) -> int {
    if v % 2 == 0 { (v / 2) as int } else { -((v / 2) as int) - 1 }
}

/// The ZigZag encoding of a signed integer.
pub open spec fn zigzag_encode(v: int) -> nat {
    if v >= 0 { (2 * v) as nat } else { (-2 * v - 1) as nat }
}

/// ZigZag decoding undoes ZigZag encoding.
pub proof fn lemma_zigzag_roundtrip(v: int)
    ensures
        zigzag_decode(zigzag_encode(v)) == v,
        i64::MIN <= v <= i64::MAX ==> zigzag_encode(v) <= u64::MAX,
        i32::MIN <= v <= i32::MAX ==> zigzag_encode(v) <= u32::MAX,
{
}

/// Decodes a ZigZag-encoded 64-bit value.
pub fn zigzag_decode_i64(v: u64) -> (r: i64)
    ensures
        r == zigzag_decode(v as nat),
{
    let half = v / 2;
    if v % 2 == 0 {
        half as i64
    } else {
        -(half as i64) - 1
    }
}

/// ZigZag-encodes a 64-bit signed value.
pub fn zigzag_encode_i64(v: i64) -> (r: u64)
    ensures
        r == zigzag_encode(v as int),
{
    if v >= 0 {
        2 * (v as u64)
    } else {
        let m = -(v + 1);
        2 * (m as u64) + 1
    }
}

/// Decodes a ZigZag-encoded 32-bit value.
pub fn zigzag_decode_i32(v: u32) -> (r: i32)
    ensures
        r == zigzag_decode(v as nat),
{
    let half = v / 2;
    if v % 2 == 0 {
        half as i32
    } else {
        -(half as i32) - 1
    }
}

/// ZigZag-encodes a 32-bit signed value.
pub fn zigzag_encode_i32(v: i32) -> (r: u32)
    ensures
        r == zigzag_encode(v as int),
{
    if v >= 0 {
        2 * (v as u32)
    } else {
        let m = -(v + 1);
        2 * (m as u32) + 1
    }
}

/// The two's-complement reading of a 64-bit varint as `int64`.
pub open spec fn as_i64(v: nat) -> int {
    if v <= i64::MAX { v as int } else { v - 18446744073709551616 }
}

/// The 64-bit two's-complement pattern of a signed value.
pub open spec fn as_u64(v: int) -> nat {
    if v >= 0 { v as nat } else { (v + 18446744073709551616) as nat }
}

/// The two's-complement reading of a `u64` as an `i64`.
pub fn u64_to_i64(v: u64) -> (r: i64)
    ensures
        r == as_i64(v as nat),
{
    if v <= 9223372036854775807 {
        v as i64
    } else {
        let d = u64::MAX - v;
        -(d as i64) - 1
    }
}

/// The two's-complement pattern of an `i64` as a `u64`.
pub fn i64_to_u64(v: i64) -> (r: u64)
    ensures
        r == as_u64(v as int),
{
    if v >= 0 {
        v as u64
    } else {
        let d = -(v + 1);
        u64::MAX - (d as u64)
    }
}

/// The low 32 bits of a varint value, as `uint32` fields keep them.
pub open spec fn low32(v: nat) -> u32 {
    (v % 4294967296) as u32
}

/// The low 32 bits of a `u64`.
pub fn truncate_u32(v: u64) -> (r: u32)
    ensures
        r == low32(v as nat),
{
    (v % 4294967296) as u32
}

/// The value of one field as the wire carries it.
pub enum WireValue {
    Varint(u64),
    Fixed64(u64),
    Bytes(Seq<u8>),
    Fixed32(u32),
    /// A group: its contents are skipped, not kept.
    Group,
}

/// A field read from the wire: the field number and its value.
pub struct WireField {
    pub num: u64,
    pub value: WireValue,
}

/// The wire type code of a value.
pub open spec fn wire_type(w: WireValue) -> nat {
    match w {
        WireValue::Varint(_) => 0,
        WireValue::Fixed64(_) => 1,
        WireValue::Bytes(_) => 2,
        WireValue::Fixed32(_) => 5,
        WireValue::Group => 3,
    }
}

/// Parses the payload of a field of wire type `wt` at the start of `s`:
/// the value and the bytes it takes.
pub open spec fn parse_payload(s: Seq<u8>, wt: nat) -> Option<(WireValue, nat)> {
    if wt == 0 {
        match parse_varint(s) {
            Some((v, n)) => Some((WireValue::Varint(v as u64), n)),
            None => None,
        }
    } else if wt == 1 {
        if s.len() >= 8 {
            Some((WireValue::Fixed64(le_value(s.take(8)) as u64), 8))
        } else {
            None
        }
    } else if wt == 2 {
        match parse_varint(s) {
            Some((l, n)) => if n + l <= s.len() {
                Some((WireValue::Bytes(s.subrange(n as int, (n + l) as int)), n + l))
            } else {
                None
            },
            None => None,
        }
    } else if wt == 5 {
        if s.len() >= 4 {
            Some((WireValue::Fixed32(le_value(s.take(4)) as u32), 4))
        } else {
            None
        }
    } else {
        None
    }
}

/// Parses the field at the start of `s`: a tag (a varint that fits in 32
/// bits, with a non-zero field number and a known wire type) and its payload.
/// A group is skipped, up to its end tag, as buffa skips it, with groups
/// nesting at most `depth` deep.
pub open spec fn parse_field(s: Seq<u8>, depth: nat) -> Option<(WireField, nat)> {
    match parse_varint(s) {
        Some((t, n)) => if t > u32::MAX || t / 8 == 0 {
            None
        } else if t % 8 == 3 {
            match skipped_group_rest(s.skip(n as int), (t / 8) as u32, depth as u32) {
                Some(k) => if k <= s.len() - n {
                    Some((WireField { num: (t / 8) as u64, value: WireValue::Group }, (s.len() - k) as nat))
                } else {
                    None
                },
                None => None,
            }
        } else {
            match parse_payload(s.skip(n as int), t % 8) {
                Some((w, m)) => Some((WireField { num: (t / 8) as u64, value: w }, n + m)),
                None => None,
            }
        },
        None => None,
    }
}

/// The payload bytes of a value.
pub open spec fn payload_bytes(w: WireValue) -> Seq<u8> {
    match w {
        WireValue::Varint(v) => varint_bytes(v as nat),
        WireValue::Fixed64(v) => le_bytes(v as nat, 8),
        WireValue::Bytes(p) => varint_bytes(p.len()) + p,
        WireValue::Fixed32(v) => le_bytes(v as nat, 4),
        WireValue::Group => seq![],
    }
}

/// The bytes of a field: its tag, then its payload.
pub open spec fn field_bytes(f: WireField) -> Seq<u8> {
    varint_bytes((f.num * 8 + wire_type(f.value)) as nat) + payload_bytes(f.value)
}

/// The largest field number protobuf allows.
pub open spec fn max_field_number() -> nat {
    536870911
}

/// A field that can be written: a valid field number, a value that is not a
/// group, and a payload whose length fits in a varint.
pub open spec fn field_writable(f: WireField) -> bool {
    &&& 1 <= f.num <= max_field_number()
    &&& !(f.value is Group)
    &&& f.value matches WireValue::Bytes(p) ==> p.len() <= u64::MAX
}

/// Reading a written field gives the field back, whatever follows it.
pub proof fn lemma_field_roundtrip(f: WireField, rest: Seq<u8>, depth: nat)
    requires
        field_writable(f),
    ensures
        parse_field(field_bytes(f) + rest, depth) == Some((f, field_bytes(f).len())),
{
    let t = (f.num * 8 + wire_type(f.value)) as nat;
    let pb = payload_bytes(f.value);
    let s = field_bytes(f) + rest;
    assert(s =~= varint_bytes(t) + (pb + rest));
    lemma_varint_roundtrip(t, pb + rest);
    let (tt, n) = parse_varint(s).unwrap();
    assert(n == varint_bytes(t).len());
    assert(s.skip(n as int) =~= pb + rest);
    assert(t / 8 == f.num);
    assert(t % 8 == wire_type(f.value));
    match f.value {
        WireValue::Varint(v) => {
            lemma_varint_roundtrip(v as nat, rest);
        },
        WireValue::Fixed64(v) => {
            lemma_le_roundtrip(v as nat, 8);
            assert((pb + rest).take(8) =~= pb);
        },
        WireValue::Bytes(p) => {
            let lb = varint_bytes(p.len());
            assert(pb + rest =~= lb + (p + rest));
            lemma_varint_roundtrip(p.len(), p + rest);
            assert((pb + rest).subrange(lb.len() as int, (lb.len() + p.len()) as int) =~= p);
        },
        WireValue::Fixed32(v) => {
            lemma_le_roundtrip(v as nat, 4);
            assert((pb + rest).take(4) =~= pb);
        },
        WireValue::Group => {},
    }
}


/// A field payload as read from a buffer: scalar values, or the bounds of a
/// length-delimited payload inside the buffer.
pub enum Payload {
    Varint(u64),
    Fixed64(u64),
    Bytes(usize, usize),
    Fixed32(u32),
    Group,
}

/// The wire value that a payload read from `s` stands for.
pub open spec fn payload_value(p: Payload, s: Seq<u8>) -> WireValue {
    match p {
        Payload::Varint(v) => WireValue::Varint(v),
        Payload::Fixed64(v) => WireValue::Fixed64(v),
        Payload::Bytes(a, b) => WireValue::Bytes(s.subrange(a as int, b as int)),
        Payload::Fixed32(v) => WireValue::Fixed32(v),
        Payload::Group => WireValue::Group,
    }
}

/// A field read from bytes takes at least one byte and no more than there are.
pub proof fn lemma_parse_field_bounds(s: Seq<u8>, depth: nat)
    ensures
        parse_field(s, depth) matches Some((f, n)) ==> 1 <= n <= s.len(),
{
    lemma_parse_varint_at_bounds(s, 0);
    if let Some((t, n)) = parse_varint(s) {
        lemma_parse_varint_at_bounds(s.skip(n as int), 0);
    }
}

fn read_fixed(s: &[u8], pos: usize, width: usize) -> (r: u64)
    requires
        width == 4 || width == 8,
        pos + width <= s@.len(),
    ensures
        r == le_value(s@.subrange(pos as int, pos + width)),
        width == 4 ==> r <= u32::MAX,
{
    let ghost t = s@.subrange(pos as int, pos + width);
    let len = s.len();
    let mut v: u64 = 0;
    let mut i = width;
    while i > 0
        invariant
            i <= width,
            len == s@.len(),
            width == 4 || width == 8,
            pos + width <= s@.len(),
            t == s@.subrange(pos as int, pos + width),
            v == le_value(t.skip(i as int)),
            v < pow256((width - i) as nat),
        decreases i,
    {
        i = i - 1;
        let b = s[pos + i];
        proof {
            assert(t.skip(i as int).drop_first() =~= t.skip(i + 1));
            assert(t.skip(i as int)[0] == b);
            lemma_pow256_step((width - i - 1) as nat);
        }
        v = b as u64 + 256 * v;
    }
    assert(t.skip(0) =~= t);
    proof {
        lemma_pow256_step(3);
    }
    v
}

/// `256^n` for the byte counts of fixed-width values.
pub open spec fn pow256(n: nat) -> nat
    decreases n,
{
    if n == 0 { 1 } else { 256 * pow256((n - 1) as nat) }
}

proof fn lemma_pow256_step(n: nat)
    requires
        n < 8,
    ensures
        pow256(n + 1) == 256 * pow256(n),
        pow256(n + 1) <= 18446744073709551616,
        pow256(4) == 4294967296,
{
    reveal_with_fuel(pow256, 9);
}

/// Reads the field that starts at `pos` and ends no later than `end`, with
/// groups nesting at most `depth` deep: its number, its payload, and the
/// position after it.
pub fn read_field(s: &[u8], pos: usize, end: usize, depth: u32) -> (r: Option<(u64, Payload, usize, usize)>)
    requires
        pos <= end <= s@.len(),
    ensures
        match parse_field(s@.subrange(pos as int, end as int), depth as nat) {
            None => r.is_none(),
            Some((f, n)) => r matches Some((num, p, next, vstart)) && num == f.num && payload_value(
                p,
                s@,
            ) == f.value && next == pos + n && pos <= vstart <= next && (p matches Payload::Bytes(
                a,
                b,
            ) ==> vstart <= a <= b == next && parse_varint(s@.subrange(vstart as int, end as int))
                == Some(((b - a) as nat, (a - vstart) as nat))),
        },
{
    let ghost t = s@.subrange(pos as int, end as int);
    proof {
        lemma_parse_field_bounds(t, depth as nat);
        lemma_parse_varint_at_bounds(t, 0);
    }
    let (tag, n) = match read_varint(s, pos, end) {
        Some(x) => x,
        None => return None,
    };
    if tag > 4294967295 || tag / 8 == 0 {
        return None;
    }
    let num = tag / 8;
    let wt = tag % 8;
    let p = pos + n;
    let ghost u = t.skip(n as int);
    assert(u =~= s@.subrange(p as int, end as int));
    proof {
        lemma_parse_varint_at_bounds(u, 0);
    }
    if wt == 3 {
        return match skip_group(s, p, end, num as u32, depth) {
            Some(k) => Some((num, Payload::Group, end - k, p)),
            None => None,
        };
    }
    if wt == 0 {
        match read_varint(s, p, end) {
            Some((v, m)) => Some((num, Payload::Varint(v), p + m, p)),
            None => None,
        }
    } else if wt == 1 {
        if end - p >= 8 {
            let v = read_fixed(s, p, 8);
            assert(u.take(8) =~= s@.subrange(p as int, p + 8));
            Some((num, Payload::Fixed64(v), p + 8, p))
        } else {
            None
        }
    } else if wt == 2 {
        match read_varint(s, p, end) {
            Some((l, m)) => {
                if l <= (end - p - m) as u64 {
                    let a = p + m;
                    let b = a + l as usize;
                    assert(u.subrange(m as int, (m + l) as int) =~= s@.subrange(a as int, b as int));
                    Some((num, Payload::Bytes(a, b), b, p))
                } else {
                    None
                }
            },
            None => None,
        }
    } else if wt == 5 {
        if end - p >= 4 {
            let v = read_fixed(s, p, 4);
            assert(u.take(4) =~= s@.subrange(p as int, p + 4));
            Some((num, Payload::Fixed32(v as u32), p + 4, p))
        } else {
            None
        }
    } else {
        None
    }
}

/// Decodes a run of fields into a message, starting from `acc` and letting
/// `apply` take each field in turn; `None` when a field cannot be read or
/// `apply` refuses it.
pub open spec fn decode_fields<M>(
    s: Seq<u8>,
    depth: nat,
    acc: M,
    apply: spec_fn(M, WireField) -> Option<M>,
) -> Option<M>
    decreases s.len(),
{
    if s.len() == 0 {
        Some(acc)
    } else {
        match parse_field(s, depth) {
            Some((f, n)) => if 1 <= n <= s.len() {
                match apply(acc, f) {
                    Some(a) => decode_fields(s.skip(n as int), depth, a, apply),
                    None => None,
                }
            } else {
                None
            },
            None => None,
        }
    }
}

/// One step of [`decode_fields`] on non-empty bytes.
pub proof fn lemma_decode_fields_unfold<M>(
    s: Seq<u8>,
    depth: nat,
    acc: M,
    apply: spec_fn(M, WireField) -> Option<M>,
)
    requires
        s.len() > 0,
    ensures
        decode_fields(s, depth, acc, apply) == match parse_field(s, depth) {
            Some((f, n)) => match apply(acc, f) {
                Some(a) => decode_fields(s.skip(n as int), depth, a, apply),
                None => None,
            },
            None => None,
        },
{
    lemma_parse_field_bounds(s, depth);
}

/// Applies a list of fields in order.
pub open spec fn apply_all<M>(
    fs: Seq<WireField>,
    acc: M,
    apply: spec_fn(M, WireField) -> Option<M>,
) -> Option<M>
    decreases fs.len(),
{
    if fs.len() == 0 {
        Some(acc)
    } else {
        match apply(acc, fs[0]) {
            Some(a) => apply_all(fs.drop_first(), a, apply),
            None => None,
        }
    }
}

/// The bytes of a list of fields, one after the other.
pub open spec fn fields_bytes(fs: Seq<WireField>) -> Seq<u8>
    decreases fs.len(),
{
    if fs.len() == 0 {
        seq![]
    } else {
        field_bytes(fs[0]) + fields_bytes(fs.drop_first())
    }
}

/// Every field of the list can be written.
pub open spec fn fields_writable(fs: Seq<WireField>) -> bool {
    forall|i: int| 0 <= i < fs.len() ==> field_writable(#[trigger] fs[i])
}

/// Decoding the bytes of written fields applies exactly those fields.
pub proof fn lemma_decode_fields_bytes<M>(
    fs: Seq<WireField>,
    depth: nat,
    acc: M,
    apply: spec_fn(M, WireField) -> Option<M>,
)
    requires
        fields_writable(fs),
    ensures
        decode_fields(fields_bytes(fs), depth, acc, apply) == apply_all(fs, acc, apply),
    decreases fs.len(),
{
    if fs.len() > 0 {
        let f = fs[0];
        let rest = fields_bytes(fs.drop_first());
        let s = fields_bytes(fs);
        assert(field_writable(fs[0]));
        lemma_field_roundtrip(f, rest, depth);
        lemma_varint_bytes_len((f.num * 8 + wire_type(f.value)) as nat);
        assert(s.skip(field_bytes(f).len() as int) =~= rest);
        assert(fields_writable(fs.drop_first())) by {
            assert forall|i: int| 0 <= i < fs.drop_first().len() implies field_writable(
                #[trigger] fs.drop_first()[i],
            ) by {
                assert(fs.drop_first()[i] == fs[i + 1]);
            }
        }
        if let Some(a) = apply(acc, f) {
            lemma_decode_fields_bytes(fs.drop_first(), depth, a, apply);
        }
    }
}

/// The bytes of two runs of fields follow each other.
pub proof fn lemma_fields_bytes_concat(a: Seq<WireField>, b: Seq<WireField>)
    ensures
        fields_bytes(a + b) == fields_bytes(a) + fields_bytes(b),
    decreases a.len(),
{
    if a.len() == 0 {
        assert(a + b =~= b);
        assert(fields_bytes(a) + fields_bytes(b) =~= fields_bytes(b));
    } else {
        assert((a + b).drop_first() =~= a.drop_first() + b);
        lemma_fields_bytes_concat(a.drop_first(), b);
        assert((a + b)[0] == a[0]);
        assert(fields_bytes(a + b) =~= field_bytes(a[0]) + (fields_bytes(a.drop_first())
            + fields_bytes(b)));
    }
}

/// Applying two runs of fields applies the first, then the second.
pub proof fn lemma_apply_all_concat<M>(
    a: Seq<WireField>,
    b: Seq<WireField>,
    acc: M,
    apply: spec_fn(M, WireField) -> Option<M>,
)
    ensures
        apply_all(a + b, acc, apply) == match apply_all(a, acc, apply) {
            Some(m) => apply_all(b, m, apply),
            None => None,
        },
    decreases a.len(),
{
    if a.len() == 0 {
        assert(a + b =~= b);
    } else {
        assert((a + b).drop_first() =~= a.drop_first() + b);
        assert((a + b)[0] == a[0]);
        if let Some(m) = apply(acc, a[0]) {
            lemma_apply_all_concat(a.drop_first(), b, m, apply);
        }
    }
}

/// The bytes of a single field.
pub proof fn lemma_fields_bytes_single(f: WireField)
    ensures
        fields_bytes(seq![f]) == field_bytes(f),
{
    assert(seq![f].drop_first() =~= Seq::<WireField>::empty());
    assert(seq![f][0] == f);
    assert(fields_bytes(seq![f].drop_first()) == Seq::<u8>::empty());
    assert(field_bytes(f) + Seq::<u8>::empty() =~= field_bytes(f));
}

/// Decodes a packed run of varints, keeping the low 32 bits of each.
pub open spec fn parse_packed(p: Seq<u8>) -> Option<Seq<u32>>
    decreases p.len(),
{
    if p.len() == 0 {
        Some(seq![])
    } else {
        match parse_varint(p) {
            Some((v, n)) => if 1 <= n <= p.len() {
                match parse_packed(p.skip(n as int)) {
                    Some(r) => Some(seq![low32(v)] + r),
                    None => None,
                }
            } else {
                None
            },
            None => None,
        }
    }
}

/// The packed encoding of 32-bit values: their varints, one after the other.
pub open spec fn packed_bytes(vs: Seq<u32>) -> Seq<u8>
    decreases vs.len(),
{
    if vs.len() == 0 {
        seq![]
    } else {
        varint_bytes(vs[0] as nat) + packed_bytes(vs.drop_first())
    }
}

/// A packed run of varints reads back as the values it encodes.
pub proof fn lemma_packed_roundtrip(vs: Seq<u32>)
    ensures
        parse_packed(packed_bytes(vs)) == Some(vs),
    decreases vs.len(),
{
    if vs.len() > 0 {
        let rest = packed_bytes(vs.drop_first());
        let p = packed_bytes(vs);
        lemma_varint_roundtrip(vs[0] as nat, rest);
        lemma_varint_bytes_len(vs[0] as nat);
        assert(p.skip(varint_bytes(vs[0] as nat).len() as int) =~= rest);
        lemma_packed_roundtrip(vs.drop_first());
        assert(seq![low32(vs[0] as nat)] + vs.drop_first() =~= vs);
    }
}

/// Packing one more value adds its varint after the others.
pub proof fn lemma_packed_bytes_push(vs: Seq<u32>, v: u32)
    ensures
        packed_bytes(vs.push(v)) == packed_bytes(vs) + varint_bytes(v as nat),
    decreases vs.len(),
{
    if vs.len() == 0 {
        let w = vs.push(v);
        assert(w.drop_first() =~= Seq::<u32>::empty());
        assert(packed_bytes(w.drop_first()) == Seq::<u8>::empty());
        assert(w[0] == v);
        assert(packed_bytes(w) =~= varint_bytes(v as nat) + Seq::<u8>::empty());
        assert(packed_bytes(vs) == Seq::<u8>::empty());
        assert(packed_bytes(w) =~= packed_bytes(vs) + varint_bytes(v as nat));
    } else {
        assert(vs.push(v).drop_first() =~= vs.drop_first().push(v));
        lemma_packed_bytes_push(vs.drop_first(), v);
        assert(packed_bytes(vs.push(v)) =~= varint_bytes(vs[0] as nat) + (packed_bytes(
            vs.drop_first(),
        ) + varint_bytes(v as nat)));
    }
}


/// Appends the `n` little-endian bytes of `v`.
fn write_le(out: &mut Vec<u8>, v: u64, n: usize)
    requires
        n <= 8,
    ensures
        final(out)@ == old(out)@ + le_bytes(v as nat, n as nat),
{
    let ghost start = out@;
    let mut x = v;
    let mut i: usize = 0;
    while i < n
        invariant
            i <= n,
            out@ + le_bytes(x as nat, (n - i) as nat) == start + le_bytes(v as nat, n as nat),
        decreases n - i,
    {
        let b = (x % 256) as u8;
        proof {
            assert(le_bytes(x as nat, (n - i) as nat) == seq![b] + le_bytes(
                (x / 256) as nat,
                (n - i - 1) as nat,
            ));
            assert(out@.push(b) + le_bytes((x / 256) as nat, (n - i - 1) as nat) =~= out@ + (
            seq![b] + le_bytes((x / 256) as nat, (n - i - 1) as nat)));
        }
        out.push(b);
        x = x / 256;
        i = i + 1;
    }
    assert(le_bytes(x as nat, 0) =~= Seq::<u8>::empty());
    assert(out@ =~= start + le_bytes(v as nat, n as nat));
}

/// Appends a field tag.
fn write_tag(out: &mut Vec<u8>, num: u64, wt: u64)
    requires
        1 <= num <= max_field_number(),
        wt <= 5,
    ensures
        final(out)@ == old(out)@ + varint_bytes((num * 8 + wt) as nat),
{
    write_varint(out, num * 8 + wt);
}

/// Appends a varint field.
pub fn write_varint_field(out: &mut Vec<u8>, num: u64, v: u64)
    requires
        1 <= num <= max_field_number(),
    ensures
        final(out)@ == old(out)@ + field_bytes(WireField { num, value: WireValue::Varint(v) }),
{
    let ghost start = out@;
    write_tag(out, num, 0);
    write_varint(out, v);
    assert(out@ =~= start + field_bytes(WireField { num, value: WireValue::Varint(v) }));
}

/// Appends a 32-bit fixed-width field.
pub fn write_fixed32_field(out: &mut Vec<u8>, num: u64, v: u32)
    requires
        1 <= num <= max_field_number(),
    ensures
        final(out)@ == old(out)@ + field_bytes(WireField { num, value: WireValue::Fixed32(v) }),
{
    let ghost start = out@;
    write_tag(out, num, 5);
    write_le(out, v as u64, 4);
    assert(out@ =~= start + field_bytes(WireField { num, value: WireValue::Fixed32(v) }));
}

/// Appends a 64-bit fixed-width field.
pub fn write_fixed64_field(out: &mut Vec<u8>, num: u64, v: u64)
    requires
        1 <= num <= max_field_number(),
    ensures
        final(out)@ == old(out)@ + field_bytes(WireField { num, value: WireValue::Fixed64(v) }),
{
    let ghost start = out@;
    write_tag(out, num, 1);
    write_le(out, v, 8);
    assert(out@ =~= start + field_bytes(WireField { num, value: WireValue::Fixed64(v) }));
}

/// Appends a length-delimited field.
pub fn write_bytes_field(out: &mut Vec<u8>, num: u64, payload: &[u8])
    requires
        1 <= num <= max_field_number(),
    ensures
        final(out)@ == old(out)@ + field_bytes(WireField { num, value: WireValue::Bytes(payload@) }),
{
    let ghost start = out@;
    write_tag(out, num, 2);
    write_varint(out, payload.len() as u64);
    let ghost mid = out@;
    let mut i: usize = 0;
    while i < payload.len()
        invariant
            i <= payload@.len(),
            out@ == mid + payload@.take(i as int),
        decreases payload@.len() - i,
    {
        out.push(payload[i]);
        i = i + 1;
        assert(out@ =~= mid + payload@.take(i as int));
    }
    assert(payload@.take(i as int) =~= payload@);
    assert(out@ =~= start + field_bytes(WireField { num, value: WireValue::Bytes(payload@) }));
}

/// Appends the packed encoding of `vs`.
pub fn write_packed(out: &mut Vec<u8>, vs: &[u32])
    ensures
        final(out)@ == old(out)@ + packed_bytes(vs@),
{
    let ghost start = out@;
    let mut i: usize = 0;
    while i < vs.len()
        invariant
            i <= vs@.len(),
            out@ == start + packed_bytes(vs@.take(i as int)),
        decreases vs@.len() - i,
    {
        let ghost before = out@;
        write_varint(out, vs[i] as u64);
        proof {
            assert(vs@.take(i + 1) =~= vs@.take(i as int).push(vs[i as int]));
            lemma_packed_bytes_push(vs@.take(i as int), vs[i as int]);
            assert(out@ =~= start + packed_bytes(vs@.take(i + 1)));
        }
        i = i + 1;
    }
    assert(vs@.take(i as int) =~= vs@);
}

/// Reads a packed run of varints from `s[start..end]`, keeping the low 32
/// bits of each, and appends them to `out`.
pub fn read_packed(s: &[u8], start: usize, end: usize, out: &mut Vec<u32>) -> (ok: bool)
    requires
        start <= end <= s@.len(),
    ensures
        match parse_packed(s@.subrange(start as int, end as int)) {
            Some(vs) => ok && final(out)@ == old(out)@ + vs,
            None => !ok,
        },
{
    let ghost whole = s@.subrange(start as int, end as int);
    let ghost init = out@;
    let mut pos = start;
    while pos < end
        invariant
            start <= pos <= end <= s@.len(),
            whole == s@.subrange(start as int, end as int),
            match parse_packed(whole) {
                Some(vs) => match parse_packed(s@.subrange(pos as int, end as int)) {
                    Some(ws) => init + vs == out@ + ws,
                    None => false,
                },
                None => parse_packed(s@.subrange(pos as int, end as int)) is None,
            },
        decreases end - pos,
    {
        let ghost t = s@.subrange(pos as int, end as int);
        proof {
            lemma_parse_varint_at_bounds(t, 0);
        }
        match read_varint(s, pos, end) {
            Some((v, n)) => {
                assert(t.skip(n as int) =~= s@.subrange(pos + n, end as int));
                let ghost before = out@;
                out.push(truncate_u32(v));
                proof {
                    if let Some(ws) = parse_packed(t) {
                        let ws2 = parse_packed(t.skip(n as int)).unwrap();
                        assert(ws == seq![low32(v as nat)] + ws2);
                        assert(out@ + ws2 =~= before + ws);
                    }
                }
                pos = pos + n;
            },
            None => {
                return false;
            },
        }
    }
    assert(s@.subrange(pos as int, end as int) =~= Seq::<u8>::empty());
    assert(out@ =~= out@ + Seq::<u32>::empty());
    true
}

} // verus!
