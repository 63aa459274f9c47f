//! Decoding primitives, bit fields, layouts and packet definitions from bytes.
use crate::prim::{size_bits, BitPrim, Name, size_bytes, prim_bytes, Endianness, FloatPrim, IntPrim, IntSize, NumBytes, Prim, Signedness};
use crate::types::{LocItem, LocLayout, Point};
use crate::value::{insert_spec, map_model, model_insert, EntryModel, MapModel, Value, ValueEntry, ValueMap};
use crate::wire::{bits_be, read_bits, be_nat, le_nat, get_u16_be, get_u16_le, get_u32_be, get_u32_le, get_u64_be, get_u64_le};
use vstd::arithmetic::power2::{lemma2_to64, lemma_pow2_strictly_increases, lemma_pow2_unfold, pow2};
use vstd::prelude::*;

verus! {

/// Why a decode failed.
#[derive(Clone, Copy, Debug, PartialEq, Eq, Structural)]
pub enum DecodeError {
    /// Fewer bytes remain than the field needs.
    Truncated,
    /// An enumeration's wire value has no name; it carries that value.
    UnknownEnumValue(i128),
    /// A bit field is wider than its integer type or runs past its span.
    BadBitField,
    /// A variable array's count is not a non-negative integer.
    BadArrayCount,
    /// A branch node's discriminant matches none of its labels, under the strict policy.
    NoBranchMatch,
}

/// Half the range of an integer size: the unsigned values from here on are negative
/// when read as two's complement.
pub open spec fn half_range(s: IntSize) -> int {
    match s {
        IntSize::Bits8 => 0x80,
        IntSize::Bits16 => 0x8000,
        IntSize::Bits32 => 0x8000_0000,
        IntSize::Bits64 => 0x8000_0000_0000_0000,
    }
}

/// The integer that the unsigned wire value `raw` stands for under `ip`.
pub open spec fn int_number(ip: IntPrim, raw: int) -> int {
    if ip.signedness == Signedness::Signed && raw >= half_range(ip.size) {
        raw - 2 * half_range(ip.size)
    } else {
        raw
    }
}

/// The value of an integer of type `ip` whose number is `n`.
pub open spec fn int_value(ip: IntPrim, n: int) -> Value {
    match (ip.signedness, ip.size) {
        (Signedness::Unsigned, IntSize::Bits8) => Value::U8(n as u8),
        (Signedness::Unsigned, IntSize::Bits16) => Value::U16(n as u16),
        (Signedness::Unsigned, IntSize::Bits32) => Value::U32(n as u32),
        (Signedness::Unsigned, IntSize::Bits64) => Value::U64(n as u64),
        (Signedness::Signed, IntSize::Bits8) => Value::I8(n as i8),
        (Signedness::Signed, IntSize::Bits16) => Value::I16(n as i16),
        (Signedness::Signed, IntSize::Bits32) => Value::I32(n as i32),
        (Signedness::Signed, IntSize::Bits64) => Value::I64(n as i64),
    }
}

/// The unsigned reading of the bytes `s` in the order `e` gives.
pub open spec fn ordered_nat(e: Endianness, s: Seq<u8>) -> nat {
    match e {
        Endianness::BigEndian => be_nat(s),
        Endianness::LittleEndian => le_nat(s),
    }
}

/// The `w` bytes of `s` at `pos`.
pub open spec fn field(s: Seq<u8>, pos: int, w: nat) -> Seq<u8> {
    s.subrange(pos, pos + w)
}

/// Whether `w` bytes are there at `pos`.
pub open spec fn fits(s: Seq<u8>, pos: int, w: nat) -> bool {
    0 <= pos && pos + w <= s.len()
}

/// The number an integer of type `ip` at `pos` stands for.
pub open spec fn int_at(ip: IntPrim, s: Seq<u8>, pos: int) -> int {
    int_number(ip, ordered_nat(ip.endianness, field(s, pos, size_bytes(ip.size))) as int)
}

/// The value of the primitive `p` at `pos`, where its bytes are there.
pub open spec fn prim_at(p: Prim, s: Seq<u8>, pos: int) -> Result<Value, DecodeError> {
    match p {
        Prim::Int(ip) => Ok(int_value(ip, int_at(ip, s, pos))),
        Prim::Float(FloatPrim::F32(e)) => Ok(Value::F32(ordered_nat(e, field(s, pos, 4)) as u32)),
        Prim::Float(FloatPrim::F64(e)) => Ok(Value::F64(ordered_nat(e, field(s, pos, 8)) as u64)),
        Prim::Enum(en) => {
            let n = int_at(en.int_prim, s, pos);
            if i64::MIN <= n <= i64::MAX && en.map@.contains_key(n as i64) {
                Ok(Value::Enum(en.map@[n as i64], n as i64))
            } else {
                Err(DecodeError::UnknownEnumValue(n as i128))
            }
        },
    }
}

/// Decoding `p` at `pos`: its value, or `Truncated` where its bytes are not all there.
pub open spec fn prim_decode(p: Prim, s: Seq<u8>, pos: int) -> Result<Value, DecodeError> {
    if fits(s, pos, prim_bytes(p)) {
        prim_at(p, s, pos)
    } else {
        Err(DecodeError::Truncated)
    }
}

proof fn lemma_be_bound(s: Seq<u8>)
    ensures
        be_nat(s) < pow256(s.len()),
    decreases s.len(),
{
    if s.len() > 0 {
        lemma_be_bound(s.drop_last());
    }
}

pub open spec fn pow256(n: nat) -> nat
    decreases n,
{
    if n == 0 {
        1
    } else {
        256 * pow256((n - 1) as nat)
    }
}

/// The unsigned reading of the `w` bytes at `pos`, in the order `e` gives.
fn read_unsigned(e: Endianness, w: IntSize, bytes: &[u8], pos: usize) -> (r: u64)
    requires
        fits(bytes@, pos as int, size_bytes(w)),
    ensures
        r as nat == ordered_nat(e, field(bytes@, pos as int, size_bytes(w))),
{
    match w {
        IntSize::Bits8 => {
            let ghost s = field(bytes@, pos as int, 1);
            assert(s.drop_last() =~= Seq::<u8>::empty() && s.drop_first() =~= Seq::<u8>::empty());
            assert(be_nat(Seq::<u8>::empty()) == 0 && le_nat(Seq::<u8>::empty()) == 0);
            assert(s.last() == bytes@[pos as int] && s[0] == bytes@[pos as int]);
            bytes[pos] as u64
        },
        IntSize::Bits16 => match e {
            Endianness::BigEndian => get_u16_be(bytes, pos) as u64,
            Endianness::LittleEndian => get_u16_le(bytes, pos) as u64,
        },
        IntSize::Bits32 => match e {
            Endianness::BigEndian => get_u32_be(bytes, pos) as u64,
            Endianness::LittleEndian => get_u32_le(bytes, pos) as u64,
        },
        IntSize::Bits64 => match e {
            Endianness::BigEndian => get_u64_be(bytes, pos),
            Endianness::LittleEndian => get_u64_le(bytes, pos),
        },
    }
}

/// The value of an integer of type `ip` read as the unsigned `raw`.
fn int_from_raw(ip: &IntPrim, raw: u64) -> (r: Value)
    requires
        raw < 2 * half_range(ip.size),
    ensures
        r == int_value(*ip, int_number(*ip, raw as int)),
{
    match ip.signedness {
        Signedness::Unsigned => match ip.size {
            IntSize::Bits8 => Value::U8(raw as u8),
            IntSize::Bits16 => Value::U16(raw as u16),
            IntSize::Bits32 => Value::U32(raw as u32),
            IntSize::Bits64 => Value::U64(raw),
        },
        Signedness::Signed => match ip.size {
            IntSize::Bits8 => Value::I8(
                if raw >= 0x80 {
                    (raw as i16 - 0x100) as i8
                } else {
                    raw as i8
                },
            ),
            IntSize::Bits16 => Value::I16(
                if raw >= 0x8000 {
                    (raw as i32 - 0x1_0000) as i16
                } else {
                    raw as i16
                },
            ),
            IntSize::Bits32 => Value::I32(
                if raw >= 0x8000_0000 {
                    (raw as i64 - 0x1_0000_0000) as i32
                } else {
                    raw as i32
                },
            ),
            IntSize::Bits64 => Value::I64(
                if raw >= 0x8000_0000_0000_0000 {
                    (raw as i128 - 0x1_0000_0000_0000_0000) as i64
                } else {
                    raw as i64
                },
            ),
        },
    }
}

proof fn lemma_ordered_bound(e: Endianness, s: Seq<u8>)
    ensures
        ordered_nat(e, s) < pow256(s.len()),
{
    lemma_be_bound(s);
    lemma_le_bound(s);
}

proof fn lemma_le_bound(s: Seq<u8>)
    ensures
        le_nat(s) < pow256(s.len()),
    decreases s.len(),
{
    if s.len() > 0 {
        lemma_le_bound(s.drop_first());
    }
}

proof fn lemma_width_range(w: IntSize)
    ensures
        pow256(size_bytes(w)) == 2 * half_range(w),
{
    reveal_with_fuel(pow256, 9);
}

/// Decodes an integer of type `int_prim` at `*pos` and moves `*pos` past it.
pub fn decode_int(int_prim: &IntPrim, bytes: &[u8], pos: &mut usize) -> (r: Result<Value, DecodeError>)
    ensures
        fits(bytes@, *old(pos) as int, size_bytes(int_prim.size)) ==> r == Ok::<Value, DecodeError>(
            int_value(*int_prim, int_at(*int_prim, bytes@, *old(pos) as int)),
        ) && *final(pos) == *old(pos) + size_bytes(int_prim.size),
        !fits(bytes@, *old(pos) as int, size_bytes(int_prim.size)) ==> r == Err::<Value, DecodeError>(
            DecodeError::Truncated,
        ) && *final(pos) == *old(pos),
{
    let w = int_prim.size.num_bytes() as usize;
    if w > bytes.len() || *pos > bytes.len() - w {
        return Err(DecodeError::Truncated);
    }
    let raw = read_unsigned(int_prim.endianness, int_prim.size, bytes, *pos);
    proof {
        lemma_ordered_bound(int_prim.endianness, field(bytes@, *pos as int, size_bytes(int_prim.size)));
        lemma_width_range(int_prim.size);
    }
    *pos = *pos + w;
    Ok(int_from_raw(int_prim, raw))
}


/// The number that an integer value stands for.
fn int_number_of(v: &Value) -> (r: i128)
    ensures
        v matches Value::U8(x) ==> r == x,
        v matches Value::U16(x) ==> r == x,
        v matches Value::U32(x) ==> r == x,
        v matches Value::U64(x) ==> r == x,
        v matches Value::I8(x) ==> r == x,
        v matches Value::I16(x) ==> r == x,
        v matches Value::I32(x) ==> r == x,
        v matches Value::I64(x) ==> r == x,
        v matches Value::F32(_) ==> r == 0,
        v matches Value::F64(_) ==> r == 0,
        v matches Value::Enum(_, x) ==> r == x,
{
    match v {
        Value::U8(x) => *x as i128,
        Value::U16(x) => *x as i128,
        Value::U32(x) => *x as i128,
        Value::U64(x) => *x as i128,
        Value::I8(x) => *x as i128,
        Value::I16(x) => *x as i128,
        Value::I32(x) => *x as i128,
        Value::I64(x) => *x as i128,
        Value::F32(_) => 0,
        Value::F64(_) => 0,
        Value::Enum(_, x) => *x as i128,
    }
}

proof fn lemma_int_value_number(ip: IntPrim, n: int)
    requires
        int_number(ip, 0) == 0,
        ip.signedness == Signedness::Unsigned ==> 0 <= n < 2 * half_range(ip.size),
        ip.signedness == Signedness::Signed ==> -half_range(ip.size) <= n < half_range(ip.size),
    ensures
        int_value(ip, n) matches Value::U8(x) ==> x == n,
        int_value(ip, n) matches Value::U16(x) ==> x == n,
        int_value(ip, n) matches Value::U32(x) ==> x == n,
        int_value(ip, n) matches Value::U64(x) ==> x == n,
        int_value(ip, n) matches Value::I8(x) ==> x == n,
        int_value(ip, n) matches Value::I16(x) ==> x == n,
        int_value(ip, n) matches Value::I32(x) ==> x == n,
        int_value(ip, n) matches Value::I64(x) ==> x == n,
        !(int_value(ip, n) is F32 || int_value(ip, n) is F64 || int_value(ip, n) is Enum),
{
}

/// Decodes the primitive `prim` at `*pos` and, on success, moves `*pos` past it.
pub fn decode_prim(prim: &Prim, bytes: &[u8], pos: &mut usize) -> (r: Result<Value, DecodeError>)
    ensures
        r == prim_decode(*prim, bytes@, *old(pos) as int),
        r is Ok ==> *final(pos) == *old(pos) + prim_bytes(*prim),
        r is Err ==> *final(pos) == *old(pos),
{
    match prim {
        Prim::Int(int_prim) => decode_int(int_prim, bytes, pos),
        Prim::Float(float_prim) => {
            let (w, e) = match float_prim {
                FloatPrim::F32(e) => (IntSize::Bits32, *e),
                FloatPrim::F64(e) => (IntSize::Bits64, *e),
            };
            let n = size_bytes_exec(w);
            if n > bytes.len() || *pos > bytes.len() - n {
                return Err(DecodeError::Truncated);
            }
            let raw = read_unsigned(e, w, bytes, *pos);
            proof {
                lemma_ordered_bound(e, field(bytes@, *pos as int, size_bytes(w)));
                lemma_width_range(w);
            }
            *pos = *pos + n;
            match w {
                IntSize::Bits32 => Ok(Value::F32(raw as u32)),
                _ => Ok(Value::F64(raw)),
            }
        },
        Prim::Enum(en) => {
            let start = *pos;
            let iv = decode_int(&en.int_prim, bytes, pos);
            match iv {
                Err(err) => Err(err),
                Ok(v) => {
                    let n = int_number_of(&v);
                    proof {
                        let raw = ordered_nat(en.int_prim.endianness, field(bytes@, start as int, size_bytes(en.int_prim.size)));
                        lemma_ordered_bound(en.int_prim.endianness, field(bytes@, start as int, size_bytes(en.int_prim.size)));
                        lemma_width_range(en.int_prim.size);
                        lemma_int_value_number(en.int_prim, int_at(en.int_prim, bytes@, start as int));
                    }
                    if n < -0x8000_0000_0000_0000 || n > 0x7fff_ffff_ffff_ffff {
                        *pos = start;
                        return Err(DecodeError::UnknownEnumValue(n));
                    }
                    let code = n as i64;
                    match en.map.get(&code) {
                        Some(name) => Ok(Value::Enum(name.clone(), code)),
                        None => {
                            *pos = start;
                            Err(DecodeError::UnknownEnumValue(n))
                        },
                    }
                },
            }
        },
    }
}

fn size_bytes_exec(w: IntSize) -> (r: usize)
    ensures
        r == size_bytes(w),
{
    w.num_bytes() as usize
}


/// Decoding one located item: its primitive at its own offset, named by the last
/// segment of its path.
pub open spec fn loc_item_decode(li: LocItem, s: Seq<u8>) -> Result<Value, DecodeError> {
    prim_decode(li.typ, s, li.loc as int)
}

/// The point that a located item gives when its value is `v`.
pub open spec fn point_is(p: Point, li: LocItem, v: Value) -> bool {
    p.name@ == li.name@.last()@ && p.val == v
}

/// Decodes one located item from a record, at the item's own offset.
pub fn decode_loc_item(loc_item: &LocItem, bytes: &[u8]) -> (r: Result<Point, DecodeError>)
    requires
        loc_item.name@.len() > 0,
    ensures
        r matches Ok(p) ==> loc_item_decode(*loc_item, bytes@) matches Ok(v) && point_is(p, *loc_item, v),
        r matches Err(e) ==> loc_item_decode(*loc_item, bytes@) == Err::<Value, DecodeError>(e),
{
    let n = bytes.len();
    if loc_item.loc > usize::MAX as u64 {
        assert(n <= usize::MAX);
        return Err(DecodeError::Truncated);
    }
    let mut pos = loc_item.loc as usize;
    match decode_prim(&loc_item.typ, bytes, &mut pos) {
        Ok(v) => {
            let last = loc_item.name.len() - 1;
            Ok(Point::new(loc_item.name[last].clone(), v))
        },
        Err(e) => Err(e),
    }
}

/// Every located item decodes from the record `s`.
pub open spec fn all_decode(items: Seq<LocItem>, s: Seq<u8>) -> bool {
    forall|i: int| 0 <= i < items.len() ==> (#[trigger] loc_item_decode(items[i], s)) is Ok
}

/// Decodes a record by its located layout: one point per located item, in order; where
/// an item does not decode, the error of the first such item.
pub fn decode_loc_layout(loc_layout: &LocLayout, bytes: &[u8]) -> (r: Result<Vec<Point>, DecodeError>)
    requires
        forall|i: int| 0 <= i < loc_layout.loc_items@.len() ==> (#[trigger] loc_layout.loc_items@[i]).name@.len() > 0,
    ensures
        r is Ok <==> all_decode(loc_layout.loc_items@, bytes@),
        r matches Ok(points) ==> points@.len() == loc_layout.loc_items@.len() && forall|i: int|
            0 <= i < points@.len() ==> point_is(
                #[trigger] points@[i],
                loc_layout.loc_items@[i],
                loc_item_decode(loc_layout.loc_items@[i], bytes@)->Ok_0,
            ),
        r matches Err(e) ==> exists|i: int|
            0 <= i < loc_layout.loc_items@.len() && #[trigger] loc_item_decode(loc_layout.loc_items@[i], bytes@)
                == Err::<Value, DecodeError>(e) && forall|k: int|
                0 <= k < i ==> (#[trigger] loc_item_decode(loc_layout.loc_items@[k], bytes@)) is Ok,
{
    let items = &loc_layout.loc_items;
    let mut points: Vec<Point> = Vec::new();
    let mut i: usize = 0;
    while i < items.len()
        invariant
            i <= items@.len(),
            *items == loc_layout.loc_items,
            forall|k: int| 0 <= k < items@.len() ==> (#[trigger] items@[k]).name@.len() > 0,
            points@.len() == i,
            forall|k: int| 0 <= k < i ==> (#[trigger] loc_item_decode(items@[k], bytes@)) is Ok,
            forall|k: int|
                0 <= k < i ==> point_is(
                    #[trigger] points@[k],
                    items@[k],
                    loc_item_decode(items@[k], bytes@)->Ok_0,
                ),
        decreases items.len() - i,
    {
        match decode_loc_item(&items[i], bytes) {
            Ok(p) => {
                points.push(p);
            },
            Err(e) => {
                assert(loc_item_decode(items@[i as int], bytes@) == Err::<Value, DecodeError>(e));
                return Err(e);
            },
        }
        i = i + 1;
    }
    Ok(points)
}


/// The value of a bit field of `width` bits read as the unsigned `raw`: sign-extended
/// from its top bit where its type is signed.
pub open spec fn bit_value(ip: IntPrim, width: nat, raw: nat) -> Value {
    let n = if ip.signedness == Signedness::Signed && width > 0 && raw >= pow2((width - 1) as nat) {
        raw - pow2(width)
    } else {
        raw as int
    };
    int_value(ip, n)
}

/// The bit offset of entry `i`: the widths of the entries before it.
pub open spec fn bit_offset(entries: Seq<(Name, u32, IntPrim)>, i: int) -> nat
    decreases i,
{
    if i <= 0 || i > entries.len() {
        0
    } else {
        bit_offset(entries, i - 1) + entries[i - 1].1 as nat
    }
}

/// Each entry fits its integer type, and all of them fit the span of `span_len` bytes.
pub open spec fn bit_fields_fit(entries: Seq<(Name, u32, IntPrim)>, span_len: nat) -> bool {
    &&& forall|i: int| 0 <= i < entries.len() ==> (#[trigger] entries[i]).1 <= size_bits(entries[i].2.size)
    &&& bit_offset(entries, entries.len() as int) <= 8 * span_len
}

/// The value of entry `i` of the bit fields over `span`.
pub open spec fn bit_field_value(entries: Seq<(Name, u32, IntPrim)>, span: Seq<u8>, i: int) -> Value {
    bit_value(
        entries[i].2,
        entries[i].1 as nat,
        bits_be(span, bit_offset(entries, i) as int, entries[i].1 as nat),
    )
}

/// The entries of a map after setting the first `i` bit fields, in order.
pub open spec fn with_bit_fields(
    es: Seq<(Name, ValueEntry)>,
    entries: Seq<(Name, u32, IntPrim)>,
    span: Seq<u8>,
    i: int,
) -> Seq<(Name, ValueEntry)>
    decreases i,
{
    if i <= 0 || i > entries.len() {
        es
    } else {
        insert_spec(
            with_bit_fields(es, entries, span, i - 1),
            entries[i - 1].0,
            ValueEntry::Leaf(bit_field_value(entries, span, i - 1)),
        )
    }
}

/// The model of a map after setting the first `i` bit fields, in order.
pub open spec fn model_bit_fields(
    es: MapModel,
    entries: Seq<(Name, u32, IntPrim)>,
    span: Seq<u8>,
    i: int,
) -> MapModel
    decreases i,
{
    if i <= 0 || i > entries.len() {
        es
    } else {
        model_insert(
            model_bit_fields(es, entries, span, i - 1),
            entries[i - 1].0@,
            EntryModel::Leaf(bit_field_value(entries, span, i - 1)),
        )
    }
}

proof fn lemma_bits_bound(s: Seq<u8>, start: int, n: nat)
    ensures
        bits_be(s, start, n) < pow2(n),
    decreases n,
{
    if n > 0 {
        lemma_bits_bound(s, start, (n - 1) as nat);
        lemma_pow2_unfold(n);
    } else {
        lemma2_to64();
    }
}

proof fn lemma_bit_offset_mono(entries: Seq<(Name, u32, IntPrim)>, i: int, j: int)
    requires
        0 <= i <= j <= entries.len(),
    ensures
        bit_offset(entries, i) <= bit_offset(entries, j),
    decreases j - i,
{
    if i < j {
        lemma_bit_offset_mono(entries, i, j - 1);
    }
}

/// 2 to the `k`.
fn pow2_exec(k: u32) -> (r: u64)
    requires
        k < 64,
    ensures
        r == pow2(k as nat),
{
    let mut r: u64 = 1;
    let mut i: u32 = 0;
    proof {
        lemma2_to64();
    }
    while i < k
        invariant
            i <= k < 64,
            r == pow2(i as nat),
        decreases k - i,
    {
        proof {
            lemma_pow2_unfold((i + 1) as nat);
            lemma_pow2_strictly_increases((i + 1) as nat, 64);
            lemma2_to64();
            vstd::arithmetic::power2::lemma2_to64_rest();
        }
        r = r * 2;
        i = i + 1;
    }
    r
}

/// The value of a bit field of type `ip` and `width` bits read as `raw`.
fn bit_field_from_raw(ip: &IntPrim, width: u32, raw: u64) -> (r: Value)
    requires
        width <= size_bits(ip.size),
        raw < pow2(width as nat),
    ensures
        r == bit_value(*ip, width as nat, raw as nat),
{
    proof {
        lemma2_to64();
        vstd::arithmetic::power2::lemma2_to64_rest();
        if width < 64 {
            lemma_pow2_strictly_increases(width as nat, 64);
        }
    }
    if ip.signedness == Signedness::Signed && width > 0 {
        let half = pow2_exec(width - 1);
        proof {
            lemma_pow2_unfold(width as nat);
            if width < size_bits(ip.size) {
                lemma_pow2_strictly_increases(width as nat, size_bits(ip.size));
            }
            lemma_pow2_unfold(size_bits(ip.size));
        }
        if raw >= half {
            let n: i128 = raw as i128 - 2 * (half as i128);
            match ip.size {
                IntSize::Bits8 => Value::I8(n as i8),
                IntSize::Bits16 => Value::I16(n as i16),
                IntSize::Bits32 => Value::I32(n as i32),
                IntSize::Bits64 => Value::I64(n as i64),
            }
        } else {
            int_from_raw(ip, raw)
        }
    } else {
        proof {
            if width < size_bits(ip.size) {
                lemma_pow2_strictly_increases(width as nat, size_bits(ip.size));
            }
        }
        int_from_raw(ip, raw)
    }
}

/// Decodes the bit fields of `bits` from the span of `bits.num_bytes` bytes at `*pos` into
/// `map`, then moves `*pos` past the whole span, whatever bits were left over.
pub fn decode_bits(bits: &BitPrim, bytes: &[u8], pos: &mut usize, map: &mut ValueMap) -> (r: Result<(), DecodeError>)
    requires
        bits.num_bytes * 8 <= u64::MAX,
    ensures
        !fits(bytes@, *old(pos) as int, bits.num_bytes as nat) ==> r == Err::<(), DecodeError>(DecodeError::Truncated),
        fits(bytes@, *old(pos) as int, bits.num_bytes as nat) && !bit_fields_fit(bits.entries@, bits.num_bytes as nat)
            ==> r == Err::<(), DecodeError>(DecodeError::BadBitField),
        r is Ok <==> fits(bytes@, *old(pos) as int, bits.num_bytes as nat) && bit_fields_fit(bits.entries@, bits.num_bytes as nat),
        r is Ok ==> *final(pos) == *old(pos) + bits.num_bytes && final(map).value_map@ == with_bit_fields(
            old(map).value_map@,
            bits.entries@,
            field(bytes@, *old(pos) as int, bits.num_bytes as nat),
            bits.entries@.len() as int,
        ) && map_model(*final(map)) == model_bit_fields(
            map_model(*old(map)),
            bits.entries@,
            field(bytes@, *old(pos) as int, bits.num_bytes as nat),
            bits.entries@.len() as int,
        ),
        r is Err ==> *final(pos) == *old(pos) && *final(map) == *old(map),
{
    let len = bytes.len();
    if bits.num_bytes > len as u64 || *pos > len - bits.num_bytes as usize {
        return Err(DecodeError::Truncated);
    }
    let n = bits.num_bytes as usize;
    let span = slice_subrange_bytes(bytes, *pos, *pos + n);
    let ghost sp = span@;
    let entries = &bits.entries;
    let mut values: Vec<Value> = Vec::new();
    let mut offset: u64 = 0;
    let mut i: usize = 0;
    while i < entries.len()
        invariant
            i <= entries@.len(),
            *entries == bits.entries,
            fits(bytes@, *old(pos) as int, bits.num_bytes as nat),
            *pos == *old(pos),
            *map == *old(map),
            sp == field(bytes@, *old(pos) as int, bits.num_bytes as nat),
            span@ == sp,
            sp.len() == n,
            n == bits.num_bytes,
            n * 8 <= u64::MAX,
            offset == bit_offset(entries@, i as int),
            offset <= 8 * n,
            forall|k: int| 0 <= k < i ==> (#[trigger] entries@[k]).1 <= size_bits(entries@[k].2.size),
            values@.len() == i,
            forall|k: int| 0 <= k < i ==> #[trigger] values@[k] == bit_field_value(entries@, sp, k),
        decreases entries.len() - i,
    {
        let (_, width, ip) = &entries[i];
        let max = ip.size.num_bytes() * 8;
        if *width > max as u32 {
            proof {
                assert(!bit_fields_fit(entries@, n as nat)) by {
                    assert(entries@[i as int].1 > size_bits(entries@[i as int].2.size));
                }
            }
            return Err(DecodeError::BadBitField);
        }
        match read_bits(span, offset, *width as u8) {
            Some(raw) => {
                proof {
                    lemma_bits_bound(sp, offset as int, *width as nat);
                }
                values.push(bit_field_from_raw(ip, *width, raw));
                offset = offset + *width as u64;
            },
            None => {
                proof {
                    assert(!bit_fields_fit(entries@, n as nat)) by {
                        lemma_bit_offset_mono(entries@, i + 1, entries@.len() as int);
                    }
                }
                return Err(DecodeError::BadBitField);
            },
        }
        i = i + 1;
    }
    let ghost m0 = map.value_map@;
    let mut j: usize = 0;
    while j < entries.len()
        invariant
            j <= entries@.len(),
            *entries == bits.entries,
            values@.len() == entries@.len(),
            forall|k: int| 0 <= k < entries@.len() ==> #[trigger] values@[k] == bit_field_value(entries@, sp, k),
            map.value_map@ == with_bit_fields(m0, entries@, sp, j as int),
            map_model(*map) == model_bit_fields(map_model(*old(map)), entries@, sp, j as int),
            m0 == old(map).value_map@,
            *pos == *old(pos),
            sp == field(bytes@, *old(pos) as int, bits.num_bytes as nat),
        decreases entries.len() - j,
    {
        map.insert(entries[j].0.clone(), ValueEntry::Leaf(values[j].clone()));
        j = j + 1;
    }
    *pos = *pos + n;
    Ok(())
}

fn slice_subrange_bytes(bytes: &[u8], i: usize, j: usize) -> (r: &[u8])
    requires
        i <= j <= bytes@.len(),
    ensures
        r@ == bytes@.subrange(i as int, j as int),
{
    vstd::slice::slice_subrange(bytes, i, j)
}


/// Round-trip width: an integer or a float decodes from exactly its width in bytes
/// (and `decode_prim` then moves the position by exactly that width).
pub proof fn lemma_exact_width_decodes(p: Prim, s: Seq<u8>)
    requires
        p is Int || p is Float,
        s.len() == prim_bytes(p),
    ensures
        prim_decode(p, s, 0) is Ok,
{
}

} // verus!
