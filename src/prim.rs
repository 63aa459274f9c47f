//! Primitive wire types: integers, floats, enumerations and bit-packed fields.
use std::collections::BTreeMap;
use vstd::prelude::*;

verus! {

pub type Name = String;

/// Something with a statically known width on the wire, in bytes.
pub trait NumBytes {
    spec fn spec_num_bytes(&self) -> nat;

    fn num_bytes(&self) -> (r: u64)
        ensures
            r as nat == self.spec_num_bytes(),
    ;
}

#[derive(Clone, Copy, Debug, PartialEq, Eq, Structural, Hash)]
pub enum Endianness {
    BigEndian,
    LittleEndian,
}

#[derive(Clone, Copy, Debug, PartialEq, Eq, Structural, Hash)]
pub enum IntSize {
    Bits8,
    Bits16,
    Bits32,
    Bits64,
}

/// Width of an integer size in bytes.
pub open spec fn size_bytes(s: IntSize) -> nat {
    match s {
        IntSize::Bits8 => 1,
        IntSize::Bits16 => 2,
        IntSize::Bits32 => 4,
        IntSize::Bits64 => 8,
    }
}

/// Width of an integer size in bits.
pub open spec fn size_bits(s: IntSize) -> nat {
    8 * size_bytes(s)
}

impl NumBytes for IntSize {
    open spec fn spec_num_bytes(&self) -> nat {
        size_bytes(*self)
    }

    fn num_bytes(&self) -> (r: u64) {
        match self {
            IntSize::Bits8 => 1,
            IntSize::Bits16 => 2,
            IntSize::Bits32 => 4,
            IntSize::Bits64 => 8,
        }
    }
}

#[derive(Clone, Copy, Debug, PartialEq, Eq, Structural, Hash)]
pub enum Signedness {
    Unsigned,
    Signed,
}

#[derive(Clone, Copy, Debug, PartialEq, Eq, Structural, Hash)]
pub enum FloatPrim {
    F32(Endianness),
    F64(Endianness),
}

pub open spec fn float_bytes(f: FloatPrim) -> nat {
    match f {
        FloatPrim::F32(_) => 4,
        FloatPrim::F64(_) => 8,
    }
}

impl NumBytes for FloatPrim {
    open spec fn spec_num_bytes(&self) -> nat {
        float_bytes(*self)
    }

    fn num_bytes(&self) -> (r: u64) {
        match self {
            FloatPrim::F32(_) => 4,
            FloatPrim::F64(_) => 8,
        }
    }
}

impl FloatPrim {
    pub fn f32_be() -> (r: FloatPrim)
        ensures
            r == FloatPrim::F32(Endianness::BigEndian),
    {
        FloatPrim::F32(Endianness::BigEndian)
    }

    pub fn f32_le() -> (r: FloatPrim)
        ensures
            r == FloatPrim::F32(Endianness::LittleEndian),
    {
        FloatPrim::F32(Endianness::LittleEndian)
    }

    pub fn f64_be() -> (r: FloatPrim)
        ensures
            r == FloatPrim::F64(Endianness::BigEndian),
    {
        FloatPrim::F64(Endianness::BigEndian)
    }

    pub fn f64_le() -> (r: FloatPrim)
        ensures
            r == FloatPrim::F64(Endianness::LittleEndian),
    {
        FloatPrim::F64(Endianness::LittleEndian)
    }
}

#[derive(Clone, Copy, Debug, PartialEq, Eq, Structural, Hash)]
pub struct IntPrim {
    pub size: IntSize,
    pub signedness: Signedness,
    pub endianness: Endianness,
}

impl NumBytes for IntPrim {
    open spec fn spec_num_bytes(&self) -> nat {
        size_bytes(self.size)
    }

    fn num_bytes(&self) -> (r: u64) {
        self.size.num_bytes()
    }
}

impl IntPrim {
    pub fn new(size: IntSize, signedness: Signedness, endianness: Endianness) -> (r: Self)
        ensures
            r == (IntPrim { size, signedness, endianness }),
    {
        IntPrim { size: size, signedness: signedness, endianness: endianness }
    }

    pub fn u8_be() -> (r: Self)
        ensures
            r == IntPrim::new_spec(IntSize::Bits8, Signedness::Unsigned, Endianness::BigEndian),
    {
        IntPrim::new(IntSize::Bits8, Signedness::Unsigned, Endianness::BigEndian)
    }

    pub fn u8_le() -> (r: Self)
        ensures
            r == IntPrim::new_spec(IntSize::Bits8, Signedness::Unsigned, Endianness::LittleEndian),
    {
        IntPrim::new(IntSize::Bits8, Signedness::Unsigned, Endianness::LittleEndian)
    }

    pub fn u16_be() -> (r: Self)
        ensures
            r == IntPrim::new_spec(IntSize::Bits16, Signedness::Unsigned, Endianness::BigEndian),
    {
        IntPrim::new(IntSize::Bits16, Signedness::Unsigned, Endianness::BigEndian)
    }

    pub fn u16_le() -> (r: Self)
        ensures
            r == IntPrim::new_spec(IntSize::Bits16, Signedness::Unsigned, Endianness::LittleEndian),
    {
        IntPrim::new(IntSize::Bits16, Signedness::Unsigned, Endianness::LittleEndian)
    }

    pub fn u32_be() -> (r: Self)
        ensures
            r == IntPrim::new_spec(IntSize::Bits32, Signedness::Unsigned, Endianness::BigEndian),
    {
        IntPrim::new(IntSize::Bits32, Signedness::Unsigned, Endianness::BigEndian)
    }

    pub fn u32_le() -> (r: Self)
        ensures
            r == IntPrim::new_spec(IntSize::Bits32, Signedness::Unsigned, Endianness::LittleEndian),
    {
        IntPrim::new(IntSize::Bits32, Signedness::Unsigned, Endianness::LittleEndian)
    }

    pub fn u64_be() -> (r: Self)
        ensures
            r == IntPrim::new_spec(IntSize::Bits64, Signedness::Unsigned, Endianness::BigEndian),
    {
        IntPrim::new(IntSize::Bits64, Signedness::Unsigned, Endianness::BigEndian)
    }

    pub fn u64_le() -> (r: Self)
        ensures
            r == IntPrim::new_spec(IntSize::Bits64, Signedness::Unsigned, Endianness::LittleEndian),
    {
        IntPrim::new(IntSize::Bits64, Signedness::Unsigned, Endianness::LittleEndian)
    }

    pub fn i8_be() -> (r: Self)
        ensures
            r == IntPrim::new_spec(IntSize::Bits8, Signedness::Signed, Endianness::BigEndian),
    {
        IntPrim::new(IntSize::Bits8, Signedness::Signed, Endianness::BigEndian)
    }

    pub fn i8_le() -> (r: Self)
        ensures
            r == IntPrim::new_spec(IntSize::Bits8, Signedness::Signed, Endianness::LittleEndian),
    {
        IntPrim::new(IntSize::Bits8, Signedness::Signed, Endianness::LittleEndian)
    }

    pub fn i16_be() -> (r: Self)
        ensures
            r == IntPrim::new_spec(IntSize::Bits16, Signedness::Signed, Endianness::BigEndian),
    {
        IntPrim::new(IntSize::Bits16, Signedness::Signed, Endianness::BigEndian)
    }

    pub fn i16_le() -> (r: Self)
        ensures
            r == IntPrim::new_spec(IntSize::Bits16, Signedness::Signed, Endianness::LittleEndian),
    {
        IntPrim::new(IntSize::Bits16, Signedness::Signed, Endianness::LittleEndian)
    }

    pub fn i32_be() -> (r: Self)
        ensures
            r == IntPrim::new_spec(IntSize::Bits32, Signedness::Signed, Endianness::BigEndian),
    {
        IntPrim::new(IntSize::Bits32, Signedness::Signed, Endianness::BigEndian)
    }

    pub fn i32_le() -> (r: Self)
        ensures
            r == IntPrim::new_spec(IntSize::Bits32, Signedness::Signed, Endianness::LittleEndian),
    {
        IntPrim::new(IntSize::Bits32, Signedness::Signed, Endianness::LittleEndian)
    }

    pub fn i64_be() -> (r: Self)
        ensures
            r == IntPrim::new_spec(IntSize::Bits64, Signedness::Signed, Endianness::BigEndian),
    {
        IntPrim::new(IntSize::Bits64, Signedness::Signed, Endianness::BigEndian)
    }

    pub fn i64_le() -> (r: Self)
        ensures
            r == IntPrim::new_spec(IntSize::Bits64, Signedness::Signed, Endianness::LittleEndian),
    {
        IntPrim::new(IntSize::Bits64, Signedness::Signed, Endianness::LittleEndian)
    }

    pub open spec fn new_spec(size: IntSize, signedness: Signedness, endianness: Endianness) -> IntPrim {
        IntPrim { size, signedness, endianness }
    }
}

/// Bit-packed fields: each entry `(name, bit width, int type)` is read in turn, most
/// significant bit first, from a span of `num_bytes` bytes.
#[derive(Debug, PartialEq, Eq, Hash)]
pub struct BitPrim {
    pub entries: Vec<(Name, u32, IntPrim)>,
    pub num_bytes: u64,
}

impl NumBytes for BitPrim {
    open spec fn spec_num_bytes(&self) -> nat {
        self.num_bytes as nat
    }

    fn num_bytes(&self) -> (r: u64) {
        self.num_bytes
    }
}

/// An integer on the wire whose value selects a name.
#[derive(Debug, PartialEq, Eq, Hash)]
pub struct Enum {
    pub map: BTreeMap<i64, Name>,
    pub int_prim: IntPrim,
}

impl NumBytes for Enum {
    open spec fn spec_num_bytes(&self) -> nat {
        size_bytes(self.int_prim.size)
    }

    fn num_bytes(&self) -> (r: u64) {
        self.int_prim.num_bytes()
    }
}

impl Clone for Enum {
    fn clone(&self) -> (r: Self)
        ensures
            r.int_prim == self.int_prim,
            r.map@ == self.map@,
    {
        Enum { map: self.map.clone(), int_prim: self.int_prim }
    }
}

#[derive(Debug, PartialEq, Eq, Hash)]
pub enum Prim {
    Int(IntPrim),
    Float(FloatPrim),
    Enum(Enum),
}

/// Width of a primitive on the wire, in bytes.
pub open spec fn prim_bytes(p: Prim) -> nat {
    match p {
        Prim::Int(i) => size_bytes(i.size),
        Prim::Float(f) => float_bytes(f),
        Prim::Enum(e) => size_bytes(e.int_prim.size),
    }
}

/// Two primitives that decode alike: equal, but for an enumeration's table, which is
/// compared by its contents.
pub open spec fn same_prim(a: Prim, b: Prim) -> bool {
    match (a, b) {
        (Prim::Int(x), Prim::Int(y)) => x == y,
        (Prim::Float(x), Prim::Float(y)) => x == y,
        (Prim::Enum(x), Prim::Enum(y)) => x.int_prim == y.int_prim && x.map@ == y.map@,
        _ => false,
    }
}

impl NumBytes for Prim {
    open spec fn spec_num_bytes(&self) -> nat {
        prim_bytes(*self)
    }

    fn num_bytes(&self) -> (r: u64) {
        match self {
            Prim::Int(int_prim) => int_prim.num_bytes(),
            Prim::Float(float_prim) => float_prim.num_bytes(),
            Prim::Enum(enum_prim) => enum_prim.num_bytes(),
        }
    }
}

impl Clone for Prim {
    fn clone(&self) -> (r: Self)
        ensures
            same_prim(r, *self),
    {
        match self {
            Prim::Int(i) => Prim::Int(*i),
            Prim::Float(f) => Prim::Float(*f),
            Prim::Enum(e) => Prim::Enum(e.clone()),
        }
    }
}

} // verus!
