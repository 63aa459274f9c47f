//! Decoding of binary telemetry records described by declarative packet definitions.
use vstd::prelude::*;

pub mod prim;
pub mod value;
pub mod wire;
pub mod decode;
pub mod types;
pub mod packet;
pub mod stream;
pub mod pipeline;
pub mod dynamic;
pub mod layout;
pub mod choice;
pub mod csv;
pub mod laws;

use crate::prim::{Endianness, FloatPrim, IntPrim, IntSize, Name, Prim, Signedness};
use crate::types::{ArrSize, Item, LayoutPacketDef, PacketDef};
use crate::value::Value;

verus! {

/// A named field of type `typ`.
pub fn item(name: &str, typ: Prim) -> (r: Item)
    ensures
        r.name@ == name@,
        r.typ == typ,
{
    Item::new(name.to_owned(), typ)
}

/// `r` is a leaf holding the field `name` of type `typ`.
pub open spec fn leaf_of(r: LayoutPacketDef, name: Seq<char>, typ: Prim) -> bool {
    r matches PacketDef::Leaf(it) && it.name@ == name && it.typ == typ
}

/// A leaf holding the unsigned 8-bit big-endian integer `name`.
pub fn u8_be(name: &str) -> (r: LayoutPacketDef)
    ensures
        leaf_of(r, name@, Prim::Int(IntPrim { size: IntSize::Bits8, signedness: Signedness::Unsigned, endianness: Endianness::BigEndian })),
{
    leaf(item(name, Prim::Int(IntPrim::u8_be())))
}

/// A leaf holding the unsigned 8-bit little-endian integer `name`.
pub fn u8_le(name: &str) -> (r: LayoutPacketDef)
    ensures
        leaf_of(r, name@, Prim::Int(IntPrim { size: IntSize::Bits8, signedness: Signedness::Unsigned, endianness: Endianness::LittleEndian })),
{
    leaf(item(name, Prim::Int(IntPrim::u8_le())))
}

/// A leaf holding the unsigned 16-bit big-endian integer `name`.
pub fn u16_be(name: &str) -> (r: LayoutPacketDef)
    ensures
        leaf_of(r, name@, Prim::Int(IntPrim { size: IntSize::Bits16, signedness: Signedness::Unsigned, endianness: Endianness::BigEndian })),
{
    leaf(item(name, Prim::Int(IntPrim::u16_be())))
}

/// A leaf holding the unsigned 16-bit little-endian integer `name`.
pub fn u16_le(name: &str) -> (r: LayoutPacketDef)
    ensures
        leaf_of(r, name@, Prim::Int(IntPrim { size: IntSize::Bits16, signedness: Signedness::Unsigned, endianness: Endianness::LittleEndian })),
{
    leaf(item(name, Prim::Int(IntPrim::u16_le())))
}

/// A leaf holding the unsigned 32-bit big-endian integer `name`.
pub fn u32_be(name: &str) -> (r: LayoutPacketDef)
    ensures
        leaf_of(r, name@, Prim::Int(IntPrim { size: IntSize::Bits32, signedness: Signedness::Unsigned, endianness: Endianness::BigEndian })),
{
    leaf(item(name, Prim::Int(IntPrim::u32_be())))
}

/// A leaf holding the unsigned 32-bit little-endian integer `name`.
pub fn u32_le(name: &str) -> (r: LayoutPacketDef)
    ensures
        leaf_of(r, name@, Prim::Int(IntPrim { size: IntSize::Bits32, signedness: Signedness::Unsigned, endianness: Endianness::LittleEndian })),
{
    leaf(item(name, Prim::Int(IntPrim::u32_le())))
}

/// A leaf holding the unsigned 64-bit big-endian integer `name`.
pub fn u64_be(name: &str) -> (r: LayoutPacketDef)
    ensures
        leaf_of(r, name@, Prim::Int(IntPrim { size: IntSize::Bits64, signedness: Signedness::Unsigned, endianness: Endianness::BigEndian })),
{
    leaf(item(name, Prim::Int(IntPrim::u64_be())))
}

/// A leaf holding the unsigned 64-bit little-endian integer `name`.
pub fn u64_le(name: &str) -> (r: LayoutPacketDef)
    ensures
        leaf_of(r, name@, Prim::Int(IntPrim { size: IntSize::Bits64, signedness: Signedness::Unsigned, endianness: Endianness::LittleEndian })),
{
    leaf(item(name, Prim::Int(IntPrim::u64_le())))
}

/// A leaf holding the signed 8-bit big-endian integer `name`.
pub fn i8_be(name: &str) -> (r: LayoutPacketDef)
    ensures
        leaf_of(r, name@, Prim::Int(IntPrim { size: IntSize::Bits8, signedness: Signedness::Signed, endianness: Endianness::BigEndian })),
{
    leaf(item(name, Prim::Int(IntPrim::i8_be())))
}

/// A leaf holding the signed 8-bit little-endian integer `name`.
pub fn i8_le(name: &str) -> (r: LayoutPacketDef)
    ensures
        leaf_of(r, name@, Prim::Int(IntPrim { size: IntSize::Bits8, signedness: Signedness::Signed, endianness: Endianness::LittleEndian })),
{
    leaf(item(name, Prim::Int(IntPrim::i8_le())))
}

/// A leaf holding the signed 16-bit big-endian integer `name`.
pub fn i16_be(name: &str) -> (r: LayoutPacketDef)
    ensures
        leaf_of(r, name@, Prim::Int(IntPrim { size: IntSize::Bits16, signedness: Signedness::Signed, endianness: Endianness::BigEndian })),
{
    leaf(item(name, Prim::Int(IntPrim::i16_be())))
}

/// A leaf holding the signed 16-bit little-endian integer `name`.
pub fn i16_le(name: &str) -> (r: LayoutPacketDef)
    ensures
        leaf_of(r, name@, Prim::Int(IntPrim { size: IntSize::Bits16, signedness: Signedness::Signed, endianness: Endianness::LittleEndian })),
{
    leaf(item(name, Prim::Int(IntPrim::i16_le())))
}

/// A leaf holding the signed 32-bit big-endian integer `name`.
pub fn i32_be(name: &str) -> (r: LayoutPacketDef)
    ensures
        leaf_of(r, name@, Prim::Int(IntPrim { size: IntSize::Bits32, signedness: Signedness::Signed, endianness: Endianness::BigEndian })),
{
    leaf(item(name, Prim::Int(IntPrim::i32_be())))
}

/// A leaf holding the signed 32-bit little-endian integer `name`.
pub fn i32_le(name: &str) -> (r: LayoutPacketDef)
    ensures
        leaf_of(r, name@, Prim::Int(IntPrim { size: IntSize::Bits32, signedness: Signedness::Signed, endianness: Endianness::LittleEndian })),
{
    leaf(item(name, Prim::Int(IntPrim::i32_le())))
}

/// A leaf holding the signed 64-bit big-endian integer `name`.
pub fn i64_be(name: &str) -> (r: LayoutPacketDef)
    ensures
        leaf_of(r, name@, Prim::Int(IntPrim { size: IntSize::Bits64, signedness: Signedness::Signed, endianness: Endianness::BigEndian })),
{
    leaf(item(name, Prim::Int(IntPrim::i64_be())))
}

/// A leaf holding the signed 64-bit little-endian integer `name`.
pub fn i64_le(name: &str) -> (r: LayoutPacketDef)
    ensures
        leaf_of(r, name@, Prim::Int(IntPrim { size: IntSize::Bits64, signedness: Signedness::Signed, endianness: Endianness::LittleEndian })),
{
    leaf(item(name, Prim::Int(IntPrim::i64_le())))
}

/// A leaf holding the 32-bit big-endian float `name`.
pub fn f32_be(name: &str) -> (r: LayoutPacketDef)
    ensures
        leaf_of(r, name@, Prim::Float(FloatPrim::F32(Endianness::BigEndian))),
{
    leaf(item(name, Prim::Float(FloatPrim::f32_be())))
}

/// A leaf holding the 32-bit little-endian float `name`.
pub fn f32_le(name: &str) -> (r: LayoutPacketDef)
    ensures
        leaf_of(r, name@, Prim::Float(FloatPrim::F32(Endianness::LittleEndian))),
{
    leaf(item(name, Prim::Float(FloatPrim::f32_le())))
}

/// A leaf holding the 64-bit big-endian float `name`.
pub fn f64_be(name: &str) -> (r: LayoutPacketDef)
    ensures
        leaf_of(r, name@, Prim::Float(FloatPrim::F64(Endianness::BigEndian))),
{
    leaf(item(name, Prim::Float(FloatPrim::f64_be())))
}

/// A leaf holding the 64-bit little-endian float `name`.
pub fn f64_le(name: &str) -> (r: LayoutPacketDef)
    ensures
        leaf_of(r, name@, Prim::Float(FloatPrim::F64(Endianness::LittleEndian))),
{
    leaf(item(name, Prim::Float(FloatPrim::f64_le())))
}

pub fn val_u8(value: u8) -> (r: Value)
    ensures
        r == Value::U8(value),
{
    Value::U8(value)
}

pub fn val_u16(value: u16) -> (r: Value)
    ensures
        r == Value::U16(value),
{
    Value::U16(value)
}

pub fn val_u32(value: u32) -> (r: Value)
    ensures
        r == Value::U32(value),
{
    Value::U32(value)
}

pub fn val_u64(value: u64) -> (r: Value)
    ensures
        r == Value::U64(value),
{
    Value::U64(value)
}

pub fn val_i8(value: i8) -> (r: Value)
    ensures
        r == Value::I8(value),
{
    Value::I8(value)
}

pub fn val_i16(value: i16) -> (r: Value)
    ensures
        r == Value::I16(value),
{
    Value::I16(value)
}

pub fn val_i32(value: i32) -> (r: Value)
    ensures
        r == Value::I32(value),
{
    Value::I32(value)
}

pub fn val_i64(value: i64) -> (r: Value)
    ensures
        r == Value::I64(value),
{
    Value::I64(value)
}

pub fn val_enum(name: Name, value: i64) -> (r: Value)
    ensures
        r == Value::Enum(name, value),
{
    Value::Enum(name, value)
}

pub fn seq<T>(name: Name, packets: Vec<PacketDef<T>>) -> (r: PacketDef<T>)
    ensures
        r == PacketDef::Sequence(name, packets),
{
    PacketDef::Sequence(name, packets)
}

pub fn leaf<T>(item: T) -> (r: PacketDef<T>)
    ensures
        r == PacketDef::Leaf(item),
{
    PacketDef::Leaf(item)
}

pub fn array_fixed<T>(name: Name, size: usize, packet: PacketDef<T>) -> (r: PacketDef<T>)
    ensures
        r == PacketDef::Array(name, ArrSize::Fixed(size), Box::new(packet)),
{
    PacketDef::Array(name, ArrSize::Fixed(size), Box::new(packet))
}

pub fn array_var<T>(name: Name, var_name: Name, packet: PacketDef<T>) -> (r: PacketDef<T>)
    ensures
        r == PacketDef::Array(name, ArrSize::Var(var_name), Box::new(packet)),
{
    PacketDef::Array(name, ArrSize::Var(var_name), Box::new(packet))
}

} // verus!
