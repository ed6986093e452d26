//! The abstract syntax of type expressions.

use vstd::prelude::*;
use crate::context::str_eq;

verus! {

/// The primitive types of the language: unsigned and signed integers of
/// width 8 to 128, boolean, character, unit, and the reserved static
/// string reference.
#[derive(Debug, PartialEq, Eq, Clone, Copy)]
pub enum PrimitiveType {
    UInt8,
    UInt16,
    UInt32,
    UInt64,
    UInt128,
    SInt8,
    SInt16,
    SInt32,
    SInt64,
    SInt128,
    Bool,
    Char,
    Unit,
    RefStaticStr,
}

/// The recognized spelling of each primitive type. No spelling is a
/// prefix of another in a way that could truncate a match, and each is
/// matched against a whole name.
pub open spec fn spec_primitive_of(s: Seq<char>) -> Option<PrimitiveType> {
    if s == "u8"@ {
        Some(PrimitiveType::UInt8)
    } else if s == "u16"@ {
        Some(PrimitiveType::UInt16)
    } else if s == "u32"@ {
        Some(PrimitiveType::UInt32)
    } else if s == "u64"@ {
        Some(PrimitiveType::UInt64)
    } else if s == "u128"@ {
        Some(PrimitiveType::UInt128)
    } else if s == "i8"@ {
        Some(PrimitiveType::SInt8)
    } else if s == "i16"@ {
        Some(PrimitiveType::SInt16)
    } else if s == "i32"@ {
        Some(PrimitiveType::SInt32)
    } else if s == "i64"@ {
        Some(PrimitiveType::SInt64)
    } else if s == "i128"@ {
        Some(PrimitiveType::SInt128)
    } else if s == "bool"@ {
        Some(PrimitiveType::Bool)
    } else if s == "char"@ {
        Some(PrimitiveType::Char)
    } else if s == "()"@ {
        Some(PrimitiveType::Unit)
    } else if s == "&'static str"@ {
        Some(PrimitiveType::RefStaticStr)
    } else {
        None
    }
}

/// Look a name up in the fixed table of primitive-type spellings.
pub fn primitive_of(name: &str) -> (r: Option<PrimitiveType>)
    ensures
        r == spec_primitive_of(name@),
{
    if str_eq(name, "u8") {
        Some(PrimitiveType::UInt8)
    } else if str_eq(name, "u16") {
        Some(PrimitiveType::UInt16)
    } else if str_eq(name, "u32") {
        Some(PrimitiveType::UInt32)
    } else if str_eq(name, "u64") {
        Some(PrimitiveType::UInt64)
    } else if str_eq(name, "u128") {
        Some(PrimitiveType::UInt128)
    } else if str_eq(name, "i8") {
        Some(PrimitiveType::SInt8)
    } else if str_eq(name, "i16") {
        Some(PrimitiveType::SInt16)
    } else if str_eq(name, "i32") {
        Some(PrimitiveType::SInt32)
    } else if str_eq(name, "i64") {
        Some(PrimitiveType::SInt64)
    } else if str_eq(name, "i128") {
        Some(PrimitiveType::SInt128)
    } else if str_eq(name, "bool") {
        Some(PrimitiveType::Bool)
    } else if str_eq(name, "char") {
        Some(PrimitiveType::Char)
    } else if str_eq(name, "()") {
        Some(PrimitiveType::Unit)
    } else if str_eq(name, "&'static str") {
        Some(PrimitiveType::RefStaticStr)
    } else {
        None
    }
}

/// A type expression: a primitive, a user-defined name, a generic
/// instantiation with a nonempty argument list, or a reference or
/// pointer to a type. The tree is finite and owned: its depth is the
/// nesting depth of the source text's prefix and generic operators.
#[derive(Debug, PartialEq)]
pub enum Ty {
    Primitive(PrimitiveType),
    Userdefined(String),
    Generic(String, Vec<Ty>),
    Ref(Box<Ty>),
    Ptr(Box<Ty>),
}

} // verus!
