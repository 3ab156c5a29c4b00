//! The types of hardware descriptions, as the type checker sees them.

use vstd::prelude::*;

use crate::ast::Ident;

verus! {

/// These are the basic types you would expect to be available and
/// accelerated on hardware, by bit width.
#[derive(Debug, Clone, Copy, PartialEq, Eq, Structural)]
pub enum PrimitiveType {
    UnsignedInteger(usize),
    /// 2's complement representation
    SignedInteger(usize),
    /// The IEEE 754 floating point types, by width.
    FloatingPoint(usize),
}

/// A type: a primitive, a concrete type, or a generic one bounded by traits.
#[derive(Debug)]
pub enum Type {
    Primitive(PrimitiveType),
    Concrete(ConcreteType),
    Generic(Vec<Trait>),
}

/// A type parameter and the traits that bound it.
#[derive(Debug)]
pub struct TypeParam {
    pub bounds: Vec<Trait>,
}

/// A trait, with its super traits and type parameters.
#[derive(Debug)]
pub struct Trait {
    pub supers: Vec<Trait>,
    pub type_params: Vec<TypeParam>,
}

/// The members of a struct or a variant.
#[derive(Debug)]
pub enum Fields {
    Named(Vec<(Ident, Type)>),
    Unnamed(Vec<Type>),
}

#[derive(Debug)]
pub enum ConcreteType {
    /// A function can act as a type: a free-standing function, a method, or
    /// a closure.
    Fn { type_params: Vec<TypeParam>, args: Vec<Type>, ret: Box<Type> },
    Struct { type_params: Vec<TypeParam>, members: Fields },
    Enum { type_params: Vec<TypeParam>, variants: Vec<(Ident, Fields)> },
    Tuple(Vec<Type>),
    Array(Box<Type>, usize),
}

impl TypeParam {
    /// A type satisfies a type parameter when it implements every bound.
    /// Whether a trait is implemented is not decided by any rule yet, so only
    /// a parameter without bounds can be asked; any type satisfies it.
    pub fn satisfied_by(&self, ty: &ConcreteType) -> (r: bool)
        requires
            self.bounds@.len() == 0,
        ensures
            r,
    {
        self.bounds.len() == 0
    }
}

} // verus!
