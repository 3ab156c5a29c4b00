//! Names that items bring into a scope, and which of them conflict.

use vstd::prelude::*;

use crate::ast::{Ident, Span};
use super::scope_builder::Item;

verus! {

/// A name brought into a scope, by the kind of item that brings it.
#[derive(Debug)]
pub enum Name {
    Fn(Ident),
    Var(Ident),
    Macro(Ident),
    Type(Ident),
    Mod(Ident),
    Crate(Ident),
    UseName(Ident),
    UseRename(Ident),
}

/// The name classes: names in the same class must be unique.
/// * mods can conflict with types, other mods, and crates
/// * fns & vars can conflict with types
/// * types can conflict with anything
/// * macros only conflict with macros
pub open spec fn same_name_class(a: Name, b: Name) -> bool {
    match a {
        Name::Mod(_) | Name::Crate(_) => b is Type || b is Mod || b is Crate || b is UseName || b is UseRename,
        Name::Fn(_) | Name::Var(_) => b is Fn || b is Var || b is Type || b is UseName || b is UseRename,
        Name::Type(_) | Name::UseName(_) | Name::UseRename(_) => !(b is Macro),
        Name::Macro(_) => b is Macro,
    }
}

/// The identifier of a name.
pub open spec fn name_ident(n: Name) -> Ident {
    match n {
        Name::Fn(i) => i,
        Name::Var(i) => i,
        Name::Macro(i) => i,
        Name::Type(i) => i,
        Name::Mod(i) => i,
        Name::Crate(i) => i,
        Name::UseName(i) => i,
        Name::UseRename(i) => i,
    }
}

impl Name {
    pub fn in_same_name_class(&self, other: &Name) -> (r: bool)
        ensures
            r == same_name_class(*self, *other),
    {
        match self {
            Name::Mod(_) | Name::Crate(_) => match other {
                Name::Type(_) | Name::Mod(_) | Name::Crate(_) | Name::UseName(_) | Name::UseRename(_) => true,
                _ => false,
            },
            Name::Fn(_) | Name::Var(_) => match other {
                Name::Fn(_) | Name::Var(_) | Name::Type(_) | Name::UseName(_) | Name::UseRename(_) => true,
                _ => false,
            },
            Name::Type(_) | Name::UseName(_) | Name::UseRename(_) => match other {
                Name::Macro(_) => false,
                _ => true,
            },
            Name::Macro(_) => match other {
                Name::Macro(_) => true,
                _ => false,
            },
        }
    }

    pub fn ident(&self) -> (r: &Ident)
        ensures
            *r == name_ident(*self),
    {
        match self {
            Name::Fn(i) | Name::Var(i) | Name::Macro(i) | Name::Type(i) | Name::Mod(i) | Name::Crate(i)
            | Name::UseName(i) | Name::UseRename(i) => i,
        }
    }

    /// Whether both names have the same identifier text.
    pub fn has_same_ident(&self, other: &Name) -> (r: bool)
        ensures
            r == (name_ident(*self).inner@ == name_ident(*other).inner@),
    {
        self.ident().same_text(other.ident())
    }

    /// Two names in the same name class with the same identifier are conflicting.
    pub fn conflicts_with(&self, other: &Name) -> (r: bool)
        ensures
            r == (same_name_class(*self, *other) && name_ident(*self).inner@ == name_ident(*other).inner@),
    {
        self.in_same_name_class(other) && self.has_same_ident(other)
    }

    pub fn to_string(&self) -> (r: String)
        ensures
            r@ == name_ident(*self).inner@,
    {
        self.ident().inner.clone()
    }

    pub fn span(&self) -> (r: Span)
        ensures
            r == name_ident(*self).span,
    {
        self.ident().span
    }

    /// The name an item brings into its scope, if any: a module, a function,
    /// a constant (a variable), or a type (structs, enums, traits, trait
    /// aliases, type aliases and entities).
    pub fn from_item(item: &Item) -> (r: Option<Name>)
        ensures
            match *item {
                Item::Mod(m, _) => r == Some(Name::Mod(m.ident)),
                Item::Fn(d, _) => r == Some(Name::Fn(d.ident)),
                Item::Const(d) => r == Some(Name::Var(d.ident)),
                Item::Struct(d, _) => r == Some(Name::Type(d.ident)),
                Item::Enum(d, _) => r == Some(Name::Type(d.ident)),
                Item::Trait(d) => r == Some(Name::Type(d.ident)),
                Item::TraitAlias(d) => r == Some(Name::Type(d.ident)),
                Item::Type(d) => r == Some(Name::Type(d.ident)),
                Item::Entity(d) => r == Some(Name::Type(d.ident)),
                _ => r.is_none(),
            },
    {
        match item {
            Item::Mod(m, _) => Some(Name::Mod(m.ident.duplicate())),
            Item::Fn(d, _) => Some(Name::Fn(d.ident.duplicate())),
            Item::Const(d) => Some(Name::Var(d.ident.duplicate())),
            Item::Struct(d, _) | Item::Enum(d, _) => Some(Name::Type(d.ident.duplicate())),
            Item::Trait(d) | Item::TraitAlias(d) | Item::Type(d) | Item::Entity(d) => Some(Name::Type(d.ident.duplicate())),
            _ => None,
        }
    }
}

/// Being in the same name class is symmetric.
pub proof fn lemma_same_name_class_symmetric(a: Name, b: Name)
    ensures
        same_name_class(a, b) == same_name_class(b, a),
{
}

/// Conflicting is symmetric: two names conflict in either order.
pub proof fn lemma_conflicts_symmetric(a: Name, b: Name)
    ensures
        (same_name_class(a, b) && name_ident(a).inner@ == name_ident(b).inner@) == (same_name_class(b, a)
            && name_ident(b).inner@ == name_ident(a).inner@),
{
}

/// Functions and variables conflict with each other; macros conflict with
/// macros only; modules do not conflict with functions or variables; types
/// (and imported names) conflict with every name but a macro.
pub proof fn lemma_name_class_table(a: Name, b: Name)
    ensures
        (a is Fn || a is Var) && (b is Fn || b is Var) ==> same_name_class(a, b),
        a is Macro ==> (same_name_class(a, b) <==> b is Macro),
        (a is Mod || a is Crate) && (b is Fn || b is Var) ==> !same_name_class(a, b),
        (a is Type || a is UseName || a is UseRename) ==> (same_name_class(a, b) <==> !(b is Macro)),
        (a is Mod || a is Crate) && (b is Mod || b is Crate || b is Type) ==> same_name_class(a, b),
{
}

/// Every name is in its own name class, so it conflicts with any name of
/// its kind with the same identifier.
pub proof fn lemma_same_name_class_reflexive(a: Name)
    ensures
        same_name_class(a, a),
{
}

} // verus!
