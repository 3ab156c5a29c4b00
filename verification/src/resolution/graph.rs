use vstd::prelude::*;

use crate::ast::{
    GenericParam, Ident, Span, TypeRef, UseTree, Vis,
};
use crate::error::{DuplicateHint, ItemHint};
use crate::find_file::FileId;

verus! {

/// The position of a node in the resolution graph.
#[derive(Debug, Clone, Copy, PartialEq, Eq, Hash, PartialOrd, Ord, Structural)]
pub struct ResolutionIndex(pub usize);

impl ResolutionIndex {
    pub fn index(&self) -> (r: usize)
        ensures
            r == self.0,
    {
        self.0
    }
}

/// The kind of a node: which variant of [`Branch`] or [`Leaf`] it holds, or a root.
#[derive(Debug, Clone, Copy, PartialEq, Eq, Structural)]
pub enum NodeKind {
    Root,
    Mod,
    Use,
    Fn,
    Struct,
    Enum,
    Variant,
    Impl,
    Arch,
    Trait,
    Block,
    UseName,
    UseRename,
    UseGlob,
    Const,
    Type,
    TraitAlias,
    NamedField,
    UnnamedField,
    Entity,
}

/// A module item.
#[derive(Debug)]
pub struct ItemMod {
    pub vis: Option<Vis>,
    pub ident: Ident,
    pub span: Span,
}

/// A `use` item.
#[derive(Debug)]
pub struct ItemUse {
    pub vis: Option<Vis>,
    pub tree: UseTree,
    pub span: Span,
}

/// An identifier that must be unique within its group: the fields of a
/// struct or variant, the variants of an enum, the ports of an entity, the
/// parameters of a generics list or the bindings of a signature.
#[derive(Debug, Clone)]
pub struct NameCheck {
    pub group: usize,
    pub hint: DuplicateHint,
    pub ident: Ident,
}

/// What a name declared inside an item is, for the check that such names
/// are unique.
#[derive(Debug, Clone, Copy, PartialEq, Eq, Structural)]
pub enum DeclaredName {
    TypeParam,
    ConstParam,
    Lifetime,
    Binding,
    Field,
    Variant,
    /// A field of the variant at this position.
    VariantField(usize),
}

/// The group a declared name is checked in: type and const parameters
/// together, lifetimes apart from them, the bindings of a signature, the
/// fields or the variants of the item, and the fields of each variant apart
/// from those of every other.
pub open spec fn check_group(n: DeclaredName) -> int {
    match n {
        DeclaredName::TypeParam | DeclaredName::ConstParam => 0,
        DeclaredName::Lifetime => 1,
        DeclaredName::Binding => 2,
        DeclaredName::Field | DeclaredName::Variant => 3,
        DeclaredName::VariantField(k) => 4 + k,
    }
}

/// What a repeated declared name is reported as.
pub open spec fn check_hint(n: DeclaredName) -> DuplicateHint {
    match n {
        DeclaredName::TypeParam | DeclaredName::ConstParam => DuplicateHint::TypeParam,
        DeclaredName::Lifetime => DuplicateHint::Lifetime,
        DeclaredName::Binding => DuplicateHint::NameBinding,
        DeclaredName::Field | DeclaredName::VariantField(_) => DuplicateHint::Field,
        DeclaredName::Variant => DuplicateHint::Variant,
    }
}

/// The check that `ident`, declared as `kind`, is unique in its group.
pub fn name_check(kind: DeclaredName, ident: Ident) -> (c: NameCheck)
    requires
        kind matches DeclaredName::VariantField(k) ==> k + 4 <= usize::MAX,
    ensures
        c.group == check_group(kind),
        c.hint == check_hint(kind),
        c.ident == ident,
{
    let (group, hint): (usize, DuplicateHint) = match kind {
        DeclaredName::TypeParam | DeclaredName::ConstParam => (0, DuplicateHint::TypeParam),
        DeclaredName::Lifetime => (1, DuplicateHint::Lifetime),
        DeclaredName::Binding => (2, DuplicateHint::NameBinding),
        DeclaredName::Field => (3, DuplicateHint::Field),
        DeclaredName::Variant => (3, DuplicateHint::Variant),
        DeclaredName::VariantField(k) => (4 + k, DuplicateHint::Field),
    };
    NameCheck { group, hint, ident }
}

/// A named item (function, struct, enum, trait, ...) with what the checks read of it.
#[derive(Debug)]
pub struct ItemData {
    pub vis: Option<Vis>,
    pub ident: Ident,
    pub generics: Option<Vec<GenericParam>>,
    /// The identifiers of the item that must be unique within their group,
    /// in the order they are written.
    pub name_checks: Vec<NameCheck>,
    /// Type and trait paths the item refers to, in the order they are checked.
    pub type_refs: Vec<TypeRef>,
}

/// An item without a name of its own: an `impl`, an `arch`, a block or an unnamed field.
#[derive(Debug)]
pub struct UnnamedData {
    pub vis: Option<Vis>,
    pub generics: Option<Vec<GenericParam>>,
    /// The identifiers of the item that must be unique within their group,
    /// in the order they are written.
    pub name_checks: Vec<NameCheck>,
    pub type_refs: Vec<TypeRef>,
}

/// Nodes that may have children.
#[derive(Debug)]
pub enum Branch {
    Mod(ItemMod),
    /// Imports are treated as a special "children" case
    /// globs have no "ident"
    /// renames use the renamed ident
    /// names use the original ident
    Use(ItemUse),
    Fn(ItemData),
    Struct(ItemData),
    Enum(ItemData),
    Variant(ItemData),
    Impl(UnnamedData),
    Arch(UnnamedData),
    Trait(ItemData),
    Block(UnnamedData),
}

/// Nodes without children.
#[derive(Debug)]
pub enum Leaf {
    /// An imported name and the nodes it refers to.
    UseName(Ident, Vec<ResolutionIndex>),
    /// `name as rename` and the nodes `name` refers to.
    UseRename(Ident, Ident, Vec<ResolutionIndex>),
    /// A glob import and the scope whose items it imports.
    UseGlob(Span, ResolutionIndex),
    Const(ItemData),
    Type(ItemData),
    TraitAlias(ItemData),
    NamedField(ItemData),
    UnnamedField(UnnamedData),
    Entity(ItemData),
}

#[derive(Debug)]
pub enum ResolutionNode {
    Root {
        /// This information comes from an external source
        name: String,
        /// Children in the order they were added.
        children: Vec<ResolutionIndex>,
    },
    Branch {
        parent: ResolutionIndex,
        branch: Branch,
        /// Child branches/leaves, whether named (structs/enums/etc.) or not (impls)
        children: Vec<ResolutionIndex>,
    },
    Leaf {
        parent: ResolutionIndex,
        leaf: Leaf,
    },
}

impl ResolutionNode {
    pub open spec fn spec_kind(&self) -> NodeKind {
        match self {
            ResolutionNode::Root { .. } => NodeKind::Root,
            ResolutionNode::Branch { branch, .. } => match branch {
                Branch::Mod(_) => NodeKind::Mod,
                Branch::Use(_) => NodeKind::Use,
                Branch::Fn(_) => NodeKind::Fn,
                Branch::Struct(_) => NodeKind::Struct,
                Branch::Enum(_) => NodeKind::Enum,
                Branch::Variant(_) => NodeKind::Variant,
                Branch::Impl(_) => NodeKind::Impl,
                Branch::Arch(_) => NodeKind::Arch,
                Branch::Trait(_) => NodeKind::Trait,
                Branch::Block(_) => NodeKind::Block,
            },
            ResolutionNode::Leaf { leaf, .. } => match leaf {
                Leaf::UseName(..) => NodeKind::UseName,
                Leaf::UseRename(..) => NodeKind::UseRename,
                Leaf::UseGlob(..) => NodeKind::UseGlob,
                Leaf::Const(_) => NodeKind::Const,
                Leaf::Type(_) => NodeKind::Type,
                Leaf::TraitAlias(_) => NodeKind::TraitAlias,
                Leaf::NamedField(_) => NodeKind::NamedField,
                Leaf::UnnamedField(_) => NodeKind::UnnamedField,
                Leaf::Entity(_) => NodeKind::Entity,
            },
        }
    }

    pub fn kind(&self) -> (k: NodeKind)
        ensures
            k == self.spec_kind(),
    {
        match self {
            ResolutionNode::Root { .. } => NodeKind::Root,
            ResolutionNode::Branch { branch, .. } => match branch {
                Branch::Mod(_) => NodeKind::Mod,
                Branch::Use(_) => NodeKind::Use,
                Branch::Fn(_) => NodeKind::Fn,
                Branch::Struct(_) => NodeKind::Struct,
                Branch::Enum(_) => NodeKind::Enum,
                Branch::Variant(_) => NodeKind::Variant,
                Branch::Impl(_) => NodeKind::Impl,
                Branch::Arch(_) => NodeKind::Arch,
                Branch::Trait(_) => NodeKind::Trait,
                Branch::Block(_) => NodeKind::Block,
            },
            ResolutionNode::Leaf { leaf, .. } => match leaf {
                Leaf::UseName(..) => NodeKind::UseName,
                Leaf::UseRename(..) => NodeKind::UseRename,
                Leaf::UseGlob(..) => NodeKind::UseGlob,
                Leaf::Const(_) => NodeKind::Const,
                Leaf::Type(_) => NodeKind::Type,
                Leaf::TraitAlias(_) => NodeKind::TraitAlias,
                Leaf::NamedField(_) => NodeKind::NamedField,
                Leaf::UnnamedField(_) => NodeKind::UnnamedField,
                Leaf::Entity(_) => NodeKind::Entity,
            },
        }
    }

    pub open spec fn spec_parent(&self) -> Option<ResolutionIndex> {
        match self {
            ResolutionNode::Root { .. } => None,
            ResolutionNode::Branch { parent, .. } => Some(*parent),
            ResolutionNode::Leaf { parent, .. } => Some(*parent),
        }
    }

    pub fn parent(&self) -> (r: Option<ResolutionIndex>)
        ensures
            r == self.spec_parent(),
    {
        if let ResolutionNode::Leaf { parent, .. } | ResolutionNode::Branch { parent, .. } = self {
            Some(*parent)
        } else {
            None
        }
    }

    pub open spec fn spec_children(&self) -> Option<Seq<ResolutionIndex>> {
        match self {
            ResolutionNode::Root { children, .. } => Some(children@),
            ResolutionNode::Branch { children, .. } => Some(children@),
            ResolutionNode::Leaf { .. } => None,
        }
    }

    pub fn children(&self) -> (r: Option<&Vec<ResolutionIndex>>)
        ensures
            r.is_some() == self.spec_children().is_some(),
            r.is_some() ==> r.unwrap()@ == self.spec_children().unwrap(),
    {
        match self {
            ResolutionNode::Root { children, .. } => Some(children),
            ResolutionNode::Branch { children, .. } => Some(children),
            ResolutionNode::Leaf { .. } => None,
        }
    }

    /// The identifier a node is known by in its parent's scope.
    pub open spec fn spec_name(&self) -> Option<Ident> {
        match self {
            ResolutionNode::Root { .. } => None,
            ResolutionNode::Branch { branch, .. } => match branch {
                Branch::Mod(m) => Some(m.ident),
                Branch::Use(_) => None,
                Branch::Fn(d) => Some(d.ident),
                Branch::Struct(d) => Some(d.ident),
                Branch::Enum(d) => Some(d.ident),
                Branch::Variant(d) => Some(d.ident),
                Branch::Impl(_) => None,
                Branch::Arch(_) => None,
                Branch::Trait(d) => Some(d.ident),
                Branch::Block(_) => None,
            },
            ResolutionNode::Leaf { leaf, .. } => match leaf {
                Leaf::UseName(n, _) => Some(*n),
                Leaf::UseRename(_, r, _) => Some(*r),
                Leaf::UseGlob(..) => None,
                Leaf::Const(d) => Some(d.ident),
                Leaf::Type(d) => Some(d.ident),
                Leaf::TraitAlias(d) => Some(d.ident),
                Leaf::NamedField(d) => Some(d.ident),
                Leaf::UnnamedField(_) => None,
                Leaf::Entity(d) => Some(d.ident),
            },
        }
    }

    pub fn name(&self) -> (r: Option<&Ident>)
        ensures
            r.is_some() == self.spec_name().is_some(),
            r.is_some() ==> *r.unwrap() == self.spec_name().unwrap(),
    {
        match self {
            ResolutionNode::Root { .. } => None,
            ResolutionNode::Branch { branch, .. } => match branch {
                Branch::Mod(m) => Some(&m.ident),
                Branch::Use(_) => None,
                Branch::Fn(d) => Some(&d.ident),
                Branch::Struct(d) => Some(&d.ident),
                Branch::Enum(d) => Some(&d.ident),
                Branch::Variant(d) => Some(&d.ident),
                Branch::Impl(_) => None,
                Branch::Arch(_) => None,
                Branch::Trait(d) => Some(&d.ident),
                Branch::Block(_) => None,
            },
            ResolutionNode::Leaf { leaf, .. } => match leaf {
                Leaf::UseName(n, _) => Some(n),
                Leaf::UseRename(_, r, _) => Some(r),
                Leaf::UseGlob(..) => None,
                Leaf::Const(d) => Some(&d.ident),
                Leaf::Type(d) => Some(&d.ident),
                Leaf::TraitAlias(d) => Some(&d.ident),
                Leaf::NamedField(d) => Some(&d.ident),
                Leaf::UnnamedField(_) => None,
                Leaf::Entity(d) => Some(&d.ident),
            },
        }
    }

    /// Whether the node is known by `text` in its parent's scope.
    pub open spec fn spec_named(&self, text: Seq<char>) -> bool {
        self.spec_name() matches Some(n) && n.inner@ == text
    }

    pub fn is_named(&self, ident: &Ident) -> (r: bool)
        ensures
            r == self.spec_named(ident.inner@),
    {
        match self.name() {
            Some(n) => n.same_text(ident),
            None => false,
        }
    }

    /// The visibility written on the item of this node, if any.
    pub open spec fn spec_visibility(&self) -> Option<Vis> {
        match self {
            ResolutionNode::Root { .. } => None,
            ResolutionNode::Branch { branch, .. } => match branch {
                Branch::Mod(m) => m.vis,
                Branch::Use(u) => u.vis,
                Branch::Fn(d) => d.vis,
                Branch::Struct(d) => d.vis,
                Branch::Enum(d) => d.vis,
                Branch::Variant(d) => d.vis,
                Branch::Impl(u) => u.vis,
                Branch::Arch(u) => u.vis,
                Branch::Trait(d) => d.vis,
                Branch::Block(u) => u.vis,
            },
            ResolutionNode::Leaf { leaf, .. } => match leaf {
                Leaf::UseName(..) => None,
                Leaf::UseRename(..) => None,
                Leaf::UseGlob(..) => None,
                Leaf::Const(d) => d.vis,
                Leaf::Type(d) => d.vis,
                Leaf::TraitAlias(d) => d.vis,
                Leaf::NamedField(d) => d.vis,
                Leaf::UnnamedField(u) => u.vis,
                Leaf::Entity(d) => d.vis,
            },
        }
    }

    pub fn visibility(&self) -> (r: Option<&Vis>)
        ensures
            r.is_some() == self.spec_visibility().is_some(),
            r.is_some() ==> *r.unwrap() == self.spec_visibility().unwrap(),
    {
        let vis = match self {
            ResolutionNode::Root { .. } => &None,
            ResolutionNode::Branch { branch, .. } => match branch {
                Branch::Mod(m) => &m.vis,
                Branch::Use(u) => &u.vis,
                Branch::Fn(d) => &d.vis,
                Branch::Struct(d) => &d.vis,
                Branch::Enum(d) => &d.vis,
                Branch::Variant(d) => &d.vis,
                Branch::Impl(u) => &u.vis,
                Branch::Arch(u) => &u.vis,
                Branch::Trait(d) => &d.vis,
                Branch::Block(u) => &u.vis,
            },
            ResolutionNode::Leaf { leaf, .. } => match leaf {
                Leaf::UseName(..) => &None,
                Leaf::UseRename(..) => &None,
                Leaf::UseGlob(..) => &None,
                Leaf::Const(d) => &d.vis,
                Leaf::Type(d) => &d.vis,
                Leaf::TraitAlias(d) => &d.vis,
                Leaf::NamedField(d) => &d.vis,
                Leaf::UnnamedField(u) => &u.vis,
                Leaf::Entity(d) => &d.vis,
            },
        };
        match vis {
            Some(v) => Some(v),
            None => None,
        }
    }

    /// The generic parameters declared by the item of this node, if any.
    /// The identifiers of the node's item that must be unique within their group.
    pub open spec fn spec_name_checks(&self) -> Seq<NameCheck> {
        match self {
            ResolutionNode::Root { .. } => Seq::empty(),
            ResolutionNode::Branch { branch, .. } => match branch {
                Branch::Mod(_) => Seq::empty(),
                Branch::Use(_) => Seq::empty(),
                Branch::Fn(d) => d.name_checks@,
                Branch::Struct(d) => d.name_checks@,
                Branch::Enum(d) => d.name_checks@,
                Branch::Variant(d) => d.name_checks@,
                Branch::Impl(u) => u.name_checks@,
                Branch::Arch(u) => u.name_checks@,
                Branch::Trait(d) => d.name_checks@,
                Branch::Block(u) => u.name_checks@,
            },
            ResolutionNode::Leaf { leaf, .. } => match leaf {
                Leaf::UseName(..) => Seq::empty(),
                Leaf::UseRename(..) => Seq::empty(),
                Leaf::UseGlob(..) => Seq::empty(),
                Leaf::Const(d) => d.name_checks@,
                Leaf::Type(d) => d.name_checks@,
                Leaf::TraitAlias(d) => d.name_checks@,
                Leaf::NamedField(d) => d.name_checks@,
                Leaf::UnnamedField(u) => u.name_checks@,
                Leaf::Entity(d) => d.name_checks@,
            },
        }
    }

    pub fn name_checks(&self) -> (r: Option<&Vec<NameCheck>>)
        ensures
            match r {
                Some(v) => v@ == self.spec_name_checks(),
                None => self.spec_name_checks().len() == 0,
            },
    {
        match self {
            ResolutionNode::Root { .. } => None,
            ResolutionNode::Branch { branch, .. } => match branch {
                Branch::Mod(_) => None,
                Branch::Use(_) => None,
                Branch::Fn(d) => Some(&d.name_checks),
                Branch::Struct(d) => Some(&d.name_checks),
                Branch::Enum(d) => Some(&d.name_checks),
                Branch::Variant(d) => Some(&d.name_checks),
                Branch::Impl(u) => Some(&u.name_checks),
                Branch::Arch(u) => Some(&u.name_checks),
                Branch::Trait(d) => Some(&d.name_checks),
                Branch::Block(u) => Some(&u.name_checks),
            },
            ResolutionNode::Leaf { leaf, .. } => match leaf {
                Leaf::UseName(..) => None,
                Leaf::UseRename(..) => None,
                Leaf::UseGlob(..) => None,
                Leaf::Const(d) => Some(&d.name_checks),
                Leaf::Type(d) => Some(&d.name_checks),
                Leaf::TraitAlias(d) => Some(&d.name_checks),
                Leaf::NamedField(d) => Some(&d.name_checks),
                Leaf::UnnamedField(u) => Some(&u.name_checks),
                Leaf::Entity(d) => Some(&d.name_checks),
            },
        }
    }

    pub open spec fn spec_generics(&self) -> Option<Vec<GenericParam>> {
        match self {
            ResolutionNode::Root { .. } => None,
            ResolutionNode::Branch { branch, .. } => match branch {
                Branch::Mod(_) => None,
                Branch::Use(_) => None,
                Branch::Fn(d) => d.generics,
                Branch::Struct(d) => d.generics,
                Branch::Enum(d) => d.generics,
                Branch::Variant(d) => d.generics,
                Branch::Impl(u) => u.generics,
                Branch::Arch(u) => u.generics,
                Branch::Trait(d) => d.generics,
                Branch::Block(u) => u.generics,
            },
            ResolutionNode::Leaf { leaf, .. } => match leaf {
                Leaf::UseName(..) => None,
                Leaf::UseRename(..) => None,
                Leaf::UseGlob(..) => None,
                Leaf::Const(d) => d.generics,
                Leaf::Type(d) => d.generics,
                Leaf::TraitAlias(d) => d.generics,
                Leaf::NamedField(d) => d.generics,
                Leaf::UnnamedField(u) => u.generics,
                Leaf::Entity(d) => d.generics,
            },
        }
    }

    pub fn generics(&self) -> (r: Option<&Vec<GenericParam>>)
        ensures
            r.is_some() == self.spec_generics().is_some(),
            r.is_some() ==> *r.unwrap() == self.spec_generics().unwrap(),
    {
        let g = match self {
            ResolutionNode::Root { .. } => &None,
            ResolutionNode::Branch { branch, .. } => match branch {
                Branch::Mod(_) => &None,
                Branch::Use(_) => &None,
                Branch::Fn(d) => &d.generics,
                Branch::Struct(d) => &d.generics,
                Branch::Enum(d) => &d.generics,
                Branch::Variant(d) => &d.generics,
                Branch::Impl(u) => &u.generics,
                Branch::Arch(u) => &u.generics,
                Branch::Trait(d) => &d.generics,
                Branch::Block(u) => &u.generics,
            },
            ResolutionNode::Leaf { leaf, .. } => match leaf {
                Leaf::UseName(..) => &None,
                Leaf::UseRename(..) => &None,
                Leaf::UseGlob(..) => &None,
                Leaf::Const(d) => &d.generics,
                Leaf::Type(d) => &d.generics,
                Leaf::TraitAlias(d) => &d.generics,
                Leaf::NamedField(d) => &d.generics,
                Leaf::UnnamedField(u) => &u.generics,
                Leaf::Entity(d) => &d.generics,
            },
        };
        match g {
            Some(v) => Some(v),
            None => None,
        }
    }

    pub fn is_valid_use_path_segment(&self) -> (r: bool)
        ensures
            r == is_valid_use_path_segment_kind(self.spec_kind()),
    {
        matches!(self.kind(), NodeKind::Mod | NodeKind::Enum | NodeKind::Root)
    }

    pub fn is_valid_pub_path_segment(&self) -> (r: bool)
        ensures
            r == is_valid_pub_path_segment_kind(self.spec_kind()),
    {
        matches!(self.kind(), NodeKind::Mod | NodeKind::Root)
    }

    pub fn is_valid_type_path_segment(&self) -> (r: bool)
        ensures
            r == is_valid_pub_path_segment_kind(self.spec_kind()),
    {
        matches!(self.kind(), NodeKind::Mod | NodeKind::Root)
    }

    pub fn is_type_existence_checking_candidate(&self) -> (r: bool)
        ensures
            r == is_type_existence_checking_candidate_kind(self.spec_kind()),
    {
        matches!(
            self.kind(),
            NodeKind::Impl | NodeKind::Trait | NodeKind::Fn | NodeKind::Struct | NodeKind::Enum
                | NodeKind::Arch | NodeKind::Block | NodeKind::Const | NodeKind::TraitAlias
                | NodeKind::Entity | NodeKind::Type
        )
    }

    /// The names in a name class must be unique
    /// * mods can conflict with types, other mods, and crates
    /// * Fns & Vars can conflict with types
    /// * types can conflict with anything
    /// * macros only conflict with macros
    pub fn in_same_name_class(&self, other: &ResolutionNode) -> (r: bool)
        ensures
            r == in_same_name_class_kind(self.spec_kind(), other.spec_kind()),
    {
        kinds_in_same_name_class(self.kind(), other.kind())
    }

    pub fn is_use(&self) -> (r: bool)
        ensures
            r == (self.spec_kind() == NodeKind::Use),
    {
        matches!(self.kind(), NodeKind::Use)
    }

    pub fn is_trait(&self) -> (r: bool)
        ensures
            r == (self.spec_kind() == NodeKind::Trait),
    {
        matches!(self.kind(), NodeKind::Trait)
    }

    pub fn is_impl(&self) -> (r: bool)
        ensures
            r == (self.spec_kind() == NodeKind::Impl),
    {
        matches!(self.kind(), NodeKind::Impl)
    }

    pub fn is_trait_or_impl_or_arch(&self) -> (r: bool)
        ensures
            r == is_trait_or_impl_or_arch_kind(self.spec_kind()),
    {
        self.is_trait() || self.is_impl() || matches!(self.kind(), NodeKind::Arch)
    }

    pub fn is_type(&self) -> (r: bool)
        ensures
            r == is_type_kind(self.spec_kind()),
    {
        matches!(self.kind(), NodeKind::Struct | NodeKind::Enum | NodeKind::Type)
    }

    pub fn item_hint(&self) -> (r: Option<ItemHint>)
        ensures
            r == item_hint_of_kind(self.spec_kind()),
    {
        item_hint_for(self.kind())
    }

    pub fn type_refs(&self) -> (r: Option<&Vec<TypeRef>>)
        ensures
            match r {
                Some(v) => v@ == self.spec_type_refs(),
                None => self.spec_type_refs().len() == 0,
            },
    {
        match self {
            ResolutionNode::Root { .. } => None,
            ResolutionNode::Branch { branch, .. } => match branch {
                Branch::Mod(_) => None,
                Branch::Use(_) => None,
                Branch::Fn(d) => Some(&d.type_refs),
                Branch::Struct(d) => Some(&d.type_refs),
                Branch::Enum(d) => Some(&d.type_refs),
                Branch::Variant(d) => Some(&d.type_refs),
                Branch::Impl(u) => Some(&u.type_refs),
                Branch::Arch(u) => Some(&u.type_refs),
                Branch::Trait(d) => Some(&d.type_refs),
                Branch::Block(u) => Some(&u.type_refs),
            },
            ResolutionNode::Leaf { leaf, .. } => match leaf {
                Leaf::UseName(..) => None,
                Leaf::UseRename(..) => None,
                Leaf::UseGlob(..) => None,
                Leaf::Const(d) => Some(&d.type_refs),
                Leaf::Type(d) => Some(&d.type_refs),
                Leaf::TraitAlias(d) => Some(&d.type_refs),
                Leaf::NamedField(d) => Some(&d.type_refs),
                Leaf::UnnamedField(u) => Some(&u.type_refs),
                Leaf::Entity(d) => Some(&d.type_refs),
            },
        }
    }

    /// The type and trait paths the item of this node refers to.
    pub open spec fn spec_type_refs(&self) -> Seq<TypeRef> {
        match self {
            ResolutionNode::Root { .. } => Seq::empty(),
            ResolutionNode::Branch { branch, .. } => match branch {
                Branch::Mod(_) => Seq::empty(),
                Branch::Use(_) => Seq::empty(),
                Branch::Fn(d) => d.type_refs@,
                Branch::Struct(d) => d.type_refs@,
                Branch::Enum(d) => d.type_refs@,
                Branch::Variant(d) => d.type_refs@,
                Branch::Impl(u) => u.type_refs@,
                Branch::Arch(u) => u.type_refs@,
                Branch::Trait(d) => d.type_refs@,
                Branch::Block(u) => u.type_refs@,
            },
            ResolutionNode::Leaf { leaf, .. } => match leaf {
                Leaf::UseName(..) => Seq::empty(),
                Leaf::UseRename(..) => Seq::empty(),
                Leaf::UseGlob(..) => Seq::empty(),
                Leaf::Const(d) => d.type_refs@,
                Leaf::Type(d) => d.type_refs@,
                Leaf::TraitAlias(d) => d.type_refs@,
                Leaf::NamedField(d) => d.type_refs@,
                Leaf::UnnamedField(u) => u.type_refs@,
                Leaf::Entity(d) => d.type_refs@,
            },
        }
    }
}

/// A `pub(in path)` names at least one segment.
pub open spec fn vis_ok(n: ResolutionNode) -> bool {
    n.spec_visibility() matches Some(Vis::Restricted(_, path)) ==> path.segments@.len() > 0
}

pub open spec fn is_trait_or_impl_or_arch_kind(k: NodeKind) -> bool {
    k == NodeKind::Trait || k == NodeKind::Impl || k == NodeKind::Arch
}

pub open spec fn is_valid_use_path_segment_kind(k: NodeKind) -> bool {
    k == NodeKind::Mod || k == NodeKind::Enum || k == NodeKind::Root
}

pub open spec fn is_valid_pub_path_segment_kind(k: NodeKind) -> bool {
    k == NodeKind::Mod || k == NodeKind::Root
}

pub open spec fn is_type_kind(k: NodeKind) -> bool {
    k == NodeKind::Struct || k == NodeKind::Enum || k == NodeKind::Type
}

pub open spec fn is_type_existence_checking_candidate_kind(k: NodeKind) -> bool {
    match k {
        NodeKind::Impl | NodeKind::Trait | NodeKind::Fn | NodeKind::Struct | NodeKind::Enum
        | NodeKind::Arch | NodeKind::Block | NodeKind::Const | NodeKind::TraitAlias
        | NodeKind::Entity | NodeKind::Type => true,
        _ => false,
    }
}

/// Kinds that share the namespace of types.
pub open spec fn is_type_namespace_kind(k: NodeKind) -> bool {
    match k {
        NodeKind::Struct | NodeKind::Enum | NodeKind::Trait | NodeKind::TraitAlias
        | NodeKind::Type | NodeKind::UseName | NodeKind::UseRename => true,
        _ => false,
    }
}

/// The name classes as the rules give them, one way: mods conflict with
/// mods and types, functions and constants with each other and with types,
/// types with anything, fields with fields, variants with variants, roots
/// with roots.
pub open spec fn name_class_rule(a: NodeKind, b: NodeKind) -> bool {
    match a {
        NodeKind::Root => b == NodeKind::Root,
        NodeKind::Impl | NodeKind::Arch => false,
        NodeKind::NamedField => b == NodeKind::NamedField,
        NodeKind::UnnamedField => false,
        NodeKind::Variant => b == NodeKind::Variant,
        NodeKind::Mod => b == NodeKind::Mod || is_type_namespace_kind(b),
        NodeKind::Const | NodeKind::Fn => b == NodeKind::Const || b == NodeKind::Fn
            || is_type_namespace_kind(b),
        NodeKind::Struct | NodeKind::Enum | NodeKind::Entity | NodeKind::Trait | NodeKind::Block
        | NodeKind::TraitAlias | NodeKind::Type | NodeKind::UseName | NodeKind::UseRename => true,
        NodeKind::Use | NodeKind::UseGlob => false,
    }
}

/// Nodes without a name of their own (`impl`, `arch`, `use` items, unnamed
/// fields and globs) are in no name class.
pub open spec fn is_unnamed_kind(k: NodeKind) -> bool {
    k == NodeKind::Impl || k == NodeKind::Arch || k == NodeKind::Use || k == NodeKind::UnnamedField
        || k == NodeKind::UseGlob
}

/// Which kinds of nodes may not share a name within one scope: roots only
/// with roots; unnamed nodes with nothing; other named kinds when a rule
/// puts them in one class, in either order (types conflict with mods and
/// functions as those conflict with types).
pub open spec fn in_same_name_class_kind(a: NodeKind, b: NodeKind) -> bool {
    if a == NodeKind::Root || b == NodeKind::Root {
        a == NodeKind::Root && b == NodeKind::Root
    } else if is_unnamed_kind(a) || is_unnamed_kind(b) {
        false
    } else {
        name_class_rule(a, b) || name_class_rule(b, a)
    }
}

/// Sharing a name class is symmetric.
pub proof fn lemma_name_class_kind_symmetric(a: NodeKind, b: NodeKind)
    ensures
        in_same_name_class_kind(a, b) == in_same_name_class_kind(b, a),
{
}

/// Functions and constants share one class: two of them with one name in a
/// scope conflict. Modules conflict with modules, fields with fields,
/// variants with variants and roots with roots, and types with any named
/// item; a module does not conflict with a function or constant, nor a
/// variant with a function, constant, module or field.
pub proof fn lemma_name_classes(a: NodeKind, b: NodeKind)
    ensures
        (a == NodeKind::Fn || a == NodeKind::Const) && (b == NodeKind::Fn || b == NodeKind::Const)
            ==> in_same_name_class_kind(a, b),
        a == NodeKind::Mod && b == NodeKind::Mod ==> in_same_name_class_kind(a, b),
        a == NodeKind::NamedField && b == NodeKind::NamedField ==> in_same_name_class_kind(a, b),
        a == NodeKind::Variant && b == NodeKind::Variant ==> in_same_name_class_kind(a, b),
        a == NodeKind::Root && b == NodeKind::Root ==> in_same_name_class_kind(a, b),
        a == NodeKind::Mod && (b == NodeKind::Fn || b == NodeKind::Const) ==> !in_same_name_class_kind(a, b),
        a == NodeKind::Variant && (b == NodeKind::Fn || b == NodeKind::Const || b == NodeKind::Mod
            || b == NodeKind::NamedField) ==> !in_same_name_class_kind(a, b),
        (a == NodeKind::Struct || a == NodeKind::Enum || a == NodeKind::Type || a == NodeKind::Trait) && b
            != NodeKind::Root && b != NodeKind::Impl && b != NodeKind::Arch && b != NodeKind::Use && b
            != NodeKind::UnnamedField && b != NodeKind::UseGlob ==> in_same_name_class_kind(a, b),
{
}

fn name_class_rule_exec(a: NodeKind, b: NodeKind) -> (r: bool)
    ensures
        r == name_class_rule(a, b),
{
    let b_is_type_namespace = matches!(
        b,
        NodeKind::Struct | NodeKind::Enum | NodeKind::Trait | NodeKind::TraitAlias | NodeKind::Type
            | NodeKind::UseName | NodeKind::UseRename
    );
    match a {
        NodeKind::Root => matches!(b, NodeKind::Root),
        NodeKind::Impl | NodeKind::Arch => false,
        NodeKind::NamedField => matches!(b, NodeKind::NamedField),
        NodeKind::UnnamedField => false,
        NodeKind::Variant => matches!(b, NodeKind::Variant),
        NodeKind::Mod => matches!(b, NodeKind::Mod) || b_is_type_namespace,
        NodeKind::Const | NodeKind::Fn => matches!(b, NodeKind::Const | NodeKind::Fn)
            || b_is_type_namespace,
        NodeKind::Struct | NodeKind::Enum | NodeKind::Entity | NodeKind::Trait | NodeKind::Block
        | NodeKind::TraitAlias | NodeKind::Type | NodeKind::UseName | NodeKind::UseRename => true,
        NodeKind::Use | NodeKind::UseGlob => false,
    }
}

pub fn kinds_in_same_name_class(a: NodeKind, b: NodeKind) -> (r: bool)
    ensures
        r == in_same_name_class_kind(a, b),
{
    let a_unnamed = matches!(a, NodeKind::Impl | NodeKind::Arch | NodeKind::Use | NodeKind::UnnamedField | NodeKind::UseGlob);
    let b_unnamed = matches!(b, NodeKind::Impl | NodeKind::Arch | NodeKind::Use | NodeKind::UnnamedField | NodeKind::UseGlob);
    if matches!(a, NodeKind::Root) || matches!(b, NodeKind::Root) {
        matches!(a, NodeKind::Root) && matches!(b, NodeKind::Root)
    } else if a_unnamed || b_unnamed {
        false
    } else {
        name_class_rule_exec(a, b) || name_class_rule_exec(b, a)
    }
}

pub open spec fn item_hint_of_kind(k: NodeKind) -> Option<ItemHint> {
    match k {
        NodeKind::Root => Some(ItemHint::InternalNamedRootScope),
        NodeKind::Mod => Some(ItemHint::InternalNamedChildScope),
        NodeKind::Impl => Some(ItemHint::Item),
        NodeKind::Trait => Some(ItemHint::Trait),
        NodeKind::Fn => Some(ItemHint::Fn),
        NodeKind::Struct => Some(ItemHint::Type),
        NodeKind::Enum => Some(ItemHint::Type),
        NodeKind::Variant => Some(ItemHint::Variant),
        NodeKind::Use => None,
        NodeKind::Block => None,
        NodeKind::Arch => Some(ItemHint::Item),
        NodeKind::NamedField => Some(ItemHint::Field),
        NodeKind::UnnamedField => Some(ItemHint::Field),
        NodeKind::Const => Some(ItemHint::Var),
        NodeKind::TraitAlias => Some(ItemHint::Trait),
        NodeKind::Type => Some(ItemHint::Type),
        NodeKind::UseName => Some(ItemHint::Item),
        NodeKind::UseRename => Some(ItemHint::Item),
        NodeKind::UseGlob => None,
        NodeKind::Entity => Some(ItemHint::Type),
    }
}

pub fn item_hint_for(k: NodeKind) -> (r: Option<ItemHint>)
    ensures
        r == item_hint_of_kind(k),
{
    match k {
        NodeKind::Root => Some(ItemHint::InternalNamedRootScope),
        NodeKind::Mod => Some(ItemHint::InternalNamedChildScope),
        NodeKind::Impl => Some(ItemHint::Item),
        NodeKind::Trait => Some(ItemHint::Trait),
        NodeKind::Fn => Some(ItemHint::Fn),
        NodeKind::Struct => Some(ItemHint::Type),
        NodeKind::Enum => Some(ItemHint::Type),
        NodeKind::Variant => Some(ItemHint::Variant),
        NodeKind::Use => None,
        NodeKind::Block => None,
        NodeKind::Arch => Some(ItemHint::Item),
        NodeKind::NamedField => Some(ItemHint::Field),
        NodeKind::UnnamedField => Some(ItemHint::Field),
        NodeKind::Const => Some(ItemHint::Var),
        NodeKind::TraitAlias => Some(ItemHint::Trait),
        NodeKind::Type => Some(ItemHint::Type),
        NodeKind::UseName => Some(ItemHint::Item),
        NodeKind::UseRename => Some(ItemHint::Item),
        NodeKind::UseGlob => None,
        NodeKind::Entity => Some(ItemHint::Type),
    }
}

} // verus!

verus! {

/// A forest of scopes: one root per crate, with nested items as branches and leaves.
#[derive(Debug)]
pub struct ResolutionGraph {
    pub inner: Vec<ResolutionNode>,
    pub roots: Vec<ResolutionIndex>,
    /// The file backing each node's content, for roots and modules loaded from a file.
    pub content_files: Vec<Option<FileId>>,
}

/// `after` is `before` with `child` appended to its children; leaves have none to append to.
pub open spec fn is_with_child(before: ResolutionNode, after: ResolutionNode, child: ResolutionIndex) -> bool {
    match before {
        ResolutionNode::Root { name: a, children: ca } => match after {
            ResolutionNode::Root { name: b, children: cb } => a == b && cb@ == ca@.push(child),
            _ => false,
        },
        ResolutionNode::Branch { parent: pa, branch: ba, children: ca } => match after {
            ResolutionNode::Branch { parent: pb, branch: bb, children: cb } => pa == pb && ba == bb
                && cb@ == ca@.push(child),
            _ => false,
        },
        ResolutionNode::Leaf { .. } => after == before,
    }
}

impl ResolutionGraph {
    pub open spec fn len(&self) -> nat {
        self.inner@.len()
    }

    pub open spec fn node(&self, i: int) -> ResolutionNode {
        self.inner@[i]
    }

    pub open spec fn kind_of(&self, i: int) -> NodeKind {
        self.inner@[i].spec_kind()
    }

    /// Every index a leaf holds points into the graph.
    pub open spec fn leaf_refs_ok(&self, n: ResolutionNode) -> bool {
        match n {
            ResolutionNode::Leaf { leaf: Leaf::UseName(_, imports), .. } =>
                forall|j: int| 0 <= j < imports@.len() ==> #[trigger] imports@[j].0 < self.len(),
            ResolutionNode::Leaf { leaf: Leaf::UseRename(_, _, imports), .. } =>
                forall|j: int| 0 <= j < imports@.len() ==> #[trigger] imports@[j].0 < self.len(),
            ResolutionNode::Leaf { leaf: Leaf::UseGlob(_, scope), .. } => scope.0 < self.len(),
            _ => true,
        }
    }

    /// A node is placed after its parent and before its children, and its
    /// children name it as their parent.
    pub open spec fn node_ok(&self, i: int) -> bool {
        let n = self.inner@[i];
        &&& (n.spec_parent() matches Some(p) ==> p.0 < i)
        &&& (n.spec_children() matches Some(cs) ==> forall|j: int|
            0 <= j < cs.len() ==> i < (#[trigger] cs[j]).0 < self.len()
                && self.inner@[cs[j].0 as int].spec_parent() == Some(ResolutionIndex(i as usize)))
        &&& self.leaf_refs_ok(n)
        &&& vis_ok(n)
    }

    pub open spec fn wf(&self) -> bool {
        &&& self.content_files@.len() == self.inner@.len()
        &&& forall|i: int| 0 <= i < self.inner@.len() ==> #[trigger] self.node_ok(i)
        &&& forall|k: int| 0 <= k < self.roots@.len() ==> (#[trigger] self.roots@[k]).0 < self.len()
            && self.kind_of(self.roots@[k].0 as int) == NodeKind::Root
    }

    pub fn new() -> (g: ResolutionGraph)
        ensures
            g.wf(),
            g.len() == 0,
            g.roots@.len() == 0,
    {
        ResolutionGraph { inner: Vec::new(), roots: Vec::new(), content_files: Vec::new() }
    }

    /// Appends a node; a root is also recorded among the roots.
    pub fn add_node(&mut self, node: ResolutionNode) -> (idx: ResolutionIndex)
        requires
            old(self).wf(),
            node.spec_parent() matches Some(p) ==> p.0 < old(self).len(),
            node.spec_children() matches Some(cs) ==> cs.len() == 0,
            old(self).leaf_refs_ok(node),
            vis_ok(node),
        ensures
            final(self).wf(),
            idx.0 == old(self).len(),
            final(self).inner@ == old(self).inner@.push(node),
            final(self).content_files@ == old(self).content_files@.push(None),
            final(self).roots@ == (if node.spec_kind() == NodeKind::Root {
                old(self).roots@.push(idx)
            } else {
                old(self).roots@
            }),
    {
        let idx = ResolutionIndex(self.inner.len());
        if let ResolutionNode::Root { .. } = &node {
            self.roots.push(idx);
        }
        self.inner.push(node);
        self.content_files.push(None);
        proof {
            assert forall|i: int| 0 <= i < self.inner@.len() implies #[trigger] self.node_ok(i) by {
                if i < old(self).len() {
                    assert(old(self).node_ok(i));
                    assert(self.inner@[i] == old(self).inner@[i]);
                    let n = self.inner@[i];
                    if let Some(cs) = n.spec_children() {
                        assert forall|j: int| 0 <= j < cs.len() implies i < (#[trigger] cs[j]).0
                            < self.len() && self.inner@[cs[j].0 as int].spec_parent()
                            == Some(ResolutionIndex(i as usize)) by {
                            assert(self.inner@[cs[j].0 as int] == old(self).inner@[cs[j].0 as int]);
                        }
                    }
                }
            }
        }
        idx
    }

    /// Records the file that backs the content of `node`.
    pub fn set_content_file(&mut self, node: ResolutionIndex, file: FileId)
        requires
            old(self).wf(),
            node.0 < old(self).len(),
        ensures
            final(self).wf(),
            final(self).inner == old(self).inner,
            final(self).roots == old(self).roots,
            final(self).content_files@ == old(self).content_files@.update(node.0 as int, Some(file)),
    {
        self.content_files.set(node.0, Some(file));
        assert forall|i: int| 0 <= i < self.inner@.len() implies #[trigger] self.node_ok(i) by {
            assert(old(self).node_ok(i));
        }
    }

    /// The node at `idx`.
    pub fn get(&self, idx: ResolutionIndex) -> (r: &ResolutionNode)
        requires
            idx.0 < self.len(),
        ensures
            *r == self.node(idx.0 as int),
    {
        &self.inner[idx.0]
    }

    pub fn node_indices(&self) -> (r: Vec<ResolutionIndex>)
        ensures
            r@.len() == self.len(),
            forall|i: int| 0 <= i < r@.len() ==> (#[trigger] r@[i]).0 == i,
    {
        let mut r: Vec<ResolutionIndex> = Vec::new();
        let mut i: usize = 0;
        while i < self.inner.len()
            invariant
                i <= self.inner@.len(),
                r@.len() == i,
                forall|k: int| 0 <= k < r@.len() ==> (#[trigger] r@[k]).0 == k,
            decreases self.inner@.len() - i,
        {
            r.push(ResolutionIndex(i));
            i = i + 1;
        }
        r
    }

    /// Every root has a file backing its content.
    pub open spec fn roots_have_files(&self) -> bool {
        forall|i: int| 0 <= i < self.len() && #[trigger] self.kind_of(i) == NodeKind::Root
            ==> self.content_files@[i].is_some()
    }

    /// The file of the nearest scope, starting at `scope`, that is backed by a file:
    /// a root, or a module loaded from a file.
    pub open spec fn file_from(&self, scope: int) -> FileId
        decreases scope,
    {
        if 0 <= scope < self.len() {
            let n = self.inner@[scope];
            match n.spec_kind() {
                NodeKind::Root => self.content_files@[scope].unwrap(),
                _ => if n.spec_kind() == NodeKind::Mod && self.content_files@[scope].is_some() {
                    self.content_files@[scope].unwrap()
                } else {
                    match n.spec_parent() {
                        Some(p) => if p.0 < scope {
                            self.file_from(p.0 as int)
                        } else {
                            0
                        },
                        None => 0,
                    }
                },
            }
        } else {
            0
        }
    }

    /// The file a node was declared in.
    pub open spec fn spec_file(&self, node: int) -> FileId {
        match self.inner@[node].spec_parent() {
            None => self.file_from(node),
            Some(p) => self.file_from(p.0 as int),
        }
    }

    /// The file a node was declared in: that of its nearest ancestor (a root
    /// counts as its own) backed by a file.
    pub fn file(&self, node: ResolutionIndex) -> (f: FileId)
        requires
            self.wf(),
            self.roots_have_files(),
            node.0 < self.len(),
        ensures
            f == self.spec_file(node.0 as int),
    {
        proof {
            assert(self.node_ok(node.0 as int));
        }
        let mut next_parent = match self.inner[node.0].parent() {
            None => node,
            Some(p) => p,
        };
        loop
            invariant
                self.wf(),
                self.roots_have_files(),
                next_parent.0 < self.len(),
                self.spec_file(node.0 as int) == self.file_from(next_parent.0 as int),
            decreases next_parent.0,
        {
            proof {
                assert(self.node_ok(next_parent.0 as int));
            }
            let n = &self.inner[next_parent.0];
            match n.kind() {
                NodeKind::Root => {
                    assert(self.kind_of(next_parent.0 as int) == NodeKind::Root);
                    return self.content_files[next_parent.0].unwrap();
                },
                NodeKind::Mod => {
                    if let Some(content_file) = self.content_files[next_parent.0] {
                        return content_file;
                    }
                    next_parent = n.parent().unwrap();
                },
                _ => {
                    next_parent = n.parent().unwrap();
                },
            }
        }
    }

    pub fn add_child(&mut self, parent: ResolutionIndex, child: ResolutionIndex)
        requires
            old(self).wf(),
            parent.0 < child.0 < old(self).len(),
            old(self).node(child.0 as int).spec_parent() == Some(parent),
        ensures
            final(self).wf(),
            final(self).inner@.len() == old(self).inner@.len(),
            forall|k: int| 0 <= k < old(self).inner@.len() && k != parent.0 ==> #[trigger] final(self).inner@[k]
                == old(self).inner@[k],
            is_with_child(old(self).inner@[parent.0 as int], final(self).inner@[parent.0 as int], child),
            final(self).roots == old(self).roots,
            final(self).content_files == old(self).content_files,
    {
        let mut tmp = ResolutionNode::Root { name: String::new(), children: Vec::new() };
        std::mem::swap(&mut tmp, &mut self.inner[parent.0]);
        let tmp = match tmp {
            ResolutionNode::Root { name, mut children } => {
                children.push(child);
                ResolutionNode::Root { name, children }
            },
            ResolutionNode::Branch { parent, branch, mut children } => {
                children.push(child);
                ResolutionNode::Branch { parent, branch, children }
            },
            leaf => leaf,
        };
        self.inner.set(parent.0, tmp);
        proof {
            let p = parent.0 as int;
            assert forall|k: int| 0 <= k < self.len() implies
                #[trigger] self.inner@[k].spec_parent() == old(self).inner@[k].spec_parent()
                && self.inner@[k].spec_kind() == old(self).inner@[k].spec_kind() by {
                if k != p {
                    assert(self.inner@[k] == old(self).inner@[k]);
                }
            }
            assert forall|i: int| 0 <= i < self.inner@.len() implies #[trigger] self.node_ok(i) by {
                assert(old(self).node_ok(i));
                if i != p {
                    assert(self.inner@[i] == old(self).inner@[i]);
                    let n = self.inner@[i];
                    if let Some(cs) = n.spec_children() {
                        assert forall|j: int| 0 <= j < cs.len() implies i < (#[trigger] cs[j]).0
                            < self.len() && self.inner@[cs[j].0 as int].spec_parent()
                            == Some(ResolutionIndex(i as usize)) by {
                            assert(self.inner@[cs[j].0 as int].spec_parent()
                                == old(self).inner@[cs[j].0 as int].spec_parent());
                        }
                    }
                } else {
                    let n = self.inner@[i];
                    if let Some(cs) = n.spec_children() {
                        let ocs = old(self).inner@[i].spec_children().unwrap();
                        assert(cs =~= ocs.push(child));
                        assert forall|j: int| 0 <= j < cs.len() implies i < (#[trigger] cs[j]).0
                            < self.len() && self.inner@[cs[j].0 as int].spec_parent()
                            == Some(ResolutionIndex(i as usize)) by {
                            if j < ocs.len() {
                                assert(cs[j] == ocs[j]);
                            }
                            assert(self.inner@[cs[j].0 as int].spec_parent()
                                == old(self).inner@[cs[j].0 as int].spec_parent());
                        }
                    }
                }
            }
            assert forall|k: int| 0 <= k < self.roots@.len() implies (#[trigger] self.roots@[k]).0
                < self.len() && self.kind_of(self.roots@[k].0 as int) == NodeKind::Root by {
                assert(old(self).kind_of(self.roots@[k].0 as int) == NodeKind::Root);
                assert(self.inner@[self.roots@[k].0 as int].spec_kind()
                    == old(self).inner@[self.roots@[k].0 as int].spec_kind());
            }
        }
    }
}

} // verus!
