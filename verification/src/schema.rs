use crate::error::{Failure, FragmentGeneratorError};
use vstd::prelude::*;

verus! {

/// A reference to a named type, possibly wrapped in list and non-null markers.
#[derive(Debug)]
pub enum TypeRef {
    Named(String),
    List(Box<TypeRef>),
    NonNull(Box<TypeRef>),
}

impl TypeRef {
    /// The name that remains once every wrapper is stripped.
    pub open spec fn underlying(self) -> Seq<char>
        decreases self,
    {
        match self {
            TypeRef::Named(name) => name@,
            TypeRef::List(inner) => inner.underlying(),
            TypeRef::NonNull(inner) => inner.underlying(),
        }
    }

    /// Strips list and non-null wrappers, in any nesting, down to the name.
    pub fn underlying_name(&self) -> (name: &String)
        ensures
            name@ == self.underlying(),
        decreases self,
    {
        match self {
            TypeRef::Named(name) => name,
            TypeRef::List(inner) => inner.underlying_name(),
            TypeRef::NonNull(inner) => inner.underlying_name(),
        }
    }
}

/// An argument of a field, or a field of an input object: a name and a type.
#[derive(Debug)]
pub struct InputValueDefinition {
    pub name: String,
    pub ty: TypeRef,
}

/// A field of an object or interface.
#[derive(Debug)]
pub struct FieldDefinition {
    pub name: String,
    pub ty: TypeRef,
    pub arguments: Vec<InputValueDefinition>,
}

/// The kind of a named type.
#[derive(Clone, Copy, Debug, PartialEq, Eq, Structural)]
pub enum TypeKind {
    Scalar,
    Enum,
    Object,
    Interface,
    Union,
    InputObject,
}

impl TypeKind {
    /// Scalars and enums are selected directly, with nothing beneath them.
    pub open spec fn is_leaf(self) -> bool {
        self == TypeKind::Scalar || self == TypeKind::Enum
    }
}

/// A named type of the schema.
#[derive(Debug)]
#[allow(inconsistent_fields)]
pub enum TypeDefinition {
    Scalar { name: String },
    Enum { name: String },
    /// An object type. One that belongs to the schema's introspection can be
    /// referred to like any other, but gets no fragment.
    Object {
        name: String,
        fields: Vec<FieldDefinition>,
        implements: Vec<String>,
        introspection: bool,
    },
    Interface { name: String, fields: Vec<FieldDefinition>, implements: Vec<String> },
    Union { name: String, members: Vec<String> },
    InputObject { name: String, fields: Vec<InputValueDefinition> },
}

impl TypeDefinition {
    /// The name of the type.
    pub open spec fn spec_name(self) -> Seq<char> {
        match self {
            TypeDefinition::Scalar { name } => name@,
            TypeDefinition::Enum { name } => name@,
            TypeDefinition::Object { name, .. } => name@,
            TypeDefinition::Interface { name, .. } => name@,
            TypeDefinition::Union { name, .. } => name@,
            TypeDefinition::InputObject { name, .. } => name@,
        }
    }

    /// The kind of the type.
    pub open spec fn spec_kind(self) -> TypeKind {
        match self {
            TypeDefinition::Scalar { .. } => TypeKind::Scalar,
            TypeDefinition::Enum { .. } => TypeKind::Enum,
            TypeDefinition::Object { .. } => TypeKind::Object,
            TypeDefinition::Interface { .. } => TypeKind::Interface,
            TypeDefinition::Union { .. } => TypeKind::Union,
            TypeDefinition::InputObject { .. } => TypeKind::InputObject,
        }
    }

    /// Whether a fragment is made for the type: not for a scalar, an enum or
    /// an object of introspection.
    pub open spec fn gets_fragment(self) -> bool {
        match self {
            TypeDefinition::Scalar { .. } => false,
            TypeDefinition::Enum { .. } => false,
            TypeDefinition::Object { introspection, .. } => !introspection,
            _ => true,
        }
    }

    /// The interfaces that an object or interface declares as implemented.
    pub open spec fn spec_implements(self) -> Seq<String> {
        match self {
            TypeDefinition::Object { implements, .. } => implements@,
            TypeDefinition::Interface { implements, .. } => implements@,
            _ => Seq::empty(),
        }
    }

    /// The name of the type.
    pub fn name(&self) -> (name: &String)
        ensures
            name@ == self.spec_name(),
    {
        match self {
            TypeDefinition::Scalar { name } => name,
            TypeDefinition::Enum { name } => name,
            TypeDefinition::Object { name, .. } => name,
            TypeDefinition::Interface { name, .. } => name,
            TypeDefinition::Union { name, .. } => name,
            TypeDefinition::InputObject { name, .. } => name,
        }
    }

    /// The kind of the type.
    pub fn kind(&self) -> (kind: TypeKind)
        ensures
            kind == self.spec_kind(),
    {
        match self {
            TypeDefinition::Scalar { .. } => TypeKind::Scalar,
            TypeDefinition::Enum { .. } => TypeKind::Enum,
            TypeDefinition::Object { .. } => TypeKind::Object,
            TypeDefinition::Interface { .. } => TypeKind::Interface,
            TypeDefinition::Union { .. } => TypeKind::Union,
            TypeDefinition::InputObject { .. } => TypeKind::InputObject,
        }
    }
}

/// Whether `i` is the place of the first definition in `types` named `name`.
pub open spec fn is_first_named(types: Seq<TypeDefinition>, name: Seq<char>, i: int) -> bool {
    &&& 0 <= i < types.len()
    &&& types[i].spec_name() == name
    &&& forall|j: int| 0 <= j < i ==> (#[trigger] types[j]).spec_name() != name
}

/// Whether some definition in `types` is named `name`.
pub open spec fn declares(types: Seq<TypeDefinition>, name: Seq<char>) -> bool {
    exists|i: int| is_first_named(types, name, i)
}

/// The place of the first definition named `name`, where one exists.
pub open spec fn index_of(types: Seq<TypeDefinition>, name: Seq<char>) -> int {
    choose|i: int| is_first_named(types, name, i)
}

/// The kind of the type named `name`, where one exists.
pub open spec fn kind_of(types: Seq<TypeDefinition>, name: Seq<char>) -> TypeKind {
    types[index_of(types, name)].spec_kind()
}

/// Two first places of one name are the same place.
pub proof fn lemma_first_named_unique(types: Seq<TypeDefinition>, name: Seq<char>, i: int, j: int)
    requires
        is_first_named(types, name, i),
        is_first_named(types, name, j),
    ensures
        i == j,
{
    if i < j {
        assert(types[i].spec_name() != name);
    } else if j < i {
        assert(types[j].spec_name() != name);
    }
}

/// What the classifier finds beneath a type reference.
pub enum Scalarity<'a> {
    /// A scalar or an enum.
    Leaf,
    /// An object, interface, union or input object, with its definition.
    Compound(&'a TypeDefinition),
}

/// The named types of a schema, in the order in which they were declared.
/// Names are taken to be unique; where one occurs twice, the first counts.
#[derive(Debug)]
pub struct TypeRegistry {
    pub types: Vec<TypeDefinition>,
}

impl TypeRegistry {
    /// Finds the first definition named `name`.
    pub fn lookup(&self, name: &String) -> (found: Option<usize>)
        ensures
            found.is_some() == declares(self.types@, name@),
            found.is_some() ==> found.unwrap() == index_of(self.types@, name@),
            found.is_some() ==> found.unwrap() < self.types@.len(),
    {
        let mut i: usize = 0;
        while i < self.types.len()
            invariant
                i <= self.types@.len(),
                forall|j: int| 0 <= j < i ==> (#[trigger] self.types@[j]).spec_name() != name@,
            decreases self.types@.len() - i,
        {
            if *self.types[i].name() == *name {
                proof {
                    assert(is_first_named(self.types@, name@, i as int));
                    lemma_first_named_unique(
                        self.types@,
                        name@,
                        i as int,
                        index_of(self.types@, name@),
                    );
                }
                return Some(i);
            }
            i += 1;
        }
        proof {
            assert forall|k: int| !is_first_named(self.types@, name@, k) by {
                if 0 <= k < self.types@.len() {
                    assert(self.types@[k].spec_name() != name@);
                }
            }
        }
        None
    }

    /// Unwraps `ty` to its underlying named type and tells whether that type
    /// is a leaf or compound. Fails exactly when the registry has no type of
    /// that name.
    pub fn classify<'a>(&'a self, ty: &TypeRef) -> (found: Result<Scalarity<'a>, FragmentGeneratorError>)
        ensures
            match found {
                Ok(Scalarity::Leaf) => declares(self.types@, ty.underlying()) && kind_of(
                    self.types@,
                    ty.underlying(),
                ).is_leaf(),
                Ok(Scalarity::Compound(def)) => declares(self.types@, ty.underlying()) && !kind_of(
                    self.types@,
                    ty.underlying(),
                ).is_leaf() && *def == self.types@[index_of(self.types@, ty.underlying())],
                Err(e) => e@ == Failure::UnresolvedType(ty.underlying()) && !declares(
                    self.types@,
                    ty.underlying(),
                ),
            },
    {
        let target = ty.underlying_name();
        match self.lookup(target) {
            None => Err(FragmentGeneratorError::UnresolvedType(target.clone())),
            Some(i) => {
                let def = &self.types[i];
                match def.kind() {
                    TypeKind::Scalar | TypeKind::Enum => Ok(Scalarity::Leaf),
                    _ => Ok(Scalarity::Compound(def)),
                }
            },
        }
    }
}

} // verus!
