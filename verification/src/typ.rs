//! Types as they are written: names of types and type literals.
use vstd::prelude::*;
use vstd::std_specs::convert::FromSpecImpl;
use crate::identifier::{QualifiedIdent, QualifiedIdentView};

verus! {

/// A type: the name of a type, or a type literal.
pub enum GoType<'a> {
    TypeName(TypeName<'a>),
    TypeLit(TypeLit),
}

/// The name of a type: an identifier, plain or qualified. The predeclared
/// types are named by plain identifiers, as those of the user are.
pub enum TypeName<'a> {
    Identifier(&'a str),
    QualifiedIdent(QualifiedIdent<'a>),
}

/// A type literal. None of its forms (array, struct, pointer, function,
/// interface, slice, map and channel types) is supported yet: the one value
/// of this type says so.
pub enum TypeLit {
    NotYetSupported,
}

/// The mathematical value of a [`TypeName`].
pub ghost enum TypeNameView {
    Identifier(Seq<char>),
    QualifiedIdent(QualifiedIdentView),
}

impl<'a> DeepView for TypeName<'a> {
    type V = TypeNameView;

    open spec fn deep_view(&self) -> TypeNameView {
        match *self {
            TypeName::Identifier(name) => TypeNameView::Identifier(name@),
            TypeName::QualifiedIdent(q) => TypeNameView::QualifiedIdent(q.deep_view()),
        }
    }
}

impl<'a> From<&'a str> for TypeName<'a> {
    /// The type that the plain identifier `v` names.
    fn from(v: &'a str) -> (r: Self) {
        Self::Identifier(v)
    }
}

impl<'a> FromSpecImpl<&'a str> for TypeName<'a> {
    open spec fn obeys_from_spec() -> bool {
        true
    }

    open spec fn from_spec(v: &'a str) -> Self {
        TypeName::Identifier(v)
    }
}

impl<'a> From<QualifiedIdent<'a>> for TypeName<'a> {
    /// The type that the qualified identifier `v` names.
    fn from(v: QualifiedIdent<'a>) -> (r: Self) {
        Self::QualifiedIdent(v)
    }
}

impl<'a> FromSpecImpl<QualifiedIdent<'a>> for TypeName<'a> {
    open spec fn obeys_from_spec() -> bool {
        true
    }

    open spec fn from_spec(v: QualifiedIdent<'a>) -> Self {
        TypeName::QualifiedIdent(v)
    }
}

} // verus!
