//! What the nodes of the syntax tree are, as mathematics.
//!
//! A borrowed node and the owned node made from it have the same model: the
//! model is what the two forms have in common. Text is modelled by its UTF-8
//! bytes.

use vstd::prelude::*;

verus! {

/// A type expression.
pub enum TypeModel {
    Bool,
    Byte,
    I8,
    I16,
    I32,
    I64,
    Double,
    String,
    Binary,
    /// A type referred to by its name.
    Named(Seq<u8>),
    ListOf(Box<TypeModel>),
    SetOf(Box<TypeModel>),
    MapOf(Box<TypeModel>, Box<TypeModel>),
}

/// A constant value.
pub enum ValueModel {
    Int(int),
    /// A floating-point constant, by its text.
    Double(Seq<u8>),
    /// A string literal, by the text between its quotes.
    Literal(Seq<u8>),
    /// A reference to a named constant or to an enum member.
    Identifier(Seq<u8>),
    List(Seq<ValueModel>),
    /// The entries of a map, in the order in which they were written.
    MapOf(Seq<(ValueModel, ValueModel)>),
}

/// A field of a struct, union or exception, or a parameter of a function.
pub struct FieldModel {
    pub id: Option<int>,
    /// `Some(true)` for `required`, `Some(false)` for `optional`, `None`
    /// where the source says neither.
    pub required: Option<bool>,
    pub type_: TypeModel,
    pub name: Seq<u8>,
    pub default: Option<ValueModel>,
}

/// A function of a service.
pub struct FunctionModel {
    pub oneway: bool,
    /// `None` for `void`.
    pub returns: Option<TypeModel>,
    pub name: Seq<u8>,
    pub parameters: Seq<FieldModel>,
    pub exceptions: Option<Seq<FieldModel>>,
}

/// A member of an enum.
pub struct EnumValueModel {
    pub name: Seq<u8>,
    pub value: Option<int>,
}

pub struct ConstModel {
    pub doc_comment: Option<Seq<u8>>,
    pub name: Seq<u8>,
    pub type_: TypeModel,
    pub value: ValueModel,
}

pub struct TypedefModel {
    pub doc_comment: Option<Seq<u8>>,
    pub old: TypeModel,
    pub alias: Seq<u8>,
}

pub struct EnumModel {
    pub doc_comment: Option<Seq<u8>>,
    pub name: Seq<u8>,
    pub children: Seq<EnumValueModel>,
}

/// A struct, a union or an exception: the three have the same shape.
pub struct RecordModel {
    pub doc_comment: Option<Seq<u8>>,
    pub name: Seq<u8>,
    pub fields: Seq<FieldModel>,
}

pub struct ServiceModel {
    pub doc_comment: Option<Seq<u8>>,
    pub name: Seq<u8>,
    pub extension: Option<Seq<u8>>,
    pub functions: Seq<FunctionModel>,
}

/// The number that the member at `index` of an enum stands for: the one
/// written for it, or else one more than the member before it stands for, and
/// zero for the first.
pub open spec fn effective_value(children: Seq<EnumValueModel>, index: int) -> int
    decreases index,
{
    if 0 <= index < children.len() {
        match children[index].value {
            Some(v) => v,
            None => if index == 0 {
                0
            } else {
                effective_value(children, index - 1) + 1
            },
        }
    } else {
        0
    }
}

} // verus!
