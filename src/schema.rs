//! The resolved schema model that decoding walks.
use vstd::prelude::*;

verus! {

/// The fixed set of primitive kinds a field may have.
#[derive(Clone, Copy, Debug, PartialEq, Eq, Structural)]
pub enum Primitive {
    U8,
    U16,
    U64,
    I64,
    Bool,
    Pubkey,
    Str,
}

/// A resolved field type.
#[derive(Debug)]
pub enum Layout {
    Prim(Primitive),
    /// Exactly `len` elements of the inner layout, back to back.
    Array(Box<Layout>, usize),
    /// A reference into the decoder's table of named type definitions.
    Def(usize),
    /// Placeholder for a shape the schema grammar does not know: zero bytes, a unit value.
    Unknown,
}

/// A named field of a struct or of an instruction's argument list.
#[derive(Debug)]
pub struct Field {
    pub name: String,
    pub ty: Layout,
}

/// The body of a named type: a struct with ordered fields, or an enum without payloads.
#[derive(Debug)]
pub enum TypeBody {
    Struct(Vec<Field>),
    Enum(Vec<String>),
}

/// A named type definition.
#[derive(Debug)]
pub struct TypeDef {
    pub name: String,
    pub body: TypeBody,
}

/// Size measure of a layout, used to bound recursion over nested arrays.
pub open spec fn layout_size(t: Layout) -> nat
    decreases t,
{
    match t {
        Layout::Array(e, _) => 1 + layout_size(*e),
        _ => 1,
    }
}

} // verus!
