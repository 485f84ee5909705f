use vstd::prelude::*;

verus! {

/// Kind of a type known to the compiler.
#[derive(Debug, Clone, Copy, PartialEq, Eq, Structural)]
pub enum TypeKind {
    Any,
    Boolean,
    String,
    Unresolved,
}

/// Handle of a type in the symbol table; entry 0 is the unresolved type.
#[derive(Debug, Clone, Copy, PartialEq, Eq, Structural)]
pub struct TypeIndex(pub u32);

impl TypeIndex {
    /// Creates a handle from its table position.
    pub fn new(index: u32) -> (type_index: TypeIndex)
        ensures
            type_index.0 == index,
    {
        TypeIndex(index)
    }

    /// The handle of the unresolved type.
    pub fn unresolved() -> (type_index: TypeIndex)
        ensures
            type_index.0 == 0,
    {
        TypeIndex(0)
    }

    /// Returns whether this handle is the unresolved type.
    pub fn is_unresolved(&self) -> (unresolved: bool)
        ensures
            unresolved == (self.0 == 0),
    {
        self.0 == 0
    }

    /// The table position of this handle.
    pub fn as_usize(&self) -> (position: usize)
        ensures
            position == self.0,
    {
        self.0 as usize
    }
}

/// Handle of an effect in the symbol table; entry 0 is reserved.
#[derive(Debug, Clone, Copy, PartialEq, Eq, Structural)]
pub struct EffectIndex(pub u32);

impl EffectIndex {
    /// Creates a handle from its table position.
    pub fn new(index: u32) -> (effect_index: EffectIndex)
        ensures
            effect_index.0 == index,
    {
        EffectIndex(index)
    }

    /// The table position of this handle.
    pub fn as_usize(&self) -> (position: usize)
        ensures
            position == self.0,
    {
        self.0 as usize
    }
}

/// Handle of a function in the symbol table; entry 0 is reserved.
#[derive(Debug, Clone, Copy, PartialEq, Eq, Structural)]
pub struct FunctionIndex(pub u32);

impl FunctionIndex {
    /// Creates a handle from its table position.
    pub fn new(index: u32) -> (function_index: FunctionIndex)
        ensures
            function_index.0 == index,
    {
        FunctionIndex(index)
    }

    /// The table position of this handle.
    pub fn as_usize(&self) -> (position: usize)
        ensures
            position == self.0,
    {
        self.0 as usize
    }
}

} // verus!
