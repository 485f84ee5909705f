use vstd::prelude::*;
use crate::native_function::{NativeFunctionRegistry, default_native, default_native_function_registry};

verus! {

/// External compiler inputs for one compilation run: the native implementations.
#[derive(Debug, Clone)]
pub struct CompilationSession {
    native_function_registry: NativeFunctionRegistry,
}

impl CompilationSession {
    /// The registry of native implementations.
    pub closed spec fn registry(&self) -> NativeFunctionRegistry {
        self.native_function_registry
    }

    /// Creates a compilation session without native implementations.
    pub fn new() -> (session: CompilationSession)
        ensures
            forall|name: Seq<char>| session.registry().registered(name) is None,
    {
        CompilationSession { native_function_registry: NativeFunctionRegistry::new() }
    }

    /// Creates a compilation session with the default native implementations.
    pub fn with_default_native_functions() -> (session: CompilationSession)
        ensures
            forall|name: Seq<char>| session.registry().registered(name) == default_native(name),
    {
        CompilationSession { native_function_registry: default_native_function_registry() }
    }

    /// Returns the native function registry for this compilation.
    pub fn native_function_registry(&self) -> (registry: &NativeFunctionRegistry)
        ensures
            *registry == self.registry(),
    {
        &self.native_function_registry
    }
}

impl Default for CompilationSession {
    fn default() -> (session: CompilationSession)
        ensures
            forall|name: Seq<char>| session.registry().registered(name) is None,
    {
        CompilationSession::new()
    }
}

} // verus!
