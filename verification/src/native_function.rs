use vstd::prelude::*;
use crate::span::Span;
use crate::source_file::SourceFile;
use crate::types::TypeKind;
use crate::error::{AssertionError, ErrorKind, FailureView, OcelotError, OcelotResult, error_view, is_message_error};
use crate::runtime_value::{RuntimeValue, RuntimeValueView, assertion_text, display_text};
use crate::name_table::NameTable;

verus! {

/// One native function implementation signature.
#[derive(Debug, Clone, PartialEq, Eq)]
pub struct NativeFunctionSignature {
    pub argument_types: Vec<TypeKind>,
}

impl NativeFunctionSignature {
    /// Creates one native signature from argument types.
    pub fn new(argument_types: Vec<TypeKind>) -> (signature: NativeFunctionSignature)
        ensures
            signature.argument_types@ == argument_types@,
    {
        NativeFunctionSignature { argument_types }
    }
}

/// Call-site context needed by native implementations.
pub struct NativeFunctionContext<'a> {
    pub source_file: &'a SourceFile,
    pub expression_span: Span,
}

impl<'a> NativeFunctionContext<'a> {
    /// Creates one native function call context.
    pub fn new(source_file: &'a SourceFile, expression_span: Span) -> (context: NativeFunctionContext<'a>)
        ensures
            context.source_file == source_file,
            context.expression_span == expression_span,
    {
        NativeFunctionContext { source_file, expression_span }
    }
}

/// True when `error` is the assertion failure raised at the context's call site.
pub open spec fn is_assertion_at(error: OcelotError, context: NativeFunctionContext, message: Seq<char>) -> bool {
    error.kind matches ErrorKind::AssertionError(a) && a.span == context.expression_span
        && a.message@ == message && a.source_file.path@ == context.source_file.path@
        && a.source_file.source@ == context.source_file.source@
}

/// Native `println` implementation: prints a string or boolean followed by a line break.
#[derive(Debug, Clone, Copy, Default, PartialEq, Eq, Structural)]
pub struct PrintlnNativeFunction;

impl PrintlnNativeFunction {
    /// Appends the display text of `arguments[0]` and a line break to `output`.
    pub fn apply(&self, arguments: &[RuntimeValue], context: &NativeFunctionContext, output: &mut String) -> (result: OcelotResult<RuntimeValue>)
        requires
            arguments@.len() >= 1,
        ensures
            match arguments@[0]@ {
                RuntimeValueView::Unit => result is Err && is_message_error(
                    result->Err_0,
                    "type error: `println` expects a string or bool argument"@,
                ) && final(output)@ == old(output)@,
                _ => result is Ok && result->Ok_0@ == RuntimeValueView::Unit && final(output)@
                    == old(output)@ + display_text(arguments@[0]@) + "\n"@,
            },
    {
        let value = &arguments[0];
        if value.is_unit() {
            return Err(OcelotError::message_str("type error: `println` expects a string or bool argument"));
        }
        let text = value.render_for_display();
        output.append(text.as_str());
        output.append("\n");
        Ok(RuntimeValue::unit())
    }

    /// `println` takes one argument of any type.
    pub fn signature(&self) -> (signature: NativeFunctionSignature)
        ensures
            signature.argument_types@ == seq![TypeKind::Any],
    {
        let mut types = Vec::new();
        types.push(TypeKind::Any);
        NativeFunctionSignature::new(types)
    }
}

/// Native `assert` implementation: fails when its boolean argument is false.
#[derive(Debug, Clone, Copy, Default, PartialEq, Eq, Structural)]
pub struct AssertNativeFunction;

impl AssertNativeFunction {
    /// Succeeds when `arguments[0]` is `true`.
    pub fn apply(&self, arguments: &[RuntimeValue], context: &NativeFunctionContext) -> (result: OcelotResult<RuntimeValue>)
        requires
            arguments@.len() >= 1,
        ensures
            match arguments@[0]@ {
                RuntimeValueView::Boolean(true) => result is Ok && result->Ok_0@ == RuntimeValueView::Unit,
                RuntimeValueView::Boolean(false) => result is Err && is_assertion_at(
                    result->Err_0,
                    *context,
                    "assert condition was false"@,
                ) && result->Err_0.kind->AssertionError_0.diff is None,
                _ => result is Err && is_message_error(result->Err_0, "type error: `assert` expects a bool argument"@),
            },
    {
        let condition = arguments[0].expect_boolean("type error: `assert` expects a bool argument")?;
        if condition {
            return Ok(RuntimeValue::unit());
        }
        Err(OcelotError::assertion_error(AssertionError::new_without_diff(
            context.source_file,
            context.expression_span,
            "assert condition was false",
        )))
    }

    /// `assert` takes one boolean argument.
    pub fn signature(&self) -> (signature: NativeFunctionSignature)
        ensures
            signature.argument_types@ == seq![TypeKind::Boolean],
    {
        let mut types = Vec::new();
        types.push(TypeKind::Boolean);
        NativeFunctionSignature::new(types)
    }
}

/// Native `assert_eq` implementation: fails when its two arguments differ.
#[derive(Debug, Clone, Copy, Default, PartialEq, Eq, Structural)]
pub struct AssertEqNativeFunction;

impl AssertEqNativeFunction {
    /// Succeeds when `arguments[0]` and `arguments[1]` are equal; otherwise reports both,
    /// rendered for assertions.
    pub fn apply(&self, arguments: &[RuntimeValue], context: &NativeFunctionContext) -> (result: OcelotResult<RuntimeValue>)
        requires
            arguments@.len() >= 2,
        ensures
            arguments@[0]@ == arguments@[1]@ ==> result is Ok && result->Ok_0@ == RuntimeValueView::Unit,
            arguments@[0]@ != arguments@[1]@ ==> result is Err && is_assertion_at(
                result->Err_0,
                *context,
                "assert_eq values differ"@,
            ) && result->Err_0.kind->AssertionError_0.diff is Some
                && result->Err_0.kind->AssertionError_0.diff->Some_0.0@ == assertion_text(arguments@[0]@)
                && result->Err_0.kind->AssertionError_0.diff->Some_0.1@ == assertion_text(arguments@[1]@),
    {
        let expected = &arguments[0];
        let actual = &arguments[1];
        if expected.equals(actual) {
            return Ok(RuntimeValue::unit());
        }
        Err(OcelotError::assertion_error(AssertionError::new(
            context.source_file,
            context.expression_span,
            "assert_eq values differ",
            expected.render_for_assertion(),
            actual.render_for_assertion(),
        )))
    }

    /// `assert_eq` takes two arguments of any type.
    pub fn signature(&self) -> (signature: NativeFunctionSignature)
        ensures
            signature.argument_types@ == seq![TypeKind::Any, TypeKind::Any],
    {
        let mut types = Vec::new();
        types.push(TypeKind::Any);
        types.push(TypeKind::Any);
        NativeFunctionSignature::new(types)
    }
}

/// One native function implementation.
#[derive(Debug, Clone, Copy, PartialEq, Eq, Structural)]
pub enum NativeFunction {
    Println(PrintlnNativeFunction),
    Assert(AssertNativeFunction),
    AssertEq(AssertEqNativeFunction),
}

/// Number of arguments a native function takes.
pub open spec fn native_arity(function: NativeFunction) -> nat {
    match function {
        NativeFunction::Println(_) => 1,
        NativeFunction::Assert(_) => 1,
        NativeFunction::AssertEq(_) => 2,
    }
}

impl NativeFunction {
    /// Returns the native function signature used for validation.
    pub fn signature(&self) -> (signature: NativeFunctionSignature)
        ensures
            signature.argument_types@.len() == native_arity(*self),
            match *self {
                NativeFunction::Println(_) => signature.argument_types@ == seq![TypeKind::Any],
                NativeFunction::Assert(_) => signature.argument_types@ == seq![TypeKind::Boolean],
                NativeFunction::AssertEq(_) => signature.argument_types@ == seq![TypeKind::Any, TypeKind::Any],
            },
    {
        match self {
            NativeFunction::Println(f) => f.signature(),
            NativeFunction::Assert(f) => f.signature(),
            NativeFunction::AssertEq(f) => f.signature(),
        }
    }

    /// Executes the native implementation for one evaluated argument list.
    pub fn apply(&self, arguments: &[RuntimeValue], context: &NativeFunctionContext, output: &mut String) -> (result: OcelotResult<RuntimeValue>)
        requires
            arguments@.len() >= native_arity(*self),
        ensures
            ({
                let run = native_run(*self, arguments@.map_values(|v: RuntimeValue| v@),
                    context.source_file.path@, context.source_file.source@, context.expression_span);
                &&& result is Ok <==> run.0 is Ok
                &&& result matches Ok(v) ==> v@ == run.0->Ok_0
                &&& result matches Err(e) ==> error_view(e) == run.0->Err_0
                &&& final(output)@ == old(output)@ + run.1
            }),
    {
        let result = match self {
            NativeFunction::Println(f) => f.apply(arguments, context, output),
            NativeFunction::Assert(f) => f.apply(arguments, context),
            NativeFunction::AssertEq(f) => f.apply(arguments, context),
        };
        proof {
            let values = arguments@.map_values(|v: RuntimeValue| v@);
            assert(values[0] == arguments@[0]@);
            if arguments@.len() >= 2 {
                assert(values[1] == arguments@[1]@);
            }
            assert(old(output)@ + Seq::<char>::empty() =~= old(output)@);
        }
        result
    }
}

/// What a native function gives for argument values `arguments`, called at `span` of
/// the file `path` with text `source`: its value or failure, and the text it prints.
pub open spec fn native_run(
    function: NativeFunction,
    arguments: Seq<RuntimeValueView>,
    path: Seq<char>,
    source: Seq<char>,
    span: Span,
) -> (Result<RuntimeValueView, FailureView>, Seq<char>) {
    match function {
        NativeFunction::Println(_) => match arguments[0] {
            RuntimeValueView::Unit => (
                Err(FailureView::Message("type error: `println` expects a string or bool argument"@)),
                Seq::empty(),
            ),
            value => (Ok(RuntimeValueView::Unit), display_text(value) + "\n"@),
        },
        NativeFunction::Assert(_) => (
            match arguments[0] {
                RuntimeValueView::Boolean(true) => Ok(RuntimeValueView::Unit),
                RuntimeValueView::Boolean(false) => Err(FailureView::Assertion {
                    path,
                    source,
                    span,
                    message: "assert condition was false"@,
                    diff: None,
                }),
                _ => Err(FailureView::Message("type error: `assert` expects a bool argument"@)),
            },
            Seq::empty(),
        ),
        NativeFunction::AssertEq(_) => (
            if arguments[0] == arguments[1] {
                Ok(RuntimeValueView::Unit)
            } else {
                Err(FailureView::Assertion {
                    path,
                    source,
                    span,
                    message: "assert_eq values differ"@,
                    diff: Some((assertion_text(arguments[0]), assertion_text(arguments[1]))),
                })
            },
            Seq::empty(),
        ),
    }
}

/// The native implementation registered under a fully qualified name by default.
pub open spec fn default_native(name: Seq<char>) -> Option<NativeFunction> {
    if name == "core::println"@ {
        Some(NativeFunction::Println(PrintlnNativeFunction))
    } else if name == "core::assert"@ {
        Some(NativeFunction::Assert(AssertNativeFunction))
    } else if name == "core::assert_eq"@ {
        Some(NativeFunction::AssertEq(AssertEqNativeFunction))
    } else {
        None
    }
}

/// Creates one native implementation from a fully qualified function name.
pub fn native_function_by_name(name: &str) -> (function: Option<NativeFunction>)
    ensures
        function == default_native(name@),
{
    if crate::text::same_text(name, "core::println") {
        Some(NativeFunction::Println(PrintlnNativeFunction))
    } else if crate::text::same_text(name, "core::assert") {
        Some(NativeFunction::Assert(AssertNativeFunction))
    } else if crate::text::same_text(name, "core::assert_eq") {
        Some(NativeFunction::AssertEq(AssertEqNativeFunction))
    } else {
        None
    }
}

/// Compiler-provided registry of native implementations keyed by fully qualified name.
#[derive(Debug, Clone)]
pub struct NativeFunctionRegistry {
    functions: NameTable<NativeFunction>,
}

impl NativeFunctionRegistry {
    /// The implementation registered under `name`.
    pub closed spec fn registered(&self, name: Seq<char>) -> Option<NativeFunction> {
        self.functions.get(name)
    }

    /// Creates an empty native function registry.
    pub fn new() -> (registry: NativeFunctionRegistry)
        ensures
            forall|name: Seq<char>| registry.registered(name) is None,
    {
        NativeFunctionRegistry { functions: NameTable::new() }
    }

    /// Registers one native implementation under its fully qualified name.
    pub fn register(&mut self, qualified_name: &str, native_function: NativeFunction)
        ensures
            final(self).registered(qualified_name@) == Some(native_function),
            forall|name: Seq<char>| name != qualified_name@ ==> final(self).registered(name) == old(self).registered(name),
    {
        self.functions.insert(String::from_str(qualified_name), native_function);
    }

    /// Resolves one native implementation by fully qualified name.
    pub fn resolve(&self, qualified_name: &str) -> (function: Option<NativeFunction>)
        ensures
            function == self.registered(qualified_name@),
    {
        self.functions.get_value(qualified_name)
    }
}

impl Default for NativeFunctionRegistry {
    fn default() -> (registry: NativeFunctionRegistry)
        ensures
            forall|name: Seq<char>| registry.registered(name) is None,
    {
        NativeFunctionRegistry::new()
    }
}

/// Creates the default compiler-provided native registry for the core module.
pub fn default_native_function_registry() -> (registry: NativeFunctionRegistry)
    ensures
        forall|name: Seq<char>| registry.registered(name) == default_native(name),
{
    let mut registry = NativeFunctionRegistry::new();
    registry.register("core::println", NativeFunction::Println(PrintlnNativeFunction));
    registry.register("core::assert", NativeFunction::Assert(AssertNativeFunction));
    registry.register("core::assert_eq", NativeFunction::AssertEq(AssertEqNativeFunction));
    proof {
        reveal_strlit("core::println");
        reveal_strlit("core::assert");
        reveal_strlit("core::assert_eq");
        assert("core::println"@.len() == 13);
        assert("core::assert"@.len() == 12);
        assert("core::assert_eq"@.len() == 15);
    }
    registry
}

/// Converts one native signature type into a user-facing type label.
pub fn native_type_label(type_kind: TypeKind) -> (label: String)
    ensures
        label@ == type_kind_label(type_kind),
{
    match type_kind {
        TypeKind::Any => String::from_str("any"),
        TypeKind::Boolean => String::from_str("bool"),
        TypeKind::String => String::from_str("string"),
        TypeKind::Unresolved => String::from_str("unresolved"),
    }
}

/// The user-facing name of a type kind.
pub open spec fn type_kind_label(type_kind: TypeKind) -> Seq<char> {
    match type_kind {
        TypeKind::Any => "any"@,
        TypeKind::Boolean => "bool"@,
        TypeKind::String => "string"@,
        TypeKind::Unresolved => "unresolved"@,
    }
}

} // verus!
