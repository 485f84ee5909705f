use vstd::prelude::*;
use crate::error::{OcelotError, OcelotResult, is_message_error};
use crate::text::{concat3, same_text};

verus! {

/// Runtime value used by the tree-walking interpreter and native functions.
#[derive(Debug, Clone, PartialEq, Eq)]
pub enum RuntimeValue {
    Boolean(bool),
    String(String),
    Unit,
}

/// Mathematical content of a [`RuntimeValue`].
pub enum RuntimeValueView {
    Boolean(bool),
    String(Seq<char>),
    Unit,
}

impl View for RuntimeValue {
    type V = RuntimeValueView;

    open spec fn view(&self) -> RuntimeValueView {
        match self {
            RuntimeValue::Boolean(b) => RuntimeValueView::Boolean(*b),
            RuntimeValue::String(s) => RuntimeValueView::String(s@),
            RuntimeValue::Unit => RuntimeValueView::Unit,
        }
    }
}

/// The source-literal spelling of a boolean.
pub open spec fn boolean_text(value: bool) -> Seq<char> {
    if value { "true"@ } else { "false"@ }
}

/// How a value is printed.
pub open spec fn display_text(value: RuntimeValueView) -> Seq<char> {
    match value {
        RuntimeValueView::Boolean(b) => boolean_text(b),
        RuntimeValueView::String(s) => s,
        RuntimeValueView::Unit => "()"@,
    }
}

/// How a value is shown in assertion failures: strings are quoted.
pub open spec fn assertion_text(value: RuntimeValueView) -> Seq<char> {
    match value {
        RuntimeValueView::Boolean(b) => boolean_text(b),
        RuntimeValueView::String(s) => "\""@ + s + "\""@,
        RuntimeValueView::Unit => "()"@,
    }
}

fn boolean_string(value: bool) -> (text: String)
    ensures
        text@ == boolean_text(value),
{
    if value { String::from_str("true") } else { String::from_str("false") }
}

impl RuntimeValue {
    /// Creates a boolean runtime value.
    pub fn boolean(value: bool) -> (runtime_value: RuntimeValue)
        ensures
            runtime_value@ == RuntimeValueView::Boolean(value),
    {
        RuntimeValue::Boolean(value)
    }

    /// Creates a string runtime value.
    pub fn string(value: &str) -> (runtime_value: RuntimeValue)
        ensures
            runtime_value@ == RuntimeValueView::String(value@),
    {
        RuntimeValue::String(String::from_str(value))
    }

    /// Creates a string runtime value from an owned string.
    pub fn from_string(value: String) -> (runtime_value: RuntimeValue)
        ensures
            runtime_value@ == RuntimeValueView::String(value@),
    {
        RuntimeValue::String(value)
    }

    /// Creates a unit runtime value.
    pub fn unit() -> (runtime_value: RuntimeValue)
        ensures
            runtime_value@ == RuntimeValueView::Unit,
    {
        RuntimeValue::Unit
    }

    /// Returns the inner string when this is a string value.
    pub fn as_string(&self) -> (text: Option<&String>)
        ensures
            match self@ {
                RuntimeValueView::String(s) => text is Some && text->Some_0@ == s,
                _ => text is None,
            },
    {
        match self {
            RuntimeValue::String(value) => Some(value),
            RuntimeValue::Boolean(_) | RuntimeValue::Unit => None,
        }
    }

    /// Returns the inner boolean when this is a boolean value.
    pub fn as_boolean(&self) -> (value: Option<bool>)
        ensures
            match self@ {
                RuntimeValueView::Boolean(b) => value == Some(b),
                _ => value is None,
            },
    {
        match self {
            RuntimeValue::Boolean(value) => Some(*value),
            RuntimeValue::Unit => None,
            RuntimeValue::String(_) => None,
        }
    }

    /// Returns true when this value is unit.
    pub fn is_unit(&self) -> (unit: bool)
        ensures
            unit == (self@ == RuntimeValueView::Unit),
    {
        match self {
            RuntimeValue::Unit => true,
            _ => false,
        }
    }

    /// Returns a stable user-facing rendering for printed output.
    pub fn render_for_display(&self) -> (text: String)
        ensures
            text@ == display_text(self@),
    {
        match self {
            RuntimeValue::Boolean(value) => boolean_string(*value),
            RuntimeValue::String(value) => value.clone(),
            RuntimeValue::Unit => String::from_str("()"),
        }
    }

    /// Returns the inner string or an error with the given message.
    pub fn expect_string(&self, message: &str) -> (result: OcelotResult<&String>)
        ensures
            match self@ {
                RuntimeValueView::String(s) => result is Ok && result->Ok_0@ == s,
                _ => result is Err && is_message_error(result->Err_0, message@),
            },
    {
        match self {
            RuntimeValue::String(value) => Ok(value),
            RuntimeValue::Boolean(_) | RuntimeValue::Unit => Err(OcelotError::message_str(message)),
        }
    }

    /// Returns the inner boolean or an error with the given message.
    pub fn expect_boolean(&self, message: &str) -> (result: OcelotResult<bool>)
        ensures
            match self@ {
                RuntimeValueView::Boolean(b) => result == Ok::<bool, OcelotError>(b),
                _ => result is Err && is_message_error(result->Err_0, message@),
            },
    {
        match self {
            RuntimeValue::Boolean(value) => Ok(*value),
            RuntimeValue::String(_) | RuntimeValue::Unit => Err(OcelotError::message_str(message)),
        }
    }

    /// Returns true when both runtime values are the same value.
    pub fn equals(&self, other: &RuntimeValue) -> (equal: bool)
        ensures
            equal == (self@ == other@),
    {
        match (self, other) {
            (RuntimeValue::Boolean(a), RuntimeValue::Boolean(b)) => *a == *b,
            (RuntimeValue::String(a), RuntimeValue::String(b)) => same_text(a.as_str(), b.as_str()),
            (RuntimeValue::Unit, RuntimeValue::Unit) => true,
            _ => false,
        }
    }

    /// A copy of this value.
    pub fn duplicate(&self) -> (copy: RuntimeValue)
        ensures
            copy@ == self@,
    {
        match self {
            RuntimeValue::Boolean(value) => RuntimeValue::Boolean(*value),
            RuntimeValue::String(value) => RuntimeValue::String(value.clone()),
            RuntimeValue::Unit => RuntimeValue::Unit,
        }
    }

    /// Returns a stable user-facing rendering for assertions: strings are quoted.
    pub fn render_for_assertion(&self) -> (text: String)
        ensures
            text@ == assertion_text(self@),
    {
        match self {
            RuntimeValue::Boolean(value) => boolean_string(*value),
            RuntimeValue::String(value) => concat3("\"", value.as_str(), "\""),
            RuntimeValue::Unit => String::from_str("()"),
        }
    }
}

} // verus!
