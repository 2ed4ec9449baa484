//! The runtimes that code can be run in, and what they tell of their objects.

use vstd::prelude::*;

use crate::text;

verus! {

/// Where a method comes from.
#[derive(Clone, Copy, Debug, PartialEq, Eq, Structural)]
pub enum MethodSource {
    Generated,
    Custom,
}

/// A method of an object.
#[derive(Debug)]
pub struct MethodSignature {
    pub name: String,
    pub signature: String,
    pub doc: String,
    pub source: MethodSource,
    pub is_dunder: bool,
}

impl Clone for MethodSignature {
    fn clone(&self) -> (r: Self)
        ensures
            r == *self,
    {
        MethodSignature {
            name: self.name.clone(),
            signature: self.signature.clone(),
            doc: self.doc.clone(),
            source: self.source,
            is_dunder: self.is_dunder,
        }
    }
}

/// What the setup of an interpreter learned: methods by variable and by type, both by name.
#[derive(Debug)]
pub struct InterpreterSetup {
    pub methods_by_var: Vec<(String, Vec<MethodSignature>)>,
    pub methods_by_type: Vec<(String, Vec<MethodSignature>)>,
}

/// What a runtime tells of itself before it runs any code.
pub trait RlmRuntime {
    /// Whether a second model has to be there for the code to query.
    fn requires_sub_lm_tools(&self) -> (r: bool)
        default_ensures
            r,
    {
        true
    }

    /// How many queries are left to the code. `remaining` is what the query tools say.
    fn sub_lm_budget_remaining(&self, remaining: Option<usize>) -> (r: usize);
}

/// A runtime that runs nothing.
#[derive(Clone, Copy, Debug, PartialEq, Eq, Structural)]
pub struct StubRuntime;

impl Default for StubRuntime {
    fn default() -> (r: Self)
        ensures
            r == StubRuntime,
    {
        StubRuntime
    }
}

impl StubRuntime {
    pub fn new(_max_llm_calls: usize) -> (r: Self)
        ensures
            r == StubRuntime,
    {
        StubRuntime
    }

    /// It learns nothing of the input.
    pub fn setup_interpreter_globals(&self) -> (r: InterpreterSetup)
        ensures
            r.methods_by_var@.len() == 0,
            r.methods_by_type@.len() == 0,
    {
        InterpreterSetup { methods_by_var: Vec::new(), methods_by_type: Vec::new() }
    }

    /// It runs nothing, and nothing is printed.
    pub fn execute_repl_code(&self, _code: &str, _max_output_chars: usize) -> (r: Result<
        String,
        String,
    >)
        ensures
            r is Ok,
            r->Ok_0@ == Seq::<char>::empty(),
    {
        Ok(String::new())
    }
}

/// A runtime that runs code in an embedded Python interpreter.
#[derive(Clone, Copy, Debug, PartialEq, Eq, Structural)]
pub struct PyO3Runtime;

impl Default for PyO3Runtime {
    fn default() -> (r: Self)
        ensures
            r == PyO3Runtime,
    {
        PyO3Runtime
    }
}

impl RlmRuntime for StubRuntime {
    fn requires_sub_lm_tools(&self) -> (r: bool)
        ensures
            !r,
    {
        false
    }

    fn sub_lm_budget_remaining(&self, _remaining: Option<usize>) -> (r: usize)
        ensures
            r == 0,
    {
        0
    }
}

impl RlmRuntime for PyO3Runtime {
    fn sub_lm_budget_remaining(&self, remaining: Option<usize>) -> (r: usize)
        ensures
            r == (match remaining {
                Some(n) => n,
                None => 0,
            }),
    {
        match remaining {
            Some(n) => n,
            None => 0,
        }
    }
}

/// One of the runtimes that come with the library.
#[derive(Clone, Copy, Debug, PartialEq, Eq, Structural)]
pub enum Runtime {
    Stub(StubRuntime),
    PyO3(PyO3Runtime),
}

impl RlmRuntime for Runtime {
    fn requires_sub_lm_tools(&self) -> (r: bool)
        ensures
            r == (self is PyO3),
    {
        match self {
            Runtime::Stub(stub) => stub.requires_sub_lm_tools(),
            Runtime::PyO3(embedded) => embedded.requires_sub_lm_tools(),
        }
    }

    fn sub_lm_budget_remaining(&self, remaining: Option<usize>) -> (r: usize)
        ensures
            r == (match (*self, remaining) {
                (Runtime::PyO3(_), Some(n)) => n,
                _ => 0,
            }),
    {
        match self {
            Runtime::Stub(stub) => stub.sub_lm_budget_remaining(remaining),
            Runtime::PyO3(embedded) => embedded.sub_lm_budget_remaining(remaining),
        }
    }
}

/// The runtime that is named, whatever its case and the white space around it.
pub open spec fn named_runtime(name: Seq<char>) -> Option<Runtime> {
    let wanted = text::lower_text(text::trim(name));
    if wanted == "stub"@ {
        Some(Runtime::Stub(StubRuntime))
    } else if wanted == "pyo3"@ {
        Some(Runtime::PyO3(PyO3Runtime))
    } else {
        None
    }
}

/// The runtime that a setting and the surroundings choose.
pub open spec fn chosen_runtime(setting: Option<Seq<char>>, in_tests: bool) -> Runtime {
    let otherwise = if in_tests {
        Runtime::Stub(StubRuntime)
    } else {
        Runtime::PyO3(PyO3Runtime)
    };
    match setting {
        Some(name) => match named_runtime(name) {
            Some(named) => named,
            None => otherwise,
        },
        None => otherwise,
    }
}

/// The runtime that is taken when none was chosen: the one that the setting names, else the
/// stub in tests and the embedded interpreter otherwise.
pub fn default_runtime(max_llm_calls: usize, setting: Option<&str>, in_tests: bool) -> (r: Runtime)
    ensures
        r == chosen_runtime(
            match setting {
                Some(name) => Some(name@),
                None => None,
            },
            in_tests,
        ),
{
    match setting {
        Some(name) => {
            let trimmed = text::trim_str(name);
            let wanted = text::lower_str(trimmed.as_str());
            if text::text_eq(wanted.as_str(), "stub") {
                return Runtime::Stub(StubRuntime::new(max_llm_calls));
            }
            if text::text_eq(wanted.as_str(), "pyo3") {
                return Runtime::PyO3(PyO3Runtime);
            }
        },
        None => {},
    }
    if in_tests {
        Runtime::Stub(StubRuntime::new(max_llm_calls))
    } else {
        Runtime::PyO3(PyO3Runtime)
    }
}

} // verus!
