//! The errors that the compiler reports on programs it cannot compile.
use vstd::prelude::*;

verus! {

/// The kinds of compile errors.
#[derive(Clone, Copy, Debug, PartialEq, Eq, Structural)]
pub enum ErrorKind {
    /// A variable is used or assigned that is not in scope.
    UnboundVariable,
    /// A `let` binds the same name twice.
    DuplicateBinding,
    /// A `break` stands outside any loop.
    DanglingBreak,
    /// A call names a function that is not defined.
    UndefinedFunction,
    /// A call passes another number of arguments than the function takes.
    ArgumentCount,
    /// A number literal does not fit once tagged.
    NumberTooLarge,
    /// A `define` stands where only expressions are compiled.
    DefineNotCompiled,
    /// A function definition stands inside an expression.
    DefinitionNotCompiled,
    /// Two functions have the same name.
    FunctionRedefined,
    /// Something other than a function definition stands among the definitions.
    NotADefinition,
    /// A function has two parameters of the same name.
    DuplicateParameter,
}

/// A compile error: its kind and the name it is about, empty when there is none.
#[derive(Clone, Debug, PartialEq, Eq)]
pub struct CompileError {
    pub kind: ErrorKind,
    pub subject: String,
}

/// The abstract form of a compile error.
pub type ErrV = (ErrorKind, Seq<char>);

impl View for CompileError {
    type V = ErrV;

    open spec fn view(&self) -> ErrV {
        (self.kind, self.subject@)
    }
}

/// The message of an error.
pub open spec fn error_message(e: ErrV) -> Seq<char> {
    match e.0 {
        ErrorKind::UnboundVariable => "Unbound variable identifier "@ + e.1,
        ErrorKind::DuplicateBinding => "Duplicate binding"@,
        ErrorKind::DanglingBreak => "dangling break"@,
        ErrorKind::UndefinedFunction => "Invalid: undefined function "@ + e.1,
        ErrorKind::ArgumentCount => "Invalid: mismatched argument count"@,
        ErrorKind::NumberTooLarge => "Invalid"@,
        ErrorKind::DefineNotCompiled => "define cannot be compiled"@,
        ErrorKind::DefinitionNotCompiled => "Invalid: fn defn cannot be compiled here"@,
        ErrorKind::FunctionRedefined => "function redefined"@,
        ErrorKind::NotADefinition => "Invalid: cannot compile anything other than function definitions here"@,
        ErrorKind::DuplicateParameter => "duplicate parameter binding in definition"@,
    }
}

impl CompileError {
    /// An error of the given kind about the given name.
    pub fn new(kind: ErrorKind, subject: &str) -> (r: CompileError)
        ensures
            r@ == (kind, subject@),
    {
        CompileError { kind, subject: subject.to_owned() }
    }

    /// An error of the given kind that is about no name.
    pub fn plain(kind: ErrorKind) -> (r: CompileError)
        ensures
            r@ == (kind, Seq::<char>::empty()),
    {
        CompileError { kind, subject: String::new() }
    }

    /// The message that the error is reported with.
    pub fn message(&self) -> (r: String)
        ensures
            r@ == error_message(self@),
    {
        match self.kind {
            ErrorKind::UnboundVariable => {
                let mut s = "Unbound variable identifier ".to_owned();
                s.append(self.subject.as_str());
                s
            },
            ErrorKind::DuplicateBinding => "Duplicate binding".to_owned(),
            ErrorKind::DanglingBreak => "dangling break".to_owned(),
            ErrorKind::UndefinedFunction => {
                let mut s = "Invalid: undefined function ".to_owned();
                s.append(self.subject.as_str());
                s
            },
            ErrorKind::ArgumentCount => "Invalid: mismatched argument count".to_owned(),
            ErrorKind::NumberTooLarge => "Invalid".to_owned(),
            ErrorKind::DefineNotCompiled => "define cannot be compiled".to_owned(),
            ErrorKind::DefinitionNotCompiled => "Invalid: fn defn cannot be compiled here".to_owned(),
            ErrorKind::FunctionRedefined => "function redefined".to_owned(),
            ErrorKind::NotADefinition => "Invalid: cannot compile anything other than function definitions here".to_owned(),
            ErrorKind::DuplicateParameter => "duplicate parameter binding in definition".to_owned(),
        }
    }
}

} // verus!
