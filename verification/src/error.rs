//! The diagnostics sink: an append-only list of compiler diagnostics.
//!
//! The sink is passed by `&mut` through every stage that can report an error,
//! so each stage's effect on it is part of that stage's contract. It is never
//! cleared during a compilation; callers inspect its length to decide whether
//! a stage failed.

use vstd::prelude::*;

verus! {

/// Spec-level value of a diagnostic: a position and a message.
pub struct DiagView {
    pub line: int,
    pub index: int,
    pub msg: Seq<char>,
}

/// A single recorded diagnostic, carrying the 1-based source line, the
/// 0-based offset within that line, and a human-readable message.
#[derive(Debug, Clone)]
pub struct Diagnostic {
    pub line: usize,
    pub index: usize,
    pub message: String,
}

impl View for Diagnostic {
    type V = DiagView;

    open spec fn view(&self) -> DiagView {
        DiagView { line: self.line as int, index: self.index as int, msg: self.message@ }
    }
}

impl DeepView for Diagnostic {
    type V = DiagView;

    open spec fn deep_view(&self) -> DiagView {
        self.view()
    }
}

/// Anything a compiler stage can report: a position and a message.
pub trait CompilerError {
    /// The diagnostic this error stands for.
    spec fn diag(&self) -> DiagView;

    fn line(&self) -> (r: usize)
        ensures
            r as int == self.diag().line,
    ;

    fn index(&self) -> (r: usize)
        ensures
            r as int == self.diag().index,
    ;

    fn to_string(&self) -> (r: String)
        ensures
            r@ == self.diag().msg,
    ;
}

impl CompilerError for Diagnostic {
    open spec fn diag(&self) -> DiagView {
        self@
    }

    fn line(&self) -> usize {
        self.line
    }

    fn index(&self) -> usize {
        self.index
    }

    fn to_string(&self) -> String {
        self.message.clone()
    }
}

/// The append-only list of diagnostics recorded during one compilation.
#[derive(Debug)]
pub struct ErrorList(Vec<Diagnostic>);

impl View for ErrorList {
    type V = Seq<DiagView>;

    closed spec fn view(&self) -> Seq<DiagView> {
        self.0.deep_view()
    }
}

impl ErrorList {
    /// An empty sink; one is created per compiler invocation.
    pub fn new() -> (r: ErrorList)
        ensures
            r@ == Seq::<DiagView>::empty(),
    {
        let r = ErrorList(Vec::new());
        proof {
            assert(r@ =~= Seq::<DiagView>::empty());
        }
        r
    }

    /// Appends one error; nothing already recorded is changed or dropped.
    pub fn push<E: CompilerError>(&mut self, error: E)
        ensures
            final(self)@ == old(self)@.push(error.diag()),
    {
        let d = Diagnostic { line: error.line(), index: error.index(), message: error.to_string() };
        self.0.push(d);
        proof {
            assert(self@ =~= old(self)@.push(error.diag()));
        }
    }

    /// Reads back the `i`-th recorded diagnostic, oldest first.
    pub fn get(&self, i: usize) -> (r: &Diagnostic)
        requires
            i < self@.len(),
        ensures
            r@ == self@[i as int],
    {
        &self.0[i]
    }
}

/// How many diagnostics have been recorded so far.
pub fn len_errors(errors: &ErrorList) -> (r: usize)
    ensures
        r == errors@.len(),
{
    errors.0.len()
}

} // verus!
