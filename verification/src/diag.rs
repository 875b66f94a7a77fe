//! The diagnostics sink: a per-compilation context that records reported
//! errors and a has-errored flag, owned by the caller and inspected after
//! each scan or parse.

use vstd::prelude::*;

verus! {

/// One reported error: the source line it is attributed to, a location note
/// (such as ` at 'foo'`), and the message itself.
#[derive(Clone, PartialEq, Debug)]
pub struct Diagnostic {
    pub line: u32,
    pub location: String,
    pub message: String,
}

/// The mathematical model of a `Diagnostic`.
pub struct DiagModel {
    pub line: u32,
    pub location: Seq<char>,
    pub message: Seq<char>,
}

impl View for Diagnostic {
    type V = DiagModel;

    open spec fn view(&self) -> DiagModel {
        DiagModel { line: self.line, location: self.location@, message: self.message@ }
    }
}

/// The mathematical model of a diagnostics context.
pub struct LoxModel {
    pub had_error: bool,
    pub diags: Seq<DiagModel>,
}

/// The state of `m` after one error is reported against it.
pub open spec fn reported(m: LoxModel, line: u32, location: Seq<char>, message: Seq<char>) -> LoxModel {
    LoxModel { had_error: true, diags: m.diags.push(DiagModel { line, location, message }) }
}

/// A diagnostics context.  Scanner and parser record every error they find
/// here; the caller inspects the flag afterwards and resets the context
/// before the next independent input.
#[derive(Clone, Debug)]
pub struct Lox {
    had_error: bool,
    diagnostics: Vec<Diagnostic>,
}

impl View for Lox {
    type V = LoxModel;

    closed spec fn view(&self) -> LoxModel {
        LoxModel {
            had_error: self.had_error,
            diags: self.diagnostics@.map_values(|d: Diagnostic| d@),
        }
    }
}

impl Lox {
    /// A fresh context: no errors recorded, flag clear.
    pub fn new() -> (r: Lox)
        ensures
            !r@.had_error,
            r@.diags == Seq::<DiagModel>::empty(),
    {
        let r = Lox { had_error: false, diagnostics: Vec::new() };
        proof {
            assert(r@.diags =~= Seq::<DiagModel>::empty());
        }
        r
    }

    /// Records an error with no location note.
    pub fn error(&mut self, line: u32, message: &str)
        ensures
            final(self)@ == reported(old(self)@, line, ""@, message@),
    {
        self.report(line, "", message);
    }

    /// Records an error: appends the diagnostic and sets the flag.
    pub fn report(&mut self, line: u32, location: &str, message: &str)
        ensures
            final(self)@ == reported(old(self)@, line, location@, message@),
    {
        self.had_error = true;
        self.diagnostics.push(
            Diagnostic { line, location: location.to_owned(), message: message.to_owned() },
        );
        proof {
            assert(self@.diags =~= old(self)@.diags.push(
                DiagModel { line, location: location@, message: message@ },
            ));
        }
    }

    /// Whether any error has been reported since the last reset.
    pub fn had_error(&self) -> (r: bool)
        ensures
            r == self@.had_error,
    {
        self.had_error
    }

    /// The errors reported so far, in order.
    pub fn diagnostics(&self) -> (r: &Vec<Diagnostic>)
        ensures
            r@.map_values(|d: Diagnostic| d@) == self@.diags,
    {
        &self.diagnostics
    }

    /// Clears the context for the next independent input.
    pub fn reset(&mut self)
        ensures
            !final(self)@.had_error,
            final(self)@.diags == Seq::<DiagModel>::empty(),
    {
        self.had_error = false;
        self.diagnostics = Vec::new();
        proof {
            assert(self@.diags =~= Seq::<DiagModel>::empty());
        }
    }
}

} // verus!
