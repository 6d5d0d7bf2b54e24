//! The error model: parse errors abort compilation before any
//! rendering; render errors abort the current render call and gather a
//! trace of the enclosing constructs as they bubble up.
use vstd::prelude::*;

verus! {

/// Which phase an error belongs to.
#[derive(Clone, Copy, Debug, PartialEq, Eq, Structural)]
pub enum ErrorKind {
    Parse,
    Render,
}

/// A terminal error of one compile or render call.
#[derive(Debug)]
pub struct Error {
    pub kind: ErrorKind,
    pub msg: String,
    pub trace: Vec<String>,
}

impl Error {
    /// A parse error with the given description.
    pub fn parse(msg: String) -> (r: Error)
        ensures
            r.kind == ErrorKind::Parse,
            r.msg@ == msg@,
            r.trace@.len() == 0,
    {
        Error { kind: ErrorKind::Parse, msg, trace: Vec::new() }
    }

    /// A render error with the given description.
    pub fn render(msg: String) -> (r: Error)
        ensures
            r.kind == ErrorKind::Render,
            r.msg@ == msg@,
            r.trace@.len() == 0,
    {
        Error { kind: ErrorKind::Render, msg, trace: Vec::new() }
    }

    /// Enriches the error with the name of an enclosing construct as
    /// it crosses that construct's boundary; the description itself is
    /// kept unchanged.
    pub fn traced(self, construct: String) -> (r: Error)
        ensures
            r.kind == self.kind,
            r.msg@ == self.msg@,
            r.trace@ == self.trace@.push(construct),
    {
        let mut e = self;
        e.trace.push(construct);
        e
    }

    /// The error's description.
    pub fn message(&self) -> (r: &String)
        ensures
            r@ == self.msg@,
    {
        &self.msg
    }
}

} // verus!
