//! Complaints: what a check says about the first thing it rejects.
use vstd::prelude::*;

use crate::ast::views;

verus! {

/// A callable that could not be compiled, and why.
#[derive(Debug)]
pub struct CallableStub {
    /// Its name, with that of its class.
    pub callable: String,
    pub reason: String,
}

/// The mathematical form of a [`CallableStub`].
pub struct CallableStubV {
    pub callable: Seq<char>,
    pub reason: Seq<char>,
}

impl View for CallableStub {
    type V = CallableStubV;

    open spec fn view(&self) -> CallableStubV {
        CallableStubV { callable: self.callable@, reason: self.reason@ }
    }
}

/// An elaboration error.
#[derive(Debug)]
pub enum ElabError {
    /// The design uses something outside the supported subset.
    UnsupportedSemantic { message: String },
    /// A process cannot be compiled, or a constant cannot be evaluated.
    Failed { message: String },
    /// Callables could not be compiled.
    CallableStubs { stubs: Vec<CallableStub> },
}

/// The mathematical form of an [`ElabError`].
pub enum ElabErrorV {
    UnsupportedSemantic(Seq<char>),
    Failed(Seq<char>),
    CallableStubs(Seq<CallableStubV>),
}

impl View for ElabError {
    type V = ElabErrorV;

    open spec fn view(&self) -> ElabErrorV {
        match *self {
            ElabError::UnsupportedSemantic { message } => ElabErrorV::UnsupportedSemantic(message@),
            ElabError::Failed { message } => ElabErrorV::Failed(message@),
            ElabError::CallableStubs { stubs } => ElabErrorV::CallableStubs(views(stubs@)),
        }
    }
}

/// What a check rejects a design for.
#[derive(Debug)]
pub struct Rejection {
    pub message: String,
}

/// The message of the first rejected thing, if any.
pub type Complaint = Option<Seq<char>>;

/// The complaint of a check.
pub open spec fn outcome(r: Result<(), Rejection>) -> Complaint {
    match r {
        Ok(_) => None,
        Err(e) => Some(e.message@),
    }
}

/// The first complaint of two checks made one after the other.
pub open spec fn either(a: Complaint, b: Complaint) -> Complaint {
    if a is Some {
        a
    } else {
        b
    }
}

/// Reject with a message.
pub fn unsupported(message: String) -> (r: Result<(), Rejection>)
    ensures
        outcome(r) == Some(message@),
{
    Err(Rejection { message })
}

} // verus!
