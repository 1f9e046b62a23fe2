//! Statements: subject, predicate, object.
use crate::iri::IriView;
use crate::term::{IriRef, Term, TermView};
use vstd::prelude::*;

verus! {

/// Why a statement could not be built.
#[derive(Clone, Copy, PartialEq, Eq, Debug)]
pub enum StatementError {
    LiteralSubject,
}

pub struct StatementView {
    pub subject: TermView,
    pub predicate: IriView,
    pub object: TermView,
}

/// A triple whose subject is a named or blank node and whose predicate is an IRI.
#[derive(Debug)]
pub struct Statement {
    subject: Term,
    predicate: IriRef,
    object: Term,
}

impl Statement {
    #[verifier::type_invariant]
    spec fn inv(self) -> bool {
        !(self.subject is Literal)
    }

    /// A statement of the three parts; fails, building nothing, when the
    /// subject is a literal.
    pub fn new(subject: Term, predicate: IriRef, object: Term) -> (r: Result<
        Statement,
        StatementError,
    >)
        ensures
            r is Err <==> subject is Literal,
            match r {
                Ok(st) => st@ == (StatementView {
                    subject: subject@,
                    predicate: predicate@,
                    object: object@,
                }),
                Err(e) => e == StatementError::LiteralSubject,
            },
    {
        if subject.is_literal() {
            Err(StatementError::LiteralSubject)
        } else {
            Ok(Statement { subject, predicate, object })
        }
    }

    pub fn subject(&self) -> (r: &Term)
        ensures
            r@ == self@.subject,
            !(r is Literal),
    {
        proof {
            use_type_invariant(self);
        }
        &self.subject
    }

    pub fn predicate(&self) -> (r: &IriRef)
        ensures
            r@ == self@.predicate,
    {
        &self.predicate
    }

    pub fn object(&self) -> (r: &Term)
        ensures
            r@ == self@.object,
    {
        &self.object
    }
}

impl View for Statement {
    type V = StatementView;

    closed spec fn view(&self) -> StatementView {
        StatementView { subject: self.subject@, predicate: self.predicate@, object: self.object@ }
    }
}

} // verus!
