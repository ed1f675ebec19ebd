//! Errors found while building and checking programs.
use vstd::prelude::*;
use crate::ast::{Ident, Span};
use crate::typechecker::Ty;

verus! {

#[derive(Debug, PartialEq, Eq)]
pub enum ASTError {
    CyclicDependency(Span, Ident),
    DuplicateIdentifier(Span, Ident),
    UnboundIdentifier(Span, Ident),
    TypeMismatch(Span, Ty, Span, Ty),
}

} // verus!
