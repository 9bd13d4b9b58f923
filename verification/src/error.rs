//! The failures that abort an inference run.

use crate::names::Name;
use vstd::prelude::*;
use vstd::string::*;

verus! {

/// Why an inference run was aborted.
#[derive(Debug, Clone, Copy, PartialEq, Eq)]
pub enum ErrorKind {
    /// The schema breaks what inference takes for granted: a foreign key
    /// without columns, with a column that its table lacks, with a different
    /// number of referencing and referenced columns, or to a table that is
    /// not modelled.
    InvariantViolation,
    /// An index over the columns of a compound foreign key found no relation
    /// field to be named after.
    UnattributedCompoundIndex,
}

/// A failure, with the table and the columns at fault.
#[derive(Debug, Clone, PartialEq, Eq)]
pub struct IntrospectionError {
    pub kind: ErrorKind,
    pub table: String,
    pub columns: Vec<String>,
}

/// The mathematical view of an `IntrospectionError`.
pub struct ErrorView {
    pub kind: ErrorKind,
    pub table: Name,
    pub columns: Seq<Name>,
}

impl DeepView for IntrospectionError {
    type V = ErrorView;

    open spec fn deep_view(&self) -> ErrorView {
        ErrorView { kind: self.kind, table: self.table@, columns: self.columns.deep_view() }
    }
}

impl IntrospectionError {
    /// What went wrong, in words.
    pub fn message(&self) -> (r: String)
        ensures
            r@ == (match self.kind {
                ErrorKind::InvariantViolation => "inconsistent foreign key on table "@,
                ErrorKind::UnattributedCompoundIndex => "no relation field for compound index on table "@,
            }) + self.table@,
    {
        match self.kind {
            ErrorKind::InvariantViolation => String::from_str(
                "inconsistent foreign key on table ",
            ).concat(self.table.as_str()),
            ErrorKind::UnattributedCompoundIndex => String::from_str(
                "no relation field for compound index on table ",
            ).concat(self.table.as_str()),
        }
    }
}

/// The mathematical view of an outcome.
pub open spec fn outcome<T: DeepView>(r: Result<T, IntrospectionError>) -> Result<T::V, ErrorView> {
    match r {
        Ok(x) => Ok(x.deep_view()),
        Err(e) => Err(e.deep_view()),
    }
}

} // verus!
