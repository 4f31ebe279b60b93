//! Why a tree is not valid, and why one cannot be written as a query.

use vstd::prelude::*;
use crate::key::ContextKey;

verus! {

/// Why metadata could not be derived. Such an error is a value: it is kept
/// on the board of the node that it concerns and on those of its ancestors.
#[derive(Debug, PartialEq, Eq)]
pub enum ValidateError {
    /// No relation of the context answers to the key.
    TableNotFound(ContextKey),
    /// No column of the context answers to the key.
    ColumnNotFound(ContextKey),
    /// The metadata of the parts does not fit together.
    Incompatible(String),
}

/// A validation error as plain sequences of characters.
pub enum ValidateErrorView {
    TableNotFound(Seq<Seq<char>>),
    ColumnNotFound(Seq<Seq<char>>),
    Incompatible(Seq<char>),
}

impl View for ValidateError {
    type V = ValidateErrorView;

    open spec fn view(&self) -> ValidateErrorView {
        match self {
            ValidateError::TableNotFound(key) => ValidateErrorView::TableNotFound(key@),
            ValidateError::ColumnNotFound(key) => ValidateErrorView::ColumnNotFound(key@),
            ValidateError::Incompatible(why) => ValidateErrorView::Incompatible(why@),
        }
    }
}

impl Clone for ValidateError {
    fn clone(&self) -> (error: ValidateError)
        ensures
            error@ == self@,
    {
        match self {
            ValidateError::TableNotFound(key) => ValidateError::TableNotFound(key.clone()),
            ValidateError::ColumnNotFound(key) => ValidateError::ColumnNotFound(key.clone()),
            ValidateError::Incompatible(why) => ValidateError::Incompatible(why.clone()),
        }
    }
}

/// Metadata, or the reason why there is none.
pub type ValidateResult<T> = Result<T, ValidateError>;

/// A board as plain values: the view of the metadata, or of the error.
pub open spec fn board_view<T: View>(board: Result<T, ValidateError>) -> Result<
    T::V,
    ValidateErrorView,
> {
    match board {
        Ok(meta) => Ok(meta@),
        Err(error) => Err(error@),
    }
}

/// Why a tree could not be written as a query: an expression in it could not.
#[derive(Debug, PartialEq, Eq)]
pub struct CompositionError {
    pub reason: String,
}

impl View for CompositionError {
    type V = Seq<char>;

    open spec fn view(&self) -> Seq<char> {
        self.reason@
    }
}

} // verus!
