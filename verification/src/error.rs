//! The errors of the library.
use vstd::prelude::*;

verus! {

/// Why a seed, a message, a log or a header was refused.
#[derive(Clone, Debug, PartialEq, Eq)]
pub enum Error {
    /// A value contradicts another one that is already held.
    InvalidData(String),
    /// The stream cannot be continued from the last published model.
    Discontinuous,
    /// The connection failed or ended.
    Transport(String),
    /// A message is not the one that the protocol calls for.
    Rpc(String),
    /// Replaying a log overflowed or underflowed a balance.
    Arithmetic,
    /// A log could not be decoded.
    Abi(String),
    /// The pool's contract was upgraded.
    ContractUpgraded,
    /// Any other refusal of the pool model.
    Model(String),
}

/// An [`Error`] with its texts as sequences of characters.
pub enum ErrorView {
    InvalidData(Seq<char>),
    Discontinuous,
    Transport(Seq<char>),
    Rpc(Seq<char>),
    Arithmetic,
    Abi(Seq<char>),
    ContractUpgraded,
    Model(Seq<char>),
}

impl View for Error {
    type V = ErrorView;

    open spec fn view(&self) -> ErrorView {
        match self {
            Error::InvalidData(text) => ErrorView::InvalidData(text@),
            Error::Discontinuous => ErrorView::Discontinuous,
            Error::Transport(text) => ErrorView::Transport(text@),
            Error::Rpc(text) => ErrorView::Rpc(text@),
            Error::Arithmetic => ErrorView::Arithmetic,
            Error::Abi(text) => ErrorView::Abi(text@),
            Error::ContractUpgraded => ErrorView::ContractUpgraded,
            Error::Model(text) => ErrorView::Model(text@),
        }
    }
}

/// A result with its error taken by its view.
pub open spec fn outcome<T>(result: Result<T, Error>) -> Result<T, ErrorView> {
    match result {
        Ok(value) => Ok(value),
        Err(error) => Err(error@),
    }
}

} // verus!
