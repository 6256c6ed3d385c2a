use vstd::prelude::*;

verus! {

/// Errors of the indexer's reads.
#[derive(Clone, Debug, PartialEq, Eq)]
pub enum AppError {
    /// The requested entry does not exist.
    NotFound,
    /// The request itself is malformed (bad id, bad strkey).
    BadRequest(String),
    /// The RPC endpoint answered with an error.
    Rpc(String),
    /// A stored value could not be decoded.
    Decode(String),
}

/// An [`AppError`] with its message as a sequence of characters.
pub enum AppErrorView {
    NotFound,
    BadRequest(Seq<char>),
    Rpc(Seq<char>),
    Decode(Seq<char>),
}

impl View for AppError {
    type V = AppErrorView;

    open spec fn view(&self) -> AppErrorView {
        match self {
            AppError::NotFound => AppErrorView::NotFound,
            AppError::BadRequest(m) => AppErrorView::BadRequest(m@),
            AppError::Rpc(m) => AppErrorView::Rpc(m@),
            AppError::Decode(m) => AppErrorView::Decode(m@),
        }
    }
}

} // verus!
