//! What a launch asks for and how it fails.

use crate::text;
use vstd::prelude::*;

verus! {

/// A launch failure as reported to the client, with the cause kept apart.
#[derive(Debug)]
pub struct LaunchError {
    message: String,
    source: Option<String>,
}

/// The contents of a [`LaunchError`].
pub struct LaunchErrorView {
    pub message: Seq<char>,
    pub source: Option<Seq<char>>,
}

impl View for LaunchError {
    type V = LaunchErrorView;

    closed spec fn view(&self) -> LaunchErrorView {
        LaunchErrorView { message: self.message@, source: text::optional(self.source) }
    }
}

/// A failure without a separate cause.
pub open spec fn plain(message: Seq<char>) -> LaunchErrorView {
    LaunchErrorView { message, source: None }
}

/// A failure with a separate cause.
pub open spec fn caused(message: Seq<char>, source: Seq<char>) -> LaunchErrorView {
    LaunchErrorView { message, source: Some(source) }
}

impl LaunchError {
    /// A failure without a separate cause.
    pub fn new(message: &str) -> (r: LaunchError)
        ensures
            r@ == plain(message@),
    {
        LaunchError { message: message.to_owned(), source: None }
    }

    /// A failure with a separate cause.
    pub fn with_source(message: &str, source: String) -> (r: LaunchError)
        ensures
            r@ == caused(message@, source@),
    {
        LaunchError { message: message.to_owned(), source: Some(source) }
    }

    /// The client-facing description. The cause is not part of it.
    pub fn message(&self) -> (r: String)
        ensures
            r@ == self@.message,
    {
        self.message.clone()
    }

    /// The cause, if there is one.
    pub fn source(&self) -> (r: Option<String>)
        ensures
            text::optional(r) == self@.source,
    {
        text::copy_optional(&self.source)
    }
}

/// What a launch runs.
#[derive(Debug)]
pub enum LaunchOperation {
    /// The login shell.
    Shell,
    /// One remote command, as raw bytes.
    Exec(Vec<u8>),
}

/// The contents of a [`LaunchOperation`].
pub enum OperationView {
    Shell,
    Exec(Seq<u8>),
}

impl View for LaunchOperation {
    type V = OperationView;

    open spec fn view(&self) -> OperationView {
        match self {
            LaunchOperation::Shell => OperationView::Shell,
            LaunchOperation::Exec(bytes) => OperationView::Exec(bytes@),
        }
    }
}

} // verus!
