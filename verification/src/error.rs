//! What can go wrong.

use vstd::prelude::*;

verus! {

/// An error of an import.
#[derive(Debug)]
pub enum Error {
    /// The source text, or the tree the parser made of it, could not be taken in.
    TreeSitterParse(String),
    /// A path that cannot be used.
    Path { message: String },
    /// There is no code in the artifact.
    NothingToImport { message: String },
    /// An Android archive that cannot be read.
    Dex { message: String },
    /// A file that cannot be read or written.
    Io { message: String },
    /// A command that cannot be carried out.
    Failed { message: String },
    /// Another error and what was being done when it came up. `source` is `None` where the other
    /// error is not one of these.
    Context { message: String, source: Option<Box<Error>> },
}

/// View of an [`Error`].
pub ghost enum ErrorView {
    TreeSitterParse(Seq<char>),
    Path(Seq<char>),
    NothingToImport(Seq<char>),
    Dex(Seq<char>),
    Io(Seq<char>),
    Failed(Seq<char>),
    Context(Seq<char>, Option<Box<ErrorView>>),
}

/// The view of `e`.
pub open spec fn error_view(e: Error) -> ErrorView
    decreases e,
{
    match e {
        Error::TreeSitterParse(m) => ErrorView::TreeSitterParse(m@),
        Error::Path { message } => ErrorView::Path(message@),
        Error::NothingToImport { message } => ErrorView::NothingToImport(message@),
        Error::Dex { message } => ErrorView::Dex(message@),
        Error::Io { message } => ErrorView::Io(message@),
        Error::Failed { message } => ErrorView::Failed(message@),
        Error::Context { message, source } => ErrorView::Context(
            message@,
            match source {
                Some(s) => Some(Box::new(error_view(*s))),
                None => None,
            },
        ),
    }
}

impl View for Error {
    type V = ErrorView;

    open spec fn view(&self) -> ErrorView {
        error_view(*self)
    }
}

impl Error {
    /// `self`, and what was being done when it came up.
    pub fn in_context(self, message: &str) -> (e: Error)
        ensures
            e@ == ErrorView::Context(message@, Some(Box::new(self@))),
    {
        Error::Context { message: String::from_str(message), source: Some(Box::new(self)) }
    }
}

} // verus!
