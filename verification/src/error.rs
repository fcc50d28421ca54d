//! The library's error type.
use vstd::prelude::*;

use crate::text::{decimal, push_decimal, push_str};

verus! {

/// Why an operation failed. Each variant carries the message shown to the user.
#[derive(Debug)]
pub enum AppError {
    /// The command line could not be understood.
    Usage(String),
    /// A file could not be read or written.
    Io { path: String, message: String },
    /// The input text does not follow the file format.
    Parse(String),
    /// The input is well formed but not acceptable.
    Validation(String),
    /// The output cannot be encoded.
    Encoding(String),
}

/// The abstract value of an [`AppError`].
pub enum ErrorView {
    Usage(Seq<char>),
    Io(Seq<char>, Seq<char>),
    Parse(Seq<char>),
    Validation(Seq<char>),
    Encoding(Seq<char>),
}

impl View for AppError {
    type V = ErrorView;

    open spec fn view(&self) -> ErrorView {
        match self {
            AppError::Usage(m) => ErrorView::Usage(m@),
            AppError::Io { path, message } => ErrorView::Io(path@, message@),
            AppError::Parse(m) => ErrorView::Parse(m@),
            AppError::Validation(m) => ErrorView::Validation(m@),
            AppError::Encoding(m) => ErrorView::Encoding(m@),
        }
    }
}

/// The text shown for an error.
pub open spec fn error_text(e: ErrorView) -> Seq<char> {
    match e {
        ErrorView::Usage(m) => m,
        ErrorView::Io(p, m) => p + ": "@ + m,
        ErrorView::Parse(m) => m,
        ErrorView::Validation(m) => m,
        ErrorView::Encoding(m) => m,
    }
}

impl AppError {
    /// The message shown to the user.
    #[allow(clippy::inherent_to_string)]
    pub fn to_string(&self) -> (s: String)
        ensures
            s@ == error_text(self@),
    {
        match self {
            AppError::Usage(m) => m.clone(),
            AppError::Io { path, message } => {
                let mut s = path.clone();
                push_str(&mut s, ": ");
                s.append(message.as_str());
                s
            },
            AppError::Parse(m) => m.clone(),
            AppError::Validation(m) => m.clone(),
            AppError::Encoding(m) => m.clone(),
        }
    }
}

/// `"Line {n}: "` followed by `text`.
pub open spec fn line_msg(n: nat, text: Seq<char>) -> Seq<char> {
    "Line "@ + decimal(n) + ": "@ + text
}

/// A new string `"Line {n}: "`.
pub fn line_prefix(n: usize) -> (s: String)
    ensures
        s@ == "Line "@ + decimal(n as nat) + ": "@,
{
    let mut s = String::new();
    push_str(&mut s, "Line ");
    push_decimal(&mut s, n as u64);
    push_str(&mut s, ": ");
    s
}

/// A new string `"Line {n}: {text}"`.
pub fn line_message(n: usize, text: &str) -> (s: String)
    ensures
        s@ == line_msg(n as nat, text@),
{
    let mut s = line_prefix(n);
    push_str(&mut s, text);
    s
}

} // verus!
