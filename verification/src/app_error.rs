//! Errors of the command-line programs.
use vstd::prelude::*;

verus! {

#[derive(Debug, Clone, Copy, PartialEq, Eq)]
pub enum AppErrorKind {
    InvalidInput,
    InvalidData,
}

#[derive(Debug, Clone, PartialEq, Eq)]
pub struct AppError {
    pub kind: AppErrorKind,
    pub text: String,
}

impl AppError {
    pub fn invalid_input(text: String) -> (error: Self)
        ensures
            error == (AppError { kind: AppErrorKind::InvalidInput, text }),
    {
        AppError { kind: AppErrorKind::InvalidInput, text }
    }

    pub fn invalid_data(text: String) -> (error: Self)
        ensures
            error == (AppError { kind: AppErrorKind::InvalidData, text }),
    {
        AppError { kind: AppErrorKind::InvalidData, text }
    }

    pub fn kind(&self) -> (kind: AppErrorKind)
        ensures
            kind == self.kind,
    {
        self.kind
    }

    pub fn message(&self) -> (text: &str)
        ensures
            text@ == self.text@,
    {
        self.text.as_str()
    }
}

} // verus!
