//! Error kinds and the process exit code each one maps to.
use vstd::prelude::*;

verus! {

/// The category of a conversion failure.
#[derive(Debug, Clone, Copy, PartialEq, Eq, Structural)]
pub enum ErrorKind {
    BadArgs,
    Api,
    OcrSchema,
    Epub,
    Validation,
    Internal,
}

/// The exit code of the command-line front end for each kind of failure.
pub open spec fn exit_code_spec(kind: ErrorKind) -> i32 {
    match kind {
        ErrorKind::BadArgs => 2,
        ErrorKind::Api => 3,
        ErrorKind::OcrSchema => 4,
        ErrorKind::Epub => 5,
        ErrorKind::Validation => 6,
        ErrorKind::Internal => 1,
    }
}

impl ErrorKind {
    pub fn exit_code(self) -> (code: i32)
        ensures
            code == exit_code_spec(self),
    {
        match self {
            ErrorKind::BadArgs => 2,
            ErrorKind::Api => 3,
            ErrorKind::OcrSchema => 4,
            ErrorKind::Epub => 5,
            ErrorKind::Validation => 6,
            ErrorKind::Internal => 1,
        }
    }
}

/// Distinct kinds exit with distinct codes, and no kind exits with 0.
pub proof fn lemma_exit_codes_distinct(a: ErrorKind, b: ErrorKind)
    ensures
        exit_code_spec(a) != 0,
        exit_code_spec(a) == exit_code_spec(b) <==> a == b,
{
}

/// A conversion failure: its kind and a human-readable message.
#[derive(Debug, Clone)]
pub struct BaegunError {
    pub kind: ErrorKind,
    pub message: String,
}

impl BaegunError {
    pub fn new(kind: ErrorKind, message: String) -> (e: Self)
        ensures
            e.kind == kind,
            e.message@ == message@,
    {
        BaegunError { kind, message }
    }

    pub fn bad_args(message: String) -> (e: Self)
        ensures
            e.kind == ErrorKind::BadArgs,
            e.message@ == message@,
    {
        Self::new(ErrorKind::BadArgs, message)
    }

    pub fn api(message: String) -> (e: Self)
        ensures
            e.kind == ErrorKind::Api,
            e.message@ == message@,
    {
        Self::new(ErrorKind::Api, message)
    }

    pub fn ocr_schema(message: String) -> (e: Self)
        ensures
            e.kind == ErrorKind::OcrSchema,
            e.message@ == message@,
    {
        Self::new(ErrorKind::OcrSchema, message)
    }

    pub fn epub(message: String) -> (e: Self)
        ensures
            e.kind == ErrorKind::Epub,
            e.message@ == message@,
    {
        Self::new(ErrorKind::Epub, message)
    }

    pub fn validation(message: String) -> (e: Self)
        ensures
            e.kind == ErrorKind::Validation,
            e.message@ == message@,
    {
        Self::new(ErrorKind::Validation, message)
    }

    pub fn internal(message: String) -> (e: Self)
        ensures
            e.kind == ErrorKind::Internal,
            e.message@ == message@,
    {
        Self::new(ErrorKind::Internal, message)
    }
}

} // verus!
