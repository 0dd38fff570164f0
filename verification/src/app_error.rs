use vstd::prelude::*;

verus! {

/// The single error type of the pipeline. The message says which stage
/// failed: a parse stage, or the cycle check of the body table.
#[derive(Debug)]
pub struct AppError(pub String);

impl AppError {
    /// Relies on the `format!` macro: renders any std error as its display
    /// text. Nothing is promised of the text; callers use it only to report.
    #[verifier::external_body]
    pub fn new<E: std::error::Error>(error: E) -> AppError {
        AppError(format!("{}", error))
    }

    /// The message carried by this error.
    pub fn message(&self) -> (r: &String)
        ensures
            r@ == self.0@,
    {
        &self.0
    }
}

} // verus!
