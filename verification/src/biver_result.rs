use vstd::prelude::*;

verus! {

/// Outcome of a fallible library operation: either a value or a `BiverError`.
pub type BiverResult<T> = Result<T, BiverError>;

/// An error surfaced to the user, with a message and a severity.
#[derive(Debug)]
pub struct BiverError {
    pub error_message: String,
    pub severity: BiverErrorSeverity,
}

#[derive(Clone, Copy, Debug, PartialEq, Eq, Structural)]
pub enum BiverErrorSeverity {
    Error,
    Warning,
}

/// The label under which a severity is reported.
pub open spec fn severity_label(severity: BiverErrorSeverity) -> Seq<char> {
    match severity {
        BiverErrorSeverity::Error => "ERROR"@,
        BiverErrorSeverity::Warning => "WARNING"@,
    }
}

impl BiverError {
    /// The full report line for this error: its severity label, then the message.
    pub fn to_message(&self) -> (r: String)
        ensures
            r@ == severity_label(self.severity) + ": "@ + self.error_message@,
    {
        let mut r = match self.severity {
            BiverErrorSeverity::Error => String::from_str("ERROR"),
            BiverErrorSeverity::Warning => String::from_str("WARNING"),
        };
        r.append(": ");
        r.append(self.error_message.as_str());
        r
    }
}

pub fn error<T>(message: &str) -> (r: BiverResult<T>)
    ensures
        r matches Err(e) && e.error_message@ == message@ && e.severity is Error,
{
    Err(BiverError { error_message: message.to_owned(), severity: BiverErrorSeverity::Error })
}

pub fn warning<T>(message: &str) -> (r: BiverResult<T>)
    ensures
        r matches Err(e) && e.error_message@ == message@ && e.severity is Warning,
{
    Err(BiverError { error_message: message.to_owned(), severity: BiverErrorSeverity::Warning })
}

} // verus!
