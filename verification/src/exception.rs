use vstd::prelude::*;

verus! {

/// The error a processor, the pipeline builder or the binder reports.
///
/// Each variant is one kind of failure and carries a free-text message.
#[derive(Debug, Clone, PartialEq, Eq)]
pub enum ErrorCode {
    /// The requested feature does not exist yet.
    UnImplement(String),
    /// A name in a query cannot be resolved.
    SemanticError(String),
    /// A caller broke the contract of a port, a pipeline or the scheduler.
    LogicalError(String),
    /// A processor failed while it worked on a block.
    ProcessorError(String),
}

impl ErrorCode {
    /// The free-text message of the error.
    pub fn message(&self) -> (m: &String)
        ensures
            *m == self.spec_message(),
    {
        match self {
            ErrorCode::UnImplement(m) => m,
            ErrorCode::SemanticError(m) => m,
            ErrorCode::LogicalError(m) => m,
            ErrorCode::ProcessorError(m) => m,
        }
    }

    pub open spec fn spec_message(&self) -> String {
        match *self {
            ErrorCode::UnImplement(m) => m,
            ErrorCode::SemanticError(m) => m,
            ErrorCode::LogicalError(m) => m,
            ErrorCode::ProcessorError(m) => m,
        }
    }

    /// A copy of the error.
    pub fn duplicate(&self) -> (copy: ErrorCode)
        ensures
            copy == *self,
    {
        match self {
            ErrorCode::UnImplement(m) => ErrorCode::UnImplement(m.clone()),
            ErrorCode::SemanticError(m) => ErrorCode::SemanticError(m.clone()),
            ErrorCode::LogicalError(m) => ErrorCode::LogicalError(m.clone()),
            ErrorCode::ProcessorError(m) => ErrorCode::ProcessorError(m.clone()),
        }
    }

    /// True for errors that report a broken contract rather than a failure
    /// of the work itself.
    pub fn is_contract_violation(&self) -> (b: bool)
        ensures
            b == (*self is LogicalError),
    {
        match self {
            ErrorCode::LogicalError(_) => true,
            _ => false,
        }
    }
}

} // verus!
