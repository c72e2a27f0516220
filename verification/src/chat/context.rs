//! What a conversation is about.
use vstd::prelude::*;

verus! {

/// What the user wants from a conversation.
#[derive(Clone, Copy, Debug, PartialEq, Eq, Structural)]
pub enum TaskType {
    FreeChat,
    CompileLegalBasis,
    FindSimilarCases,
    VerifyMyDraft,
    SimulateOpposition,
}

} // verus!
