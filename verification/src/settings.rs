//! The settings that the library reads.
use vstd::prelude::*;

verus! {

/// What the user has set. What is not set is `None`.
pub struct Settings {
    /// The most rounds of one conversation.
    pub chat_loop_max_iters: Option<u32>,
    /// How a model is chosen.
    pub cloud_llm_model: Option<String>,
}

} // verus!
