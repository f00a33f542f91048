//! The wire-format types of plain-text completions.

use vstd::prelude::*;

verus! {

#[derive(Debug, Clone)]
pub struct CompletionRequest {
    pub model: String,
}

#[derive(Debug, Clone)]
pub struct CompletionResponse {}

} // verus!
