use vstd::prelude::*;

use crate::names::same_text;

verus! {

/// The internal form of an LLM request: its prompt as tokens, and what comes with it.
#[derive(Clone, Debug)]
pub struct PreprocessedRequest {
    /// The prompt.
    pub token_ids: Vec<u32>,
    /// The end-of-sequence token ids of the model.
    pub eos_token_ids: Vec<u32>,
    /// Checksum of the model deployment card.
    pub mdc_sum: Option<String>,
    /// Annotations that the user asked for.
    pub annotations: Vec<String>,
}

impl PreprocessedRequest {
    /// A request for this prompt, without annotations.
    pub fn new(token_ids: Vec<u32>) -> (r: PreprocessedRequest)
        ensures
            r.token_ids@ == token_ids@,
            r.eos_token_ids@.len() == 0,
            r.mdc_sum is None,
            r.annotations@.len() == 0,
    {
        PreprocessedRequest {
            token_ids,
            eos_token_ids: Vec::new(),
            mdc_sum: None,
            annotations: Vec::new(),
        }
    }

    /// Whether the user asked for `annotation`.
    pub fn has_annotation(&self, annotation: &str) -> (r: bool)
        ensures
            r == exists|i: int|
                0 <= i < self.annotations@.len() && #[trigger] self.annotations@[i]@ == annotation@,
    {
        let mut i: usize = 0;
        while i < self.annotations.len()
            invariant
                i <= self.annotations@.len(),
                forall|j: int| 0 <= j < i ==> #[trigger] self.annotations@[j]@ != annotation@,
            decreases self.annotations@.len() - i,
        {
            if same_text(self.annotations[i].as_str(), annotation) {
                return true;
            }
            i = i + 1;
        }
        false
    }
}

} // verus!
