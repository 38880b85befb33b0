//! Token usage reported by an upstream model API.

use vstd::prelude::*;

verus! {

/// Input and output token counts, each absent when the response did not
/// report it.
#[derive(Debug, Clone, Copy, PartialEq, Eq, Structural)]
pub struct Usage {
    pub input_tokens: Option<u64>,
    pub output_tokens: Option<u64>,
}

/// A reported count, or zero when absent.
pub open spec fn count_or_zero(count: Option<u64>) -> nat {
    match count {
        Some(n) => n as nat,
        None => 0,
    }
}

impl Default for Usage {
    fn default() -> (r: Usage)
        ensures
            r.input_tokens is None,
            r.output_tokens is None,
    {
        Usage { input_tokens: None, output_tokens: None }
    }
}

impl Usage {
    /// Input plus output tokens, an absent count standing for zero. The sum
    /// must fit in `u64`.
    pub fn total_tokens(&self) -> (r: u64)
        requires
            count_or_zero(self.input_tokens) + count_or_zero(self.output_tokens) <= u64::MAX,
        ensures
            r == count_or_zero(self.input_tokens) + count_or_zero(self.output_tokens),
    {
        let input = match self.input_tokens {
            Some(n) => n,
            None => 0,
        };
        let output = match self.output_tokens {
            Some(n) => n,
            None => 0,
        };
        input + output
    }
}

} // verus!
