//! Retrying of model calls for memory queries.
use crate::memory::agent_llm::ContentBlock;
use crate::text::compose::{cat2, same_text};
use crate::text::trim::{trim_text, trimmed};
use vstd::arithmetic::power2::{lemma2_to64, lemma_pow2_strictly_increases, lemma_pow2_unfold, pow2};
use vstd::prelude::*;

verus! {

broadcast use vstd::string::group_string_axioms;

/// Errors from memory model calls.
#[derive(Debug)]
pub enum MemoryLlmError {
    /// Transport or API error.
    Transport(String),
    /// No more canned responses.
    MockExhausted,
}

impl MemoryLlmError {
    /// The text that is shown for the error.
    pub open spec fn text(&self) -> Seq<char> {
        match self {
            MemoryLlmError::Transport(e) => "llm transport: "@ + e@,
            MemoryLlmError::MockExhausted => "mock: no more canned responses"@,
        }
    }

    /// The text that is shown for the error.
    pub fn message(&self) -> (r: String)
        ensures
            r@ == self.text(),
    {
        match self {
            MemoryLlmError::Transport(e) => cat2("llm transport: ", e.as_str()),
            MemoryLlmError::MockExhausted => "mock: no more canned responses".to_owned(),
        }
    }
}

/// A model's response to a memory query.
#[derive(Debug)]
pub struct MemoryLlmResponse {
    /// The text blocks in a row.
    pub text: String,
    /// All blocks.
    pub content_blocks: Vec<ContentBlock>,
    /// Why the model stopped.
    pub finish_reason: String,
}

/// How often a call is tried again.
pub const MEMORY_MAX_RETRIES: u32 = 2;

/// The first pause between two tries, in milliseconds.
pub const MEMORY_RETRY_BACKOFF_MS: u64 = 500;

/// What the retry policy says of a failed call.
#[derive(Debug, Clone, Copy, PartialEq, Eq, Structural)]
pub enum RetryDecision {
    /// Try again.
    Retry,
    /// Try another model.
    FallbackModel,
    /// Give up.
    Fail,
}

/// What is to be done after a call.
#[derive(Debug)]
pub enum RetryStep {
    /// Wait, then call again.
    RetryAfter {
        /// The pause in milliseconds.
        delay_ms: u64,
        /// The number of the next try.
        attempt: u32,
    },
    /// The response stands.
    Accept(MemoryLlmResponse),
    /// The error stands.
    GiveUp(MemoryLlmError),
}

/// The response is empty, or was withheld by the provider.
pub open spec fn is_unusable(response: MemoryLlmResponse) -> bool {
    ||| response.content_blocks@.len() == 0 && trimmed(response.text@).len() == 0
    ||| response.finish_reason@ == "content_filter"@
    ||| response.finish_reason@ == "refusal"@
}

/// The pause after the try number `attempt`: it doubles from try to try.
pub open spec fn backoff(attempt: nat) -> nat {
    MEMORY_RETRY_BACKOFF_MS as nat * pow2(attempt)
}

fn backoff_ms(attempt: u32) -> (r: u64)
    requires
        backoff(attempt as nat) <= u64::MAX,
    ensures
        r as nat == backoff(attempt as nat),
{
    let mut r: u64 = MEMORY_RETRY_BACKOFF_MS;
    let mut k: u32 = 0;
    proof {
        lemma2_to64();
    }
    while k < attempt
        invariant
            k <= attempt,
            backoff(attempt as nat) <= u64::MAX,
            r as nat == MEMORY_RETRY_BACKOFF_MS as nat * pow2(k as nat),
        decreases attempt - k,
    {
        proof {
            lemma_backoff_grows((k + 1) as nat, attempt as nat);
            lemma_pow2_unfold((k + 1) as nat);
            assert(MEMORY_RETRY_BACKOFF_MS as nat * (2 * pow2(k as nat)) == 2 * (
            MEMORY_RETRY_BACKOFF_MS as nat * pow2(k as nat))) by (nonlinear_arith);
        }
        r = r * 2;
        k += 1;
    }
    r
}

proof fn lemma_backoff_grows(a: nat, b: nat)
    requires
        a <= b,
    ensures
        backoff(a) <= backoff(b),
{
    if a < b {
        lemma_pow2_strictly_increases(a, b);
        assert(MEMORY_RETRY_BACKOFF_MS as nat * pow2(a) <= MEMORY_RETRY_BACKOFF_MS as nat * pow2(b))
            by (nonlinear_arith)
            requires
                pow2(a) <= pow2(b),
        ;
    }
}

/// Decides on a response to the try number `attempt`: an unusable one is asked for again while tries
/// are left, any other stands.
pub fn on_response(attempt: u32, response: MemoryLlmResponse) -> (r: RetryStep)
    ensures
        r == if is_unusable(response) && attempt < MEMORY_MAX_RETRIES {
            RetryStep::RetryAfter {
                delay_ms: backoff(attempt as nat) as u64,
                attempt: (attempt + 1) as u32,
            }
        } else {
            RetryStep::Accept(response)
        },
{
    let empty_output = response.content_blocks.len() == 0 && trim_text(
        response.text.as_str(),
    ).as_str().is_empty();
    let filtered = same_text(response.finish_reason.as_str(), "content_filter") || same_text(
        response.finish_reason.as_str(),
        "refusal",
    );
    if (empty_output || filtered) && attempt < MEMORY_MAX_RETRIES {
        proof {
            lemma2_to64();
            lemma_backoff_grows(attempt as nat, 2);
        }
        RetryStep::RetryAfter { delay_ms: backoff_ms(attempt), attempt: attempt + 1 }
    } else {
        RetryStep::Accept(response)
    }
}

/// Decides on a failed call, given what the retry policy says of it.
pub fn on_error(attempt: u32, error: &str, decision: RetryDecision) -> (r: RetryStep)
    requires
        decision == RetryDecision::Retry ==> attempt < u32::MAX && backoff(attempt as nat) <= u64::MAX,
    ensures
        match decision {
            RetryDecision::Retry => r == (RetryStep::RetryAfter {
                delay_ms: backoff(attempt as nat) as u64,
                attempt: (attempt + 1) as u32,
            }),
            _ => r is GiveUp && r->GiveUp_0 is Transport && r->GiveUp_0->Transport_0@ == error@,
        },
{
    match decision {
        RetryDecision::Retry => RetryStep::RetryAfter {
            delay_ms: backoff_ms(attempt),
            attempt: attempt + 1,
        },
        _ => RetryStep::GiveUp(MemoryLlmError::Transport(error.to_owned())),
    }
}

/// The first pause is half a second, and each further one is twice the one before.
pub proof fn pauses_double(attempt: nat)
    ensures
        backoff(0) == 500,
        backoff(attempt + 1) == 2 * backoff(attempt),
{
    lemma2_to64();
    lemma_pow2_unfold(attempt + 1);
    let p = pow2(attempt);
    assert(500 * (2 * p) == 2 * (500 * p)) by (nonlinear_arith);
}

/// A response that says something and was not withheld is used; an empty one, and one that was withheld, is
/// asked for again.
pub proof fn only_usable_responses_are_used(response: MemoryLlmResponse)
    ensures
        response.finish_reason@ == "content_filter"@ ==> is_unusable(response),
        response.finish_reason@ == "refusal"@ ==> is_unusable(response),
        response.content_blocks@.len() == 0 && trimmed(response.text@).len() == 0 ==> is_unusable(
            response,
        ),
        response.finish_reason@ != "content_filter"@ && response.finish_reason@ != "refusal"@ && (
        response.content_blocks@.len() > 0 || trimmed(response.text@).len() > 0) ==> !is_unusable(
            response,
        ),
{
}

}
