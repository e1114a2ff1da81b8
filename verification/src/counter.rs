//! Token counting: the pre-flight estimate of a chat request's input
//! tokens, provider usage reports, and the observer that watches a stream
//! for its final usage event.

use vstd::prelude::*;
use vstd::string::StrSliceExecFns;
use vstd::arithmetic::div_mod::lemma_div_is_ordered;
use vstd::string::StringExecFns;

verus! {

/// One chat message.
#[derive(Debug)]
pub struct ChatMessage {
    pub role: String,
    pub content: String,
}

/// A parsed chat-completion request, as the counter and admission see it.
#[derive(Debug)]
pub struct ChatRequest {
    /// The full `provider/model` name the client sent.
    pub model: String,
    pub messages: Vec<ChatMessage>,
    pub stream: bool,
    pub max_tokens: Option<u64>,
}

/// Provider-reported token usage.
#[derive(Clone, Copy, PartialEq, Eq, Structural, Debug)]
pub struct UsageReport {
    pub input_tokens: u64,
    pub output_tokens: u64,
}

/// Estimated tokens of one message: a fixed overhead of four tokens plus one
/// token per started run of three characters of role and of content.
pub open spec fn spec_message_tokens(m: ChatMessage) -> int {
    4 + (m.role@.len() as int + 2) / 3 + (m.content@.len() as int + 2) / 3
}

/// Addition saturating at the largest representable count.
pub open spec fn sat_add(a: int, b: int) -> int {
    if a + b > u64::MAX {
        u64::MAX as int
    } else {
        a + b
    }
}

/// Estimated input tokens of a message list: deterministic, and never
/// smaller for a message list extended in content.
pub open spec fn spec_estimate(ms: Seq<ChatMessage>) -> int
    decreases ms.len(),
{
    if ms.len() == 0 {
        0
    } else {
        sat_add(spec_estimate(ms.drop_last()), spec_message_tokens(ms.last()))
    }
}

/// The estimate always lies between zero and the largest representable
/// count, whatever the messages hold.
pub proof fn lemma_estimate_bounds(ms: Seq<ChatMessage>)
    ensures
        0 <= spec_estimate(ms) <= u64::MAX,
    decreases ms.len(),
{
    if ms.len() > 0 {
        lemma_estimate_bounds(ms.drop_last());
        let m = ms.last();
        lemma_div_is_ordered(0, m.role@.len() as int + 2, 3);
        lemma_div_is_ordered(0, m.content@.len() as int + 2, 3);
    }
}

/// Law: the estimator is monotone in content length. Messages that are
/// pointwise no longer in role and content estimate to no more.
pub proof fn lemma_estimate_monotone_in_content(ms1: Seq<ChatMessage>, ms2: Seq<ChatMessage>)
    requires
        ms1.len() == ms2.len(),
        forall|i: int|
            0 <= i < ms1.len() ==> (#[trigger] ms1[i]).role@.len() <= ms2[i].role@.len(),
        forall|i: int|
            0 <= i < ms1.len() ==> (#[trigger] ms1[i]).content@.len() <= ms2[i].content@.len(),
    ensures
        spec_estimate(ms1) <= spec_estimate(ms2),
    decreases ms1.len(),
{
    if ms1.len() > 0 {
        lemma_estimate_monotone_in_content(ms1.drop_last(), ms2.drop_last());
        let a = ms1.last();
        let b = ms2.last();
        lemma_div_is_ordered(a.role@.len() as int + 2, b.role@.len() as int + 2, 3);
        lemma_div_is_ordered(a.content@.len() as int + 2, b.content@.len() as int + 2, 3);
    }
}

/// Law: the estimator is monotone in the message list. Appending a message
/// never shrinks the estimate.
pub proof fn lemma_estimate_monotone_in_messages(ms: Seq<ChatMessage>, m: ChatMessage)
    ensures
        spec_estimate(ms) <= spec_estimate(ms.push(m)),
{
    lemma_estimate_bounds(ms);
    assert(ms.push(m).drop_last() =~= ms);
    assert(ms.push(m).last() == m);
    lemma_div_is_ordered(0, m.role@.len() as int + 2, 3);
    lemma_div_is_ordered(0, m.content@.len() as int + 2, 3);
}

/// Conservative character-based estimate of the input tokens a chat request
/// will consume.
pub fn estimate_input_tokens(messages: &Vec<ChatMessage>) -> (r: u64)
    ensures
        r == spec_estimate(messages@),
{
    let n = messages.len();
    let mut acc: u64 = 0;
    let mut i: usize = 0;
    proof {
        assert(messages@.take(0) =~= Seq::<ChatMessage>::empty());
    }
    while i < n
        invariant
            n == messages@.len(),
            i <= n,
            acc == spec_estimate(messages@.take(i as int)),
        decreases n - i,
    {
        let role_len = messages[i].role.as_str().unicode_len();
        let content_len = messages[i].content.as_str().unicode_len();
        let tokens128: u128 = 4 + ((role_len as u128) + 2) / 3 + ((content_len as u128) + 2) / 3;
        let tokens: u64 = tokens128 as u64;
        proof {
            assert(tokens == spec_message_tokens(messages@[i as int]));
            assert(messages@.take(i as int + 1).drop_last() =~= messages@.take(i as int));
            assert(messages@.take(i as int + 1).last() == messages@[i as int]);
        }
        acc = acc.saturating_add(tokens);
        i = i + 1;
    }
    proof {
        assert(messages@.take(n as int) =~= messages@);
    }
    acc
}

/// Tracks the last provider-reported usage seen while a response streams.
pub struct StreamObserver {
    /// The latest usage report any event carried, if one did.
    pub last_usage: Option<UsageReport>,
}

impl StreamObserver {
    /// A fresh observer has seen no usage.
    pub fn new() -> (r: StreamObserver)
        ensures
            r.last_usage is None,
    {
        StreamObserver { last_usage: None }
    }

    /// Record the usage one stream event carried, if any; the latest report
    /// wins, and an event without usage changes nothing.
    pub fn observe(&mut self, usage: Option<UsageReport>)
        ensures
            final(self).last_usage == match usage {
                Some(u) => Some(u),
                None => old(self).last_usage,
            },
    {
        match usage {
            Some(u) => {
                self.last_usage = Some(u);
            },
            None => {},
        }
    }

    /// The usage reconciliation closes with: the final report when the
    /// stream carried one, else the estimate standing as actual.
    pub fn usage_at_close(&self, estimated: u64) -> (r: UsageReport)
        ensures
            r == match self.last_usage {
                Some(u) => u,
                None => UsageReport { input_tokens: estimated, output_tokens: 0 },
            },
    {
        match self.last_usage {
            Some(u) => u,
            None => UsageReport { input_tokens: estimated, output_tokens: 0 },
        }
    }
}

/// Whether one server-sent event's data line is the end-of-stream marker.
pub fn is_done_marker(data: &String) -> (r: bool)
    ensures
        r == (data@ == "[DONE]"@),
{
    let marker = String::from_str("[DONE]");
    *data == marker
}

} // verus!
