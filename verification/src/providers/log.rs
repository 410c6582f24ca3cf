//! Log provider: a no-op LLM that returns an immediate end-turn response.
//!
//! Sessions using this provider can only be driven by executing tools. The agent loop exits
//! cleanly after any tool results because the provider returns a minimal message with
//! `StopReason::Stop` (no text, no tool calls).

use vstd::prelude::*;

use crate::provider::Provider;
use crate::types::{
    AssistantMessage, Model, ModelCost, ModelView, StopReason, StreamEvent, StreamEventView,
    ThinkingStyle,
};

verus! {

/// No-op provider that returns an immediate end-turn with empty content.
#[derive(Debug, Clone, Copy)]
pub struct LogProvider;

impl Provider for LogProvider {
    open spec fn id(&self) -> Seq<char> {
        "log"@
    }

    open spec fn keyed(&self) -> bool {
        false
    }

    fn api_id(&self) -> (r: &str) {
        "log"
    }

    fn needs_api_key(&self) -> (r: bool) {
        false
    }
}

impl LogProvider {
    /// The events of a response: the start and the end of one empty message.
    pub fn events(&self) -> (r: Vec<StreamEvent>)
        ensures
            r.deep_view().len() == 2,
            r.deep_view()[0] is Start,
            ({
                let m = r.deep_view()[0]->Start_partial;
                &&& m.is_empty_of("log"@, "log"@, "log"@)
                &&& r.deep_view()[1] == (StreamEventView::Done {
                    reason: StopReason::Stop,
                    message: m,
                })
            }),
    {
        let output = AssistantMessage::empty("log", "log", "log");
        let r: Vec<StreamEvent> = vec![
            StreamEvent::Start { partial: output.clone() },
            StreamEvent::Done { reason: StopReason::Stop, message: output },
        ];
        r
    }
}

/// Create the built-in `log` model definition.
pub fn log_model() -> (r: Model)
    ensures
        r@ == (ModelView {
            id: "log"@,
            name: "Log (no LLM)"@,
            api: "log"@,
            provider: "log"@,
            base_url: seq![],
            thinking: ThinkingStyle::Off,
            cost: ModelCost { input: 0, output: 0, cache_read: 0, cache_write: 0 },
            context_window: 1_000_000,
            max_tokens: 0,
            headers: seq![],
        }),
{
    let r = Model {
        id: "log".to_owned(),
        name: "Log (no LLM)".to_owned(),
        api: "log".to_owned(),
        provider: "log".to_owned(),
        base_url: String::new(),
        thinking: ThinkingStyle::Off,
        cost: ModelCost::default(),
        context_window: 1_000_000,
        max_tokens: 0,
        headers: Vec::new(),
    };
    assert(r@.headers =~= seq![]);
    r
}

} // verus!
