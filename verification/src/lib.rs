//! Tool-call reliability guardrails for a transparent OpenAI chat-completions
//! proxy: the proxy hop's header and URL decisions, decoding model output,
//! rescuing tool calls buried in text, validating them against the declared
//! tools, the synthetic `respond` tool, and retry bookkeeping.
pub mod decode;
pub mod guardrails;
pub mod json;
pub mod model;
pub mod passthrough;
pub mod rescue;
pub mod respond;
pub mod retry;
pub mod text;
pub mod validate;

pub use decode::{
    canonical_tool_calls, decode_response, response_with_text, response_with_tool_calls,
    ModelOutput, ToolCall,
};
pub use guardrails::{GuardrailLoop, Guardrails, Step};
pub use json::JsonValue;
pub use model::{FunctionDef, Tool};
pub use passthrough::{
    forward_request_header, guarded_route, is_hop_by_hop, judged_status, normalize_backend, proxy_target,
    relay_response_header,
};
pub use rescue::{
    default_parsers, extract_tagged, rescue, AnyParser, BareJson, FencedJson, Hermes, Llama, Mistral, Qwen,
    QwenCoder, Rehearsal, RescueParser,
};
pub use respond::{is_respond, message_text, respond_tool, RESPOND};
pub use retry::{nudge_message, ErrorTracker};
pub use validate::{validate, Validation};
