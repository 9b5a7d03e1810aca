//! Data model of the upstream dialect: requests, contents, parts, tool
//! declarations and streamed response chunks.

use crate::claude::JsonSchema;
use crate::json::JsonValue;
use vstd::prelude::*;

verus! {

broadcast use vstd::seq::group_seq_axioms, vstd::std_specs::vec::group_vec_axioms;

/// A function call produced by the model.
pub struct FunctionCall {
    pub name: String,
    pub args: JsonValue,
}

/// A function execution result handed back to the model.
pub struct FunctionResponse {
    pub name: String,
    pub response: JsonValue,
}

/// Base64-encoded binary content.
pub struct InlineData {
    pub mime_type: String,
    pub data: String,
}

/// One element of an upstream message.
pub enum GeminiPart {
    Text { text: String },
    TextWithThought { text: String, thought_signature: String },
    InlineData { inline_data: InlineData },
    FunctionCallWithThought { function_call: FunctionCall, thought_signature: String },
    FunctionCall { function_call: FunctionCall },
    FunctionResponse { function_response: FunctionResponse },
}

/// An upstream message: a role and its parts.
pub struct GeminiContent {
    pub role: Option<String>,
    pub parts: Vec<GeminiPart>,
}

/// The system instruction wrapper.
pub struct GeminiSystemInstruction {
    pub parts: Vec<GeminiPart>,
}

/// An individual function declaration offered to the model.
pub struct GeminiFunctionDeclaration {
    pub name: String,
    pub description: String,
    pub parameters: JsonSchema,
}

/// The tool declaration wrapper.
pub struct GeminiTool {
    pub function_declarations: Vec<GeminiFunctionDeclaration>,
}

/// Generation parameters, with fractions in thousandths as the client
/// request holds them.
pub struct GenerationConfig {
    pub max_output_tokens: Option<u32>,
    pub temperature: Option<i32>,
    pub top_p: Option<i32>,
    pub top_k: Option<u32>,
    pub stop_sequences: Option<Vec<String>>,
}

/// A safety setting passed through to upstream.
pub struct SafetySetting {
    pub category: String,
    pub threshold: String,
}

/// A request in the upstream dialect.
pub struct GeminiRequest {
    pub contents: Vec<GeminiContent>,
    pub system_instruction: Option<GeminiSystemInstruction>,
    pub generation_config: Option<GenerationConfig>,
    pub safety_settings: Option<Vec<SafetySetting>>,
    pub tools: Option<Vec<GeminiTool>>,
}

/// Token counts reported by upstream.
pub struct UsageMetadata {
    pub prompt_token_count: Option<u32>,
    pub candidates_token_count: Option<u32>,
    pub total_token_count: Option<u32>,
}

/// A safety classification reported by upstream.
pub struct SafetyRating {
    pub category: String,
    pub probability: String,
}

/// Feedback on a blocked prompt.
pub struct PromptFeedback {
    pub block_reason: Option<String>,
    pub safety_ratings: Option<Vec<SafetyRating>>,
}

/// One streamed completion candidate.
pub struct Candidate {
    pub content: Option<GeminiContent>,
    pub finish_reason: Option<String>,
    pub safety_ratings: Option<Vec<SafetyRating>>,
    pub index: Option<u32>,
}

/// One element of the upstream streaming response array.
pub struct GeminiStreamChunk {
    pub candidates: Vec<Candidate>,
    pub usage_metadata: Option<UsageMetadata>,
    pub prompt_feedback: Option<PromptFeedback>,
}

} // verus!
