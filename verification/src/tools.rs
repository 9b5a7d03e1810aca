//! Tool-declaration conversion and function-call handling.

use crate::cache::{spec_has_name, ToolSchemaCache};
use crate::claude::{spec_schema_json, ClaudeTool, ContentBlock};
use crate::chunk::{CandV, ChunkV, PartV};
use crate::error::ProxyError;
use crate::metrics::{
    spec_record_failure, spec_record_tool_result, spec_record_transformation, ToolMetrics,
};
use crate::gemini::{FunctionCall, GeminiStreamChunk, GeminiTool};
use crate::json::{JsonV, JsonValue};
use crate::text::{escape_chars, escape_text};
use vstd::prelude::*;

verus! {

broadcast use vstd::seq::group_seq_axioms, vstd::std_specs::vec::group_vec_axioms;

/// Relies on `uuid::Uuid::new_v4` and its simple formatting: a fresh random
/// identifier of 32 lowercase hexadecimal characters.
#[verifier::external_body]
pub(crate) fn fresh_tool_uuid() -> (r: String)
    ensures
        r@.len() == 32,
        forall|i: int|
            0 <= i < 32 ==> ('0' <= #[trigger] r@[i] <= '9' || 'a' <= r@[i] <= 'f'),
{
    uuid::Uuid::new_v4().simple().to_string()
}

/// Relies on `std::time::SystemTime::now`: the current wall-clock time in
/// microseconds since the epoch, for timing metrics. Nothing is promised
/// of the value.
#[verifier::external_body]
fn now_micros() -> u64 {
    std::time::SystemTime::now().duration_since(std::time::UNIX_EPOCH).map(
        |d| d.as_micros() as u64,
    ).unwrap_or(0)
}

/// Every client model name maps onto the one upstream model.
pub fn map_model_name(claude_model: &str) -> (r: &'static str)
    ensures
        r@ == ("gemini-3-pro-preview")@,
{
    let _ = claude_model;
    "gemini-3-pro-preview"
}

/// No cached name collides with any of the given tools, and the tools'
/// names are pairwise distinct: conversion then reflects each tool exactly.
pub open spec fn spec_cache_clean(
    cache: ToolSchemaCache,
    tools: Seq<ClaudeTool>,
) -> bool {
    &&& forall|i: int|
        0 <= i < tools.len() ==> !spec_has_name(
            cache.spec_entries(),
            (#[trigger] tools[i]).name@,
        )
    &&& forall|i: int, j: int|
        0 <= i < j < tools.len() ==> (#[trigger] tools[i]).name@ != (#[trigger] tools[j]).name@
}

/// Converts the tools through the cache and wraps them as the single
/// function-declaration group the upstream dialect expects.
pub fn transform_tools(
    claude_tools: &Vec<ClaudeTool>,
    cache: &mut ToolSchemaCache,
    metrics: &mut ToolMetrics,
) -> (r: Result<Vec<GeminiTool>, ProxyError>)
    requires
        old(cache).wf(),
    ensures
        final(cache).wf(),
        exists|micros: u64|
            *final(metrics) == #[trigger] spec_record_transformation(*old(metrics), micros),
        (r matches Ok(ts) && ts@.len() == 1 && {
            let decls = ts@[0].function_declarations@;
            &&& decls.len() == claude_tools@.len()
            &&& forall|i: int|
                0 <= i < decls.len() ==> (#[trigger] decls[i]).name@ == claude_tools@[i].name@
            &&& spec_cache_clean(*old(cache), claude_tools@) ==> forall|i: int|
                0 <= i < decls.len() ==> (#[trigger] decls[i]).description@
                    == claude_tools@[i].description@ && spec_schema_json(decls[i].parameters)
                    == spec_schema_json(claude_tools@[i].input_schema)
        }),
{
    let started = now_micros();
    let mut decls: Vec<crate::gemini::GeminiFunctionDeclaration> = Vec::new();
    let mut i: usize = 0;
    while i < claude_tools.len()
        invariant
            old(cache).wf(),
            cache.wf(),
            *metrics == *old(metrics),
            0 <= i <= claude_tools@.len(),
            decls@.len() == i,
            forall|k: int|
                0 <= k < i ==> (#[trigger] decls@[k]).name@ == claude_tools@[k].name@,
            spec_cache_clean(*old(cache), claude_tools@) ==> {
                &&& forall|k: int|
                    0 <= k < i ==> (#[trigger] decls@[k]).description@
                        == claude_tools@[k].description@ && spec_schema_json(
                        decls@[k].parameters,
                    ) == spec_schema_json(claude_tools@[k].input_schema)
                &&& forall|n: Seq<char>|
                    #[trigger] spec_has_name(cache.spec_entries(), n) <==> spec_has_name(
                        old(cache).spec_entries(),
                        n,
                    ) || exists|k: int| 0 <= k < i && (#[trigger] claude_tools@[k]).name@ == n
            },
        decreases claude_tools@.len() - i,
    {
        let ghost pre_cache = *cache;
        let d = cache.get_or_transform(&claude_tools[i]);
        decls.push(d);
        proof {
            if spec_cache_clean(*old(cache), claude_tools@) {
                assert(!spec_has_name(pre_cache.spec_entries(), claude_tools@[i as int].name@));
                assert forall|n: Seq<char>| #[trigger]
                    spec_has_name(cache.spec_entries(), n) <==> spec_has_name(
                    old(cache).spec_entries(),
                    n,
                ) || exists|k: int|
                    0 <= k < i + 1 && (#[trigger] claude_tools@[k]).name@ == n by {
                    if spec_has_name(cache.spec_entries(), n) {
                        let w = choose|w: int|
                            0 <= w < cache.spec_entries().len() && (#[trigger] cache.spec_entries()[
                                w
                            ]).0@ == n;
                        if w < pre_cache.spec_entries().len() {
                            assert(spec_has_name(pre_cache.spec_entries(), n));
                        } else {
                            assert(cache.spec_entries()[w].0@ == claude_tools@[i as int].name@);
                            assert(claude_tools@[i as int].name@ == n);
                        }
                    }
                    if spec_has_name(pre_cache.spec_entries(), n) {
                        let w = choose|w: int|
                            0 <= w < pre_cache.spec_entries().len() && (
                            #[trigger] pre_cache.spec_entries()[w]).0@ == n;
                        assert(cache.spec_entries()[w].0@ == n);
                        assert(spec_has_name(cache.spec_entries(), n));
                    }
                    if exists|k: int| 0 <= k < i + 1 && (#[trigger] claude_tools@[k]).name@
                        == n {
                        let k = choose|k: int|
                            0 <= k < i + 1 && (#[trigger] claude_tools@[k]).name@ == n;
                        if k < i {
                        } else {
                            assert(cache.spec_entries().last().0@ == n);
                            assert(spec_has_name(cache.spec_entries(), n));
                        }
                    }
                }
            }
        }
        i = i + 1;
    }
    let ended = now_micros();
    let elapsed = if ended >= started {
        ended - started
    } else {
        0
    };
    metrics.record_transformation(elapsed);
    let mut wrapped: Vec<GeminiTool> = Vec::new();
    wrapped.push(GeminiTool { function_declarations: decls });
    Ok(wrapped)
}

/// Builds the client-side tool-use block for an upstream function call,
/// under a fresh tool-use id.
pub fn transform_function_call(function_call: &FunctionCall) -> (r: Result<
    (String, ContentBlock),
    ProxyError,
>)
    ensures
        (r matches Ok((id, block)) && {
            &&& id@.len() == 38
            &&& id@.take(6) == ("toolu_")@
            &&& block matches ContentBlock::ToolUse { id: bid, name, input } && bid@ == id@
                && name@ == function_call.name@ && input@ == function_call.args@
        }),
{
    broadcast use vstd::string::group_string_axioms;

    let mut id = String::from_str("toolu_");
    proof {
        reveal_strlit("toolu_");
    }
    id.append(fresh_tool_uuid().as_str());
    proof {
        assert(id@.take(6) =~= ("toolu_")@);
    }
    let block = ContentBlock::ToolUse {
        id: id.clone(),
        name: function_call.name.clone(),
        input: function_call.args.duplicate(),
    };
    Ok((id, block))
}

/// The JSON body a function response carries: the result text and the error
/// flag.
pub open spec fn spec_response_body(content: Seq<char>, is_error: bool) -> JsonV {
    JsonV::Obj(
        seq![
            (("result")@, JsonV::Str(escape_chars(content))),
            (("error")@, JsonV::Bool(is_error)),
        ],
    )
}

/// Rewrites a tool-result block into the upstream function response, under
/// the resolved function name.
pub fn transform_tool_result(
    tool_result: &ContentBlock,
    function_name: String,
    metrics: &mut ToolMetrics,
) -> (r: Result<crate::gemini::GeminiPart, ProxyError>)
    ensures
        match *tool_result {
            ContentBlock::ToolResult { tool_use_id: _, content, is_error } => (r matches Ok(p)
                && p matches crate::gemini::GeminiPart::FunctionResponse { function_response }
                && function_response.name@ == function_name@ && function_response.response@
                == spec_response_body(content@, match is_error {
                Some(b) => b,
                None => false,
            })) && *final(metrics) == spec_record_tool_result(*old(metrics)),
            _ => (r matches Err(e) && e is TransformationError) && *final(metrics)
                == spec_record_failure(*old(metrics)),
        },
{
    match tool_result {
        ContentBlock::ToolResult { tool_use_id: _, content, is_error } => {
            metrics.record_tool_result();
            let err_flag = match is_error {
                Some(b) => *b,
                None => false,
            };
            let mut entries: Vec<(String, JsonValue)> = Vec::new();
            entries.push((String::from_str("result"), JsonValue::Str(escape_text(
                content.as_str(),
            ))));
            entries.push((String::from_str("error"), JsonValue::Bool(err_flag)));
            let response = JsonValue::Obj(entries);
            proof {
                crate::json::lemma_obj_views(entries@, entries@.len() as int);
                assert(response@->Obj_0 =~= spec_response_body(content@, err_flag)->Obj_0);
            }
            Ok(crate::gemini::GeminiPart::FunctionResponse {
                function_response: crate::gemini::FunctionResponse {
                    name: function_name,
                    response,
                },
            })
        },
        _ => {
            metrics.record_failure();
            Err(ProxyError::TransformationError(String::from_str(
                "Expected tool_result block",
            )))
        },
    }
}

/// Whether a part is a function call, with or without a thought signature.
pub open spec fn spec_part_is_call(p: PartV) -> bool {
    p is Call || p is CallThought
}

/// Whether a candidate's content carries a function call.
pub open spec fn spec_cand_has_call(c: CandV) -> bool {
    c.content matches Some(ct) && exists|j: int|
        0 <= j < ct.parts.len() && spec_part_is_call(#[trigger] ct.parts[j])
}

/// Whether any candidate of the chunk carries a function call.
pub open spec fn spec_chunk_has_call(c: ChunkV) -> bool {
    exists|i: int| 0 <= i < c.candidates.len() && spec_cand_has_call(#[trigger] c.candidates[i])
}

fn content_has_call(content: &crate::gemini::GeminiContent) -> (r: bool)
    ensures
        r == (exists|j: int|
            0 <= j < content@.parts.len() && spec_part_is_call(#[trigger] content@.parts[j])),
{
    let mut j: usize = 0;
    while j < content.parts.len()
        invariant
            0 <= j <= content.parts@.len(),
            content@.parts.len() == content.parts@.len(),
            forall|k: int| 0 <= k < content.parts@.len() ==> #[trigger] content@.parts[k]
                == content.parts@[k]@,
            forall|k: int| 0 <= k < j ==> !spec_part_is_call(#[trigger] content@.parts[k]),
        decreases content.parts@.len() - j,
    {
        match &content.parts[j] {
            crate::gemini::GeminiPart::FunctionCall { .. } => {
                proof {
                    assert(content@.parts[j as int] == content.parts@[j as int]@);
                    assert(spec_part_is_call(content@.parts[j as int]));
                }
                return true;
            },
            crate::gemini::GeminiPart::FunctionCallWithThought { .. } => {
                proof {
                    assert(content@.parts[j as int] == content.parts@[j as int]@);
                    assert(spec_part_is_call(content@.parts[j as int]));
                }
                return true;
            },
            _ => {},
        }
        j = j + 1;
    }
    false
}

/// Whether the chunk carries a function call in any candidate, with or
/// without a thought signature.
pub fn has_function_calls(chunk: &GeminiStreamChunk) -> (r: bool)
    ensures
        r == spec_chunk_has_call(chunk@),
{
    let mut i: usize = 0;
    while i < chunk.candidates.len()
        invariant
            0 <= i <= chunk.candidates@.len(),
            chunk@.candidates.len() == chunk.candidates@.len(),
            forall|k: int|
                0 <= k < chunk.candidates@.len() ==> #[trigger] chunk@.candidates[k]
                    == chunk.candidates@[k]@,
            forall|k: int| 0 <= k < i ==> !spec_cand_has_call(#[trigger] chunk@.candidates[k]),
        decreases chunk.candidates@.len() - i,
    {
        if let Some(content) = &chunk.candidates[i].content {
            if content_has_call(content) {
                proof {
                    assert(chunk@.candidates[i as int].content matches Some(cv) && cv
                        == content@);
                }
                return true;
            }
        }
        i = i + 1;
    }
    false
}

} // verus!
