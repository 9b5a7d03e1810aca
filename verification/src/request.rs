//! The request transformer: client message history, system prompt,
//! generation parameters and tools rewritten into the upstream dialect.

use crate::cache::ToolSchemaCache;
use crate::chunk::{ContentV, PartV};
use crate::claude::{ClaudeMessage, ClaudeRequest, ContentBlock, ContentType, SystemPrompt};
use crate::error::ProxyError;
use crate::metrics::{
    spec_record_state_lookup_failure, spec_record_tool_result, spec_record_transformation,
    ToolMetrics,
};
use crate::gemini::{
    GeminiContent, GeminiPart, GeminiRequest, GeminiSystemInstruction, GeminiTool,
    GenerationConfig,
};
use crate::state::ConversationState;
use crate::text::str_eq;
use crate::tools::{spec_response_body, transform_tools};
use vstd::prelude::*;

verus! {

broadcast use vstd::seq::group_seq_axioms, vstd::std_specs::vec::group_vec_axioms;

/// The reminder appended to the last user message when the automatic
/// todo-update prompt is on.
pub open spec fn todo_reminder() -> Seq<char> {
    ("\n\n<system-reminder>\nYou MUST now call the TodoWrite tool to update your task list based on the tool execution results above. Mark the current task as completed if the tool finished it, or keep it as in_progress if more work is needed. Call TodoWrite now with the updated task list before continuing.\n</system-reminder>")@
}

/// The first index at or after `i` whose message is from the user.
pub open spec fn spec_first_user(msgs: Seq<ClaudeMessage>, i: int) -> Option<int>
    decreases msgs.len() - i,
{
    if i < 0 || i >= msgs.len() {
        None
    } else if msgs[i].role@ == ("user")@ {
        Some(i)
    } else {
        spec_first_user(msgs, i + 1)
    }
}

/// The last index at or before `i` whose message is from the user.
pub open spec fn spec_last_user(msgs: Seq<ClaudeMessage>, i: int) -> Option<int>
    decreases i,
{
    if i < 0 || i >= msgs.len() {
        None
    } else if msgs[i].role@ == ("user")@ {
        Some(i)
    } else if i == 0 {
        None
    } else {
        spec_last_user(msgs, i - 1)
    }
}

/// Whether the message at `i` survives history pruning: with more than
/// three messages, a user message that is neither the first nor the last
/// user message is dropped.
pub open spec fn spec_msg_kept(msgs: Seq<ClaudeMessage>, i: int) -> bool {
    !(msgs[i].role@ == ("user")@ && msgs.len() > 3 && spec_first_user(msgs, 0) != Some(i)
        && spec_last_user(msgs, msgs.len() - 1) != Some(i))
}

/// The store the transformer consults, if one was handed in.
pub open spec fn spec_store(state: Option<&ConversationState>) -> Option<ConversationState> {
    match state {
        Some(s) => Some(*s),
        None => None,
    }
}

/// The function name a tool result resolves to: the registered name where
/// the store knows the id, else the id itself.
pub open spec fn spec_resolve_name(st: Option<ConversationState>, id: Seq<char>) -> Seq<char> {
    match st {
        Some(s) => match s.spec_lookup(id) {
            Some(m) => m.function_name@,
            None => id,
        },
        None => id,
    }
}

/// The part one block becomes, if any, and whether it is a function
/// response for a tool other than `TodoWrite`.
pub open spec fn spec_block_part(b: ContentBlock, st: Option<ConversationState>) -> (
    Option<PartV>,
    bool,
) {
    match b {
        ContentBlock::Text { text } => (Some(PartV::Text { text: text@ }), false),
        ContentBlock::ToolUse { .. } => (None, false),
        ContentBlock::ToolResult { tool_use_id, content, is_error } => {
            let name = spec_resolve_name(st, tool_use_id@);
            (
                Some(
                    PartV::Resp {
                        name,
                        response: spec_response_body(content@, match is_error {
                            Some(e) => e,
                            None => false,
                        }),
                    },
                ),
                name != ("TodoWrite")@,
            )
        },
    }
}

/// The parts of the first `i` blocks, and whether any was a non-`TodoWrite`
/// function response.
pub open spec fn spec_blocks_parts(
    blocks: Seq<ContentBlock>,
    st: Option<ConversationState>,
    i: int,
) -> (Seq<PartV>, bool)
    decreases i,
{
    if i <= 0 || blocks.len() < i {
        (Seq::empty(), false)
    } else {
        let (ps, f) = spec_blocks_parts(blocks, st, i - 1);
        let (p, f2) = spec_block_part(blocks[i - 1], st);
        (
            match p {
                Some(part) => ps.push(part),
                None => ps,
            },
            f || f2,
        )
    }
}

/// The parts a message's content becomes, and the non-`TodoWrite` response
/// flag.
pub open spec fn spec_content_parts(content: ContentType, st: Option<ConversationState>) -> (
    Seq<PartV>,
    bool,
) {
    match content {
        ContentType::Text(t) => (seq![PartV::Text { text: t@ }], false),
        ContentType::Blocks(blocks) => spec_blocks_parts(blocks@, st, blocks@.len() as int),
    }
}

/// The counters after translating one block: a tool result counts as one
/// processed result, preceded by one lookup failure when no store entry
/// resolved its id (the id itself then stands in as the name).
pub open spec fn spec_block_metrics(
    b: ContentBlock,
    st: Option<ConversationState>,
    m: ToolMetrics,
) -> ToolMetrics {
    match b {
        ContentBlock::ToolResult { tool_use_id, .. } => {
            let m1 = if st matches Some(s) && s.spec_lookup(tool_use_id@) is Some {
                m
            } else {
                spec_record_state_lookup_failure(m)
            };
            spec_record_tool_result(m1)
        },
        _ => m,
    }
}

/// The counters after translating the first `i` blocks.
pub open spec fn spec_blocks_metrics(
    blocks: Seq<ContentBlock>,
    st: Option<ConversationState>,
    i: int,
    m0: ToolMetrics,
) -> ToolMetrics
    decreases i,
{
    if i <= 0 || blocks.len() < i {
        m0
    } else {
        spec_block_metrics(blocks[i - 1], st, spec_blocks_metrics(blocks, st, i - 1, m0))
    }
}

/// The counters after translating one message's content.
pub open spec fn spec_content_metrics(
    content: ContentType,
    st: Option<ConversationState>,
    m0: ToolMetrics,
) -> ToolMetrics {
    match content {
        ContentType::Text(_) => m0,
        ContentType::Blocks(blocks) => spec_blocks_metrics(blocks@, st, blocks@.len() as int,
            m0),
    }
}

/// The counters after translating the first `i` messages, pruned messages
/// skipped.
pub open spec fn spec_msgs_metrics(
    msgs: Seq<ClaudeMessage>,
    st: Option<ConversationState>,
    i: int,
    m0: ToolMetrics,
) -> ToolMetrics
    decreases i,
{
    if i <= 0 || msgs.len() < i {
        m0
    } else {
        let m1 = spec_msgs_metrics(msgs, st, i - 1, m0);
        let m = msgs[i - 1];
        if !spec_msg_kept(msgs, i - 1) {
            m1
        } else if m.role@ == ("user")@ || m.role@ == ("assistant")@ {
            spec_content_metrics(m.content, st, m1)
        } else {
            m1
        }
    }
}

/// The upstream contents the first `i` messages become, or nothing on an
/// unknown role, with the non-`TodoWrite` response flag.
pub open spec fn spec_build_contents(
    msgs: Seq<ClaudeMessage>,
    st: Option<ConversationState>,
    i: int,
) -> Option<(Seq<ContentV>, bool)>
    decreases i,
{
    if i <= 0 || msgs.len() < i {
        Some((Seq::empty(), false))
    } else {
        match spec_build_contents(msgs, st, i - 1) {
            None => None,
            Some((cs, f)) => {
                let m = msgs[i - 1];
                if !spec_msg_kept(msgs, i - 1) {
                    Some((cs, f))
                } else if m.role@ == ("user")@ || m.role@ == ("assistant")@ {
                    let role = if m.role@ == ("user")@ {
                        ("user")@
                    } else {
                        ("model")@
                    };
                    let (parts, flag) = spec_content_parts(m.content, st);
                    if parts.len() == 0 {
                        Some((cs, f || flag))
                    } else {
                        Some((cs.push(ContentV { role: Some(role), parts }), f || flag))
                    }
                } else {
                    None
                }
            },
        }
    }
}

/// Once the fold fails on a prefix, it fails on the whole list.
pub proof fn lemma_build_contents_fail(
    msgs: Seq<ClaudeMessage>,
    st: Option<ConversationState>,
    i: int,
    n: int,
)
    requires
        0 < i <= n <= msgs.len(),
        spec_build_contents(msgs, st, i) is None,
    ensures
        spec_build_contents(msgs, st, n) is None,
    decreases n - i,
{
    if i < n {
        lemma_build_contents_fail(msgs, st, i + 1, n);
    }
}

/// The last content from the user, looking down from `i`.
pub open spec fn spec_last_user_content(cs: Seq<ContentV>, i: int) -> Option<int>
    decreases i,
{
    if i < 0 || i >= cs.len() {
        None
    } else if cs[i].role == Some(("user")@) {
        Some(i)
    } else if i == 0 {
        None
    } else {
        spec_last_user_content(cs, i - 1)
    }
}

/// The contents with the todo reminder appended to the last user message,
/// where there is one.
pub open spec fn spec_inject_todo(cs: Seq<ContentV>) -> Seq<ContentV> {
    match spec_last_user_content(cs, cs.len() - 1) {
        Some(k) => cs.update(
            k,
            ContentV { role: cs[k].role, parts: cs[k].parts.push(PartV::Text {
                text: todo_reminder(),
            }) },
        ),
        None => cs,
    }
}

/// The system-instruction parts: the prompt's text, or its text blocks.
pub open spec fn spec_system_blocks(blocks: Seq<ContentBlock>, i: int) -> Seq<PartV>
    decreases i,
{
    if i <= 0 || blocks.len() < i {
        Seq::empty()
    } else {
        let ps = spec_system_blocks(blocks, i - 1);
        match blocks[i - 1] {
            ContentBlock::Text { text } => ps.push(PartV::Text { text: text@ }),
            _ => ps,
        }
    }
}

/// Converts the system prompt: plain text becomes one text part; of a block
/// list only the text blocks are kept.
pub fn convert_system_prompt(system: Option<&SystemPrompt>) -> (r: Option<
    GeminiSystemInstruction,
>)
    ensures
        match system {
            None => r is None,
            Some(SystemPrompt::Text(t)) => (r matches Some(si) && Seq::new(
                si.parts@.len(),
                |i: int| si.parts@[i]@,
            ) == seq![PartV::Text { text: t@ }]),
            Some(SystemPrompt::Blocks(blocks)) => (r matches Some(si) && Seq::new(
                si.parts@.len(),
                |i: int| si.parts@[i]@,
            ) == spec_system_blocks(blocks@, blocks@.len() as int)),
        },
{
    match system {
        None => None,
        Some(SystemPrompt::Text(t)) => {
            let mut parts: Vec<GeminiPart> = Vec::new();
            parts.push(GeminiPart::Text { text: t.clone() });
            let si = GeminiSystemInstruction { parts };
            proof {
                assert(Seq::new(si.parts@.len(), |i: int| si.parts@[i]@) =~= seq![
                    PartV::Text { text: t@ },
                ]);
            }
            Some(si)
        },
        Some(SystemPrompt::Blocks(blocks)) => {
            let mut parts: Vec<GeminiPart> = Vec::new();
            let mut i: usize = 0;
            while i < blocks.len()
                invariant
                    0 <= i <= blocks@.len(),
                    Seq::new(parts@.len(), |k: int| parts@[k]@) == spec_system_blocks(
                        blocks@,
                        i as int,
                    ),
                decreases blocks@.len() - i,
            {
                match &blocks[i] {
                    ContentBlock::Text { text } => {
                        parts.push(GeminiPart::Text { text: text.clone() });
                    },
                    _ => {},
                }
                i = i + 1;
                proof {
                    assert(Seq::new(parts@.len(), |k: int| parts@[k]@) =~= spec_system_blocks(
                        blocks@,
                        i as int,
                    ));
                }
            }
            let si = GeminiSystemInstruction { parts };
            proof {
                assert(Seq::new(si.parts@.len(), |k: int| si.parts@[k]@) =~= spec_system_blocks(
                    blocks@,
                    blocks@.len() as int,
                ));
            }
            Some(si)
        },
    }
}

/// Translates one message's content into upstream parts; returns the parts
/// and whether a non-`TodoWrite` function response was among them.
pub fn extract_parts(
    content: &ContentType,
    state: Option<&ConversationState>,
    metrics: &mut ToolMetrics,
) -> (r: Result<(Vec<GeminiPart>, bool), ProxyError>)
    ensures
        (r matches Ok((parts, flag)) && {
            let (gp, gf) = spec_content_parts(*content, spec_store(state));
            Seq::new(parts@.len(), |i: int| parts@[i]@) == gp && flag == gf
        }),
        *final(metrics) == spec_content_metrics(*content, spec_store(state), *old(metrics)),
{
    match content {
        ContentType::Text(text) => {
            let mut parts: Vec<GeminiPart> = Vec::new();
            parts.push(GeminiPart::Text { text: text.clone() });
            proof {
                assert(Seq::new(parts@.len(), |i: int| parts@[i]@) =~= seq![
                    PartV::Text { text: text@ },
                ]);
            }
            Ok((parts, false))
        },
        ContentType::Blocks(blocks) => {
            let mut parts: Vec<GeminiPart> = Vec::new();
            let mut flag = false;
            let mut i: usize = 0;
            while i < blocks.len()
                invariant
                    0 <= i <= blocks@.len(),
                    ({
                        let (gp, gf) = spec_blocks_parts(blocks@, spec_store(state), i as int);
                        Seq::new(parts@.len(), |k: int| parts@[k]@) == gp && flag == gf
                    }),
                    *metrics == spec_blocks_metrics(blocks@, spec_store(state), i as int,
                        *old(metrics)),
                decreases blocks@.len() - i,
            {
                match &blocks[i] {
                    ContentBlock::Text { text } => {
                        parts.push(GeminiPart::Text { text: text.clone() });
                    },
                    ContentBlock::ToolUse { .. } => {},
                    ContentBlock::ToolResult { tool_use_id, content: rc, is_error } => {
                        let name = match state {
                            Some(s) => match s.get_function_name(tool_use_id.as_str()) {
                                Some(n) => n,
                                None => {
                                    metrics.record_state_lookup_failure();
                                    tool_use_id.clone()
                                },
                            },
                            None => {
                                metrics.record_state_lookup_failure();
                                tool_use_id.clone()
                            },
                        };
                        if !str_eq(name.as_str(), "TodoWrite") {
                            flag = true;
                        }
                        let block = ContentBlock::ToolResult {
                            tool_use_id: tool_use_id.clone(),
                            content: rc.clone(),
                            is_error: match is_error {
                                Some(b) => Some(*b),
                                None => None,
                            },
                        };
                        match crate::tools::transform_tool_result(&block, name, metrics) {
                            Ok(p) => {
                                parts.push(p);
                            },
                            Err(e) => {
                                return Err(e);
                            },
                        }
                    },
                }
                i = i + 1;
                proof {
                    let (gp, gf) = spec_blocks_parts(blocks@, spec_store(state), i as int);
                    assert(Seq::new(parts@.len(), |k: int| parts@[k]@) =~= gp);
                }
            }
            proof {
                let (gp, gf) = spec_blocks_parts(blocks@, spec_store(state),
                    blocks@.len() as int);
                assert(Seq::new(parts@.len(), |k: int| parts@[k]@) =~= gp);
            }
            Ok((parts, flag))
        },
    }
}

/// Transforms a client request into the upstream request: prunes stale
/// intermediate user messages, maps roles, rewrites tool results through
/// the correlation store, converts the system prompt, copies the generation
/// parameters, converts the tools through the cache, and — when asked and a
/// foreign tool result was seen — appends the todo reminder to the last
/// user message.
pub fn transform_request_with_state(
    claude_req: &ClaudeRequest,
    state: Option<&ConversationState>,
    auto_todo_prompt: bool,
    cache: &mut ToolSchemaCache,
    metrics: &mut ToolMetrics,
) -> (r: Result<GeminiRequest, ProxyError>)
    requires
        old(cache).wf(),
    ensures
        final(cache).wf(),
        r is Ok ==> ({
            let folded = spec_msgs_metrics(
                claude_req.messages@,
                spec_store(state),
                claude_req.messages@.len() as int,
                *old(metrics),
            );
            match claude_req.tools {
                Some(_) => exists|micros: u64|
                    *final(metrics) == #[trigger] spec_record_transformation(folded, micros),
                None => *final(metrics) == folded,
            }
        }),
        r is Ok <==> spec_build_contents(
            claude_req.messages@,
            spec_store(state),
            claude_req.messages@.len() as int,
        ) is Some,
        r matches Err(e) ==> e is TransformationError,
        (r matches Ok(g) ==> {
            let (cs, flag) = spec_build_contents(
                claude_req.messages@,
                spec_store(state),
                claude_req.messages@.len() as int,
            )->Some_0;
            let want = if auto_todo_prompt && flag {
                spec_inject_todo(cs)
            } else {
                cs
            };
            &&& Seq::new(g.contents@.len(), |i: int| g.contents@[i]@) == want
            &&& match claude_req.system {
                None => g.system_instruction is None,
                Some(SystemPrompt::Text(t)) => (g.system_instruction matches Some(si)
                    && Seq::new(si.parts@.len(), |i: int| si.parts@[i]@) == seq![
                    PartV::Text { text: t@ },
                ]),
                Some(SystemPrompt::Blocks(blocks)) => (g.system_instruction matches Some(si)
                    && Seq::new(si.parts@.len(), |i: int| si.parts@[i]@) == spec_system_blocks(
                    blocks@,
                    blocks@.len() as int,
                )),
            }
            &&& (g.generation_config matches Some(gc) && gc.max_output_tokens
                == claude_req.max_tokens && gc.temperature == claude_req.temperature && gc.top_p
                == claude_req.top_p && gc.top_k == claude_req.top_k && (match (
                gc.stop_sequences,
                claude_req.stop_sequences,
            ) {
                (Some(a), Some(b)) => a@.len() == b@.len() && (forall|i: int|
                    0 <= i < a@.len() ==> #[trigger] a@[i]@ == b@[i]@),
                (None, None) => true,
                _ => false,
            }))
            &&& g.safety_settings is None
            &&& match claude_req.tools {
                None => g.tools is None,
                Some(ts) => (g.tools matches Some(gt) && gt@.len() == 1
                    && gt@[0].function_declarations@.len() == ts@.len() && (forall|i: int|
                    0 <= i < ts@.len()
                        ==> (#[trigger] gt@[0].function_declarations@[i]).name@
                        == ts@[i].name@)),
            }
        }),
{
    let msgs = &claude_req.messages;
    let n = msgs.len();

    // Locate the first and last user messages.
    let mut first_user: Option<usize> = None;
    let mut i: usize = 0;
    while i < n
        invariant
            n == msgs@.len(),
            0 <= i <= n,
            *cache == *old(cache),
            old(cache).wf(),
            *metrics == *old(metrics),
            match first_user {
                Some(k) => spec_first_user(msgs@, 0) == Some(k as int),
                None => spec_first_user(msgs@, 0) == spec_first_user(msgs@, i as int),
            },
        decreases n - i,
    {
        if first_user.is_none() && str_eq(msgs[i].role.as_str(), "user") {
            first_user = Some(i);
        }
        i = i + 1;
    }
    let mut last_user: Option<usize> = None;
    let mut i: usize = n;
    while i > 0
        invariant
            n == msgs@.len(),
            0 <= i <= n,
            *cache == *old(cache),
            old(cache).wf(),
            *metrics == *old(metrics),
            match last_user {
                Some(k) => spec_last_user(msgs@, n as int - 1) == Some(k as int),
                None => spec_last_user(msgs@, n as int - 1) == spec_last_user(
                    msgs@,
                    i as int - 1,
                ),
            },
        decreases i,
    {
        i = i - 1;
        if last_user.is_none() && str_eq(msgs[i].role.as_str(), "user") {
            last_user = Some(i);
        }
    }

    let ghost st = spec_store(state);
    let mut contents: Vec<GeminiContent> = Vec::new();
    let mut flag = false;
    let mut i: usize = 0;
    while i < n
        invariant
            n == msgs@.len(),
            msgs@ == claude_req.messages@,
            0 <= i <= n,
            *cache == *old(cache),
            old(cache).wf(),
            *metrics == spec_msgs_metrics(msgs@, st, i as int, *old(metrics)),
            match first_user {
                Some(k) => spec_first_user(msgs@, 0) == Some(k as int),
                None => spec_first_user(msgs@, 0) is None,
            },
            match last_user {
                Some(k) => spec_last_user(msgs@, n as int - 1) == Some(k as int),
                None => spec_last_user(msgs@, n as int - 1) is None,
            },
            st == spec_store(state),
            ({
                let g = spec_build_contents(msgs@, st, i as int);
                g matches Some((cs, f)) && Seq::new(contents@.len(), |k: int| contents@[k]@)
                    == cs && flag == f
            }),
        decreases n - i,
    {
        let msg = &msgs[i];
        let is_user = str_eq(msg.role.as_str(), "user");
        let skipped = is_user && n > 3 && !(match first_user {
            Some(k) => k == i,
            None => false,
        }) && !(match last_user {
            Some(k) => k == i,
            None => false,
        });
        if !skipped {
            let is_assistant = str_eq(msg.role.as_str(), "assistant");
            if !is_user && !is_assistant {
                proof {
                    assert(spec_msg_kept(msgs@, i as int));
                    assert(spec_build_contents(msgs@, st, i as int + 1) is None);
                    lemma_build_contents_fail(msgs@, st, i as int + 1, n as int);
                    assert(spec_build_contents(
                        claude_req.messages@,
                        spec_store(state),
                        claude_req.messages@.len() as int,
                    ) is None);
                }
                return Err(ProxyError::TransformationError(String::from_str(
                    "Invalid role in message",
                )));
            }
            let role = if is_user {
                String::from_str("user")
            } else {
                String::from_str("model")
            };
            let (parts, msg_flag) = match extract_parts(&msg.content, state, metrics) {
                Ok(p) => p,
                Err(e) => {
                    return Err(e);
                },
            };
            if msg_flag {
                flag = true;
            }
            if parts.len() > 0 {
                contents.push(GeminiContent { role: Some(role), parts });
            }
        }
        i = i + 1;
        proof {
            let g = spec_build_contents(msgs@, st, i as int);
            assert(g matches Some((cs, f)) && Seq::new(
                contents@.len(),
                |k: int| contents@[k]@,
            ) =~= cs && flag == f);
        }
    }

    // Append the todo reminder where asked and called for.
    if auto_todo_prompt && flag {
        let ghost cs0 = Seq::new(contents@.len(), |k: int| contents@[k]@);
        let mut j: usize = contents.len();
        let mut target: Option<usize> = None;
        while j > 0
            invariant
                0 <= j <= contents@.len(),
                *cache == *old(cache),
                old(cache).wf(),
                *metrics == spec_msgs_metrics(msgs@, st, n as int, *old(metrics)),
                cs0 == Seq::new(contents@.len(), |k: int| contents@[k]@),
                match target {
                    Some(k) => k < contents@.len() && spec_last_user_content(cs0, cs0.len() - 1)
                        == Some(k as int),
                    None => spec_last_user_content(cs0, cs0.len() - 1)
                        == spec_last_user_content(cs0, j as int - 1),
                },
            decreases j,
        {
            j = j - 1;
            if target.is_none() {
                let is_user_role = match &contents[j].role {
                    Some(rs) => str_eq(rs.as_str(), "user"),
                    None => false,
                };
                if is_user_role {
                    target = Some(j);
                }
            }
        }
        if let Some(k) = target {
            let ghost pre = contents@;
            let reminder = String::from_str(
                "\n\n<system-reminder>\nYou MUST now call the TodoWrite tool to update your task list based on the tool execution results above. Mark the current task as completed if the tool finished it, or keep it as in_progress if more work is needed. Call TodoWrite now with the updated task list before continuing.\n</system-reminder>",
            );
            let c = &mut contents[k];
            c.parts.push(GeminiPart::Text { text: reminder });
            proof {
                let cur = Seq::new(contents@.len(), |m: int| contents@[m]@);
                let want = spec_inject_todo(cs0);
                assert(cur.len() == want.len());
                assert forall|m: int| 0 <= m < cur.len() implies cur[m] == want[m] by {
                    assert(cs0[m] == pre[m]@);
                    if m == k as int {
                        assert(contents@[m].role == pre[m].role);
                        assert(contents@[m].parts@ =~= pre[m].parts@.push(
                            GeminiPart::Text { text: reminder },
                        ));
                        assert(cur[m].parts =~= want[m].parts);
                        assert(cur[m] =~~= want[m]);
                    } else {
                        assert(contents@[m] == pre[m]);
                    }
                }
                assert(cur =~= want);
            }
        }
    }

    // System prompt.
    let system_instruction = convert_system_prompt(match &claude_req.system {
        Some(s) => Some(s),
        None => None,
    });

    // Generation parameters, copied one for one.
    let stop_sequences = match &claude_req.stop_sequences {
        Some(ss) => {
            let mut out: Vec<String> = Vec::new();
            let mut k: usize = 0;
            while k < ss.len()
                invariant
                    0 <= k <= ss@.len(),
                    *cache == *old(cache),
                    old(cache).wf(),
                    *metrics == spec_msgs_metrics(msgs@, st, n as int, *old(metrics)),
                    out@.len() == k,
                    forall|m: int| 0 <= m < k ==> #[trigger] out@[m]@ == ss@[m]@,
                decreases ss@.len() - k,
            {
                out.push(ss[k].clone());
                k = k + 1;
            }
            Some(out)
        },
        None => None,
    };
    let generation_config = Some(GenerationConfig {
        max_output_tokens: claude_req.max_tokens,
        temperature: claude_req.temperature,
        top_p: claude_req.top_p,
        top_k: claude_req.top_k,
        stop_sequences,
    });

    // Tools, through the schema cache.
    let tools: Option<Vec<GeminiTool>> = match &claude_req.tools {
        Some(ts) => match transform_tools(ts, cache, metrics) {
            Ok(gt) => Some(gt),
            Err(e) => {
                return Err(e);
            },
        },
        None => None,
    };

    Ok(GeminiRequest {
        contents,
        system_instruction,
        generation_config,
        safety_settings: None,
        tools,
    })
}

/// Transforms with no correlation store, no todo prompt, and a fresh
/// schema cache.
pub fn transform_request(claude_req: &ClaudeRequest) -> (r: Result<GeminiRequest, ProxyError>)
    ensures
        r is Ok <==> spec_build_contents(
            claude_req.messages@,
            None,
            claude_req.messages@.len() as int,
        ) is Some,
        (r matches Ok(g) ==> Seq::new(g.contents@.len(), |i: int| g.contents@[i]@)
            == spec_build_contents(
            claude_req.messages@,
            None,
            claude_req.messages@.len() as int,
        )->Some_0.0),
{
    let mut cache = ToolSchemaCache::new();
    let mut metrics = ToolMetrics::new();
    transform_request_with_state(claude_req, None, false, &mut cache, &mut metrics)
}

/// Validator soundness, within the dialect's roles: a request the
/// validator accepts transforms successfully provided every message's role
/// is `user` or `assistant`. (The validator itself admits other roles
/// beyond the first message, and the transformer then rejects them.)
pub proof fn lemma_validator_soundness(
    msgs: Seq<ClaudeMessage>,
    st: Option<ConversationState>,
    i: int,
)
    requires
        0 <= i <= msgs.len(),
        forall|k: int|
            0 <= k < msgs.len() ==> (#[trigger] msgs[k]).role@ == ("user")@ || msgs[k].role@
                == ("assistant")@,
    ensures
        spec_build_contents(msgs, st, i) is Some,
    decreases i,
{
    if i > 0 {
        lemma_validator_soundness(msgs, st, i - 1);
    }
}

} // verus!
