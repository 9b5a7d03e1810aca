//! The SSE event generator: a per-connection state machine that lifts
//! parsed upstream chunks into the client dialect's event stream.
//!
//! The machine is specified by [`spec_gen`], which — given the fresh
//! identifiers drawn for the message and for each tool call — determines
//! the abstract events ([`EventV`]), the state after the chunk, and the
//! correlation-store registrations; once the stop sequence has gone out
//! the machine is done and emits nothing more. [`render`] gives each
//! abstract event its wire form `event: <name>\ndata: <json>\n\n`.

use crate::chunk::{ChunkV, PartV};
use crate::gemini::{GeminiPart, GeminiStreamChunk};
use crate::json::{spec_ser, wf_str_chars, JsonV, JsonValue};
use crate::state::ConversationState;
use crate::text::{dec_digits, escape_chars, raw_blank};
use crate::tools::{spec_chunk_has_call, spec_part_is_call};
use vstd::prelude::*;

verus! {

broadcast use vstd::seq::group_seq_axioms, vstd::std_specs::vec::group_vec_axioms;

/// The generator's abstract state.
#[verifier::ext_equal]
pub struct GenCore {
    pub header_sent: bool,
    pub done: bool,
    pub input_tokens: u32,
    pub output_tokens: u32,
    pub model: Seq<char>,
    pub idx: u32,
}

/// One abstract SSE event.
#[verifier::ext_equal]
pub enum EventV {
    MsgStart { model: Seq<char>, input_tokens: u32, msg_id: Seq<char> },
    CbStartText,
    CbDelta { text: Seq<char> },
    CbStartTool { index: u32, id: Seq<char>, name: Seq<char> },
    CbInputDelta { index: u32, json: Seq<char> },
    CbStop { index: u32 },
    MsgDelta { reason: Seq<char>, output_tokens: u32 },
    MsgStop,
}

/// One correlation-store registration the generator makes.
#[verifier::ext_equal]
pub struct RegV {
    pub id: Seq<char>,
    pub name: Seq<char>,
    pub sig: Option<Seq<char>>,
    pub args: JsonV,
}

/// The SSE wire framing of one event.
pub open spec fn sse_frame(name: Seq<char>, data: Seq<char>) -> Seq<char> {
    ("event: ")@ + name + ("\ndata: ")@ + data + ("\n\n")@
}

/// The JSON body of a `message_start` event.
#[verifier::opaque]
pub open spec fn spec_msg_start_body(
    model: Seq<char>,
    input_tokens: u32,
    msg_id: Seq<char>,
) -> JsonV {
    JsonV::Obj(
        seq![
            (("type")@, JsonV::Str(("message_start")@)),
            (
                ("message")@,
                JsonV::Obj(
                    seq![
                        (("id")@, JsonV::Str(escape_chars(msg_id))),
                        (("type")@, JsonV::Str(("message")@)),
                        (("role")@, JsonV::Str(("assistant")@)),
                        (("model")@, JsonV::Str(escape_chars(model))),
                        (("content")@, JsonV::Arr(Seq::empty())),
                        (("stop_reason")@, JsonV::Null),
                        (("stop_sequence")@, JsonV::Null),
                        (
                            ("usage")@,
                            JsonV::Obj(
                                seq![
                                    (
                                        ("input_tokens")@,
                                        JsonV::Num(dec_digits(input_tokens as nat)),
                                    ),
                                    (("output_tokens")@, JsonV::Num(("1")@)),
                                ],
                            ),
                        ),
                    ],
                ),
            ),
        ],
    )
}

/// The JSON body of a `content_block_start` event for the text block.
#[verifier::opaque]
#[verifier::opaque]
pub open spec fn spec_cb_start_text_body() -> JsonV {
    JsonV::Obj(
        seq![
            (("type")@, JsonV::Str(("content_block_start")@)),
            (("index")@, JsonV::Num(("0")@)),
            (
                ("content_block")@,
                JsonV::Obj(
                    seq![
                        (("type")@, JsonV::Str(("text")@)),
                        (("text")@, JsonV::Str(Seq::empty())),
                    ],
                ),
            ),
        ],
    )
}

/// The JSON body of a text `content_block_delta` event.
#[verifier::opaque]
pub open spec fn spec_cb_delta_body(text: Seq<char>) -> JsonV {
    JsonV::Obj(
        seq![
            (("type")@, JsonV::Str(("content_block_delta")@)),
            (("index")@, JsonV::Num(("0")@)),
            (
                ("delta")@,
                JsonV::Obj(
                    seq![
                        (("type")@, JsonV::Str(("text_delta")@)),
                        (("text")@, JsonV::Str(text)),
                    ],
                ),
            ),
        ],
    )
}

/// The JSON body of a tool-use `content_block_start` event. The name is a
/// raw fragment and passes through as it stands; a name that could not
/// stand in a JSON string is escaped, as a text delta's content is.
#[verifier::opaque]
pub open spec fn spec_cb_start_tool_body(index: u32, id: Seq<char>, name: Seq<char>) -> JsonV {
    JsonV::Obj(
        seq![
            (("type")@, JsonV::Str(("content_block_start")@)),
            (("index")@, JsonV::Num(dec_digits(index as nat))),
            (
                ("content_block")@,
                JsonV::Obj(
                    seq![
                        (("type")@, JsonV::Str(("tool_use")@)),
                        (("id")@, JsonV::Str(escape_chars(id))),
                        (("name")@, JsonV::Str(delta_text(name))),
                        (("input")@, JsonV::Obj(Seq::empty())),
                    ],
                ),
            ),
        ],
    )
}

/// The JSON body of an `input_json_delta` event; `json` is the serialized
/// input, carried as a string.
#[verifier::opaque]
pub open spec fn spec_cb_input_delta_body(index: u32, json: Seq<char>) -> JsonV {
    JsonV::Obj(
        seq![
            (("type")@, JsonV::Str(("content_block_delta")@)),
            (("index")@, JsonV::Num(dec_digits(index as nat))),
            (
                ("delta")@,
                JsonV::Obj(
                    seq![
                        (("type")@, JsonV::Str(("input_json_delta")@)),
                        (("partial_json")@, JsonV::Str(escape_chars(json))),
                    ],
                ),
            ),
        ],
    )
}

/// The JSON body of a `content_block_stop` event.
#[verifier::opaque]
pub open spec fn spec_cb_stop_body(index: u32) -> JsonV {
    JsonV::Obj(
        seq![
            (("type")@, JsonV::Str(("content_block_stop")@)),
            (("index")@, JsonV::Num(dec_digits(index as nat))),
        ],
    )
}

/// The JSON body of a `message_delta` event.
#[verifier::opaque]
pub open spec fn spec_msg_delta_body(reason: Seq<char>, output_tokens: u32) -> JsonV {
    JsonV::Obj(
        seq![
            (("type")@, JsonV::Str(("message_delta")@)),
            (
                ("delta")@,
                JsonV::Obj(
                    seq![
                        (("stop_reason")@, JsonV::Str(reason)),
                        (("stop_sequence")@, JsonV::Null),
                    ],
                ),
            ),
            (
                ("usage")@,
                JsonV::Obj(
                    seq![(("output_tokens")@, JsonV::Num(dec_digits(output_tokens as nat)))],
                ),
            ),
        ],
    )
}

/// The JSON body of a `message_stop` event.
#[verifier::opaque]
#[verifier::opaque]
pub open spec fn spec_msg_stop_body() -> JsonV {
    JsonV::Obj(seq![(("type")@, JsonV::Str(("message_stop")@))])
}

/// The event name an abstract event goes on the wire under.
pub open spec fn event_name(e: EventV) -> Seq<char> {
    match e {
        EventV::MsgStart { .. } => ("message_start")@,
        EventV::CbStartText => ("content_block_start")@,
        EventV::CbDelta { .. } => ("content_block_delta")@,
        EventV::CbStartTool { .. } => ("content_block_start")@,
        EventV::CbInputDelta { .. } => ("content_block_delta")@,
        EventV::CbStop { .. } => ("content_block_stop")@,
        EventV::MsgDelta { .. } => ("message_delta")@,
        EventV::MsgStop => ("message_stop")@,
    }
}

/// The JSON body of an abstract event.
pub open spec fn event_body(e: EventV) -> JsonV {
    match e {
        EventV::MsgStart { model, input_tokens, msg_id } => spec_msg_start_body(
            model,
            input_tokens,
            msg_id,
        ),
        EventV::CbStartText => spec_cb_start_text_body(),
        EventV::CbDelta { text } => spec_cb_delta_body(text),
        EventV::CbStartTool { index, id, name } => spec_cb_start_tool_body(index, id, name),
        EventV::CbInputDelta { index, json } => spec_cb_input_delta_body(index, json),
        EventV::CbStop { index } => spec_cb_stop_body(index),
        EventV::MsgDelta { reason, output_tokens } => spec_msg_delta_body(
            reason,
            output_tokens,
        ),
        EventV::MsgStop => spec_msg_stop_body(),
    }
}

/// The wire form of an abstract event.
#[verifier::opaque]
pub open spec fn render(e: EventV) -> Seq<char> {
    sse_frame(event_name(e), spec_ser(event_body(e)))
}

/// The wire forms of the first `i` events, in order.
pub open spec fn render_all(evs: Seq<EventV>, i: int) -> Seq<Seq<char>>
    decreases i,
{
    if i <= 0 || evs.len() < i {
        Seq::empty()
    } else {
        render_all(evs, i - 1).push(render(evs[i - 1]))
    }
}

/// The input-token count after a chunk's usage report.
pub open spec fn upd_input(pre: u32, chunk: ChunkV) -> u32 {
    match chunk.usage {
        Some(u) => match u.prompt {
            Some(p) => p,
            None => pre,
        },
        None => pre,
    }
}

/// The output-token count after a chunk's usage report, before estimates.
pub open spec fn upd_output(pre: u32, chunk: ChunkV) -> u32 {
    match chunk.usage {
        Some(u) => match u.cand {
            Some(c) => c,
            None => pre,
        },
        None => pre,
    }
}

/// Whether the chunk reports no output-token count, so that text deltas are
/// estimated instead.
pub open spec fn needs_estimate(chunk: ChunkV) -> bool {
    !(chunk.usage matches Some(u) && u.cand is Some)
}

/// `a + b` within the counter's range.
pub open spec fn sat_add32(a: u32, b: u32) -> u32 {
    if a + b <= u32::MAX {
        (a + b) as u32
    } else {
        u32::MAX
    }
}

/// The token estimate for one text delta: a quarter of its length, at
/// least one.
pub open spec fn delta_estimate(t: Seq<char>) -> u32 {
    if t.len() / 4 == 0 {
        1u32
    } else if t.len() / 4 > u32::MAX {
        u32::MAX
    } else {
        (t.len() / 4) as u32
    }
}

/// The text a part carries, if it is a text part.
pub open spec fn part_text(p: PartV) -> Option<Seq<char>> {
    match p {
        PartV::Text { text } => Some(text),
        PartV::TextThought { text, .. } => Some(text),
        _ => None,
    }
}

/// The wire text a delta carries: raw content passes through as it stands;
/// content that could not stand in a JSON string is escaped.
pub open spec fn delta_text(t: Seq<char>) -> Seq<char> {
    if wf_str_chars(t) {
        t
    } else {
        escape_chars(t)
    }
}

/// Whether a chunk's first candidate carries meaningful content: a
/// non-blank text part or any function call.
pub open spec fn spec_meaningful(chunk: ChunkV) -> bool {
    chunk.candidates.len() > 0 && (chunk.candidates[0].content matches Some(ct) && exists|j: int|
        0 <= j < ct.parts.len() && spec_part_meaningful(#[trigger] ct.parts[j]))
}

pub open spec fn spec_part_meaningful(p: PartV) -> bool {
    ||| (part_text(p) matches Some(t) && !raw_blank(t))
    ||| spec_part_is_call(p)
}

/// The client stop reason for an upstream finish reason.
pub open spec fn spec_map_finish(reason: Seq<char>) -> Seq<char> {
    if reason == ("STOP")@ {
        ("end_turn")@
    } else if reason == ("MAX_TOKENS")@ {
        ("max_tokens")@
    } else if reason == ("SAFETY")@ {
        ("stop_sequence")@
    } else if reason == ("RECITATION")@ {
        ("stop_sequence")@
    } else if reason == ("OTHER")@ {
        ("end_turn")@
    } else {
        ("end_turn")@
    }
}

/// How many of the first `i` parts are function calls.
pub open spec fn spec_call_count(parts: Seq<PartV>, i: int) -> int
    decreases i,
{
    if i <= 0 || parts.len() < i {
        0
    } else {
        spec_call_count(parts, i - 1) + if spec_part_is_call(parts[i - 1]) {
            1int
        } else {
            0int
        }
    }
}

/// The header pair: the deferred `message_start` and the opening text
/// block.
pub open spec fn header_events(core: GenCore, input_tokens: u32, msg_id: Seq<char>) -> Seq<
    EventV,
> {
    seq![
        EventV::MsgStart { model: core.model, input_tokens, msg_id },
        EventV::CbStartText,
    ]
}

/// One part's events, state change and registration.
pub open spec fn spec_part_step(
    core: GenCore,
    p: PartV,
    tool_id: Seq<char>,
    est: bool,
) -> (Seq<EventV>, GenCore, Seq<RegV>) {
    match part_text(p) {
        Some(t) => {
            if raw_blank(t) {
                (Seq::empty(), core, Seq::empty())
            } else {
                (
                    seq![EventV::CbDelta { text: delta_text(t) }],
                    if est {
                        GenCore {
                            output_tokens: sat_add32(core.output_tokens, delta_estimate(t)),
                            ..core
                        }
                    } else {
                        core
                    },
                    Seq::empty(),
                )
            }
        },
        None => {
            if spec_part_is_call(p) {
                let call = crate::chunk::part_call_v(p);
                let sig = match p {
                    PartV::CallThought { sig, .. } => Some(sig),
                    _ => None,
                };
                let k = core.idx;
                let core2 = GenCore {
                    idx: if core.idx < u32::MAX {
                        (core.idx + 1) as u32
                    } else {
                        core.idx
                    },
                    ..core
                };
                (
                    seq![
                        EventV::CbStartTool { index: k, id: tool_id, name: call.name },
                        EventV::CbInputDelta { index: k, json: spec_ser(call.args) },
                        EventV::CbStop { index: k },
                    ],
                    core2,
                    seq![RegV { id: tool_id, name: call.name, sig, args: call.args }],
                )
            } else {
                (Seq::empty(), core, Seq::empty())
            }
        },
    }
}

/// The fold of [`spec_part_step`] over the first `i` parts, drawing tool
/// ids in order.
#[verifier::opaque]
pub open spec fn spec_parts(
    core: GenCore,
    parts: Seq<PartV>,
    tool_ids: Seq<Seq<char>>,
    est: bool,
    i: int,
) -> (Seq<EventV>, GenCore, Seq<RegV>)
    decreases i,
{
    if i <= 0 || parts.len() < i {
        (Seq::empty(), core, Seq::empty())
    } else {
        let (evs, c1, regs) = spec_parts(core, parts, tool_ids, est, i - 1);
        let cc = spec_call_count(parts, i - 1);
        let tid = if 0 <= cc < tool_ids.len() {
            tool_ids[cc]
        } else {
            Seq::empty()
        };
        let (evs2, c2, regs2) = spec_part_step(c1, parts[i - 1], tid, est);
        (evs + evs2, c2, regs + regs2)
    }
}

/// The whole step: what one chunk makes the generator emit, how the state
/// moves, and what is registered — given the message id and tool ids drawn.
/// A machine that has run its stop sequence is done and emits nothing ever
/// after.
#[verifier::opaque]
pub open spec fn spec_gen(
    pre: GenCore,
    chunk: ChunkV,
    msg_id: Seq<char>,
    tool_ids: Seq<Seq<char>>,
) -> (Seq<EventV>, GenCore, Seq<RegV>) {
    if pre.done {
        (Seq::empty(), pre, Seq::empty())
    } else {
        spec_gen_live(pre, chunk, msg_id, tool_ids)
    }
}

/// The step of a machine that is not yet done.
pub open spec fn spec_gen_live(
    pre: GenCore,
    chunk: ChunkV,
    msg_id: Seq<char>,
    tool_ids: Seq<Seq<char>>,
) -> (Seq<EventV>, GenCore, Seq<RegV>) {
    let in2 = upd_input(pre.input_tokens, chunk);
    let out2 = upd_output(pre.output_tokens, chunk);
    let core0 = GenCore { input_tokens: in2, output_tokens: out2, ..pre };
    let (hdr, core1) = if !core0.header_sent && spec_meaningful(chunk) {
        (
            header_events(core0, in2, msg_id),
            GenCore { header_sent: true, idx: 1, ..core0 },
        )
    } else {
        (Seq::empty(), core0)
    };
    if chunk.candidates.len() == 0 {
        (hdr, core1, Seq::empty())
    } else {
        let cand = chunk.candidates[0];
        let (pevs, core2, regs) = match cand.content {
            Some(ct) => spec_parts(core1, ct.parts, tool_ids, needs_estimate(chunk),
                ct.parts.len() as int),
            None => (Seq::empty(), core1, Seq::empty()),
        };
        match cand.finish {
            None => (hdr + pevs, core2, regs),
            Some(reason) => {
                let (hdr2, core3) = if !core2.header_sent {
                    (
                        header_events(core2, in2, msg_id),
                        GenCore { header_sent: true, idx: 1, ..core2 },
                    )
                } else {
                    (Seq::empty(), core2)
                };
                let has_call = spec_chunk_has_call(chunk);
                let stop = if has_call {
                    ("tool_use")@
                } else {
                    spec_map_finish(reason)
                };
                let tail = (if !has_call {
                    seq![EventV::CbStop { index: 0 }]
                } else {
                    Seq::<EventV>::empty()
                }) + seq![
                    EventV::MsgDelta { reason: stop, output_tokens: core3.output_tokens },
                    EventV::MsgStop,
                ];
                (hdr + pevs + hdr2 + tail, GenCore { done: true, ..core3 }, regs)
            },
        }
    }
}

fn jstr(s: &str) -> (r: JsonValue)
    ensures
        r@ == JsonV::Str(s@),
{
    JsonValue::Str(String::from_str(s))
}

fn obj1(k1: &str, v1: JsonValue) -> (r: JsonValue)
    ensures
        r@ == JsonV::Obj(seq![(k1@, v1@)]),
{
    let ghost gv1 = v1@;
    let mut e: Vec<(String, JsonValue)> = Vec::new();
    e.push((String::from_str(k1), v1));
    let r = JsonValue::Obj(e);
    proof {
        crate::json::lemma_obj_views(e@, e@.len() as int);
        assert(r@->Obj_0 =~= seq![(k1@, gv1)]);
    }
    r
}

fn obj2(k1: &str, v1: JsonValue, k2: &str, v2: JsonValue) -> (r: JsonValue)
    ensures
        r@ == JsonV::Obj(seq![(k1@, v1@), (k2@, v2@)]),
{
    let ghost gv1 = v1@;
    let ghost gv2 = v2@;
    let mut e: Vec<(String, JsonValue)> = Vec::new();
    e.push((String::from_str(k1), v1));
    e.push((String::from_str(k2), v2));
    let r = JsonValue::Obj(e);
    proof {
        crate::json::lemma_obj_views(e@, e@.len() as int);
        assert(r@->Obj_0 =~= seq![(k1@, gv1), (k2@, gv2)]);
    }
    r
}

fn obj3(k1: &str, v1: JsonValue, k2: &str, v2: JsonValue, k3: &str, v3: JsonValue) -> (r:
    JsonValue)
    ensures
        r@ == JsonV::Obj(seq![(k1@, v1@), (k2@, v2@), (k3@, v3@)]),
{
    let ghost gv1 = v1@;
    let ghost gv2 = v2@;
    let ghost gv3 = v3@;
    let mut e: Vec<(String, JsonValue)> = Vec::new();
    e.push((String::from_str(k1), v1));
    e.push((String::from_str(k2), v2));
    e.push((String::from_str(k3), v3));
    let r = JsonValue::Obj(e);
    proof {
        crate::json::lemma_obj_views(e@, e@.len() as int);
        assert(r@->Obj_0 =~= seq![(k1@, gv1), (k2@, gv2), (k3@, gv3)]);
    }
    r
}

fn obj4(
    k1: &str,
    v1: JsonValue,
    k2: &str,
    v2: JsonValue,
    k3: &str,
    v3: JsonValue,
    k4: &str,
    v4: JsonValue,
) -> (r: JsonValue)
    ensures
        r@ == JsonV::Obj(seq![(k1@, v1@), (k2@, v2@), (k3@, v3@), (k4@, v4@)]),
{
    let ghost gv1 = v1@;
    let ghost gv2 = v2@;
    let ghost gv3 = v3@;
    let ghost gv4 = v4@;
    let mut e: Vec<(String, JsonValue)> = Vec::new();
    e.push((String::from_str(k1), v1));
    e.push((String::from_str(k2), v2));
    e.push((String::from_str(k3), v3));
    e.push((String::from_str(k4), v4));
    let r = JsonValue::Obj(e);
    proof {
        crate::json::lemma_obj_views(e@, e@.len() as int);
        assert(r@->Obj_0 =~= seq![(k1@, gv1), (k2@, gv2), (k3@, gv3), (k4@, gv4)]);
    }
    r
}

fn obj8(
    k1: &str,
    v1: JsonValue,
    k2: &str,
    v2: JsonValue,
    k3: &str,
    v3: JsonValue,
    k4: &str,
    v4: JsonValue,
    k5: &str,
    v5: JsonValue,
    k6: &str,
    v6: JsonValue,
    k7: &str,
    v7: JsonValue,
    k8: &str,
    v8: JsonValue,
) -> (r: JsonValue)
    ensures
        r@ == JsonV::Obj(
            seq![
                (k1@, v1@),
                (k2@, v2@),
                (k3@, v3@),
                (k4@, v4@),
                (k5@, v5@),
                (k6@, v6@),
                (k7@, v7@),
                (k8@, v8@),
            ],
        ),
{
    let ghost gv1 = v1@;
    let ghost gv2 = v2@;
    let ghost gv3 = v3@;
    let ghost gv4 = v4@;
    let ghost gv5 = v5@;
    let ghost gv6 = v6@;
    let ghost gv7 = v7@;
    let ghost gv8 = v8@;
    let mut e: Vec<(String, JsonValue)> = Vec::new();
    e.push((String::from_str(k1), v1));
    e.push((String::from_str(k2), v2));
    e.push((String::from_str(k3), v3));
    e.push((String::from_str(k4), v4));
    e.push((String::from_str(k5), v5));
    e.push((String::from_str(k6), v6));
    e.push((String::from_str(k7), v7));
    e.push((String::from_str(k8), v8));
    let r = JsonValue::Obj(e);
    proof {
        crate::json::lemma_obj_views(e@, e@.len() as int);
        assert(r@->Obj_0 =~= seq![
            (k1@, gv1),
            (k2@, gv2),
            (k3@, gv3),
            (k4@, gv4),
            (k5@, gv5),
            (k6@, gv6),
            (k7@, gv7),
            (k8@, gv8),
        ]);
    }
    r
}

/// Frames a serialized body as one SSE event.
fn frame_event(name: &str, body: &JsonValue) -> (r: String)
    ensures
        r@ == sse_frame(name@, spec_ser(body@)),
{
    broadcast use vstd::string::group_string_axioms;

    let data = crate::json::to_json_string(body);
    let mut out = String::from_str("event: ");
    out.append(name);
    out.append("\ndata: ");
    out.append(data.as_str());
    out.append("\n\n");
    proof {
        assert(out@ =~= sse_frame(name@, spec_ser(body@)));
    }
    out
}


/// Relies on `uuid::Uuid::new_v4` and its hyphenated formatting: a fresh
/// random identifier of 36 characters.
#[verifier::external_body]
fn fresh_uuid_hyphenated() -> (r: String)
    ensures
        r@.len() == 36,
{
    uuid::Uuid::new_v4().to_string()
}

/// A fresh message id: `msg_gemini_` followed by a random identifier.
fn fresh_message_id() -> (r: String)
    ensures
        r@.len() == 47,
        r@.take(11) == ("msg_gemini_")@,
{
    broadcast use vstd::string::group_string_axioms;

    let mut id = String::from_str("msg_gemini_");
    proof {
        reveal_strlit("msg_gemini_");
    }
    id.append(fresh_uuid_hyphenated().as_str());
    proof {
        assert(id@.take(11) =~= ("msg_gemini_")@);
    }
    id
}

fn format_message_start(model: &str, input_tokens: u32, msg_id: &str) -> (r: String)
    ensures
        r@ == render(EventV::MsgStart { model: model@, input_tokens, msg_id: msg_id@ }),
{
    let usage = obj2(
        "input_tokens",
        JsonValue::Num(crate::text::u32_to_string(input_tokens)),
        "output_tokens",
        JsonValue::Num(String::from_str("1")),
    );
    let message = obj8(
        "id",
        JsonValue::Str(crate::text::escape_text(msg_id)),
        "type",
        jstr("message"),
        "role",
        jstr("assistant"),
        "model",
        JsonValue::Str(crate::text::escape_text(model)),
        "content",
        JsonValue::Arr(Vec::new()),
        "stop_reason",
        JsonValue::Null,
        "stop_sequence",
        JsonValue::Null,
        "usage",
        usage,
    );
    let body = obj2("type", jstr("message_start"), "message", message);
    proof {
        reveal(render);
        reveal(spec_msg_start_body);
        assert(body@ =~~= spec_msg_start_body(model@, input_tokens, msg_id@));
    }
    frame_event("message_start", &body)
}

fn format_cb_start_text() -> (r: String)
    ensures
        r@ == render(EventV::CbStartText),
{
    let block = obj2("type", jstr("text"), "text", jstr(""));
    let body = obj3(
        "type",
        jstr("content_block_start"),
        "index",
        JsonValue::Num(String::from_str("0")),
        "content_block",
        block,
    );
    proof {
        reveal(render);
        reveal(spec_cb_start_text_body);
        reveal_strlit("");
        assert(("")@ =~= Seq::<char>::empty());
        assert(body@ =~~= spec_cb_start_text_body());
    }
    frame_event("content_block_start", &body)
}

fn format_cb_delta(text: String) -> (r: String)
    ensures
        r@ == render(EventV::CbDelta { text: text@ }),
{
    let ghost gt = text@;
    let delta = obj2("type", jstr("text_delta"), "text", JsonValue::Str(text));
    let body = obj3(
        "type",
        jstr("content_block_delta"),
        "index",
        JsonValue::Num(String::from_str("0")),
        "delta",
        delta,
    );
    proof {
        reveal(render);
        reveal(spec_cb_delta_body);
        assert(body@ =~~= spec_cb_delta_body(gt));
    }
    frame_event("content_block_delta", &body)
}

fn format_cb_start_tool(index: u32, id: &str, name: &str) -> (r: String)
    ensures
        r@ == render(EventV::CbStartTool { index, id: id@, name: name@ }),
{
    let ghost gn = name@;
    let safe_name = if crate::text::is_wf_str(name) {
        String::from_str(name)
    } else {
        crate::text::escape_text(name)
    };
    let block = obj4(
        "type",
        jstr("tool_use"),
        "id",
        JsonValue::Str(crate::text::escape_text(id)),
        "name",
        JsonValue::Str(safe_name),
        "input",
        JsonValue::Obj(Vec::new()),
    );
    let body = obj3(
        "type",
        jstr("content_block_start"),
        "index",
        JsonValue::Num(crate::text::u32_to_string(index)),
        "content_block",
        block,
    );
    proof {
        reveal(render);
        reveal(spec_cb_start_tool_body);
        assert(body@ =~~= spec_cb_start_tool_body(index, id@, gn));
    }
    frame_event("content_block_start", &body)
}

fn format_cb_input_delta(index: u32, json: &str) -> (r: String)
    ensures
        r@ == render(EventV::CbInputDelta { index, json: json@ }),
{
    let delta = obj2(
        "type",
        jstr("input_json_delta"),
        "partial_json",
        JsonValue::Str(crate::text::escape_text(json)),
    );
    let body = obj3(
        "type",
        jstr("content_block_delta"),
        "index",
        JsonValue::Num(crate::text::u32_to_string(index)),
        "delta",
        delta,
    );
    proof {
        reveal(render);
        reveal(spec_cb_input_delta_body);
        assert(body@ =~~= spec_cb_input_delta_body(index, json@));
    }
    frame_event("content_block_delta", &body)
}

fn format_cb_stop(index: u32) -> (r: String)
    ensures
        r@ == render(EventV::CbStop { index }),
{
    let body = obj2(
        "type",
        jstr("content_block_stop"),
        "index",
        JsonValue::Num(crate::text::u32_to_string(index)),
    );
    proof {
        reveal(render);
        reveal(spec_cb_stop_body);
        assert(body@ =~~= spec_cb_stop_body(index));
    }
    frame_event("content_block_stop", &body)
}

fn format_msg_delta(reason: &str, output_tokens: u32) -> (r: String)
    ensures
        r@ == render(EventV::MsgDelta { reason: reason@, output_tokens }),
{
    let delta = obj2("stop_reason", jstr(reason), "stop_sequence", JsonValue::Null);
    let usage = obj1(
        "output_tokens",
        JsonValue::Num(crate::text::u32_to_string(output_tokens)),
    );
    let body = obj3("type", jstr("message_delta"), "delta", delta, "usage", usage);
    proof {
        reveal(render);
        reveal(spec_msg_delta_body);
        assert(body@ =~~= spec_msg_delta_body(reason@, output_tokens));
    }
    frame_event("message_delta", &body)
}

fn format_msg_stop() -> (r: String)
    ensures
        r@ == render(EventV::MsgStop),
{
    let body = obj1("type", jstr("message_stop"));
    proof {
        reveal(render);
        reveal(spec_msg_stop_body);
        assert(body@ =~~= spec_msg_stop_body());
    }
    frame_event("message_stop", &body)
}


pub proof fn lemma_render_all(evs: Seq<EventV>, i: int)
    requires
        0 <= i <= evs.len(),
    ensures
        render_all(evs, i).len() == i,
        forall|k: int| 0 <= k < i ==> #[trigger] render_all(evs, i)[k] == render(evs[k]),
    decreases i,
{
    if i > 0 {
        lemma_render_all(evs, i - 1);
    }
}

proof fn lemma_render_all_prefix(evs: Seq<EventV>, x: EventV, i: int)
    requires
        0 <= i <= evs.len(),
    ensures
        render_all(evs.push(x), i) == render_all(evs, i),
    decreases i,
{
    if i > 0 {
        lemma_render_all_prefix(evs, x, i - 1);
        assert(evs.push(x)[i - 1] == evs[i - 1]);
    }
}

/// Call counts never exceed the number of parts seen.
pub proof fn lemma_call_count_bounds(parts: Seq<PartV>, i: int)
    requires
        0 <= i <= parts.len(),
    ensures
        0 <= spec_call_count(parts, i) <= i,
        i < parts.len() ==> spec_call_count(parts, i) <= spec_call_count(parts, i + 1),
    decreases i,
{
    if i > 0 {
        lemma_call_count_bounds(parts, i - 1);
    }
}

/// The fold changes only the output-token count and the block index.
pub proof fn lemma_parts_preserves(
    c: GenCore,
    parts: Seq<PartV>,
    ids: Seq<Seq<char>>,
    est: bool,
    i: int,
)
    ensures
        spec_parts(c, parts, ids, est, i).1.input_tokens == c.input_tokens,
        spec_parts(c, parts, ids, est, i).1.model == c.model,
        spec_parts(c, parts, ids, est, i).1.header_sent == c.header_sent,
        spec_parts(c, parts, ids, est, i).1.done == c.done,
    decreases i,
{
    reveal(spec_parts);
    if 0 < i <= parts.len() {
        lemma_parts_preserves(c, parts, ids, est, i - 1);
    }
}

/// The fold reads only the first `spec_call_count` tool ids: appending one
/// more id changes nothing over a prefix that does not use it.
proof fn lemma_parts_ids_extend(
    core: GenCore,
    parts: Seq<PartV>,
    ids: Seq<Seq<char>>,
    x: Seq<char>,
    est: bool,
    i: int,
)
    requires
        0 <= i <= parts.len(),
        spec_call_count(parts, i) <= ids.len(),
    ensures
        spec_parts(core, parts, ids.push(x), est, i) == spec_parts(core, parts, ids, est, i),
    decreases i,
{
    reveal(spec_parts);
    if i > 0 {
        lemma_call_count_bounds(parts, i - 1);
        assert(spec_call_count(parts, i - 1) <= spec_call_count(parts, i));
        lemma_parts_ids_extend(core, parts, ids, x, est, i - 1);
        let cc = spec_call_count(parts, i - 1);
        if spec_part_is_call(parts[i - 1]) {
            assert(cc < ids.len());
            assert(ids.push(x)[cc] == ids[cc]);
        } else if 0 <= cc < ids.len() {
            assert(ids.push(x)[cc] == ids[cc]);
        }
    }
}

fn content_meaningful(content: &crate::gemini::GeminiContent) -> (r: bool)
    ensures
        r == exists|j: int|
            0 <= j < content@.parts.len() && spec_part_meaningful(#[trigger] content@.parts[j]),
{
    let mut j: usize = 0;
    while j < content.parts.len()
        invariant
            0 <= j <= content.parts@.len(),
            content@.parts.len() == content.parts@.len(),
            forall|k: int|
                0 <= k < content.parts@.len() ==> #[trigger] content@.parts[k]
                    == content.parts@[k]@,
            forall|k: int| 0 <= k < j ==> !spec_part_meaningful(#[trigger] content@.parts[k]),
        decreases content.parts@.len() - j,
    {
        let meaningful = match &content.parts[j] {
            GeminiPart::Text { text } => !crate::text::is_raw_blank(text.as_str()),
            GeminiPart::TextWithThought { text, .. } => !crate::text::is_raw_blank(
                text.as_str(),
            ),
            GeminiPart::FunctionCall { .. } => true,
            GeminiPart::FunctionCallWithThought { .. } => true,
            _ => false,
        };
        if meaningful {
            proof {
                assert(content@.parts[j as int] == content.parts@[j as int]@);
                assert(spec_part_meaningful(content@.parts[j as int]));
            }
            return true;
        }
        j = j + 1;
    }
    false
}

fn chunk_meaningful(chunk: &GeminiStreamChunk) -> (r: bool)
    ensures
        r == spec_meaningful(chunk@),
{
    if chunk.candidates.len() == 0 {
        return false;
    }
    proof {
        assert(chunk@.candidates[0] == chunk.candidates@[0]@);
    }
    match &chunk.candidates[0].content {
        Some(content) => content_meaningful(content),
        None => false,
    }
}

/// Converts upstream chunks to the client dialect's SSE events, one chunk
/// at a time.
pub struct SSEEventGenerator {
    header_sent: bool,
    done: bool,
    input_tokens: u32,
    output_tokens: u32,
    model_name: String,
    state: ConversationState,
    content_block_index: u32,
}

impl SSEEventGenerator {
    /// The machine's abstract state.
    pub closed spec fn machine(&self) -> GenCore {
        GenCore {
            header_sent: self.header_sent,
            done: self.done,
            input_tokens: self.input_tokens,
            output_tokens: self.output_tokens,
            model: self.model_name@,
            idx: self.content_block_index,
        }
    }

    /// The correlation store the generator writes to.
    pub closed spec fn spec_store(&self) -> ConversationState {
        self.state
    }

    pub open spec fn wf(&self) -> bool {
        self.spec_store().wf()
    }

    /// A fresh generator with its own empty correlation store.
    pub fn new(model_name: String) -> (r: SSEEventGenerator)
        ensures
            r.machine() == (GenCore {
                header_sent: false,
                done: false,
                input_tokens: 0,
                output_tokens: 0,
                model: model_name@,
                idx: 0,
            }),
            r.wf(),
            r.spec_store().spec_entries() == Seq::<
                (String, crate::state::ToolCallMetadata),
            >::empty(),
    {
        SSEEventGenerator {
            header_sent: false,
            done: false,
            input_tokens: 0,
            output_tokens: 0,
            model_name,
            state: ConversationState::new(),
            content_block_index: 0,
        }
    }

    /// A fresh generator writing to the given correlation store.
    pub fn with_state(model_name: String, state: ConversationState) -> (r: SSEEventGenerator)
        requires
            state.wf(),
        ensures
            r.machine() == (GenCore {
                header_sent: false,
                done: false,
                input_tokens: 0,
                output_tokens: 0,
                model: model_name@,
                idx: 0,
            }),
            r.wf(),
            r.spec_store() == state,
    {
        SSEEventGenerator {
            header_sent: false,
            done: false,
            input_tokens: 0,
            output_tokens: 0,
            model_name,
            state,
            content_block_index: 0,
        }
    }

    /// Whether the opening events have gone out.
    pub fn is_header_sent(&self) -> (r: bool)
        ensures
            r == self.machine().header_sent,
    {
        self.header_sent
    }

    /// Whether the stop sequence has gone out: a done generator emits
    /// nothing more.
    pub fn is_done(&self) -> (r: bool)
        ensures
            r == self.machine().done,
    {
        self.done
    }

    /// The current token counts, input then output.
    pub fn token_counts(&self) -> (r: (u32, u32))
        ensures
            r.0 == self.machine().input_tokens,
            r.1 == self.machine().output_tokens,
    {
        (self.input_tokens, self.output_tokens)
    }

    /// The correlation store, to read back registrations.
    pub fn store(&self) -> (r: &ConversationState)
        ensures
            *r == self.spec_store(),
    {
        &self.state
    }

    /// Takes the correlation store out of the generator.
    pub fn into_store(self) -> (r: ConversationState)
        ensures
            r == self.spec_store(),
    {
        self.state
    }

    /// The client stop reason for an upstream finish reason.
    pub fn map_finish_reason(&self, gemini_reason: &str) -> (r: &'static str)
        ensures
            r@ == spec_map_finish(gemini_reason@),
    {
        if crate::text::str_eq(gemini_reason, "STOP") {
            "end_turn"
        } else if crate::text::str_eq(gemini_reason, "MAX_TOKENS") {
            "max_tokens"
        } else if crate::text::str_eq(gemini_reason, "SAFETY") {
            "stop_sequence"
        } else if crate::text::str_eq(gemini_reason, "RECITATION") {
            "stop_sequence"
        } else if crate::text::str_eq(gemini_reason, "OTHER") {
            "end_turn"
        } else {
            "end_turn"
        }
    }

    /// An `error` SSE event carrying the kind and message.
    pub fn format_error(error_type: &str, message: &str) -> (r: String)
        ensures
            r@ == sse_frame(("error")@, spec_ser(spec_error_body(error_type@, message@))),
    {
        let inner = obj2(
            "type",
            JsonValue::Str(crate::text::escape_text(error_type)),
            "message",
            JsonValue::Str(crate::text::escape_text(message)),
        );
        let body = obj2("type", jstr("error"), "error", inner);
        proof {
            reveal(spec_error_body);
            assert(body@ =~~= spec_error_body(error_type@, message@));
        }
        frame_event("error", &body)
    }
}

/// The JSON body of an `error` event.
#[verifier::opaque]
pub open spec fn spec_error_body(error_type: Seq<char>, message: Seq<char>) -> JsonV {
    JsonV::Obj(
        seq![
            (("type")@, JsonV::Str(("error")@)),
            (
                ("error")@,
                JsonV::Obj(
                    seq![
                        (("type")@, JsonV::Str(escape_chars(error_type))),
                        (("message")@, JsonV::Str(escape_chars(message))),
                    ],
                ),
            ),
        ],
    )
}


/// The string views of a list of strings.
pub open spec fn strs_of(ss: Seq<String>) -> Seq<Seq<char>> {
    Seq::new(ss.len(), |i: int| ss[i]@)
}

proof fn lemma_strs_of_push(ss: Seq<String>, x: String)
    ensures
        strs_of(ss.push(x)) =~= strs_of(ss).push(x@),
{
    assert forall|k: int| 0 <= k < ss.len() + 1 implies strs_of(ss.push(x))[k] == strs_of(
        ss,
    ).push(x@)[k] by {
        if k < ss.len() {
            assert(ss.push(x)[k] == ss[k]);
        } else {
            assert(ss.push(x)[k] == x);
        }
    }
}

/// Whether each string is the rendering of the abstract event beside it.
#[verifier::opaque]
pub open spec fn strs_match(strs: Seq<Seq<char>>, evs: Seq<EventV>) -> bool {
    strs.len() == evs.len() && forall|k: int|
        0 <= k < evs.len() ==> #[trigger] strs[k] == render(evs[k])
}

proof fn lemma_strings_render(strs: Seq<Seq<char>>, evs: Seq<EventV>)
    requires
        strs_match(strs, evs),
    ensures
        strs == render_all(evs, evs.len() as int),
{
    reveal(strs_match);
    lemma_render_all(evs, evs.len() as int);
    assert(strs =~= render_all(evs, evs.len() as int));
}

proof fn lemma_strs_match_empty()
    ensures
        strs_match(Seq::empty(), Seq::empty()),
{
    reveal(strs_match);
}

proof fn lemma_strs_match_push(strs: Seq<Seq<char>>, evs: Seq<EventV>, st: Seq<char>, e: EventV)
    requires
        strs_match(strs, evs),
        st == render(e),
    ensures
        strs_match(strs.push(st), evs.push(e)),
{
    reveal(strs_match);
    assert forall|k: int| 0 <= k < evs.len() + 1 implies #[trigger] strs.push(st)[k] == render(
        evs.push(e)[k],
    ) by {
        if k < evs.len() {
            assert(strs.push(st)[k] == strs[k]);
            assert(evs.push(e)[k] == evs[k]);
        } else {
            assert(strs.push(st)[k] == st);
            assert(evs.push(e)[k] == e);
        }
    }
}

/// Whether every id has the tool-use shape.
#[verifier::opaque]
pub open spec fn ids_ok(ids: Seq<Seq<char>>) -> bool {
    forall|j: int|
        0 <= j < ids.len() ==> (#[trigger] ids[j]).len() == 38 && ids[j].take(6)
            == ("toolu_")@ && wf_str_chars(ids[j])
}

proof fn lemma_ids_ok_empty()
    ensures
        ids_ok(Seq::empty()),
{
    reveal(ids_ok);
}

proof fn lemma_ids_ok_push(ids: Seq<Seq<char>>, x: Seq<char>)
    requires
        ids_ok(ids),
        x.len() == 38,
        x.take(6) == ("toolu_")@,
        wf_str_chars(x),
    ensures
        ids_ok(ids.push(x)),
{
    reveal(ids_ok);
    assert forall|j: int| 0 <= j < ids.len() + 1 implies (#[trigger] ids.push(x)[j]).len() == 38
        && ids.push(x)[j].take(6) == ("toolu_")@ && wf_str_chars(ids.push(x)[j]) by {
        if j < ids.len() {
            assert(ids.push(x)[j] == ids[j]);
        } else {
            assert(ids.push(x)[j] == x);
        }
    }
}

/// Whether the store holds one registration's entry.
pub open spec fn reg_present(cur: ConversationState, reg: RegV) -> bool {
    cur.spec_lookup(reg.id) matches Some(m) && m.function_name@ == reg.name && (match (
        m.thought_signature,
        reg.sig,
    ) {
        (Some(a), Some(b)) => a@ == b,
        (None, None) => true,
        _ => false,
    }) && m.args@ == reg.args && m.original_id@ == reg.id
}

/// Whether `cur` is `old_st` with exactly the given registrations applied
/// in order: an id registered and not registered again still resolves to
/// its registration, and every other id reads as before.
#[verifier::opaque]
pub open spec fn regs_tracked(
    cur: ConversationState,
    old_st: ConversationState,
    regs: Seq<RegV>,
) -> bool {
    &&& (forall|other: Seq<char>|
        #![trigger cur.spec_lookup(other)]
        (forall|j: int| 0 <= j < regs.len() ==> (#[trigger] regs[j]).id != other)
            ==> cur.spec_lookup(other) == old_st.spec_lookup(other))
    &&& (forall|j: int|
        #![trigger regs[j]]
        (0 <= j < regs.len() && (forall|j2: int|
            j < j2 < regs.len() ==> (#[trigger] regs[j2]).id != regs[j].id)) ==> reg_present(
            cur,
            regs[j],
        ))
}

proof fn lemma_regs_tracked_empty(st: ConversationState)
    ensures
        regs_tracked(st, st, Seq::empty()),
{
    reveal(regs_tracked);
}

proof fn lemma_regs_tracked_register(
    pre: ConversationState,
    post: ConversationState,
    old_st: ConversationState,
    regs: Seq<RegV>,
    reg: RegV,
)
    requires
        regs_tracked(pre, old_st, regs),
        reg_present(post, reg),
        forall|other: Seq<char>|
            other != reg.id ==> #[trigger] post.spec_lookup(other) == pre.spec_lookup(other),
    ensures
        regs_tracked(post, old_st, regs.push(reg)),
{
    reveal(regs_tracked);
    let regs2 = regs.push(reg);
    assert forall|other: Seq<char>|
        #![trigger post.spec_lookup(other)]
        (forall|j: int| 0 <= j < regs2.len() ==> (#[trigger] regs2[j]).id != other)
            implies post.spec_lookup(other) == old_st.spec_lookup(other) by {
        if forall|j: int| 0 <= j < regs2.len() ==> (#[trigger] regs2[j]).id != other {
            assert(regs2[regs.len() as int] == reg);
            assert(reg.id != other);
            assert forall|j: int| 0 <= j < regs.len() implies (#[trigger] regs[j]).id
                != other by {
                assert(regs2[j] == regs[j]);
            }
        }
    }
    assert forall|j: int|
        #![trigger regs2[j]]
        (0 <= j < regs2.len() && (forall|j2: int|
            j < j2 < regs2.len() ==> (#[trigger] regs2[j2]).id != regs2[j].id))
            implies reg_present(post, regs2[j]) by {
        if 0 <= j < regs2.len() && (forall|j2: int|
            j < j2 < regs2.len() ==> (#[trigger] regs2[j2]).id != regs2[j].id) {
            if j == regs.len() {
                assert(regs2[j] == reg);
            } else {
                assert(regs2[j] == regs[j]);
                assert(regs2[regs.len() as int] == reg);
                assert(regs2[j].id != reg.id);
                assert forall|j2: int|
                    j < j2 < regs.len() implies (#[trigger] regs[j2]).id != regs[j].id by {
                    assert(regs2[j2] == regs[j2]);
                }
                assert(reg_present(pre, regs[j]));
            }
        }
    }
}


impl SSEEventGenerator {
    /// Lifts one parsed upstream chunk into SSE events, as [`spec_gen`]
    /// describes for the fresh message and tool ids drawn here, advancing
    /// the machine and registering each emitted tool use in the
    /// correlation store.
    #[verifier::rlimit(100)]
    pub fn generate_events(&mut self, chunk: GeminiStreamChunk) -> (r: Vec<String>)
        requires
            old(self).wf(),
        ensures
            final(self).wf(),
            final(self).machine().model == old(self).machine().model,
            exists|msg_id: Seq<char>, tool_ids: Seq<Seq<char>>|
                #![trigger spec_gen(old(self).machine(), chunk@, msg_id, tool_ids)]
                {
                    let (evs, post, regs) = spec_gen(
                        old(self).machine(),
                        chunk@,
                        msg_id,
                        tool_ids,
                    );
                    &&& Seq::new(r@.len(), |i: int| r@[i]@) == render_all(
                        evs,
                        evs.len() as int,
                    )
                    &&& final(self).machine() == post
                    &&& (!old(self).machine().done ==> msg_id.len() == 47 && msg_id.take(11)
                        == ("msg_gemini_")@)
                    &&& ids_ok(tool_ids)
                    &&& regs_tracked(final(self).spec_store(), old(self).spec_store(), regs)
                },
    {
        let ghost pre = self.machine();
        let ghost chv = chunk@;

        if self.done {
            let events: Vec<String> = Vec::new();
            proof {
                reveal(spec_gen);
                lemma_ids_ok_empty();
                lemma_regs_tracked_empty(self.spec_store());
                let (evs, post, regs) = spec_gen(pre, chv, Seq::empty(), Seq::empty());
                assert(Seq::new(events@.len(), |i: int| events@[i]@) =~= render_all(
                    evs,
                    evs.len() as int,
                ));
            }
            return events;
        }

        if let Some(usage) = &chunk.usage_metadata {
            if let Some(p) = usage.prompt_token_count {
                self.input_tokens = p;
            }
            if let Some(c) = usage.candidates_token_count {
                self.output_tokens = c;
            }
        }
        let est = match &chunk.usage_metadata {
            Some(u) => match u.candidates_token_count {
                Some(_) => false,
                None => true,
            },
            None => true,
        };
        let ghost core0 = GenCore {
            input_tokens: upd_input(pre.input_tokens, chv),
            output_tokens: upd_output(pre.output_tokens, chv),
            ..pre
        };
        proof {
            assert(self.machine() =~= core0);
            assert(est == needs_estimate(chv));
        }

        let msg_id = fresh_message_id();
        let ghost gmsg = msg_id@;
        let mut events: Vec<String> = Vec::new();
        let ghost mut gevs: Seq<EventV> = Seq::empty();
        proof {
            lemma_strs_match_empty();
            assert(strs_of(events@) =~= Seq::<Seq<char>>::empty());
        }

        let meaningful = chunk_meaningful(&chunk);
        if !self.header_sent && meaningful {
            let ghost pre_events = events@;
            let ev1 = format_message_start(
                self.model_name.as_str(),
                self.input_tokens,
                msg_id.as_str(),
            );
            let ghost gv1 = ev1@;
            events.push(ev1);
            proof {
                lemma_strs_of_push(pre_events, events@.last());
                lemma_strs_match_push(strs_of(pre_events), gevs, gv1, EventV::MsgStart {
                    model: core0.model,
                    input_tokens: core0.input_tokens,
                    msg_id: gmsg,
                });
                gevs = gevs.push(EventV::MsgStart {
                    model: core0.model,
                    input_tokens: core0.input_tokens,
                    msg_id: gmsg,
                });
            }
            let ghost pre_events2 = events@;
            let ev2 = format_cb_start_text();
            let ghost gv2 = ev2@;
            events.push(ev2);
            proof {
                lemma_strs_of_push(pre_events2, events@.last());
                lemma_strs_match_push(strs_of(pre_events2), gevs, gv2, EventV::CbStartText);
                gevs = gevs.push(EventV::CbStartText);
                assert(gevs =~= header_events(core0, core0.input_tokens, gmsg));
            }
            self.header_sent = true;
            self.content_block_index = 1;
        }
        let ghost ghdr = gevs;
        let ghost core1 = if !core0.header_sent && spec_meaningful(chv) {
            GenCore { header_sent: true, idx: 1, ..core0 }
        } else {
            core0
        };
        proof {
            assert(self.machine() =~= core1);
        }

        let ghost mut ids: Seq<Seq<char>> = Seq::empty();
        let ghost mut gregs: Seq<RegV> = Seq::empty();
        let ghost old_store = old(self).spec_store();
        proof {
            lemma_ids_ok_empty();
            lemma_regs_tracked_empty(old_store);
        }

        if chunk.candidates.len() > 0 {
            proof {
                assert(chv.candidates[0] == chunk.candidates@[0]@);
            }
            let cand = &chunk.candidates[0];
            if let Some(content) = &cand.content {
                let ghost ct = chv.candidates[0].content->Some_0;
                proof {
                    assert(ct == content@);
                }
                let n = content.parts.len();
                let mut i: usize = 0;
                proof {
                    assert(spec_parts(core1, ct.parts, ids, est, 0) == (
                        Seq::<EventV>::empty(),
                        core1,
                        Seq::<RegV>::empty(),
                    )) by {
                        reveal(spec_parts);
                    }
                    assert(gevs =~= ghdr + Seq::<EventV>::empty());
                }
                while i < n
                    invariant
                        n == content.parts@.len(),
                        0 <= i <= n,
                        chv == chunk@,
                        ct == content@,
                        ct.parts.len() == n,
                        forall|k: int|
                            0 <= k < n ==> #[trigger] ct.parts[k] == content.parts@[k]@,
                        est == needs_estimate(chv),
                        old(self).wf(),
                        self.state.wf(),
                        old_store == old(self).spec_store(),
                        ({
                            let (pevs, pcore, pregs) = spec_parts(
                                core1,
                                ct.parts,
                                ids,
                                est,
                                i as int,
                            );
                            &&& self.machine() == pcore
                            &&& gevs == ghdr + pevs
                            &&& gregs == pregs
                        }),
                        ids.len() == spec_call_count(ct.parts, i as int),
                        ids_ok(ids),
                        strs_match(strs_of(events@), gevs),
                        regs_tracked(self.spec_store(), old_store, gregs),
                    decreases n - i,
                {
                    let ghost gpart = ct.parts[i as int];
                    proof {
                        assert(gpart == content.parts@[i as int]@);
                        lemma_call_count_bounds(ct.parts, i as int);
                    }
                    match &content.parts[i] {
                        GeminiPart::Text { text } => {
                            let ghost pre_events = events@;
                            let ghost pre_store = self.spec_store();
                            self.emit_text_delta(text, est, &mut events, Ghost(gpart));
                            proof {
                                let t = gpart->Text_text;
                                if !raw_blank(t) {
                                    lemma_strs_of_push(pre_events, events@.last());
                                    lemma_strs_match_push(strs_of(pre_events), gevs,
                                        events@.last()@, EventV::CbDelta {
                                        text: delta_text(t),
                                    });
                                    gevs = gevs.push(EventV::CbDelta { text: delta_text(t) });
                                }
                                lemma_step_text(core1, ct.parts, ids, est, i as int);
                            }
                        },
                        GeminiPart::TextWithThought { text, .. } => {
                            let ghost pre_events = events@;
                            self.emit_text_delta(text, est, &mut events, Ghost(gpart));
                            proof {
                                let t = gpart->TextThought_text;
                                if !raw_blank(t) {
                                    lemma_strs_of_push(pre_events, events@.last());
                                    lemma_strs_match_push(strs_of(pre_events), gevs,
                                        events@.last()@, EventV::CbDelta {
                                        text: delta_text(t),
                                    });
                                    gevs = gevs.push(EventV::CbDelta { text: delta_text(t) });
                                }
                                lemma_step_text(core1, ct.parts, ids, est, i as int);
                            }
                        },
                        GeminiPart::FunctionCall { function_call } => {
                            let ghost pre_events = events@;
                            let ghost pre_store = self.spec_store();
                            let ghost k = self.machine().idx;
                            let gid = self.emit_tool_use(function_call, None, &mut events);
                            proof {
                                let gidv = gid@;
                                let gcall = gpart->Call_call;
                                let e1 = EventV::CbStartTool {
                                    index: k,
                                    id: gidv,
                                    name: gcall.name,
                                };
                                let e2 = EventV::CbInputDelta {
                                    index: k,
                                    json: spec_ser(gcall.args),
                                };
                                let e3 = EventV::CbStop { index: k };
                                let s0 = strs_of(pre_events);
                                assert(strs_of(events@) =~= s0.push(
                                    events@[pre_events.len() as int]@,
                                ).push(events@[pre_events.len() as int + 1]@).push(
                                    events@[pre_events.len() as int + 2]@,
                                ));
                                lemma_strs_match_push(s0, gevs,
                                    events@[pre_events.len() as int]@, e1);
                                lemma_strs_match_push(s0.push(
                                    events@[pre_events.len() as int]@,
                                ), gevs.push(e1), events@[pre_events.len() as int + 1]@, e2);
                                lemma_strs_match_push(s0.push(
                                    events@[pre_events.len() as int]@,
                                ).push(events@[pre_events.len() as int + 1]@), gevs.push(
                                    e1,
                                ).push(e2), events@[pre_events.len() as int + 2]@, e3);
                                gevs = gevs.push(e1).push(e2).push(e3);
                                let reg = RegV {
                                    id: gidv,
                                    name: gcall.name,
                                    sig: None,
                                    args: gcall.args,
                                };
                                lemma_regs_tracked_register(pre_store, self.spec_store(),
                                    old_store, gregs, reg);
                                gregs = gregs.push(reg);
                                lemma_parts_ids_extend(core1, ct.parts, ids, gidv, est,
                                    i as int);
                                lemma_ids_ok_push(ids, gidv);
                                ids = ids.push(gidv);
                            }
                        },
                        GeminiPart::FunctionCallWithThought {
                            function_call,
                            thought_signature,
                        } => {
                            let ghost pre_events = events@;
                            let ghost pre_store = self.spec_store();
                            let ghost k = self.machine().idx;
                            let gid = self.emit_tool_use(
                                function_call,
                                Some(thought_signature.clone()),
                                &mut events,
                            );
                            proof {
                                let gidv = gid@;
                                let gcall = gpart->CallThought_call;
                                let e1 = EventV::CbStartTool {
                                    index: k,
                                    id: gidv,
                                    name: gcall.name,
                                };
                                let e2 = EventV::CbInputDelta {
                                    index: k,
                                    json: spec_ser(gcall.args),
                                };
                                let e3 = EventV::CbStop { index: k };
                                let s0 = strs_of(pre_events);
                                assert(strs_of(events@) =~= s0.push(
                                    events@[pre_events.len() as int]@,
                                ).push(events@[pre_events.len() as int + 1]@).push(
                                    events@[pre_events.len() as int + 2]@,
                                ));
                                lemma_strs_match_push(s0, gevs,
                                    events@[pre_events.len() as int]@, e1);
                                lemma_strs_match_push(s0.push(
                                    events@[pre_events.len() as int]@,
                                ), gevs.push(e1), events@[pre_events.len() as int + 1]@, e2);
                                lemma_strs_match_push(s0.push(
                                    events@[pre_events.len() as int]@,
                                ).push(events@[pre_events.len() as int + 1]@), gevs.push(
                                    e1,
                                ).push(e2), events@[pre_events.len() as int + 2]@, e3);
                                gevs = gevs.push(e1).push(e2).push(e3);
                                let reg = RegV {
                                    id: gidv,
                                    name: gcall.name,
                                    sig: Some(gpart->CallThought_sig),
                                    args: gcall.args,
                                };
                                lemma_regs_tracked_register(pre_store, self.spec_store(),
                                    old_store, gregs, reg);
                                gregs = gregs.push(reg);
                                lemma_parts_ids_extend(core1, ct.parts, ids, gidv, est,
                                    i as int);
                                lemma_ids_ok_push(ids, gidv);
                                ids = ids.push(gidv);
                            }
                        },
                        GeminiPart::InlineData { .. } => {},
                        GeminiPart::FunctionResponse { .. } => {},
                    }
                    i = i + 1;
                    proof {
                        reveal(spec_parts);
                        let (pevs, pcore, pregs) = spec_parts(core1, ct.parts, ids, est,
                            i as int);
                        assert(gevs =~= ghdr + pevs);
                        assert(gregs =~= pregs);
                        assert(self.machine() =~= pcore);
                    }
                }
            }
            let ghost parts_out = match chv.candidates[0].content {
                Some(ct2) => spec_parts(core1, ct2.parts, ids, est, ct2.parts.len() as int),
                None => (Seq::<EventV>::empty(), core1, Seq::<RegV>::empty()),
            };
            proof {
                assert(self.machine() == parts_out.1);
                assert(gevs == ghdr + parts_out.0);
                assert(gregs == parts_out.2);
            }
            let ghost core2 = parts_out.1;
            proof {
                match chv.candidates[0].content {
                    Some(ct2) => {
                        lemma_parts_preserves(core1, ct2.parts, ids, est,
                            ct2.parts.len() as int);
                    },
                    None => {},
                }
                assert(core2.input_tokens == core0.input_tokens);
                assert(core2.model == core0.model);
            }

            if let Some(finish_reason) = &cand.finish_reason {
                if !self.header_sent {
                    let ghost pre_events = events@;
                    let ev1 = format_message_start(
                        self.model_name.as_str(),
                        self.input_tokens,
                        msg_id.as_str(),
                    );
                    let ghost gv1 = ev1@;
                    events.push(ev1);
                    proof {
                        lemma_strs_of_push(pre_events, events@.last());
                        lemma_strs_match_push(strs_of(pre_events), gevs, gv1,
                            EventV::MsgStart {
                            model: core2.model,
                            input_tokens: core0.input_tokens,
                            msg_id: gmsg,
                        });
                        gevs = gevs.push(EventV::MsgStart {
                            model: core2.model,
                            input_tokens: core0.input_tokens,
                            msg_id: gmsg,
                        });
                    }
                    let ghost pre_events2 = events@;
                    let ev2 = format_cb_start_text();
                    let ghost gv2 = ev2@;
                    events.push(ev2);
                    proof {
                        lemma_strs_of_push(pre_events2, events@.last());
                        lemma_strs_match_push(strs_of(pre_events2), gevs, gv2,
                            EventV::CbStartText);
                        gevs = gevs.push(EventV::CbStartText);
                    }
                    self.header_sent = true;
                    self.content_block_index = 1;
                }
                let ghost core3 = if !core2.header_sent {
                    GenCore { header_sent: true, idx: 1, ..core2 }
                } else {
                    core2
                };
                proof {
                    assert(self.machine() =~= core3);
                }
                let has_call = crate::tools::has_function_calls(&chunk);
                let stop: &str = if has_call {
                    "tool_use"
                } else {
                    self.map_finish_reason(finish_reason.as_str())
                };
                if !has_call {
                    let ghost pre_events = events@;
                    let ev = format_cb_stop(0);
                    let ghost gv = ev@;
                    events.push(ev);
                    proof {
                        lemma_strs_of_push(pre_events, events@.last());
                        lemma_strs_match_push(strs_of(pre_events), gevs, gv, EventV::CbStop {
                            index: 0,
                        });
                        gevs = gevs.push(EventV::CbStop { index: 0 });
                    }
                }
                let ghost greason = chv.candidates[0].finish->Some_0;
                let ghost gstop = if spec_chunk_has_call(chv) {
                    ("tool_use")@
                } else {
                    spec_map_finish(greason)
                };
                let ghost pre_events = events@;
                let ev = format_msg_delta(stop, self.output_tokens);
                let ghost gv = ev@;
                events.push(ev);
                proof {
                    assert(stop@ == gstop);
                    lemma_strs_of_push(pre_events, events@.last());
                    lemma_strs_match_push(strs_of(pre_events), gevs, gv, EventV::MsgDelta {
                        reason: gstop,
                        output_tokens: core3.output_tokens,
                    });
                    gevs = gevs.push(EventV::MsgDelta {
                        reason: gstop,
                        output_tokens: core3.output_tokens,
                    });
                }
                let ghost pre_events2 = events@;
                let ev2 = format_msg_stop();
                let ghost gv2 = ev2@;
                events.push(ev2);
                self.done = true;
                proof {
                    lemma_strs_of_push(pre_events2, events@.last());
                    lemma_strs_match_push(strs_of(pre_events2), gevs, gv2, EventV::MsgStop);
                    gevs = gevs.push(EventV::MsgStop);
                }
                proof {
                    assert(spec_gen(pre, chv, gmsg, ids) == (gevs, self.machine(), gregs)) by {
                        reveal(spec_gen);
                        assert(!pre.done);
                        assert(spec_gen(pre, chv, gmsg, ids) == spec_gen_live(
                            pre,
                            chv,
                            gmsg,
                            ids,
                        ));
                        assert(spec_gen_live(pre, chv, gmsg, ids).0 =~= gevs);
                        assert(spec_gen_live(pre, chv, gmsg, ids).1 =~= self.machine());
                        assert(spec_gen_live(pre, chv, gmsg, ids).2 =~= gregs);
                    }
                }
            } else {
                proof {
                    assert(spec_gen(pre, chv, gmsg, ids) == (gevs, self.machine(), gregs)) by {
                        reveal(spec_gen);
                        assert(!pre.done);
                        assert(spec_gen(pre, chv, gmsg, ids) == spec_gen_live(
                            pre,
                            chv,
                            gmsg,
                            ids,
                        ));
                        assert(spec_gen_live(pre, chv, gmsg, ids).0 =~= gevs);
                        assert(spec_gen_live(pre, chv, gmsg, ids).1 =~= self.machine());
                        assert(spec_gen_live(pre, chv, gmsg, ids).2 =~= gregs);
                    }
                }
            }
        } else {
            proof {
                assert(spec_gen(pre, chv, gmsg, ids) == (gevs, self.machine(), gregs)) by {
                    reveal(spec_gen);
                    assert(!pre.done);
                    assert(spec_gen(pre, chv, gmsg, ids) == spec_gen_live(
                        pre,
                        chv,
                        gmsg,
                        ids,
                    ));
                    assert(spec_gen_live(pre, chv, gmsg, ids).0 =~= gevs);
                    assert(spec_gen_live(pre, chv, gmsg, ids).1 =~= self.machine());
                    assert(spec_gen_live(pre, chv, gmsg, ids).2 =~= gregs);
                }
            }
        }

        proof {
            lemma_strings_render(strs_of(events@), gevs);
            assert(Seq::new(events@.len(), |k: int| events@[k]@) =~= strs_of(events@));
        }
        events
    }

    /// Emits one text delta if the text is not blank, and estimates tokens
    /// where asked.
    fn emit_text_delta(
        &mut self,
        text: &String,
        est: bool,
        events: &mut Vec<String>,
        part: Ghost<PartV>,
    )
        requires
            part_text(part@) matches Some(t) && t == text@,
        ensures
            ({
                let t = text@;
                let step = spec_part_step(old(self).machine(), part@, Seq::empty(), est);
                &&& final(self).machine() == step.1
                &&& final(self).spec_store() == old(self).spec_store()
                &&& (if raw_blank(t) {
                    final(events)@ == old(events)@
                } else {
                    final(events)@ == old(events)@.push(final(events)@.last())
                        && final(events)@.last()@ == render(
                        EventV::CbDelta { text: delta_text(t) },
                    )
                })
            }),
    {
        if crate::text::is_raw_blank(text.as_str()) {
            return;
        }
        let dtext = if crate::text::is_wf_str(text.as_str()) {
            text.clone()
        } else {
            crate::text::escape_text(text.as_str())
        };
        events.push(format_cb_delta(dtext));
        if est {
            let l = text.as_str().unicode_len();
            let e32: u32 = if l / 4 == 0 {
                1u32
            } else if l / 4 > u32::MAX as usize {
                u32::MAX
            } else {
                (l / 4) as u32
            };
            if self.output_tokens <= u32::MAX - e32 {
                self.output_tokens = self.output_tokens + e32;
            } else {
                self.output_tokens = u32::MAX;
            }
            proof {
                assert(e32 == delta_estimate(text@));
                assert(self.output_tokens == sat_add32(old(self).output_tokens, e32));
            }
        }
        proof {
            assert(final(self).machine() =~= spec_part_step(
                old(self).machine(),
                part@,
                Seq::empty(),
                est,
            ).1);
        }
    }

    /// Emits the three events of one tool-use block and registers the call
    /// under a fresh tool-use id, which it returns.
    fn emit_tool_use(
        &mut self,
        function_call: &crate::gemini::FunctionCall,
        sig: Option<String>,
        events: &mut Vec<String>,
    ) -> (gid: String)
        requires
            old(self).wf(),
        ensures
            final(self).wf(),
            gid@.len() == 38 && gid@.take(6) == ("toolu_")@ && wf_str_chars(gid@),
            ({
                let k = old(self).machine().idx;
                let m0 = old(self).machine();
                &&& final(self).machine() == (GenCore {
                    idx: if m0.idx < u32::MAX {
                        (m0.idx + 1) as u32
                    } else {
                        m0.idx
                    },
                    ..m0
                })
                &&& final(events)@.len() == old(events)@.len() + 3
                &&& (forall|j: int|
                    0 <= j < old(events)@.len() ==> #[trigger] final(events)@[j] == old(
                        events,
                    )@[j])
                &&& final(events)@[old(events)@.len() as int]@ == render(
                    EventV::CbStartTool { index: k, id: gid@, name: function_call.name@ },
                )
                &&& final(events)@[old(events)@.len() as int + 1]@ == render(
                    EventV::CbInputDelta { index: k, json: spec_ser(function_call.args@) },
                )
                &&& final(events)@[old(events)@.len() as int + 2]@ == render(
                    EventV::CbStop { index: k },
                )
                &&& (final(self).spec_store().spec_lookup(gid@) matches Some(m)
                    && m.function_name@ == function_call.name@ && (match (
                    m.thought_signature,
                    sig,
                ) {
                    (Some(a), Some(b)) => a@ == b@,
                    (None, None) => true,
                    _ => false,
                }) && m.args@ == function_call.args@ && m.original_id@ == gid@)
                &&& (forall|other: Seq<char>|
                    other != gid@ ==> #[trigger] final(self).spec_store().spec_lookup(other)
                        == old(self).spec_store().spec_lookup(other))
            }),
    {
        broadcast use vstd::string::group_string_axioms;

        let mut id = String::from_str("toolu_");
        proof {
            reveal_strlit("toolu_");
        }
        let tail = crate::tools::fresh_tool_uuid();
        id.append(tail.as_str());
        proof {
            assert(id@.take(6) =~= ("toolu_")@);
            crate::json::lemma_wf_str_plain(id@);
        }
        let ghost gsig = sig;
        self.state.register_tool_use(
            id.clone(),
            function_call.name.clone(),
            sig,
            function_call.args.duplicate(),
        );
        let k = self.content_block_index;
        events.push(format_cb_start_tool(k, id.as_str(), function_call.name.as_str()));
        let json = crate::json::to_json_string(&function_call.args);
        events.push(format_cb_input_delta(k, json.as_str()));
        events.push(format_cb_stop(k));
        let cl = self.content_block_index;
        if cl < u32::MAX {
            self.content_block_index = cl + 1;
        }
        id
    }
}

/// A text part's step folds as the one-event case of [`spec_part_step`].
proof fn lemma_step_text(
    c: GenCore,
    parts: Seq<PartV>,
    ids: Seq<Seq<char>>,
    est: bool,
    i: int,
)
    requires
        0 <= i < parts.len(),
        part_text(parts[i]) is Some,
    ensures
        ({
            let (evs, c1, regs) = spec_parts(c, parts, ids, est, i);
            let t = part_text(parts[i])->Some_0;
            spec_parts(c, parts, ids, est, i + 1) == if raw_blank(t) {
                (evs, c1, regs)
            } else {
                (
                    evs.push(EventV::CbDelta { text: delta_text(t) }),
                    spec_part_step(c1, parts[i], Seq::empty(), est).1,
                    regs,
                )
            }
        }),
{
    reveal(spec_parts);
    let (evs, c1, regs) = spec_parts(c, parts, ids, est, i);
    let t = part_text(parts[i])->Some_0;
    let cc = spec_call_count(parts, i);
    let tid = if 0 <= cc < ids.len() {
        ids[cc]
    } else {
        Seq::empty()
    };
    let (evs2, c2, regs2) = spec_part_step(c1, parts[i], tid, est);
    if raw_blank(t) {
        assert(evs + evs2 =~= evs);
        assert(regs + regs2 =~= regs);
    } else {
        assert(evs + evs2 =~= evs.push(EventV::CbDelta { text: delta_text(t) }));
        assert(regs + regs2 =~= regs);
        assert(c2 =~= spec_part_step(c1, parts[i], Seq::empty(), est).1);
    }
}


// ---------------------------------------------------------------------
// Laws of the event stream across a whole connection.
//
// A connection is a sequence of chunks fed to one generator. The fold
// `spec_run` chains `spec_gen` over them; the lemmas below state what the
// cumulative event stream obeys.
// ---------------------------------------------------------------------

/// How many `message_start` events a list holds.
pub open spec fn count_starts(evs: Seq<EventV>) -> nat
    decreases evs.len(),
{
    if evs.len() == 0 {
        0
    } else {
        (if evs[0] is MsgStart {
            1nat
        } else {
            0nat
        }) + count_starts(evs.skip(1))
    }
}

/// How many `message_stop` events a list holds.
pub open spec fn count_stops(evs: Seq<EventV>) -> nat
    decreases evs.len(),
{
    if evs.len() == 0 {
        0
    } else {
        (if evs[0] is MsgStop {
            1nat
        } else {
            0nat
        }) + count_stops(evs.skip(1))
    }
}

pub proof fn lemma_count_concat(a: Seq<EventV>, b: Seq<EventV>)
    ensures
        count_starts(a + b) == count_starts(a) + count_starts(b),
        count_stops(a + b) == count_stops(a) + count_stops(b),
    decreases a.len(),
{
    if a.len() == 0 {
        assert(a + b =~= b);
    } else {
        assert((a + b).skip(1) =~= a.skip(1) + b);
        lemma_count_concat(a.skip(1), b);
    }
}

pub proof fn lemma_count_push(evs: Seq<EventV>, e: EventV)
    ensures
        count_starts(evs.push(e)) == count_starts(evs) + (if e is MsgStart {
            1int
        } else {
            0int
        }),
        count_stops(evs.push(e)) == count_stops(evs) + (if e is MsgStop {
            1int
        } else {
            0int
        }),
    decreases evs.len(),
{
    reveal_with_fuel(count_starts, 3);
    reveal_with_fuel(count_stops, 3);
    if evs.len() == 0 {
        assert(evs.push(e)[0] == e);
        assert(evs.push(e).skip(1) =~= Seq::<EventV>::empty());
    } else {
        assert(evs.push(e)[0] == evs[0]);
        assert(evs.push(e).skip(1) =~= evs.skip(1).push(e));
        lemma_count_push(evs.skip(1), e);
    }
}

/// A list with neither lifecycle event counts zero of each.
pub proof fn lemma_count_none(evs: Seq<EventV>)
    requires
        forall|p: int|
            0 <= p < evs.len() ==> !((#[trigger] evs[p]) is MsgStart) && !(evs[p] is MsgStop),
    ensures
        count_starts(evs) == 0,
        count_stops(evs) == 0,
    decreases evs.len(),
{
    if evs.len() > 0 {
        assert forall|p: int|
            0 <= p < evs.skip(1).len() implies !((#[trigger] evs.skip(1)[p]) is MsgStart) && !(
            evs.skip(1)[p] is MsgStop) by {
            assert(evs.skip(1)[p] == evs[p + 1]);
        }
        lemma_count_none(evs.skip(1));
    }
}

/// A list with a `message_start` somewhere counts at least one.
pub proof fn lemma_start_witness(evs: Seq<EventV>, p: int)
    requires
        0 <= p < evs.len(),
        evs[p] is MsgStart,
    ensures
        count_starts(evs) >= 1,
    decreases p,
{
    if p > 0 {
        assert(evs.skip(1)[p - 1] == evs[p]);
        lemma_start_witness(evs.skip(1), p - 1);
    }
}

/// A positive `message_start` count names a position.
pub proof fn lemma_start_position(evs: Seq<EventV>) -> (p: int)
    requires
        count_starts(evs) >= 1,
    ensures
        0 <= p < evs.len(),
        evs[p] is MsgStart,
    decreases evs.len(),
{
    if evs[0] is MsgStart {
        0
    } else {
        let q = lemma_start_position(evs.skip(1));
        assert(evs.skip(1)[q] == evs[q + 1]);
        q + 1
    }
}

/// Two `message_stop` positions force a count of at least two.
pub proof fn lemma_two_stops(evs: Seq<EventV>, p: int, q: int)
    requires
        0 <= p < q < evs.len(),
        evs[p] is MsgStop,
        evs[q] is MsgStop,
    ensures
        count_stops(evs) >= 2,
    decreases p,
{
    if p == 0 {
        assert(evs.skip(1)[q - 1] == evs[q]);
        lemma_stop_witness(evs.skip(1), q - 1);
    } else {
        assert(evs.skip(1)[p - 1] == evs[p]);
        assert(evs.skip(1)[q - 1] == evs[q]);
        lemma_two_stops(evs.skip(1), p - 1, q - 1);
    }
}

pub proof fn lemma_stop_witness(evs: Seq<EventV>, p: int)
    requires
        0 <= p < evs.len(),
        evs[p] is MsgStop,
    ensures
        count_stops(evs) >= 1,
    decreases p,
{
    if p > 0 {
        assert(evs.skip(1)[p - 1] == evs[p]);
        lemma_stop_witness(evs.skip(1), p - 1);
    }
}

/// The part fold emits no `message_start` and no `message_stop`.
proof fn lemma_parts_no_lifecycle(
    c: GenCore,
    parts: Seq<PartV>,
    ids: Seq<Seq<char>>,
    est: bool,
    i: int,
)
    ensures
        count_starts(spec_parts(c, parts, ids, est, i).0) == 0,
        count_stops(spec_parts(c, parts, ids, est, i).0) == 0,
    decreases i,
{
    reveal(spec_parts);
    reveal_with_fuel(count_starts, 5);
    reveal_with_fuel(count_stops, 5);
    if 0 < i <= parts.len() {
        lemma_parts_no_lifecycle(c, parts, ids, est, i - 1);
        let (evs, c1, _) = spec_parts(c, parts, ids, est, i - 1);
        let cc = spec_call_count(parts, i - 1);
        let tid = if 0 <= cc < ids.len() {
            ids[cc]
        } else {
            Seq::empty()
        };
        let (evs2, _, _) = spec_part_step(c1, parts[i - 1], tid, est);
        lemma_count_concat(evs, evs2);
        assert forall|p: int|
            0 <= p < evs2.len() implies !((#[trigger] evs2[p]) is MsgStart) && !(evs2[p]
            is MsgStop) by {}
        lemma_count_none(evs2);
    }
}

/// Whether a chunk ends the message: its first candidate carries a finish
/// reason.
pub open spec fn chunk_finishes(chunk: ChunkV) -> bool {
    chunk.candidates.len() > 0 && chunk.candidates[0].finish is Some
}

/// One step of the machine: a done machine emits nothing; otherwise the
/// header flag only rises, `message_start` goes out exactly when the flag
/// rises, and `message_stop` goes out exactly on a finishing chunk — as
/// the final event, only with the header up (so after a `message_start`
/// of this or an earlier step), and leaving the machine done.
pub proof fn lemma_lifecycle_step(
    pre: GenCore,
    chunk: ChunkV,
    msg_id: Seq<char>,
    tool_ids: Seq<Seq<char>>,
)
    ensures
        ({
            let (evs, post, _) = spec_gen(pre, chunk, msg_id, tool_ids);
            &&& post.done == (pre.done || chunk_finishes(chunk))
            &&& post.header_sent == if pre.done {
                pre.header_sent
            } else {
                pre.header_sent || spec_meaningful(chunk) || chunk_finishes(chunk)
            }
            &&& count_starts(evs) == if pre.header_sent {
                0int
            } else if post.header_sent {
                1int
            } else {
                0int
            }
            &&& count_stops(evs) == if !pre.done && chunk_finishes(chunk) {
                1int
            } else {
                0int
            }
            &&& forall|p: int|
                0 <= p < evs.len() && (#[trigger] evs[p]) is MsgStop ==> p == evs.len() - 1
                    && (pre.header_sent || exists|q: int|
                    0 <= q < p && (#[trigger] evs[q]) is MsgStart)
        }),
{
    reveal(spec_gen);
    reveal_with_fuel(count_starts, 4);
    reveal_with_fuel(count_stops, 4);
    if !pre.done {
        assert(spec_gen(pre, chunk, msg_id, tool_ids) == spec_gen_live(
            pre,
            chunk,
            msg_id,
            tool_ids,
        ));
        let (evs, post, _) = spec_gen(pre, chunk, msg_id, tool_ids);
        let in2 = upd_input(pre.input_tokens, chunk);
        let out2 = upd_output(pre.output_tokens, chunk);
        let core0 = GenCore { input_tokens: in2, output_tokens: out2, ..pre };
        let (hdr, core1) = if !core0.header_sent && spec_meaningful(chunk) {
            (header_events(core0, in2, msg_id), GenCore { header_sent: true, idx: 1, ..core0 })
        } else {
            (Seq::<EventV>::empty(), core0)
        };
        assert(count_starts(hdr) == hdr.len() / 2 && count_stops(hdr) == 0) by {
            if hdr.len() > 0 {
                assert(hdr =~= Seq::<EventV>::empty().push(hdr[0]).push(hdr[1]));
                lemma_count_push(Seq::<EventV>::empty(), hdr[0]);
                lemma_count_push(Seq::<EventV>::empty().push(hdr[0]), hdr[1]);
            }
        }
        if chunk.candidates.len() == 0 {
            assert(evs == hdr);
        } else {
            let cand = chunk.candidates[0];
            let (pevs, core2, _) = match cand.content {
                Some(ct) => spec_parts(core1, ct.parts, tool_ids, needs_estimate(chunk),
                    ct.parts.len() as int),
                None => (Seq::<EventV>::empty(), core1, Seq::<RegV>::empty()),
            };
            match cand.content {
                Some(ct) => {
                    lemma_parts_no_lifecycle(core1, ct.parts, tool_ids, needs_estimate(chunk),
                        ct.parts.len() as int);
                    lemma_parts_preserves(core1, ct.parts, tool_ids, needs_estimate(chunk),
                        ct.parts.len() as int);
                },
                None => {},
            }
            match cand.finish {
                None => {
                    lemma_count_concat(hdr, pevs);
                    assert(evs == hdr + pevs);
                    assert forall|p: int|
                        0 <= p < evs.len() && (#[trigger] evs[p]) is MsgStop implies p == evs.len()
                        - 1 && (pre.header_sent || exists|q: int|
                        0 <= q < p && (#[trigger] evs[q]) is MsgStart) by {
                        lemma_stop_witness(evs, p);
                    }
                },
                Some(reason) => {
                    if !core2.header_sent {
                        if chunk_calls(chunk) > 0 {
                            lemma_calls_meaningful(chunk);
                        }
                    }
                    let (hdr2, core3) = if !core2.header_sent {
                        (
                            header_events(core2, in2, msg_id),
                            GenCore { header_sent: true, idx: 1, ..core2 },
                        )
                    } else {
                        (Seq::<EventV>::empty(), core2)
                    };
                    assert(count_starts(hdr2) == hdr2.len() / 2 && count_stops(hdr2) == 0) by {
                        if hdr2.len() > 0 {
                            assert(hdr2 =~= Seq::<EventV>::empty().push(hdr2[0]).push(hdr2[1]));
                            lemma_count_push(Seq::<EventV>::empty(), hdr2[0]);
                            lemma_count_push(Seq::<EventV>::empty().push(hdr2[0]), hdr2[1]);
                        }
                    }
                    let has_call = spec_chunk_has_call(chunk);
                    let stop = if has_call {
                        ("tool_use")@
                    } else {
                        spec_map_finish(reason)
                    };
                    let tail = (if !has_call {
                        seq![EventV::CbStop { index: 0 }]
                    } else {
                        Seq::<EventV>::empty()
                    }) + seq![
                        EventV::MsgDelta { reason: stop, output_tokens: core3.output_tokens },
                        EventV::MsgStop,
                    ];
                    assert(count_starts(tail) == 0 && count_stops(tail) == 1 && tail.last()
                        is MsgStop) by {
                        let front = if !has_call {
                            seq![EventV::CbStop { index: 0 }]
                        } else {
                            Seq::<EventV>::empty()
                        };
                        let last2 = seq![
                            EventV::MsgDelta { reason: stop, output_tokens: core3.output_tokens },
                            EventV::MsgStop,
                        ];
                        lemma_count_concat(front, last2);
                        assert(count_starts(front) == 0 && count_stops(front) == 0) by {
                            lemma_count_push(Seq::<EventV>::empty(), EventV::CbStop { index: 0 });
                        }
                        assert(count_starts(last2) == 0 && count_stops(last2) == 1) by {
                            assert(last2 =~= Seq::<EventV>::empty().push(last2[0]).push(last2[1]));
                            lemma_count_push(Seq::<EventV>::empty(), last2[0]);
                            lemma_count_push(Seq::<EventV>::empty().push(last2[0]), last2[1]);
                        }
                        assert(tail.last() == last2[1]);
                    }
                    assert(evs == hdr + pevs + hdr2 + tail);
                    lemma_count_concat(hdr, pevs);
                    lemma_count_concat(hdr + pevs, hdr2);
                    lemma_count_concat(hdr + pevs + hdr2, tail);
                    assert forall|p: int|
                        0 <= p < evs.len() && (#[trigger] evs[p]) is MsgStop implies p == evs.len()
                        - 1 && (pre.header_sent || exists|q: int|
                        0 <= q < p && (#[trigger] evs[q]) is MsgStart) by {
                        let front = hdr + pevs + hdr2;
                        assert(evs.last() is MsgStop);
                        if p < evs.len() - 1 {
                            lemma_two_stops(evs, p, evs.len() - 1);
                        }
                        if !pre.header_sent {
                            assert(count_starts(evs) >= 1);
                            let q = lemma_start_position(evs);
                            assert(q < p);
                        }
                    }
                },
            }
        }
    }
}

/// The machine folded over a whole connection: every chunk in turn, with
/// the ids drawn at each step.
pub open spec fn spec_run(
    pre: GenCore,
    chunks: Seq<ChunkV>,
    msg_ids: Seq<Seq<char>>,
    tool_idss: Seq<Seq<Seq<char>>>,
    i: int,
) -> (Seq<EventV>, GenCore)
    decreases i,
{
    if i <= 0 || chunks.len() < i {
        (Seq::empty(), pre)
    } else {
        let (evs, mid) = spec_run(pre, chunks, msg_ids, tool_idss, i - 1);
        let (evs2, post, _) = spec_gen(
            mid,
            chunks[i - 1],
            if 0 <= i - 1 < msg_ids.len() {
                msg_ids[i - 1]
            } else {
                Seq::empty()
            },
            if 0 <= i - 1 < tool_idss.len() {
                tool_idss[i - 1]
            } else {
                Seq::empty()
            },
        );
        (evs + evs2, post)
    }
}

/// Across a whole connection that starts fresh: the header and done flags
/// only rise; at most one `message_start` is ever emitted, and exactly one
/// as soon as some chunk carried meaningful content or a finish; exactly
/// one `message_stop` is emitted over the connection's life — when the
/// machine first meets a finishing chunk, after which it is done and
/// silent; and every `message_stop` comes after a `message_start`.
pub proof fn lemma_message_lifecycle(
    pre: GenCore,
    chunks: Seq<ChunkV>,
    msg_ids: Seq<Seq<char>>,
    tool_idss: Seq<Seq<Seq<char>>>,
    i: int,
)
    requires
        0 <= i <= chunks.len(),
    ensures
        ({
            let (evs, post) = spec_run(pre, chunks, msg_ids, tool_idss, i);
            &&& (pre.header_sent ==> post.header_sent)
            &&& (pre.done ==> post.done)
            &&& count_starts(evs) == if pre.header_sent {
                0int
            } else if post.header_sent {
                1int
            } else {
                0int
            }
            &&& count_stops(evs) == if !pre.done && post.done {
                1int
            } else {
                0int
            }
            &&& (!pre.header_sent ==> count_starts(evs) <= 1)
            &&& ((post.header_sent && !pre.header_sent) ==> exists|q: int|
                0 <= q < evs.len() && (#[trigger] evs[q]) is MsgStart)
            &&& (!pre.header_sent ==> forall|p: int|
                0 <= p < evs.len() && (#[trigger] evs[p]) is MsgStop ==> exists|q: int|
                    0 <= q < p && (#[trigger] evs[q]) is MsgStart)
        }),
    decreases i,
{
    if i > 0 {
        lemma_message_lifecycle(pre, chunks, msg_ids, tool_idss, i - 1);
        let (evs1, mid) = spec_run(pre, chunks, msg_ids, tool_idss, i - 1);
        let gm = if 0 <= i - 1 < msg_ids.len() {
            msg_ids[i - 1]
        } else {
            Seq::empty()
        };
        let gt = if 0 <= i - 1 < tool_idss.len() {
            tool_idss[i - 1]
        } else {
            Seq::empty()
        };
        lemma_lifecycle_step(mid, chunks[i - 1], gm, gt);
        let (evs2, post, _) = spec_gen(mid, chunks[i - 1], gm, gt);
        let evs = evs1 + evs2;
        lemma_count_concat(evs1, evs2);
        if post.header_sent && !pre.header_sent {
            assert(count_starts(evs) == 1);
            let q = lemma_start_position(evs);
        }
        if !pre.header_sent {
            assert forall|p: int|
                0 <= p < evs.len() && (#[trigger] evs[p]) is MsgStop implies exists|q: int|
                0 <= q < p && (#[trigger] evs[q]) is MsgStart by {
                if p < evs1.len() {
                    assert(evs1[p] == evs[p]);
                    let q = choose|q: int| 0 <= q < p && (#[trigger] evs1[q]) is MsgStart;
                    assert(evs[q] is MsgStart);
                } else {
                    assert(evs2[p - evs1.len()] == evs[p]);
                    if mid.header_sent {
                        let q = choose|q: int|
                            0 <= q < evs1.len() && (#[trigger] evs1[q]) is MsgStart;
                        assert(evs[q] is MsgStart);
                    } else {
                        let q0 = choose|q: int|
                            0 <= q < p - evs1.len() && (#[trigger] evs2[q]) is MsgStart;
                        assert(evs[q0 + evs1.len()] is MsgStart);
                    }
                }
            }
        }
    } else {
        assert(spec_run(pre, chunks, msg_ids, tool_idss, 0).0 =~= Seq::<EventV>::empty());
    }
}

/// At most one `message_stop` over a connection, whatever the stream
/// holds: the stop sequence ends the machine, and a done machine emits
/// nothing more.
pub proof fn lemma_message_stop_once(
    pre: GenCore,
    chunks: Seq<ChunkV>,
    msg_ids: Seq<Seq<char>>,
    tool_idss: Seq<Seq<Seq<char>>>,
)
    requires
        !pre.done,
    ensures
        count_stops(
            spec_run(pre, chunks, msg_ids, tool_idss, chunks.len() as int).0,
        ) <= 1,
{
    lemma_message_lifecycle(pre, chunks, msg_ids, tool_idss, chunks.len() as int);
}


// ---------------------------------------------------------------------
// Laws of the content-block indices across a whole connection.
// ---------------------------------------------------------------------

/// The indices of the tool-use `content_block_start` events, in emission
/// order. The two companion events of each block carry the same index by
/// [`spec_part_step`]'s definition.
pub open spec fn tool_starts(evs: Seq<EventV>) -> Seq<u32>
    decreases evs.len(),
{
    if evs.len() == 0 {
        Seq::empty()
    } else {
        (match evs[0] {
            EventV::CbStartTool { index, .. } => seq![index],
            _ => Seq::<u32>::empty(),
        }) + tool_starts(evs.skip(1))
    }
}

pub proof fn lemma_tool_starts_concat(a: Seq<EventV>, b: Seq<EventV>)
    ensures
        tool_starts(a + b) == tool_starts(a) + tool_starts(b),
    decreases a.len(),
{
    if a.len() == 0 {
        assert(a + b =~= b);
        assert(tool_starts(a) + tool_starts(b) =~= tool_starts(b));
    } else {
        assert((a + b).skip(1) =~= a.skip(1) + b);
        lemma_tool_starts_concat(a.skip(1), b);
        assert(tool_starts(a + b) =~= tool_starts(a) + tool_starts(b));
    }
}

/// The part fold draws consecutive indices: one per call part, starting at
/// the incoming counter, which ends the fold advanced by the call count.
pub proof fn lemma_parts_tool_starts(
    c: GenCore,
    parts: Seq<PartV>,
    ids: Seq<Seq<char>>,
    est: bool,
    i: int,
)
    requires
        0 <= i <= parts.len(),
        c.idx as int + spec_call_count(parts, i) <= u32::MAX,
    ensures
        ({
            let (evs, post, _) = spec_parts(c, parts, ids, est, i);
            let ts = tool_starts(evs);
            &&& post.idx as int == c.idx as int + spec_call_count(parts, i)
            &&& ts.len() == spec_call_count(parts, i)
            &&& forall|j: int| 0 <= j < ts.len() ==> #[trigger] ts[j] as int == c.idx as int + j
        }),
    decreases i,
{
    reveal(spec_parts);
    lemma_call_count_bounds(parts, i);
    if i > 0 {
        lemma_call_count_bounds(parts, i - 1);
        lemma_parts_tool_starts(c, parts, ids, est, i - 1);
        let (evs, c1, _) = spec_parts(c, parts, ids, est, i - 1);
        let cc = spec_call_count(parts, i - 1);
        let tid = if 0 <= cc < ids.len() {
            ids[cc]
        } else {
            Seq::empty()
        };
        let (evs2, c2, _) = spec_part_step(c1, parts[i - 1], tid, est);
        lemma_tool_starts_concat(evs, evs2);
        if spec_part_is_call(parts[i - 1]) {
            assert(tool_starts(evs2) =~= seq![c1.idx]) by {
                reveal_with_fuel(tool_starts, 5);
                assert(evs2.skip(1)[0] == evs2[1]);
                assert(evs2.skip(1).skip(1) =~= evs2.skip(2));
                assert(evs2.skip(2)[0] == evs2[2]);
                assert(evs2.skip(2).skip(1) =~= evs2.skip(3));
                assert(evs2.skip(3) =~= Seq::<EventV>::empty());
            }
        } else {
            assert(tool_starts(evs2) =~= Seq::<u32>::empty()) by {
                reveal_with_fuel(tool_starts, 5);
                if evs2.len() > 0 {
                    assert(evs2.skip(1) =~= Seq::<EventV>::empty());
                }
            }
        }
    }
}

/// The machine's running invariant: the block counter is zero until the
/// header goes out, and at least one (the text block's successor) after.
pub open spec fn machine_inv(c: GenCore) -> bool {
    if c.header_sent {
        c.idx >= 1
    } else {
        c.idx == 0
    }
}

/// The function calls of a chunk's first candidate.
pub open spec fn chunk_calls(chunk: ChunkV) -> int {
    if chunk.candidates.len() > 0 {
        match chunk.candidates[0].content {
            Some(ct) => spec_call_count(ct.parts, ct.parts.len() as int),
            None => 0,
        }
    } else {
        0
    }
}

/// The function calls of the first `i` chunks.
pub open spec fn total_calls(chunks: Seq<ChunkV>, i: int) -> int
    decreases i,
{
    if i <= 0 || chunks.len() < i {
        0
    } else {
        total_calls(chunks, i - 1) + chunk_calls(chunks[i - 1])
    }
}

proof fn lemma_calls_meaningful(chunk: ChunkV)
    requires
        chunk_calls(chunk) > 0,
    ensures
        spec_meaningful(chunk),
{
    let ct = chunk.candidates[0].content->Some_0;
    let j = lemma_call_position(ct.parts, ct.parts.len() as int);
    assert(spec_part_meaningful(ct.parts[j]));
}

proof fn lemma_call_position(parts: Seq<PartV>, i: int) -> (j: int)
    requires
        0 <= i <= parts.len(),
        spec_call_count(parts, i) > 0,
    ensures
        0 <= j < i,
        spec_part_is_call(parts[j]),
    decreases i,
{
    if spec_part_is_call(parts[i - 1]) {
        i - 1
    } else {
        lemma_call_position(parts, i - 1)
    }
}

proof fn lemma_chunk_calls_nonneg(chunk: ChunkV)
    ensures
        chunk_calls(chunk) >= 0,
{
    if chunk.candidates.len() > 0 {
        match chunk.candidates[0].content {
            Some(ct) => {
                lemma_call_count_bounds(ct.parts, ct.parts.len() as int);
            },
            None => {},
        }
    }
}

proof fn lemma_total_calls_mono(chunks: Seq<ChunkV>, a: int, b: int)
    requires
        a <= b <= chunks.len(),
    ensures
        total_calls(chunks, a) <= total_calls(chunks, b),
    decreases b - a,
{
    if a < b {
        lemma_total_calls_mono(chunks, a, b - 1);
        if 0 < b <= chunks.len() {
            if chunks[b - 1].candidates.len() > 0 {
                match chunks[b - 1].candidates[0].content {
                    Some(ct) => {
                        lemma_call_count_bounds(ct.parts, ct.parts.len() as int);
                    },
                    None => {},
                }
            }
        }
    }
}

proof fn lemma_total_calls_nonneg(chunks: Seq<ChunkV>, i: int)
    ensures
        total_calls(chunks, i) >= 0,
    decreases i,
{
    if 0 < i <= chunks.len() {
        lemma_total_calls_nonneg(chunks, i - 1);
        if chunks[i - 1].candidates.len() > 0 {
            match chunks[i - 1].candidates[0].content {
                Some(ct) => {
                    lemma_call_count_bounds(ct.parts, ct.parts.len() as int);
                },
                None => {},
            }
        }
    }
}

/// One step's indices: every tool block of the step draws a fresh index at
/// or above the incoming counter; the counter never falls and ends at the
/// header-adjusted base plus the chunk's call count.
pub proof fn lemma_step_tool_starts(
    pre: GenCore,
    chunk: ChunkV,
    msg_id: Seq<char>,
    tool_ids: Seq<Seq<char>>,
)
    requires
        machine_inv(pre),
        (if pre.header_sent {
            pre.idx as int
        } else {
            1int
        }) + chunk_calls(chunk) <= u32::MAX,
    ensures
        ({
            let (evs, post, _) = spec_gen(pre, chunk, msg_id, tool_ids);
            let ts = tool_starts(evs);
            &&& machine_inv(post)
            &&& (pre.header_sent ==> post.header_sent)
            &&& post.idx >= pre.idx
            &&& post.idx as int <= (if pre.header_sent {
                pre.idx as int
            } else {
                1int
            }) + chunk_calls(chunk)
            &&& ts.len() == if pre.done {
                0int
            } else {
                chunk_calls(chunk)
            }
            &&& (forall|j1: int, j2: int|
                0 <= j1 < j2 < ts.len() ==> (#[trigger] ts[j1]) < (#[trigger] ts[j2]))
            &&& (forall|j: int|
                0 <= j < ts.len() ==> pre.idx <= #[trigger] ts[j] && 1 <= ts[j] && (
                ts[j] as int) < (post.idx as int))
        }),
{
    reveal(spec_gen);
    if pre.done {
        lemma_chunk_calls_nonneg(chunk);
        assert(tool_starts(Seq::<EventV>::empty()) =~= Seq::<u32>::empty());
    } else {
        assert(spec_gen(pre, chunk, msg_id, tool_ids) == spec_gen_live(
            pre,
            chunk,
            msg_id,
            tool_ids,
        ));
        let (evs, post, _) = spec_gen(pre, chunk, msg_id, tool_ids);
        let in2 = upd_input(pre.input_tokens, chunk);
        let out2 = upd_output(pre.output_tokens, chunk);
        let core0 = GenCore { input_tokens: in2, output_tokens: out2, ..pre };
        let (hdr, core1) = if !core0.header_sent && spec_meaningful(chunk) {
            (header_events(core0, in2, msg_id), GenCore { header_sent: true, idx: 1, ..core0 })
        } else {
            (Seq::<EventV>::empty(), core0)
        };
        assert(tool_starts(hdr) =~= Seq::<u32>::empty()) by {
            reveal_with_fuel(tool_starts, 5);
            if hdr.len() > 0 {
                assert(hdr.skip(1)[0] == hdr[1]);
                assert(hdr.skip(1).skip(1) =~= hdr.skip(2));
                assert(hdr.skip(2) =~= Seq::<EventV>::empty());
            }
        }
        if chunk.candidates.len() == 0 {
        } else {
            let cand = chunk.candidates[0];
            match cand.content {
                Some(ct) => {
                    lemma_call_count_bounds(ct.parts, ct.parts.len() as int);
                    lemma_parts_tool_starts(core1, ct.parts, tool_ids, needs_estimate(chunk),
                        ct.parts.len() as int);
                    lemma_parts_preserves(core1, ct.parts, tool_ids, needs_estimate(chunk),
                        ct.parts.len() as int);
                },
                None => {},
            }
            let (pevs, core2, _) = match cand.content {
                Some(ct) => spec_parts(core1, ct.parts, tool_ids, needs_estimate(chunk),
                    ct.parts.len() as int),
                None => (Seq::<EventV>::empty(), core1, Seq::<RegV>::empty()),
            };
            if !core1.header_sent && chunk_calls(chunk) > 0 {
                lemma_calls_meaningful(chunk);
            }
            match cand.finish {
                None => {
                    lemma_tool_starts_concat(hdr, pevs);
                },
                Some(reason) => {
                    let (hdr2, core3) = if !core2.header_sent {
                        (
                            header_events(core2, in2, msg_id),
                            GenCore { header_sent: true, idx: 1, ..core2 },
                        )
                    } else {
                        (Seq::<EventV>::empty(), core2)
                    };
                    let has_call = spec_chunk_has_call(chunk);
                    let stop = if has_call {
                        ("tool_use")@
                    } else {
                        spec_map_finish(reason)
                    };
                    let tail = (if !has_call {
                        seq![EventV::CbStop { index: 0 }]
                    } else {
                        Seq::<EventV>::empty()
                    }) + seq![
                        EventV::MsgDelta { reason: stop, output_tokens: core3.output_tokens },
                        EventV::MsgStop,
                    ];
                    assert(tool_starts(hdr2) =~= Seq::<u32>::empty()) by {
                        reveal_with_fuel(tool_starts, 5);
                        if hdr2.len() > 0 {
                            assert(hdr2.skip(1)[0] == hdr2[1]);
                            assert(hdr2.skip(1).skip(1) =~= hdr2.skip(2));
                            assert(hdr2.skip(2) =~= Seq::<EventV>::empty());
                        }
                    }
                    assert(tool_starts(tail) =~= Seq::<u32>::empty()) by {
                        assert forall|p: int|
                            0 <= p < tail.len() implies !((#[trigger] tail[p]) is CbStartTool) by {}
                        lemma_tool_starts_none(tail);
                    }
                    lemma_tool_starts_concat(hdr, pevs);
                    lemma_tool_starts_concat(hdr + pevs, hdr2);
                    lemma_tool_starts_concat(hdr + pevs + hdr2, tail);
                },
            }
        }
    }
}

proof fn lemma_tool_starts_none(evs: Seq<EventV>)
    requires
        forall|p: int| 0 <= p < evs.len() ==> !((#[trigger] evs[p]) is CbStartTool),
    ensures
        tool_starts(evs) == Seq::<u32>::empty(),
    decreases evs.len(),
{
    if evs.len() > 0 {
        assert forall|p: int|
            0 <= p < evs.skip(1).len() implies !((#[trigger] evs.skip(1)[p]) is CbStartTool) by {
            assert(evs.skip(1)[p] == evs[p + 1]);
        }
        lemma_tool_starts_none(evs.skip(1));
        assert(tool_starts(evs) =~= Seq::<u32>::empty());
    } else {
        reveal_with_fuel(tool_starts, 2);
    }
}

/// Across a whole connection that never exhausts the block counter: the
/// tool-use block indices, in emission order, are strictly increasing — no
/// index is ever reused for a later block.
pub proof fn lemma_tool_index_monotonicity(
    pre: GenCore,
    chunks: Seq<ChunkV>,
    msg_ids: Seq<Seq<char>>,
    tool_idss: Seq<Seq<Seq<char>>>,
    i: int,
)
    requires
        0 <= i <= chunks.len(),
        machine_inv(pre),
        pre.idx as int + 1 + total_calls(chunks, chunks.len() as int) <= u32::MAX,
    ensures
        ({
            let (evs, post) = spec_run(pre, chunks, msg_ids, tool_idss, i);
            let ts = tool_starts(evs);
            &&& machine_inv(post)
            &&& (pre.header_sent ==> post.header_sent)
            &&& post.idx >= pre.idx
            &&& post.idx as int <= pre.idx as int + total_calls(chunks, i) + (
            if pre.header_sent {
                0int
            } else {
                1int
            })
            &&& (forall|j1: int, j2: int|
                0 <= j1 < j2 < ts.len() ==> (#[trigger] ts[j1]) < (#[trigger] ts[j2]))
            &&& (forall|j: int|
                0 <= j < ts.len() ==> 1 <= #[trigger] ts[j] && (ts[j] as int)
                    < post.idx as int)
        }),
    decreases i,
{
    lemma_total_calls_nonneg(chunks, i);
    if i > 0 {
        lemma_total_calls_nonneg(chunks, i - 1);
        lemma_tool_index_monotonicity(pre, chunks, msg_ids, tool_idss, i - 1);
        let (evs1, mid) = spec_run(pre, chunks, msg_ids, tool_idss, i - 1);
        let gm = if 0 <= i - 1 < msg_ids.len() {
            msg_ids[i - 1]
        } else {
            Seq::empty()
        };
        let gt = if 0 <= i - 1 < tool_idss.len() {
            tool_idss[i - 1]
        } else {
            Seq::empty()
        };
        lemma_total_calls_mono(chunks, i - 1, chunks.len() as int);
        lemma_total_calls_mono(chunks, i, chunks.len() as int);
        assert(chunk_calls(chunks[i - 1]) == total_calls(chunks, i) - total_calls(
            chunks,
            i - 1,
        ));
        lemma_step_tool_starts(mid, chunks[i - 1], gm, gt);
        let (evs2, post, _) = spec_gen(mid, chunks[i - 1], gm, gt);
        lemma_tool_starts_concat(evs1, evs2);
        let ts1 = tool_starts(evs1);
        let ts2 = tool_starts(evs2);
        let ts = tool_starts(evs1 + evs2);
        assert forall|j1: int, j2: int|
            0 <= j1 < j2 < ts.len() implies (#[trigger] ts[j1]) < (#[trigger] ts[j2]) by {
            if j2 < ts1.len() {
                assert(ts[j1] == ts1[j1] && ts[j2] == ts1[j2]);
            } else if j1 >= ts1.len() {
                assert(ts[j1] == ts2[j1 - ts1.len()] && ts[j2] == ts2[j2 - ts1.len()]);
            } else {
                assert(ts[j1] == ts1[j1] && ts[j2] == ts2[j2 - ts1.len()]);
                assert((ts1[j1] as int) < mid.idx as int);
                assert(mid.idx <= ts2[j2 - ts1.len()]);
            }
        }
        assert forall|j: int| 0 <= j < ts.len() implies (#[trigger] ts[j] as int)
            < post.idx as int by {
            if j < ts1.len() {
                assert(ts[j] == ts1[j]);
            } else {
                assert(ts[j] == ts2[j - ts1.len()]);
            }
        }
    } else {
        assert(spec_run(pre, chunks, msg_ids, tool_idss, 0).0 =~= Seq::<EventV>::empty());
    }
}


/// Every tool-use block is a complete triple: its `content_block_start` is
/// followed at once by the `input_json_delta` and the `content_block_stop`
/// of the same index.
pub open spec fn tool_triples_ok(evs: Seq<EventV>) -> bool {
    forall|p: int|
        0 <= p < evs.len() && (#[trigger] evs[p]) is CbStartTool ==> {
            &&& p + 2 < evs.len()
            &&& evs[p + 1] is CbInputDelta
            &&& evs[p + 2] is CbStop
            &&& evs[p + 1]->CbInputDelta_index == evs[p]->CbStartTool_index
            &&& evs[p + 2]->CbStop_index == evs[p]->CbStartTool_index
        }
}

/// Complete triples stay complete under concatenation.
proof fn lemma_triples_concat(a: Seq<EventV>, b: Seq<EventV>)
    requires
        tool_triples_ok(a),
        tool_triples_ok(b),
    ensures
        tool_triples_ok(a + b),
{
    let c = a + b;
    assert forall|p: int|
        0 <= p < c.len() && (#[trigger] c[p]) is CbStartTool implies {
        &&& p + 2 < c.len()
        &&& c[p + 1] is CbInputDelta
        &&& c[p + 2] is CbStop
        &&& c[p + 1]->CbInputDelta_index == c[p]->CbStartTool_index
        &&& c[p + 2]->CbStop_index == c[p]->CbStartTool_index
    } by {
        if p < a.len() {
            assert(c[p] == a[p]);
            assert(c[p + 1] == a[p + 1]);
            assert(c[p + 2] == a[p + 2]);
        } else {
            assert(c[p] == b[p - a.len()]);
            assert(c[p + 1] == b[p + 1 - a.len()]);
            assert(c[p + 2] == b[p + 2 - a.len()]);
        }
    }
}

/// A list without tool-use starts trivially holds complete triples.
proof fn lemma_triples_none(evs: Seq<EventV>)
    requires
        forall|p: int| 0 <= p < evs.len() ==> !((#[trigger] evs[p]) is CbStartTool),
    ensures
        tool_triples_ok(evs),
{
}

/// The part fold emits tool-use blocks only as complete triples.
proof fn lemma_parts_triples(
    c: GenCore,
    parts: Seq<PartV>,
    ids: Seq<Seq<char>>,
    est: bool,
    i: int,
)
    ensures
        tool_triples_ok(spec_parts(c, parts, ids, est, i).0),
    decreases i,
{
    reveal(spec_parts);
    if 0 < i <= parts.len() {
        lemma_parts_triples(c, parts, ids, est, i - 1);
        let (evs, c1, _) = spec_parts(c, parts, ids, est, i - 1);
        let cc = spec_call_count(parts, i - 1);
        let tid = if 0 <= cc < ids.len() {
            ids[cc]
        } else {
            Seq::empty()
        };
        let (evs2, _, _) = spec_part_step(c1, parts[i - 1], tid, est);
        assert(tool_triples_ok(evs2)) by {
            if spec_part_is_call(parts[i - 1]) {
                assert forall|p: int|
                    0 <= p < evs2.len() && (#[trigger] evs2[p]) is CbStartTool implies {
                    &&& p + 2 < evs2.len()
                    &&& evs2[p + 1] is CbInputDelta
                    &&& evs2[p + 2] is CbStop
                    &&& evs2[p + 1]->CbInputDelta_index == evs2[p]->CbStartTool_index
                    &&& evs2[p + 2]->CbStop_index == evs2[p]->CbStartTool_index
                } by {
                    assert(p == 0);
                }
            } else {
                lemma_triples_none(evs2);
            }
        }
        lemma_triples_concat(evs, evs2);
    } else {
        lemma_triples_none(spec_parts(c, parts, ids, est, i).0);
    }
}

/// One step emits tool-use blocks only as complete triples.
pub proof fn lemma_step_triples(
    pre: GenCore,
    chunk: ChunkV,
    msg_id: Seq<char>,
    tool_ids: Seq<Seq<char>>,
)
    ensures
        tool_triples_ok(spec_gen(pre, chunk, msg_id, tool_ids).0),
{
    reveal(spec_gen);
    if pre.done {
        lemma_triples_none(spec_gen(pre, chunk, msg_id, tool_ids).0);
    } else {
        assert(spec_gen(pre, chunk, msg_id, tool_ids) == spec_gen_live(
            pre,
            chunk,
            msg_id,
            tool_ids,
        ));
        let in2 = upd_input(pre.input_tokens, chunk);
        let out2 = upd_output(pre.output_tokens, chunk);
        let core0 = GenCore { input_tokens: in2, output_tokens: out2, ..pre };
        let (hdr, core1) = if !core0.header_sent && spec_meaningful(chunk) {
            (header_events(core0, in2, msg_id), GenCore { header_sent: true, idx: 1, ..core0 })
        } else {
            (Seq::<EventV>::empty(), core0)
        };
        lemma_triples_none(hdr);
        if chunk.candidates.len() == 0 {
        } else {
            let cand = chunk.candidates[0];
            let (pevs, core2, _) = match cand.content {
                Some(ct) => spec_parts(core1, ct.parts, tool_ids, needs_estimate(chunk),
                    ct.parts.len() as int),
                None => (Seq::<EventV>::empty(), core1, Seq::<RegV>::empty()),
            };
            match cand.content {
                Some(ct) => {
                    lemma_parts_triples(core1, ct.parts, tool_ids, needs_estimate(chunk),
                        ct.parts.len() as int);
                },
                None => {
                    lemma_triples_none(pevs);
                },
            }
            lemma_triples_concat(hdr, pevs);
            match cand.finish {
                None => {},
                Some(reason) => {
                    let (hdr2, core3) = if !core2.header_sent {
                        (
                            header_events(core2, in2, msg_id),
                            GenCore { header_sent: true, idx: 1, ..core2 },
                        )
                    } else {
                        (Seq::<EventV>::empty(), core2)
                    };
                    let has_call = spec_chunk_has_call(chunk);
                    let stop = if has_call {
                        ("tool_use")@
                    } else {
                        spec_map_finish(reason)
                    };
                    let tail = (if !has_call {
                        seq![EventV::CbStop { index: 0 }]
                    } else {
                        Seq::<EventV>::empty()
                    }) + seq![
                        EventV::MsgDelta { reason: stop, output_tokens: core3.output_tokens },
                        EventV::MsgStop,
                    ];
                    lemma_triples_none(hdr2);
                    lemma_triples_none(tail);
                    lemma_triples_concat(hdr + pevs, hdr2);
                    lemma_triples_concat(hdr + pevs + hdr2, tail);
                },
            }
        }
    }
}

/// Across a whole connection, every tool-use block goes out as a complete
/// start/delta/stop triple under one index.
pub proof fn lemma_tool_block_triples(
    pre: GenCore,
    chunks: Seq<ChunkV>,
    msg_ids: Seq<Seq<char>>,
    tool_idss: Seq<Seq<Seq<char>>>,
    i: int,
)
    requires
        0 <= i <= chunks.len(),
    ensures
        tool_triples_ok(spec_run(pre, chunks, msg_ids, tool_idss, i).0),
    decreases i,
{
    if i > 0 {
        lemma_tool_block_triples(pre, chunks, msg_ids, tool_idss, i - 1);
        let (evs1, mid) = spec_run(pre, chunks, msg_ids, tool_idss, i - 1);
        let gm = if 0 <= i - 1 < msg_ids.len() {
            msg_ids[i - 1]
        } else {
            Seq::empty()
        };
        let gt = if 0 <= i - 1 < tool_idss.len() {
            tool_idss[i - 1]
        } else {
            Seq::empty()
        };
        lemma_step_triples(mid, chunks[i - 1], gm, gt);
        lemma_triples_concat(evs1, spec_gen(mid, chunks[i - 1], gm, gt).0);
    } else {
        lemma_triples_none(spec_run(pre, chunks, msg_ids, tool_idss, i).0);
    }
}


} // verus!
