//! Data model of the client dialect: requests, messages, content blocks,
//! tool declarations and schemas, and the shapes of the SSE event bodies.
//!
//! Sampling parameters that the wire carries as decimal fractions
//! (`temperature`, `top_p`) are held in thousandths, so that the model stays
//! within exact integer arithmetic.

use crate::json::{spec_ser, JsonV, JsonValue};
use crate::text::{escape_chars, escape_text, i64_to_string, spec_i64_digits};
use vstd::prelude::*;

verus! {

broadcast use vstd::seq::group_seq_axioms, vstd::std_specs::vec::group_vec_axioms;

/// One block of structured message content.
pub enum ContentBlock {
    Text { text: String },
    ToolUse { id: String, name: String, input: JsonValue },
    ToolResult { tool_use_id: String, content: String, is_error: Option<bool> },
}

/// Message content: either plain text or a list of blocks.
pub enum ContentType {
    Text(String),
    Blocks(Vec<ContentBlock>),
}

/// A message of the conversation history.
pub struct ClaudeMessage {
    pub role: String,
    pub content: ContentType,
}

/// The system prompt: plain text or a list of blocks, of which only the
/// text blocks count.
pub enum SystemPrompt {
    Text(String),
    Blocks(Vec<ContentBlock>),
}

/// A JSON-schema subset for tool parameter declarations.
pub struct JsonSchema {
    pub schema_type: String,
    pub description: Option<String>,
    pub properties: Option<Vec<(String, Box<JsonSchema>)>>,
    pub required: Option<Vec<String>>,
    pub enum_values: Option<Vec<JsonValue>>,
    pub items: Option<Box<JsonSchema>>,
    pub minimum: Option<i64>,
    pub maximum: Option<i64>,
    pub pattern: Option<String>,
    /// Fields the client sent that the upstream dialect does not know.
    /// They are carried along but never serialized toward upstream.
    pub additional: Vec<(String, JsonValue)>,
}

/// A tool offered to the model.
pub struct ClaudeTool {
    pub name: String,
    pub description: String,
    pub input_schema: JsonSchema,
}

/// A chat-completion request in the client dialect.
pub struct ClaudeRequest {
    pub model: String,
    pub messages: Vec<ClaudeMessage>,
    pub system: Option<SystemPrompt>,
    pub max_tokens: Option<u32>,
    /// Thousandths: 700 stands for 0.7.
    pub temperature: Option<i32>,
    pub stop_sequences: Option<Vec<String>>,
    pub stream: bool,
    /// Thousandths: 950 stands for 0.95.
    pub top_p: Option<i32>,
    pub top_k: Option<u32>,
    pub tools: Option<Vec<ClaudeTool>>,
}

/// Token counts reported to the client.
pub struct UsageInfo {
    pub input_tokens: u32,
    pub output_tokens: u32,
}

/// Body of a `message_start` event.
pub struct MessageMetadata {
    pub id: String,
    pub msg_type: String,
    pub role: String,
    pub model: String,
    pub content: Vec<JsonValue>,
    pub stop_reason: Option<String>,
    pub stop_sequence: Option<String>,
    pub usage: UsageInfo,
}

/// Body of a `content_block_start` event for a text block.
pub struct ContentBlockMetadata {
    pub block_type: String,
    pub text: String,
}

/// A streamed content delta.
pub enum Delta {
    TextDelta { text: String },
}

/// Body of a `message_delta` event.
pub struct MessageDeltaData {
    pub stop_reason: Option<String>,
    pub stop_sequence: Option<String>,
}

/// Body of an `error` event.
pub struct ErrorInfo {
    pub error_type: String,
    pub message: String,
}

/// The schema fields that may be serialized toward upstream, as escaped key
/// characters.
pub open spec fn schema_whitelist() -> Set<Seq<char>> {
    set![
        seq!['t', 'y', 'p', 'e'],
        seq!['d', 'e', 's', 'c', 'r', 'i', 'p', 't', 'i', 'o', 'n'],
        seq!['p', 'r', 'o', 'p', 'e', 'r', 't', 'i', 'e', 's'],
        seq!['r', 'e', 'q', 'u', 'i', 'r', 'e', 'd'],
        seq!['e', 'n', 'u', 'm'],
        seq!['i', 't', 'e', 'm', 's'],
        seq!['m', 'i', 'n', 'i', 'm', 'u', 'm'],
        seq!['m', 'a', 'x', 'i', 'm', 'u', 'm'],
        seq!['p', 'a', 't', 't', 'e', 'r', 'n'],
    ]
}

/// JSON string views of the first `i` names, in order.
pub open spec fn req_strs_json(req: Seq<String>, i: int) -> Seq<JsonV>
    decreases i,
{
    if i <= 0 || req.len() < i {
        Seq::empty()
    } else {
        req_strs_json(req, i - 1).push(JsonV::Str(escape_chars(req[i - 1]@)))
    }
}

pub proof fn lemma_req_strs_json(req: Seq<String>, i: int)
    requires
        0 <= i <= req.len(),
    ensures
        req_strs_json(req, i).len() == i,
        forall|k: int|
            0 <= k < i ==> #[trigger] req_strs_json(req, i)[k] == JsonV::Str(escape_chars(
                req[k]@,
            )),
    decreases i,
{
    if i > 0 {
        lemma_req_strs_json(req, i - 1);
    }
}

#[via_fn]
proof fn spec_schema_json_dec(s: JsonSchema) {
    broadcast use vstd::std_specs::vec::group_vec_axioms;

    if let Some(props) = s.properties {
        assert(decreases_to!(s => props));
        assert(decreases_to!(props => props@));
    }
    if let Some(items) = s.items {
        assert(decreases_to!(s => items));
    }
}

#[via_fn]
proof fn schema_props_json_dec(props: Seq<(String, Box<JsonSchema>)>, i: int) {
    broadcast use vstd::seq::group_seq_axioms;

    if 0 < i <= props.len() {
        assert(decreases_to!(props => props[i - 1]));
        assert(decreases_to!(props[i - 1] => props[i - 1].1));
    }
}

/// Serialized forms of the first `i` properties, in order.
pub open spec fn schema_props_json(props: Seq<(String, Box<JsonSchema>)>, i: int) -> Seq<
    (Seq<char>, JsonV),
>
    decreases props, i,
    via schema_props_json_dec
{
    if i <= 0 || props.len() < i {
        Seq::empty()
    } else {
        schema_props_json(props, i - 1).push(
            (escape_chars(props[i - 1].0@), spec_schema_json(*props[i - 1].1)),
        )
    }
}

pub proof fn lemma_schema_props_json(props: Seq<(String, Box<JsonSchema>)>, i: int)
    requires
        0 <= i <= props.len(),
    ensures
        schema_props_json(props, i).len() == i,
        forall|k: int|
            0 <= k < i ==> #[trigger] schema_props_json(props, i)[k] == (
                escape_chars(props[k].0@),
                spec_schema_json(*props[k].1),
            ),
    decreases i,
{
    reveal(spec_schema_json);
    if i > 0 {
        lemma_schema_props_json(props, i - 1);
    }
}

/// The JSON tree that serializing a schema toward upstream produces: only
/// the whitelisted fields, in a fixed order.
#[verifier::opaque]
pub open spec fn spec_schema_json(s: JsonSchema) -> JsonV
    decreases s,
    via spec_schema_json_dec
{
    let e = seq![(seq!['t', 'y', 'p', 'e'], JsonV::Str(escape_chars(s.schema_type@)))];
    let e = match s.description {
        Some(d) => e.push(
            (
                seq!['d', 'e', 's', 'c', 'r', 'i', 'p', 't', 'i', 'o', 'n'],
                JsonV::Str(escape_chars(d@)),
            ),
        ),
        None => e,
    };
    let e = match s.properties {
        Some(props) => e.push(
            (
                seq!['p', 'r', 'o', 'p', 'e', 'r', 't', 'i', 'e', 's'],
                JsonV::Obj(schema_props_json(props@, props@.len() as int)),
            ),
        ),
        None => e,
    };
    let e = match s.required {
        Some(req) => e.push(
            (
                seq!['r', 'e', 'q', 'u', 'i', 'r', 'e', 'd'],
                JsonV::Arr(req_strs_json(req@, req@.len() as int)),
            ),
        ),
        None => e,
    };
    let e = match s.enum_values {
        Some(vals) => e.push(
            (
                seq!['e', 'n', 'u', 'm'],
                JsonV::Arr(crate::json::arr_views(vals@, vals@.len() as int)),
            ),
        ),
        None => e,
    };
    let e = match s.items {
        Some(items) => e.push((seq!['i', 't', 'e', 'm', 's'], spec_schema_json(*items))),
        None => e,
    };
    let e = match s.minimum {
        Some(m) => e.push(
            (seq!['m', 'i', 'n', 'i', 'm', 'u', 'm'], JsonV::Num(spec_i64_digits(m as int))),
        ),
        None => e,
    };
    let e = match s.maximum {
        Some(m) => e.push(
            (seq!['m', 'a', 'x', 'i', 'm', 'u', 'm'], JsonV::Num(spec_i64_digits(m as int))),
        ),
        None => e,
    };
    let e = match s.pattern {
        Some(p) => e.push((seq!['p', 'a', 't', 't', 'e', 'r', 'n'], JsonV::Str(escape_chars(p@)))),
        None => e,
    };
    JsonV::Obj(e)
}

/// Every key of the serialized schema object is on the whitelist, and the
/// nested schemas under `properties` and `items` obey the same rule.
pub open spec fn schema_json_hygienic(v: JsonV) -> bool {
    v matches JsonV::Obj(entries) && forall|i: int|
        0 <= i < entries.len() ==> schema_whitelist().contains(#[trigger] entries[i].0)
}

#[verifier::rlimit(60)]
pub proof fn lemma_schema_json_hygienic(s: JsonSchema)
    ensures
        schema_json_hygienic(spec_schema_json(s)),
{
    reveal(spec_schema_json);
    let entries = spec_schema_json(s)->Obj_0;
    assert forall|i: int| 0 <= i < entries.len() implies schema_whitelist().contains(
        entries[i].0,
    ) by {
    }
}

impl JsonSchema {
    /// The JSON value this schema serializes to toward upstream: the
    /// whitelisted fields and nothing else. Any `additional` fields the
    /// client sent are dropped here.
    #[verifier::rlimit(100)]
    pub fn to_json(&self) -> (r: JsonValue)
        ensures
            r@ == spec_schema_json(*self),
        decreases *self,
    {
        let mut entries: Vec<(String, JsonValue)> = Vec::new();
        let ghost mut ge: Seq<(Seq<char>, JsonV)> = Seq::empty();
        proof {
            crate::json::lemma_obj_views(entries@, 0);
            assert(crate::json::obj_views(entries@, entries@.len() as int) =~= ge);
        }
        let ghost pre0 = entries@;
        entries.push((String::from_str("type"), JsonValue::Str(escape_text(
            self.schema_type.as_str(),
        ))));
        proof {
            reveal_strlit("type");
            assert(("type")@ =~= seq!['t', 'y', 'p', 'e']);
            ge = ge.push((seq!['t', 'y', 'p', 'e'], JsonV::Str(escape_chars(self.schema_type@))));
            assert(entries@.drop_last() =~= pre0);
            crate::json::lemma_obj_views_last(entries@);
            assert(crate::json::obj_views(entries@, entries@.len() as int) =~= ge);
        }
        if let Some(d) = &self.description {
            let ghost pre = entries@;
            entries.push((String::from_str("description"), JsonValue::Str(escape_text(
                d.as_str(),
            ))));
            proof {
                reveal_strlit("description");
                assert(("description")@ =~= seq![
                    'd', 'e', 's', 'c', 'r', 'i', 'p', 't', 'i', 'o', 'n',
                ]);
                ge = ge.push((
                    seq!['d', 'e', 's', 'c', 'r', 'i', 'p', 't', 'i', 'o', 'n'],
                    JsonV::Str(escape_chars(d@)),
                ));
                assert(entries@.drop_last() =~= pre);
                crate::json::lemma_obj_views_last(entries@);
                assert(crate::json::obj_views(entries@, entries@.len() as int) =~= ge);
            }
        }
        if let Some(props) = &self.properties {
            let mut prop_entries: Vec<(String, JsonValue)> = Vec::new();
            let mut i: usize = 0;
            while i < props.len()
                invariant
                    0 <= i <= props@.len(),
                    *props == self.properties->Some_0,
                    self.properties is Some,
                    prop_entries@.len() == i,
                    forall|k: int|
                        0 <= k < i ==> (#[trigger] prop_entries@[k]).0@ == escape_chars(
                            props@[k].0@,
                        ) && prop_entries@[k].1@ == spec_schema_json(*props@[k].1),
                decreases props@.len() - i,
            {
                let key = escape_text(props[i].0.as_str());
                proof {
                    let se = *self;
                    assert(decreases_to!(se => se.properties));
                    assert(decreases_to!(se.properties => se.properties->Some_0));
                    assert(se.properties->Some_0 == *props);
                    assert(decreases_to!(*props => props@));
                    assert(decreases_to!(props@ => props@[i as int]));
                    assert(decreases_to!(props@[i as int] => props@[i as int].1));
                }
                let val = props[i].1.to_json();
                prop_entries.push((key, val));
                i = i + 1;
            }
            let ghost pre = entries@;
            let ghost gprops = prop_entries@;
            entries.push((String::from_str("properties"), JsonValue::Obj(prop_entries)));
            proof {
                reveal_strlit("properties");
                assert(("properties")@ =~= seq!['p', 'r', 'o', 'p', 'e', 'r', 't', 'i', 'e', 's']);
                lemma_schema_props_json(props@, props@.len() as int);
                crate::json::lemma_obj_views(gprops, gprops.len() as int);
                assert(crate::json::obj_views(gprops, gprops.len() as int) =~= schema_props_json(
                    props@,
                    props@.len() as int,
                ));
                ge = ge.push((
                    seq!['p', 'r', 'o', 'p', 'e', 'r', 't', 'i', 'e', 's'],
                    JsonV::Obj(schema_props_json(props@, props@.len() as int)),
                ));
                assert(entries@.drop_last() =~= pre);
                crate::json::lemma_obj_views_last(entries@);
                assert(crate::json::obj_views(entries@, entries@.len() as int) =~= ge);
            }
        }
        if let Some(req) = &self.required {
            let mut req_items: Vec<JsonValue> = Vec::new();
            let mut i: usize = 0;
            while i < req.len()
                invariant
                    0 <= i <= req@.len(),
                    req_items@.len() == i,
                    forall|k: int|
                        0 <= k < i ==> #[trigger] crate::json::view_of(req_items@[k])
                            == JsonV::Str(escape_chars(req@[k]@)),
                decreases req@.len() - i,
            {
                req_items.push(JsonValue::Str(escape_text(req[i].as_str())));
                i = i + 1;
            }
            let ghost pre = entries@;
            proof {
                lemma_req_strs_json(req@, req@.len() as int);
                crate::json::lemma_arr_views(req_items@, req_items@.len() as int);
                assert(crate::json::arr_views(req_items@, req_items@.len() as int)
                    =~= req_strs_json(req@, req@.len() as int));
            }
            entries.push((String::from_str("required"), JsonValue::Arr(req_items)));
            proof {
                reveal_strlit("required");
                assert(("required")@ =~= seq!['r', 'e', 'q', 'u', 'i', 'r', 'e', 'd']);
                ge = ge.push((
                    seq!['r', 'e', 'q', 'u', 'i', 'r', 'e', 'd'],
                    JsonV::Arr(req_strs_json(req@, req@.len() as int)),
                ));
                assert(entries@.drop_last() =~= pre);
                crate::json::lemma_obj_views_last(entries@);
                assert(crate::json::obj_views(entries@, entries@.len() as int) =~= ge);
            }
        }
        if let Some(vals) = &self.enum_values {
            let mut enum_items: Vec<JsonValue> = Vec::new();
            let mut i: usize = 0;
            while i < vals.len()
                invariant
                    0 <= i <= vals@.len(),
                    enum_items@.len() == i,
                    forall|k: int|
                        0 <= k < i ==> #[trigger] crate::json::view_of(enum_items@[k])
                            == crate::json::view_of(vals@[k]),
                decreases vals@.len() - i,
            {
                enum_items.push(vals[i].duplicate());
                i = i + 1;
            }
            let ghost pre = entries@;
            proof {
                crate::json::lemma_arr_views(enum_items@, enum_items@.len() as int);
                crate::json::lemma_arr_views(vals@, vals@.len() as int);
                assert(crate::json::arr_views(enum_items@, enum_items@.len() as int)
                    =~= crate::json::arr_views(vals@, vals@.len() as int));
            }
            entries.push((String::from_str("enum"), JsonValue::Arr(enum_items)));
            proof {
                reveal_strlit("enum");
                assert(("enum")@ =~= seq!['e', 'n', 'u', 'm']);
                ge = ge.push((
                    seq!['e', 'n', 'u', 'm'],
                    JsonV::Arr(crate::json::arr_views(vals@, vals@.len() as int)),
                ));
                assert(entries@.drop_last() =~= pre);
                crate::json::lemma_obj_views_last(entries@);
                assert(crate::json::obj_views(entries@, entries@.len() as int) =~= ge);
            }
        }
        if let Some(items) = &self.items {
            proof {
                let se = *self;
                assert(decreases_to!(se => se.items));
                assert(decreases_to!(se.items => se.items->Some_0));
                assert(se.items->Some_0 == *items);
            }
            let val = (&**items).to_json();
            let ghost pre = entries@;
            entries.push((String::from_str("items"), val));
            proof {
                reveal_strlit("items");
                assert(("items")@ =~= seq!['i', 't', 'e', 'm', 's']);
                ge = ge.push((seq!['i', 't', 'e', 'm', 's'], spec_schema_json(
                    *self.items->Some_0,
                )));
                assert(entries@.drop_last() =~= pre);
                crate::json::lemma_obj_views_last(entries@);
                assert(crate::json::obj_views(entries@, entries@.len() as int) =~= ge);
            }
        }
        if let Some(m) = self.minimum {
            let ghost pre = entries@;
            entries.push((String::from_str("minimum"), JsonValue::Num(i64_to_string(m))));
            proof {
                reveal_strlit("minimum");
                assert(("minimum")@ =~= seq!['m', 'i', 'n', 'i', 'm', 'u', 'm']);
                ge = ge.push((
                    seq!['m', 'i', 'n', 'i', 'm', 'u', 'm'],
                    JsonV::Num(spec_i64_digits(m as int)),
                ));
                assert(entries@.drop_last() =~= pre);
                crate::json::lemma_obj_views_last(entries@);
                assert(crate::json::obj_views(entries@, entries@.len() as int) =~= ge);
            }
        }
        if let Some(m) = self.maximum {
            let ghost pre = entries@;
            entries.push((String::from_str("maximum"), JsonValue::Num(i64_to_string(m))));
            proof {
                reveal_strlit("maximum");
                assert(("maximum")@ =~= seq!['m', 'a', 'x', 'i', 'm', 'u', 'm']);
                ge = ge.push((
                    seq!['m', 'a', 'x', 'i', 'm', 'u', 'm'],
                    JsonV::Num(spec_i64_digits(m as int)),
                ));
                assert(entries@.drop_last() =~= pre);
                crate::json::lemma_obj_views_last(entries@);
                assert(crate::json::obj_views(entries@, entries@.len() as int) =~= ge);
            }
        }
        if let Some(p) = &self.pattern {
            let ghost pre = entries@;
            entries.push((String::from_str("pattern"), JsonValue::Str(escape_text(p.as_str()))));
            proof {
                reveal_strlit("pattern");
                assert(("pattern")@ =~= seq!['p', 'a', 't', 't', 'e', 'r', 'n']);
                ge = ge.push((
                    seq!['p', 'a', 't', 't', 'e', 'r', 'n'],
                    JsonV::Str(escape_chars(p@)),
                ));
                assert(entries@.drop_last() =~= pre);
                crate::json::lemma_obj_views_last(entries@);
                assert(crate::json::obj_views(entries@, entries@.len() as int) =~= ge);
            }
        }
        let r = JsonValue::Obj(entries);
        proof {
            assert(ge == spec_schema_json(*self)->Obj_0) by {
                reveal(spec_schema_json);
            }
            assert(r@->Obj_0 == crate::json::obj_views(entries@, entries@.len() as int));
            assert(r@ == spec_schema_json(*self)) by {
                reveal(spec_schema_json);
            }
        }
        r
    }
}

impl JsonSchema {
    /// A copy that carries the same fields: it validates alike and
    /// serializes to the same JSON.
    pub fn duplicate(&self) -> (r: JsonSchema)
        ensures
            spec_schema_json(r) == spec_schema_json(*self),
            r.schema_type@ == self.schema_type@,
        decreases *self,
    {
        let schema_type = self.schema_type.clone();
        let description = match &self.description {
            Some(d) => Some(d.clone()),
            None => None,
        };
        let properties = match &self.properties {
            Some(props) => {
                let mut out: Vec<(String, Box<JsonSchema>)> = Vec::new();
                let mut i: usize = 0;
                while i < props.len()
                    invariant
                        0 <= i <= props@.len(),
                        *props == self.properties->Some_0,
                        self.properties is Some,
                        out@.len() == i,
                        forall|k: int|
                            0 <= k < i ==> (#[trigger] out@[k]).0@ == props@[k].0@
                                && spec_schema_json(*out@[k].1) == spec_schema_json(
                                *props@[k].1,
                            ),
                    decreases props@.len() - i,
                {
                    proof {
                        let se = *self;
                        assert(decreases_to!(se => se.properties));
                        assert(decreases_to!(se.properties => se.properties->Some_0));
                        assert(se.properties->Some_0 == *props);
                        assert(decreases_to!(*props => props@));
                        assert(decreases_to!(props@ => props@[i as int]));
                        assert(decreases_to!(props@[i as int] => props@[i as int].1));
                    }
                    let copy = props[i].1.duplicate();
                    out.push((props[i].0.clone(), Box::new(copy)));
                    i = i + 1;
                }
                proof {
                    lemma_schema_props_json(out@, out@.len() as int);
                    lemma_schema_props_json(props@, props@.len() as int);
                    assert(schema_props_json(out@, out@.len() as int) =~= schema_props_json(
                        props@,
                        props@.len() as int,
                    ));
                }
                Some(out)
            },
            None => None,
        };
        let required = match &self.required {
            Some(req) => {
                let mut out: Vec<String> = Vec::new();
                let mut i: usize = 0;
                while i < req.len()
                    invariant
                        0 <= i <= req@.len(),
                        out@.len() == i,
                        forall|k: int| 0 <= k < i ==> #[trigger] out@[k]@ == req@[k]@,
                    decreases req@.len() - i,
                {
                    out.push(req[i].clone());
                    i = i + 1;
                }
                proof {
                    lemma_req_strs_json(out@, out@.len() as int);
                    lemma_req_strs_json(req@, req@.len() as int);
                    assert(req_strs_json(out@, out@.len() as int) =~= req_strs_json(
                        req@,
                        req@.len() as int,
                    ));
                }
                Some(out)
            },
            None => None,
        };
        let enum_values = match &self.enum_values {
            Some(vals) => {
                let mut out: Vec<JsonValue> = Vec::new();
                let mut i: usize = 0;
                while i < vals.len()
                    invariant
                        0 <= i <= vals@.len(),
                        out@.len() == i,
                        forall|k: int|
                            0 <= k < i ==> #[trigger] crate::json::view_of(out@[k])
                                == crate::json::view_of(vals@[k]),
                    decreases vals@.len() - i,
                {
                    out.push(vals[i].duplicate());
                    i = i + 1;
                }
                proof {
                    crate::json::lemma_arr_views(out@, out@.len() as int);
                    crate::json::lemma_arr_views(vals@, vals@.len() as int);
                    assert(crate::json::arr_views(out@, out@.len() as int)
                        =~= crate::json::arr_views(vals@, vals@.len() as int));
                }
                Some(out)
            },
            None => None,
        };
        let items = match &self.items {
            Some(b) => {
                proof {
                    let se = *self;
                    assert(decreases_to!(se => se.items));
                    assert(decreases_to!(se.items => se.items->Some_0));
                    assert(se.items->Some_0 == *b);
                }
                Some(Box::new((&**b).duplicate()))
            },
            None => None,
        };
        let pattern = match &self.pattern {
            Some(p) => Some(p.clone()),
            None => None,
        };
        let additional = {
            let mut out: Vec<(String, JsonValue)> = Vec::new();
            let mut i: usize = 0;
            while i < self.additional.len()
                invariant
                    0 <= i <= self.additional@.len(),
                decreases self.additional@.len() - i,
            {
                let entry = &self.additional[i];
                out.push((entry.0.clone(), entry.1.duplicate()));
                i = i + 1;
            }
            out
        };
        let r = JsonSchema {
            schema_type,
            description,
            properties,
            required,
            enum_values,
            items,
            minimum: self.minimum,
            maximum: self.maximum,
            pattern,
            additional,
        };
        proof {
            assert(spec_schema_json(r) =~~= spec_schema_json(*self)) by {
                reveal(spec_schema_json);
            }
        }
        r
    }
}


} // verus!
