//! Structural and parameter-range checks on client requests and tool
//! declarations.

use crate::claude::{ClaudeRequest, ClaudeTool, JsonSchema};
use crate::error::ProxyError;
use crate::text::str_eq;
use vstd::prelude::*;

verus! {

broadcast use vstd::seq::group_seq_axioms, vstd::std_specs::vec::group_vec_axioms;

/// What the validator asks of a request: a non-empty history opened by the
/// user, no two assistant turns in a row, and generation parameters in
/// range. Fractions are in thousandths.
pub open spec fn spec_valid_request(req: ClaudeRequest) -> bool {
    &&& req.messages@.len() > 0
    &&& req.messages@[0].role@ == ("user")@
    &&& forall|i: int|
        0 <= i < req.messages@.len() - 1 ==> !((#[trigger] req.messages@[i]).role@
            == ("assistant")@ && req.messages@[i + 1].role@ == ("assistant")@)
    &&& match req.max_tokens {
        Some(m) => 1 <= m <= 1000000,
        None => true,
    }
    &&& match req.temperature {
        Some(t) => 0 <= t <= 2000,
        None => true,
    }
    &&& match req.top_p {
        Some(p) => 0 <= p <= 1000,
        None => true,
    }
    &&& match req.top_k {
        Some(k) => k != 0,
        None => true,
    }
}

/// Accepts exactly the requests that [`spec_valid_request`] admits.
pub fn validate_claude_request(req: &ClaudeRequest) -> (r: Result<(), ProxyError>)
    ensures
        r is Ok <==> spec_valid_request(*req),
        r matches Err(e) ==> e is InvalidClaudeRequest,
{
    let n = req.messages.len();
    if n == 0 {
        return Err(ProxyError::InvalidClaudeRequest(String::from_str("No messages provided")));
    }
    if !str_eq(req.messages[0].role.as_str(), "user") {
        return Err(ProxyError::InvalidClaudeRequest(String::from_str(
            "First message must be from user",
        )));
    }
    let mut i: usize = 0;
    while i + 1 < n
        invariant
            n == req.messages@.len(),
            0 <= i < n,
            forall|k: int|
                0 <= k < i ==> !((#[trigger] req.messages@[k]).role@ == ("assistant")@
                    && req.messages@[k + 1].role@ == ("assistant")@),
        decreases req.messages@.len() - i,
    {
        if str_eq(req.messages[i].role.as_str(), "assistant") && str_eq(
            req.messages[i + 1].role.as_str(),
            "assistant",
        ) {
            return Err(ProxyError::InvalidClaudeRequest(String::from_str(
                "Cannot have consecutive assistant messages",
            )));
        }
        i = i + 1;
    }
    if let Some(max_tokens) = req.max_tokens {
        if max_tokens == 0 || max_tokens > 1000000 {
            return Err(ProxyError::InvalidClaudeRequest(String::from_str(
                "Invalid max_tokens: must be between 1 and 1,000,000",
            )));
        }
    }
    if let Some(temp) = req.temperature {
        if temp < 0 || temp > 2000 {
            return Err(ProxyError::InvalidClaudeRequest(String::from_str(
                "Invalid temperature: must be between 0.0 and 2.0",
            )));
        }
    }
    if let Some(top_p) = req.top_p {
        if top_p < 0 || top_p > 1000 {
            return Err(ProxyError::InvalidClaudeRequest(String::from_str(
                "Invalid top_p: must be between 0.0 and 1.0",
            )));
        }
    }
    if let Some(top_k) = req.top_k {
        if top_k == 0 {
            return Err(ProxyError::InvalidClaudeRequest(String::from_str(
                "Invalid top_k: 0. Must be greater than 0",
            )));
        }
    }
    Ok(())
}

/// The schema types both dialects know.
pub open spec fn spec_valid_type(t: Seq<char>) -> bool {
    ||| t == ("object")@
    ||| t == ("array")@
    ||| t == ("string")@
    ||| t == ("number")@
    ||| t == ("integer")@
    ||| t == ("boolean")@
    ||| t == ("null")@
}

#[via_fn]
proof fn spec_valid_schema_dec(s: JsonSchema, depth: int) {
    broadcast use vstd::std_specs::vec::group_vec_axioms;

    if let Some(props) = s.properties {
        assert(decreases_to!(s => props));
        assert(decreases_to!(props => props@));
    }
    if let Some(items) = s.items {
        assert(decreases_to!(s => items));
    }
}

#[via_fn]
proof fn spec_valid_props_dec(props: Seq<(String, Box<JsonSchema>)>, i: int, depth: int) {
    broadcast use vstd::seq::group_seq_axioms;

    if 0 < i <= props.len() {
        assert(decreases_to!(props => props[i - 1]));
        assert(decreases_to!(props[i - 1] => props[i - 1].1));
    }
}

/// Validity of the first `i` properties at the given depth: non-empty
/// names, schemas valid one level deeper.
pub open spec fn spec_valid_props(
    props: Seq<(String, Box<JsonSchema>)>,
    i: int,
    depth: int,
) -> bool
    decreases props, i,
    via spec_valid_props_dec
{
    if i <= 0 || props.len() < i {
        true
    } else {
        spec_valid_props(props, i - 1, depth) && props[i - 1].0@.len() > 0 && spec_valid_schema(
            *props[i - 1].1,
            depth + 1,
        )
    }
}

/// What makes a schema valid at nesting level `depth`: nesting at most ten
/// levels, a known type, valid object properties and array items, and a
/// numeric range that is not inverted.
pub open spec fn spec_valid_schema(s: JsonSchema, depth: int) -> bool
    decreases s,
    via spec_valid_schema_dec
{
    &&& depth <= 10
    &&& spec_valid_type(s.schema_type@)
    &&& match s.properties {
        Some(props) => s.schema_type@ == ("object")@ ==> spec_valid_props(
            props@,
            props@.len() as int,
            depth,
        ),
        None => true,
    }
    &&& match s.items {
        Some(items) => s.schema_type@ == ("array")@ ==> spec_valid_schema(*items, depth + 1),
        None => true,
    }
    &&& match (s.minimum, s.maximum) {
        (Some(min), Some(max)) => min <= max,
        _ => true,
    }
}

/// Accepts a schema at `depth` exactly when [`spec_valid_schema`] admits
/// it.
pub fn validate_json_schema(schema: &JsonSchema, depth: usize) -> (r: Result<(), ProxyError>)
    ensures
        r is Ok <==> spec_valid_schema(*schema, depth as int),
        r matches Err(e) ==> e is InvalidClaudeRequest,
    decreases *schema,
{
    if depth > 10 {
        return Err(ProxyError::InvalidClaudeRequest(String::from_str(
            "Schema nesting too deep (max 10)",
        )));
    }
    let t = schema.schema_type.as_str();
    let type_ok = str_eq(t, "object") || str_eq(t, "array") || str_eq(t, "string") || str_eq(
        t,
        "number",
    ) || str_eq(t, "integer") || str_eq(t, "boolean") || str_eq(t, "null");
    if !type_ok {
        return Err(ProxyError::InvalidClaudeRequest(String::from_str("Invalid schema type")));
    }
    if str_eq(schema.schema_type.as_str(), "object") {
        if let Some(props) = &schema.properties {
            let mut i: usize = 0;
            while i < props.len()
                invariant
                    0 <= i <= props@.len(),
                    *props == schema.properties->Some_0,
                    schema.properties is Some,
                    schema.schema_type@ == ("object")@,
                    10 >= depth >= 0,
                    spec_valid_props(props@, i as int, depth as int),
                decreases props@.len() - i,
            {
                if props[i].0.as_str().unicode_len() == 0 {
                    proof {
                        assert(!spec_valid_props(props@, i as int + 1, depth as int));
                        lemma_valid_props_fail(props@, i as int + 1, props@.len() as int,
                            depth as int);
                        assert(!spec_valid_props(props@, props@.len() as int, depth as int));
                        assert(!spec_valid_schema(*schema, depth as int));
                    }
                    return Err(ProxyError::InvalidClaudeRequest(String::from_str(
                        "Property name cannot be empty",
                    )));
                }
                proof {
                    let se = *schema;
                    assert(decreases_to!(se => se.properties));
                    assert(decreases_to!(se.properties => se.properties->Some_0));
                    assert(se.properties->Some_0 == *props);
                    assert(decreases_to!(*props => props@));
                    assert(decreases_to!(props@ => props@[i as int]));
                    assert(decreases_to!(props@[i as int] => props@[i as int].1));
                }
                match validate_json_schema(&props[i].1, depth + 1) {
                    Ok(()) => {},
                    Err(e) => {
                        proof {
                            lemma_valid_props_fail(props@, i as int + 1, props@.len() as int,
                                depth as int);
                        }
                        return Err(e);
                    },
                }
                i = i + 1;
            }
        }
    }
    if str_eq(schema.schema_type.as_str(), "array") {
        if let Some(items) = &schema.items {
            proof {
                let se = *schema;
                assert(decreases_to!(se => se.items));
                assert(decreases_to!(se.items => se.items->Some_0));
                assert(se.items->Some_0 == *items);
            }
            match validate_json_schema(&**items, depth + 1) {
                Ok(()) => {},
                Err(e) => {
                    return Err(e);
                },
            }
        }
    }
    if let Some(min) = schema.minimum {
        if let Some(max) = schema.maximum {
            if min > max {
                return Err(ProxyError::InvalidClaudeRequest(String::from_str(
                    "Invalid range: minimum > maximum",
                )));
            }
        }
    }
    Ok(())
}

/// Once one property fails, the whole list fails.
proof fn lemma_valid_props_fail(props: Seq<(String, Box<JsonSchema>)>, i: int, n: int, depth: int)
    requires
        0 < i <= n <= props.len(),
        !spec_valid_props(props, i, depth),
    ensures
        !spec_valid_props(props, n, depth),
    decreases n - i,
{
    if i < n {
        lemma_valid_props_fail(props, i + 1, n, depth);
    }
}

/// What makes one tool declaration valid: a name of 1 to 64 characters, a
/// non-empty description, and a valid schema.
pub open spec fn spec_valid_tool(t: ClaudeTool) -> bool {
    &&& 0 < t.name@.len() <= 64
    &&& t.description@.len() > 0
    &&& spec_valid_schema(t.input_schema, 0)
}

/// Accepts exactly the tools that [`spec_valid_tool`] admits.
pub fn validate_tool_schema(tool: &ClaudeTool) -> (r: Result<(), ProxyError>)
    ensures
        r is Ok <==> spec_valid_tool(*tool),
        r matches Err(e) ==> e is InvalidClaudeRequest,
{
    let name_len = tool.name.as_str().unicode_len();
    if name_len == 0 {
        return Err(ProxyError::InvalidClaudeRequest(String::from_str(
            "Tool name cannot be empty",
        )));
    }
    if name_len > 64 {
        return Err(ProxyError::InvalidClaudeRequest(String::from_str(
            "Tool name too long (max 64 characters)",
        )));
    }
    if tool.description.as_str().unicode_len() == 0 {
        return Err(ProxyError::InvalidClaudeRequest(String::from_str(
            "Tool description cannot be empty",
        )));
    }
    validate_json_schema(&tool.input_schema, 0)
}

/// What makes a tool list valid: at most 128 tools, no duplicate names,
/// every tool valid.
pub open spec fn spec_valid_tools(tools: Seq<ClaudeTool>) -> bool {
    &&& tools.len() <= 128
    &&& forall|i: int, j: int|
        0 <= i < j < tools.len() ==> (#[trigger] tools[i]).name@ != (#[trigger] tools[j]).name@
    &&& forall|i: int| 0 <= i < tools.len() ==> spec_valid_tool(#[trigger] tools[i])
}

/// Accepts exactly the tool lists that [`spec_valid_tools`] admits.
pub fn validate_tools(tools: &Vec<ClaudeTool>) -> (r: Result<(), ProxyError>)
    ensures
        r is Ok <==> spec_valid_tools(tools@),
        r matches Err(e) ==> e is InvalidClaudeRequest,
{
    if tools.len() == 0 {
        return Ok(());
    }
    let mut i: usize = 0;
    while i < tools.len()
        invariant
            0 <= i <= tools@.len(),
            forall|a: int, b: int|
                0 <= a < b < i ==> (#[trigger] tools@[a]).name@ != (#[trigger] tools@[b]).name@,
            forall|a: int| 0 <= a < i ==> spec_valid_tool(#[trigger] tools@[a]),
        decreases tools@.len() - i,
    {
        let mut j: usize = 0;
        while j < i
            invariant
                0 <= j <= i < tools@.len(),
                forall|b: int| 0 <= b < j ==> (#[trigger] tools@[b]).name@ != tools@[i as int].name@,
            decreases i - j,
        {
            if str_eq(tools[j].name.as_str(), tools[i].name.as_str()) {
                return Err(ProxyError::InvalidClaudeRequest(String::from_str(
                    "Duplicate tool name",
                )));
            }
            j = j + 1;
        }
        match validate_tool_schema(&tools[i]) {
            Ok(()) => {},
            Err(e) => {
                return Err(e);
            },
        }
        i = i + 1;
    }
    if tools.len() > 128 {
        return Err(ProxyError::InvalidClaudeRequest(String::from_str(
            "Too many tools (max 128)",
        )));
    }
    Ok(())
}

} // verus!
