//! Mathematical views of the streamed upstream chunks, and the decoding of
//! a parsed JSON value into a [`GeminiStreamChunk`].
//!
//! Decoding follows the upstream wire contract: unknown object fields are
//! ignored, absent fields default, and a value of the wrong shape fails the
//! whole chunk.

use crate::gemini::{
    Candidate, FunctionCall, FunctionResponse, GeminiContent, GeminiPart, GeminiStreamChunk,
    InlineData, PromptFeedback, SafetyRating, UsageMetadata,
};
use crate::json::{JsonV, JsonValue};
use crate::text::{all_digits, digits_val, parse_u32, str_eq};
use vstd::prelude::*;

verus! {

broadcast use vstd::seq::group_seq_axioms, vstd::std_specs::vec::group_vec_axioms;

/// View of a function call.
#[verifier::ext_equal]
pub struct FunctionCallV {
    pub name: Seq<char>,
    pub args: JsonV,
}

/// View of a part.
#[verifier::ext_equal]
pub enum PartV {
    Text { text: Seq<char> },
    TextThought { text: Seq<char>, sig: Seq<char> },
    Inline { mime: Seq<char>, data: Seq<char> },
    CallThought { call: FunctionCallV, sig: Seq<char> },
    Call { call: FunctionCallV },
    Resp { name: Seq<char>, response: JsonV },
}

/// View of a content entry.
#[verifier::ext_equal]
pub struct ContentV {
    pub role: Option<Seq<char>>,
    pub parts: Seq<PartV>,
}

/// View of a usage report.
#[verifier::ext_equal]
pub struct UsageV {
    pub prompt: Option<u32>,
    pub cand: Option<u32>,
    pub total: Option<u32>,
}

/// View of a safety rating.
#[verifier::ext_equal]
pub struct RatingV {
    pub category: Seq<char>,
    pub probability: Seq<char>,
}

/// View of prompt feedback.
#[verifier::ext_equal]
pub struct FeedbackV {
    pub block_reason: Option<Seq<char>>,
    pub ratings: Option<Seq<RatingV>>,
}

/// View of a candidate.
#[verifier::ext_equal]
pub struct CandV {
    pub content: Option<ContentV>,
    pub finish: Option<Seq<char>>,
    pub ratings: Option<Seq<RatingV>>,
    pub index: Option<u32>,
}

/// View of a stream chunk.
#[verifier::ext_equal]
pub struct ChunkV {
    pub candidates: Seq<CandV>,
    pub usage: Option<UsageV>,
    pub feedback: Option<FeedbackV>,
}

impl View for FunctionCall {
    type V = FunctionCallV;

    open spec fn view(&self) -> FunctionCallV {
        FunctionCallV { name: self.name@, args: self.args@ }
    }
}

impl View for GeminiPart {
    type V = PartV;

    open spec fn view(&self) -> PartV {
        match self {
            GeminiPart::Text { text } => PartV::Text { text: text@ },
            GeminiPart::TextWithThought { text, thought_signature } => PartV::TextThought {
                text: text@,
                sig: thought_signature@,
            },
            GeminiPart::InlineData { inline_data } => PartV::Inline {
                mime: inline_data.mime_type@,
                data: inline_data.data@,
            },
            GeminiPart::FunctionCallWithThought { function_call, thought_signature } => {
                PartV::CallThought { call: function_call@, sig: thought_signature@ }
            },
            GeminiPart::FunctionCall { function_call } => PartV::Call { call: function_call@ },
            GeminiPart::FunctionResponse { function_response } => PartV::Resp {
                name: function_response.name@,
                response: function_response.response@,
            },
        }
    }
}

impl View for GeminiContent {
    type V = ContentV;

    open spec fn view(&self) -> ContentV {
        ContentV {
            role: match self.role {
                Some(r) => Some(r@),
                None => None,
            },
            parts: Seq::new(self.parts@.len(), |i: int| self.parts@[i]@),
        }
    }
}

impl View for UsageMetadata {
    type V = UsageV;

    open spec fn view(&self) -> UsageV {
        UsageV {
            prompt: self.prompt_token_count,
            cand: self.candidates_token_count,
            total: self.total_token_count,
        }
    }
}

impl View for SafetyRating {
    type V = RatingV;

    open spec fn view(&self) -> RatingV {
        RatingV { category: self.category@, probability: self.probability@ }
    }
}

impl View for PromptFeedback {
    type V = FeedbackV;

    open spec fn view(&self) -> FeedbackV {
        FeedbackV {
            block_reason: match self.block_reason {
                Some(b) => Some(b@),
                None => None,
            },
            ratings: match self.safety_ratings {
                Some(rs) => Some(Seq::new(rs@.len(), |i: int| rs@[i]@)),
                None => None,
            },
        }
    }
}

impl View for Candidate {
    type V = CandV;

    open spec fn view(&self) -> CandV {
        CandV {
            content: match self.content {
                Some(c) => Some(c@),
                None => None,
            },
            finish: match self.finish_reason {
                Some(f) => Some(f@),
                None => None,
            },
            ratings: match self.safety_ratings {
                Some(rs) => Some(Seq::new(rs@.len(), |i: int| rs@[i]@)),
                None => None,
            },
            index: self.index,
        }
    }
}

impl View for GeminiStreamChunk {
    type V = ChunkV;

    open spec fn view(&self) -> ChunkV {
        ChunkV {
            candidates: Seq::new(self.candidates@.len(), |i: int| self.candidates@[i]@),
            usage: match self.usage_metadata {
                Some(u) => Some(u@),
                None => None,
            },
            feedback: match self.prompt_feedback {
                Some(f) => Some(f@),
                None => None,
            },
        }
    }
}

/// The function call a call part carries.
pub open spec fn part_call_v(p: PartV) -> FunctionCallV
    recommends
        p is Call || p is CallThought,
{
    match p {
        PartV::Call { call } => call,
        PartV::CallThought { call, .. } => call,
        _ => arbitrary(),
    }
}

/// The value under `key` in an object's entry list: the first match wins.
pub open spec fn obj_get(entries: Seq<(Seq<char>, JsonV)>, key: Seq<char>) -> Option<JsonV>
    decreases entries.len(),
{
    if entries.len() == 0 {
        None
    } else if entries[0].0 == key {
        Some(entries[0].1)
    } else {
        obj_get(entries.skip(1), key)
    }
}

/// Looks a key up in an object's entries.
pub fn lookup<'a>(entries: &'a Vec<(String, JsonValue)>, key: &str) -> (r: Option<&'a JsonValue>)
    ensures
        match r {
            Some(v) => obj_get(crate::json::obj_views(entries@, entries@.len() as int), key@)
                == Some(v@),
            None => obj_get(crate::json::obj_views(entries@, entries@.len() as int), key@)
                is None,
        },
{
    proof {
        crate::json::lemma_obj_views(entries@, entries@.len() as int);
    }
    let ghost gv = crate::json::obj_views(entries@, entries@.len() as int);
    proof {
        assert(gv.skip(0) =~= gv);
    }
    let mut i: usize = 0;
    while i < entries.len()
        invariant
            0 <= i <= entries@.len(),
            gv == crate::json::obj_views(entries@, entries@.len() as int),
            gv.len() == entries@.len(),
            forall|k: int|
                0 <= k < entries@.len() ==> #[trigger] gv[k] == (
                    entries@[k].0@,
                    crate::json::view_of(entries@[k].1),
                ),
            obj_get(gv, key@) == obj_get(gv.skip(i as int), key@),
        decreases entries@.len() - i,
    {
        if str_eq(entries[i].0.as_str(), key) {
            proof {
                assert(gv.skip(i as int)[0] == gv[i as int]);
            }
            return Some(&entries[i].1);
        }
        proof {
            assert(gv.skip(i as int)[0] == gv[i as int]);
            assert(gv.skip(i as int).skip(1) =~= gv.skip(i as int + 1));
        }
        i = i + 1;
    }
    proof {
        assert(gv.skip(i as int) =~= Seq::empty());
    }
    None
}

/// The `u32` a number token denotes, if it is a plain decimal in range.
pub open spec fn spec_num_u32(tok: Seq<char>) -> Option<u32> {
    if tok.len() > 0 && all_digits(tok) && digits_val(tok) <= u32::MAX {
        Some(digits_val(tok) as u32)
    } else {
        None
    }
}

/// An optional `u32` field: missing or `null` means none; a number must be a
/// plain decimal in range; anything else fails.
pub open spec fn spec_opt_u32_field(entries: Seq<(Seq<char>, JsonV)>, key: Seq<char>) -> Option<
    Option<u32>,
> {
    match obj_get(entries, key) {
        None => Some(None),
        Some(JsonV::Null) => Some(None),
        Some(JsonV::Num(tok)) => match spec_num_u32(tok) {
            Some(v) => Some(Some(v)),
            None => None,
        },
        Some(_) => None,
    }
}

/// Reads an optional `u32` field as [`spec_opt_u32_field`] describes.
pub fn get_opt_u32(entries: &Vec<(String, JsonValue)>, key: &str) -> (r: Option<Option<u32>>)
    ensures
        r == spec_opt_u32_field(
            crate::json::obj_views(entries@, entries@.len() as int),
            key@,
        ),
{
    match lookup(entries, key) {
        None => Some(None),
        Some(JsonValue::Null) => Some(None),
        Some(JsonValue::Num(tok)) => match parse_u32(tok.as_str()) {
            Some(v) => Some(Some(v)),
            None => None,
        },
        Some(_) => None,
    }
}

/// An optional string field: missing or `null` means none; a string gives
/// its raw content; anything else fails.
pub open spec fn spec_opt_str_field(entries: Seq<(Seq<char>, JsonV)>, key: Seq<char>) -> Option<
    Option<Seq<char>>,
> {
    match obj_get(entries, key) {
        None => Some(None),
        Some(JsonV::Null) => Some(None),
        Some(JsonV::Str(s)) => Some(Some(s)),
        Some(_) => None,
    }
}

/// Reads an optional string field as [`spec_opt_str_field`] describes.
pub fn get_opt_str(entries: &Vec<(String, JsonValue)>, key: &str) -> (r: Option<Option<String>>)
    ensures
        match r {
            Some(Some(s)) => spec_opt_str_field(
                crate::json::obj_views(entries@, entries@.len() as int),
                key@,
            ) == Some(Some(s@)),
            Some(None) => spec_opt_str_field(
                crate::json::obj_views(entries@, entries@.len() as int),
                key@,
            ) == Some(None::<Seq<char>>),
            None => spec_opt_str_field(
                crate::json::obj_views(entries@, entries@.len() as int),
                key@,
            ) is None,
        },
{
    match lookup(entries, key) {
        None => Some(None),
        Some(JsonValue::Null) => Some(None),
        Some(JsonValue::Str(s)) => Some(Some(s.clone())),
        Some(_) => None,
    }
}

/// A required string field: present with a string value, or the read fails.
pub open spec fn spec_str_field(entries: Seq<(Seq<char>, JsonV)>, key: Seq<char>) -> Option<
    Seq<char>,
> {
    match obj_get(entries, key) {
        Some(JsonV::Str(s)) => Some(s),
        _ => None,
    }
}

/// Reads a required string field as [`spec_str_field`] describes.
pub fn get_str(entries: &Vec<(String, JsonValue)>, key: &str) -> (r: Option<String>)
    ensures
        match r {
            Some(s) => spec_str_field(
                crate::json::obj_views(entries@, entries@.len() as int),
                key@,
            ) == Some(s@),
            None => spec_str_field(
                crate::json::obj_views(entries@, entries@.len() as int),
                key@,
            ) is None,
        },
{
    match lookup(entries, key) {
        Some(JsonValue::Str(s)) => Some(s.clone()),
        _ => None,
    }
}

/// The part a JSON value decodes to. A part is recognized by its
/// discriminating field: `functionCall`, `functionResponse`, `inline_data`,
/// or `text`, in that order.
pub open spec fn spec_part_of_json(v: JsonV) -> Option<PartV> {
    match v {
        JsonV::Obj(e) => {
            if obj_get(e, ("functionCall")@) is Some {
                match obj_get(e, ("functionCall")@) {
                    Some(JsonV::Obj(fe)) => {
                        match (spec_str_field(fe, ("name")@), obj_get(fe, ("args")@)) {
                            (Some(name), Some(args)) => {
                                let call = FunctionCallV { name, args };
                                match obj_get(e, ("thoughtSignature")@) {
                                    None => Some(PartV::Call { call }),
                                    Some(JsonV::Str(sig)) => Some(
                                        PartV::CallThought { call, sig },
                                    ),
                                    Some(_) => None,
                                }
                            },
                            _ => None,
                        }
                    },
                    _ => None,
                }
            } else if obj_get(e, ("functionResponse")@) is Some {
                match obj_get(e, ("functionResponse")@) {
                    Some(JsonV::Obj(fr)) => {
                        match (spec_str_field(fr, ("name")@), obj_get(fr, ("response")@)) {
                            (Some(name), Some(response)) => Some(
                                PartV::Resp { name, response },
                            ),
                            _ => None,
                        }
                    },
                    _ => None,
                }
            } else if obj_get(e, ("inline_data")@) is Some {
                match obj_get(e, ("inline_data")@) {
                    Some(JsonV::Obj(d)) => {
                        match (spec_str_field(d, ("mimeType")@), spec_str_field(d, ("data")@)) {
                            (Some(mime), Some(data)) => Some(PartV::Inline { mime, data }),
                            _ => None,
                        }
                    },
                    _ => None,
                }
            } else {
                match spec_str_field(e, ("text")@) {
                    Some(text) => match obj_get(e, ("thoughtSignature")@) {
                        None => Some(PartV::Text { text }),
                        Some(JsonV::Str(sig)) => Some(PartV::TextThought { text, sig }),
                        Some(_) => None,
                    },
                    None => None,
                }
            }
        },
        _ => None,
    }
}

/// Decodes one part as [`spec_part_of_json`] describes.
pub fn part_of_json(v: &JsonValue) -> (r: Option<GeminiPart>)
    ensures
        match r {
            Some(p) => spec_part_of_json(v@) == Some(p@),
            None => spec_part_of_json(v@) is None,
        },
{
    let entries = match v {
        JsonValue::Obj(entries) => entries,
        _ => {
            return None;
        },
    };
    if let Some(fc) = lookup(entries, "functionCall") {
        let fe = match fc {
            JsonValue::Obj(fe) => fe,
            _ => {
                return None;
            },
        };
        let name = match get_str(fe, "name") {
            Some(n) => n,
            None => {
                return None;
            },
        };
        let args = match lookup(fe, "args") {
            Some(a) => a.duplicate(),
            None => {
                return None;
            },
        };
        let function_call = FunctionCall { name, args };
        match lookup(entries, "thoughtSignature") {
            None => Some(GeminiPart::FunctionCall { function_call }),
            Some(JsonValue::Str(sig)) => Some(GeminiPart::FunctionCallWithThought {
                function_call,
                thought_signature: sig.clone(),
            }),
            Some(_) => None,
        }
    } else if let Some(fr) = lookup(entries, "functionResponse") {
        let fe = match fr {
            JsonValue::Obj(fe) => fe,
            _ => {
                return None;
            },
        };
        let name = match get_str(fe, "name") {
            Some(n) => n,
            None => {
                return None;
            },
        };
        let response = match lookup(fe, "response") {
            Some(a) => a.duplicate(),
            None => {
                return None;
            },
        };
        Some(GeminiPart::FunctionResponse {
            function_response: FunctionResponse { name, response },
        })
    } else if let Some(d) = lookup(entries, "inline_data") {
        let de = match d {
            JsonValue::Obj(de) => de,
            _ => {
                return None;
            },
        };
        let mime_type = match get_str(de, "mimeType") {
            Some(m) => m,
            None => {
                return None;
            },
        };
        let data = match get_str(de, "data") {
            Some(m) => m,
            None => {
                return None;
            },
        };
        Some(GeminiPart::InlineData { inline_data: InlineData { mime_type, data } })
    } else {
        let text = match get_str(entries, "text") {
            Some(t) => t,
            None => {
                return None;
            },
        };
        match lookup(entries, "thoughtSignature") {
            None => Some(GeminiPart::Text { text }),
            Some(JsonValue::Str(sig)) => Some(GeminiPart::TextWithThought {
                text,
                thought_signature: sig.clone(),
            }),
            Some(_) => None,
        }
    }
}

/// The parts the first `i` elements decode to, or nothing if any fails.
pub open spec fn spec_parts_of_json(items: Seq<JsonV>, i: int) -> Option<Seq<PartV>>
    decreases i,
{
    if i <= 0 || items.len() < i {
        Some(Seq::empty())
    } else {
        match (spec_parts_of_json(items, i - 1), spec_part_of_json(items[i - 1])) {
            (Some(ps), Some(p)) => Some(ps.push(p)),
            _ => None,
        }
    }
}

/// Decodes a parts array as [`spec_parts_of_json`] describes.
pub fn parts_of_json(items: &Vec<JsonValue>) -> (r: Option<Vec<GeminiPart>>)
    ensures
        ({
            let gitems = crate::json::arr_views(items@, items@.len() as int);
            match r {
                Some(ps) => spec_parts_of_json(gitems, gitems.len() as int) == Some(
                    Seq::new(ps@.len(), |i: int| ps@[i]@),
                ),
                None => spec_parts_of_json(gitems, gitems.len() as int) is None,
            }
        }),
{
    proof {
        crate::json::lemma_arr_views(items@, items@.len() as int);
    }
    let ghost gitems = crate::json::arr_views(items@, items@.len() as int);
    let mut out: Vec<GeminiPart> = Vec::new();
    let mut i: usize = 0;
    while i < items.len()
        invariant
            0 <= i <= items@.len(),
            gitems == crate::json::arr_views(items@, items@.len() as int),
            gitems.len() == items@.len(),
            forall|k: int|
                0 <= k < items@.len() ==> #[trigger] gitems[k] == crate::json::view_of(
                    items@[k],
                ),
            out@.len() == i,
            spec_parts_of_json(gitems, i as int) == Some(
                Seq::new(out@.len(), |k: int| out@[k]@),
            ),
        decreases items@.len() - i,
    {
        let p = match part_of_json(&items[i]) {
            Some(p) => p,
            None => {
                proof {
                    lemma_parts_of_json_fail(gitems, i as int + 1, gitems.len() as int);
                }
                return None;
            },
        };
        out.push(p);
        i = i + 1;
        proof {
            assert(Seq::new(out@.len(), |k: int| out@[k]@) =~= Seq::new(
                (out@.len() - 1) as nat,
                |k: int| out@[k]@,
            ).push(out@[out@.len() - 1]@));
        }
    }
    Some(out)
}

/// Once one element fails to decode, the whole list fails.
proof fn lemma_parts_of_json_fail(items: Seq<JsonV>, i: int, n: int)
    requires
        0 < i <= n <= items.len(),
        spec_parts_of_json(items, i) is None,
    ensures
        spec_parts_of_json(items, n) is None,
    decreases n - i,
{
    if i < n {
        lemma_parts_of_json_fail(items, i + 1, n);
    }
}

/// The content a JSON value decodes to: an optional role and the parts,
/// which default to an empty list when absent.
pub open spec fn spec_content_of_json(v: JsonV) -> Option<ContentV> {
    match v {
        JsonV::Obj(e) => match spec_opt_str_field(e, ("role")@) {
            None => None,
            Some(role) => match obj_get(e, ("parts")@) {
                None => Some(ContentV { role, parts: Seq::empty() }),
                Some(JsonV::Arr(items)) => match spec_parts_of_json(items, items.len() as int) {
                    Some(parts) => Some(ContentV { role, parts }),
                    None => None,
                },
                Some(_) => None,
            },
        },
        _ => None,
    }
}

/// Decodes a content entry as [`spec_content_of_json`] describes.
pub fn content_of_json(v: &JsonValue) -> (r: Option<GeminiContent>)
    ensures
        match r {
            Some(c) => spec_content_of_json(v@) == Some(c@),
            None => spec_content_of_json(v@) is None,
        },
{
    let entries = match v {
        JsonValue::Obj(entries) => entries,
        _ => {
            return None;
        },
    };
    let role = match get_opt_str(entries, "role") {
        Some(role) => role,
        None => {
            return None;
        },
    };
    match lookup(entries, "parts") {
        None => {
            let c = GeminiContent { role, parts: Vec::new() };
            proof {
                assert(c@.parts =~= Seq::<PartV>::empty());
            }
            Some(c)
        },
        Some(JsonValue::Arr(items)) => {
            let parts = match parts_of_json(items) {
                Some(ps) => ps,
                None => {
                    return None;
                },
            };
            let c = GeminiContent { role, parts };
            proof {
                assert(c@.parts =~= Seq::new(c.parts@.len(), |i: int| c.parts@[i]@));
            }
            Some(c)
        },
        Some(_) => None,
    }
}

/// The safety rating a JSON value decodes to.
pub open spec fn spec_rating_of_json(v: JsonV) -> Option<RatingV> {
    match v {
        JsonV::Obj(e) => match (
            spec_str_field(e, ("category")@),
            spec_str_field(e, ("probability")@),
        ) {
            (Some(category), Some(probability)) => Some(RatingV { category, probability }),
            _ => None,
        },
        _ => None,
    }
}

/// The ratings the first `i` elements decode to, or nothing if any fails.
pub open spec fn spec_ratings_of_json(items: Seq<JsonV>, i: int) -> Option<Seq<RatingV>>
    decreases i,
{
    if i <= 0 || items.len() < i {
        Some(Seq::empty())
    } else {
        match (spec_ratings_of_json(items, i - 1), spec_rating_of_json(items[i - 1])) {
            (Some(rs), Some(r)) => Some(rs.push(r)),
            _ => None,
        }
    }
}

proof fn lemma_ratings_of_json_fail(items: Seq<JsonV>, i: int, n: int)
    requires
        0 < i <= n <= items.len(),
        spec_ratings_of_json(items, i) is None,
    ensures
        spec_ratings_of_json(items, n) is None,
    decreases n - i,
{
    if i < n {
        lemma_ratings_of_json_fail(items, i + 1, n);
    }
}

/// Decodes a ratings array as [`spec_ratings_of_json`] describes.
pub fn ratings_of_json(items: &Vec<JsonValue>) -> (r: Option<Vec<SafetyRating>>)
    ensures
        ({
            let gitems = crate::json::arr_views(items@, items@.len() as int);
            match r {
                Some(rs) => spec_ratings_of_json(gitems, gitems.len() as int) == Some(
                    Seq::new(rs@.len(), |i: int| rs@[i]@),
                ),
                None => spec_ratings_of_json(gitems, gitems.len() as int) is None,
            }
        }),
{
    proof {
        crate::json::lemma_arr_views(items@, items@.len() as int);
    }
    let ghost gitems = crate::json::arr_views(items@, items@.len() as int);
    let mut out: Vec<SafetyRating> = Vec::new();
    let mut i: usize = 0;
    while i < items.len()
        invariant
            0 <= i <= items@.len(),
            gitems == crate::json::arr_views(items@, items@.len() as int),
            gitems.len() == items@.len(),
            forall|k: int|
                0 <= k < items@.len() ==> #[trigger] gitems[k] == crate::json::view_of(
                    items@[k],
                ),
            out@.len() == i,
            spec_ratings_of_json(gitems, i as int) == Some(
                Seq::new(out@.len(), |k: int| out@[k]@),
            ),
        decreases items@.len() - i,
    {
        let entries = match &items[i] {
            JsonValue::Obj(entries) => entries,
            _ => {
                proof {
                    lemma_ratings_of_json_fail(gitems, i as int + 1, gitems.len() as int);
                }
                return None;
            },
        };
        let category = match get_str(entries, "category") {
            Some(c) => c,
            None => {
                proof {
                    lemma_ratings_of_json_fail(gitems, i as int + 1, gitems.len() as int);
                }
                return None;
            },
        };
        let probability = match get_str(entries, "probability") {
            Some(p) => p,
            None => {
                proof {
                    lemma_ratings_of_json_fail(gitems, i as int + 1, gitems.len() as int);
                }
                return None;
            },
        };
        out.push(SafetyRating { category, probability });
        i = i + 1;
        proof {
            assert(Seq::new(out@.len(), |k: int| out@[k]@) =~= Seq::new(
                (out@.len() - 1) as nat,
                |k: int| out@[k]@,
            ).push(out@[out@.len() - 1]@));
        }
    }
    Some(out)
}

/// An optional ratings field: missing or `null` means none.
pub open spec fn spec_opt_ratings_field(
    entries: Seq<(Seq<char>, JsonV)>,
    key: Seq<char>,
) -> Option<Option<Seq<RatingV>>> {
    match obj_get(entries, key) {
        None => Some(None),
        Some(JsonV::Null) => Some(None),
        Some(JsonV::Arr(items)) => match spec_ratings_of_json(items, items.len() as int) {
            Some(rs) => Some(Some(rs)),
            None => None,
        },
        Some(_) => None,
    }
}

/// Reads an optional ratings field as [`spec_opt_ratings_field`] describes.
pub fn get_opt_ratings(entries: &Vec<(String, JsonValue)>, key: &str) -> (r: Option<
    Option<Vec<SafetyRating>>,
>)
    ensures
        ({
            let ge = crate::json::obj_views(entries@, entries@.len() as int);
            match r {
                Some(Some(rs)) => spec_opt_ratings_field(ge, key@) == Some(
                    Some(Seq::new(rs@.len(), |i: int| rs@[i]@)),
                ),
                Some(None) => spec_opt_ratings_field(ge, key@) == Some(None::<Seq<RatingV>>),
                None => spec_opt_ratings_field(ge, key@) is None,
            }
        }),
{
    match lookup(entries, key) {
        None => Some(None),
        Some(JsonValue::Null) => Some(None),
        Some(JsonValue::Arr(items)) => match ratings_of_json(items) {
            Some(rs) => Some(Some(rs)),
            None => None,
        },
        Some(_) => None,
    }
}

/// The candidate a JSON value decodes to.
pub open spec fn spec_cand_of_json(v: JsonV) -> Option<CandV> {
    match v {
        JsonV::Obj(e) => {
            let content = match obj_get(e, ("content")@) {
                None => Some(None),
                Some(JsonV::Null) => Some(None),
                Some(cv) => match spec_content_of_json(cv) {
                    Some(c) => Some(Some(c)),
                    None => None,
                },
            };
            match (
                content,
                spec_opt_str_field(e, ("finishReason")@),
                spec_opt_ratings_field(e, ("safetyRatings")@),
                spec_opt_u32_field(e, ("index")@),
            ) {
                (Some(content), Some(finish), Some(ratings), Some(index)) => Some(
                    CandV { content, finish, ratings, index },
                ),
                _ => None,
            }
        },
        _ => None,
    }
}

/// Decodes a candidate as [`spec_cand_of_json`] describes.
pub fn cand_of_json(v: &JsonValue) -> (r: Option<Candidate>)
    ensures
        match r {
            Some(c) => spec_cand_of_json(v@) == Some(c@),
            None => spec_cand_of_json(v@) is None,
        },
{
    let entries = match v {
        JsonValue::Obj(entries) => entries,
        _ => {
            return None;
        },
    };
    let content = match lookup(entries, "content") {
        None => None,
        Some(JsonValue::Null) => None,
        Some(cv) => match content_of_json(cv) {
            Some(c) => Some(c),
            None => {
                return None;
            },
        },
    };
    let finish_reason = match get_opt_str(entries, "finishReason") {
        Some(f) => f,
        None => {
            return None;
        },
    };
    let safety_ratings = match get_opt_ratings(entries, "safetyRatings") {
        Some(rs) => rs,
        None => {
            return None;
        },
    };
    let index = match get_opt_u32(entries, "index") {
        Some(ix) => ix,
        None => {
            return None;
        },
    };
    Some(Candidate { content, finish_reason, safety_ratings, index })
}

/// The candidates the first `i` elements decode to, or nothing if any fails.
pub open spec fn spec_cands_of_json(items: Seq<JsonV>, i: int) -> Option<Seq<CandV>>
    decreases i,
{
    if i <= 0 || items.len() < i {
        Some(Seq::empty())
    } else {
        match (spec_cands_of_json(items, i - 1), spec_cand_of_json(items[i - 1])) {
            (Some(cs), Some(c)) => Some(cs.push(c)),
            _ => None,
        }
    }
}

proof fn lemma_cands_of_json_fail(items: Seq<JsonV>, i: int, n: int)
    requires
        0 < i <= n <= items.len(),
        spec_cands_of_json(items, i) is None,
    ensures
        spec_cands_of_json(items, n) is None,
    decreases n - i,
{
    if i < n {
        lemma_cands_of_json_fail(items, i + 1, n);
    }
}

/// Decodes a candidates array as [`spec_cands_of_json`] describes.
pub fn cands_of_json(items: &Vec<JsonValue>) -> (r: Option<Vec<Candidate>>)
    ensures
        ({
            let gitems = crate::json::arr_views(items@, items@.len() as int);
            match r {
                Some(cs) => spec_cands_of_json(gitems, gitems.len() as int) == Some(
                    Seq::new(cs@.len(), |i: int| cs@[i]@),
                ),
                None => spec_cands_of_json(gitems, gitems.len() as int) is None,
            }
        }),
{
    proof {
        crate::json::lemma_arr_views(items@, items@.len() as int);
    }
    let ghost gitems = crate::json::arr_views(items@, items@.len() as int);
    let mut out: Vec<Candidate> = Vec::new();
    let mut i: usize = 0;
    while i < items.len()
        invariant
            0 <= i <= items@.len(),
            gitems == crate::json::arr_views(items@, items@.len() as int),
            gitems.len() == items@.len(),
            forall|k: int|
                0 <= k < items@.len() ==> #[trigger] gitems[k] == crate::json::view_of(
                    items@[k],
                ),
            out@.len() == i,
            spec_cands_of_json(gitems, i as int) == Some(
                Seq::new(out@.len(), |k: int| out@[k]@),
            ),
        decreases items@.len() - i,
    {
        let c = match cand_of_json(&items[i]) {
            Some(c) => c,
            None => {
                proof {
                    lemma_cands_of_json_fail(gitems, i as int + 1, gitems.len() as int);
                }
                return None;
            },
        };
        out.push(c);
        i = i + 1;
        proof {
            assert(Seq::new(out@.len(), |k: int| out@[k]@) =~= Seq::new(
                (out@.len() - 1) as nat,
                |k: int| out@[k]@,
            ).push(out@[out@.len() - 1]@));
        }
    }
    Some(out)
}

/// The usage report a JSON value decodes to.
pub open spec fn spec_usage_of_json(v: JsonV) -> Option<UsageV> {
    match v {
        JsonV::Obj(e) => match (
            spec_opt_u32_field(e, ("promptTokenCount")@),
            spec_opt_u32_field(e, ("candidatesTokenCount")@),
            spec_opt_u32_field(e, ("totalTokenCount")@),
        ) {
            (Some(prompt), Some(cand), Some(total)) => Some(UsageV { prompt, cand, total }),
            _ => None,
        },
        _ => None,
    }
}

/// Decodes a usage report as [`spec_usage_of_json`] describes.
pub fn usage_of_json(v: &JsonValue) -> (r: Option<UsageMetadata>)
    ensures
        match r {
            Some(u) => spec_usage_of_json(v@) == Some(u@),
            None => spec_usage_of_json(v@) is None,
        },
{
    let entries = match v {
        JsonValue::Obj(entries) => entries,
        _ => {
            return None;
        },
    };
    let prompt_token_count = match get_opt_u32(entries, "promptTokenCount") {
        Some(p) => p,
        None => {
            return None;
        },
    };
    let candidates_token_count = match get_opt_u32(entries, "candidatesTokenCount") {
        Some(c) => c,
        None => {
            return None;
        },
    };
    let total_token_count = match get_opt_u32(entries, "totalTokenCount") {
        Some(t) => t,
        None => {
            return None;
        },
    };
    Some(UsageMetadata { prompt_token_count, candidates_token_count, total_token_count })
}

/// The prompt feedback a JSON value decodes to.
pub open spec fn spec_feedback_of_json(v: JsonV) -> Option<FeedbackV> {
    match v {
        JsonV::Obj(e) => match (
            spec_opt_str_field(e, ("blockReason")@),
            spec_opt_ratings_field(e, ("safetyRatings")@),
        ) {
            (Some(block_reason), Some(ratings)) => Some(FeedbackV { block_reason, ratings }),
            _ => None,
        },
        _ => None,
    }
}

/// Decodes prompt feedback as [`spec_feedback_of_json`] describes.
pub fn feedback_of_json(v: &JsonValue) -> (r: Option<PromptFeedback>)
    ensures
        match r {
            Some(f) => spec_feedback_of_json(v@) == Some(f@),
            None => spec_feedback_of_json(v@) is None,
        },
{
    let entries = match v {
        JsonValue::Obj(entries) => entries,
        _ => {
            return None;
        },
    };
    let block_reason = match get_opt_str(entries, "blockReason") {
        Some(b) => b,
        None => {
            return None;
        },
    };
    let safety_ratings = match get_opt_ratings(entries, "safetyRatings") {
        Some(rs) => rs,
        None => {
            return None;
        },
    };
    Some(PromptFeedback { block_reason, safety_ratings })
}

/// The stream chunk a JSON value decodes to: candidates default to an empty
/// list when absent; usage and feedback are optional.
pub open spec fn spec_chunk_of_json(v: JsonV) -> Option<ChunkV> {
    match v {
        JsonV::Obj(e) => {
            let candidates = match obj_get(e, ("candidates")@) {
                None => Some(Seq::<CandV>::empty()),
                Some(JsonV::Arr(items)) => spec_cands_of_json(items, items.len() as int),
                Some(_) => None,
            };
            let usage = match obj_get(e, ("usageMetadata")@) {
                None => Some(None),
                Some(JsonV::Null) => Some(None),
                Some(uv) => match spec_usage_of_json(uv) {
                    Some(u) => Some(Some(u)),
                    None => None,
                },
            };
            let feedback = match obj_get(e, ("promptFeedback")@) {
                None => Some(None),
                Some(JsonV::Null) => Some(None),
                Some(fv) => match spec_feedback_of_json(fv) {
                    Some(f) => Some(Some(f)),
                    None => None,
                },
            };
            match (candidates, usage, feedback) {
                (Some(candidates), Some(usage), Some(feedback)) => Some(
                    ChunkV { candidates, usage, feedback },
                ),
                _ => None,
            }
        },
        _ => None,
    }
}

/// Decodes a whole stream chunk as [`spec_chunk_of_json`] describes.
pub fn chunk_of_json(v: &JsonValue) -> (r: Option<GeminiStreamChunk>)
    ensures
        match r {
            Some(c) => spec_chunk_of_json(v@) == Some(c@),
            None => spec_chunk_of_json(v@) is None,
        },
{
    let entries = match v {
        JsonValue::Obj(entries) => entries,
        _ => {
            return None;
        },
    };
    let candidates = match lookup(entries, "candidates") {
        None => Vec::new(),
        Some(JsonValue::Arr(items)) => match cands_of_json(items) {
            Some(cs) => cs,
            None => {
                return None;
            },
        },
        Some(_) => {
            return None;
        },
    };
    let usage_metadata = match lookup(entries, "usageMetadata") {
        None => None,
        Some(JsonValue::Null) => None,
        Some(uv) => match usage_of_json(uv) {
            Some(u) => Some(u),
            None => {
                return None;
            },
        },
    };
    let prompt_feedback = match lookup(entries, "promptFeedback") {
        None => None,
        Some(JsonValue::Null) => None,
        Some(fv) => match feedback_of_json(fv) {
            Some(f) => Some(f),
            None => {
                return None;
            },
        },
    };
    let c = GeminiStreamChunk { candidates, usage_metadata, prompt_feedback };
    proof {
        assert(c@.candidates =~= Seq::new(c.candidates@.len(), |i: int| c.candidates@[i]@));
        if c.candidates@.len() == 0 {
            assert(c@.candidates =~= Seq::<CandV>::empty());
        }
    }
    Some(c)
}


} // verus!
