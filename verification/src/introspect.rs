//! Request introspection for the proxy: a token breakdown of an LLM request
//! body (system prompt, user / assistant messages, tool definitions, tool
//! results, images), for the Anthropic, OpenAI and Gemini request shapes.
//! Tokens are estimated as bytes / 4.

use vstd::prelude::*;
use crate::json::{Json, JsonKind, field, field_str, field_array, field_str_len, sum_of};
use crate::json::{get_field, get_str, get_array, field_str_is, plus};
use crate::json::{lemma_sum_of_step, lemma_sum_of_prefix, lemma_sum_of_all, lemma_sum_of_elem};
use crate::text::{byte_len, owned, str_eq, str_len};
use crate::jsonc::{as_u64, json_as_u64, json_member, member, parse_json_text, serde_json_parse};

verus! {

/// The API flavour of a request body.
#[derive(Debug, Clone, Copy, PartialEq, Eq, Structural)]
pub enum Provider {
    Anthropic,
    OpenAi,
    Gemini,
}

/// Token breakdown of one request.
#[derive(Debug, Clone)]
pub struct RequestBreakdown {
    pub provider: Provider,
    pub model: String,
    pub system_prompt_tokens: usize,
    pub user_message_tokens: usize,
    pub assistant_message_tokens: usize,
    pub tool_definition_tokens: usize,
    pub tool_definition_count: usize,
    pub tool_result_tokens: usize,
    pub image_count: usize,
    pub total_input_tokens: usize,
    pub message_count: usize,
}

// ---------------------------------------------------------------------------
// Specification.
// ---------------------------------------------------------------------------

/// Tokens of one content block: its `text` (bytes / 4), or else its whole
/// serialization (bytes / 4).
pub open spec fn block_tokens(b: Json) -> nat {
    match field_str(b, "text"@) {
        Some(t) => (str_len(t) / 4) as nat,
        None => (b.text_len / 4) as nat,
    }
}

// Named per-item measures, summed with `sum_of`.

pub open spec fn block_tokens_f() -> spec_fn(Json) -> nat {
    |b: Json| block_tokens(b)
}

pub open spec fn image_f() -> spec_fn(Json) -> nat {
    |b: Json|
        if image_block(b) {
            1nat
        } else {
            0nat
        }
}

pub open spec fn text_len_f() -> spec_fn(Json) -> nat {
    |b: Json| field_str_len(b, "text"@)
}

pub open spec fn serialized_len_f() -> spec_fn(Json) -> nat {
    |t: Json| t.text_len as nat
}

pub open spec fn gemini_part_tokens_f() -> spec_fn(Json) -> nat {
    |p: Json| gemini_part_tokens(p)
}

pub open spec fn gemini_declarations_f() -> spec_fn(Json) -> nat {
    |t: Json| gemini_declarations(t)
}

pub open spec fn msg_images_f() -> spec_fn(Json) -> nat {
    |m: Json| msg_images(m)
}

pub open spec fn anthropic_user_f() -> spec_fn(Json) -> nat {
    |m: Json| anthropic_user(m)
}

pub open spec fn anthropic_assistant_f() -> spec_fn(Json) -> nat {
    |m: Json| anthropic_assistant(m)
}

pub open spec fn anthropic_tool_result_f() -> spec_fn(Json) -> nat {
    |m: Json| anthropic_tool_result(m)
}

pub open spec fn openai_system_f() -> spec_fn(Json) -> nat {
    |m: Json| openai_system(m)
}

pub open spec fn openai_user_f() -> spec_fn(Json) -> nat {
    |m: Json| openai_user(m)
}

pub open spec fn openai_assistant_f() -> spec_fn(Json) -> nat {
    |m: Json| openai_assistant(m)
}

pub open spec fn openai_tool_result_f() -> spec_fn(Json) -> nat {
    |m: Json| openai_tool_result(m)
}

pub open spec fn gemini_user_f() -> spec_fn(Json) -> nat {
    |m: Json| gemini_user(m)
}

pub open spec fn gemini_assistant_f() -> spec_fn(Json) -> nat {
    |m: Json| gemini_assistant(m)
}

pub open spec fn gemini_tool_result_f() -> spec_fn(Json) -> nat {
    |m: Json| gemini_tool_result(m)
}

/// Tokens of a message `content`: a string counts its bytes / 4, an array the
/// sum of its blocks' tokens, any other value its serialization's bytes / 4.
pub open spec fn content_tokens(c: Option<Json>) -> nat {
    match c {
        Some(j) => match j.kind {
            JsonKind::Str(s) => (str_len(s@) / 4) as nat,
            JsonKind::Array(items) => sum_of(items@, block_tokens_f()),
            _ => (j.text_len / 4) as nat,
        },
        None => 0,
    }
}

/// Whether a content block is an image (`"type"` is `"image"` or
/// `"image_url"`).
pub open spec fn image_block(b: Json) -> bool {
    field_str(b, "type"@) == Some("image"@) || field_str(b, "type"@) == Some("image_url"@)
}

/// Number of image blocks in a message `content` (only arrays hold any).
pub open spec fn content_images(c: Option<Json>) -> nat {
    match c {
        Some(j) => match j.kind {
            JsonKind::Array(items) => sum_of(items@, image_f()),
            _ => 0,
        },
        None => 0,
    }
}

/// Whether a message `content` holds a `tool_result` block.
pub open spec fn content_has_tool_result(c: Option<Json>) -> bool {
    match c {
        Some(j) => match j.kind {
            JsonKind::Array(items) => exists|i: int|
                0 <= i < items@.len() && field_str(#[trigger] items@[i], "type"@) == Some(
                    "tool_result"@,
                ),
            _ => false,
        },
        None => false,
    }
}

/// The `role` of a message, or `default`.
pub open spec fn role_or(m: Json, default: Seq<char>) -> Seq<char> {
    match field_str(m, "role"@) {
        Some(r) => r,
        None => default,
    }
}

/// Tokens of a message's content.
pub open spec fn msg_tokens(m: Json) -> nat {
    content_tokens(field(m, "content"@))
}

/// Anthropic: a user message holding a tool result counts as tool result.
pub open spec fn anthropic_is_tool_result(m: Json) -> bool {
    role_or(m, ""@) == "user"@ && content_has_tool_result(field(m, "content"@))
}

pub open spec fn anthropic_user(m: Json) -> nat {
    if role_or(m, ""@) == "assistant"@ || anthropic_is_tool_result(m) {
        0
    } else {
        msg_tokens(m)
    }
}

pub open spec fn anthropic_assistant(m: Json) -> nat {
    if role_or(m, ""@) == "assistant"@ {
        msg_tokens(m)
    } else {
        0
    }
}

pub open spec fn anthropic_tool_result(m: Json) -> nat {
    if anthropic_is_tool_result(m) {
        msg_tokens(m)
    } else {
        0
    }
}

/// OpenAI roles `system` and `developer` carry the system prompt.
pub open spec fn openai_is_system(m: Json) -> bool {
    role_or(m, ""@) == "system"@ || role_or(m, ""@) == "developer"@
}

pub open spec fn openai_system(m: Json) -> nat {
    if openai_is_system(m) {
        msg_tokens(m)
    } else {
        0
    }
}

pub open spec fn openai_assistant(m: Json) -> nat {
    if !openai_is_system(m) && role_or(m, ""@) == "assistant"@ {
        msg_tokens(m)
    } else {
        0
    }
}

pub open spec fn openai_tool_result(m: Json) -> nat {
    if !openai_is_system(m) && role_or(m, ""@) == "tool"@ {
        msg_tokens(m)
    } else {
        0
    }
}

pub open spec fn openai_user(m: Json) -> nat {
    if openai_is_system(m) || role_or(m, ""@) == "assistant"@ || role_or(m, ""@) == "tool"@ {
        0
    } else {
        msg_tokens(m)
    }
}

pub open spec fn msg_images(m: Json) -> nat {
    content_images(field(m, "content"@))
}

/// Gemini part tokens: a `functionResponse` part counts its serialization,
/// any other part its `text`.
pub open spec fn gemini_part_tokens(p: Json) -> nat {
    if field(p, "functionResponse"@) is Some {
        (p.text_len / 4) as nat
    } else {
        match field_str(p, "text"@) {
            Some(t) => (str_len(t) / 4) as nat,
            None => 0,
        }
    }
}

pub open spec fn gemini_parts(c: Json) -> Seq<Json> {
    match field_array(c, "parts"@) {
        Some(parts) => parts,
        None => Seq::empty(),
    }
}

pub open spec fn gemini_tokens(c: Json) -> nat {
    sum_of(gemini_parts(c), gemini_part_tokens_f())
}

pub open spec fn gemini_has_function_response(c: Json) -> bool {
    exists|i: int|
        0 <= i < gemini_parts(c).len() && field(#[trigger] gemini_parts(c)[i], "functionResponse"@) is Some
}

pub open spec fn gemini_tool_result(c: Json) -> nat {
    if gemini_has_function_response(c) {
        gemini_tokens(c)
    } else {
        0
    }
}

pub open spec fn gemini_assistant(c: Json) -> nat {
    if !gemini_has_function_response(c) && role_or(c, "user"@) == "model"@ {
        gemini_tokens(c)
    } else {
        0
    }
}

pub open spec fn gemini_user(c: Json) -> nat {
    if !gemini_has_function_response(c) && role_or(c, "user"@) != "model"@ {
        gemini_tokens(c)
    } else {
        0
    }
}

/// Number of `functionDeclarations` of a Gemini tool entry.
pub open spec fn gemini_declarations(t: Json) -> nat {
    match field_array(t, "functionDeclarations"@) {
        Some(d) => d.len(),
        None => 0,
    }
}

/// The `messages` (Anthropic, OpenAI) or `contents` (Gemini) of a body.
pub open spec fn messages_of(body: Json, p: Provider) -> Seq<Json> {
    let key = if p == Provider::Gemini {
        "contents"@
    } else {
        "messages"@
    };
    match field_array(body, key) {
        Some(m) => m,
        None => Seq::empty(),
    }
}

pub open spec fn tools_of(body: Json) -> Seq<Json> {
    match field_array(body, "tools"@) {
        Some(t) => t,
        None => Seq::empty(),
    }
}

/// Bytes of the system prompt before the division by 4, where it is a list
/// of text blocks (Anthropic `system` array, Gemini `systemInstruction.parts`).
pub open spec fn system_block_bytes(body: Json, p: Provider) -> nat {
    match p {
        Provider::Anthropic => match field(body, "system"@) {
            Some(s) => match s.kind {
                JsonKind::Array(items) => sum_of(items@, text_len_f()),
                _ => 0,
            },
            None => 0,
        },
        Provider::OpenAi => 0,
        Provider::Gemini => match field(body, "systemInstruction"@) {
            Some(si) => match field_array(si, "parts"@) {
                Some(parts) => sum_of(parts, text_len_f()),
                None => 0,
            },
            None => 0,
        },
    }
}

pub open spec fn spec_model(body: Json, p: Provider) -> Seq<char> {
    if p == Provider::Gemini {
        "gemini"@
    } else {
        match field_str(body, "model"@) {
            Some(m) => m,
            None => "unknown"@,
        }
    }
}

pub open spec fn spec_system(body: Json, p: Provider) -> nat {
    match p {
        Provider::Anthropic => match field(body, "system"@) {
            Some(s) => match s.kind {
                JsonKind::Str(t) => (str_len(t@) / 4) as nat,
                JsonKind::Array(_) => system_block_bytes(body, p) / 4,
                _ => 0,
            },
            None => 0,
        },
        Provider::OpenAi => sum_of(messages_of(body, p), openai_system_f()),
        Provider::Gemini => system_block_bytes(body, p) / 4,
    }
}

pub open spec fn spec_user(body: Json, p: Provider) -> nat {
    match p {
        Provider::Anthropic => sum_of(messages_of(body, p), anthropic_user_f()),
        Provider::OpenAi => sum_of(messages_of(body, p), openai_user_f()),
        Provider::Gemini => sum_of(messages_of(body, p), gemini_user_f()),
    }
}

pub open spec fn spec_assistant(body: Json, p: Provider) -> nat {
    match p {
        Provider::Anthropic => sum_of(messages_of(body, p), anthropic_assistant_f()),
        Provider::OpenAi => sum_of(messages_of(body, p), openai_assistant_f()),
        Provider::Gemini => sum_of(messages_of(body, p), gemini_assistant_f()),
    }
}

pub open spec fn spec_tool_result(body: Json, p: Provider) -> nat {
    match p {
        Provider::Anthropic => sum_of(messages_of(body, p), anthropic_tool_result_f()),
        Provider::OpenAi => sum_of(messages_of(body, p), openai_tool_result_f()),
        Provider::Gemini => sum_of(messages_of(body, p), gemini_tool_result_f()),
    }
}

pub open spec fn spec_images(body: Json, p: Provider) -> nat {
    if p == Provider::Gemini {
        0
    } else {
        sum_of(messages_of(body, p), msg_images_f())
    }
}

/// Bytes of the serialized tool definitions.
pub open spec fn tool_bytes(body: Json) -> nat {
    sum_of(tools_of(body), serialized_len_f())
}

pub open spec fn spec_tool_definition_tokens(body: Json) -> nat {
    tool_bytes(body) / 4
}

pub open spec fn spec_tool_count(body: Json, p: Provider) -> nat {
    if p == Provider::Gemini {
        sum_of(tools_of(body), gemini_declarations_f())
    } else {
        tools_of(body).len()
    }
}

pub open spec fn spec_total(body: Json, p: Provider) -> nat {
    spec_system(body, p) + spec_user(body, p) + spec_assistant(body, p)
        + spec_tool_definition_tokens(body) + spec_tool_result(body, p)
}

/// The counts of a request fit in `usize`: the sums of bytes taken before a
/// division by 4, the total, the image count and the tool count.
pub open spec fn analysis_fits(body: Json, p: Provider) -> bool {
    &&& system_block_bytes(body, p) <= usize::MAX
    &&& tool_bytes(body) <= usize::MAX
    &&& spec_total(body, p) <= usize::MAX
    &&& spec_images(body, p) <= usize::MAX
    &&& spec_tool_count(body, p) <= usize::MAX
}

/// `b` is the breakdown of `body` read as a request of provider `p`.
pub open spec fn describes(b: RequestBreakdown, body: Json, p: Provider) -> bool {
    &&& b.provider == p
    &&& b.model@ == spec_model(body, p)
    &&& b.system_prompt_tokens == spec_system(body, p)
    &&& b.user_message_tokens == spec_user(body, p)
    &&& b.assistant_message_tokens == spec_assistant(body, p)
    &&& b.tool_definition_tokens == spec_tool_definition_tokens(body)
    &&& b.tool_definition_count == spec_tool_count(body, p)
    &&& b.tool_result_tokens == spec_tool_result(body, p)
    &&& b.image_count == spec_images(body, p)
    &&& b.total_input_tokens == spec_total(body, p)
    &&& b.message_count == messages_of(body, p).len()
}

// ---------------------------------------------------------------------------
// Executable pieces.
// ---------------------------------------------------------------------------

/// The value behind an optional reference.
pub open spec fn opt_json(c: Option<&Json>) -> Option<Json> {
    match c {
        Some(v) => Some(*v),
        None => None,
    }
}

fn block_tokens_exec(b: &Json) -> (r: usize)
    ensures
        r == block_tokens(*b),
{
    match get_str(get_field(b, "text")) {
        Some(t) => byte_len(t.as_str()) / 4,
        None => b.text_len / 4,
    }
}

/// Sum of a per-item measure over `items`, `None` when it exceeds `usize`.
fn sum_block_tokens(items: &Vec<Json>) -> (r: Option<usize>)
    ensures
        r is Some <==> sum_of(items@, block_tokens_f()) <= usize::MAX,
        r matches Some(v) ==> v == sum_of(items@, block_tokens_f()),
{
    let mut acc: usize = 0;
    let mut i: usize = 0;
    while i < items.len()
        invariant
            0 <= i <= items.len(),
            acc == sum_of(items@.take(i as int), block_tokens_f()),
        decreases items.len() - i,
    {
        proof {
            lemma_sum_of_step(items@, block_tokens_f(), i as int);
            lemma_sum_of_prefix(items@, block_tokens_f(), i + 1);
        }
        let x = block_tokens_exec(&items[i]);
        match plus(acc, x) {
            Some(v) => {
                acc = v;
            },
            None => {
                return None;
            },
        }
        i = i + 1;
    }
    proof {
        lemma_sum_of_all(items@, block_tokens_f());
    }
    Some(acc)
}

fn sum_text_lens(items: &Vec<Json>) -> (r: Option<usize>)
    ensures
        r is Some <==> sum_of(items@, text_len_f()) <= usize::MAX,
        r matches Some(v) ==> v == sum_of(items@, text_len_f()),
{
    let mut acc: usize = 0;
    let mut i: usize = 0;
    while i < items.len()
        invariant
            0 <= i <= items.len(),
            acc == sum_of(items@.take(i as int), text_len_f()),
        decreases items.len() - i,
    {
        proof {
            lemma_sum_of_step(items@, text_len_f(), i as int);
            lemma_sum_of_prefix(items@, text_len_f(), i + 1);
        }
        let x = match get_str(get_field(&items[i], "text")) {
            Some(t) => byte_len(t.as_str()),
            None => 0,
        };
        match plus(acc, x) {
            Some(v) => {
                acc = v;
            },
            None => {
                return None;
            },
        }
        i = i + 1;
    }
    proof {
        lemma_sum_of_all(items@, text_len_f());
    }
    Some(acc)
}

fn sum_serialized_lens(items: &Vec<Json>) -> (r: Option<usize>)
    ensures
        r is Some <==> sum_of(items@, serialized_len_f()) <= usize::MAX,
        r matches Some(v) ==> v == sum_of(items@, serialized_len_f()),
{
    let mut acc: usize = 0;
    let mut i: usize = 0;
    while i < items.len()
        invariant
            0 <= i <= items.len(),
            acc == sum_of(items@.take(i as int), serialized_len_f()),
        decreases items.len() - i,
    {
        proof {
            lemma_sum_of_step(items@, serialized_len_f(), i as int);
            lemma_sum_of_prefix(items@, serialized_len_f(), i + 1);
        }
        match plus(acc, items[i].text_len) {
            Some(v) => {
                acc = v;
            },
            None => {
                return None;
            },
        }
        i = i + 1;
    }
    proof {
        lemma_sum_of_all(items@, serialized_len_f());
    }
    Some(acc)
}

fn count_image_blocks(items: &Vec<Json>) -> (r: Option<usize>)
    ensures
        r is Some <==> sum_of(items@, image_f()) <= usize::MAX,
        r matches Some(v) ==> v == sum_of(items@, image_f()),
{
    let mut acc: usize = 0;
    let mut i: usize = 0;
    while i < items.len()
        invariant
            0 <= i <= items.len(),
            acc == sum_of(items@.take(i as int), image_f()),
        decreases items.len() - i,
    {
        proof {
            lemma_sum_of_step(items@, image_f(), i as int);
            lemma_sum_of_prefix(items@, image_f(), i + 1);
        }
        let is_image = field_str_is(&items[i], "type", "image") || field_str_is(
            &items[i],
            "type",
            "image_url",
        );
        let x: usize = if is_image {
            1
        } else {
            0
        };
        match plus(acc, x) {
            Some(v) => {
                acc = v;
            },
            None => {
                return None;
            },
        }
        i = i + 1;
    }
    proof {
        lemma_sum_of_all(items@, image_f());
    }
    Some(acc)
}

/// Tokens of a message `content` (`None` when they exceed `usize`).
fn estimate_content_tokens(c: Option<&Json>) -> (r: Option<usize>)
    ensures
        r is Some <==> content_tokens(opt_json(c)) <= usize::MAX,
        r matches Some(v) ==> v == content_tokens(opt_json(c)),
{
    match c {
        Some(j) => match &j.kind {
            JsonKind::Str(s) => Some(byte_len(s.as_str()) / 4),
            JsonKind::Array(items) => sum_block_tokens(items),
            _ => Some(j.text_len / 4),
        },
        None => Some(0),
    }
}

/// Image blocks of a message `content`.
fn count_images(c: Option<&Json>) -> (r: Option<usize>)
    ensures
        r is Some <==> content_images(opt_json(c)) <= usize::MAX,
        r matches Some(v) ==> v == content_images(opt_json(c)),
{
    match c {
        Some(j) => match &j.kind {
            JsonKind::Array(items) => count_image_blocks(items),
            _ => Some(0),
        },
        None => Some(0),
    }
}

/// Whether a message `content` holds a `tool_result` block.
fn has_tool_results(c: Option<&Json>) -> (r: bool)
    ensures
        r == content_has_tool_result(opt_json(c)),
{
    match c {
        Some(j) => match &j.kind {
            JsonKind::Array(items) => {
                let mut i: usize = 0;
                while i < items.len()
                    invariant
                        0 <= i <= items.len(),
                        content_has_tool_result(opt_json(c)) <==> (exists|k: int|
                            0 <= k < items@.len() && field_str(#[trigger] items@[k], "type"@)
                                == Some("tool_result"@)),
                        forall|k: int|
                            0 <= k < i ==> field_str(#[trigger] items@[k], "type"@) != Some(
                                "tool_result"@,
                            ),
                    decreases items.len() - i,
                {
                    if field_str_is(&items[i], "type", "tool_result") {
                        assert(field_str(items@[i as int], "type"@) == Some("tool_result"@));
                        return true;
                    }
                    i = i + 1;
                }
                false
            },
            _ => false,
        },
        None => false,
    }
}

/// Whether the `role` of `m` (or `default` when it has none) is `expected`.
fn role_is(m: &Json, default: &str, expected: &str) -> (r: bool)
    ensures
        r == (role_or(*m, default@) == expected@),
{
    match get_str(get_field(m, "role")) {
        Some(role) => str_eq(role.as_str(), expected),
        None => str_eq(default, expected),
    }
}

/// The `model` member of a body, or `"unknown"`.
fn model_of(body: &Json) -> (r: String)
    ensures
        r@ == match field_str(*body, "model"@) {
            Some(m) => m,
            None => "unknown"@,
        },
{
    match get_str(get_field(body, "model")) {
        Some(m) => m.clone(),
        None => owned("unknown"),
    }
}

/// Bytes of the serialized tool definitions and their number, for Anthropic
/// and OpenAI bodies.
fn tool_definitions(body: &Json) -> (r: Option<(usize, usize)>)
    ensures
        r is Some <==> tool_bytes(*body) <= usize::MAX,
        r matches Some(v) ==> v.0 == tool_bytes(*body) && v.1 == tools_of(*body).len(),
{
    match get_array(get_field(body, "tools")) {
        Some(arr) => match sum_serialized_lens(arr) {
            Some(v) => Some((v, arr.len())),
            None => None,
        },
        None => Some((0, 0)),
    }
}

/// Adds the five token counts of a breakdown (`None` when the total exceeds
/// `usize`).
fn total_tokens(a: usize, b: usize, c: usize, d: usize, e: usize) -> (r: Option<usize>)
    ensures
        r is Some <==> a + b + c + d + e <= usize::MAX,
        r matches Some(v) ==> v == a + b + c + d + e,
{
    let x = match plus(a, b) {
        Some(v) => v,
        None => return None,
    };
    let y = match plus(x, c) {
        Some(v) => v,
        None => return None,
    };
    let z = match plus(y, d) {
        Some(v) => v,
        None => return None,
    };
    plus(z, e)
}

fn analyze_anthropic(body: &Json) -> (r: Option<RequestBreakdown>)
    ensures
        r is Some <==> analysis_fits(*body, Provider::Anthropic),
        r matches Some(b) ==> describes(b, *body, Provider::Anthropic),
{
    let ghost p = Provider::Anthropic;
    let model = model_of(body);
    let system_prompt_tokens: usize = match get_field(body, "system") {
        Some(s) => match &s.kind {
            JsonKind::Str(t) => byte_len(t.as_str()) / 4,
            JsonKind::Array(items) => match sum_text_lens(items) {
                Some(v) => v / 4,
                None => return None,
            },
            _ => 0,
        },
        None => 0,
    };
    let (tool_bytes_total, tool_definition_count) = match tool_definitions(body) {
        Some(v) => v,
        None => return None,
    };
    let tool_definition_tokens = tool_bytes_total / 4;
    let mut user: usize = 0;
    let mut assistant: usize = 0;
    let mut tool_result: usize = 0;
    let mut images: usize = 0;
    let mut message_count: usize = 0;
    if let Some(msgs) = get_array(get_field(body, "messages")) {
        message_count = msgs.len();
        let mut i: usize = 0;
        while i < msgs.len()
            invariant
                0 <= i <= msgs.len(),
                p == Provider::Anthropic,
                messages_of(*body, p) == msgs@,
                user == sum_of(msgs@.take(i as int), anthropic_user_f()),
                assistant == sum_of(msgs@.take(i as int), anthropic_assistant_f()),
                tool_result == sum_of(msgs@.take(i as int), anthropic_tool_result_f()),
                images == sum_of(msgs@.take(i as int), msg_images_f()),
            decreases msgs.len() - i,
        {
            let m = &msgs[i];
            proof {
                let ii = i as int;
                lemma_sum_of_step(msgs@, anthropic_user_f(), ii);
                lemma_sum_of_step(msgs@, anthropic_assistant_f(), ii);
                lemma_sum_of_step(msgs@, anthropic_tool_result_f(), ii);
                lemma_sum_of_step(msgs@, msg_images_f(), ii);
                lemma_sum_of_prefix(msgs@, anthropic_user_f(), ii + 1);
                lemma_sum_of_prefix(msgs@, anthropic_assistant_f(), ii + 1);
                lemma_sum_of_prefix(msgs@, anthropic_tool_result_f(), ii + 1);
                lemma_sum_of_prefix(msgs@, msg_images_f(), ii + 1);
            }
            let role_user = role_is(m, "", "user");
            let role_assistant = role_is(m, "", "assistant");
            let content = get_field(m, "content");
            proof {
                reveal_strlit("user");
                reveal_strlit("assistant");
                assert("user"@.len() != "assistant"@.len());
                let ii = i as int;
                assert(opt_json(content) == field(msgs@[ii], "content"@));
                lemma_sum_of_elem(msgs@, anthropic_user_f(), ii);
                lemma_sum_of_elem(msgs@, anthropic_assistant_f(), ii);
                lemma_sum_of_elem(msgs@, anthropic_tool_result_f(), ii);
                lemma_sum_of_elem(msgs@, msg_images_f(), ii);
                assert(anthropic_user(msgs@[ii]) + anthropic_assistant(msgs@[ii])
                    + anthropic_tool_result(msgs@[ii]) >= msg_tokens(msgs@[ii]));
            }
            let content_tokens = match estimate_content_tokens(content) {
                Some(v) => v,
                None => {
                    proof {
                        assert(!analysis_fits(*body, p));
                    }
                    return None;
                },
            };
            let message_images = match count_images(content) {
                Some(v) => v,
                None => {
                    proof {
                        assert(!analysis_fits(*body, p));
                    }
                    return None;
                },
            };
            images = match plus(images, message_images) {
                Some(v) => v,
                None => return None,
            };
            let carries_results = has_tool_results(content);
            if role_user && carries_results {
                tool_result = match plus(tool_result, content_tokens) {
                    Some(v) => v,
                    None => return None,
                };
            } else if role_assistant {
                assistant = match plus(assistant, content_tokens) {
                    Some(v) => v,
                    None => return None,
                };
            } else {
                user = match plus(user, content_tokens) {
                    Some(v) => v,
                    None => return None,
                };
            }
            i = i + 1;
        }
        proof {
            lemma_sum_of_all(msgs@, anthropic_user_f());
            lemma_sum_of_all(msgs@, anthropic_assistant_f());
            lemma_sum_of_all(msgs@, anthropic_tool_result_f());
            lemma_sum_of_all(msgs@, msg_images_f());
        }
    }
    let total_input_tokens = match total_tokens(
        system_prompt_tokens,
        user,
        assistant,
        tool_definition_tokens,
        tool_result,
    ) {
        Some(v) => v,
        None => return None,
    };
    Some(
        RequestBreakdown {
            provider: Provider::Anthropic,
            model,
            system_prompt_tokens,
            user_message_tokens: user,
            assistant_message_tokens: assistant,
            tool_definition_tokens,
            tool_definition_count,
            tool_result_tokens: tool_result,
            image_count: images,
            total_input_tokens,
            message_count,
        },
    )
}

fn analyze_openai(body: &Json) -> (r: Option<RequestBreakdown>)
    ensures
        r is Some <==> analysis_fits(*body, Provider::OpenAi),
        r matches Some(b) ==> describes(b, *body, Provider::OpenAi),
{
    let ghost p = Provider::OpenAi;
    let model = model_of(body);
    let mut system: usize = 0;
    let mut user: usize = 0;
    let mut assistant: usize = 0;
    let mut tool_result: usize = 0;
    let mut images: usize = 0;
    let mut message_count: usize = 0;
    if let Some(msgs) = get_array(get_field(body, "messages")) {
        message_count = msgs.len();
        let mut i: usize = 0;
        while i < msgs.len()
            invariant
                0 <= i <= msgs.len(),
                p == Provider::OpenAi,
                messages_of(*body, p) == msgs@,
                system == sum_of(msgs@.take(i as int), openai_system_f()),
                user == sum_of(msgs@.take(i as int), openai_user_f()),
                assistant == sum_of(msgs@.take(i as int), openai_assistant_f()),
                tool_result == sum_of(msgs@.take(i as int), openai_tool_result_f()),
                images == sum_of(msgs@.take(i as int), msg_images_f()),
            decreases msgs.len() - i,
        {
            let m = &msgs[i];
            proof {
                let ii = i as int;
                lemma_sum_of_step(msgs@, openai_system_f(), ii);
                lemma_sum_of_step(msgs@, openai_user_f(), ii);
                lemma_sum_of_step(msgs@, openai_assistant_f(), ii);
                lemma_sum_of_step(msgs@, openai_tool_result_f(), ii);
                lemma_sum_of_step(msgs@, msg_images_f(), ii);
                lemma_sum_of_prefix(msgs@, openai_system_f(), ii + 1);
                lemma_sum_of_prefix(msgs@, openai_user_f(), ii + 1);
                lemma_sum_of_prefix(msgs@, openai_assistant_f(), ii + 1);
                lemma_sum_of_prefix(msgs@, openai_tool_result_f(), ii + 1);
                lemma_sum_of_prefix(msgs@, msg_images_f(), ii + 1);
            }
            let is_system = role_is(m, "", "system") || role_is(m, "", "developer");
            let is_assistant = role_is(m, "", "assistant");
            let is_tool = role_is(m, "", "tool");
            let content = get_field(m, "content");
            proof {
                reveal_strlit("assistant");
                reveal_strlit("tool");
                assert("assistant"@.len() != "tool"@.len());
                let ii = i as int;
                assert(opt_json(content) == field(msgs@[ii], "content"@));
                lemma_sum_of_elem(msgs@, openai_system_f(), ii);
                lemma_sum_of_elem(msgs@, openai_user_f(), ii);
                lemma_sum_of_elem(msgs@, openai_assistant_f(), ii);
                lemma_sum_of_elem(msgs@, openai_tool_result_f(), ii);
                lemma_sum_of_elem(msgs@, msg_images_f(), ii);
                assert(openai_system(msgs@[ii]) + openai_user(msgs@[ii]) + openai_assistant(
                    msgs@[ii],
                ) + openai_tool_result(msgs@[ii]) >= msg_tokens(msgs@[ii]));
            }
            let content_tokens = match estimate_content_tokens(content) {
                Some(v) => v,
                None => return None,
            };
            let message_images = match count_images(content) {
                Some(v) => v,
                None => return None,
            };
            images = match plus(images, message_images) {
                Some(v) => v,
                None => return None,
            };
            if is_system {
                system = match plus(system, content_tokens) {
                    Some(v) => v,
                    None => return None,
                };
            } else if is_assistant {
                assistant = match plus(assistant, content_tokens) {
                    Some(v) => v,
                    None => return None,
                };
            } else if is_tool {
                tool_result = match plus(tool_result, content_tokens) {
                    Some(v) => v,
                    None => return None,
                };
            } else {
                user = match plus(user, content_tokens) {
                    Some(v) => v,
                    None => return None,
                };
            }
            i = i + 1;
        }
        proof {
            lemma_sum_of_all(msgs@, openai_system_f());
            lemma_sum_of_all(msgs@, openai_user_f());
            lemma_sum_of_all(msgs@, openai_assistant_f());
            lemma_sum_of_all(msgs@, openai_tool_result_f());
            lemma_sum_of_all(msgs@, msg_images_f());
        }
    }
    let (tool_bytes_total, tool_definition_count) = match tool_definitions(body) {
        Some(v) => v,
        None => return None,
    };
    let tool_definition_tokens = tool_bytes_total / 4;
    let total_input_tokens = match total_tokens(
        system,
        user,
        assistant,
        tool_definition_tokens,
        tool_result,
    ) {
        Some(v) => v,
        None => return None,
    };
    Some(
        RequestBreakdown {
            provider: Provider::OpenAi,
            model,
            system_prompt_tokens: system,
            user_message_tokens: user,
            assistant_message_tokens: assistant,
            tool_definition_tokens,
            tool_definition_count,
            tool_result_tokens: tool_result,
            image_count: images,
            total_input_tokens,
            message_count,
        },
    )
}

fn gemini_part_tokens_exec(part: &Json) -> (r: usize)
    ensures
        r == gemini_part_tokens(*part),
{
    if get_field(part, "functionResponse").is_some() {
        part.text_len / 4
    } else {
        match get_str(get_field(part, "text")) {
            Some(t) => byte_len(t.as_str()) / 4,
            None => 0,
        }
    }
}

/// Tokens of the parts of a Gemini content entry.
fn gemini_tokens_exec(c: &Json) -> (r: Option<usize>)
    ensures
        r is Some <==> gemini_tokens(*c) <= usize::MAX,
        r matches Some(v) ==> v == gemini_tokens(*c),
{
    let parts = match get_array(get_field(c, "parts")) {
        Some(parts) => parts,
        None => {
            return Some(0);
        },
    };
    let mut acc: usize = 0;
    let mut i: usize = 0;
    while i < parts.len()
        invariant
            0 <= i <= parts.len(),
            gemini_parts(*c) == parts@,
            acc == sum_of(parts@.take(i as int), gemini_part_tokens_f()),
        decreases parts.len() - i,
    {
        proof {
            lemma_sum_of_step(parts@, gemini_part_tokens_f(), i as int);
            lemma_sum_of_prefix(parts@, gemini_part_tokens_f(), i + 1);
        }
        let x = gemini_part_tokens_exec(&parts[i]);
        acc = match plus(acc, x) {
            Some(v) => v,
            None => return None,
        };
        i = i + 1;
    }
    proof {
        lemma_sum_of_all(parts@, gemini_part_tokens_f());
    }
    Some(acc)
}

/// Whether some part of a Gemini content entry is a `functionResponse`.
fn gemini_has_function_response_exec(c: &Json) -> (r: bool)
    ensures
        r == gemini_has_function_response(*c),
{
    let parts = match get_array(get_field(c, "parts")) {
        Some(parts) => parts,
        None => {
            return false;
        },
    };
    let mut i: usize = 0;
    while i < parts.len()
        invariant
            0 <= i <= parts.len(),
            gemini_parts(*c) == parts@,
            forall|k: int| 0 <= k < i ==> field(#[trigger] parts@[k], "functionResponse"@) is None,
        decreases parts.len() - i,
    {
        if get_field(&parts[i], "functionResponse").is_some() {
            assert(field(parts@[i as int], "functionResponse"@) is Some);
            return true;
        }
        i = i + 1;
    }
    false
}

/// Number of `functionDeclarations` over all Gemini tool entries.
fn gemini_declaration_count(body: &Json) -> (r: Option<usize>)
    ensures
        r is Some <==> sum_of(tools_of(*body), gemini_declarations_f()) <= usize::MAX,
        r matches Some(v) ==> v == sum_of(tools_of(*body), gemini_declarations_f()),
{
    let tools = match get_array(get_field(body, "tools")) {
        Some(t) => t,
        None => {
            return Some(0);
        },
    };
    let mut acc: usize = 0;
    let mut i: usize = 0;
    while i < tools.len()
        invariant
            0 <= i <= tools.len(),
            tools_of(*body) == tools@,
            acc == sum_of(tools@.take(i as int), gemini_declarations_f()),
        decreases tools.len() - i,
    {
        proof {
            lemma_sum_of_step(tools@, gemini_declarations_f(), i as int);
            lemma_sum_of_prefix(tools@, gemini_declarations_f(), i + 1);
        }
        let x: usize = match get_array(get_field(&tools[i], "functionDeclarations")) {
            Some(d) => d.len(),
            None => 0,
        };
        acc = match plus(acc, x) {
            Some(v) => v,
            None => return None,
        };
        i = i + 1;
    }
    proof {
        lemma_sum_of_all(tools@, gemini_declarations_f());
    }
    Some(acc)
}

fn analyze_gemini(body: &Json) -> (r: Option<RequestBreakdown>)
    ensures
        r is Some <==> analysis_fits(*body, Provider::Gemini),
        r matches Some(b) ==> describes(b, *body, Provider::Gemini),
{
    let ghost p = Provider::Gemini;
    let model = owned("gemini");
    let system_prompt_tokens: usize = match get_field(body, "systemInstruction") {
        Some(si) => match get_array(get_field(si, "parts")) {
            Some(parts) => match sum_text_lens(parts) {
                Some(v) => v / 4,
                None => return None,
            },
            None => 0,
        },
        None => 0,
    };
    let mut user: usize = 0;
    let mut assistant: usize = 0;
    let mut tool_result: usize = 0;
    let mut message_count: usize = 0;
    if let Some(contents) = get_array(get_field(body, "contents")) {
        message_count = contents.len();
        let mut i: usize = 0;
        while i < contents.len()
            invariant
                0 <= i <= contents.len(),
                p == Provider::Gemini,
                messages_of(*body, p) == contents@,
                user == sum_of(contents@.take(i as int), gemini_user_f()),
                assistant == sum_of(contents@.take(i as int), gemini_assistant_f()),
                tool_result == sum_of(contents@.take(i as int), gemini_tool_result_f()),
            decreases contents.len() - i,
        {
            let c = &contents[i];
            proof {
                let ii = i as int;
                lemma_sum_of_step(contents@, gemini_user_f(), ii);
                lemma_sum_of_step(contents@, gemini_assistant_f(), ii);
                lemma_sum_of_step(contents@, gemini_tool_result_f(), ii);
                lemma_sum_of_prefix(contents@, gemini_user_f(), ii + 1);
                lemma_sum_of_prefix(contents@, gemini_assistant_f(), ii + 1);
                lemma_sum_of_prefix(contents@, gemini_tool_result_f(), ii + 1);
                lemma_sum_of_elem(contents@, gemini_user_f(), ii);
                lemma_sum_of_elem(contents@, gemini_assistant_f(), ii);
                lemma_sum_of_elem(contents@, gemini_tool_result_f(), ii);
                assert(gemini_user(contents@[ii]) + gemini_assistant(contents@[ii])
                    + gemini_tool_result(contents@[ii]) >= gemini_tokens(contents@[ii]));
            }
            let is_model = role_is(c, "user", "model");
            let parts_tokens = match gemini_tokens_exec(c) {
                Some(v) => v,
                None => return None,
            };
            let has_function_response = gemini_has_function_response_exec(c);
            if has_function_response {
                tool_result = match plus(tool_result, parts_tokens) {
                    Some(v) => v,
                    None => return None,
                };
            } else if is_model {
                assistant = match plus(assistant, parts_tokens) {
                    Some(v) => v,
                    None => return None,
                };
            } else {
                user = match plus(user, parts_tokens) {
                    Some(v) => v,
                    None => return None,
                };
            }
            i = i + 1;
        }
        proof {
            lemma_sum_of_all(contents@, gemini_user_f());
            lemma_sum_of_all(contents@, gemini_assistant_f());
            lemma_sum_of_all(contents@, gemini_tool_result_f());
        }
    }
    let tool_bytes_total = match tool_definitions(body) {
        Some(v) => v.0,
        None => return None,
    };
    let tool_definition_tokens = tool_bytes_total / 4;
    let tool_definition_count = match gemini_declaration_count(body) {
        Some(v) => v,
        None => return None,
    };
    let total_input_tokens = match total_tokens(
        system_prompt_tokens,
        user,
        assistant,
        tool_definition_tokens,
        tool_result,
    ) {
        Some(v) => v,
        None => return None,
    };
    Some(
        RequestBreakdown {
            provider: Provider::Gemini,
            model,
            system_prompt_tokens,
            user_message_tokens: user,
            assistant_message_tokens: assistant,
            tool_definition_tokens,
            tool_definition_count,
            tool_result_tokens: tool_result,
            image_count: 0,
            total_input_tokens,
            message_count,
        },
    )
}

/// Token breakdown of a request body, or `None` when one of its counts does
/// not fit in `usize` (see [`analysis_fits`]).
pub fn try_analyze_request(body: &Json, provider: Provider) -> (r: Option<RequestBreakdown>)
    ensures
        r is Some <==> analysis_fits(*body, provider),
        r matches Some(b) ==> describes(b, *body, provider),
{
    match provider {
        Provider::Anthropic => analyze_anthropic(body),
        Provider::OpenAi => analyze_openai(body),
        Provider::Gemini => analyze_gemini(body),
    }
}

/// Token breakdown of a request body of the given provider: model, system
/// prompt, user and assistant messages, tool definitions (tokens and count),
/// tool results, images, their total and the number of messages.
pub fn analyze_request(body: &Json, provider: Provider) -> (r: RequestBreakdown)
    requires
        analysis_fits(*body, provider),
    ensures
        describes(r, *body, provider),
{
    try_analyze_request(body, provider).unwrap()
}

/// The total input tokens of a breakdown are the sum of its system, user,
/// assistant, tool-definition and tool-result tokens.
pub proof fn law_total_is_sum_of_parts(b: RequestBreakdown, body: Json, p: Provider)
    requires
        describes(b, body, p),
    ensures
        b.total_input_tokens == b.system_prompt_tokens + b.user_message_tokens
            + b.assistant_message_tokens + b.tool_definition_tokens + b.tool_result_tokens,
{
}

/// Tokens of a message whose `role` is `role`, else 0.
pub open spec fn role_tokens_f(role: Seq<char>) -> spec_fn(Json) -> nat {
    |m: Json|
        if field_str(m, "role"@) == Some(role) {
            msg_tokens(m)
        } else {
            0
        }
}

/// Tokens of every message.
pub open spec fn msg_tokens_f() -> spec_fn(Json) -> nat {
    |m: Json| msg_tokens(m)
}

proof fn lemma_sum_of_same(s: Seq<Json>, f: spec_fn(Json) -> nat, g: spec_fn(Json) -> nat)
    requires
        forall|i: int| 0 <= i < s.len() ==> f(s[i]) == g(s[i]),
    ensures
        sum_of(s, f) == sum_of(s, g),
    decreases s.len(),
{
    if s.len() > 0 {
        let p = s.drop_last();
        assert forall|i: int| 0 <= i < p.len() implies f(p[i]) == g(p[i]) by {
            assert(p[i] == s[i]);
        }
        lemma_sum_of_same(p, f, g);
        assert(f(s[s.len() - 1]) == g(s[s.len() - 1]));
    }
}

proof fn lemma_sum_of_split(
    s: Seq<Json>,
    f1: spec_fn(Json) -> nat,
    f2: spec_fn(Json) -> nat,
    f3: spec_fn(Json) -> nat,
    f4: spec_fn(Json) -> nat,
    g: spec_fn(Json) -> nat,
)
    requires
        forall|i: int| 0 <= i < s.len() ==> f1(s[i]) + f2(s[i]) + f3(s[i]) + f4(s[i]) == g(s[i]),
    ensures
        sum_of(s, f1) + sum_of(s, f2) + sum_of(s, f3) + sum_of(s, f4) == sum_of(s, g),
    decreases s.len(),
{
    if s.len() > 0 {
        let p = s.drop_last();
        assert forall|i: int| 0 <= i < p.len() implies f1(p[i]) + f2(p[i]) + f3(p[i]) + f4(p[i])
            == g(p[i]) by {
            assert(p[i] == s[i]);
        }
        lemma_sum_of_split(p, f1, f2, f3, f4, g);
        let l = s[s.len() - 1];
        assert(f1(l) + f2(l) + f3(l) + f4(l) == g(l));
    }
}

proof fn lemma_openai_roles_distinct()
    ensures
        "system"@ != "assistant"@,
        "system"@ != "developer"@,
        "system"@ != "tool"@,
        "developer"@ != "assistant"@,
        "developer"@ != "tool"@,
        "assistant"@ != "tool"@,
        ""@ != "assistant"@,
        ""@ != "tool"@,
        ""@ != "system"@,
        ""@ != "developer"@,
{
    reveal_strlit("system");
    reveal_strlit("developer");
    reveal_strlit("assistant");
    reveal_strlit("tool");
    reveal_strlit("");
    assert("system"@.len() == 6);
    assert("developer"@.len() == 9);
    assert("assistant"@.len() == 9);
    assert("tool"@.len() == 4);
    assert(""@.len() == 0);
    assert("developer"@[0] != "assistant"@[0]);
}

/// How an OpenAI request's messages are counted: every message's tokens go
/// to exactly one of system prompt, user, assistant and tool result;
/// assistant tokens are those of the messages whose role is `assistant`, tool
/// results those whose role is `tool`, the system prompt those whose role is
/// `system` or `developer`.
pub proof fn law_openai_messages_by_role(b: RequestBreakdown, body: Json)
    requires
        describes(b, body, Provider::OpenAi),
    ensures
        b.assistant_message_tokens == sum_of(
            messages_of(body, Provider::OpenAi),
            role_tokens_f("assistant"@),
        ),
        b.tool_result_tokens == sum_of(messages_of(body, Provider::OpenAi), role_tokens_f("tool"@)),
        b.system_prompt_tokens == sum_of(messages_of(body, Provider::OpenAi), role_tokens_f("system"@))
            + sum_of(messages_of(body, Provider::OpenAi), role_tokens_f("developer"@)),
        b.system_prompt_tokens + b.user_message_tokens + b.assistant_message_tokens
            + b.tool_result_tokens == sum_of(messages_of(body, Provider::OpenAi), msg_tokens_f()),
{
    let ms = messages_of(body, Provider::OpenAi);
    lemma_openai_roles_distinct();
    lemma_sum_of_same(ms, openai_assistant_f(), role_tokens_f("assistant"@));
    lemma_sum_of_same(ms, openai_tool_result_f(), role_tokens_f("tool"@));
    let zero = |m: Json| 0nat;
    lemma_sum_of_split(
        ms,
        role_tokens_f("system"@),
        role_tokens_f("developer"@),
        zero,
        zero,
        openai_system_f(),
    );
    lemma_sum_of_split(
        ms,
        openai_system_f(),
        openai_user_f(),
        openai_assistant_f(),
        openai_tool_result_f(),
        msg_tokens_f(),
    );
    lemma_sum_of_zero(ms, zero);
}

proof fn lemma_sum_of_zero(s: Seq<Json>, z: spec_fn(Json) -> nat)
    requires
        forall|m: Json| #[trigger] z(m) == 0,
    ensures
        sum_of(s, z) == 0,
    decreases s.len(),
{
    if s.len() > 0 {
        lemma_sum_of_zero(s.drop_last(), z);
    }
}

// ---------------------------------------------------------------------------
// Cumulative state.
// ---------------------------------------------------------------------------

/// Whether a record at time `now` (seconds since the epoch) persists, given
/// the time `prev` of the last persist: only when the clock has moved past it.
pub open spec fn persist_due(prev: u64, now: u64) -> bool {
    now > prev
}

/// Introspection totals over all recorded requests.
pub struct IntrospectState {
    pub last_breakdown: Option<RequestBreakdown>,
    pub total_system_prompt_tokens: u64,
    pub total_requests: u64,
    pub last_persist_epoch: u64,
}

impl IntrospectState {
    /// An empty state: nothing recorded, never persisted.
    pub fn new() -> (s: Self)
        ensures
            s.last_breakdown is None,
            s.total_system_prompt_tokens == 0,
            s.total_requests == 0,
            s.last_persist_epoch == 0,
    {
        IntrospectState {
            last_breakdown: None,
            total_system_prompt_tokens: 0,
            total_requests: 0,
            last_persist_epoch: 0,
        }
    }

    /// Records a request breakdown at time `now` (seconds since the epoch).
    /// The counters wrap around as atomic additions do. Returns `Some(now)`
    /// when the state is due to be persisted (at most once per second: only
    /// when `now` is past the last persist time), which then becomes `now`.
    pub fn record(&mut self, breakdown: RequestBreakdown, now: u64) -> (persist_at: Option<u64>)
        ensures
            final(self).total_system_prompt_tokens == (old(self).total_system_prompt_tokens
                + breakdown.system_prompt_tokens) % 0x1_0000_0000_0000_0000,
            final(self).total_requests == (old(self).total_requests + 1) % 0x1_0000_0000_0000_0000,
            final(self).last_breakdown == Some(breakdown),
            persist_due(old(self).last_persist_epoch, now) ==> persist_at == Some(now)
                && final(self).last_persist_epoch == now,
            !persist_due(old(self).last_persist_epoch, now) ==> persist_at is None
                && final(self).last_persist_epoch == old(self).last_persist_epoch,
    {
        let tokens: u64 = breakdown.system_prompt_tokens as u64;
        self.total_system_prompt_tokens = self.total_system_prompt_tokens.wrapping_add(tokens);
        self.total_requests = self.total_requests.wrapping_add(1);
        self.last_breakdown = Some(breakdown);
        if now <= self.last_persist_epoch {
            return None;
        }
        self.last_persist_epoch = now;
        Some(now)
    }
}

impl Default for IntrospectState {
    fn default() -> (s: Self)
        ensures
            s.last_breakdown is None,
            s.total_system_prompt_tokens == 0,
            s.total_requests == 0,
            s.last_persist_epoch == 0,
    {
        IntrospectState::new()
    }
}

/// Persists happen at most once per clock second: after a persist at `t`, a
/// record at any time up to `t` does not persist again.
pub proof fn law_persist_at_most_once_per_second(prev: u64, t: u64, later: u64)
    requires
        persist_due(prev, t),
        later <= t,
    ensures
        !persist_due(t, later),
{
}

/// Whether persisted introspection data written at `ts` is still fresh at
/// `now`: it is at most `max_age_secs` old (a `ts` in the future counts as
/// age 0).
pub fn is_fresh(now: u64, ts: u64, max_age_secs: u64) -> (r: bool)
    ensures
        r == (if now >= ts {
            now - ts <= max_age_secs
        } else {
            true
        }),
{
    now.saturating_sub(ts) <= max_age_secs
}

/// The `ts` of a persisted snapshot: its `ts` member when that is an integer
/// that fits in a `u64`, else 0.
pub open spec fn ts_or_zero(v: serde_json::Value) -> u64 {
    match json_member(v, "ts"@) {
        Some(m) => match json_as_u64(m) {
            Some(t) => t,
            None => 0,
        },
        None => 0,
    }
}

/// Reads persisted introspection data from the text of its file: `None` when
/// the text is not JSON, or when the snapshot, written at its `ts` (0 when it
/// has none), is older than `max_age_secs` at `now`.
pub fn persisted_snapshot(content: &str, now: u64, max_age_secs: u64) -> (r: Option<
    serde_json::Value,
>)
    ensures
        r is Some <==> (serde_json_parse(content@) matches Some(v) && (if now >= ts_or_zero(v) {
            now - ts_or_zero(v) <= max_age_secs
        } else {
            true
        })),
        r matches Some(v) ==> serde_json_parse(content@) == Some(v),
{
    let val = match parse_json_text(content) {
        Ok(v) => v,
        Err(_) => return None,
    };
    let ts = match member(&val, "ts") {
        Some(m) => match as_u64(m) {
            Some(t) => t,
            None => 0,
        },
        None => 0,
    };
    if !is_fresh(now, ts, max_age_secs) {
        return None;
    }
    Some(val)
}

} // verus!
