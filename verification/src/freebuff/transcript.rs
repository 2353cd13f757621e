//! Parser for `chat-messages.json` (JSON array).
//! Unknown fields are ignored; unknown block types become `Block::Other`.

use vstd::prelude::*;
use vstd::utf8::{decode_utf8, encode_utf8, is_char_boundary};

use crate::json::{parse_json, same_text, Json, JsonV, json_parse};
use crate::text::{chars_of, parse_u64, parse_unsigned, string_from};
use crate::acp::types::owned;

verus! {

/// A message in the chat transcript.
#[derive(Debug, Clone, PartialEq)]
pub enum Message {
    /// User message with text content.
    User { content: String },
    /// AI message with blocks.
    Ai {
        blocks: Vec<Block>,
        is_complete: bool,
        completion_time: Option<String>,
        credits: Option<u32>,
        metadata: Option<Json>,
    },
    /// Mode divider or other variant.
    Other,
}

/// A block within an AI message.
#[derive(Debug, Clone, PartialEq)]
pub enum Block {
    /// Text block (reasoning or regular text).
    Text { text_type: String, content: String },
    /// Tool call block.
    Tool {
        tool_call_id: String,
        tool_name: String,
        input: Json,
        output: Option<String>,
        agent_id: Option<String>,
        include_tool_call: Option<bool>,
        is_collapsed: Option<bool>,
    },
    /// Mode divider block.
    ModeDivider { mode: String },
    /// Unknown/other block type.
    Other,
}

/// The mathematical value of a [`Block`].
pub enum BlockV {
    Text { text_type: Seq<char>, content: Seq<char> },
    Tool {
        tool_call_id: Seq<char>,
        tool_name: Seq<char>,
        input: JsonV,
        output: Option<Seq<char>>,
        agent_id: Option<Seq<char>>,
        include_tool_call: Option<bool>,
        is_collapsed: Option<bool>,
    },
    ModeDivider { mode: Seq<char> },
    Other,
}

/// The mathematical value of a [`Message`].
pub enum MessageV {
    User { content: Seq<char> },
    Ai {
        blocks: Seq<BlockV>,
        is_complete: bool,
        completion_time: Option<Seq<char>>,
        credits: Option<u32>,
        metadata: Option<JsonV>,
    },
    Other,
}

/// The value of an optional string.
pub open spec fn opt_view(o: Option<String>) -> Option<Seq<char>> {
    match o {
        Some(s) => Some(s@),
        None => None,
    }
}

impl View for Block {
    type V = BlockV;

    open spec fn view(&self) -> BlockV {
        match self {
            Block::Text { text_type, content } => BlockV::Text {
                text_type: text_type@,
                content: content@,
            },
            Block::Tool {
                tool_call_id,
                tool_name,
                input,
                output,
                agent_id,
                include_tool_call,
                is_collapsed,
            } => BlockV::Tool {
                tool_call_id: tool_call_id@,
                tool_name: tool_name@,
                input: input@,
                output: opt_view(*output),
                agent_id: opt_view(*agent_id),
                include_tool_call: *include_tool_call,
                is_collapsed: *is_collapsed,
            },
            Block::ModeDivider { mode } => BlockV::ModeDivider { mode: mode@ },
            Block::Other => BlockV::Other,
        }
    }
}

/// The values of the blocks.
pub open spec fn blocks_view(bs: Seq<Block>) -> Seq<BlockV> {
    Seq::new(bs.len(), |i: int| bs[i]@)
}

impl View for Message {
    type V = MessageV;

    open spec fn view(&self) -> MessageV {
        match self {
            Message::User { content } => MessageV::User { content: content@ },
            Message::Ai { blocks, is_complete, completion_time, credits, metadata } => MessageV::Ai {
                blocks: blocks_view(blocks@),
                is_complete: *is_complete,
                completion_time: opt_view(*completion_time),
                credits: *credits,
                metadata: match metadata {
                    Some(m) => Some(m@),
                    None => None,
                },
            },
            Message::Other => MessageV::Other,
        }
    }
}

/// The values of the messages.
pub open spec fn messages_view(ms: Seq<Message>) -> Seq<MessageV> {
    Seq::new(ms.len(), |i: int| ms[i]@)
}

impl Block {
    /// Check if this is a reasoning text block.
    pub fn is_reasoning(&self) -> (b: bool)
        ensures
            b == (self@ matches BlockV::Text { text_type, .. } && text_type == "reasoning"@),
    {
        match self {
            Block::Text { text_type, .. } => same_text(text_type.as_str(), "reasoning"),
            _ => false,
        }
    }

    /// Get the content of a text block.
    pub fn text_content(&self) -> (r: Option<&str>)
        ensures
            match self@ {
                BlockV::Text { content, .. } => r matches Some(c) && c@ == content,
                _ => r is None,
            },
    {
        match self {
            Block::Text { content, .. } => Some(content.as_str()),
            _ => None,
        }
    }

    /// Get mutable content of a text block.
    pub fn text_content_mut(&mut self) -> (r: Option<&mut String>)
        ensures
            match old(self)@ {
                BlockV::Text { text_type, content } => r is Some && *r->0 == old(self)->content
                    && final(self)@ == (BlockV::Text { text_type, content: (*final(r->0))@ }),
                _ => r is None && final(self)@ == old(self)@,
            },
    {
        match self {
            Block::Text { content, .. } => Some(content),
            _ => None,
        }
    }

    /// Get tool call ID if this is a tool block.
    pub fn tool_call_id(&self) -> (r: Option<&str>)
        ensures
            match self@ {
                BlockV::Tool { tool_call_id, .. } => r matches Some(c) && c@ == tool_call_id,
                _ => r is None,
            },
    {
        match self {
            Block::Tool { tool_call_id, .. } => Some(tool_call_id.as_str()),
            _ => None,
        }
    }

    /// Get tool name if this is a tool block.
    pub fn tool_name(&self) -> (r: Option<&str>)
        ensures
            match self@ {
                BlockV::Tool { tool_name, .. } => r matches Some(c) && c@ == tool_name,
                _ => r is None,
            },
    {
        match self {
            Block::Tool { tool_name, .. } => Some(tool_name.as_str()),
            _ => None,
        }
    }

    /// Get tool input if this is a tool block.
    pub fn tool_input(&self) -> (r: Option<&Json>)
        ensures
            match self@ {
                BlockV::Tool { input, .. } => r matches Some(c) && c@ == input,
                _ => r is None,
            },
    {
        match self {
            Block::Tool { input, .. } => Some(input),
            _ => None,
        }
    }

    /// Get tool output if this is a tool block.
    pub fn tool_output(&self) -> (r: Option<&str>)
        ensures
            match self@ {
                BlockV::Tool { output, .. } => match output {
                    Some(o) => r matches Some(c) && c@ == o,
                    None => r is None,
                },
                _ => r is None,
            },
    {
        match self {
            Block::Tool { output, .. } => match output {
                Some(o) => Some(o.as_str()),
                None => None,
            },
            _ => None,
        }
    }

    /// Set tool output (for when it becomes available).
    pub fn set_tool_output(&mut self, output: String)
        ensures
            match old(self)@ {
                BlockV::Tool {
                    tool_call_id,
                    tool_name,
                    input,
                    agent_id,
                    include_tool_call,
                    is_collapsed,
                    ..
                } => final(self)@ == BlockV::Tool {
                    tool_call_id,
                    tool_name,
                    input,
                    output: Some(output@),
                    agent_id,
                    include_tool_call,
                    is_collapsed,
                },
                _ => final(self)@ == old(self)@,
            },
    {
        match self {
            Block::Tool { output: o, .. } => {
                *o = Some(output);
            },
            _ => {},
        }
    }
}

/// A required string field: present and a string.
pub open spec fn req_str(v: Option<JsonV>) -> Option<Seq<char>> {
    match v {
        Some(JsonV::Str(s)) => Some(s),
        _ => None,
    }
}

/// An optional string field: absent or `null` is `Ok(None)`, a string is
/// `Ok(Some(..))`, anything else is an error.
pub open spec fn opt_str(v: Option<JsonV>) -> Result<Option<Seq<char>>, ()> {
    match v {
        None => Ok(None),
        Some(JsonV::Null) => Ok(None),
        Some(JsonV::Str(s)) => Ok(Some(s)),
        _ => Err(()),
    }
}

/// An optional boolean field.
pub open spec fn opt_bool(v: Option<JsonV>) -> Result<Option<bool>, ()> {
    match v {
        None => Ok(None),
        Some(JsonV::Null) => Ok(None),
        Some(JsonV::Bool(b)) => Ok(Some(b)),
        _ => Err(()),
    }
}

/// A boolean field that defaults to `false` when absent.
pub open spec fn default_false(v: Option<JsonV>) -> Result<bool, ()> {
    match v {
        None => Ok(false),
        Some(JsonV::Bool(b)) => Ok(b),
        _ => Err(()),
    }
}

/// An optional `u32` field: a number whose text is a `u32`.
pub open spec fn opt_u32(v: Option<JsonV>) -> Result<Option<u32>, ()> {
    match v {
        None => Ok(None),
        Some(JsonV::Null) => Ok(None),
        Some(JsonV::Number(t)) => match parse_unsigned(t, u32::MAX as nat) {
            Some(n) => Ok(Some(n as u32)),
            None => Err(()),
        },
        _ => Err(()),
    }
}

/// An optional field of any JSON value: absent or `null` is `None`.
pub open spec fn opt_value(v: Option<JsonV>) -> Option<JsonV> {
    match v {
        None => None,
        Some(JsonV::Null) => None,
        Some(x) => Some(x),
    }
}

/// The block that `v` encodes, tagged by `type`: `text`, `tool` and
/// `mode-divider` with their fields, any other tag `Other`. `None` when
/// `v` is not an object, the tag is not a string, or a field is missing or
/// of the wrong type.
pub open spec fn decode_block(v: JsonV) -> Option<BlockV> {
    if !(v is Object) {
        None
    } else {
        match req_str(v.get("type"@)) {
            None => None,
            Some(tag) => if tag == "text"@ {
                match (req_str(v.get("textType"@)), req_str(v.get("content"@))) {
                    (Some(tt), Some(c)) => Some(BlockV::Text { text_type: tt, content: c }),
                    _ => None,
                }
            } else if tag == "tool"@ {
                match (
                    req_str(v.get("toolCallId"@)),
                    req_str(v.get("toolName"@)),
                    v.get("input"@),
                    opt_str(v.get("output"@)),
                    opt_str(v.get("agentId"@)),
                    opt_bool(v.get("includeToolCall"@)),
                    opt_bool(v.get("isCollapsed"@)),
                ) {
                    (Some(id), Some(name), Some(input), Ok(output), Ok(agent), Ok(inc), Ok(col)) => Some(
                        BlockV::Tool {
                            tool_call_id: id,
                            tool_name: name,
                            input,
                            output,
                            agent_id: agent,
                            include_tool_call: inc,
                            is_collapsed: col,
                        },
                    ),
                    _ => None,
                }
            } else if tag == "mode-divider"@ {
                match req_str(v.get("mode"@)) {
                    Some(m) => Some(BlockV::ModeDivider { mode: m }),
                    None => None,
                }
            } else {
                Some(BlockV::Other)
            },
        }
    }
}

/// The blocks that the elements of `items`, from `k` on, encode; `None`
/// when one of them does not decode.
pub open spec fn decode_blocks_from(items: Seq<JsonV>, k: int) -> Option<Seq<BlockV>>
    decreases items.len() - k,
{
    if k < 0 || k >= items.len() {
        Some(Seq::empty())
    } else {
        match (decode_block(items[k]), decode_blocks_from(items, k + 1)) {
            (Some(b), Some(rest)) => Some(seq![b] + rest),
            _ => None,
        }
    }
}

/// The message that `v` encodes, tagged by `variant`: `user` with its
/// `content`, `ai` with its `blocks` and optional fields (`isComplete`
/// defaults to `false`), any other tag `Other`.
pub open spec fn decode_message(v: JsonV) -> Option<MessageV> {
    if !(v is Object) {
        None
    } else {
        match req_str(v.get("variant"@)) {
            None => None,
            Some(tag) => if tag == "user"@ {
                match req_str(v.get("content"@)) {
                    Some(c) => Some(MessageV::User { content: c }),
                    None => None,
                }
            } else if tag == "ai"@ {
                match (
                    v.get("blocks"@),
                    default_false(v.get("isComplete"@)),
                    opt_str(v.get("completionTime"@)),
                    opt_u32(v.get("credits"@)),
                ) {
                    (Some(JsonV::Array(items)), Ok(done), Ok(time), Ok(credits)) => match decode_blocks_from(items, 0) {
                        Some(bs) => Some(
                            MessageV::Ai {
                                blocks: bs,
                                is_complete: done,
                                completion_time: time,
                                credits,
                                metadata: opt_value(v.get("metadata"@)),
                            },
                        ),
                        None => None,
                    },
                    _ => None,
                }
            } else {
                Some(MessageV::Other)
            },
        }
    }
}

/// The messages that the elements of `items`, from `k` on, encode.
pub open spec fn decode_messages_from(items: Seq<JsonV>, k: int) -> Option<Seq<MessageV>>
    decreases items.len() - k,
{
    if k < 0 || k >= items.len() {
        Some(Seq::empty())
    } else {
        match (decode_message(items[k]), decode_messages_from(items, k + 1)) {
            (Some(m), Some(rest)) => Some(seq![m] + rest),
            _ => None,
        }
    }
}

/// What [`parse_messages`] accepts: a JSON array of messages. `None` when
/// the text is not JSON, not an array, or an element does not decode.
pub open spec fn messages_spec(text: Seq<char>) -> Option<Seq<MessageV>> {
    match json_parse(text) {
        Ok(v) => messages_of(v),
        Err(_) => None,
    }
}

/// A copy of a string.
fn copy_string(s: &String) -> (r: String)
    ensures
        r@ == s@,
{
    s.clone()
}

fn get_req_str(v: &Json, key: &str) -> (r: Option<String>)
    ensures
        opt_view(r) == req_str(v@.get(key@)),
{
    match v.get(key) {
        Some(Json::Str(s)) => Some(copy_string(s)),
        _ => None,
    }
}

fn get_opt_str(v: &Json, key: &str) -> (r: Result<Option<String>, ()>)
    ensures
        match r {
            Ok(o) => opt_str(v@.get(key@)) == Ok::<Option<Seq<char>>, ()>(opt_view(o)),
            Err(_) => opt_str(v@.get(key@)) is Err,
        },
{
    match v.get(key) {
        None => Ok(None),
        Some(Json::Null) => Ok(None),
        Some(Json::Str(s)) => Ok(Some(copy_string(s))),
        _ => Err(()),
    }
}

fn get_opt_bool(v: &Json, key: &str) -> (r: Result<Option<bool>, ()>)
    ensures
        r == opt_bool(v@.get(key@)),
{
    match v.get(key) {
        None => Ok(None),
        Some(Json::Null) => Ok(None),
        Some(Json::Bool(b)) => Ok(Some(*b)),
        _ => Err(()),
    }
}

fn get_default_false(v: &Json, key: &str) -> (r: Result<bool, ()>)
    ensures
        r == default_false(v@.get(key@)),
{
    match v.get(key) {
        None => Ok(false),
        Some(Json::Bool(b)) => Ok(*b),
        _ => Err(()),
    }
}

fn get_opt_u32(v: &Json, key: &str) -> (r: Result<Option<u32>, ()>)
    ensures
        r == opt_u32(v@.get(key@)),
{
    match v.get(key) {
        None => Ok(None),
        Some(Json::Null) => Ok(None),
        Some(Json::Number(t)) => {
            let c = chars_of(t.as_str());
            assert(c@.subrange(0, c@.len() as int) == c@);
            match parse_u64(&c, 0, c.len()) {
                Some(n) => if n <= 4294967295u64 {
                    Ok(Some(n as u32))
                } else {
                    Err(())
                },
                None => Err(()),
            }
        },
        _ => Err(()),
    }
}

/// Decodes one block.
pub fn block_from_json(v: &Json) -> (r: Option<Block>)
    ensures
        match r {
            Some(b) => decode_block(v@) == Some(b@),
            None => decode_block(v@) is None,
        },
{
    match v {
        Json::Object(_) => {},
        _ => return None,
    }
    let tag = match get_req_str(v, "type") {
        Some(t) => t,
        None => return None,
    };
    if same_text(tag.as_str(), "text") {
        match (get_req_str(v, "textType"), get_req_str(v, "content")) {
            (Some(tt), Some(c)) => Some(Block::Text { text_type: tt, content: c }),
            _ => None,
        }
    } else if same_text(tag.as_str(), "tool") {
        let id = match get_req_str(v, "toolCallId") {
            Some(x) => x,
            None => return None,
        };
        let name = match get_req_str(v, "toolName") {
            Some(x) => x,
            None => return None,
        };
        let input = match v.get("input") {
            Some(x) => x.copy(),
            None => return None,
        };
        let output = match get_opt_str(v, "output") {
            Ok(x) => x,
            Err(_) => return None,
        };
        let agent_id = match get_opt_str(v, "agentId") {
            Ok(x) => x,
            Err(_) => return None,
        };
        let include_tool_call = match get_opt_bool(v, "includeToolCall") {
            Ok(x) => x,
            Err(_) => return None,
        };
        let is_collapsed = match get_opt_bool(v, "isCollapsed") {
            Ok(x) => x,
            Err(_) => return None,
        };
        Some(
            Block::Tool {
                tool_call_id: id,
                tool_name: name,
                input,
                output,
                agent_id,
                include_tool_call,
                is_collapsed,
            },
        )
    } else if same_text(tag.as_str(), "mode-divider") {
        match get_req_str(v, "mode") {
            Some(m) => Some(Block::ModeDivider { mode: m }),
            None => None,
        }
    } else {
        Some(Block::Other)
    }
}

/// Decodes the elements of `items` as blocks.
fn blocks_from_json(items: &Vec<Json>) -> (r: Option<Vec<Block>>)
    ensures
        match r {
            Some(bs) => decode_blocks_from(items@.map_values(|j: Json| j@), 0) == Some(blocks_view(bs@)),
            None => decode_blocks_from(items@.map_values(|j: Json| j@), 0) is None,
        },
{
    let ghost vs = items@.map_values(|j: Json| j@);
    let mut out: Vec<Block> = Vec::new();
    let mut k: usize = 0;
    while k < items.len()
        invariant
            k <= items@.len(),
            vs == items@.map_values(|j: Json| j@),
            out@.len() == k,
            forall|i: int| 0 <= i < k ==> decode_block(vs[i]) == Some((#[trigger] out@[i])@),
        decreases items@.len() - k,
    {
        match block_from_json(&items[k]) {
            Some(b) => out.push(b),
            None => {
                proof {
                    lemma_decode_blocks_fail(vs, 0, k as int);
                }
                return None;
            },
        }
        k = k + 1;
    }
    proof {
        lemma_decode_blocks_ok(vs, 0, blocks_view(out@));
    }
    Some(out)
}

proof fn lemma_decode_blocks_fail(vs: Seq<JsonV>, k: int, bad: int)
    requires
        0 <= k <= bad < vs.len(),
        decode_block(vs[bad]) is None,
    ensures
        decode_blocks_from(vs, k) is None,
    decreases bad - k,
{
    if k < bad {
        lemma_decode_blocks_fail(vs, k + 1, bad);
    }
}

proof fn lemma_decode_blocks_ok(vs: Seq<JsonV>, k: int, bs: Seq<BlockV>)
    requires
        0 <= k <= vs.len(),
        bs.len() == vs.len(),
        forall|i: int| 0 <= i < vs.len() ==> decode_block(vs[i]) == Some(#[trigger] bs[i]),
    ensures
        decode_blocks_from(vs, k) == Some(bs.subrange(k, bs.len() as int)),
    decreases vs.len() - k,
{
    if k < vs.len() {
        lemma_decode_blocks_ok(vs, k + 1, bs);
        assert(bs.subrange(k, bs.len() as int) == seq![bs[k]] + bs.subrange(k + 1, bs.len() as int));
    } else {
        assert(bs.subrange(k, bs.len() as int) =~= Seq::<BlockV>::empty());
    }
}

proof fn lemma_array_view(items: Vec<Json>)
    ensures
        Json::Array(items)@ == JsonV::Array(items@.map_values(|j: Json| j@)),
{
    if let JsonV::Array(a) = Json::Array(items)@ {
        assert(a =~= items@.map_values(|j: Json| j@));
    }
}

/// Decodes one message.
pub fn message_from_json(v: &Json) -> (r: Option<Message>)
    ensures
        match r {
            Some(m) => decode_message(v@) == Some(m@),
            None => decode_message(v@) is None,
        },
{
    match v {
        Json::Object(_) => {},
        _ => return None,
    }
    let tag = match get_req_str(v, "variant") {
        Some(t) => t,
        None => return None,
    };
    if same_text(tag.as_str(), "user") {
        match get_req_str(v, "content") {
            Some(c) => Some(Message::User { content: c }),
            None => None,
        }
    } else if same_text(tag.as_str(), "ai") {
        let items = match v.get("blocks") {
            Some(Json::Array(items)) => items,
            _ => return None,
        };
        proof {
            lemma_array_view(*items);
        }
        let done = match get_default_false(v, "isComplete") {
            Ok(x) => x,
            Err(_) => return None,
        };
        let time = match get_opt_str(v, "completionTime") {
            Ok(x) => x,
            Err(_) => return None,
        };
        let credits = match get_opt_u32(v, "credits") {
            Ok(x) => x,
            Err(_) => return None,
        };
        let blocks = match blocks_from_json(items) {
            Some(bs) => bs,
            None => return None,
        };
        let metadata = match v.get("metadata") {
            None => None,
            Some(Json::Null) => None,
            Some(x) => Some(x.copy()),
        };
        Some(
            Message::Ai {
                blocks,
                is_complete: done,
                completion_time: time,
                credits,
                metadata,
            },
        )
    } else {
        Some(Message::Other)
    }
}

proof fn lemma_decode_messages_fail(vs: Seq<JsonV>, k: int, bad: int)
    requires
        0 <= k <= bad < vs.len(),
        decode_message(vs[bad]) is None,
    ensures
        decode_messages_from(vs, k) is None,
    decreases bad - k,
{
    if k < bad {
        lemma_decode_messages_fail(vs, k + 1, bad);
    }
}

proof fn lemma_decode_messages_ok(vs: Seq<JsonV>, k: int, ms: Seq<MessageV>)
    requires
        0 <= k <= vs.len(),
        ms.len() == vs.len(),
        forall|i: int| 0 <= i < vs.len() ==> decode_message(vs[i]) == Some(#[trigger] ms[i]),
    ensures
        decode_messages_from(vs, k) == Some(ms.subrange(k, ms.len() as int)),
    decreases vs.len() - k,
{
    if k < vs.len() {
        lemma_decode_messages_ok(vs, k + 1, ms);
        assert(ms.subrange(k, ms.len() as int) == seq![ms[k]] + ms.subrange(k + 1, ms.len() as int));
    } else {
        assert(ms.subrange(k, ms.len() as int) =~= Seq::<MessageV>::empty());
    }
}

/// What a parsed transcript decodes to: the messages of a JSON array of
/// messages; `None` when it is not an array or an element does not decode.
pub open spec fn messages_of(v: JsonV) -> Option<Seq<MessageV>> {
    match v {
        JsonV::Array(items) => decode_messages_from(items, 0),
        _ => None,
    }
}

/// What the error says of a transcript that is JSON but not an array of
/// chat messages.
pub open spec fn not_decoded_text() -> Seq<char> {
    "transcript is not an array of chat messages"@
}

/// Decode a parsed transcript; the error names what did not decode.
pub fn messages_from_json(v: &Json) -> (r: Result<Vec<Message>, String>)
    ensures
        match r {
            Ok(ms) => messages_of(v@) == Some(messages_view(ms@)),
            Err(m) => messages_of(v@) is None && m@ == not_decoded_text(),
        },
{
    let items = match v {
        Json::Array(items) => items,
        _ => return Err(not_decoded()),
    };
    proof {
        lemma_array_view(*items);
    }
    let ghost vs = items@.map_values(|j: Json| j@);
    assert(messages_of(v@) == decode_messages_from(vs, 0));
    let mut out: Vec<Message> = Vec::new();
    let mut k: usize = 0;
    while k < items.len()
        invariant
            k <= items@.len(),
            vs == items@.map_values(|j: Json| j@),
            messages_of(v@) == decode_messages_from(vs, 0),
            out@.len() == k,
            forall|i: int| 0 <= i < k ==> decode_message(vs[i]) == Some((#[trigger] out@[i])@),
        decreases items@.len() - k,
    {
        match message_from_json(&items[k]) {
            Some(m) => out.push(m),
            None => {
                proof {
                    lemma_decode_messages_fail(vs, 0, k as int);
                }
                return Err(not_decoded());
            },
        }
        k = k + 1;
    }
    proof {
        lemma_decode_messages_ok(vs, 0, messages_view(out@));
        assert(messages_view(out@).subrange(0, out@.len() as int) == messages_view(out@));
    }
    Ok(out)
}

/// Parse the chat-messages.json content. The error carries the parser's
/// message, or names what did not decode.
pub fn parse_messages(json: &str) -> (r: Result<Vec<Message>, String>)
    ensures
        match r {
            Ok(ms) => messages_spec(json@) == Some(messages_view(ms@)),
            Err(m) => messages_spec(json@) is None && match json_parse(json@) {
                Err(e) => m@ == e,
                Ok(_) => m@ == not_decoded_text(),
            },
        },
{
    match parse_json(json) {
        Ok(v) => messages_from_json(&v),
        Err(e) => Err(e),
    }
}

/// The message of a transcript that is JSON but not an array of messages.
fn not_decoded() -> (s: String)
    ensures
        s@ == not_decoded_text(),
{
    owned("transcript is not an array of chat messages")
}

/// Cursor position in the transcript for streaming deltas.
/// Tracks the last seen AI message index and the length of each block's content.
#[derive(Debug, Clone, PartialEq, Eq)]
pub struct Cursor {
    /// Index of the last AI message we've processed.
    last_ai_index: usize,
    /// For each block in that AI message, the length of content we've already seen.
    block_lengths: Vec<usize>,
    /// Set of tool call IDs that have emitted ToolStarted.
    started_tools: Vec<String>,
    /// Set of tool call IDs that have emitted ToolFinished.
    finished_tools: Vec<String>,
}

/// The mathematical value of a [`Cursor`]; block lengths count UTF-8 bytes.
pub struct CursorV {
    pub last_ai_index: int,
    pub block_lengths: Seq<int>,
    pub started_tools: Seq<Seq<char>>,
    pub finished_tools: Seq<Seq<char>>,
}

/// The values of strings.
pub open spec fn strings_view(v: Seq<String>) -> Seq<Seq<char>> {
    v.map_values(|s: String| s@)
}

impl View for Cursor {
    type V = CursorV;

    closed spec fn view(&self) -> CursorV {
        CursorV {
            last_ai_index: self.last_ai_index as int,
            block_lengths: self.block_lengths@.map_values(|n: usize| n as int),
            started_tools: strings_view(self.started_tools@),
            finished_tools: strings_view(self.finished_tools@),
        }
    }
}

/// The cursor before any transcript was seen.
pub open spec fn initial_cursor() -> CursorV {
    CursorV {
        last_ai_index: 0,
        block_lengths: Seq::empty(),
        started_tools: Seq::empty(),
        finished_tools: Seq::empty(),
    }
}

impl Cursor {
    /// Create a new cursor at the beginning.
    pub fn new() -> (c: Cursor)
        ensures
            c@ == initial_cursor(),
    {
        let c = Cursor {
            last_ai_index: 0,
            block_lengths: Vec::new(),
            started_tools: Vec::new(),
            finished_tools: Vec::new(),
        };
        assert(c@.block_lengths =~= Seq::<int>::empty());
        assert(c@.started_tools =~= Seq::<Seq<char>>::empty());
        assert(c@.finished_tools =~= Seq::<Seq<char>>::empty());
        c
    }

    /// An exact copy.
    pub fn copy(&self) -> (c: Cursor)
        ensures
            c@ == self@,
    {
        let mut lens: Vec<usize> = Vec::new();
        let mut i: usize = 0;
        while i < self.block_lengths.len()
            invariant
                i <= self.block_lengths@.len(),
                lens@ == self.block_lengths@.take(i as int),
            decreases self.block_lengths@.len() - i,
        {
            lens.push(self.block_lengths[i]);
            assert(self.block_lengths@.take(i + 1) == self.block_lengths@.take(i as int).push(self.block_lengths@[i as int]));
            i = i + 1;
        }
        assert(self.block_lengths@.take(self.block_lengths@.len() as int) == self.block_lengths@);
        let c = Cursor {
            last_ai_index: self.last_ai_index,
            block_lengths: lens,
            started_tools: copy_strings(&self.started_tools),
            finished_tools: copy_strings(&self.finished_tools),
        };
        c
    }
}

/// A copy of the strings.
fn copy_strings(v: &Vec<String>) -> (r: Vec<String>)
    ensures
        strings_view(r@) == strings_view(v@),
{
    let mut r: Vec<String> = Vec::new();
    let mut i: usize = 0;
    while i < v.len()
        invariant
            i <= v@.len(),
            r@.len() == i,
            forall|k: int| 0 <= k < i ==> (#[trigger] r@[k])@ == v@[k]@,
        decreases v@.len() - i,
    {
        r.push(copy_string(&v[i]));
        i = i + 1;
    }
    assert(strings_view(r@) =~= strings_view(v@));
    r
}

/// Whether `v` holds a string equal to `s`.
fn holds_text(v: &Vec<String>, s: &str) -> (b: bool)
    ensures
        b == strings_view(v@).contains(s@),
{
    let mut i: usize = 0;
    while i < v.len()
        invariant
            i <= v@.len(),
            forall|k: int| 0 <= k < i ==> v@[k]@ != s@,
        decreases v@.len() - i,
    {
        if same_text(v[i].as_str(), s) {
            assert(strings_view(v@)[i as int] == s@);
            return true;
        }
        i = i + 1;
    }
    assert forall|k: int| 0 <= k < strings_view(v@).len() implies strings_view(v@)[k] != s@ by {
        assert(strings_view(v@)[k] == v@[k]@);
    }
    false
}

/// Delta emitted when the transcript advances.
#[derive(Debug, Clone, PartialEq)]
pub enum Delta {
    /// New text content (reasoning or regular) appended to a block.
    Text { reasoning: bool, delta: String },
    /// A tool block was first seen.
    ToolStarted { tool_call_id: String, tool_name: String, input: Json },
    /// A tool block's output became available.
    ToolFinished { tool_call_id: String, output: String },
}

/// The mathematical value of a [`Delta`].
pub enum DeltaV {
    Text { reasoning: bool, delta: Seq<char> },
    ToolStarted { tool_call_id: Seq<char>, tool_name: Seq<char>, input: JsonV },
    ToolFinished { tool_call_id: Seq<char>, output: Seq<char> },
}

impl View for Delta {
    type V = DeltaV;

    open spec fn view(&self) -> DeltaV {
        match self {
            Delta::Text { reasoning, delta } => DeltaV::Text { reasoning: *reasoning, delta: delta@ },
            Delta::ToolStarted { tool_call_id, tool_name, input } => DeltaV::ToolStarted {
                tool_call_id: tool_call_id@,
                tool_name: tool_name@,
                input: input@,
            },
            Delta::ToolFinished { tool_call_id, output } => DeltaV::ToolFinished {
                tool_call_id: tool_call_id@,
                output: output@,
            },
        }
    }
}

/// The values of the deltas.
pub open spec fn deltas_view(ds: Seq<Delta>) -> Seq<DeltaV> {
    ds.map_values(|d: Delta| d@)
}

/// The index of the last AI message among the first `n` messages.
pub open spec fn last_ai_upto(ms: Seq<MessageV>, n: int) -> Option<int>
    decreases n,
{
    if n <= 0 {
        None
    } else if ms[n - 1] is Ai {
        Some(n - 1)
    } else {
        last_ai_upto(ms, n - 1)
    }
}

/// The blocks of an AI message.
pub open spec fn ai_blocks(m: MessageV) -> Seq<BlockV> {
    match m {
        MessageV::Ai { blocks, .. } => blocks,
        _ => Seq::empty(),
    }
}

/// `n` zeros.
pub open spec fn zeros(n: nat) -> Seq<int> {
    Seq::new(n, |i: int| 0)
}

/// `Vec::resize(n, 0)`: cut to `n` entries or padded with zeros.
pub open spec fn fit_lengths(s: Seq<int>, n: nat) -> Seq<int> {
    if s.len() >= n {
        s.take(n as int)
    } else {
        s + zeros((n - s.len()) as nat)
    }
}

/// The cursor that the blocks of AI message `ai` (of `n` blocks) are
/// compared against: the previous one when it tracks that message, a fresh
/// one otherwise; its lengths fitted to `n` blocks.
pub open spec fn start_cursor(prev: CursorV, ai: int, n: nat) -> CursorV {
    let c = if prev.last_ai_index == ai {
        prev
    } else {
        CursorV {
            last_ai_index: ai,
            block_lengths: zeros(n),
            started_tools: Seq::empty(),
            finished_tools: Seq::empty(),
        }
    };
    CursorV { block_lengths: fit_lengths(c.block_lengths, n), ..c }
}

/// One block's effect: a text block that grew past the seen length emits
/// its new bytes as text; a tool block emits `ToolStarted` the first time
/// its id is seen and `ToolFinished` the first time it has an output.
pub open spec fn block_step(c: CursorV, b: BlockV, k: int) -> (CursorV, Seq<DeltaV>) {
    match b {
        BlockV::Text { text_type, content } => {
            let bytes = encode_utf8(content);
            let p = c.block_lengths[k];
            if bytes.len() > p {
                (
                    CursorV { block_lengths: c.block_lengths.update(k, bytes.len() as int), ..c },
                    seq![
                        DeltaV::Text {
                            reasoning: text_type == "reasoning"@,
                            delta: decode_utf8(bytes.subrange(p, bytes.len() as int)),
                        },
                    ],
                )
            } else {
                (c, Seq::empty())
            }
        },
        BlockV::Tool { tool_call_id, tool_name, input, output, .. } => {
            let started = !c.started_tools.contains(tool_call_id);
            let c1 = if started {
                CursorV { started_tools: c.started_tools.push(tool_call_id), ..c }
            } else {
                c
            };
            let d1 = if started {
                seq![DeltaV::ToolStarted { tool_call_id, tool_name, input }]
            } else {
                Seq::empty()
            };
            match output {
                Some(o) => if !c1.finished_tools.contains(tool_call_id) {
                    (
                        CursorV { finished_tools: c1.finished_tools.push(tool_call_id), ..c1 },
                        d1.push(DeltaV::ToolFinished { tool_call_id, output: o }),
                    )
                } else {
                    (c1, d1)
                },
                None => (c1, d1),
            }
        },
        _ => (c, Seq::empty()),
    }
}

/// The effect of the first `n` blocks, in order.
pub open spec fn blocks_fold(c: CursorV, bs: Seq<BlockV>, n: int) -> (CursorV, Seq<DeltaV>)
    decreases n,
{
    if n <= 0 {
        (c, Seq::empty())
    } else {
        let (c1, d1) = blocks_fold(c, bs, n - 1);
        let (c2, d2) = block_step(c1, bs[n - 1], n - 1);
        (c2, d1 + d2)
    }
}

/// What [`diff`] returns: nothing new when no message is from the AI;
/// otherwise the deltas of the blocks of the last AI message, in order,
/// against the cursor for that message.
pub open spec fn diff_spec(prev: CursorV, ms: Seq<MessageV>) -> (CursorV, Seq<DeltaV>) {
    match last_ai_upto(ms, ms.len() as int) {
        None => (prev, Seq::empty()),
        Some(i) => {
            let bs = ai_blocks(ms[i]);
            blocks_fold(start_cursor(prev, i, bs.len()), bs, bs.len() as int)
        },
    }
}

/// The text blocks of the last AI message that grew past their seen length
/// did so at a character boundary, so that the new bytes are whole
/// characters. (Slicing a string elsewhere panics.)
pub open spec fn diff_fits_spec(prev: CursorV, ms: Seq<MessageV>) -> bool {
    match last_ai_upto(ms, ms.len() as int) {
        None => true,
        Some(i) => {
            let bs = ai_blocks(ms[i]);
            let start = start_cursor(prev, i, bs.len());
            forall|k: int| 0 <= k < bs.len() ==> text_fits(#[trigger] bs[k], start.block_lengths[k])
        },
    }
}

/// A text block whose bytes run past `p` has a character boundary at `p`.
pub open spec fn text_fits(b: BlockV, p: int) -> bool {
    match b {
        BlockV::Text { content, .. } => {
            let bytes = encode_utf8(content);
            bytes.len() > p ==> is_char_boundary(bytes, p)
        },
        _ => true,
    }
}

proof fn lemma_last_ai_is_ai(ms: Seq<MessageV>, n: int)
    requires
        n <= ms.len(),
    ensures
        last_ai_upto(ms, n) matches Some(i) ==> 0 <= i < n && ms[i] is Ai,
    decreases n,
{
    if n > 0 && !(ms[n - 1] is Ai) {
        lemma_last_ai_is_ai(ms, n - 1);
    }
}

/// The index of the last AI message.
fn last_ai_index(messages: &[Message]) -> (r: Option<usize>)
    ensures
        match r {
            Some(i) => last_ai_upto(messages_view(messages@), messages@.len() as int) == Some(i as int)
                && i < messages@.len(),
            None => last_ai_upto(messages_view(messages@), messages@.len() as int) is None,
        },
{
    let ghost mv = messages_view(messages@);
    let mut i = messages.len();
    while i > 0
        invariant
            i <= messages@.len(),
            mv == messages_view(messages@),
            last_ai_upto(mv, messages@.len() as int) == last_ai_upto(mv, i as int),
        decreases i,
    {
        assert(mv[i - 1] == messages@[i - 1]@);
        match &messages[i - 1] {
            Message::Ai { .. } => {
                return Some(i - 1);
            },
            _ => {},
        }
        i = i - 1;
    }
    None
}

/// The cursor to compare AI message `ai`, of `n` blocks, against.
fn start_for(prev: &Cursor, ai: usize, n: usize) -> (c: Cursor)
    ensures
        c@ == start_cursor(prev@, ai as int, n as nat),
        c.last_ai_index == ai,
{
    let base = if prev.last_ai_index == ai {
        prev.copy()
    } else {
        Cursor {
            last_ai_index: ai,
            block_lengths: Vec::new(),
            started_tools: Vec::new(),
            finished_tools: Vec::new(),
        }
    };
    let ghost old_lens = base@.block_lengths;
    let mut lens: Vec<usize> = Vec::new();
    let mut k: usize = 0;
    while k < n
        invariant
            k <= n,
            old_lens == base@.block_lengths,
            lens@.len() == k,
            forall|j: int|
                0 <= j < k ==> (#[trigger] lens@[j]) as int == (if j < old_lens.len() {
                    old_lens[j]
                } else {
                    0
                }),
        decreases n - k,
    {
        if k < base.block_lengths.len() {
            lens.push(base.block_lengths[k]);
        } else {
            lens.push(0);
        }
        k = k + 1;
    }
    let c = Cursor {
        last_ai_index: base.last_ai_index,
        block_lengths: lens,
        started_tools: base.started_tools,
        finished_tools: base.finished_tools,
    };
    proof {
        let want = start_cursor(prev@, ai as int, n as nat);
        if prev@.last_ai_index != ai {
            assert(old_lens =~= Seq::<int>::empty());
            assert(base@.started_tools =~= Seq::<Seq<char>>::empty());
            assert(base@.finished_tools =~= Seq::<Seq<char>>::empty());
        }
        assert(c@.block_lengths =~= want.block_lengths);
    }
    c
}

/// Whether [`diff`] can run on these arguments: see [`diff_fits_spec`].
pub fn diff_fits(prev: &Cursor, messages: &[Message]) -> (b: bool)
    ensures
        b == diff_fits_spec(prev@, messages_view(messages@)),
{
    let ghost mv = messages_view(messages@);
    let ai = match last_ai_index(messages) {
        None => return true,
        Some(i) => i,
    };
    assert(mv[ai as int] == messages@[ai as int]@);
    proof {
        lemma_last_ai_is_ai(mv, mv.len() as int);
    }
    let blocks = match &messages[ai] {
        Message::Ai { blocks, .. } => blocks,
        _ => return true,
    };
    let ghost bv = blocks_view(blocks@);
    let start = start_for(prev, ai, blocks.len());
    assert(ai_blocks(mv[ai as int]) == bv);
    let mut k: usize = 0;
    while k < blocks.len()
        invariant
            k <= blocks@.len(),
            bv == blocks_view(blocks@),
            diff_fits_spec(prev@, messages_view(messages@)) == (forall|j: int|
                0 <= j < bv.len() ==> text_fits(#[trigger] bv[j], start@.block_lengths[j])),
            start@.block_lengths.len() == bv.len(),
            start@.block_lengths == start.block_lengths@.map_values(|n: usize| n as int),
            forall|j: int| 0 <= j < k ==> text_fits(#[trigger] bv[j], start@.block_lengths[j]),
        decreases blocks@.len() - k,
    {
        assert(bv[k as int] == blocks@[k as int]@);
        match &blocks[k] {
            Block::Text { content, .. } => {
                let p = start.block_lengths[k];
                let bytes = content.as_str().as_bytes();
                if bytes.len() > p && !content.as_str().is_char_boundary(p) {
                    assert(!text_fits(bv[k as int], start@.block_lengths[k as int]));
                    return false;
                }
            },
            _ => {},
        }
        k = k + 1;
    }
    true
}

/// Compute deltas between a previous cursor and the current messages.
/// Only emits deltas for blocks in the LAST AI message.
/// Text deltas are the suffix beyond the previously seen length.
/// Tool blocks emit ToolStarted when first seen and ToolFinished when output first becomes Some.
pub fn diff(prev: &Cursor, messages: &[Message]) -> (r: (Cursor, Vec<Delta>))
    requires
        diff_fits_spec(prev@, messages_view(messages@)),
    ensures
        (r.0@, deltas_view(r.1@)) == diff_spec(prev@, messages_view(messages@)),
{
    let ghost mv = messages_view(messages@);
    let mut deltas: Vec<Delta> = Vec::new();
    let ai = match last_ai_index(messages) {
        None => {
            assert(deltas_view(deltas@) =~= Seq::<DeltaV>::empty());
            return (prev.copy(), deltas);
        },
        Some(i) => i,
    };
    assert(mv[ai as int] == messages@[ai as int]@);
    proof {
        lemma_last_ai_is_ai(mv, mv.len() as int);
    }
    let blocks = match &messages[ai] {
        Message::Ai { blocks, .. } => blocks,
        _ => return (prev.copy(), deltas),
    };
    let ghost bv = blocks_view(blocks@);
    let mut cur = start_for(prev, ai, blocks.len());
    let ghost start = cur@;
    assert(ai_blocks(mv[ai as int]) == bv);
    assert(deltas_view(deltas@) =~= Seq::<DeltaV>::empty());
    let mut k: usize = 0;
    while k < blocks.len()
        invariant
            k <= blocks@.len(),
            bv == blocks_view(blocks@),
            (cur@, deltas_view(deltas@)) == blocks_fold(start, bv, k as int),
            cur@.block_lengths.len() == bv.len(),
            forall|j: int| k <= j < bv.len() ==> cur@.block_lengths[j] == start.block_lengths[j],
            forall|j: int| 0 <= j < bv.len() ==> text_fits(#[trigger] bv[j], start.block_lengths[j]),
        decreases blocks@.len() - k,
    {
        assert(bv[k as int] == blocks@[k as int]@);
        let ghost before = cur@;
        let ghost dbefore = deltas_view(deltas@);
        match &blocks[k] {
            Block::Text { text_type, content } => {
                let p = cur.block_lengths[k];
                let s = content.as_str();
                let len = s.as_bytes().len();
                assert(text_fits(bv[k as int], start.block_lengths[k as int]));
                if len > p {
                    let (_, tail) = s.split_at(p);
                    let piece = tail.to_owned();
                    proof {
                        vstd::utf8::encode_utf8_decode_utf8(piece@);
                    }
                    let reasoning = same_text(text_type.as_str(), "reasoning");
                    deltas.push(Delta::Text { reasoning, delta: piece });
                    cur.block_lengths[k] = len;
                    proof {
                        assert(cur@.block_lengths =~= before.block_lengths.update(k as int, len as int));
                        assert(deltas_view(deltas@) =~= dbefore + block_step(before, bv[k as int], k as int).1);
                    }
                } else {
                    assert(dbefore + Seq::<DeltaV>::empty() =~= dbefore);
                }
            },
            Block::Tool { tool_call_id, tool_name, input, output, .. } => {
                let id = tool_call_id.as_str();
                if !holds_text(&cur.started_tools, id) {
                    deltas.push(
                        Delta::ToolStarted {
                            tool_call_id: copy_string(tool_call_id),
                            tool_name: copy_string(tool_name),
                            input: input.copy(),
                        },
                    );
                    cur.started_tools.push(copy_string(tool_call_id));
                    proof {
                        assert(strings_view(cur.started_tools@) =~= before.started_tools.push(id@));
                    }
                }
                let ghost mid = cur@;
                let ghost dmid = deltas_view(deltas@);
                match output {
                    Some(o) => {
                        if !holds_text(&cur.finished_tools, id) {
                            deltas.push(
                                Delta::ToolFinished {
                                    tool_call_id: copy_string(tool_call_id),
                                    output: copy_string(o),
                                },
                            );
                            cur.finished_tools.push(copy_string(tool_call_id));
                            proof {
                                assert(strings_view(cur.finished_tools@) =~= mid.finished_tools.push(id@));
                            }
                        }
                    },
                    None => {},
                }
                proof {
                    let step = block_step(before, bv[k as int], k as int);
                    assert(cur@ == step.0);
                    assert(deltas_view(deltas@) =~= dbefore + step.1);
                }
            },
            _ => {
                assert(dbefore + Seq::<DeltaV>::empty() =~= dbefore);
            },
        }
        k = k + 1;
    }
    (cur, deltas)
}

/// Block `k` has nothing left to report against cursor `c`.
pub open spec fn settled(c: CursorV, b: BlockV, k: int) -> bool {
    match b {
        BlockV::Text { content, .. } => encode_utf8(content).len() <= c.block_lengths[k],
        BlockV::Tool { tool_call_id, output, .. } => c.started_tools.contains(tool_call_id) && (
        output is Some ==> c.finished_tools.contains(tool_call_id)),
        _ => true,
    }
}

proof fn lemma_fold_settles(start: CursorV, bs: Seq<BlockV>, m: int)
    requires
        0 <= m <= bs.len(),
        start.block_lengths.len() == bs.len(),
    ensures
        ({
            let cm = blocks_fold(start, bs, m).0;
            &&& cm.block_lengths.len() == bs.len()
            &&& cm.last_ai_index == start.last_ai_index
            &&& forall|k: int| 0 <= k < m ==> settled(cm, #[trigger] bs[k], k)
            &&& forall|k: int| m <= k < bs.len() ==> #[trigger] cm.block_lengths[k] == start.block_lengths[k]
        }),
    decreases m,
{
    if m > 0 {
        lemma_fold_settles(start, bs, m - 1);
        let c1 = blocks_fold(start, bs, m - 1).0;
        let cm = blocks_fold(start, bs, m).0;
        assert(cm == block_step(c1, bs[m - 1], m - 1).0);
        assert forall|k: int| 0 <= k < m implies settled(cm, #[trigger] bs[k], k) by {
            if k < m - 1 {
                assert(settled(c1, bs[k], k));
                assert(cm.block_lengths[k] == c1.block_lengths[k]);
                assert forall|x: Seq<char>| c1.started_tools.contains(x) implies cm.started_tools.contains(x) by {
                    let j = choose|j: int| 0 <= j < c1.started_tools.len() && c1.started_tools[j] == x;
                    assert(cm.started_tools[j] == x);
                }
                assert forall|x: Seq<char>| c1.finished_tools.contains(x) implies cm.finished_tools.contains(x) by {
                    let j = choose|j: int| 0 <= j < c1.finished_tools.len() && c1.finished_tools[j] == x;
                    assert(cm.finished_tools[j] == x);
                }
            } else {
                match bs[k] {
                    BlockV::Tool { tool_call_id, output, .. } => {
                        let mid = if !c1.started_tools.contains(tool_call_id) {
                            c1.started_tools.push(tool_call_id)
                        } else {
                            c1.started_tools
                        };
                        if !c1.started_tools.contains(tool_call_id) {
                            assert(mid[mid.len() - 1] == tool_call_id);
                        }
                        assert(cm.started_tools == mid);
                        if output is Some && !c1.finished_tools.contains(tool_call_id) {
                            let f = c1.finished_tools.push(tool_call_id);
                            assert(f[f.len() - 1] == tool_call_id);
                        }
                    },
                    _ => {},
                }
            }
        }
    }
}

proof fn lemma_fold_noop(c: CursorV, bs: Seq<BlockV>, m: int)
    requires
        0 <= m <= bs.len(),
        forall|k: int| 0 <= k < m ==> settled(c, #[trigger] bs[k], k),
    ensures
        blocks_fold(c, bs, m) == (c, Seq::<DeltaV>::empty()),
    decreases m,
{
    if m > 0 {
        lemma_fold_noop(c, bs, m - 1);
        assert(settled(c, bs[m - 1], m - 1));
        assert(Seq::<DeltaV>::empty() + Seq::<DeltaV>::empty() =~= Seq::<DeltaV>::empty());
    }
}

/// Diffing the same transcript twice reports nothing new the second time
/// and leaves the cursor as the first diff left it; and the second diff
/// can run wherever the first could.
pub proof fn lemma_diff_idempotent(prev: CursorV, ms: Seq<MessageV>)
    requires
        diff_fits_spec(prev, ms),
    ensures
        ({
            let c = diff_spec(prev, ms).0;
            &&& diff_fits_spec(c, ms)
            &&& diff_spec(c, ms) == (c, Seq::<DeltaV>::empty())
        }),
{
    match last_ai_upto(ms, ms.len() as int) {
        None => {},
        Some(i) => {
            let bs = ai_blocks(ms[i]);
            let n = bs.len();
            let start = start_cursor(prev, i, n);
            lemma_fold_settles(start, bs, n as int);
            let c = blocks_fold(start, bs, n as int).0;
            assert(start.last_ai_index == i);
            assert(c.block_lengths.take(n as int) =~= c.block_lengths);
            assert(start_cursor(c, i, n) == c);
            lemma_fold_noop(c, bs, n as int);
            assert forall|k: int| 0 <= k < bs.len() implies text_fits(#[trigger] bs[k], c.block_lengths[k]) by {
                assert(settled(c, bs[k], k));
            }
        },
    }
}

/// The tool call id of a `ToolStarted` delta.
pub open spec fn started_id(d: DeltaV) -> Option<Seq<char>> {
    match d {
        DeltaV::ToolStarted { tool_call_id, .. } => Some(tool_call_id),
        _ => None,
    }
}

/// The tool call id of a `ToolFinished` delta.
pub open spec fn finished_id(d: DeltaV) -> Option<Seq<char>> {
    match d {
        DeltaV::ToolFinished { tool_call_id, .. } => Some(tool_call_id),
        _ => None,
    }
}

/// Every `ToolStarted` (or, through `id_of`, `ToolFinished`) delta names an
/// id that `from` did not hold and `to` holds, and no two name the same id.
pub open spec fn reported_once(
    ds: Seq<DeltaV>,
    id_of: spec_fn(DeltaV) -> Option<Seq<char>>,
    from: Seq<Seq<char>>,
    to: Seq<Seq<char>>,
) -> bool {
    &&& forall|j: int|
        0 <= j < ds.len() && #[trigger] id_of(ds[j]) is Some ==> !from.contains(id_of(ds[j])->0)
            && to.contains(id_of(ds[j])->0)
    &&& forall|j1: int, j2: int|
        0 <= j1 < j2 < ds.len() && #[trigger] id_of(ds[j1]) is Some && #[trigger] id_of(ds[j2]) is Some
            ==> id_of(ds[j1]) != id_of(ds[j2])
}

proof fn lemma_fold_reports_once(start: CursorV, bs: Seq<BlockV>, m: int)
    requires
        0 <= m <= bs.len(),
    ensures
        ({
            let (cm, ds) = blocks_fold(start, bs, m);
            &&& forall|x: Seq<char>| start.started_tools.contains(x) ==> #[trigger] cm.started_tools.contains(x)
            &&& forall|x: Seq<char>| start.finished_tools.contains(x) ==> #[trigger] cm.finished_tools.contains(x)
            &&& reported_once(ds, |d: DeltaV| started_id(d), start.started_tools, cm.started_tools)
            &&& reported_once(ds, |d: DeltaV| finished_id(d), start.finished_tools, cm.finished_tools)
        }),
    decreases m,
{
    if m > 0 {
        lemma_fold_reports_once(start, bs, m - 1);
        let (c1, d1) = blocks_fold(start, bs, m - 1);
        let (c2, d2) = block_step(c1, bs[m - 1], m - 1);
        let ds = d1 + d2;
        assert(blocks_fold(start, bs, m) == (c2, ds));
        let sid = |d: DeltaV| started_id(d);
        let fid = |d: DeltaV| finished_id(d);
        assert forall|x: Seq<char>| c1.started_tools.contains(x) implies #[trigger] c2.started_tools.contains(x) by {
            let j = choose|j: int| 0 <= j < c1.started_tools.len() && c1.started_tools[j] == x;
            assert(c2.started_tools[j] == x);
        }
        assert forall|x: Seq<char>| c1.finished_tools.contains(x) implies #[trigger] c2.finished_tools.contains(x) by {
            let j = choose|j: int| 0 <= j < c1.finished_tools.len() && c1.finished_tools[j] == x;
            assert(c2.finished_tools[j] == x);
        }
        match bs[m - 1] {
            BlockV::Tool { tool_call_id, output, .. } => {
                let started = !c1.started_tools.contains(tool_call_id);
                if started {
                    let sp = c1.started_tools.push(tool_call_id);
                    assert(sp[sp.len() - 1] == tool_call_id);
                }
                match output {
                    Some(o) => {
                        let c1b = if started {
                            CursorV { started_tools: c1.started_tools.push(tool_call_id), ..c1 }
                        } else {
                            c1
                        };
                        if !c1b.finished_tools.contains(tool_call_id) {
                            let fp = c1b.finished_tools.push(tool_call_id);
                            assert(fp[fp.len() - 1] == tool_call_id);
                        }
                    },
                    None => {},
                }
            },
            _ => {},
        }
        assert forall|j: int| 0 <= j < ds.len() && #[trigger] sid(ds[j]) is Some implies !start.started_tools.contains(sid(ds[j])->0)
            && c2.started_tools.contains(sid(ds[j])->0) by {
            if j >= d1.len() {
                assert(ds[j] == d2[j - d1.len()]);
            } else {
                assert(ds[j] == d1[j]);
                assert(sid(d1[j]) is Some);
            }
        }
        assert forall|j1: int, j2: int|
            0 <= j1 < j2 < ds.len() && #[trigger] sid(ds[j1]) is Some && #[trigger] sid(ds[j2]) is Some
            implies sid(ds[j1]) != sid(ds[j2]) by {
            if j2 >= d1.len() {
                assert(ds[j2] == d2[j2 - d1.len()]);
                if j1 < d1.len() {
                    assert(ds[j1] == d1[j1]);
                    assert(sid(d1[j1]) is Some);
                    assert(c1.started_tools.contains(sid(d1[j1])->0));
                }
            } else {
                assert(ds[j1] == d1[j1]);
                assert(ds[j2] == d1[j2]);
                assert(sid(d1[j1]) is Some);
                assert(sid(d1[j2]) is Some);
            }
        }
        assert forall|j: int| 0 <= j < ds.len() && #[trigger] fid(ds[j]) is Some implies !start.finished_tools.contains(fid(ds[j])->0)
            && c2.finished_tools.contains(fid(ds[j])->0) by {
            if j >= d1.len() {
                assert(ds[j] == d2[j - d1.len()]);
            } else {
                assert(ds[j] == d1[j]);
                assert(fid(d1[j]) is Some);
            }
        }
        assert forall|j1: int, j2: int|
            0 <= j1 < j2 < ds.len() && #[trigger] fid(ds[j1]) is Some && #[trigger] fid(ds[j2]) is Some
            implies fid(ds[j1]) != fid(ds[j2]) by {
            if j2 >= d1.len() {
                assert(ds[j2] == d2[j2 - d1.len()]);
                if j1 < d1.len() {
                    assert(ds[j1] == d1[j1]);
                    assert(fid(d1[j1]) is Some);
                    assert(c1.finished_tools.contains(fid(d1[j1])->0));
                }
            } else {
                assert(ds[j1] == d1[j1]);
                assert(ds[j2] == d1[j2]);
                assert(fid(d1[j1]) is Some);
                assert(fid(d1[j2]) is Some);
            }
        }
    }
}

/// Within one AI message, each tool call is reported started at most once
/// and finished at most once over any run of diffs: a diff that keeps
/// tracking the same message names in its `ToolStarted` (`ToolFinished`)
/// deltas only ids that the previous cursor had not reported, each once,
/// and the new cursor records all of them.
pub proof fn lemma_tools_reported_once(prev: CursorV, ms: Seq<MessageV>)
    requires
        last_ai_upto(ms, ms.len() as int) == Some(prev.last_ai_index),
    ensures
        ({
            let (c, ds) = diff_spec(prev, ms);
            &&& reported_once(ds, |d: DeltaV| started_id(d), prev.started_tools, c.started_tools)
            &&& reported_once(ds, |d: DeltaV| finished_id(d), prev.finished_tools, c.finished_tools)
        }),
{
    let i = prev.last_ai_index;
    let bs = ai_blocks(ms[i]);
    let start = start_cursor(prev, i, bs.len());
    assert(start.started_tools == prev.started_tools);
    assert(start.finished_tools == prev.finished_tools);
    lemma_fold_reports_once(start, bs, bs.len() as int);
}

proof fn lemma_encode_concat(a: Seq<char>, b: Seq<char>)
    ensures
        encode_utf8(a + b) == encode_utf8(a) + encode_utf8(b),
    decreases a.len(),
{
    if a.len() > 0 {
        assert((a + b).drop_first() == a.drop_first() + b);
        lemma_encode_concat(a.drop_first(), b);
        assert((a + b)[0] == a[0]);
    } else {
        assert(a + b == b);
    }
}

/// Text appended to a block streams as exactly that text: when the cursor
/// has seen the block up to the end of `a` and the block now reads `a`
/// followed by a non-empty `b`, the block's delta is `b`, and the cursor
/// moves to the block's new end.
pub proof fn lemma_appended_text_streams_exactly(
    c: CursorV,
    k: int,
    text_type: Seq<char>,
    a: Seq<char>,
    b: Seq<char>,
)
    requires
        0 <= k < c.block_lengths.len(),
        c.block_lengths[k] == encode_utf8(a).len(),
        b.len() > 0,
    ensures
        block_step(c, BlockV::Text { text_type, content: a + b }, k) == (
            CursorV { block_lengths: c.block_lengths.update(k, encode_utf8(a + b).len() as int), ..c },
            seq![DeltaV::Text { reasoning: text_type == "reasoning"@, delta: b }],
        ),
{
    lemma_encode_concat(a, b);
    let whole = encode_utf8(a + b);
    let ea = encode_utf8(a);
    let eb = encode_utf8(b);
    assert(eb.len() > 0) by {
        assert(eb == vstd::utf8::encode_scalar(b[0] as u32) + encode_utf8(b.drop_first()));
        vstd::utf8::encode_utf8_first_scalar(b);
    }
    assert(whole.subrange(ea.len() as int, whole.len() as int) == eb);
    vstd::utf8::encode_utf8_decode_utf8(b);
}

/// The end of `a`'s bytes is a character boundary of the bytes of `a + b`.
proof fn lemma_concat_boundary(a: Seq<char>, b: Seq<char>)
    ensures
        is_char_boundary(encode_utf8(a + b), encode_utf8(a).len() as int),
    decreases a.len(),
{
    if a.len() > 0 {
        lemma_encode_concat(a, b);
        vstd::utf8::encode_utf8_valid_utf8(a + b);
        vstd::utf8::encode_utf8_first_scalar(a + b);
        assert((a + b)[0] == a[0]);
        assert((a + b).drop_first() == a.drop_first() + b);
        let bytes = encode_utf8(a + b);
        let first = vstd::utf8::encode_scalar(a[0] as u32);
        assert(bytes == first + encode_utf8(a.drop_first() + b));
        assert(vstd::utf8::pop_first_scalar(bytes) =~= encode_utf8(a.drop_first() + b));
        assert(encode_utf8(a) == first + encode_utf8(a.drop_first()));
        lemma_concat_boundary(a.drop_first(), b);
        assert(first.len() > 0);
        let idx = encode_utf8(a).len() as int;
        assert(vstd::utf8::length_of_first_scalar(bytes) == first.len());
        assert(idx - first.len() == encode_utf8(a.drop_first()).len());
        assert(bytes.len() >= idx);
        assert(vstd::utf8::valid_utf8(bytes));
        assert(is_char_boundary(bytes, idx) == is_char_boundary(vstd::utf8::pop_first_scalar(bytes), idx - first.len()));
    } else {
        vstd::utf8::encode_utf8_valid_utf8(a + b);
        assert(encode_utf8(a).len() == 0);
    }
}

proof fn lemma_step_noop(c: CursorV, b: BlockV, k: int)
    requires
        settled(c, b, k),
    ensures
        block_step(c, b, k) == (c, Seq::<DeltaV>::empty()),
{
}

/// The length a fold leaves for text block `k`: the block's byte length if
/// it grew past the start, the start's length otherwise.
proof fn lemma_fold_text_length(start: CursorV, bs: Seq<BlockV>, m: int, k: int)
    requires
        0 <= k < m <= bs.len(),
        start.block_lengths.len() == bs.len(),
        bs[k] is Text,
    ensures
        ({
            let enc = match bs[k] {
                BlockV::Text { content, .. } => encode_utf8(content).len() as int,
                _ => 0,
            };
            blocks_fold(start, bs, m).0.block_lengths[k] == if enc > start.block_lengths[k] {
                enc
            } else {
                start.block_lengths[k]
            }
        }),
    decreases m,
{
    lemma_fold_settles(start, bs, m - 1);
    if k < m - 1 {
        lemma_fold_text_length(start, bs, m - 1, k);
    }
}

/// When every block but text block `j` is settled, a fold does only what
/// block `j` does.
proof fn lemma_fold_one_text(c: CursorV, bs: Seq<BlockV>, m: int, j: int)
    requires
        0 <= j < bs.len(),
        0 <= m <= bs.len(),
        c.block_lengths.len() == bs.len(),
        bs[j] is Text,
        forall|k: int| 0 <= k < bs.len() && k != j ==> settled(c, #[trigger] bs[k], k),
    ensures
        blocks_fold(c, bs, m) == if m <= j {
            (c, Seq::<DeltaV>::empty())
        } else {
            block_step(c, bs[j], j)
        },
    decreases m,
{
    if m <= j {
        lemma_fold_noop(c, bs, m);
    } else if m == j + 1 {
        lemma_fold_noop(c, bs, j);
        assert(Seq::<DeltaV>::empty() + block_step(c, bs[j], j).1 =~= block_step(c, bs[j], j).1);
    } else {
        lemma_fold_one_text(c, bs, m - 1, j);
        let cj = block_step(c, bs[j], j).0;
        assert(cj.started_tools == c.started_tools && cj.finished_tools == c.finished_tools);
        assert(cj.block_lengths[m - 1] == c.block_lengths[m - 1]);
        assert(settled(c, bs[m - 1], m - 1));
        assert(settled(cj, bs[m - 1], m - 1));
        lemma_step_noop(cj, bs[m - 1], m - 1);
        assert(block_step(c, bs[j], j).1 + Seq::<DeltaV>::empty() =~= block_step(c, bs[j], j).1);
    }
}

proof fn lemma_last_ai_same(ms: Seq<MessageV>, ms2: Seq<MessageV>, n: int, i: int)
    requires
        0 <= n <= ms.len(),
        ms2.len() == ms.len(),
        0 <= i < ms.len(),
        ms[i] is Ai,
        ms2[i] is Ai,
        forall|m: int| 0 <= m < ms.len() && m != i ==> ms2[m] == ms[m],
    ensures
        last_ai_upto(ms, n) == last_ai_upto(ms2, n),
    decreases n,
{
    if n > 0 {
        lemma_last_ai_same(ms, ms2, n - 1, i);
    }
}

/// Text appended to one block streams as exactly that text over the whole
/// transcript: after a diff of `ms` (from a cursor that had not seen past
/// the block's text `a`), appending a non-empty `b` to that text block of
/// the last AI message, and changing nothing else, makes the next diff
/// report `b` from that block and nothing from any other, and move the
/// cursor to the block's new end; and that next diff can run (the cursor
/// still fits the transcript).
pub proof fn lemma_transcript_appends_stream_exactly(
    prev: CursorV,
    ms: Seq<MessageV>,
    ms2: Seq<MessageV>,
    i: int,
    j: int,
    text_type: Seq<char>,
    a: Seq<char>,
    b: Seq<char>,
)
    requires
        last_ai_upto(ms, ms.len() as int) == Some(i),
        0 <= j < ai_blocks(ms[i]).len(),
        ai_blocks(ms[i])[j] == (BlockV::Text { text_type, content: a }),
        start_cursor(prev, i, ai_blocks(ms[i]).len()).block_lengths[j] <= encode_utf8(a).len(),
        b.len() > 0,
        ms2.len() == ms.len(),
        forall|m: int| 0 <= m < ms.len() && m != i ==> ms2[m] == ms[m],
        ms2[i] is Ai,
        ai_blocks(ms2[i]) == ai_blocks(ms[i]).update(j, BlockV::Text { text_type, content: a + b }),
    ensures
        diff_fits_spec(diff_spec(prev, ms).0, ms2),
        ({
            let c = diff_spec(prev, ms).0;
            diff_spec(c, ms2) == (
                CursorV { block_lengths: c.block_lengths.update(j, encode_utf8(a + b).len() as int), ..c },
                seq![DeltaV::Text { reasoning: text_type == "reasoning"@, delta: b }],
            )
        }),
{
    lemma_last_ai_is_ai(ms, ms.len() as int);
    lemma_last_ai_same(ms, ms2, ms.len() as int, i);
    let bs = ai_blocks(ms[i]);
    let bs2 = ai_blocks(ms2[i]);
    let n = bs.len();
    let start = start_cursor(prev, i, n);
    lemma_fold_settles(start, bs, n as int);
    lemma_fold_text_length(start, bs, n as int, j);
    let c = blocks_fold(start, bs, n as int).0;
    assert(c == diff_spec(prev, ms).0);
    assert(c.block_lengths.take(n as int) =~= c.block_lengths);
    assert(start_cursor(c, i, n) == c);
    assert(c.block_lengths[j] == encode_utf8(a).len());
    assert forall|k: int| 0 <= k < bs2.len() && k != j implies settled(c, #[trigger] bs2[k], k) by {
        assert(bs2[k] == bs[k]);
        assert(settled(c, bs[k], k));
    }
    lemma_fold_one_text(c, bs2, n as int, j);
    lemma_appended_text_streams_exactly(c, j, text_type, a, b);
    assert forall|k: int| 0 <= k < bs2.len() implies text_fits(#[trigger] bs2[k], start_cursor(c, i, n).block_lengths[k]) by {
        if k == j {
            lemma_concat_boundary(a, b);
        } else {
            assert(settled(c, bs2[k], k));
        }
    }
}

} // verus!
