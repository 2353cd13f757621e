//! ACP request/response and session-update types (protocol version 1), with
//! their JSON encodings. Field names match what omnigent reads.

use vstd::prelude::*;

use crate::json::{
    array, entry, object, entries_view, items_view, same_text, Json, JsonV, digits_of,
};
use crate::text::{chars_of, parse_u64, parse_unsigned, string_from, join_lines};

verus! {

/// The version that `initialize` reports for this agent.
pub const AGENT_VERSION: &'static str = "0.1.0";

/// A copy of a string.
pub fn copy_text(s: &String) -> (r: String)
    ensures
        r@ == s@,
{
    s.clone()
}

/// A `String` holding the characters of `s`.
pub fn owned(s: &str) -> (r: String)
    ensures
        r@ == s@,
{
    let c = chars_of(s);
    string_from(&c)
}

/// A JSON string holding `s`.
fn str_json(s: &String) -> (j: Json)
    ensures
        j@ == JsonV::Str(s@),
{
    Json::Str(s.clone())
}

/// `initialize` request params.
#[derive(Debug, Clone, PartialEq)]
pub struct InitializeRequest {
    pub protocol_version: u16,
    pub client_capabilities: Option<Json>,
    pub client_info: Option<Json>,
}

/// `initialize` result.
#[derive(Debug, Clone, PartialEq)]
pub struct InitializeResponse {
    pub protocol_version: u16,
    pub agent_capabilities: AgentCapabilities,
    pub agent_info: AgentInfo,
}

/// Agent capability advertisement.
#[derive(Debug, Clone, PartialEq)]
pub struct AgentCapabilities {
    pub load_session: bool,
    pub prompt_capabilities: PromptCapabilities,
}

/// Prompt-related capability flags.
#[derive(Debug, Clone, PartialEq)]
pub struct PromptCapabilities {
    pub image: bool,
    pub audio: bool,
    pub embedded_context: bool,
}

/// Agent identity in `initialize` result.
#[derive(Debug, Clone, PartialEq)]
pub struct AgentInfo {
    pub name: String,
    pub version: String,
}

impl Default for PromptCapabilities {
    fn default() -> (r: PromptCapabilities)
        ensures
            !r.image && !r.audio && !r.embedded_context,
    {
        PromptCapabilities { image: false, audio: false, embedded_context: false }
    }
}

impl Default for AgentCapabilities {
    fn default() -> (r: AgentCapabilities)
        ensures
            !r.load_session,
            !r.prompt_capabilities.image && !r.prompt_capabilities.audio
                && !r.prompt_capabilities.embedded_context,
    {
        AgentCapabilities {
            load_session: false,
            prompt_capabilities: PromptCapabilities { image: false, audio: false, embedded_context: false },
        }
    }
}

/// A JSON number holding `n`.
pub open spec fn num(n: nat) -> JsonV {
    JsonV::Number(digits_of(n))
}

impl PromptCapabilities {
    /// The JSON encoding: `{image, audio, embeddedContext}`.
    pub open spec fn json(&self) -> JsonV {
        JsonV::Object(
            seq![
                ("image"@, JsonV::Bool(self.image)),
                ("audio"@, JsonV::Bool(self.audio)),
                ("embeddedContext"@, JsonV::Bool(self.embedded_context)),
            ],
        )
    }

    /// Encode as JSON.
    pub fn to_json(&self) -> (j: Json)
        ensures
            j@ == self.json(),
    {
        let es = vec![
            entry("image", Json::Bool(self.image)),
            entry("audio", Json::Bool(self.audio)),
            entry("embeddedContext", Json::Bool(self.embedded_context)),
        ];
        let j = object(es);
        assert(entries_view(es@) =~= seq![
            ("image"@, JsonV::Bool(self.image)),
            ("audio"@, JsonV::Bool(self.audio)),
            ("embeddedContext"@, JsonV::Bool(self.embedded_context)),
        ]);
        j
    }
}

impl AgentCapabilities {
    /// The JSON encoding: `{loadSession, promptCapabilities}`.
    pub open spec fn json(&self) -> JsonV {
        JsonV::Object(
            seq![
                ("loadSession"@, JsonV::Bool(self.load_session)),
                ("promptCapabilities"@, self.prompt_capabilities.json()),
            ],
        )
    }

    /// Encode as JSON.
    pub fn to_json(&self) -> (j: Json)
        ensures
            j@ == self.json(),
    {
        let es = vec![
            entry("loadSession", Json::Bool(self.load_session)),
            entry("promptCapabilities", self.prompt_capabilities.to_json()),
        ];
        let j = object(es);
        assert(entries_view(es@) =~= seq![
            ("loadSession"@, JsonV::Bool(self.load_session)),
            ("promptCapabilities"@, self.prompt_capabilities.json()),
        ]);
        j
    }
}

impl AgentInfo {
    /// The JSON encoding: `{name, version}`.
    pub open spec fn json(&self) -> JsonV {
        JsonV::Object(seq![("name"@, JsonV::Str(self.name@)), ("version"@, JsonV::Str(self.version@))])
    }

    /// Encode as JSON.
    pub fn to_json(&self) -> (j: Json)
        ensures
            j@ == self.json(),
    {
        let es = vec![entry("name", str_json(&self.name)), entry("version", str_json(&self.version))];
        let j = object(es);
        assert(entries_view(es@) =~= seq![("name"@, JsonV::Str(self.name@)), ("version"@, JsonV::Str(self.version@))]);
        j
    }
}

impl InitializeResponse {
    /// Protocol version 1 response advertising blink's fixed capabilities.
    pub fn v1() -> (r: InitializeResponse)
        ensures
            r.protocol_version == 1,
            !r.agent_capabilities.load_session,
            !r.agent_capabilities.prompt_capabilities.image,
            !r.agent_capabilities.prompt_capabilities.audio,
            !r.agent_capabilities.prompt_capabilities.embedded_context,
            r.agent_info.name@ == "blink"@,
            r.agent_info.version@ == AGENT_VERSION@,
    {
        InitializeResponse {
            protocol_version: 1,
            agent_capabilities: AgentCapabilities::default(),
            agent_info: AgentInfo { name: owned("blink"), version: owned(AGENT_VERSION) },
        }
    }

    /// The JSON encoding: `{protocolVersion, agentCapabilities, agentInfo}`.
    pub open spec fn json(&self) -> JsonV {
        JsonV::Object(
            seq![
                ("protocolVersion"@, num(self.protocol_version as nat)),
                ("agentCapabilities"@, self.agent_capabilities.json()),
                ("agentInfo"@, self.agent_info.json()),
            ],
        )
    }

    /// Encode as JSON.
    pub fn to_json(&self) -> (j: Json)
        ensures
            j@ == self.json(),
    {
        let es = vec![
            entry("protocolVersion", Json::unsigned(self.protocol_version as u64)),
            entry("agentCapabilities", self.agent_capabilities.to_json()),
            entry("agentInfo", self.agent_info.to_json()),
        ];
        let j = object(es);
        assert(entries_view(es@) =~= seq![
            ("protocolVersion"@, num(self.protocol_version as nat)),
            ("agentCapabilities"@, self.agent_capabilities.json()),
            ("agentInfo"@, self.agent_info.json()),
        ]);
        j
    }
}

/// `session/new` request params.
#[derive(Debug, Clone, PartialEq)]
pub struct NewSessionRequest {
    pub cwd: String,
    pub mcp_servers: Vec<Json>,
}

/// `session/new` result.
#[derive(Debug, Clone, PartialEq)]
pub struct NewSessionResponse {
    pub session_id: String,
}

impl NewSessionResponse {
    /// The JSON encoding: `{sessionId}`.
    pub open spec fn json(&self) -> JsonV {
        JsonV::Object(seq![("sessionId"@, JsonV::Str(self.session_id@))])
    }

    /// Encode as JSON.
    pub fn to_json(&self) -> (j: Json)
        ensures
            j@ == self.json(),
    {
        let es = vec![entry("sessionId", str_json(&self.session_id))];
        let j = object(es);
        assert(entries_view(es@) =~= seq![("sessionId"@, JsonV::Str(self.session_id@))]);
        j
    }
}

impl NewSessionRequest {
    /// The JSON encoding: `{cwd, mcpServers}`.
    pub open spec fn json(&self) -> JsonV {
        JsonV::Object(
            seq![
                ("cwd"@, JsonV::Str(self.cwd@)),
                ("mcpServers"@, JsonV::Array(items_view(self.mcp_servers@))),
            ],
        )
    }

    /// Encode as JSON.
    pub fn to_json(&self) -> (j: Json)
        ensures
            j@ == self.json(),
    {
        let mut items: Vec<Json> = Vec::new();
        let mut i: usize = 0;
        while i < self.mcp_servers.len()
            invariant
                i <= self.mcp_servers@.len(),
                items@.len() == i,
                forall|k: int| 0 <= k < i ==> (#[trigger] items@[k])@ == self.mcp_servers@[k]@,
            decreases self.mcp_servers@.len() - i,
        {
            items.push(self.mcp_servers[i].copy());
            i = i + 1;
        }
        assert(items_view(items@) =~= items_view(self.mcp_servers@));
        let es = vec![entry("cwd", str_json(&self.cwd)), entry("mcpServers", array(items))];
        let j = object(es);
        assert(entries_view(es@) =~= seq![
            ("cwd"@, JsonV::Str(self.cwd@)),
            ("mcpServers"@, JsonV::Array(items_view(self.mcp_servers@))),
        ]);
        j
    }
}

/// A prompt content block. Unknown `type` values are ignored, not rejected.
#[derive(Debug, Clone, PartialEq)]
pub enum ContentBlock {
    Text { text: String },
    Other,
}

/// The mathematical value of a [`ContentBlock`].
pub enum ContentBlockV {
    Text { text: Seq<char> },
    Other,
}

impl View for ContentBlock {
    type V = ContentBlockV;

    open spec fn view(&self) -> ContentBlockV {
        match self {
            ContentBlock::Text { text } => ContentBlockV::Text { text: text@ },
            ContentBlock::Other => ContentBlockV::Other,
        }
    }
}

/// The texts of the text blocks, in order.
pub open spec fn block_texts(bs: Seq<ContentBlockV>) -> Seq<Seq<char>>
    decreases bs.len(),
{
    if bs.len() == 0 {
        Seq::empty()
    } else {
        match bs.last() {
            ContentBlockV::Text { text } => block_texts(bs.drop_last()).push(text),
            ContentBlockV::Other => block_texts(bs.drop_last()),
        }
    }
}

/// The values of content blocks.
pub open spec fn blocks_view(bs: Seq<ContentBlock>) -> Seq<ContentBlockV> {
    bs.map_values(|b: ContentBlock| b@)
}

impl ContentBlock {
    /// The JSON encoding: `{type: "text", text}`; other blocks, which are
    /// never decoded with content, as `{type: "unknown"}`.
    pub open spec fn json(&self) -> JsonV {
        match self {
            ContentBlock::Text { text } => JsonV::Object(seq![("type"@, JsonV::Str("text"@)), ("text"@, JsonV::Str(text@))]),
            ContentBlock::Other => JsonV::Object(seq![("type"@, JsonV::Str("unknown"@))]),
        }
    }

    /// Encode as JSON.
    pub fn to_json(&self) -> (j: Json)
        ensures
            j@ == self.json(),
    {
        match self {
            ContentBlock::Text { text } => {
                let es = vec![entry("type", Json::string("text")), entry("text", str_json(text))];
                let j = object(es);
                assert(entries_view(es@) =~= seq![("type"@, JsonV::Str("text"@)), ("text"@, JsonV::Str(text@))]);
                j
            },
            ContentBlock::Other => {
                let es = vec![entry("type", Json::string("unknown"))];
                let j = object(es);
                assert(entries_view(es@) =~= seq![("type"@, JsonV::Str("unknown"@))]);
                j
            },
        }
    }

    /// Concatenate all `text` blocks with `"\n"`.
    pub fn concat_text(blocks: &[ContentBlock]) -> (r: String)
        ensures
            r@ == join_lines(block_texts(blocks_view(blocks@))),
    {
        let ghost bv = blocks_view(blocks@);
        let mut out: Vec<char> = Vec::new();
        let mut count: usize = 0;
        let mut i: usize = 0;
        while i < blocks.len()
            invariant
                i <= blocks@.len(),
                bv == blocks_view(blocks@),
                out@ == join_lines(block_texts(bv.take(i as int))),
                count == block_texts(bv.take(i as int)).len(),
                count <= i,
            decreases blocks@.len() - i,
        {
            let ghost t = bv.take(i + 1);
            assert(t.drop_last() == bv.take(i as int));
            assert(t.last() == blocks@[i as int]@);
            match &blocks[i] {
                ContentBlock::Text { text } => {
                    let ghost before = out@;
                    if count > 0 {
                        out.push('\n');
                    }
                    let c = chars_of(text.as_str());
                    let ghost mid = out@;
                    let mut k: usize = 0;
                    while k < c.len()
                        invariant
                            k <= c@.len(),
                            out@ == mid + c@.take(k as int),
                        decreases c@.len() - k,
                    {
                        out.push(c[k]);
                        assert(c@.take(k + 1) == c@.take(k as int).push(c@[k as int]));
                        k = k + 1;
                    }
                    proof {
                        assert(c@.take(c@.len() as int) == c@);
                        let prev = block_texts(bv.take(i as int));
                        assert(block_texts(t) == prev.push(text@));
                        assert(prev.push(text@).drop_last() == prev);
                        if prev.len() == 0 {
                            assert(join_lines(prev.push(text@)) == text@);
                            assert(before =~= Seq::<char>::empty());
                        }
                    }
                    count = count + 1;
                },
                ContentBlock::Other => {},
            }
            i = i + 1;
        }
        assert(bv.take(blocks@.len() as int) == bv);
        string_from(&out)
    }
}

/// `session/prompt` request params.
#[derive(Debug, Clone, PartialEq)]
pub struct PromptRequest {
    pub session_id: String,
    pub prompt: Vec<ContentBlock>,
}

/// `session/prompt` result.
#[derive(Debug, Clone, PartialEq)]
pub struct PromptResponse {
    pub stop_reason: StopReason,
}

/// Why a prompt turn ended.
#[derive(Debug, Clone, Copy, PartialEq, Eq)]
pub enum StopReason {
    EndTurn,
    MaxTokens,
    MaxTurnRequests,
    Refusal,
    Cancelled,
}

/// The `snake_case` name of a stop reason.
pub open spec fn stop_reason_name(r: StopReason) -> Seq<char> {
    match r {
        StopReason::EndTurn => "end_turn"@,
        StopReason::MaxTokens => "max_tokens"@,
        StopReason::MaxTurnRequests => "max_turn_requests"@,
        StopReason::Refusal => "refusal"@,
        StopReason::Cancelled => "cancelled"@,
    }
}

impl StopReason {
    /// The JSON encoding: the `snake_case` name.
    pub fn to_json(&self) -> (j: Json)
        ensures
            j@ == JsonV::Str(stop_reason_name(*self)),
    {
        match self {
            StopReason::EndTurn => Json::string("end_turn"),
            StopReason::MaxTokens => Json::string("max_tokens"),
            StopReason::MaxTurnRequests => Json::string("max_turn_requests"),
            StopReason::Refusal => Json::string("refusal"),
            StopReason::Cancelled => Json::string("cancelled"),
        }
    }

    /// Decode from the `snake_case` name.
    pub fn from_json(v: &Json) -> (r: Option<StopReason>)
        ensures
            match r {
                Some(x) => v@ == JsonV::Str(stop_reason_name(x)),
                None => forall|x: StopReason| v@ != JsonV::Str(#[trigger] stop_reason_name(x)),
            },
    {
        proof {
            reveal_strlit("end_turn");
            reveal_strlit("max_tokens");
            reveal_strlit("max_turn_requests");
            reveal_strlit("refusal");
            reveal_strlit("cancelled");
        }
        match v {
            Json::Str(s) => {
                if same_text(s.as_str(), "end_turn") {
                    Some(StopReason::EndTurn)
                } else if same_text(s.as_str(), "max_tokens") {
                    Some(StopReason::MaxTokens)
                } else if same_text(s.as_str(), "max_turn_requests") {
                    Some(StopReason::MaxTurnRequests)
                } else if same_text(s.as_str(), "refusal") {
                    Some(StopReason::Refusal)
                } else if same_text(s.as_str(), "cancelled") {
                    Some(StopReason::Cancelled)
                } else {
                    None
                }
            },
            _ => None,
        }
    }
}

impl PromptResponse {
    /// The JSON encoding: `{stopReason}`.
    pub open spec fn json(&self) -> JsonV {
        JsonV::Object(seq![("stopReason"@, JsonV::Str(stop_reason_name(self.stop_reason)))])
    }

    /// Encode as JSON.
    pub fn to_json(&self) -> (j: Json)
        ensures
            j@ == self.json(),
    {
        let es = vec![entry("stopReason", self.stop_reason.to_json())];
        let j = object(es);
        assert(entries_view(es@) =~= seq![("stopReason"@, JsonV::Str(stop_reason_name(self.stop_reason)))]);
        j
    }

    /// Decode `{stopReason}`.
    pub fn from_json(v: &Json) -> (r: Option<PromptResponse>)
        ensures
            match r {
                Some(x) => v@ is Object && v@.get("stopReason"@) == Some(JsonV::Str(stop_reason_name(x.stop_reason))),
                None => !(v@ is Object) || forall|x: StopReason|
                    v@.get("stopReason"@) != Some(JsonV::Str(#[trigger] stop_reason_name(x))),
            },
    {
        match v {
            Json::Object(_) => {},
            _ => return None,
        }
        match v.get("stopReason") {
            Some(s) => match StopReason::from_json(s) {
                Some(x) => Some(PromptResponse { stop_reason: x }),
                None => None,
            },
            None => None,
        }
    }
}

/// `session/cancel` notification params.
#[derive(Debug, Clone, PartialEq)]
pub struct CancelNotification {
    pub session_id: String,
}

impl CancelNotification {
    /// The JSON encoding: `{sessionId}`.
    pub open spec fn json(&self) -> JsonV {
        JsonV::Object(seq![("sessionId"@, JsonV::Str(self.session_id@))])
    }

    /// Encode as JSON.
    pub fn to_json(&self) -> (j: Json)
        ensures
            j@ == self.json(),
    {
        let es = vec![entry("sessionId", str_json(&self.session_id))];
        let j = object(es);
        assert(entries_view(es@) =~= seq![("sessionId"@, JsonV::Str(self.session_id@))]);
        j
    }
}

/// Tool-call lifecycle status on `tool_call` / `tool_call_update`.
#[derive(Debug, Clone, Copy, PartialEq, Eq)]
pub enum ToolCallStatus {
    Pending,
    InProgress,
    Completed,
    Failed,
}

/// The `snake_case` name of a status.
pub open spec fn status_name(s: ToolCallStatus) -> Seq<char> {
    match s {
        ToolCallStatus::Pending => "pending"@,
        ToolCallStatus::InProgress => "in_progress"@,
        ToolCallStatus::Completed => "completed"@,
        ToolCallStatus::Failed => "failed"@,
    }
}

impl ToolCallStatus {
    /// The JSON encoding: the `snake_case` name.
    pub fn to_json(&self) -> (j: Json)
        ensures
            j@ == JsonV::Str(status_name(*self)),
    {
        match self {
            ToolCallStatus::Pending => Json::string("pending"),
            ToolCallStatus::InProgress => Json::string("in_progress"),
            ToolCallStatus::Completed => Json::string("completed"),
            ToolCallStatus::Failed => Json::string("failed"),
        }
    }
}

/// Text content payload `{type:"text", text}`.
#[derive(Debug, Clone, PartialEq)]
pub enum TextContent {
    Text { text: String },
}

impl TextContent {
    /// A text payload.
    pub fn text(text: String) -> (r: TextContent)
        ensures
            r == (TextContent::Text { text }),
    {
        TextContent::Text { text }
    }

    /// The JSON encoding: `{type: "text", text}`.
    pub open spec fn json(&self) -> JsonV {
        match self {
            TextContent::Text { text } => JsonV::Object(seq![("type"@, JsonV::Str("text"@)), ("text"@, JsonV::Str(text@))]),
        }
    }

    /// Encode as JSON.
    pub fn to_json(&self) -> (j: Json)
        ensures
            j@ == self.json(),
    {
        match self {
            TextContent::Text { text } => {
                let es = vec![entry("type", Json::string("text")), entry("text", str_json(text))];
                let j = object(es);
                assert(entries_view(es@) =~= seq![("type"@, JsonV::Str("text"@)), ("text"@, JsonV::Str(text@))]);
                j
            },
        }
    }
}

/// Nested content item on `tool_call_update`: `{type:"content", content:{type:"text", text}}`.
#[derive(Debug, Clone, PartialEq)]
pub enum ToolCallContentItem {
    Content { content: TextContent },
}

impl ToolCallContentItem {
    /// The JSON encoding: `{type: "content", content}`.
    pub open spec fn json(&self) -> JsonV {
        match self {
            ToolCallContentItem::Content { content } => JsonV::Object(
                seq![("type"@, JsonV::Str("content"@)), ("content"@, content.json())],
            ),
        }
    }

    /// Encode as JSON.
    pub fn to_json(&self) -> (j: Json)
        ensures
            j@ == self.json(),
    {
        match self {
            ToolCallContentItem::Content { content } => {
                let es = vec![entry("type", Json::string("content")), entry("content", content.to_json())];
                let j = object(es);
                assert(entries_view(es@) =~= seq![("type"@, JsonV::Str("content"@)), ("content"@, content.json())]);
                j
            },
        }
    }
}

/// Streaming `session/update` payload (the `update` field).
#[derive(Debug, Clone, PartialEq)]
pub enum SessionUpdate {
    AgentMessageChunk { content: TextContent },
    AgentThoughtChunk { content: TextContent },
    ToolCall {
        tool_call_id: String,
        title: String,
        kind: String,
        status: ToolCallStatus,
        raw_input: Json,
    },
    ToolCallUpdate {
        tool_call_id: String,
        status: ToolCallStatus,
        raw_output: Option<Json>,
        content: Option<Vec<ToolCallContentItem>>,
    },
}

/// The encodings of content items.
pub open spec fn content_items_json(items: Seq<ToolCallContentItem>) -> Seq<JsonV> {
    items.map_values(|c: ToolCallContentItem| c.json())
}

impl SessionUpdate {
    /// The JSON encoding, tagged by `sessionUpdate`; an absent `rawOutput`
    /// or `content` is left out.
    pub open spec fn json(&self) -> JsonV {
        match self {
            SessionUpdate::AgentMessageChunk { content } => JsonV::Object(
                seq![("sessionUpdate"@, JsonV::Str("agent_message_chunk"@)), ("content"@, content.json())],
            ),
            SessionUpdate::AgentThoughtChunk { content } => JsonV::Object(
                seq![("sessionUpdate"@, JsonV::Str("agent_thought_chunk"@)), ("content"@, content.json())],
            ),
            SessionUpdate::ToolCall { tool_call_id, title, kind, status, raw_input } => JsonV::Object(
                seq![
                    ("sessionUpdate"@, JsonV::Str("tool_call"@)),
                    ("toolCallId"@, JsonV::Str(tool_call_id@)),
                    ("title"@, JsonV::Str(title@)),
                    ("kind"@, JsonV::Str(kind@)),
                    ("status"@, JsonV::Str(status_name(*status))),
                    ("rawInput"@, raw_input@),
                ],
            ),
            SessionUpdate::ToolCallUpdate { tool_call_id, status, raw_output, content } => JsonV::Object(
                seq![
                    ("sessionUpdate"@, JsonV::Str("tool_call_update"@)),
                    ("toolCallId"@, JsonV::Str(tool_call_id@)),
                    ("status"@, JsonV::Str(status_name(*status))),
                ] + match raw_output {
                    Some(o) => seq![("rawOutput"@, o@)],
                    None => Seq::empty(),
                } + match content {
                    Some(items) => seq![("content"@, JsonV::Array(content_items_json(items@)))],
                    None => Seq::empty(),
                },
            ),
        }
    }

    /// Encode as JSON.
    pub fn to_json(&self) -> (j: Json)
        ensures
            j@ == self.json(),
    {
        match self {
            SessionUpdate::AgentMessageChunk { content } => {
                let es = vec![
                    entry("sessionUpdate", Json::string("agent_message_chunk")),
                    entry("content", content.to_json()),
                ];
                let j = object(es);
                assert(entries_view(es@) =~= seq![("sessionUpdate"@, JsonV::Str("agent_message_chunk"@)), ("content"@, content.json())]);
                j
            },
            SessionUpdate::AgentThoughtChunk { content } => {
                let es = vec![
                    entry("sessionUpdate", Json::string("agent_thought_chunk")),
                    entry("content", content.to_json()),
                ];
                let j = object(es);
                assert(entries_view(es@) =~= seq![("sessionUpdate"@, JsonV::Str("agent_thought_chunk"@)), ("content"@, content.json())]);
                j
            },
            SessionUpdate::ToolCall { tool_call_id, title, kind, status, raw_input } => {
                let es = vec![
                    entry("sessionUpdate", Json::string("tool_call")),
                    entry("toolCallId", str_json(tool_call_id)),
                    entry("title", str_json(title)),
                    entry("kind", str_json(kind)),
                    entry("status", status.to_json()),
                    entry("rawInput", raw_input.copy()),
                ];
                let j = object(es);
                assert(entries_view(es@) =~= seq![
                    ("sessionUpdate"@, JsonV::Str("tool_call"@)),
                    ("toolCallId"@, JsonV::Str(tool_call_id@)),
                    ("title"@, JsonV::Str(title@)),
                    ("kind"@, JsonV::Str(kind@)),
                    ("status"@, JsonV::Str(status_name(*status))),
                    ("rawInput"@, raw_input@),
                ]);
                j
            },
            SessionUpdate::ToolCallUpdate { tool_call_id, status, raw_output, content } => {
                let mut es = vec![
                    entry("sessionUpdate", Json::string("tool_call_update")),
                    entry("toolCallId", str_json(tool_call_id)),
                    entry("status", status.to_json()),
                ];
                let ghost head = entries_view(es@);
                assert(head =~= seq![
                    ("sessionUpdate"@, JsonV::Str("tool_call_update"@)),
                    ("toolCallId"@, JsonV::Str(tool_call_id@)),
                    ("status"@, JsonV::Str(status_name(*status))),
                ]);
                match raw_output {
                    Some(o) => {
                        es.push(entry("rawOutput", o.copy()));
                    },
                    None => {},
                }
                let ghost mid = entries_view(es@);
                assert(mid =~= head + match raw_output {
                    Some(o) => seq![("rawOutput"@, o@)],
                    None => Seq::<(Seq<char>, JsonV)>::empty(),
                });
                match content {
                    Some(items) => {
                        let mut js: Vec<Json> = Vec::new();
                        let mut i: usize = 0;
                        while i < items.len()
                            invariant
                                i <= items@.len(),
                                js@.len() == i,
                                forall|k: int| 0 <= k < i ==> (#[trigger] js@[k])@ == items@[k].json(),
                            decreases items@.len() - i,
                        {
                            js.push(items[i].to_json());
                            i = i + 1;
                        }
                        assert(items_view(js@) =~= content_items_json(items@));
                        es.push(entry("content", array(js)));
                    },
                    None => {},
                }
                assert(entries_view(es@) =~= mid + match content {
                    Some(items) => seq![("content"@, JsonV::Array(content_items_json(items@)))],
                    None => Seq::<(Seq<char>, JsonV)>::empty(),
                });
                object(es)
            },
        }
    }
}

/// The text of a text payload.
pub open spec fn text_of(c: TextContent) -> Seq<char> {
    match c {
        TextContent::Text { text } => text@,
    }
}

/// The text of a tool-call content item.
pub open spec fn item_text(c: ToolCallContentItem) -> Seq<char> {
    match c {
        ToolCallContentItem::Content { content } => text_of(content),
    }
}

/// The mathematical value of a [`SessionUpdate`].
pub enum SessionUpdateV {
    AgentMessageChunk { text: Seq<char> },
    AgentThoughtChunk { text: Seq<char> },
    ToolCall { tool_call_id: Seq<char>, title: Seq<char>, kind: Seq<char>, status: ToolCallStatus, raw_input: JsonV },
    ToolCallUpdate {
        tool_call_id: Seq<char>,
        status: ToolCallStatus,
        raw_output: Option<JsonV>,
        content: Option<Seq<Seq<char>>>,
    },
}

impl View for SessionUpdate {
    type V = SessionUpdateV;

    open spec fn view(&self) -> SessionUpdateV {
        match self {
            SessionUpdate::AgentMessageChunk { content } => SessionUpdateV::AgentMessageChunk { text: text_of(*content) },
            SessionUpdate::AgentThoughtChunk { content } => SessionUpdateV::AgentThoughtChunk { text: text_of(*content) },
            SessionUpdate::ToolCall { tool_call_id, title, kind, status, raw_input } => SessionUpdateV::ToolCall {
                tool_call_id: tool_call_id@,
                title: title@,
                kind: kind@,
                status: *status,
                raw_input: raw_input@,
            },
            SessionUpdate::ToolCallUpdate { tool_call_id, status, raw_output, content } => SessionUpdateV::ToolCallUpdate {
                tool_call_id: tool_call_id@,
                status: *status,
                raw_output: opt_json(*raw_output),
                content: match content {
                    Some(items) => Some(items@.map_values(|c: ToolCallContentItem| item_text(c))),
                    None => None,
                },
            },
        }
    }
}

/// A status decoded from its `snake_case` name.
pub open spec fn decode_status(v: Option<JsonV>) -> Option<ToolCallStatus> {
    match v {
        Some(JsonV::Str(s)) => if s == "pending"@ {
            Some(ToolCallStatus::Pending)
        } else if s == "in_progress"@ {
            Some(ToolCallStatus::InProgress)
        } else if s == "completed"@ {
            Some(ToolCallStatus::Completed)
        } else if s == "failed"@ {
            Some(ToolCallStatus::Failed)
        } else {
            None
        },
        _ => None,
    }
}

/// A text payload decoded: an object tagged `type: "text"` with a string
/// `text`.
pub open spec fn decode_text_content(v: Option<JsonV>) -> Option<Seq<char>> {
    match v {
        Some(c) => if c is Object && str_of(c.get("type"@)) == Some("text"@) {
            str_of(c.get("text"@))
        } else {
            None
        },
        None => None,
    }
}

/// A tool-call content item decoded: an object tagged `type: "content"`
/// whose `content` is a text payload.
pub open spec fn decode_content_item(v: JsonV) -> Option<Seq<char>> {
    if v is Object && str_of(v.get("type"@)) == Some("content"@) {
        decode_text_content(v.get("content"@))
    } else {
        None
    }
}

/// The text of a decoded item (empty for one that does not decode).
pub open spec fn decoded_text(o: Option<Seq<char>>) -> Seq<char> {
    match o {
        Some(t) => t,
        None => Seq::empty(),
    }
}

/// Content items decoded: every item must decode.
pub open spec fn decode_content_items(items: Seq<JsonV>) -> Option<Seq<Seq<char>>> {
    if forall|i: int| 0 <= i < items.len() ==> (#[trigger] decode_content_item(items[i])) is Some {
        Some(Seq::new(items.len(), |i: int| decoded_text(decode_content_item(items[i]))))
    } else {
        None
    }
}

/// A `session/update` payload decoded, tagged by `sessionUpdate`. Unknown
/// keys are ignored; `rawInput` must be present (any value, `null`
/// included); an absent or `null` `rawOutput` or `content` is `None`.
pub open spec fn decode_session_update(v: JsonV) -> Option<SessionUpdateV> {
    if !(v is Object) {
        None
    } else {
        match str_of(v.get("sessionUpdate"@)) {
            None => None,
            Some(tag) => if tag == "agent_message_chunk"@ {
                match decode_text_content(v.get("content"@)) {
                    Some(t) => Some(SessionUpdateV::AgentMessageChunk { text: t }),
                    None => None,
                }
            } else if tag == "agent_thought_chunk"@ {
                match decode_text_content(v.get("content"@)) {
                    Some(t) => Some(SessionUpdateV::AgentThoughtChunk { text: t }),
                    None => None,
                }
            } else if tag == "tool_call"@ {
                match (
                    str_of(v.get("toolCallId"@)),
                    str_of(v.get("title"@)),
                    str_of(v.get("kind"@)),
                    decode_status(v.get("status"@)),
                    v.get("rawInput"@),
                ) {
                    (Some(id), Some(title), Some(kind), Some(status), Some(raw)) => Some(
                        SessionUpdateV::ToolCall { tool_call_id: id, title, kind, status, raw_input: raw },
                    ),
                    _ => None,
                }
            } else if tag == "tool_call_update"@ {
                match (str_of(v.get("toolCallId"@)), decode_status(v.get("status"@))) {
                    (Some(id), Some(status)) => match any_of(v.get("content"@)) {
                        None => Some(
                            SessionUpdateV::ToolCallUpdate {
                                tool_call_id: id,
                                status,
                                raw_output: any_of(v.get("rawOutput"@)),
                                content: None,
                            },
                        ),
                        Some(JsonV::Array(items)) => match decode_content_items(items) {
                            Some(ts) => Some(
                                SessionUpdateV::ToolCallUpdate {
                                    tool_call_id: id,
                                    status,
                                    raw_output: any_of(v.get("rawOutput"@)),
                                    content: Some(ts),
                                },
                            ),
                            None => None,
                        },
                        Some(_) => None,
                    },
                    _ => None,
                }
            } else {
                None
            },
        }
    }
}

impl ToolCallStatus {
    /// Decode from the `snake_case` name.
    pub fn from_json(v: Option<&Json>) -> (r: Option<ToolCallStatus>)
        ensures
            r == decode_status(match v {
                Some(j) => Some(j@),
                None => None,
            }),
    {
        match v {
            Some(Json::Str(s)) => {
                if same_text(s.as_str(), "pending") {
                    Some(ToolCallStatus::Pending)
                } else if same_text(s.as_str(), "in_progress") {
                    Some(ToolCallStatus::InProgress)
                } else if same_text(s.as_str(), "completed") {
                    Some(ToolCallStatus::Completed)
                } else if same_text(s.as_str(), "failed") {
                    Some(ToolCallStatus::Failed)
                } else {
                    None
                }
            },
            _ => None,
        }
    }
}

impl TextContent {
    /// Decode a text payload.
    pub fn from_json(v: Option<&Json>) -> (r: Option<TextContent>)
        ensures
            match r {
                Some(c) => decode_text_content(match v {
                    Some(j) => Some(j@),
                    None => None,
                }) == Some(text_of(c)),
                None => decode_text_content(match v {
                    Some(j) => Some(j@),
                    None => None,
                }) is None,
            },
    {
        let c = match v {
            Some(c) => c,
            None => return None,
        };
        match c {
            Json::Object(_) => {},
            _ => return None,
        }
        match c.get("type") {
            Some(Json::Str(t)) => if !same_text(t.as_str(), "text") {
                return None;
            },
            _ => return None,
        }
        match c.get("text") {
            Some(Json::Str(t)) => Some(TextContent::Text { text: t.clone() }),
            _ => None,
        }
    }
}

impl ToolCallContentItem {
    /// Decode a tool-call content item.
    pub fn from_json(v: &Json) -> (r: Option<ToolCallContentItem>)
        ensures
            match r {
                Some(c) => decode_content_item(v@) == Some(item_text(c)),
                None => decode_content_item(v@) is None,
            },
    {
        match v {
            Json::Object(_) => {},
            _ => return None,
        }
        match v.get("type") {
            Some(Json::Str(t)) => if !same_text(t.as_str(), "content") {
                return None;
            },
            _ => return None,
        }
        match TextContent::from_json(v.get("content")) {
            Some(content) => Some(ToolCallContentItem::Content { content }),
            None => None,
        }
    }
}

/// Decode a list of content items; `None` when one does not decode.
fn content_items_from_json(items: &Vec<Json>) -> (r: Option<Vec<ToolCallContentItem>>)
    ensures
        match r {
            Some(out) => decode_content_items(items_view(items@)) == Some(out@.map_values(|c: ToolCallContentItem| item_text(c))),
            None => decode_content_items(items_view(items@)) is None,
        },
{
    let ghost iv = items_view(items@);
    proof {
        crate::json::lemma_array_items(*items);
    }
    let mut out: Vec<ToolCallContentItem> = Vec::new();
    let mut i: usize = 0;
    while i < items.len()
        invariant
            i <= items@.len(),
            iv == items_view(items@),
            iv.len() == items@.len(),
            forall|k: int| 0 <= k < items@.len() ==> #[trigger] iv[k] == items@[k]@,
            out@.len() == i,
            forall|k: int| 0 <= k < i ==> decode_content_item(iv[k]) == Some(item_text(#[trigger] out@[k])),
        decreases items@.len() - i,
    {
        match ToolCallContentItem::from_json(&items[i]) {
            Some(c) => out.push(c),
            None => {
                assert(decode_content_item(iv[i as int]) is None);
                return None;
            },
        }
        i = i + 1;
    }
    assert(decode_content_items(iv) == Some(out@.map_values(|c: ToolCallContentItem| item_text(c)))) by {
        assert forall|k: int| 0 <= k < iv.len() implies (#[trigger] decode_content_item(iv[k])) is Some by {
            assert(decode_content_item(iv[k]) == Some(item_text(out@[k])));
        }
        assert(Seq::new(iv.len(), |k: int| decoded_text(decode_content_item(iv[k])))
            =~= out@.map_values(|c: ToolCallContentItem| item_text(c)));
    }
    Some(out)
}

impl SessionUpdate {
    /// Decode a `session/update` payload.
    pub fn from_json(v: &Json) -> (r: Option<SessionUpdate>)
        ensures
            match r {
                Some(u) => decode_session_update(v@) == Some(u@),
                None => decode_session_update(v@) is None,
            },
    {
        match v {
            Json::Object(_) => {},
            _ => return None,
        }
        let tag = match v.get("sessionUpdate") {
            Some(Json::Str(t)) => t,
            _ => return None,
        };
        if same_text(tag.as_str(), "agent_message_chunk") {
            match TextContent::from_json(v.get("content")) {
                Some(content) => Some(SessionUpdate::AgentMessageChunk { content }),
                None => None,
            }
        } else if same_text(tag.as_str(), "agent_thought_chunk") {
            match TextContent::from_json(v.get("content")) {
                Some(content) => Some(SessionUpdate::AgentThoughtChunk { content }),
                None => None,
            }
        } else if same_text(tag.as_str(), "tool_call") {
            let id = match v.get("toolCallId") {
                Some(Json::Str(t)) => t.clone(),
                _ => return None,
            };
            let title = match v.get("title") {
                Some(Json::Str(t)) => t.clone(),
                _ => return None,
            };
            let kind = match v.get("kind") {
                Some(Json::Str(t)) => t.clone(),
                _ => return None,
            };
            let status = match ToolCallStatus::from_json(v.get("status")) {
                Some(s) => s,
                None => return None,
            };
            let raw_input = match v.get("rawInput") {
                Some(x) => x.copy(),
                None => return None,
            };
            Some(SessionUpdate::ToolCall { tool_call_id: id, title, kind, status, raw_input })
        } else if same_text(tag.as_str(), "tool_call_update") {
            let id = match v.get("toolCallId") {
                Some(Json::Str(t)) => t.clone(),
                _ => return None,
            };
            let status = match ToolCallStatus::from_json(v.get("status")) {
                Some(s) => s,
                None => return None,
            };
            let raw_output = any_field(v, "rawOutput");
            let content = match v.get("content") {
                None => None,
                Some(Json::Null) => None,
                Some(Json::Array(items)) => {
                    proof {
                        crate::json::lemma_array_items(*items);
                    }
                    match content_items_from_json(items) {
                        Some(out) => Some(out),
                        None => return None,
                    }
                },
                Some(_) => return None,
            };
            Some(SessionUpdate::ToolCallUpdate { tool_call_id: id, status, raw_output, content })
        } else {
            None
        }
    }
}

/// Params for the `session/update` notification.
#[derive(Debug, Clone, PartialEq)]
pub struct SessionUpdateParams {
    pub session_id: String,
    pub update: SessionUpdate,
}

impl SessionUpdateParams {
    /// The JSON encoding: `{sessionId, update}`.
    pub open spec fn json(&self) -> JsonV {
        JsonV::Object(seq![("sessionId"@, JsonV::Str(self.session_id@)), ("update"@, self.update.json())])
    }

    /// Encode as JSON.
    pub fn to_json(&self) -> (j: Json)
        ensures
            j@ == self.json(),
    {
        let es = vec![entry("sessionId", str_json(&self.session_id)), entry("update", self.update.to_json())];
        let j = object(es);
        assert(entries_view(es@) =~= seq![("sessionId"@, JsonV::Str(self.session_id@)), ("update"@, self.update.json())]);
        j
    }
}

/// A field that must be a string.
pub open spec fn str_of(v: Option<JsonV>) -> Option<Seq<char>> {
    match v {
        Some(JsonV::Str(s)) => Some(s),
        _ => None,
    }
}

/// An optional field of any JSON value: absent or `null` is `None`.
pub open spec fn any_of(v: Option<JsonV>) -> Option<JsonV> {
    match v {
        None => None,
        Some(JsonV::Null) => None,
        Some(x) => Some(x),
    }
}

/// What the `initialize` params decode to: `protocolVersion` (a `u16`),
/// and the optional client capabilities and info.
pub open spec fn decode_initialize_fields(v: JsonV) -> Option<(u16, Option<JsonV>, Option<JsonV>)> {
    if !(v is Object) {
        None
    } else {
        match v.get("protocolVersion"@) {
            Some(JsonV::Number(t)) => match parse_unsigned(t, u16::MAX as nat) {
                Some(n) => Some((n as u16, any_of(v.get("clientCapabilities"@)), any_of(v.get("clientInfo"@)))),
                None => None,
            },
            _ => None,
        }
    }
}

/// The value of an optional JSON value.
pub open spec fn opt_json(o: Option<Json>) -> Option<JsonV> {
    match o {
        Some(j) => Some(j@),
        None => None,
    }
}

/// A copy of the value of an optional field: absent or `null` is `None`.
fn any_field(v: &Json, key: &str) -> (r: Option<Json>)
    ensures
        opt_json(r) == any_of(v@.get(key@)),
{
    match v.get(key) {
        None => None,
        Some(Json::Null) => None,
        Some(x) => Some(x.copy()),
    }
}

/// The text of a field that must be a string.
fn str_field_of(v: &Json, key: &str) -> (r: Option<String>)
    ensures
        match r {
            Some(s) => str_of(v@.get(key@)) == Some(s@),
            None => str_of(v@.get(key@)) is None,
        },
{
    match v.get(key) {
        Some(Json::Str(s)) => Some(s.clone()),
        _ => None,
    }
}

/// The message of params that do not decode.
fn invalid(what: &str) -> (s: String)
    ensures
        s@ == what@,
{
    owned(what)
}

/// What is wrong with `initialize` params, in the order checked; `None`
/// when they decode.
pub open spec fn initialize_fields_error(v: JsonV) -> Option<Seq<char>> {
    if !(v is Object) {
        Some("expected an object"@)
    } else {
        match v.get("protocolVersion"@) {
            Some(JsonV::Number(t)) => match parse_unsigned(t, u16::MAX as nat) {
                Some(_) => None,
                None => Some("`protocolVersion` is not a u16"@),
            },
            _ => Some("missing or invalid `protocolVersion`"@),
        }
    }
}

impl InitializeRequest {
    /// Decode `initialize` params; the error says what is wrong.
    fn from_fields(v: &Json) -> (r: Result<InitializeRequest, String>)
        ensures
            match r {
                Ok(x) => decode_initialize_fields(v@) == Some((x.protocol_version, opt_json(x.client_capabilities), opt_json(x.client_info)))
                    && initialize_fields_error(v@) is None,
                Err(m) => decode_initialize_fields(v@) is None && initialize_fields_error(v@) == Some(m@),
            },
    {
        match v {
            Json::Object(_) => {},
            _ => return Err(invalid("expected an object")),
        }
        let t = match v.get("protocolVersion") {
            Some(Json::Number(t)) => t,
            _ => return Err(invalid("missing or invalid `protocolVersion`")),
        };
        let c = chars_of(t.as_str());
        assert(c@.subrange(0, c@.len() as int) == c@);
        let n = match parse_u64(&c, 0, c.len()) {
            Some(n) => if n <= 65535 {
                n as u16
            } else {
                return Err(invalid("`protocolVersion` is not a u16"));
            },
            None => return Err(invalid("`protocolVersion` is not a u16")),
        };
        Ok(
            InitializeRequest {
                protocol_version: n,
                client_capabilities: any_field(v, "clientCapabilities"),
                client_info: any_field(v, "clientInfo"),
            },
        )
    }
}

/// What `session/new` params decode to: `cwd`, and the MCP servers
/// (`mcpServers`, empty when absent).
pub open spec fn decode_new_session_fields(v: JsonV) -> Option<(Seq<char>, Seq<JsonV>)> {
    if !(v is Object) {
        None
    } else {
        match (str_of(v.get("cwd"@)), v.get("mcpServers"@)) {
            (Some(cwd), None) => Some((cwd, Seq::empty())),
            (Some(cwd), Some(JsonV::Array(items))) => Some((cwd, items)),
            _ => None,
        }
    }
}

/// What is wrong with `session/new` params, in the order checked; `None`
/// when they decode.
pub open spec fn new_session_fields_error(v: JsonV) -> Option<Seq<char>> {
    if !(v is Object) {
        Some("expected an object"@)
    } else if str_of(v.get("cwd"@)) is None {
        Some("missing or invalid `cwd`"@)
    } else {
        match v.get("mcpServers"@) {
            None => None,
            Some(JsonV::Array(_)) => None,
            _ => Some("`mcpServers` is not an array"@),
        }
    }
}

impl NewSessionRequest {
    /// Decode `session/new` params; the error says what is wrong.
    fn from_fields(v: &Json) -> (r: Result<NewSessionRequest, String>)
        ensures
            match r {
                Ok(x) => decode_new_session_fields(v@) == Some((x.cwd@, items_view(x.mcp_servers@)))
                    && new_session_fields_error(v@) is None,
                Err(m) => decode_new_session_fields(v@) is None && new_session_fields_error(v@) == Some(m@),
            },
    {
        match v {
            Json::Object(_) => {},
            _ => return Err(invalid("expected an object")),
        }
        let cwd = match str_field_of(v, "cwd") {
            Some(c) => c,
            None => return Err(invalid("missing or invalid `cwd`")),
        };
        match v.get("mcpServers") {
            None => {
                let r = NewSessionRequest { cwd, mcp_servers: Vec::new() };
                assert(items_view(r.mcp_servers@) =~= Seq::<JsonV>::empty());
                Ok(r)
            },
            Some(Json::Array(items)) => {
                proof {
                    crate::json::lemma_array_items(*items);
                }
                let mut out: Vec<Json> = Vec::new();
                let mut i: usize = 0;
                while i < items.len()
                    invariant
                        i <= items@.len(),
                        out@.len() == i,
                        forall|k: int| 0 <= k < i ==> (#[trigger] out@[k])@ == items@[k]@,
                    decreases items@.len() - i,
                {
                    out.push(items[i].copy());
                    i = i + 1;
                }
                assert(items_view(out@) =~= items_view(items@));
                Ok(NewSessionRequest { cwd, mcp_servers: out })
            },
            _ => Err(invalid("`mcpServers` is not an array")),
        }
    }
}

/// What a prompt content block decodes to: tagged by `type`, `text` with its
/// `text`, any other tag `Other`.
pub open spec fn decode_content_block(v: JsonV) -> Option<ContentBlockV> {
    if !(v is Object) {
        None
    } else {
        match str_of(v.get("type"@)) {
            None => None,
            Some(tag) => if tag == "text"@ {
                match str_of(v.get("text"@)) {
                    Some(t) => Some(ContentBlockV::Text { text: t }),
                    None => None,
                }
            } else {
                Some(ContentBlockV::Other)
            },
        }
    }
}

/// Every item decodes as a content block, to the blocks `bs`.
pub open spec fn blocks_decode(items: Seq<JsonV>, bs: Seq<ContentBlockV>) -> bool {
    items.len() == bs.len() && forall|i: int| 0 <= i < items.len() ==> decode_content_block(#[trigger] items[i]) == Some(bs[i])
}

/// Some item does not decode as a content block.
pub open spec fn some_block_invalid(items: Seq<JsonV>) -> bool {
    exists|i: int| 0 <= i < items.len() && decode_content_block(#[trigger] items[i]) is None
}

impl ContentBlock {
    /// Decode a prompt content block.
    pub fn from_json(v: &Json) -> (r: Option<ContentBlock>)
        ensures
            match r {
                Some(b) => decode_content_block(v@) == Some(b@),
                None => decode_content_block(v@) is None,
            },
    {
        match v {
            Json::Object(_) => {},
            _ => return None,
        }
        let tag = match str_field_of(v, "type") {
            Some(t) => t,
            None => return None,
        };
        if same_text(tag.as_str(), "text") {
            match str_field_of(v, "text") {
                Some(t) => Some(ContentBlock::Text { text: t }),
                None => None,
            }
        } else {
            Some(ContentBlock::Other)
        }
    }
}

/// `session/prompt` params decode: `sessionId` is a string and `prompt` an
/// array of content blocks.
pub open spec fn prompt_fields_of(v: JsonV) -> Option<(Seq<char>, Seq<JsonV>)> {
    if !(v is Object) {
        None
    } else {
        match (str_of(v.get("sessionId"@)), v.get("prompt"@)) {
            (Some(sid), Some(JsonV::Array(items))) => Some((sid, items)),
            _ => None,
        }
    }
}

/// What is wrong with `session/prompt` params, in the order checked; `None`
/// when they decode.
pub open spec fn prompt_fields_error(v: JsonV) -> Option<Seq<char>> {
    if !(v is Object) {
        Some("expected an object"@)
    } else if str_of(v.get("sessionId"@)) is None {
        Some("missing or invalid `sessionId`"@)
    } else {
        match v.get("prompt"@) {
            Some(JsonV::Array(items)) => if some_block_invalid(items) {
                Some("invalid content block in `prompt`"@)
            } else {
                None
            },
            _ => Some("missing or invalid `prompt`"@),
        }
    }
}

impl PromptRequest {
    /// Decode `session/prompt` params; the error says what is wrong.
    fn from_fields(v: &Json) -> (r: Result<PromptRequest, String>)
        ensures
            match r {
                Ok(x) => prompt_fields_of(v@) matches Some((sid, items)) && sid == x.session_id@ && blocks_decode(
                    items,
                    blocks_view(x.prompt@),
                ) && prompt_fields_error(v@) is None,
                Err(m) => (prompt_fields_of(v@) is None || (prompt_fields_of(v@) matches Some((_s, items)) && some_block_invalid(items)))
                    && prompt_fields_error(v@) == Some(m@),
            },
    {
        match v {
            Json::Object(_) => {},
            _ => return Err(invalid("expected an object")),
        }
        let sid = match str_field_of(v, "sessionId") {
            Some(s) => s,
            None => return Err(invalid("missing or invalid `sessionId`")),
        };
        let items = match v.get("prompt") {
            Some(Json::Array(items)) => items,
            _ => return Err(invalid("missing or invalid `prompt`")),
        };
        proof {
            crate::json::lemma_array_items(*items);
        }
        let ghost iv = items_view(items@);
        assert(prompt_fields_of(v@) == Some((sid@, iv)));
        let mut out: Vec<ContentBlock> = Vec::new();
        let mut i: usize = 0;
        while i < items.len()
            invariant
                i <= items@.len(),
                iv == items_view(items@),
                prompt_fields_of(v@) == Some((sid@, iv)),
                out@.len() == i,
                forall|k: int| 0 <= k < i ==> decode_content_block(iv[k]) == Some((#[trigger] out@[k])@),
            decreases items@.len() - i,
        {
            match ContentBlock::from_json(&items[i]) {
                Some(b) => out.push(b),
                None => {
                    assert(decode_content_block(iv[i as int]) is None);
                    return Err(invalid("invalid content block in `prompt`"));
                },
            }
            i = i + 1;
        }
        let r = PromptRequest { session_id: sid, prompt: out };
        assert forall|k: int| 0 <= k < iv.len() implies decode_content_block(#[trigger] iv[k]) == Some(blocks_view(r.prompt@)[k]) by {}
        Ok(r)
    }
}

impl CancelNotification {
    /// Decode `session/cancel` params.
    fn from_fields(v: &Json) -> (r: Option<CancelNotification>)
        ensures
            match r {
                Some(x) => v@ is Object && str_of(v@.get("sessionId"@)) == Some(x.session_id@),
                None => !(v@ is Object) || str_of(v@.get("sessionId"@)) is None,
            },
    {
        match v {
            Json::Object(_) => {},
            _ => return None,
        }
        match str_field_of(v, "sessionId") {
            Some(s) => Some(CancelNotification { session_id: s }),
            None => None,
        }
    }
}


/// Params as a struct's decoder reads them: an object as it is; an array,
/// no longer than the struct's field list, as the object that gives its
/// items the field names in order (a shorter array leaves the last fields
/// out); anything else not at all.
pub open spec fn named_view(v: JsonV, names: Seq<Seq<char>>) -> Option<JsonV> {
    match v {
        JsonV::Object(_) => Some(v),
        JsonV::Array(items) => if items.len() <= names.len() {
            Some(JsonV::Object(Seq::new(items.len(), |i: int| (names[i], items[i]))))
        } else {
            None
        },
        _ => None,
    }
}

/// The names of a field list.
pub open spec fn names_view(names: Seq<&str>) -> Seq<Seq<char>> {
    names.map_values(|n: &str| n@)
}

/// What is wrong with params that [`named_view`] does not read.
pub open spec fn shape_error(v: JsonV) -> Seq<char> {
    if v is Array {
        "too many positional params"@
    } else {
        "expected an object"@
    }
}

/// The params in the form [`named_view`] gives.
fn named_params(v: &Json, names: &[&str]) -> (r: Result<Json, String>)
    ensures
        match r {
            Ok(o) => named_view(v@, names_view(names@)) == Some(o@),
            Err(m) => named_view(v@, names_view(names@)) is None && m@ == shape_error(v@),
        },
{
    match v {
        Json::Object(_) => Ok(v.copy()),
        Json::Array(items) => {
            proof {
                crate::json::lemma_array_items(*items);
            }
            if items.len() > names.len() {
                return Err(owned("too many positional params"));
            }
            let ghost nv = names_view(names@);
            let mut es: Vec<(String, Json)> = Vec::new();
            let mut i: usize = 0;
            while i < items.len()
                invariant
                    i <= items@.len() <= names@.len(),
                    nv == names_view(names@),
                    es@.len() == i,
                    forall|k: int| 0 <= k < i ==> (#[trigger] entries_view(es@)[k]) == (nv[k], items@[k]@),
                decreases items@.len() - i,
            {
                let e = entry(names[i], items[i].copy());
                let ghost prev = es@;
                es.push(e);
                proof {
                    assert(nv[i as int] == names@[i as int]@);
                    assert(entries_view(es@) =~= entries_view(prev).push((nv[i as int], items@[i as int]@)));
                }
                i = i + 1;
            }
            let o = object(es);
            assert(entries_view(es@) =~= Seq::new(items_view(items@).len(), |k: int| (nv[k], items_view(items@)[k])));
            Ok(o)
        },
        _ => Err(owned("expected an object")),
    }
}

/// The field list of `initialize` params.
pub open spec fn initialize_names() -> Seq<Seq<char>> {
    seq!["protocolVersion"@, "clientCapabilities"@, "clientInfo"@]
}

/// What `initialize` params decode to, objects and arrays alike.
pub open spec fn decode_initialize(v: JsonV) -> Option<(u16, Option<JsonV>, Option<JsonV>)> {
    match named_view(v, initialize_names()) {
        Some(o) => decode_initialize_fields(o),
        None => None,
    }
}

/// What is wrong with `initialize` params; `None` when they decode.
pub open spec fn initialize_error(v: JsonV) -> Option<Seq<char>> {
    match named_view(v, initialize_names()) {
        Some(o) => initialize_fields_error(o),
        None => Some(shape_error(v)),
    }
}

impl InitializeRequest {
    /// Decode `initialize` params, given by name or by position; the error
    /// says what is wrong.
    pub fn from_json(v: &Json) -> (r: Result<InitializeRequest, String>)
        ensures
            match r {
                Ok(x) => decode_initialize(v@) == Some((x.protocol_version, opt_json(x.client_capabilities), opt_json(x.client_info)))
                    && initialize_error(v@) is None,
                Err(m) => decode_initialize(v@) is None && initialize_error(v@) == Some(m@),
            },
    {
        let names = ["protocolVersion", "clientCapabilities", "clientInfo"];
        assert(names_view(names@) =~= initialize_names());
        match named_params(v, &names) {
            Ok(o) => InitializeRequest::from_fields(&o),
            Err(m) => Err(m),
        }
    }
}

/// The field list of `session/new` params.
pub open spec fn new_session_names() -> Seq<Seq<char>> {
    seq!["cwd"@, "mcpServers"@]
}

/// What `session/new` params decode to, objects and arrays alike.
pub open spec fn decode_new_session(v: JsonV) -> Option<(Seq<char>, Seq<JsonV>)> {
    match named_view(v, new_session_names()) {
        Some(o) => decode_new_session_fields(o),
        None => None,
    }
}

/// What is wrong with `session/new` params; `None` when they decode.
pub open spec fn new_session_error(v: JsonV) -> Option<Seq<char>> {
    match named_view(v, new_session_names()) {
        Some(o) => new_session_fields_error(o),
        None => Some(shape_error(v)),
    }
}

impl NewSessionRequest {
    /// Decode `session/new` params, given by name or by position; the error
    /// says what is wrong.
    pub fn from_json(v: &Json) -> (r: Result<NewSessionRequest, String>)
        ensures
            match r {
                Ok(x) => decode_new_session(v@) == Some((x.cwd@, items_view(x.mcp_servers@)))
                    && new_session_error(v@) is None,
                Err(m) => decode_new_session(v@) is None && new_session_error(v@) == Some(m@),
            },
    {
        let names = ["cwd", "mcpServers"];
        assert(names_view(names@) =~= new_session_names());
        match named_params(v, &names) {
            Ok(o) => NewSessionRequest::from_fields(&o),
            Err(m) => Err(m),
        }
    }
}

/// The field list of `session/prompt` params.
pub open spec fn prompt_names() -> Seq<Seq<char>> {
    seq!["sessionId"@, "prompt"@]
}

/// The `sessionId` and `prompt` items of `session/prompt` params, objects
/// and arrays alike.
pub open spec fn prompt_fields(v: JsonV) -> Option<(Seq<char>, Seq<JsonV>)> {
    match named_view(v, prompt_names()) {
        Some(o) => prompt_fields_of(o),
        None => None,
    }
}

/// What is wrong with `session/prompt` params; `None` when they decode.
pub open spec fn prompt_error(v: JsonV) -> Option<Seq<char>> {
    match named_view(v, prompt_names()) {
        Some(o) => prompt_fields_error(o),
        None => Some(shape_error(v)),
    }
}

impl PromptRequest {
    /// Decode `session/prompt` params, given by name or by position; the
    /// error says what is wrong.
    pub fn from_json(v: &Json) -> (r: Result<PromptRequest, String>)
        ensures
            match r {
                Ok(x) => prompt_fields(v@) matches Some((sid, items)) && sid == x.session_id@ && blocks_decode(
                    items,
                    blocks_view(x.prompt@),
                ) && prompt_error(v@) is None,
                Err(m) => (prompt_fields(v@) is None || (prompt_fields(v@) matches Some((_s, items)) && some_block_invalid(items)))
                    && prompt_error(v@) == Some(m@),
            },
    {
        let names = ["sessionId", "prompt"];
        assert(names_view(names@) =~= prompt_names());
        match named_params(v, &names) {
            Ok(o) => PromptRequest::from_fields(&o),
            Err(m) => Err(m),
        }
    }
}

/// The `sessionId` that `session/cancel` params give, objects and arrays
/// alike.
pub open spec fn decode_cancel(v: JsonV) -> Option<Seq<char>> {
    match named_view(v, seq!["sessionId"@]) {
        Some(o) => str_of(o.get("sessionId"@)),
        None => None,
    }
}

impl CancelNotification {
    /// Decode `session/cancel` params, given by name or by position.
    pub fn from_json(v: &Json) -> (r: Option<CancelNotification>)
        ensures
            match r {
                Some(x) => decode_cancel(v@) == Some(x.session_id@),
                None => decode_cancel(v@) is None,
            },
    {
        let names = ["sessionId"];
        assert(names_view(names@) =~= seq!["sessionId"@]);
        match named_params(v, &names) {
            Ok(o) => CancelNotification::from_fields(&o),
            Err(_) => None,
        }
    }
}

} // verus!
