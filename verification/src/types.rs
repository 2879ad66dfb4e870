//! The conversation thread as it is stored, and the figures that the cleaner
//! reports on one.
use crate::duplicate::{duplicate_opt, duplicate_vec, opt_view, seq_views, Duplicate};
use crate::json::{Json, JsonValue};
use crate::str_map::StrMap;
use vstd::prelude::*;

verus! {

/// Meta-info about a thread loaded from the database without its data.
#[derive(Debug)]
pub struct ThreadMeta {
    pub id: String,
    pub summary: String,
    pub updated_at: String,
    pub created_at: String,
    pub data_type: String,
    pub data_size: usize,
    /// "Subagent", "Chat" or nothing where the type could not be told.
    pub thread_type: String,
}

/// Root structure of a thread.
#[derive(Debug)]
pub struct DbThread {
    pub title: Option<String>,
    pub version: Option<String>,
    pub updated_at: Option<String>,
    pub messages: Vec<Message>,
    pub detailed_summary: Option<JsonValue>,
    pub initial_project_snapshot: Option<JsonValue>,
    pub cumulative_token_usage: Option<JsonValue>,
    pub request_token_usage: Option<StrMap<TokenUsage>>,
    pub model: Option<JsonValue>,
    pub profile: Option<JsonValue>,
    /// If present and not null, the thread was spawned from another thread.
    pub subagent_context: Option<JsonValue>,
    pub imported: Option<JsonValue>,
    pub speed: Option<JsonValue>,
    pub thinking_enabled: Option<JsonValue>,
    pub thinking_effort: Option<JsonValue>,
    pub draft_prompt: Option<JsonValue>,
    pub ui_scroll_position: Option<JsonValue>,
}

/// A single message in the thread.
#[derive(Debug)]
pub enum Message {
    User { user: UserMessage },
    Agent { agent: AgentMessage },
    Other(JsonValue),
}

/// A message of the user.
#[derive(Debug)]
pub struct UserMessage {
    pub id: String,
    pub content: Vec<UserContent>,
}

/// User content: text, or some other value that is kept as it is.
#[derive(Debug)]
pub enum UserContent {
    Text { text: String },
    Other(JsonValue),
}

/// A message of the agent.
#[derive(Debug)]
pub struct AgentMessage {
    pub content: Vec<AgentContent>,
    pub tool_results: Option<StrMap<ToolResult>>,
    pub reasoning_details: Option<JsonValue>,
}

/// Agent content blocks.
#[derive(Debug)]
pub enum AgentContent {
    Thinking(ThinkingBlock),
    /// An object whose member `data` holds the redacted text.
    RedactedThinking(JsonValue),
    Text(String),
    ToolUse(ToolUseBlock),
}

/// A block of thinking.
#[derive(Debug)]
pub struct ThinkingBlock {
    pub text: String,
    pub signature: Option<String>,
}

/// A call of a tool.
#[derive(Debug)]
pub struct ToolUseBlock {
    pub id: String,
    pub name: String,
    pub raw_input: Option<String>,
    pub input: Option<JsonValue>,
    pub is_input_complete: Option<bool>,
    pub thought_signature: Option<JsonValue>,
}

/// What a tool call gave back.
#[derive(Debug)]
pub struct ToolResult {
    pub tool_use_id: String,
    pub tool_name: String,
    pub is_error: bool,
    pub content: Option<JsonValue>,
    pub output: Option<JsonValue>,
}

/// Tokens that one request used.
#[derive(Debug, Clone, Copy)]
pub struct TokenUsage {
    pub input_tokens: Option<u64>,
    pub output_tokens: Option<u64>,
    pub cache_creation_input_tokens: Option<u64>,
    pub cache_read_input_tokens: Option<u64>,
}

/// Statistics of a thread.
#[derive(Debug)]
pub struct ThreadStats {
    pub total_messages: usize,
    pub user_messages: usize,
    pub agent_messages: usize,
    pub compressed_size: usize,
    pub uncompressed_size: usize,
    pub thinking_bytes: usize,
    pub tool_results_bytes: usize,
    pub text_bytes: usize,
    pub tool_call_counts: Vec<(String, usize)>,
}

/// What a cleanup would remove.
#[derive(Debug, Clone, Copy)]
pub struct CleanupPreview {
    pub bytes_to_remove: usize,
    pub bytes_to_truncate: usize,
    pub thinking_blocks_removed: usize,
    pub tool_results_truncated: usize,
    pub duplicate_read_file_removed: usize,
    pub original_size: usize,
    pub estimated_new_size: usize,
}

/// Figures of one tool: one row of the category table.
#[derive(Debug)]
pub struct ToolCategoryStats {
    pub tool_name: String,
    pub count: usize,
    pub total_bytes: usize,
    pub max_bytes: usize,
    /// Number of results inside the protected zone.
    pub in_protected: usize,
    /// Bytes that a cleanup would save outside the protected zone.
    pub cleanable_bytes: usize,
}

/// Analysis of a thread by tool.
#[derive(Debug)]
pub struct ThreadAnalysis {
    /// One row per tool name, by total bytes descending.
    pub categories: Vec<ToolCategoryStats>,
    pub total_tool_result_bytes: usize,
    pub total_agent_text_bytes: usize,
    pub total_tool_use_bytes: usize,
    pub total_user_bytes: usize,
    pub grand_total_bytes: usize,
    pub message_count: usize,
    pub protected_message_count: usize,
}

/// The figures of one tool.
pub struct CategoryModel {
    pub count: nat,
    pub total_bytes: nat,
    pub max_bytes: nat,
    pub in_protected: nat,
    pub cleanable_bytes: nat,
}

/// What a [`DbThread`] stands for.
pub struct ThreadModel {
    pub title: Option<Seq<char>>,
    pub version: Option<Seq<char>>,
    pub updated_at: Option<Seq<char>>,
    pub messages: Seq<MessageModel>,
    pub detailed_summary: Option<Json>,
    pub initial_project_snapshot: Option<Json>,
    pub cumulative_token_usage: Option<Json>,
    pub request_token_usage: Option<Seq<(Seq<char>, TokenUsage)>>,
    pub model: Option<Json>,
    pub profile: Option<Json>,
    pub subagent_context: Option<Json>,
    pub imported: Option<Json>,
    pub speed: Option<Json>,
    pub thinking_enabled: Option<Json>,
    pub thinking_effort: Option<Json>,
    pub draft_prompt: Option<Json>,
    pub ui_scroll_position: Option<Json>,
}

/// What a [`Message`] stands for.
pub enum MessageModel {
    User(UserModel),
    Agent(AgentModel),
    Other(Json),
}

/// What a [`UserMessage`] stands for.
pub struct UserModel {
    pub id: Seq<char>,
    pub content: Seq<UserContentModel>,
}

/// What a [`UserContent`] stands for.
pub enum UserContentModel {
    Text(Seq<char>),
    Other(Json),
}

/// What an [`AgentMessage`] stands for.
pub struct AgentModel {
    pub content: Seq<AgentContentModel>,
    pub tool_results: Option<Seq<(Seq<char>, ToolResultModel)>>,
    pub reasoning_details: Option<Json>,
}

/// What an [`AgentContent`] stands for.
pub enum AgentContentModel {
    Thinking(ThinkingModel),
    RedactedThinking(Json),
    Text(Seq<char>),
    ToolUse(ToolUseModel),
}

/// What a [`ThinkingBlock`] stands for.
pub struct ThinkingModel {
    pub text: Seq<char>,
    pub signature: Option<Seq<char>>,
}

/// What a [`ToolUseBlock`] stands for.
pub struct ToolUseModel {
    pub id: Seq<char>,
    pub name: Seq<char>,
    pub raw_input: Option<Seq<char>>,
    pub input: Option<Json>,
    pub is_input_complete: Option<bool>,
    pub thought_signature: Option<Json>,
}

/// What a [`ToolResult`] stands for.
pub struct ToolResultModel {
    pub tool_use_id: Seq<char>,
    pub tool_name: Seq<char>,
    pub is_error: bool,
    pub content: Option<Json>,
    pub output: Option<Json>,
}

impl View for ThinkingBlock {
    type V = ThinkingModel;

    open spec fn view(&self) -> ThinkingModel {
        ThinkingModel { text: self.text@, signature: opt_view(self.signature) }
    }
}

impl View for ToolUseBlock {
    type V = ToolUseModel;

    open spec fn view(&self) -> ToolUseModel {
        ToolUseModel {
            id: self.id@,
            name: self.name@,
            raw_input: opt_view(self.raw_input),
            input: opt_view(self.input),
            is_input_complete: self.is_input_complete,
            thought_signature: opt_view(self.thought_signature),
        }
    }
}

impl View for AgentContent {
    type V = AgentContentModel;

    open spec fn view(&self) -> AgentContentModel {
        match *self {
            AgentContent::Thinking(t) => AgentContentModel::Thinking(t@),
            AgentContent::RedactedThinking(v) => AgentContentModel::RedactedThinking(v@),
            AgentContent::Text(t) => AgentContentModel::Text(t@),
            AgentContent::ToolUse(t) => AgentContentModel::ToolUse(t@),
        }
    }
}

impl View for ToolResult {
    type V = ToolResultModel;

    open spec fn view(&self) -> ToolResultModel {
        ToolResultModel {
            tool_use_id: self.tool_use_id@,
            tool_name: self.tool_name@,
            is_error: self.is_error,
            content: opt_view(self.content),
            output: opt_view(self.output),
        }
    }
}

impl View for AgentMessage {
    type V = AgentModel;

    open spec fn view(&self) -> AgentModel {
        AgentModel {
            content: seq_views(self.content@),
            tool_results: opt_view(self.tool_results),
            reasoning_details: opt_view(self.reasoning_details),
        }
    }
}

impl View for UserContent {
    type V = UserContentModel;

    open spec fn view(&self) -> UserContentModel {
        match *self {
            UserContent::Text { text } => UserContentModel::Text(text@),
            UserContent::Other(v) => UserContentModel::Other(v@),
        }
    }
}

impl View for UserMessage {
    type V = UserModel;

    open spec fn view(&self) -> UserModel {
        UserModel { id: self.id@, content: seq_views(self.content@) }
    }
}

impl View for Message {
    type V = MessageModel;

    open spec fn view(&self) -> MessageModel {
        match *self {
            Message::User { user } => MessageModel::User(user@),
            Message::Agent { agent } => MessageModel::Agent(agent@),
            Message::Other(v) => MessageModel::Other(v@),
        }
    }
}

impl View for TokenUsage {
    type V = TokenUsage;

    open spec fn view(&self) -> TokenUsage {
        *self
    }
}

impl View for DbThread {
    type V = ThreadModel;

    open spec fn view(&self) -> ThreadModel {
        ThreadModel {
            title: opt_view(self.title),
            version: opt_view(self.version),
            updated_at: opt_view(self.updated_at),
            messages: seq_views(self.messages@),
            detailed_summary: opt_view(self.detailed_summary),
            initial_project_snapshot: opt_view(self.initial_project_snapshot),
            cumulative_token_usage: opt_view(self.cumulative_token_usage),
            request_token_usage: opt_view(self.request_token_usage),
            model: opt_view(self.model),
            profile: opt_view(self.profile),
            subagent_context: opt_view(self.subagent_context),
            imported: opt_view(self.imported),
            speed: opt_view(self.speed),
            thinking_enabled: opt_view(self.thinking_enabled),
            thinking_effort: opt_view(self.thinking_effort),
            draft_prompt: opt_view(self.draft_prompt),
            ui_scroll_position: opt_view(self.ui_scroll_position),
        }
    }
}

impl Duplicate for ThinkingBlock {
    fn duplicate(&self) -> (r: Self) {
        ThinkingBlock { text: self.text.duplicate(), signature: duplicate_opt(&self.signature) }
    }
}

impl Duplicate for ToolUseBlock {
    fn duplicate(&self) -> (r: Self) {
        ToolUseBlock {
            id: self.id.duplicate(),
            name: self.name.duplicate(),
            raw_input: duplicate_opt(&self.raw_input),
            input: duplicate_opt(&self.input),
            is_input_complete: self.is_input_complete,
            thought_signature: duplicate_opt(&self.thought_signature),
        }
    }
}

impl Duplicate for AgentContent {
    fn duplicate(&self) -> (r: Self) {
        match self {
            AgentContent::Thinking(t) => AgentContent::Thinking(t.duplicate()),
            AgentContent::RedactedThinking(v) => AgentContent::RedactedThinking(v.duplicate()),
            AgentContent::Text(t) => AgentContent::Text(t.duplicate()),
            AgentContent::ToolUse(t) => AgentContent::ToolUse(t.duplicate()),
        }
    }
}

impl Duplicate for ToolResult {
    fn duplicate(&self) -> (r: Self) {
        ToolResult {
            tool_use_id: self.tool_use_id.duplicate(),
            tool_name: self.tool_name.duplicate(),
            is_error: self.is_error,
            content: duplicate_opt(&self.content),
            output: duplicate_opt(&self.output),
        }
    }
}

impl Duplicate for AgentMessage {
    fn duplicate(&self) -> (r: Self) {
        AgentMessage {
            content: duplicate_vec(&self.content),
            tool_results: duplicate_opt(&self.tool_results),
            reasoning_details: duplicate_opt(&self.reasoning_details),
        }
    }
}

impl Duplicate for UserContent {
    fn duplicate(&self) -> (r: Self) {
        match self {
            UserContent::Text { text } => UserContent::Text { text: text.duplicate() },
            UserContent::Other(v) => UserContent::Other(v.duplicate()),
        }
    }
}

impl Duplicate for UserMessage {
    fn duplicate(&self) -> (r: Self) {
        UserMessage { id: self.id.duplicate(), content: duplicate_vec(&self.content) }
    }
}

impl Duplicate for Message {
    fn duplicate(&self) -> (r: Self) {
        match self {
            Message::User { user } => Message::User { user: user.duplicate() },
            Message::Agent { agent } => Message::Agent { agent: agent.duplicate() },
            Message::Other(v) => Message::Other(v.duplicate()),
        }
    }
}

impl Duplicate for TokenUsage {
    fn duplicate(&self) -> (r: Self) {
        *self
    }
}

impl Duplicate for DbThread {
    fn duplicate(&self) -> (r: Self) {
        DbThread {
            messages: duplicate_vec(&self.messages),
            title: duplicate_opt(&self.title),
            version: duplicate_opt(&self.version),
            updated_at: duplicate_opt(&self.updated_at),
            detailed_summary: duplicate_opt(&self.detailed_summary),
            initial_project_snapshot: duplicate_opt(&self.initial_project_snapshot),
            cumulative_token_usage: duplicate_opt(&self.cumulative_token_usage),
            request_token_usage: duplicate_opt(&self.request_token_usage),
            model: duplicate_opt(&self.model),
            profile: duplicate_opt(&self.profile),
            subagent_context: duplicate_opt(&self.subagent_context),
            imported: duplicate_opt(&self.imported),
            speed: duplicate_opt(&self.speed),
            thinking_enabled: duplicate_opt(&self.thinking_enabled),
            thinking_effort: duplicate_opt(&self.thinking_effort),
            draft_prompt: duplicate_opt(&self.draft_prompt),
            ui_scroll_position: duplicate_opt(&self.ui_scroll_position),
        }
    }
}

impl Clone for ThinkingBlock {
    fn clone(&self) -> (r: Self)
        ensures
            r@ == self@,
    {
        self.duplicate()
    }
}

impl Clone for ToolUseBlock {
    fn clone(&self) -> (r: Self)
        ensures
            r@ == self@,
    {
        self.duplicate()
    }
}

impl Clone for AgentContent {
    fn clone(&self) -> (r: Self)
        ensures
            r@ == self@,
    {
        self.duplicate()
    }
}

impl Clone for ToolResult {
    fn clone(&self) -> (r: Self)
        ensures
            r@ == self@,
    {
        self.duplicate()
    }
}

impl Clone for AgentMessage {
    fn clone(&self) -> (r: Self)
        ensures
            r@ == self@,
    {
        self.duplicate()
    }
}

impl Clone for UserContent {
    fn clone(&self) -> (r: Self)
        ensures
            r@ == self@,
    {
        self.duplicate()
    }
}

impl Clone for UserMessage {
    fn clone(&self) -> (r: Self)
        ensures
            r@ == self@,
    {
        self.duplicate()
    }
}

impl Clone for Message {
    fn clone(&self) -> (r: Self)
        ensures
            r@ == self@,
    {
        self.duplicate()
    }
}

impl Clone for DbThread {
    fn clone(&self) -> (r: Self)
        ensures
            r@ == self@,
    {
        self.duplicate()
    }
}

impl Clone for ThreadMeta {
    fn clone(&self) -> (r: Self)
        ensures
            r.id@ == self.id@,
            r.summary@ == self.summary@,
            r.updated_at@ == self.updated_at@,
            r.created_at@ == self.created_at@,
            r.data_type@ == self.data_type@,
            r.data_size == self.data_size,
            r.thread_type@ == self.thread_type@,
    {
        ThreadMeta {
            id: self.id.clone(),
            summary: self.summary.clone(),
            updated_at: self.updated_at.clone(),
            created_at: self.created_at.clone(),
            data_type: self.data_type.clone(),
            data_size: self.data_size,
            thread_type: self.thread_type.clone(),
        }
    }
}

/// What a list of counted names stands for.
pub open spec fn count_views(s: Seq<(String, usize)>) -> Seq<(Seq<char>, nat)> {
    Seq::new(s.len(), |i: int| (s[i].0@, s[i].1 as nat))
}

impl Clone for ThreadStats {
    fn clone(&self) -> (r: Self)
        ensures
            count_views(r.tool_call_counts@) == count_views(self.tool_call_counts@),
            r == (ThreadStats { tool_call_counts: r.tool_call_counts, ..*self }),
    {
        let mut counts: Vec<(String, usize)> = Vec::new();
        let mut i: usize = 0;
        while i < self.tool_call_counts.len()
            invariant
                i <= self.tool_call_counts@.len(),
                counts@.len() == i,
                forall|j: int|
                    0 <= j < i ==> (#[trigger] counts@[j]).0@ == self.tool_call_counts@[j].0@
                        && counts@[j].1 == self.tool_call_counts@[j].1,
            decreases self.tool_call_counts@.len() - i,
        {
            counts.push((self.tool_call_counts[i].0.clone(), self.tool_call_counts[i].1));
            i += 1;
        }
        assert(count_views(counts@) =~= count_views(self.tool_call_counts@));
        ThreadStats { tool_call_counts: counts, ..*self }
    }
}

impl Default for ThreadStats {
    fn default() -> (r: Self)
        ensures
            r.total_messages == 0,
            r.user_messages == 0,
            r.agent_messages == 0,
            r.compressed_size == 0,
            r.uncompressed_size == 0,
            r.thinking_bytes == 0,
            r.tool_results_bytes == 0,
            r.text_bytes == 0,
            r.tool_call_counts@ == Seq::<(String, usize)>::empty(),
    {
        ThreadStats {
            total_messages: 0,
            user_messages: 0,
            agent_messages: 0,
            compressed_size: 0,
            uncompressed_size: 0,
            thinking_bytes: 0,
            tool_results_bytes: 0,
            text_bytes: 0,
            tool_call_counts: Vec::new(),
        }
    }
}

impl Default for CleanupPreview {
    fn default() -> (r: Self)
        ensures
            r == (CleanupPreview {
                bytes_to_remove: 0,
                bytes_to_truncate: 0,
                thinking_blocks_removed: 0,
                tool_results_truncated: 0,
                duplicate_read_file_removed: 0,
                original_size: 0,
                estimated_new_size: 0,
            }),
    {
        CleanupPreview {
            bytes_to_remove: 0,
            bytes_to_truncate: 0,
            thinking_blocks_removed: 0,
            tool_results_truncated: 0,
            duplicate_read_file_removed: 0,
            original_size: 0,
            estimated_new_size: 0,
        }
    }
}

impl View for ToolCategoryStats {
    type V = (Seq<char>, CategoryModel);

    open spec fn view(&self) -> (Seq<char>, CategoryModel) {
        (
            self.tool_name@,
            CategoryModel {
                count: self.count as nat,
                total_bytes: self.total_bytes as nat,
                max_bytes: self.max_bytes as nat,
                in_protected: self.in_protected as nat,
                cleanable_bytes: self.cleanable_bytes as nat,
            },
        )
    }
}

impl Duplicate for ToolCategoryStats {
    fn duplicate(&self) -> (r: Self) {
        ToolCategoryStats { tool_name: self.tool_name.clone(), ..*self }
    }
}

impl Clone for ToolCategoryStats {
    fn clone(&self) -> (r: Self)
        ensures
            r@ == self@,
    {
        self.duplicate()
    }
}

impl Clone for ThreadAnalysis {
    fn clone(&self) -> (r: Self)
        ensures
            seq_views(r.categories@) == seq_views(self.categories@),
            r == (ThreadAnalysis { categories: r.categories, ..*self }),
    {
        ThreadAnalysis { categories: duplicate_vec(&self.categories), ..*self }
    }
}

impl Default for ThreadAnalysis {
    fn default() -> (r: Self)
        ensures
            r.categories@ == Seq::<ToolCategoryStats>::empty(),
            r == (ThreadAnalysis {
                categories: r.categories,
                total_tool_result_bytes: 0,
                total_agent_text_bytes: 0,
                total_tool_use_bytes: 0,
                total_user_bytes: 0,
                grand_total_bytes: 0,
                message_count: 0,
                protected_message_count: 0,
            }),
    {
        ThreadAnalysis {
            categories: Vec::new(),
            total_tool_result_bytes: 0,
            total_agent_text_bytes: 0,
            total_tool_use_bytes: 0,
            total_user_bytes: 0,
            grand_total_bytes: 0,
            message_count: 0,
            protected_message_count: 0,
        }
    }
}

} // verus!
