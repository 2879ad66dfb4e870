//! The JSON form of a thread: the value that its stored text stands for. A
//! member that may be left out is left out where it is absent; any other is
//! `null` there.
use crate::duplicate::{duplicate_opt, opt_view, seq_views, Duplicate};
use crate::json::{compact_text, object_of, pretty_text, unsigned_number, Json, JsonValue};
use crate::str_map::StrMap;
use crate::text::{byte_count, byte_len};
use crate::types::{
    AgentContent, AgentContentModel, AgentMessage, AgentModel, DbThread, Message, MessageModel,
    ThreadModel, TokenUsage, ToolResult, ToolResultModel, ToolUseBlock, ToolUseModel, UserContent,
    UserContentModel, UserMessage, UserModel,
};
use vstd::prelude::*;

verus! {

/// The members of an object, by their keys.
pub type Members = Map<Seq<char>, Json>;

/// A value that is `null` where it is absent.
pub open spec fn or_null(o: Option<Json>) -> Json {
    match o {
        Some(v) => v,
        None => Json::Null,
    }
}

/// A text that is `null` where it is absent.
pub open spec fn text_or_null(o: Option<Seq<char>>) -> Json {
    match o {
        Some(s) => Json::Text(s),
        None => Json::Null,
    }
}

/// A truth value that is `null` where it is absent.
pub open spec fn bool_or_null(o: Option<bool>) -> Json {
    match o {
        Some(b) => Json::Bool(b),
        None => Json::Null,
    }
}

/// Members with one more, which is left out where it is absent.
pub open spec fn with_opt(m: Members, key: Seq<char>, o: Option<Json>) -> Members {
    match o {
        Some(v) => m.insert(key, v),
        None => m,
    }
}

/// A count as a JSON value.
pub open spec fn opt_count(o: Option<u64>) -> Option<Json> {
    match o {
        Some(n) => Some(Json::Num(unsigned_number(n))),
        None => None,
    }
}

/// The JSON form of a piece of User content.
pub open spec fn user_content_json(c: UserContentModel) -> Json {
    match c {
        UserContentModel::Text(s) => object_of("Text"@, Json::Text(s)),
        UserContentModel::Other(v) => v,
    }
}

/// The JSON form of a User message.
pub open spec fn user_json(u: UserModel) -> Json {
    Json::Object(
        Map::<Seq<char>, Json>::empty().insert("id"@, Json::Text(u.id)).insert(
            "content"@,
            Json::Array(Seq::new(u.content.len(), |i: int| user_content_json(u.content[i]))),
        ),
    )
}

/// The JSON form of a tool call.
pub open spec fn call_json(t: ToolUseModel) -> Json {
    Json::Object(
        with_opt(
            Map::<Seq<char>, Json>::empty().insert("id"@, Json::Text(t.id)).insert(
                "name"@,
                Json::Text(t.name),
            ).insert("raw_input"@, text_or_null(t.raw_input)).insert(
                "input"@,
                or_null(t.input),
            ).insert("is_input_complete"@, bool_or_null(t.is_input_complete)),
            "thought_signature"@,
            t.thought_signature,
        ),
    )
}

/// The JSON form of a block of an Agent message.
pub open spec fn block_json(c: AgentContentModel) -> Json {
    match c {
        AgentContentModel::Thinking(t) => object_of(
            "Thinking"@,
            Json::Object(
                Map::<Seq<char>, Json>::empty().insert("text"@, Json::Text(t.text)).insert(
                    "signature"@,
                    text_or_null(t.signature),
                ),
            ),
        ),
        AgentContentModel::RedactedThinking(v) => object_of("RedactedThinking"@, v),
        AgentContentModel::Text(s) => object_of("Text"@, Json::Text(s)),
        AgentContentModel::ToolUse(t) => object_of("ToolUse"@, call_json(t)),
    }
}

/// The JSON form of a tool result.
pub open spec fn result_json(r: ToolResultModel) -> Json {
    Json::Object(
        with_opt(
            Map::<Seq<char>, Json>::empty().insert(
                "tool_use_id"@,
                Json::Text(r.tool_use_id),
            ).insert("tool_name"@, Json::Text(r.tool_name)).insert(
                "is_error"@,
                Json::Bool(r.is_error),
            ).insert("content"@, or_null(r.content)),
            "output"@,
            r.output,
        ),
    )
}

/// The JSON form of a record of tool results, by their keys.
pub open spec fn results_json(results: Seq<(Seq<char>, ToolResultModel)>) -> Members
    decreases results.len(),
{
    if results.len() == 0 {
        Map::empty()
    } else {
        results_json(results.drop_last()).insert(results.last().0, result_json(results.last().1))
    }
}

/// The JSON form of an Agent message.
pub open spec fn agent_json(a: AgentModel) -> Json {
    Json::Object(
        with_opt(
            Map::<Seq<char>, Json>::empty().insert(
                "content"@,
                Json::Array(Seq::new(a.content.len(), |i: int| block_json(a.content[i]))),
            ).insert(
                "tool_results"@,
                match a.tool_results {
                    Some(results) => Json::Object(results_json(results)),
                    None => Json::Null,
                },
            ),
            "reasoning_details"@,
            a.reasoning_details,
        ),
    )
}

/// The JSON form of a message.
pub open spec fn message_json(m: MessageModel) -> Json {
    match m {
        MessageModel::User(u) => object_of("User"@, user_json(u)),
        MessageModel::Agent(a) => object_of("Agent"@, agent_json(a)),
        MessageModel::Other(v) => v,
    }
}

/// The JSON form of the token usage of one request.
pub open spec fn usage_json(u: TokenUsage) -> Json {
    Json::Object(
        with_opt(
            with_opt(
                with_opt(
                    with_opt(Map::empty(), "input_tokens"@, opt_count(u.input_tokens)),
                    "output_tokens"@,
                    opt_count(u.output_tokens),
                ),
                "cache_creation_input_tokens"@,
                opt_count(u.cache_creation_input_tokens),
            ),
            "cache_read_input_tokens"@,
            opt_count(u.cache_read_input_tokens),
        ),
    )
}

/// The JSON form of a record of token usage, by request.
pub open spec fn usages_json(usage: Seq<(Seq<char>, TokenUsage)>) -> Members
    decreases usage.len(),
{
    if usage.len() == 0 {
        Map::empty()
    } else {
        usages_json(usage.drop_last()).insert(usage.last().0, usage_json(usage.last().1))
    }
}

/// The members of a thread that are always there.
pub open spec fn fixed_members(t: ThreadModel) -> Members {
    Map::<Seq<char>, Json>::empty().insert("title"@, text_or_null(t.title)).insert(
        "version"@,
        text_or_null(t.version),
    ).insert("updated_at"@, text_or_null(t.updated_at)).insert(
        "messages"@,
        Json::Array(Seq::new(t.messages.len(), |i: int| message_json(t.messages[i]))),
    ).insert("detailed_summary"@, or_null(t.detailed_summary)).insert(
        "initial_project_snapshot"@,
        or_null(t.initial_project_snapshot),
    ).insert("cumulative_token_usage"@, or_null(t.cumulative_token_usage)).insert(
        "request_token_usage"@,
        match t.request_token_usage {
            Some(usage) => Json::Object(usages_json(usage)),
            None => Json::Null,
        },
    ).insert("model"@, or_null(t.model)).insert("profile"@, or_null(t.profile)).insert(
        "subagent_context"@,
        or_null(t.subagent_context),
    )
}

/// The JSON form of a thread.
pub open spec fn thread_json(t: ThreadModel) -> Json {
    Json::Object(
        with_opt(
            with_opt(
                with_opt(
                    with_opt(
                        with_opt(
                            with_opt(fixed_members(t), "imported"@, t.imported),
                            "speed"@,
                            t.speed,
                        ),
                        "thinking_enabled"@,
                        t.thinking_enabled,
                    ),
                    "thinking_effort"@,
                    t.thinking_effort,
                ),
                "draft_prompt"@,
                t.draft_prompt,
            ),
            "ui_scroll_position"@,
            t.ui_scroll_position,
        ),
    )
}

/// Size of the compact JSON text of a thread. The order of members does not
/// change it.
pub open spec fn compact_size(t: ThreadModel) -> nat {
    byte_count(compact_text(thread_json(t)))
}

/// Size of the indented JSON text of a thread, the form in which it is stored.
/// The order of members does not change it.
pub open spec fn stored_text_size(t: ThreadModel) -> nat {
    byte_count(pretty_text(thread_json(t)))
}

fn value_or_null(o: &Option<JsonValue>) -> (r: JsonValue)
    ensures
        r@ == or_null(opt_view(*o)),
{
    match o {
        Some(v) => v.duplicate(),
        None => JsonValue::Null,
    }
}

fn string_or_null(o: &Option<String>) -> (r: JsonValue)
    ensures
        r@ == text_or_null(opt_view(*o)),
{
    match o {
        Some(s) => JsonValue::Text(s.clone()),
        None => JsonValue::Null,
    }
}

fn put_opt(object: JsonValue, key: &str, o: Option<JsonValue>) -> (r: JsonValue)
    requires
        object@ is Object,
    ensures
        r@ == Json::Object(with_opt(object@->Object_0, key@, opt_view(o))),
{
    match o {
        Some(v) => object.with_member(key, v),
        None => object,
    }
}

fn count_value(o: Option<u64>) -> (r: Option<JsonValue>)
    ensures
        opt_view(r) == opt_count(o),
{
    match o {
        Some(n) => Some(JsonValue::unsigned(n)),
        None => None,
    }
}

fn user_value(user: &UserMessage) -> (r: JsonValue)
    ensures
        r@ == user_json(user@),
{
    let mut items: Vec<JsonValue> = Vec::new();
    let mut i: usize = 0;
    while i < user.content.len()
        invariant
            i <= user.content@.len(),
            items@.len() == i,
            forall|j: int|
                0 <= j < i ==> (#[trigger] items@[j])@ == user_content_json(user.content@[j]@),
        decreases user.content@.len() - i,
    {
        let item = match &user.content[i] {
            UserContent::Text { text } => JsonValue::object("Text", JsonValue::Text(text.clone())),
            UserContent::Other(v) => v.duplicate(),
        };
        items.push(item);
        i += 1;
    }
    assert(seq_views(items@) =~= Seq::new(
        user@.content.len(),
        |i: int| user_content_json(user@.content[i]),
    ));
    JsonValue::object("id", JsonValue::Text(user.id.clone())).with_member(
        "content",
        JsonValue::list(items),
    )
}

fn call_value(t: &ToolUseBlock) -> (r: JsonValue)
    ensures
        r@ == call_json(t@),
{
    let complete = match t.is_input_complete {
        Some(b) => JsonValue::Bool(b),
        None => JsonValue::Null,
    };
    let object = JsonValue::object("id", JsonValue::Text(t.id.clone())).with_member(
        "name",
        JsonValue::Text(t.name.clone()),
    ).with_member("raw_input", string_or_null(&t.raw_input)).with_member(
        "input",
        value_or_null(&t.input),
    ).with_member("is_input_complete", complete);
    put_opt(object, "thought_signature", duplicate_opt(&t.thought_signature))
}

fn block_value(c: &AgentContent) -> (r: JsonValue)
    ensures
        r@ == block_json(c@),
{
    match c {
        AgentContent::Thinking(t) => JsonValue::object(
            "Thinking",
            JsonValue::object("text", JsonValue::Text(t.text.clone())).with_member(
                "signature",
                string_or_null(&t.signature),
            ),
        ),
        AgentContent::RedactedThinking(v) => JsonValue::object("RedactedThinking", v.duplicate()),
        AgentContent::Text(s) => JsonValue::object("Text", JsonValue::Text(s.clone())),
        AgentContent::ToolUse(t) => JsonValue::object("ToolUse", call_value(t)),
    }
}

fn result_value(t: &ToolResult) -> (r: JsonValue)
    ensures
        r@ == result_json(t@),
{
    let object = JsonValue::object(
        "tool_use_id",
        JsonValue::Text(t.tool_use_id.clone()),
    ).with_member("tool_name", JsonValue::Text(t.tool_name.clone())).with_member(
        "is_error",
        JsonValue::Bool(t.is_error),
    ).with_member("content", value_or_null(&t.content));
    put_opt(object, "output", duplicate_opt(&t.output))
}

fn results_value(results: &StrMap<ToolResult>) -> (r: JsonValue)
    ensures
        r@ == Json::Object(results_json(results@)),
{
    let ghost all = results@;
    let mut object = JsonValue::empty_object();
    let len: usize = results.len();
    let mut i: usize = 0;
    assert(all.take(0) =~= Seq::<(Seq<char>, ToolResultModel)>::empty());
    while i < len
        invariant
            i <= len,
            all == results@,
            len == all.len(),
            object@ == Json::Object(results_json(all.take(i as int))),
        decreases len - i,
    {
        assert(all.take(i + 1).drop_last() =~= all.take(i as int));
        assert(all.take(i + 1).last() == all[i as int]);
        object = object.with_member(results.key_at(i).as_str(), result_value(results.value_at(i)));
        i += 1;
    }
    assert(all.take(i as int) =~= all);
    object
}

fn agent_value(agent: &AgentMessage) -> (r: JsonValue)
    ensures
        r@ == agent_json(agent@),
{
    let mut items: Vec<JsonValue> = Vec::new();
    let mut i: usize = 0;
    while i < agent.content.len()
        invariant
            i <= agent.content@.len(),
            items@.len() == i,
            forall|j: int| 0 <= j < i ==> (#[trigger] items@[j])@ == block_json(agent.content@[j]@),
        decreases agent.content@.len() - i,
    {
        items.push(block_value(&agent.content[i]));
        i += 1;
    }
    assert(seq_views(items@) =~= Seq::new(
        agent@.content.len(),
        |i: int| block_json(agent@.content[i]),
    ));
    let results = match &agent.tool_results {
        Some(results) => results_value(results),
        None => JsonValue::Null,
    };
    let object = JsonValue::object("content", JsonValue::list(items)).with_member(
        "tool_results",
        results,
    );
    put_opt(object, "reasoning_details", duplicate_opt(&agent.reasoning_details))
}

fn message_value(m: &Message) -> (r: JsonValue)
    ensures
        r@ == message_json(m@),
{
    match m {
        Message::User { user } => JsonValue::object("User", user_value(user)),
        Message::Agent { agent } => JsonValue::object("Agent", agent_value(agent)),
        Message::Other(v) => v.duplicate(),
    }
}

fn usage_value(u: &TokenUsage) -> (r: JsonValue)
    ensures
        r@ == usage_json(*u),
{
    let object = put_opt(JsonValue::empty_object(), "input_tokens", count_value(u.input_tokens));
    let object = put_opt(object, "output_tokens", count_value(u.output_tokens));
    let object = put_opt(
        object,
        "cache_creation_input_tokens",
        count_value(u.cache_creation_input_tokens),
    );
    put_opt(object, "cache_read_input_tokens", count_value(u.cache_read_input_tokens))
}

fn usages_value(usage: &StrMap<TokenUsage>) -> (r: JsonValue)
    ensures
        r@ == Json::Object(usages_json(usage@)),
{
    let ghost all = usage@;
    let mut object = JsonValue::empty_object();
    let len: usize = usage.len();
    let mut i: usize = 0;
    assert(all.take(0) =~= Seq::<(Seq<char>, TokenUsage)>::empty());
    while i < len
        invariant
            i <= len,
            all == usage@,
            len == all.len(),
            object@ == Json::Object(usages_json(all.take(i as int))),
        decreases len - i,
    {
        assert(all.take(i + 1).drop_last() =~= all.take(i as int));
        assert(all.take(i + 1).last() == all[i as int]);
        object = object.with_member(usage.key_at(i).as_str(), usage_value(usage.value_at(i)));
        i += 1;
    }
    assert(all.take(i as int) =~= all);
    object
}

fn messages_value(messages: &Vec<Message>) -> (r: JsonValue)
    ensures
        r@ == Json::Array(
            Seq::new(messages@.len(), |i: int| message_json(seq_views(messages@)[i])),
        ),
{
    let mut items: Vec<JsonValue> = Vec::new();
    let mut i: usize = 0;
    while i < messages.len()
        invariant
            i <= messages@.len(),
            items@.len() == i,
            forall|j: int| 0 <= j < i ==> (#[trigger] items@[j])@ == message_json(messages@[j]@),
        decreases messages@.len() - i,
    {
        items.push(message_value(&messages[i]));
        i += 1;
    }
    assert(seq_views(items@) =~= Seq::new(
        messages@.len(),
        |i: int| message_json(seq_views(messages@)[i]),
    ));
    JsonValue::list(items)
}

/// The JSON form of a thread.
pub fn thread_value(thread: &DbThread) -> (r: JsonValue)
    ensures
        r@ == thread_json(thread@),
{
    let usage = match &thread.request_token_usage {
        Some(usage) => usages_value(usage),
        None => JsonValue::Null,
    };
    let object = JsonValue::object("title", string_or_null(&thread.title)).with_member(
        "version",
        string_or_null(&thread.version),
    ).with_member("updated_at", string_or_null(&thread.updated_at)).with_member(
        "messages",
        messages_value(&thread.messages),
    ).with_member("detailed_summary", value_or_null(&thread.detailed_summary)).with_member(
        "initial_project_snapshot",
        value_or_null(&thread.initial_project_snapshot),
    ).with_member(
        "cumulative_token_usage",
        value_or_null(&thread.cumulative_token_usage),
    ).with_member("request_token_usage", usage).with_member(
        "model",
        value_or_null(&thread.model),
    ).with_member("profile", value_or_null(&thread.profile)).with_member(
        "subagent_context",
        value_or_null(&thread.subagent_context),
    );
    assert(object@->Object_0 =~= fixed_members(thread@));
    let object = put_opt(object, "imported", duplicate_opt(&thread.imported));
    let object = put_opt(object, "speed", duplicate_opt(&thread.speed));
    let object = put_opt(object, "thinking_enabled", duplicate_opt(&thread.thinking_enabled));
    let object = put_opt(object, "thinking_effort", duplicate_opt(&thread.thinking_effort));
    let object = put_opt(object, "draft_prompt", duplicate_opt(&thread.draft_prompt));
    put_opt(object, "ui_scroll_position", duplicate_opt(&thread.ui_scroll_position))
}

/// Size of the compact JSON text of a thread.
pub fn compact_len(thread: &DbThread) -> (r: usize)
    ensures
        r == compact_size(thread@),
{
    byte_len(thread_value(thread).to_text().as_str())
}

/// Size of the indented JSON text of a thread, the form in which it is stored.
pub fn stored_text_len(thread: &DbThread) -> (r: usize)
    ensures
        r == stored_text_size(thread@),
{
    byte_len(thread_value(thread).to_pretty_text().as_str())
}

} // verus!
