//! The JSON form of threads, member by member.
use crate::duplicate::{opt_view, seq_views};
use crate::json::{
    compact_text, members_model, object_of, pretty_text, unsigned_number, Json, JsonValue,
};
use crate::json_form::{
    agent_json, block_json, call_json, compact_size, message_json, result_json, results_json,
    stored_text_size, thread_json, usage_json, usages_json, user_json,
};
use crate::str_map::keys_distinct;
use crate::text::byte_count;
use crate::types::{
    AgentContent, AgentContentModel, AgentMessage, AgentModel, DbThread, Message, MessageModel,
    ThreadModel, TokenUsage, ToolResult, ToolResultModel, ToolUseBlock, ToolUseModel, UserContent,
    UserContentModel, UserMessage, UserModel,
};
use vstd::prelude::*;

verus! {

/// The form of an optional text: the text, or `null`.
pub open spec fn is_text_or_null(v: Json, o: Option<Seq<char>>) -> bool {
    if o is Some {
        v == Json::Text(o->0)
    } else {
        v is Null
    }
}

/// The form of an optional value: the value, or `null`.
pub open spec fn is_value_or_null(v: Json, o: Option<Json>) -> bool {
    if o is Some {
        v == o->0
    } else {
        v is Null
    }
}

/// The member under a key is there exactly if the value is, and is the value.
pub open spec fn has_only_if(m: Map<Seq<char>, Json>, key: Seq<char>, o: Option<Json>) -> bool {
    &&& m.contains_key(key) <==> o is Some
    &&& o is Some ==> m[key] == o->0
}

/// The form of User content and User messages: text stands under `Text`, other
/// content is its own form, and a message has its id and its content in order.
pub proof fn law_the_form_of_user_messages(u: UserModel, i: int)
    ensures
        ({
            let o = user_json(u)->Object_0;
            &&& user_json(u) is Object
            &&& o.dom() == set!["id"@, "content"@]
            &&& o["id"@] == Json::Text(u.id)
            &&& o["content"@] is Array
            &&& o["content"@]->Array_0.len() == u.content.len()
            &&& 0 <= i < u.content.len() ==> (match u.content[i] {
                UserContentModel::Text(s) => o["content"@]->Array_0[i] == Json::Object(
                    map!["Text"@ => Json::Text(s)],
                ),
                UserContentModel::Other(v) => o["content"@]->Array_0[i] == v,
            })
        }),
{
    reveal_strlit("id");
    assert("id"@.len() == 2);
    reveal_strlit("content");
    assert("content"@.len() == 7);
    assert("id"@.len() != "content"@.len());
    assert(user_json(u)->Object_0.dom() =~= set!["id"@, "content"@]);
}

/// The form of a tool call: all its fields by their names, of which only the
/// signature is left out where it is absent.
pub proof fn law_the_form_of_calls(t: ToolUseModel, key: Seq<char>)
    ensures
        ({
            let o = call_json(t)->Object_0;
            &&& call_json(t) is Object
            &&& o["id"@] == Json::Text(t.id)
            &&& o["name"@] == Json::Text(t.name)
            &&& is_text_or_null(o["raw_input"@], t.raw_input)
            &&& is_value_or_null(o["input"@], t.input)
            &&& t.is_input_complete matches Some(b) ==> o["is_input_complete"@] == Json::Bool(b)
            &&& t.is_input_complete is None ==> o["is_input_complete"@] is Null
            &&& has_only_if(o, "thought_signature"@, t.thought_signature)
            &&& o.contains_key("id"@) && o.contains_key("name"@) && o.contains_key("raw_input"@)
                && o.contains_key("input"@) && o.contains_key("is_input_complete"@)
            &&& o.contains_key(key) ==> set![
                "id"@,
                "name"@,
                "raw_input"@,
                "input"@,
                "is_input_complete"@,
                "thought_signature"@,
            ].contains(key)
        }),
{
    reveal_strlit("id");
    assert("id"@.len() == 2);
    reveal_strlit("name");
    assert("name"@.len() == 4);
    reveal_strlit("raw_input");
    assert("raw_input"@.len() == 9);
    reveal_strlit("input");
    assert("input"@.len() == 5);
    reveal_strlit("is_input_complete");
    assert("is_input_complete"@.len() == 17);
    reveal_strlit("thought_signature");
    assert("thought_signature"@.len() == 17);
    assert("is_input_complete"@[0] != "thought_signature"@[0]);
}

/// The form of a block: its kind as the one key, with its text, its data or its
/// fields.
pub proof fn law_the_form_of_blocks(c: AgentContentModel)
    ensures
        match c {
            AgentContentModel::Thinking(t) => {
                let o = block_json(c)->Object_0;
                let p = o["Thinking"@]->Object_0;
                &&& block_json(c) is Object
                &&& o.dom() == set!["Thinking"@]
                &&& o["Thinking"@] is Object
                &&& p.dom() == set!["text"@, "signature"@]
                &&& p["text"@] == Json::Text(t.text)
                &&& is_text_or_null(p["signature"@], t.signature)
            },
            AgentContentModel::RedactedThinking(v) => block_json(c) == Json::Object(
                map!["RedactedThinking"@ => v],
            ),
            AgentContentModel::Text(s) => block_json(c) == Json::Object(
                map!["Text"@ => Json::Text(s)],
            ),
            AgentContentModel::ToolUse(t) => block_json(c) == Json::Object(
                map!["ToolUse"@ => call_json(t)],
            ),
        },
{
    reveal_strlit("text");
    assert("text"@.len() == 4);
    reveal_strlit("signature");
    assert("signature"@.len() == 9);
    assert("text"@.len() != "signature"@.len());
    if c is Thinking {
        let o = block_json(c)->Object_0;
        assert(o.dom() =~= set!["Thinking"@]);
        assert(o["Thinking"@]->Object_0.dom() =~= set!["text"@, "signature"@]);
    }
}

/// The form of a tool result: its fields by their names, of which only the
/// output is left out where it is absent.
pub proof fn law_the_form_of_results(r: ToolResultModel, key: Seq<char>)
    ensures
        ({
            let o = result_json(r)->Object_0;
            &&& result_json(r) is Object
            &&& o["tool_use_id"@] == Json::Text(r.tool_use_id)
            &&& o["tool_name"@] == Json::Text(r.tool_name)
            &&& o["is_error"@] == Json::Bool(r.is_error)
            &&& is_value_or_null(o["content"@], r.content)
            &&& has_only_if(o, "output"@, r.output)
            &&& o.contains_key("tool_use_id"@) && o.contains_key("tool_name"@) && o.contains_key(
                "is_error"@,
            ) && o.contains_key("content"@)
            &&& o.contains_key(key) ==> set![
                "tool_use_id"@,
                "tool_name"@,
                "is_error"@,
                "content"@,
                "output"@,
            ].contains(key)
        }),
{
    reveal_strlit("tool_use_id");
    assert("tool_use_id"@.len() == 11);
    reveal_strlit("tool_name");
    assert("tool_name"@.len() == 9);
    reveal_strlit("is_error");
    assert("is_error"@.len() == 8);
    reveal_strlit("content");
    assert("content"@.len() == 7);
    reveal_strlit("output");
    assert("output"@.len() == 6);
}

proof fn lemma_results_by_key(s: Seq<(Seq<char>, ToolResultModel)>, key: Seq<char>)
    requires
        keys_distinct(s),
    ensures
        results_json(s).contains_key(key) <==> exists|i: int|
            0 <= i < s.len() && (#[trigger] s[i]).0 == key,
        forall|i: int|
            0 <= i < s.len() && (#[trigger] s[i]).0 == key ==> results_json(s)[key] == result_json(
                s[i].1,
            ),
    decreases s.len(),
{
    if s.len() > 0 {
        let rest = s.drop_last();
        assert forall|i: int, j: int| 0 <= i < j < rest.len() implies (#[trigger] rest[i]).0 != (
        #[trigger] rest[j]).0 by {
            assert(s[i].0 != s[j].0);
        }
        lemma_results_by_key(rest, key);
        assert forall|i: int| 0 <= i < s.len() && (#[trigger] s[i]).0 == key implies results_json(
            s,
        )[key] == result_json(s[i].1) && results_json(s).contains_key(key) by {
            if i < rest.len() {
                assert(rest[i] == s[i]);
                assert(s[i].0 != s[s.len() - 1].0);
            }
        }
        if results_json(s).contains_key(key) {
            if s.last().0 == key {
                assert(s[s.len() - 1].0 == key);
            } else {
                let i = choose|i: int| 0 <= i < rest.len() && (#[trigger] rest[i]).0 == key;
                assert(s[i].0 == key);
            }
        }
    }
}

/// The form of an Agent message: its blocks in order, its tool results by their
/// keys or `null`, and its reasoning details where it has any.
pub proof fn law_the_form_of_agent_messages(a: AgentModel, i: int, key: Seq<char>)
    ensures
        ({
            let o = agent_json(a)->Object_0;
            &&& agent_json(a) is Object
            &&& o.contains_key("content"@) && o.contains_key("tool_results"@)
            &&& o["content"@] is Array
            &&& o["content"@]->Array_0.len() == a.content.len()
            &&& 0 <= i < a.content.len() ==> o["content"@]->Array_0[i] == block_json(a.content[i])
            &&& a.tool_results is None ==> o["tool_results"@] is Null
            &&& a.tool_results matches Some(rs) ==> o["tool_results"@] is Object && (keys_distinct(
                rs,
            ) ==> {
                let results = o["tool_results"@]->Object_0;
                &&& results.contains_key(key) <==> exists|k: int|
                    0 <= k < rs.len() && (#[trigger] rs[k]).0 == key
                &&& 0 <= i < rs.len() && rs[i].0 == key ==> results[key] == result_json(rs[i].1)
            })
            &&& has_only_if(o, "reasoning_details"@, a.reasoning_details)
            &&& o.contains_key(key) ==> set![
                "content"@,
                "tool_results"@,
                "reasoning_details"@,
            ].contains(key)
        }),
{
    reveal_strlit("content");
    assert("content"@.len() == 7);
    reveal_strlit("tool_results");
    assert("tool_results"@.len() == 12);
    reveal_strlit("reasoning_details");
    assert("reasoning_details"@.len() == 17);
    if let Some(rs) = a.tool_results {
        if keys_distinct(rs) {
            lemma_results_by_key(rs, key);
        }
    }
}

/// The form of a message: its kind as the one key. A message of another kind is
/// its own form.
pub proof fn law_the_form_of_messages(m: MessageModel)
    ensures
        match m {
            MessageModel::User(u) => message_json(m) == Json::Object(map!["User"@ => user_json(u)]),
            MessageModel::Agent(a) => message_json(m) == Json::Object(
                map!["Agent"@ => agent_json(a)],
            ),
            MessageModel::Other(v) => message_json(m) == v,
        },
{
}

/// The form of the usage of one request: the counts that it has, by name.
pub proof fn law_the_form_of_usage(u: TokenUsage, key: Seq<char>)
    ensures
        ({
            let o = usage_json(u)->Object_0;
            &&& usage_json(u) is Object
            &&& o.contains_key("input_tokens"@) <==> u.input_tokens is Some
            &&& u.input_tokens matches Some(n) ==> o["input_tokens"@] == Json::Num(
                unsigned_number(n),
            )
            &&& o.contains_key("output_tokens"@) <==> u.output_tokens is Some
            &&& u.output_tokens matches Some(n) ==> o["output_tokens"@] == Json::Num(
                unsigned_number(n),
            )
            &&& o.contains_key("cache_creation_input_tokens"@)
                <==> u.cache_creation_input_tokens is Some
            &&& u.cache_creation_input_tokens matches Some(n)
                ==> o["cache_creation_input_tokens"@] == Json::Num(unsigned_number(n))
            &&& o.contains_key("cache_read_input_tokens"@) <==> u.cache_read_input_tokens is Some
            &&& u.cache_read_input_tokens matches Some(n) ==> o["cache_read_input_tokens"@]
                == Json::Num(unsigned_number(n))
            &&& o.contains_key(key) ==> set![
                "input_tokens"@,
                "output_tokens"@,
                "cache_creation_input_tokens"@,
                "cache_read_input_tokens"@,
            ].contains(key)
        }),
{
    reveal_strlit("input_tokens");
    assert("input_tokens"@.len() == 12);
    reveal_strlit("output_tokens");
    assert("output_tokens"@.len() == 13);
    reveal_strlit("cache_creation_input_tokens");
    assert("cache_creation_input_tokens"@.len() == 27);
    reveal_strlit("cache_read_input_tokens");
    assert("cache_read_input_tokens"@.len() == 23);
}

proof fn lemma_usages_by_key(s: Seq<(Seq<char>, TokenUsage)>, key: Seq<char>)
    requires
        keys_distinct(s),
    ensures
        usages_json(s).contains_key(key) <==> exists|i: int|
            0 <= i < s.len() && (#[trigger] s[i]).0 == key,
        forall|i: int|
            0 <= i < s.len() && (#[trigger] s[i]).0 == key ==> usages_json(s)[key] == usage_json(
                s[i].1,
            ),
    decreases s.len(),
{
    if s.len() > 0 {
        let rest = s.drop_last();
        assert forall|i: int, j: int| 0 <= i < j < rest.len() implies (#[trigger] rest[i]).0 != (
        #[trigger] rest[j]).0 by {
            assert(s[i].0 != s[j].0);
        }
        lemma_usages_by_key(rest, key);
        assert forall|i: int| 0 <= i < s.len() && (#[trigger] s[i]).0 == key implies usages_json(
            s,
        )[key] == usage_json(s[i].1) && usages_json(s).contains_key(key) by {
            if i < rest.len() {
                assert(rest[i] == s[i]);
                assert(s[i].0 != s[s.len() - 1].0);
            }
        }
        if usages_json(s).contains_key(key) {
            if s.last().0 == key {
                assert(s[s.len() - 1].0 == key);
            } else {
                let i = choose|i: int| 0 <= i < rest.len() && (#[trigger] rest[i]).0 == key;
                assert(s[i].0 == key);
            }
        }
    }
}

/// The form of a thread: every field under its name. The messages stand in
/// order, the usage by request, and the fields that later versions added are
/// left out where they are absent; all others are `null` there.
#[verifier::rlimit(60)]
pub proof fn law_the_form_of_threads(t: ThreadModel, i: int, key: Seq<char>)
    ensures
        ({
            let o = thread_json(t)->Object_0;
            &&& thread_json(t) is Object
            &&& is_text_or_null(o["title"@], t.title)
            &&& is_text_or_null(o["version"@], t.version)
            &&& is_text_or_null(o["updated_at"@], t.updated_at)
            &&& o["messages"@] is Array
            &&& o["messages"@]->Array_0.len() == t.messages.len()
            &&& 0 <= i < t.messages.len() ==> o["messages"@]->Array_0[i] == message_json(
                t.messages[i],
            )
            &&& is_value_or_null(o["detailed_summary"@], t.detailed_summary)
            &&& is_value_or_null(o["initial_project_snapshot"@], t.initial_project_snapshot)
            &&& is_value_or_null(o["cumulative_token_usage"@], t.cumulative_token_usage)
            &&& t.request_token_usage is None ==> o["request_token_usage"@] is Null
            &&& t.request_token_usage matches Some(us) ==> o["request_token_usage"@] is Object && (
            keys_distinct(us) ==> {
                let usage = o["request_token_usage"@]->Object_0;
                &&& usage.contains_key(key) <==> exists|k: int|
                    0 <= k < us.len() && (#[trigger] us[k]).0 == key
                &&& 0 <= i < us.len() && us[i].0 == key ==> usage[key] == usage_json(us[i].1)
            })
            &&& is_value_or_null(o["model"@], t.model)
            &&& is_value_or_null(o["profile"@], t.profile)
            &&& is_value_or_null(o["subagent_context"@], t.subagent_context)
            &&& has_only_if(o, "imported"@, t.imported)
            &&& has_only_if(o, "speed"@, t.speed)
            &&& has_only_if(o, "thinking_enabled"@, t.thinking_enabled)
            &&& has_only_if(o, "thinking_effort"@, t.thinking_effort)
            &&& has_only_if(o, "draft_prompt"@, t.draft_prompt)
            &&& has_only_if(o, "ui_scroll_position"@, t.ui_scroll_position)
            &&& set![
                "title"@,
                "version"@,
                "updated_at"@,
                "messages"@,
                "detailed_summary"@,
                "initial_project_snapshot"@,
                "cumulative_token_usage"@,
                "request_token_usage"@,
                "model"@,
                "profile"@,
                "subagent_context"@,
            ].contains(key) ==> o.contains_key(key)
            &&& o.contains_key(key) ==> set![
                "title"@,
                "version"@,
                "updated_at"@,
                "messages"@,
                "detailed_summary"@,
                "initial_project_snapshot"@,
                "cumulative_token_usage"@,
                "request_token_usage"@,
                "model"@,
                "profile"@,
                "subagent_context"@,
                "imported"@,
                "speed"@,
                "thinking_enabled"@,
                "thinking_effort"@,
                "draft_prompt"@,
                "ui_scroll_position"@,
            ].contains(key)
        }),
{
    reveal_strlit("title");
    assert("title"@.len() == 5);
    reveal_strlit("version");
    assert("version"@.len() == 7);
    reveal_strlit("updated_at");
    assert("updated_at"@.len() == 10);
    reveal_strlit("messages");
    assert("messages"@.len() == 8);
    reveal_strlit("detailed_summary");
    assert("detailed_summary"@.len() == 16);
    reveal_strlit("initial_project_snapshot");
    assert("initial_project_snapshot"@.len() == 24);
    reveal_strlit("cumulative_token_usage");
    assert("cumulative_token_usage"@.len() == 22);
    reveal_strlit("request_token_usage");
    assert("request_token_usage"@.len() == 19);
    reveal_strlit("model");
    assert("model"@.len() == 5);
    reveal_strlit("profile");
    assert("profile"@.len() == 7);
    reveal_strlit("subagent_context");
    assert("subagent_context"@.len() == 16);
    reveal_strlit("imported");
    assert("imported"@.len() == 8);
    reveal_strlit("speed");
    assert("speed"@.len() == 5);
    reveal_strlit("thinking_enabled");
    assert("thinking_enabled"@.len() == 16);
    reveal_strlit("thinking_effort");
    assert("thinking_effort"@.len() == 15);
    reveal_strlit("draft_prompt");
    assert("draft_prompt"@.len() == 12);
    reveal_strlit("ui_scroll_position");
    assert("ui_scroll_position"@.len() == 18);
    assert("title"@[0] == 't' && "model"@[0] == 'm' && "speed"@[0] == 's');
    assert("version"@[0] != "profile"@[0]);
    assert("messages"@[0] != "imported"@[0]);
    assert("detailed_summary"@[0] == 'd' && "subagent_context"@[0] == 's'
        && "thinking_enabled"@[0] == 't');
    if let Some(us) = t.request_token_usage {
        if keys_distinct(us) {
            lemma_usages_by_key(us, key);
        }
    }
}

/// The sizes of a thread are the bytes of its compact and of its indented JSON
/// text; threads with one form have one size.
pub proof fn law_sizes_are_those_of_the_form(t: ThreadModel)
    ensures
        compact_size(t) == byte_count(compact_text(thread_json(t))),
        stored_text_size(t) == byte_count(pretty_text(thread_json(t))),
{
}

/// What a value stands for. The members of an object count by their keys, the
/// later of two with one key; the items of an array stand in order.
pub proof fn law_what_values_stand_for(
    members: Seq<(String, JsonValue)>,
    key: String,
    value: JsonValue,
    items: Vec<JsonValue>,
    i: int,
)
    ensures
        members_model(Seq::empty()) == Map::<Seq<char>, Json>::empty(),
        members_model(members.push((key, value))) == members_model(members).insert(key@, value@),
        JsonValue::Text(key)@ == Json::Text(key@),
        JsonValue::Null@ == Json::Null,
        JsonValue::Array(items)@ is Array,
        JsonValue::Array(items)@->Array_0.len() == items@.len(),
        0 <= i < items@.len() ==> JsonValue::Array(items)@->Array_0[i] == items@[i]@,
{
    assert(members.push((key, value)).drop_last() =~= members);
}

/// Members are found in objects alone, under their own key.
pub proof fn law_members_by_key(v: Json, key: Seq<char>, other: Seq<char>, x: Json)
    ensures
        v.member(key) == (match v {
            Json::Object(o) => if o.dom().contains(key) {
                Some(o[key])
            } else {
                None
            },
            _ => None,
        }),
        v.member(key) matches Some(Json::Text(s)) ==> v.text_member(key) == Some(s),
        !(v.member(key) matches Some(Json::Text(_))) ==> v.text_member(key) is None,
        object_of(key, x).member(key) == Some(x),
        other != key ==> object_of(key, x).member(other) is None,
{
}

/// A list stands for what its items stand for, in order, and an optional value
/// for what the value stands for.
pub proof fn law_items_stand_for_themselves<T: View>(s: Seq<T>, i: int, o: Option<T>)
    ensures
        seq_views(s).len() == s.len(),
        0 <= i < s.len() ==> seq_views(s)[i] == s[i]@,
        o matches Some(x) ==> opt_view(o) == Some(x@),
        o is None ==> opt_view(o) is None,
{
}

/// A tool result and a call stand for their fields, each under its own name.
pub proof fn law_fields_of_results_and_calls(r: ToolResult, t: ToolUseBlock)
    ensures
        r@.tool_use_id == r.tool_use_id@ && r@.tool_name == r.tool_name@,
        r@.is_error == r.is_error,
        r@.content == opt_view(r.content) && r@.output == opt_view(r.output),
        t@.id == t.id@ && t@.name == t.name@,
        t@.raw_input == opt_view(t.raw_input) && t@.input == opt_view(t.input),
        t@.is_input_complete == t.is_input_complete,
        t@.thought_signature == opt_view(t.thought_signature),
{
}

/// Blocks, messages and their parts keep their kind and all that they hold.
pub proof fn law_fields_of_messages(
    c: AgentContent,
    a: AgentMessage,
    x: UserContent,
    u: UserMessage,
    m: Message,
)
    ensures
        c matches AgentContent::Text(s) ==> c@ == AgentContentModel::Text(s@),
        c matches AgentContent::ToolUse(t) ==> c@ == AgentContentModel::ToolUse(t@),
        c matches AgentContent::RedactedThinking(v) ==> c@ == AgentContentModel::RedactedThinking(
            v@,
        ),
        c matches AgentContent::Thinking(t) ==> c@ is Thinking && c@->Thinking_0.text == t.text@
            && c@->Thinking_0.signature == opt_view(t.signature),
        a@.content == seq_views(a.content@) && a@.tool_results == opt_view(a.tool_results),
        a@.reasoning_details == opt_view(a.reasoning_details),
        x matches UserContent::Text { text } ==> x@ == UserContentModel::Text(text@),
        x matches UserContent::Other(v) ==> x@ == UserContentModel::Other(v@),
        u@.id == u.id@ && u@.content == seq_views(u.content@),
        m matches Message::User { user } ==> m@ == MessageModel::User(user@),
        m matches Message::Agent { agent } ==> m@ == MessageModel::Agent(agent@),
        m matches Message::Other(v) ==> m@ == MessageModel::Other(v@),
{
}

/// A thread stands for its fields, each under its own name.
pub proof fn law_fields_of_threads(t: DbThread)
    ensures
        t@.title == opt_view(t.title) && t@.version == opt_view(t.version),
        t@.updated_at == opt_view(t.updated_at) && t@.messages == seq_views(t.messages@),
        t@.detailed_summary == opt_view(t.detailed_summary),
        t@.initial_project_snapshot == opt_view(t.initial_project_snapshot),
        t@.cumulative_token_usage == opt_view(t.cumulative_token_usage),
        t@.request_token_usage == opt_view(t.request_token_usage),
        t@.model == opt_view(t.model) && t@.profile == opt_view(t.profile),
        t@.subagent_context == opt_view(t.subagent_context),
        t@.imported == opt_view(t.imported) && t@.speed == opt_view(t.speed),
        t@.thinking_enabled == opt_view(t.thinking_enabled),
        t@.thinking_effort == opt_view(t.thinking_effort),
        t@.draft_prompt == opt_view(t.draft_prompt),
        t@.ui_scroll_position == opt_view(t.ui_scroll_position),
{
}

} // verus!
