//! Sizes of the parts of a thread, in bytes.
use crate::duplicate::{opt_view, seq_views};
use crate::json::{compact_text, Json, JsonValue};
use crate::text::{byte_count, byte_len};
use crate::tool_results::{content_size, content_value_len};
use crate::types::{
    AgentContent, AgentContentModel, AgentMessage, AgentModel, Message, MessageModel, ThinkingBlock,
    ThinkingModel, ToolResult, ToolResultModel, UserContent, UserContentModel,
};
use vstd::arithmetic::overflow::CheckedUsize;
use vstd::prelude::*;

verus! {

/// Size of an optional text.
pub open spec fn opt_text_size(o: Option<Seq<char>>) -> nat {
    match o {
        Some(s) => byte_count(s),
        None => 0,
    }
}

/// Size of the JSON text of an optional value.
pub open spec fn opt_json_size(o: Option<Json>) -> nat {
    match o {
        Some(v) => byte_count(compact_text(v)),
        None => 0,
    }
}

/// Size of a block of thinking: its text and its signature.
pub open spec fn thinking_size(t: ThinkingModel) -> nat {
    byte_count(t.text) + opt_text_size(t.signature)
}

/// Size of the data of a block of redacted thinking.
pub open spec fn redacted_size(v: Json) -> nat {
    opt_text_size(v.text_member("data"@))
}

/// Sizes of the blocks of Agent messages, by kind.
pub struct BlockSizes {
    pub thinking: nat,
    pub text: nat,
    pub raw_input: nat,
}

/// Sizes of a list of blocks.
pub open spec fn block_sizes(c: Seq<AgentContentModel>) -> BlockSizes
    decreases c.len(),
{
    if c.len() == 0 {
        BlockSizes { thinking: 0, text: 0, raw_input: 0 }
    } else {
        let before = block_sizes(c.drop_last());
        match c.last() {
            AgentContentModel::Thinking(t) => BlockSizes {
                thinking: before.thinking + thinking_size(t),
                ..before
            },
            AgentContentModel::RedactedThinking(v) => BlockSizes {
                thinking: before.thinking + redacted_size(v),
                ..before
            },
            AgentContentModel::Text(s) => BlockSizes {
                text: before.text + byte_count(s),
                ..before
            },
            AgentContentModel::ToolUse(t) => BlockSizes {
                raw_input: before.raw_input + opt_text_size(t.raw_input),
                ..before
            },
        }
    }
}

/// Size of a piece of User content: its text, or its JSON text.
pub open spec fn user_content_size(c: UserContentModel) -> nat {
    match c {
        UserContentModel::Text(s) => byte_count(s),
        UserContentModel::Other(v) => byte_count(compact_text(v)),
    }
}

/// Size of a list of User content.
pub open spec fn user_content_sizes(c: Seq<UserContentModel>) -> nat
    decreases c.len(),
{
    if c.len() == 0 {
        0
    } else {
        user_content_sizes(c.drop_last()) + user_content_size(c.last())
    }
}

/// Size of a tool result: its content and the JSON text of its output.
pub open spec fn result_size(r: ToolResultModel) -> nat {
    (match r.content {
        Some(v) => content_size(v),
        None => 0,
    }) + opt_json_size(r.output)
}

/// Size of a list of tool results.
pub open spec fn result_sizes(results: Seq<(Seq<char>, ToolResultModel)>) -> nat
    decreases results.len(),
{
    if results.len() == 0 {
        0
    } else {
        result_sizes(results.drop_last()) + result_size(results.last().1)
    }
}

/// The tool results of an Agent message; none where it has no record of them.
pub open spec fn results_of(a: AgentModel) -> Seq<(Seq<char>, ToolResultModel)> {
    match a.tool_results {
        Some(results) => results,
        None => Seq::empty(),
    }
}

/// Sizes of the parts of a thread.
pub struct ThreadSizes {
    pub user_text: nat,
    pub agent_text: nat,
    pub thinking: nat,
    pub raw_input: nat,
    pub results: nat,
}

/// Sizes of the parts of a list of messages. Reasoning details count as thinking.
pub open spec fn thread_sizes(m: Seq<MessageModel>) -> ThreadSizes
    decreases m.len(),
{
    if m.len() == 0 {
        ThreadSizes { user_text: 0, agent_text: 0, thinking: 0, raw_input: 0, results: 0 }
    } else {
        let before = thread_sizes(m.drop_last());
        match m.last() {
            MessageModel::User(u) => ThreadSizes {
                user_text: before.user_text + user_content_sizes(u.content),
                ..before
            },
            MessageModel::Agent(a) => {
                let blocks = block_sizes(a.content);
                ThreadSizes {
                    agent_text: before.agent_text + blocks.text,
                    thinking: before.thinking + blocks.thinking + opt_json_size(
                        a.reasoning_details,
                    ),
                    raw_input: before.raw_input + blocks.raw_input,
                    results: before.results + result_sizes(results_of(a)),
                    ..before
                }
            },
            MessageModel::Other(_) => before,
        }
    }
}

/// Size of an optional text.
pub fn opt_text_len(o: &Option<String>) -> (r: usize)
    ensures
        r == opt_text_size(opt_view(*o)),
{
    match o {
        Some(s) => byte_len(s.as_str()),
        None => 0,
    }
}

/// Size of the JSON text of a value.
pub fn json_len(v: &JsonValue) -> (r: usize)
    ensures
        r == byte_count(compact_text(v@)),
{
    byte_len(v.to_text().as_str())
}

/// Size of the JSON text of an optional value.
pub fn opt_json_len(o: &Option<JsonValue>) -> (r: usize)
    ensures
        r == opt_json_size(opt_view(*o)),
{
    match o {
        Some(v) => json_len(v),
        None => 0,
    }
}

/// Size of the data of a block of redacted thinking.
pub fn redacted_len(v: &JsonValue) -> (r: usize)
    ensures
        r == redacted_size(v@),
{
    match v.get_str("data") {
        Some(s) => byte_len(s),
        None => 0,
    }
}

/// Size of a block of thinking.
pub(crate) fn thinking_len(t: &ThinkingBlock) -> (r: CheckedUsize)
    ensures
        r@ == thinking_size(t@),
{
    CheckedUsize::new(byte_len(t.text.as_str())).add_value(opt_text_len(&t.signature))
}

/// Sizes of the blocks of Agent messages, by kind, as they are added up.
pub struct BlockTally {
    pub thinking: CheckedUsize,
    pub text: CheckedUsize,
    pub raw_input: CheckedUsize,
}

impl View for BlockTally {
    type V = BlockSizes;

    open spec fn view(&self) -> BlockSizes {
        BlockSizes { thinking: self.thinking@, text: self.text@, raw_input: self.raw_input@ }
    }
}

/// Sizes of a list of blocks.
pub(crate) fn measure_blocks(content: &Vec<AgentContent>) -> (r: BlockTally)
    ensures
        r@ == block_sizes(seq_views(content@)),
{
    let ghost c = seq_views(content@);
    let mut thinking = CheckedUsize::new(0);
    let mut text = CheckedUsize::new(0);
    let mut raw_input = CheckedUsize::new(0);
    let mut i: usize = 0;
    assert(c.take(0) =~= Seq::<AgentContentModel>::empty());
    while i < content.len()
        invariant
            i <= content@.len(),
            c == seq_views(content@),
            block_sizes(c.take(i as int)) == (BlockSizes {
                thinking: thinking@,
                text: text@,
                raw_input: raw_input@,
            }),
        decreases content@.len() - i,
    {
        assert(c.take(i + 1).drop_last() =~= c.take(i as int));
        assert(c.take(i + 1).last() == content@[i as int]@);
        match &content[i] {
            AgentContent::Thinking(t) => {
                thinking = thinking.add_checked(&thinking_len(t));
            },
            AgentContent::RedactedThinking(v) => {
                thinking = thinking.add_value(redacted_len(v));
            },
            AgentContent::Text(s) => {
                text = text.add_value(byte_len(s.as_str()));
            },
            AgentContent::ToolUse(t) => {
                raw_input = raw_input.add_value(opt_text_len(&t.raw_input));
            },
        }
        i += 1;
    }
    assert(c.take(i as int) =~= c);
    BlockTally { thinking, text, raw_input }
}

/// Size of a list of User content.
pub(crate) fn measure_user_content(content: &Vec<UserContent>) -> (r: CheckedUsize)
    ensures
        r@ == user_content_sizes(seq_views(content@)),
{
    let ghost c = seq_views(content@);
    let mut total = CheckedUsize::new(0);
    let mut i: usize = 0;
    assert(c.take(0) =~= Seq::<UserContentModel>::empty());
    while i < content.len()
        invariant
            i <= content@.len(),
            c == seq_views(content@),
            total@ == user_content_sizes(c.take(i as int)),
        decreases content@.len() - i,
    {
        assert(c.take(i + 1).drop_last() =~= c.take(i as int));
        assert(c.take(i + 1).last() == content@[i as int]@);
        let size: usize = match &content[i] {
            UserContent::Text { text } => byte_len(text.as_str()),
            UserContent::Other(v) => json_len(v),
        };
        total = total.add_value(size);
        i += 1;
    }
    assert(c.take(i as int) =~= c);
    total
}

fn measure_result(result: &ToolResult) -> (r: CheckedUsize)
    ensures
        r@ == result_size(result@),
{
    let content: usize = match &result.content {
        Some(v) => content_value_len(v),
        None => 0,
    };
    CheckedUsize::new(content).add_value(opt_json_len(&result.output))
}

/// Size of the tool results of an Agent message.
fn measure_results(agent: &AgentMessage) -> (r: CheckedUsize)
    ensures
        r@ == result_sizes(results_of(agent@)),
{
    let mut total = CheckedUsize::new(0);
    if let Some(results) = &agent.tool_results {
        let ghost all = results@;
        let len: usize = results.len();
        let mut i: usize = 0;
        assert(all.take(0) =~= Seq::<(Seq<char>, ToolResultModel)>::empty());
        while i < len
            invariant
                i <= len,
                all == results@,
                len == all.len(),
                total@ == result_sizes(all.take(i as int)),
            decreases len - i,
        {
            assert(all.take(i + 1).drop_last() =~= all.take(i as int));
            assert(all.take(i + 1).last() == all[i as int]);
            total = total.add_checked(&measure_result(results.value_at(i)));
            i += 1;
        }
        assert(all.take(i as int) =~= all);
    }
    total
}

/// Sizes of the parts of a thread, as they are added up.
pub struct SizeTally {
    pub user_text: CheckedUsize,
    pub agent_text: CheckedUsize,
    pub thinking: CheckedUsize,
    pub raw_input: CheckedUsize,
    pub results: CheckedUsize,
}

impl View for SizeTally {
    type V = ThreadSizes;

    open spec fn view(&self) -> ThreadSizes {
        ThreadSizes {
            user_text: self.user_text@,
            agent_text: self.agent_text@,
            thinking: self.thinking@,
            raw_input: self.raw_input@,
            results: self.results@,
        }
    }
}

/// Sizes of the parts of a list of messages.
pub(crate) fn measure_messages(messages: &Vec<Message>) -> (r: SizeTally)
    ensures
        r@ == thread_sizes(seq_views(messages@)),
{
    let ghost m = seq_views(messages@);
    let mut user_text = CheckedUsize::new(0);
    let mut agent_text = CheckedUsize::new(0);
    let mut thinking = CheckedUsize::new(0);
    let mut raw_input = CheckedUsize::new(0);
    let mut results = CheckedUsize::new(0);
    let mut i: usize = 0;
    assert(m.take(0) =~= Seq::<MessageModel>::empty());
    while i < messages.len()
        invariant
            i <= messages@.len(),
            m == seq_views(messages@),
            thread_sizes(m.take(i as int)) == (ThreadSizes {
                user_text: user_text@,
                agent_text: agent_text@,
                thinking: thinking@,
                raw_input: raw_input@,
                results: results@,
            }),
        decreases messages@.len() - i,
    {
        assert(m.take(i + 1).drop_last() =~= m.take(i as int));
        assert(m.take(i + 1).last() == messages@[i as int]@);
        match &messages[i] {
            Message::User { user } => {
                user_text = user_text.add_checked(&measure_user_content(&user.content));
            },
            Message::Agent { agent } => {
                let blocks = measure_blocks(&agent.content);
                agent_text = agent_text.add_checked(&blocks.text);
                thinking =
                thinking.add_checked(&blocks.thinking).add_value(
                    opt_json_len(&agent.reasoning_details),
                );
                raw_input = raw_input.add_checked(&blocks.raw_input);
                results = results.add_checked(&measure_results(agent));
            },
            Message::Other(_) => {},
        }
        i += 1;
    }
    assert(m.take(i as int) =~= m);
    SizeTally { user_text, agent_text, thinking, raw_input, results }
}

} // verus!
