//! Agent messages after cleanup.
use crate::config::CleanConfig;
use crate::duplicate::{duplicate_opt, opt_view, seq_views, Duplicate};
use crate::json::{Json, JsonValue};
use crate::str_map::{has_key, key_index, keys_distinct, StrMap};
use crate::tool_results::{clean_tool_result, cleaned_result};
use crate::types::{
    AgentContent, AgentContentModel, AgentMessage, AgentModel, ToolResult, ToolResultModel,
    ToolUseBlock, ToolUseModel,
};
use vstd::hash_set::StringHashSet;
use vstd::prelude::*;

verus! {

/// A tool call without its input: the input is an empty object, so that it
/// still reads as an object and its text still reads as text. All else stays.
pub open spec fn stripped_call(t: ToolUseModel) -> ToolUseModel {
    ToolUseModel {
        raw_input: Some("{}"@),
        input: Some(Json::Object(Map::empty())),
        ..t
    }
}

/// A block after cleanup: thinking goes, text stays, and a tool call stays
/// with or without its input.
pub open spec fn cleaned_block(c: AgentContentModel, strip: bool) -> Option<AgentContentModel> {
    match c {
        AgentContentModel::Text(_) => Some(c),
        AgentContentModel::ToolUse(t) => if strip {
            Some(AgentContentModel::ToolUse(stripped_call(t)))
        } else {
            Some(c)
        },
        _ => None,
    }
}

/// The blocks of an Agent message after cleanup.
pub open spec fn cleaned_blocks(c: Seq<AgentContentModel>, strip: bool) -> Seq<AgentContentModel>
    decreases c.len(),
{
    if c.len() == 0 {
        Seq::empty()
    } else {
        match cleaned_block(c.last(), strip) {
            Some(block) => cleaned_blocks(c.drop_last(), strip).push(block),
            None => cleaned_blocks(c.drop_last(), strip),
        }
    }
}

/// The blocks without redacted thinking.
pub open spec fn without_redacted(c: Seq<AgentContentModel>) -> Seq<AgentContentModel>
    decreases c.len(),
{
    if c.len() == 0 {
        Seq::empty()
    } else if c.last() is RedactedThinking {
        without_redacted(c.drop_last())
    } else {
        without_redacted(c.drop_last()).push(c.last())
    }
}

/// The tool results of an Agent message after cleanup.
pub open spec fn cleaned_results(
    results: Seq<(Seq<char>, ToolResultModel)>,
    config: CleanConfig,
    dups: Set<Seq<char>>,
) -> Seq<(Seq<char>, ToolResultModel)> {
    Seq::new(
        results.len(),
        |i: int| (results[i].0, cleaned_result(results[i].1, config, dups)),
    )
}

/// An Agent message after cleanup.
pub open spec fn cleaned_agent(
    a: AgentModel,
    config: CleanConfig,
    dups: Set<Seq<char>>,
) -> AgentModel {
    AgentModel {
        content: cleaned_blocks(a.content, config.strip_tool_inputs),
        tool_results: match a.tool_results {
            Some(results) => Some(cleaned_results(results, config, dups)),
            None => None,
        },
        reasoning_details: None,
    }
}

/// Whether a list of blocks has a text block.
pub open spec fn has_text(c: Seq<AgentContentModel>) -> bool {
    exists|i: int| 0 <= i < c.len() && (#[trigger] c[i]) is Text
}

fn clean_block(c: &AgentContent, strip: bool) -> (r: Option<AgentContent>)
    ensures
        opt_view(r) == cleaned_block(c@, strip),
{
    match c {
        AgentContent::Text(t) => Some(AgentContent::Text(t.clone())),
        AgentContent::ToolUse(tu) => {
            if strip {
                Some(
                    AgentContent::ToolUse(
                        ToolUseBlock {
                            id: tu.id.clone(),
                            name: tu.name.clone(),
                            raw_input: Some("{}".to_owned()),
                            input: Some(JsonValue::empty_object()),
                            is_input_complete: tu.is_input_complete,
                            thought_signature: duplicate_opt(&tu.thought_signature),
                        },
                    ),
                )
            } else {
                Some(c.duplicate())
            }
        },
        _ => None,
    }
}

fn clean_blocks(content: &Vec<AgentContent>, strip: bool) -> (r: Vec<AgentContent>)
    ensures
        seq_views(r@) == cleaned_blocks(seq_views(content@), strip),
{
    let ghost blocks = seq_views(content@);
    let mut out: Vec<AgentContent> = Vec::new();
    let mut i: usize = 0;
    assert(blocks.take(0) =~= Seq::<AgentContentModel>::empty());
    assert(seq_views(out@) =~= cleaned_blocks(blocks.take(0), strip));
    while i < content.len()
        invariant
            i <= content@.len(),
            blocks == seq_views(content@),
            seq_views(out@) == cleaned_blocks(blocks.take(i as int), strip),
        decreases content@.len() - i,
    {
        let ghost before = out@;
        assert(blocks.take(i + 1).drop_last() =~= blocks.take(i as int));
        assert(blocks.take(i + 1).last() == content@[i as int]@);
        if let Some(block) = clean_block(&content[i], strip) {
            out.push(block);
            assert(seq_views(out@) =~= seq_views(before).push(block@));
        }
        i += 1;
    }
    assert(blocks.take(i as int) =~= blocks);
    out
}

fn clean_results(
    results: &StrMap<ToolResult>,
    config: &CleanConfig,
    duplicate_ids: &StringHashSet,
) -> (r: StrMap<ToolResult>)
    ensures
        r@ == cleaned_results(results@, *config, duplicate_ids@),
{
    let mut out: StrMap<ToolResult> = StrMap::new();
    let len: usize = results.len();
    let mut i: usize = 0;
    while i < len
        invariant
            i <= len,
            len == results@.len(),
            keys_distinct(results@),
            out@ == cleaned_results(results@, *config, duplicate_ids@).take(i as int),
        decreases len - i,
    {
        let cleaned = clean_tool_result(results.value_at(i), config, duplicate_ids);
        let key = results.key_at(i).clone();
        proof {
            if has_key(out@, key@) {
                let k = key_index(out@, key@);
                assert(out@[k].0 == key@);
                assert(results@[k].0 == results@[i as int].0);
                assert(false);
            }
        }
        out.insert(key, cleaned);
        assert(out@ =~= cleaned_results(results@, *config, duplicate_ids@).take(i + 1));
        i += 1;
    }
    assert(out@ =~= cleaned_results(results@, *config, duplicate_ids@));
    out
}

/// Cleans an Agent message: thinking and reasoning details go, tool calls lose
/// their input where the settings say so, and tool results are cut down.
pub fn clean_agent_message(
    agent: &AgentMessage,
    config: &CleanConfig,
    duplicate_ids: &StringHashSet,
) -> (r: AgentMessage)
    ensures
        r@ == cleaned_agent(agent@, *config, duplicate_ids@),
{
    let tool_results = match &agent.tool_results {
        Some(results) => Some(clean_results(results, config, duplicate_ids)),
        None => None,
    };
    AgentMessage {
        content: clean_blocks(&agent.content, config.strip_tool_inputs),
        tool_results,
        reasoning_details: None,
    }
}

/// An Agent message without its redacted thinking.
pub fn drop_redacted_thinking(agent: &AgentMessage) -> (r: AgentMessage)
    ensures
        r@ == (AgentModel { content: without_redacted(agent@.content), ..agent@ }),
{
    let ghost blocks = seq_views(agent.content@);
    let mut out: Vec<AgentContent> = Vec::new();
    let mut i: usize = 0;
    assert(blocks.take(0) =~= Seq::<AgentContentModel>::empty());
    assert(seq_views(out@) =~= without_redacted(blocks.take(0)));
    while i < agent.content.len()
        invariant
            i <= agent.content@.len(),
            blocks == seq_views(agent.content@),
            seq_views(out@) == without_redacted(blocks.take(i as int)),
        decreases agent.content@.len() - i,
    {
        let ghost before = out@;
        assert(blocks.take(i + 1).drop_last() =~= blocks.take(i as int));
        assert(blocks.take(i + 1).last() == agent.content@[i as int]@);
        let redacted = match &agent.content[i] {
            AgentContent::RedactedThinking(_) => true,
            _ => false,
        };
        if !redacted {
            out.push(agent.content[i].duplicate());
            assert(seq_views(out@) =~= seq_views(before).push(agent.content@[i as int]@));
        }
        i += 1;
    }
    assert(blocks.take(i as int) =~= blocks);
    AgentMessage {
        content: out,
        tool_results: duplicate_opt(&agent.tool_results),
        reasoning_details: duplicate_opt(&agent.reasoning_details),
    }
}

/// Whether an Agent message has a text block.
pub fn responds_with_text(agent: &AgentMessage) -> (r: bool)
    ensures
        r == has_text(agent@.content),
{
    let mut i: usize = 0;
    while i < agent.content.len()
        invariant
            i <= agent.content@.len(),
            forall|j: int| 0 <= j < i ==> !((#[trigger] agent@.content[j]) is Text),
        decreases agent.content@.len() - i,
    {
        assert(agent@.content[i as int] == agent.content@[i as int]@);
        if let AgentContent::Text(_) = &agent.content[i] {
            return true;
        }
        i += 1;
    }
    false
}

} // verus!
