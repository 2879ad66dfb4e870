//! Results of tool calls and how a cleanup cuts them down.
use crate::config::{byte_limit, tool_byte_limit, CleanConfig};
use crate::duplicate::{duplicate_opt, opt_view, Duplicate};
use crate::json::{compact_text, object_of, Json, JsonValue};
use crate::text::{byte_count, byte_len, truncate_utf8, truncated};
use crate::types::{ToolResult, ToolResultModel};
use vstd::hash_set::StringHashSet;
use vstd::prelude::*;

verus! {

/// The text of a content value whose JSON text is `serialized`: that of a
/// string or of an object `{"Text": ..}` is the string itself, `null` has
/// none, and for everything else it is the JSON text.
pub open spec fn text_of_content(v: Json, serialized: Seq<char>) -> Option<Seq<char>> {
    match v {
        Json::Text(s) => Some(s),
        Json::Null => None,
        _ => match v.text_member("Text"@) {
            Some(s) => Some(s),
            None => Some(serialized),
        },
    }
}

/// The text of a content value.
pub open spec fn content_text(v: Json) -> Option<Seq<char>> {
    text_of_content(v, compact_text(v))
}

/// Size of a content value; `null` takes nothing.
pub open spec fn content_size(v: Json) -> nat {
    match content_text(v) {
        Some(s) => byte_count(s),
        None => 0,
    }
}

/// A text in the shape of the content that it was taken from.
pub open spec fn rewrapped(original: Json, text: Seq<char>) -> Json {
    if original.member("Text"@) is Some {
        object_of("Text"@, Json::Text(text))
    } else {
        Json::Text(text)
    }
}

/// Content after cleanup, given its text: cut down to `limit` bytes.
pub open spec fn clipped_content(v: Json, text: Option<Seq<char>>, limit: nat) -> Json {
    match text {
        Some(s) => rewrapped(v, truncated(s, limit)),
        None => v,
    }
}

/// Output after cleanup, given its text and its JSON text: where the text, or
/// the JSON text of an output without one, is over `half`, it is cut down.
pub open spec fn clipped_output(
    v: Json,
    text: Option<Seq<char>>,
    serialized: Seq<char>,
    half: nat,
) -> Json {
    match text {
        Some(s) => if byte_count(s) > half {
            rewrapped(v, truncated(s, half))
        } else {
            v
        },
        None => if byte_count(serialized) > half {
            Json::Text(truncated(serialized, half))
        } else {
            v
        },
    }
}

/// The notice that replaces the content of a superseded file read.
pub open spec fn duplicate_notice() -> Seq<char> {
    "[DUPLICATE READ_FILE RESULT REMOVED: see last call for this file]"@
}

/// The content of a tool result under a byte limit.
pub open spec fn limited_content(content: Option<Json>, limit: Option<usize>) -> Option<Json> {
    match (content, limit) {
        (Some(v), Some(lim)) => Some(clipped_content(v, content_text(v), lim as nat)),
        _ => content,
    }
}

/// The output of a tool result under a byte limit, half of which it may take.
pub open spec fn limited_output(output: Option<Json>, limit: Option<usize>) -> Option<Json> {
    match (output, limit) {
        (Some(v), Some(lim)) => Some(
            clipped_output(v, content_text(v), compact_text(v), (lim / 2) as nat),
        ),
        _ => output,
    }
}

/// A tool result after cleanup, where `dups` holds the superseded file reads.
pub open spec fn cleaned_result(
    r: ToolResultModel,
    config: CleanConfig,
    dups: Set<Seq<char>>,
) -> ToolResultModel {
    if config.skips(r.tool_name) {
        r
    } else if dups.contains(r.tool_use_id) {
        ToolResultModel { content: Some(Json::Text(duplicate_notice())), output: None, ..r }
    } else {
        let limit = byte_limit(r.tool_name, config);
        ToolResultModel {
            content: limited_content(r.content, limit),
            output: if config.strip_tool_output {
                None
            } else {
                limited_output(r.output, limit)
            },
            ..r
        }
    }
}

/// The text of a content value, given its JSON text.
pub fn content_text_given(content: &JsonValue, serialized: &str) -> (r: Option<String>)
    ensures
        opt_view(r) == text_of_content(content@, serialized@),
{
    match content {
        JsonValue::Text(s) => Some(s.clone()),
        JsonValue::Null => None,
        _ => match content.get_str("Text") {
            Some(s) => Some(s.to_owned()),
            None => Some(serialized.to_owned()),
        },
    }
}

/// Whether only its JSON text can be the text of a content value.
fn needs_json_text(content: &JsonValue) -> (r: bool)
    ensures
        r == !(content@ is Text || content@ is Null || content@.text_member("Text"@) is Some),
{
    match content {
        JsonValue::Text(_) => false,
        JsonValue::Null => false,
        _ => content.get_str("Text").is_none(),
    }
}

/// The text of a content value: a plain string, the string of an object
/// `{"Text": ..}`, or the JSON text of anything else but `null`.
pub fn extract_content_text(content: &JsonValue) -> (r: Option<String>)
    ensures
        opt_view(r) == content_text(content@),
{
    let serialized = if needs_json_text(content) {
        content.to_text()
    } else {
        String::new()
    };
    content_text_given(content, serialized.as_str())
}

/// Size of a content value in bytes, given its text.
pub fn text_size(text: &Option<String>) -> (r: usize)
    ensures
        r == match opt_view(*text) {
            Some(s) => byte_count(s),
            None => 0,
        },
{
    match text {
        Some(s) => byte_len(s.as_str()),
        None => 0,
    }
}

/// Size of a content value in bytes, for statistics.
pub fn content_value_len(v: &JsonValue) -> (r: usize)
    ensures
        r == content_size(v@),
{
    text_size(&extract_content_text(v))
}

/// Puts a text back into the shape of the content that it was taken from.
pub fn rewrap_content(original: &JsonValue, text: String) -> (r: JsonValue)
    ensures
        r@ == rewrapped(original@, text@),
{
    match original.get("Text") {
        Some(_) => JsonValue::object("Text", JsonValue::Text(text)),
        None => JsonValue::Text(text),
    }
}

/// Cuts content down to `limit` bytes, given its text.
pub fn clip_content(content: &JsonValue, text: &Option<String>, limit: usize) -> (r: JsonValue)
    ensures
        r@ == clipped_content(content@, opt_view(*text), limit as nat),
{
    match text {
        Some(s) => rewrap_content(content, truncate_utf8(s.as_str(), limit)),
        None => content.duplicate(),
    }
}

/// Cuts output down to `half` bytes where it is larger, given its text and
/// its JSON text.
pub fn clip_output(
    output: &JsonValue,
    text: &Option<String>,
    serialized: &str,
    half: usize,
) -> (r: JsonValue)
    ensures
        r@ == clipped_output(output@, opt_view(*text), serialized@, half as nat),
{
    match text {
        Some(s) => {
            if byte_len(s.as_str()) > half {
                rewrap_content(output, truncate_utf8(s.as_str(), half))
            } else {
                output.duplicate()
            }
        },
        None => {
            if byte_len(serialized) > half {
                JsonValue::Text(truncate_utf8(serialized, half))
            } else {
                output.duplicate()
            }
        },
    }
}

fn limit_content(content: &Option<JsonValue>, limit: Option<usize>) -> (r: Option<JsonValue>)
    ensures
        opt_view(r) == limited_content(opt_view(*content), limit),
{
    match (content, limit) {
        (Some(v), Some(lim)) => Some(clip_content(v, &extract_content_text(v), lim)),
        _ => duplicate_opt(content),
    }
}

fn limit_output(output: &Option<JsonValue>, limit: Option<usize>) -> (r: Option<JsonValue>)
    ensures
        opt_view(r) == limited_output(opt_view(*output), limit),
{
    match (output, limit) {
        (Some(v), Some(lim)) => {
            let text = extract_content_text(v);
            let serialized = match &text {
                Some(_) => String::new(),
                None => v.to_text(),
            };
            Some(clip_output(v, &text, serialized.as_str(), lim / 2))
        },
        _ => duplicate_opt(output),
    }
}

/// Cleans a tool result: that of a skipped tool stays as it is, that of a
/// superseded file read is replaced by a notice, and any other is cut down to
/// the byte limit of its tool.
pub fn clean_tool_result(
    result: &ToolResult,
    config: &CleanConfig,
    duplicate_ids: &StringHashSet,
) -> (r: ToolResult)
    ensures
        r@ == cleaned_result(result@, *config, duplicate_ids@),
{
    if config.is_skipped(result.tool_name.as_str()) {
        return result.duplicate();
    }
    if duplicate_ids.contains(result.tool_use_id.as_str()) {
        return ToolResult {
            tool_use_id: result.tool_use_id.clone(),
            tool_name: result.tool_name.clone(),
            is_error: result.is_error,
            content: Some(
                JsonValue::Text(
                    "[DUPLICATE READ_FILE RESULT REMOVED: see last call for this file]".to_owned(),
                ),
            ),
            output: None,
        };
    }
    let limit = tool_byte_limit(result.tool_name.as_str(), config);
    let content = limit_content(&result.content, limit);
    let output = if config.strip_tool_output {
        None
    } else {
        limit_output(&result.output, limit)
    };
    ToolResult {
        tool_use_id: result.tool_use_id.clone(),
        tool_name: result.tool_name.clone(),
        is_error: result.is_error,
        content,
        output,
    }
}

} // verus!
