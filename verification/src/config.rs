//! What a cleanup removes, and how much of each tool's result it keeps.
use crate::duplicate::{duplicate_vec, seq_views};
use crate::text::same_text;
use vstd::prelude::*;

verus! {

/// Settings of a cleanup.
#[derive(Debug)]
pub struct CleanConfig {
    pub keep_last_n_dialogs: usize,
    pub terminal_limit: usize,
    pub read_file_limit: usize,
    pub search_limit: usize,
    /// Tool names to skip during cleanup (leave their results untouched).
    pub skip_tool_names: Vec<String>,
    /// Remove large images/files from old User messages.
    pub remove_large_images: bool,
    /// Threshold in bytes for image/file removal.
    pub large_image_threshold: usize,
    /// Empty `raw_input` and `input` in ToolUse blocks of old messages.
    pub strip_tool_inputs: bool,
    /// Drop the `output` field of tool results (it duplicates content).
    pub strip_tool_output: bool,
    /// Remove Agent messages that contain only ToolUse (no Text response).
    pub remove_tool_only_messages: bool,
    /// Remove RedactedThinking from all messages, protected ones too.
    pub fix_redacted_thinking: bool,
}

impl CleanConfig {
    /// Whether the results of a tool are left untouched.
    pub open spec fn skips(self, tool: Seq<char>) -> bool {
        exists|i: int|
            0 <= i < self.skip_tool_names@.len() && (#[trigger] self.skip_tool_names@[i])@ == tool
    }

    /// Whether the results of a tool are left untouched.
    pub fn is_skipped(&self, tool: &str) -> (r: bool)
        ensures
            r == self.skips(tool@),
    {
        let mut i: usize = 0;
        while i < self.skip_tool_names.len()
            invariant
                i <= self.skip_tool_names@.len(),
                forall|j: int| 0 <= j < i ==> (#[trigger] self.skip_tool_names@[j])@ != tool@,
            decreases self.skip_tool_names@.len() - i,
        {
            if same_text(self.skip_tool_names[i].as_str(), tool) {
                return true;
            }
            i += 1;
        }
        false
    }
}

impl Clone for CleanConfig {
    fn clone(&self) -> (r: Self)
        ensures
            r.keep_last_n_dialogs == self.keep_last_n_dialogs,
            r.terminal_limit == self.terminal_limit,
            r.read_file_limit == self.read_file_limit,
            r.search_limit == self.search_limit,
            seq_views(r.skip_tool_names@) == seq_views(self.skip_tool_names@),
            r.remove_large_images == self.remove_large_images,
            r.large_image_threshold == self.large_image_threshold,
            r.strip_tool_inputs == self.strip_tool_inputs,
            r.strip_tool_output == self.strip_tool_output,
            r.remove_tool_only_messages == self.remove_tool_only_messages,
            r.fix_redacted_thinking == self.fix_redacted_thinking,
    {
        CleanConfig { skip_tool_names: duplicate_vec(&self.skip_tool_names), ..*self }
    }
}

impl Default for CleanConfig {
    fn default() -> (r: Self)
        ensures
            r.keep_last_n_dialogs == 10,
            r.terminal_limit == 2000,
            r.read_file_limit == 3000,
            r.search_limit == 2000,
            r.skip_tool_names@ == Seq::<String>::empty(),
            r.remove_large_images,
            r.large_image_threshold == 10_000,
            r.strip_tool_inputs,
            r.strip_tool_output,
            !r.remove_tool_only_messages,
            !r.fix_redacted_thinking,
    {
        CleanConfig {
            keep_last_n_dialogs: 10,
            terminal_limit: 2000,
            read_file_limit: 3000,
            search_limit: 2000,
            skip_tool_names: Vec::new(),
            remove_large_images: true,
            large_image_threshold: 10_000,
            strip_tool_inputs: true,
            strip_tool_output: true,
            remove_tool_only_messages: false,
            fix_redacted_thinking: false,
        }
    }
}

/// Tools whose results are kept in full.
pub open spec fn is_preserved_tool(tool: Seq<char>) -> bool {
    ||| tool == "create_directory"@
    ||| tool == "copy_path"@
    ||| tool == "move_path"@
    ||| tool == "delete_path"@
    ||| tool == "spawn_agent"@
    ||| tool == "save_file"@
}

/// Tools that run commands.
pub open spec fn is_terminal_tool(tool: Seq<char>) -> bool {
    ||| tool == "terminal"@
    ||| tool == "ssh_run"@
    ||| tool == "ssh_connect"@
    ||| tool == "ssh_disconnect"@
    ||| tool == "ssh_status"@
}

/// Tools that search the project.
pub open spec fn is_search_tool(tool: Seq<char>) -> bool {
    ||| tool == "grep"@
    ||| tool == "find_path"@
    ||| tool == "list_directory"@
}

/// How many bytes of a tool's result are kept, or `None` where all of it is.
/// A tool that is in no category has the limit of the terminal tools.
pub open spec fn limit_among(
    tool: Seq<char>,
    terminal: usize,
    search: usize,
    read_file: usize,
) -> Option<usize> {
    if is_preserved_tool(tool) {
        None
    } else if is_terminal_tool(tool) {
        Some(terminal)
    } else if is_search_tool(tool) {
        Some(search)
    } else if tool == "read_file"@ {
        Some(read_file)
    } else {
        Some(terminal)
    }
}

/// How many bytes of a tool's result a cleanup keeps.
pub open spec fn byte_limit(tool: Seq<char>, config: CleanConfig) -> Option<usize> {
    limit_among(tool, config.terminal_limit, config.search_limit, config.read_file_limit)
}

/// How many bytes of a tool's result a cleanup with the default settings keeps.
pub open spec fn default_limit(tool: Seq<char>) -> Option<usize> {
    limit_among(tool, 2000, 2000, 3000)
}

/// Returns `None` for tools that should be preserved in full, or `Some(limit)`
/// for tools whose results should be truncated.
pub fn tool_byte_limit(tool_name: &str, config: &CleanConfig) -> (r: Option<usize>)
    ensures
        r == byte_limit(tool_name@, *config),
{
    if same_text(tool_name, "create_directory") || same_text(tool_name, "copy_path") || same_text(
        tool_name,
        "move_path",
    ) || same_text(tool_name, "delete_path") || same_text(tool_name, "spawn_agent") || same_text(
        tool_name,
        "save_file",
    ) {
        None
    } else if same_text(tool_name, "terminal") || same_text(tool_name, "ssh_run") || same_text(
        tool_name,
        "ssh_connect",
    ) || same_text(tool_name, "ssh_disconnect") || same_text(tool_name, "ssh_status") {
        Some(config.terminal_limit)
    } else if same_text(tool_name, "grep") || same_text(tool_name, "find_path") || same_text(
        tool_name,
        "list_directory",
    ) {
        Some(config.search_limit)
    } else if same_text(tool_name, "read_file") {
        Some(config.read_file_limit)
    } else {
        // Unknown tools get the terminal limit as a sensible default.
        Some(config.terminal_limit)
    }
}

} // verus!
