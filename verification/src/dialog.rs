//! The dialogs around a cleanup and a restore, and what has to be at hand
//! before a cleanup starts.
use crate::agent::cleaned_results;
use crate::clean::{cleaned_thread, messages_after, try_clean_thread, usage_fits};
use crate::config::CleanConfig;
use crate::dedup::{file_reads, superseded_ids};
use crate::duplicate::{opt_view, seq_views, Duplicate};
use crate::json_form::{stored_text_len, stored_text_size};
use crate::protect::protected_zone;
use crate::session::{unchecked, CategoryChecks};
use crate::size_label::{format_bytes, size_label};
use crate::text::joined;
use crate::types::{DbThread, MessageModel, ThreadModel, ToolResultModel};
use vstd::prelude::*;
use vstd::string::*;

verus! {

/// The options of a cleanup that the user can set.
#[derive(Debug, Clone, Copy)]
pub struct CleanupOptions {
    pub keep_last_n: usize,
    pub remove_large_images: bool,
    pub strip_tool_inputs: bool,
    pub strip_tool_output: bool,
    pub remove_tool_only_messages: bool,
    pub fix_redacted_thinking: bool,
}

impl Default for CleanupOptions {
    fn default() -> (r: Self)
        ensures
            r == (CleanupOptions {
                keep_last_n: 10,
                remove_large_images: true,
                strip_tool_inputs: true,
                strip_tool_output: true,
                remove_tool_only_messages: false,
                fix_redacted_thinking: false,
            }),
    {
        CleanupOptions {
            keep_last_n: 10,
            remove_large_images: true,
            strip_tool_inputs: true,
            strip_tool_output: true,
            remove_tool_only_messages: false,
            fix_redacted_thinking: false,
        }
    }
}

/// The settings that options and checks stand for: the options, the tools
/// whose check is off, and the default limits.
pub open spec fn is_config_of(
    config: CleanConfig,
    options: CleanupOptions,
    checks: Seq<(Seq<char>, bool)>,
) -> bool {
    &&& config.keep_last_n_dialogs == options.keep_last_n
    &&& seq_views(config.skip_tool_names@) == unchecked(checks)
    &&& config.remove_large_images == options.remove_large_images
    &&& config.strip_tool_inputs == options.strip_tool_inputs
    &&& config.strip_tool_output == options.strip_tool_output
    &&& config.remove_tool_only_messages == options.remove_tool_only_messages
    &&& config.fix_redacted_thinking == options.fix_redacted_thinking
    &&& config.terminal_limit == 2000
    &&& config.search_limit == 2000
    &&& config.read_file_limit == 3000
    &&& config.large_image_threshold == 10_000
}

/// The settings of a cleanup.
pub fn cleanup_config(options: &CleanupOptions, checks: &CategoryChecks) -> (r: CleanConfig)
    ensures
        is_config_of(r, *options, checks@),
{
    CleanConfig {
        keep_last_n_dialogs: options.keep_last_n,
        skip_tool_names: checks.skipped(),
        remove_large_images: options.remove_large_images,
        strip_tool_inputs: options.strip_tool_inputs,
        strip_tool_output: options.strip_tool_output,
        remove_tool_only_messages: options.remove_tool_only_messages,
        fix_redacted_thinking: options.fix_redacted_thinking,
        ..CleanConfig::default()
    }
}

/// The size of the stored text of a thread after a cleanup with the current
/// options and checks, or `None` where the token usage that is left does not
/// fit in 64 bits. A cleanup that is started with them leaves a text of that
/// size.
pub fn estimated_size(thread: &DbThread, options: &CleanupOptions, checks: &CategoryChecks) -> (r:
    Option<usize>)
    ensures
        r is Some <==> usage_fits(thread@),
        r matches Some(n) ==> forall|config: CleanConfig| #[trigger]
            is_config_of(config, *options, checks@) ==> n == stored_text_size(
                cleaned_thread(thread@, config),
            ),
{
    let used = cleanup_config(options, checks);
    match try_clean_thread(thread, &used) {
        Some(cleaned) => {
            let n: usize = stored_text_len(&cleaned);
            assert forall|config: CleanConfig| #[trigger]
                is_config_of(config, *options, checks@) implies n == stored_text_size(
                cleaned_thread(thread@, config),
            ) by {
                law_estimates_are_accurate(thread@, used, config, *options, checks@);
            }
            Some(n)
        },
        None => None,
    }
}

/// A cleanup that is ready to run.
#[derive(Debug)]
pub struct CleanupJob {
    pub thread_id: String,
    pub raw_json: String,
    pub data_type: String,
    pub thread: DbThread,
    pub config: CleanConfig,
}

/// What is missing for a cleanup, the first in order.
pub open spec fn missing_for_cleanup(
    thread_id: Option<Seq<char>>,
    raw_json: Option<Seq<char>>,
    data_type: Option<Seq<char>>,
    thread: Option<ThreadModel>,
) -> Option<Seq<char>> {
    if thread_id is None {
        Some("No thread selected."@)
    } else if raw_json is None {
        Some("No thread data loaded."@)
    } else if data_type is None {
        Some("No data type information."@)
    } else if thread is None {
        Some("No thread loaded."@)
    } else {
        None
    }
}

/// The outcome of making a cleanup ready: all that was given, with the settings
/// that options and checks stand for, or what is missing.
pub open spec fn is_cleanup_plan(
    r: Result<CleanupJob, String>,
    thread_id: Option<Seq<char>>,
    raw_json: Option<Seq<char>>,
    data_type: Option<Seq<char>>,
    thread: Option<ThreadModel>,
    options: CleanupOptions,
    checks: Seq<(Seq<char>, bool)>,
) -> bool {
    match r {
        Ok(job) => {
            &&& thread_id == Some(job.thread_id@)
            &&& raw_json == Some(job.raw_json@)
            &&& data_type == Some(job.data_type@)
            &&& thread == Some(job.thread@)
            &&& is_config_of(job.config, options, checks)
        },
        Err(e) => missing_for_cleanup(thread_id, raw_json, data_type, thread) == Some(e@),
    }
}

/// Makes a cleanup ready, or says what is missing.
pub fn plan_cleanup(
    thread_id: &Option<String>,
    raw_json: &Option<String>,
    data_type: &Option<String>,
    thread: &Option<DbThread>,
    options: &CleanupOptions,
    checks: &CategoryChecks,
) -> (r: Result<CleanupJob, String>)
    ensures
        is_cleanup_plan(
            r,
            opt_view(*thread_id),
            opt_view(*raw_json),
            opt_view(*data_type),
            opt_view(*thread),
            *options,
            checks@,
        ),
{
    let id = match thread_id {
        Some(id) => id.clone(),
        None => {
            return Err("No thread selected.".to_owned());
        },
    };
    let raw = match raw_json {
        Some(raw) => raw.clone(),
        None => {
            return Err("No thread data loaded.".to_owned());
        },
    };
    let stored_as = match data_type {
        Some(stored_as) => stored_as.clone(),
        None => {
            return Err("No data type information.".to_owned());
        },
    };
    let loaded = match thread {
        Some(loaded) => loaded.duplicate(),
        None => {
            return Err("No thread loaded.".to_owned());
        },
    };
    Ok(
        CleanupJob {
            thread_id: id,
            raw_json: raw,
            data_type: stored_as,
            thread: loaded,
            config: cleanup_config(options, checks),
        },
    )
}

/// The dialog that is open.
#[derive(Debug)]
pub enum DialogState {
    Closed,
    ConfirmCleanup,
    Processing,
    CleanupResult { old_size: usize, new_size: usize, backup_file: String, thread_id: String },
    CleanupError { message: String },
    RestoreList,
    ConfirmRestore { file_name: String, thread_id: String },
    RestoreResult { message: String },
}

/// What a [`DialogState`] stands for.
pub enum DialogModel {
    Closed,
    ConfirmCleanup,
    Processing,
    CleanupResult {
        old_size: usize,
        new_size: usize,
        backup_file: Seq<char>,
        thread_id: Seq<char>,
    },
    CleanupError { message: Seq<char> },
    RestoreList,
    ConfirmRestore { file_name: Seq<char>, thread_id: Seq<char> },
    RestoreResult { message: Seq<char> },
}

impl View for DialogState {
    type V = DialogModel;

    open spec fn view(&self) -> DialogModel {
        match self {
            DialogState::Closed => DialogModel::Closed,
            DialogState::ConfirmCleanup => DialogModel::ConfirmCleanup,
            DialogState::Processing => DialogModel::Processing,
            DialogState::CleanupResult { old_size, new_size, backup_file, thread_id } =>
            DialogModel::CleanupResult {
                old_size: *old_size,
                new_size: *new_size,
                backup_file: backup_file@,
                thread_id: thread_id@,
            },
            DialogState::CleanupError { message } => DialogModel::CleanupError {
                message: message@,
            },
            DialogState::RestoreList => DialogModel::RestoreList,
            DialogState::ConfirmRestore { file_name, thread_id } => DialogModel::ConfirmRestore {
                file_name: file_name@,
                thread_id: thread_id@,
            },
            DialogState::RestoreResult { message } => DialogModel::RestoreResult {
                message: message@,
            },
        }
    }
}

/// What happens while a dialog is open or none is.
#[derive(Debug)]
pub enum DialogEvent {
    /// The user asks for a cleanup.
    AskCleanup,
    /// The user asks for a restore.
    AskRestore,
    /// The user picks a backup from the list.
    PickBackup { file_name: String },
    /// The user confirms what the dialog asks.
    Proceed,
    /// The user closes the dialog.
    Dismiss,
    /// The cleanup runs in the background.
    Started,
    /// The cleanup could not start, or failed.
    Failed { message: String },
    /// The background work ended without a result.
    Crashed,
    /// The cleaned thread could not be stored.
    NotSaved { error: String },
    /// The cleaned thread was stored.
    Saved { old_size: usize, new_size: usize, backup_file: String, thread_id: String },
    /// A backup of so many bytes was restored.
    Restored { size: usize },
}

/// What a [`DialogEvent`] stands for.
pub enum EventModel {
    AskCleanup,
    AskRestore,
    PickBackup { file_name: Seq<char> },
    Proceed,
    Dismiss,
    Started,
    Failed { message: Seq<char> },
    Crashed,
    NotSaved { error: Seq<char> },
    Saved { old_size: usize, new_size: usize, backup_file: Seq<char>, thread_id: Seq<char> },
    Restored { size: usize },
}

impl View for DialogEvent {
    type V = EventModel;

    open spec fn view(&self) -> EventModel {
        match self {
            DialogEvent::AskCleanup => EventModel::AskCleanup,
            DialogEvent::AskRestore => EventModel::AskRestore,
            DialogEvent::PickBackup { file_name } => EventModel::PickBackup {
                file_name: file_name@,
            },
            DialogEvent::Proceed => EventModel::Proceed,
            DialogEvent::Dismiss => EventModel::Dismiss,
            DialogEvent::Started => EventModel::Started,
            DialogEvent::Failed { message } => EventModel::Failed { message: message@ },
            DialogEvent::Crashed => EventModel::Crashed,
            DialogEvent::NotSaved { error } => EventModel::NotSaved { error: error@ },
            DialogEvent::Saved { old_size, new_size, backup_file, thread_id } => EventModel::Saved {
                old_size: *old_size,
                new_size: *new_size,
                backup_file: backup_file@,
                thread_id: thread_id@,
            },
            DialogEvent::Restored { size } => EventModel::Restored { size: *size },
        }
    }
}

/// What is to be done after an event.
#[derive(Debug)]
pub enum DialogAction {
    Nothing,
    StartCleanup,
    ListBackups,
    Restore { file_name: String, thread_id: String },
}

/// What a [`DialogAction`] stands for.
pub enum ActionModel {
    Nothing,
    StartCleanup,
    ListBackups,
    Restore { file_name: Seq<char>, thread_id: Seq<char> },
}

impl View for DialogAction {
    type V = ActionModel;

    open spec fn view(&self) -> ActionModel {
        match self {
            DialogAction::Nothing => ActionModel::Nothing,
            DialogAction::StartCleanup => ActionModel::StartCleanup,
            DialogAction::ListBackups => ActionModel::ListBackups,
            DialogAction::Restore { file_name, thread_id } => ActionModel::Restore {
                file_name: file_name@,
                thread_id: thread_id@,
            },
        }
    }
}

/// The message after a restore.
pub open spec fn restored_text(size: nat) -> Seq<char> {
    "Restored from backup ("@ + size_label(size)
        + ").\nYou can now open Zed. Context window size will update after the first message."@
}

/// The next dialog and what is to be done, where `selected` is the id of the
/// selected thread. The dialog of a running cleanup cannot be dismissed.
pub open spec fn after_event(
    state: DialogModel,
    event: EventModel,
    selected: Option<Seq<char>>,
) -> (DialogModel, ActionModel) {
    match event {
        EventModel::AskCleanup => (DialogModel::ConfirmCleanup, ActionModel::Nothing),
        EventModel::AskRestore => (DialogModel::RestoreList, ActionModel::ListBackups),
        EventModel::PickBackup { file_name } => match (state, selected) {
            (DialogModel::RestoreList, Some(thread_id)) => (
                DialogModel::ConfirmRestore { file_name, thread_id },
                ActionModel::Nothing,
            ),
            _ => (state, ActionModel::Nothing),
        },
        EventModel::Proceed => match state {
            DialogModel::ConfirmCleanup => (DialogModel::Closed, ActionModel::StartCleanup),
            DialogModel::ConfirmRestore { file_name, thread_id } => (
                DialogModel::Closed,
                ActionModel::Restore { file_name, thread_id },
            ),
            _ => (state, ActionModel::Nothing),
        },
        EventModel::Dismiss => if state is Processing {
            (state, ActionModel::Nothing)
        } else {
            (DialogModel::Closed, ActionModel::Nothing)
        },
        EventModel::Started => (DialogModel::Processing, ActionModel::Nothing),
        EventModel::Failed { message } => (
            DialogModel::CleanupError { message },
            ActionModel::Nothing,
        ),
        EventModel::Crashed => (
            DialogModel::CleanupError { message: "Cleanup thread crashed unexpectedly."@ },
            ActionModel::Nothing,
        ),
        EventModel::NotSaved { error } => (
            DialogModel::CleanupError { message: "Failed to save: "@ + error },
            ActionModel::Nothing,
        ),
        EventModel::Saved { old_size, new_size, backup_file, thread_id } => (
            DialogModel::CleanupResult { old_size, new_size, backup_file, thread_id },
            ActionModel::Nothing,
        ),
        EventModel::Restored { size } => (
            DialogModel::RestoreResult { message: restored_text(size as nat) },
            ActionModel::Nothing,
        ),
    }
}

/// The message after a restore of a backup of `size` bytes.
pub fn restored_message(size: usize) -> (r: String)
    ensures
        r@ == restored_text(size as nat),
{
    let mut out = joined("Restored from backup (", format_bytes(size).as_str());
    out.append(
        ").\nYou can now open Zed. Context window size will update after the first message.",
    );
    out
}

/// Handles an event: the next dialog and what is to be done, where `selected`
/// is the id of the selected thread.
pub fn handle_event(
    state: DialogState,
    event: DialogEvent,
    selected: &Option<String>,
) -> (r: (DialogState, DialogAction))
    ensures
        (r.0@, r.1@) == after_event(state@, event@, opt_view(*selected)),
{
    match event {
        DialogEvent::AskCleanup => (DialogState::ConfirmCleanup, DialogAction::Nothing),
        DialogEvent::AskRestore => (DialogState::RestoreList, DialogAction::ListBackups),
        DialogEvent::PickBackup { file_name } => match (state, selected) {
            (DialogState::RestoreList, Some(id)) => (
                DialogState::ConfirmRestore { file_name, thread_id: id.clone() },
                DialogAction::Nothing,
            ),
            (other, _) => (other, DialogAction::Nothing),
        },
        DialogEvent::Proceed => match state {
            DialogState::ConfirmCleanup => (DialogState::Closed, DialogAction::StartCleanup),
            DialogState::ConfirmRestore { file_name, thread_id } => (
                DialogState::Closed,
                DialogAction::Restore { file_name, thread_id },
            ),
            other => (other, DialogAction::Nothing),
        },
        DialogEvent::Dismiss => match state {
            DialogState::Processing => (DialogState::Processing, DialogAction::Nothing),
            _ => (DialogState::Closed, DialogAction::Nothing),
        },
        DialogEvent::Started => (DialogState::Processing, DialogAction::Nothing),
        DialogEvent::Failed { message } => (
            DialogState::CleanupError { message },
            DialogAction::Nothing,
        ),
        DialogEvent::Crashed => (
            DialogState::CleanupError {
                message: "Cleanup thread crashed unexpectedly.".to_owned(),
            },
            DialogAction::Nothing,
        ),
        DialogEvent::NotSaved { error } => (
            DialogState::CleanupError { message: joined("Failed to save: ", error.as_str()) },
            DialogAction::Nothing,
        ),
        DialogEvent::Saved { old_size, new_size, backup_file, thread_id } => (
            DialogState::CleanupResult { old_size, new_size, backup_file, thread_id },
            DialogAction::Nothing,
        ),
        DialogEvent::Restored { size } => (
            DialogState::RestoreResult { message: restored_message(size) },
            DialogAction::Nothing,
        ),
    }
}

/// Whether the background work may be asked for its result: not in the frame
/// in which it was started, and not before its dialog was shown for a second.
pub open spec fn may_poll(state: DialogModel, shown_ms: nat, started_this_frame: bool) -> bool {
    !started_this_frame && (state is Processing ==> shown_ms >= 1000)
}

/// Whether the background work may be asked for its result.
pub fn can_poll(state: &DialogState, shown_ms: u128, started_this_frame: bool) -> (r: bool)
    ensures
        r == may_poll(state@, shown_ms as nat, started_this_frame),
{
    let shown = match state {
        DialogState::Processing => shown_ms >= 1000,
        _ => true,
    };
    shown && !started_this_frame
}

/// What a cleanup from `old_size` to `new_size` bytes saves; nothing where the
/// thread grew.
pub open spec fn saved(old_size: nat, new_size: nat) -> nat {
    if old_size > new_size {
        (old_size - new_size) as nat
    } else {
        0
    }
}

/// What a cleanup from `old_size` to `new_size` bytes saves.
pub fn saved_bytes(old_size: usize, new_size: usize) -> (r: usize)
    ensures
        r == saved(old_size as nat, new_size as nat),
{
    if old_size > new_size {
        old_size - new_size
    } else {
        0
    }
}

/// The size column of a tool: what its results take, and how much of it a
/// cleanup would save or that all of it is protected.
pub open spec fn category_size(total: nat, cleanable: nat) -> Seq<char> {
    if cleanable > 0 {
        size_label(total) + " ("@ + size_label(cleanable) + ")"@
    } else {
        size_label(total) + " (protected)"@
    }
}

/// The size column of a tool.
pub fn category_size_text(total_bytes: usize, cleanable_bytes: usize) -> (r: String)
    ensures
        r@ == category_size(total_bytes as nat, cleanable_bytes as nat),
{
    let mut out = format_bytes(total_bytes);
    if cleanable_bytes > 0 {
        out.append(" (");
        out.append(format_bytes(cleanable_bytes).as_str());
        out.append(")");
    } else {
        out.append(" (protected)");
    }
    out
}

/// A cleanup starts only after its dialog was confirmed, and a restore only
/// after its dialog was, with the file and the thread of that dialog.
pub proof fn law_nothing_starts_unconfirmed(
    state: DialogModel,
    event: EventModel,
    selected: Option<Seq<char>>,
)
    ensures
        after_event(state, event, selected).1 is StartCleanup <==> state is ConfirmCleanup
            && event is Proceed,
        after_event(state, event, selected).1 matches ActionModel::Restore { file_name, thread_id }
            ==> event is Proceed && state == (DialogModel::ConfirmRestore { file_name, thread_id }),
{
}

/// A restore can be confirmed only for a backup that was picked from the list
/// while a thread was selected, and for that thread.
pub proof fn law_a_restore_is_of_the_selected_thread(
    state: DialogModel,
    event: EventModel,
    selected: Option<Seq<char>>,
)
    requires
        !(state is ConfirmRestore),
    ensures
        after_event(state, event, selected).0 matches DialogModel::ConfirmRestore {
            file_name,
            thread_id,
        } ==> {
            &&& state is RestoreList
            &&& event == (EventModel::PickBackup { file_name })
            &&& selected == Some(thread_id)
        },
{
}

/// The dialog of a running cleanup stays open until the user asks for
/// something else or the work ends.
pub proof fn law_a_running_cleanup_is_not_dismissed(selected: Option<Seq<char>>)
    ensures
        after_event(DialogModel::Processing, EventModel::Dismiss, selected).0 is Processing,
        after_event(DialogModel::Processing, EventModel::Proceed, selected).0 is Processing,
{
}

proof fn lemma_same_skips(a: CleanConfig, b: CleanConfig, tool: Seq<char>)
    requires
        seq_views(a.skip_tool_names@) == seq_views(b.skip_tool_names@),
    ensures
        a.skips(tool) == b.skips(tool),
{
    let x = seq_views(a.skip_tool_names@);
    let y = seq_views(b.skip_tool_names@);
    assert(x.len() == y.len());
    if a.skips(tool) {
        let i = choose|i: int|
            0 <= i < a.skip_tool_names@.len() && (#[trigger] a.skip_tool_names@[i])@ == tool;
        assert(x[i] == tool);
        assert(y[i] == b.skip_tool_names@[i]@);
    }
    if b.skips(tool) {
        let i = choose|i: int|
            0 <= i < b.skip_tool_names@.len() && (#[trigger] b.skip_tool_names@[i])@ == tool;
        assert(y[i] == tool);
        assert(x[i] == a.skip_tool_names@[i]@);
    }
}

/// Settings that say the same in every field.
spec fn same_settings(a: CleanConfig, b: CleanConfig) -> bool {
    &&& seq_views(a.skip_tool_names@) == seq_views(b.skip_tool_names@)
    &&& a == (CleanConfig { skip_tool_names: a.skip_tool_names, ..b })
}

proof fn lemma_same_results(
    results: Seq<(Seq<char>, ToolResultModel)>,
    a: CleanConfig,
    b: CleanConfig,
    dups: Set<Seq<char>>,
)
    requires
        same_settings(a, b),
    ensures
        cleaned_results(results, a, dups) == cleaned_results(results, b, dups),
{
    assert forall|i: int| 0 <= i < results.len() implies cleaned_results(results, a, dups)[i]
        == cleaned_results(results, b, dups)[i] by {
        lemma_same_skips(a, b, results[i].1.tool_name);
    }
    assert(cleaned_results(results, a, dups) =~= cleaned_results(results, b, dups));
}

proof fn lemma_same_messages(
    m: Seq<MessageModel>,
    n: int,
    zone: Set<usize>,
    a: CleanConfig,
    b: CleanConfig,
    dups: Set<Seq<char>>,
)
    requires
        same_settings(a, b),
        0 <= n <= m.len(),
    ensures
        messages_after(m, n, zone, a, dups) == messages_after(m, n, zone, b, dups),
    decreases n,
{
    if n > 0 {
        lemma_same_messages(m, n - 1, zone, a, b, dups);
        if let MessageModel::Agent(agent) = m[n - 1] {
            if let Some(results) = agent.tool_results {
                lemma_same_results(results, a, b, dups);
            }
        }
    }
}

/// An estimate is accurate: two cleanups with the same options and checks, one
/// to estimate and one to store, leave the same thread and a stored text of the
/// same size.
pub proof fn law_estimates_are_accurate(
    t: ThreadModel,
    a: CleanConfig,
    b: CleanConfig,
    options: CleanupOptions,
    checks: Seq<(Seq<char>, bool)>,
)
    requires
        is_config_of(a, options, checks),
        is_config_of(b, options, checks),
    ensures
        cleaned_thread(t, a) == cleaned_thread(t, b),
        stored_text_size(cleaned_thread(t, a)) == stored_text_size(cleaned_thread(t, b)),
{
    let zone = protected_zone(t.messages, options.keep_last_n as nat);
    lemma_same_messages(
        t.messages,
        t.messages.len() as int,
        zone,
        a,
        b,
        superseded_ids(file_reads(t.messages, zone)),
    );
}

} // verus!
