//! What command lines, lists, checks and dialogs come to.
use crate::chars::{lowercase, occurs};
use crate::cli::{
    command_asked, has_title_at, has_uuid_form, is_hex_digit, keep_asked, numeral_value, stands_for,
    CommandModel, Resolution,
};
use crate::config::CleanConfig;
use crate::dialog::{
    after_event, category_size, is_cleanup_plan, is_config_of, may_poll, missing_for_cleanup, saved,
    ActionModel, CleanupJob, CleanupOptions, DialogModel, EventModel,
};
use crate::laws_storage::law_entries_by_key;
use crate::session::{
    cached_types, checks_added, checks_retained, has_row, is_first_with_id, is_listed,
    is_stored_size, thread_type, unchecked, ThreadFilter,
};
use crate::size_label::size_label;
use crate::str_map::{has_key, inserted, keys_distinct, lookup};
use crate::types::{ThreadMeta, ThreadModel, ToolCategoryStats};
use vstd::prelude::*;
use vstd::utf8::*;

verus! {

/// A text has the form of a UUID exactly if it has 36 characters, hyphens at
/// the four places, and hexadecimal digits or hyphens at all others.
pub proof fn law_the_form_of_uuids(s: Seq<char>)
    ensures
        has_uuid_form(s) <==> {
            &&& s.len() == 36
            &&& s[8] == '-' && s[13] == '-' && s[18] == '-' && s[23] == '-'
            &&& forall|i: int|
                0 <= i < 36 ==> {
                    ||| (#[trigger] s[i]) == '-'
                    ||| '0' <= s[i] <= '9'
                    ||| 'a' <= s[i] <= 'f'
                    ||| 'A' <= s[i] <= 'F'
                }
        },
{
    if has_uuid_form(s) {
        crate::cli::law_uuids_have_36_characters(s);
        assert forall|i: int| 0 <= i < 36 implies {
            ||| (#[trigger] s[i]) == '-'
            ||| '0' <= s[i] <= '9'
            ||| 'a' <= s[i] <= 'f'
            ||| 'A' <= s[i] <= 'F'
        } by {
            assert(is_hex_digit(s[i]) || s[i] == '-');
        }
    }
    if s.len() == 36 && (forall|i: int|
        0 <= i < 36 ==> {
            ||| (#[trigger] s[i]) == '-'
            ||| '0' <= s[i] <= '9'
            ||| 'a' <= s[i] <= 'f'
            ||| 'A' <= s[i] <= 'F'
        }) {
        assert(is_ascii_chars(s));
        is_ascii_chars_encode_utf8(s);
    }
}

proof fn lemma_keep_asked_behind(
    head: Seq<Seq<char>>,
    tail: Seq<Seq<char>>,
    i: int,
    keep: usize,
    n: usize,
)
    requires
        0 <= i <= head.len(),
        keep_asked(head, i, keep) == Ok::<usize, Seq<char>>(n),
    ensures
        keep_asked(head + tail, i, keep) == keep_asked(head + tail, head.len() as int, n),
    decreases head.len() - i,
{
    if i < head.len() {
        assert((head + tail)[i] == head[i]);
        assert((head + tail)[i + 1] == head[i + 1]);
        lemma_keep_asked_behind(head, tail, i + 2, numeral_value(head[i + 1])->0, n);
    }
}

/// The number of dialogs that arguments ask to keep. No arguments ask for what
/// was asked before. Behind arguments that are accepted, `-n` and a numeral ask
/// for that number, `-n` and anything else is refused, and so is any other
/// argument, or `-n` with nothing behind it.
pub proof fn law_the_last_number_counts(
    head: Seq<Seq<char>>,
    i: int,
    keep: usize,
    n: usize,
    x: Seq<char>,
    rest: Seq<Seq<char>>,
)
    requires
        0 <= i <= head.len(),
        keep_asked(head, i, keep) == Ok::<usize, Seq<char>>(n),
    ensures
        i == head.len() ==> n == keep,
        ({
            let args = head.push("-n"@).push(x);
            &&& numeral_value(x) matches Some(k) ==> keep_asked(args, i, keep) == Ok::<
                usize,
                Seq<char>,
            >(k)
            &&& numeral_value(x) is None ==> keep_asked(args + rest, i, keep) == Err::<
                usize,
                Seq<char>,
            >("Invalid number: "@ + x)
        }),
        x != "-n"@ ==> keep_asked(head.push(x) + rest, i, keep) == Err::<usize, Seq<char>>(
            "Unknown argument: "@ + x,
        ),
        keep_asked(head.push("-n"@), i, keep) == Err::<usize, Seq<char>>(
            "Unknown argument: "@ + "-n"@,
        ),
{
    let args = head.push("-n"@).push(x);
    reveal_with_fuel(keep_asked, 2);
    assert(args =~= head + seq!["-n"@, x]);
    lemma_keep_asked_behind(head, seq!["-n"@, x], i, keep, n);
    assert(args + rest =~= head + (seq!["-n"@, x] + rest));
    lemma_keep_asked_behind(head, seq!["-n"@, x] + rest, i, keep, n);
    assert((args + rest)[head.len() as int] == "-n"@);
    assert((args + rest)[head.len() as int + 1] == x);
    assert(head.push(x) + rest =~= head + (seq![x] + rest));
    lemma_keep_asked_behind(head, seq![x] + rest, i, keep, n);
    assert((head.push(x) + rest)[head.len() as int] == x);
    assert(head.push("-n"@) =~= head + seq!["-n"@]);
    lemma_keep_asked_behind(head, seq!["-n"@], i, keep, n);
}

/// What the commands come to. A cleanup keeps ten dialogs unless a number is
/// asked for; without a thread or a file, the usage is given; an unknown
/// command is named.
pub proof fn law_commands_by_name(args: Seq<Seq<char>>, command: Seq<char>)
    ensures
        command == "list"@ ==> command_asked(args, command) == Ok::<CommandModel, Seq<char>>(
            CommandModel::List,
        ),
        command == "clean"@ && args.len() < 3 ==> command_asked(args, command) == Err::<
            CommandModel,
            Seq<char>,
        >("Usage: zed-context-cleaner clean <thread_id_or_title> [-n N]"@),
        command == "clean"@ && args.len() >= 3 ==> match keep_asked(args, 3, 10) {
            Ok(n) => command_asked(args, command) == Ok::<CommandModel, Seq<char>>(
                CommandModel::Clean { query: args[2], keep_last_n: n },
            ),
            Err(e) => command_asked(args, command) == Err::<CommandModel, Seq<char>>(e),
        },
        command == "restore"@ && args.len() < 3 ==> command_asked(args, command) == Err::<
            CommandModel,
            Seq<char>,
        >("Usage: zed-context-cleaner restore <backup_file>"@),
        command == "restore"@ && args.len() >= 3 ==> command_asked(args, command) == Ok::<
            CommandModel,
            Seq<char>,
        >(CommandModel::Restore { backup_file: args[2] }),
        set!["version"@, "--version"@, "-v"@, "-V"@].contains(command) ==> command_asked(
            args,
            command,
        ) == Ok::<CommandModel, Seq<char>>(CommandModel::Version),
        set!["help"@, "--help"@, "-h"@].contains(command) ==> command_asked(args, command) == Ok::<
            CommandModel,
            Seq<char>,
        >(CommandModel::Help),
        !set![
            "list"@,
            "clean"@,
            "restore"@,
            "version"@,
            "--version"@,
            "-v"@,
            "-V"@,
            "help"@,
            "--help"@,
            "-h"@,
        ].contains(command) ==> command_asked(args, command) == Err::<CommandModel, Seq<char>>(
            "Unknown command: '"@ + command + "'. Use 'help' for usage."@,
        ),
{
    reveal_strlit("list");
    assert("list"@.len() == 4);
    reveal_strlit("clean");
    assert("clean"@.len() == 5);
    reveal_strlit("restore");
    assert("restore"@.len() == 7);
    reveal_strlit("version");
    assert("version"@.len() == 7);
    reveal_strlit("--version");
    assert("--version"@.len() == 9);
    reveal_strlit("-v");
    assert("-v"@.len() == 2);
    reveal_strlit("-V");
    assert("-V"@.len() == 2);
    reveal_strlit("help");
    assert("help"@.len() == 4);
    reveal_strlit("--help");
    assert("--help"@.len() == 6);
    reveal_strlit("-h");
    assert("-h"@.len() == 2);
    assert("list"@[0] != "help"@[0]);
    assert("restore"@[0] != "version"@[0]);
    assert("-h"@[1] != "-v"@[1]);
    assert("-h"@[1] != "-V"@[1]);
}

/// A loaded thread is a `Subagent` exactly if it has a context that is not
/// `null`.
pub proof fn law_types_of_loaded_threads(t: ThreadModel)
    ensures
        t.subagent_context is None ==> thread_type(t) == "Chat"@,
        t.subagent_context matches Some(v) ==> thread_type(t) == if v is Null {
            "Chat"@
        } else {
            "Subagent"@
        },
{
}

/// When a thread is listed: its summary holds the search text, letter case
/// aside, or there is no search text; and its cached type is that of the
/// filter, or there is no filter.
pub proof fn law_when_threads_are_listed(
    meta: ThreadMeta,
    search: Seq<char>,
    cache: Seq<(Seq<char>, Seq<char>)>,
)
    ensures
        ({
            let found = search.len() == 0 || occurs(lowercase(meta.summary@), lowercase(search));
            let cached = lookup(cache, meta.id@);
            &&& is_listed(meta, search, ThreadFilter::All, cache) == found
            &&& is_listed(meta, search, ThreadFilter::Chat, cache) == (found && cached == Some(
                "Chat"@,
            ))
            &&& is_listed(meta, search, ThreadFilter::Subagent, cache) == (found && cached == Some(
                "Subagent"@,
            ))
        }),
        ThreadFilter::All.name() == "All"@,
        ThreadFilter::Chat.name() == "Chat"@,
        ThreadFilter::Subagent.name() == "Subagent"@,
{
}

proof fn lemma_cached_distinct(cache: Seq<(Seq<char>, Seq<char>)>, list: Seq<ThreadMeta>)
    requires
        keys_distinct(cache),
    ensures
        keys_distinct(cached_types(cache, list)),
    decreases list.len(),
{
    if list.len() > 0 {
        lemma_cached_distinct(cache, list.drop_last());
        let before = cached_types(cache, list.drop_last());
        let key = list.last().id@;
        let after = inserted(before, key, list.last().thread_type@);
        assert(keys_distinct(after)) by {
            assert forall|i: int, j: int| 0 <= i < j < after.len() implies (#[trigger] after[i]).0
                != (#[trigger] after[j]).0 by {
                if !has_key(before, key) {
                    assert(after[i] == before[i]);
                    assert(before[i].0 != key);
                    if j < before.len() {
                        assert(after[j] == before[j]);
                    }
                } else {
                    let at = crate::str_map::key_index(before, key);
                    assert(before[at].0 == key);
                    assert(after[i].0 == before[i].0);
                    assert(after[j].0 == before[j].0);
                }
            }
        }
    }
}

/// A list enters the type of each of its threads that has one, under the id of
/// the thread; a later entry counts, and all others stay.
pub proof fn law_cached_types_are_those_of_the_list(
    cache: Seq<(Seq<char>, Seq<char>)>,
    list: Seq<ThreadMeta>,
    meta: ThreadMeta,
    id: Seq<char>,
)
    requires
        keys_distinct(cache),
    ensures
        cached_types(cache, Seq::empty()) == cache,
        lookup(cached_types(cache, list.push(meta)), id) == if id == meta.id@
            && meta.thread_type@.len() > 0 {
            Some(meta.thread_type@)
        } else {
            lookup(cached_types(cache, list), id)
        },
{
    assert(list.push(meta).drop_last() =~= list);
    lemma_cached_distinct(cache, list);
    law_entries_by_key(cached_types(cache, list), meta.id@, meta.thread_type@, id);
}

/// The checks of tools. A row more adds a check where the tool has none, on
/// where more than 10 000 bytes can be saved; the checks that are kept are those
/// of tools with a row; the unchecked tools are those whose check is off.
pub proof fn law_checks_by_row(
    checks: Seq<(Seq<char>, bool)>,
    rows: Seq<ToolCategoryStats>,
    row: ToolCategoryStats,
)
    ensures
        checks_added(checks, Seq::empty()) == checks,
        ({
            let before = checks_added(checks, rows);
            let after = checks_added(checks, rows.push(row));
            if exists|i: int| 0 <= i < before.len() && (#[trigger] before[i]).0 == row.tool_name@ {
                after == before
            } else {
                after == before.push((row.tool_name@, row.cleanable_bytes >= 10_001))
            }
        }),
        checks_retained(checks, rows) == checks.filter(
            |e: (Seq<char>, bool)|
                exists|i: int| 0 <= i < rows.len() && (#[trigger] rows[i]).tool_name@ == e.0,
        ),
        unchecked(checks) == checks.filter(|e: (Seq<char>, bool)| !e.1).map_values(
            |e: (Seq<char>, bool)| e.0,
        ),
    decreases checks.len(),
{
    assert(rows.push(row).drop_last() =~= rows);
    reveal(Seq::filter);
    let off = |e: (Seq<char>, bool)| !e.1;
    let name = |e: (Seq<char>, bool)| e.0;
    if checks.len() > 0 {
        law_checks_by_row(checks.drop_last(), rows, row);
        let before = checks.drop_last().filter(off);
        if !checks.last().1 {
            assert(before.push(checks.last()).map_values(name) =~= before.map_values(name).push(
                checks.last().0,
            ));
        }
        assert(has_row(rows, checks.last().0) <==> exists|i: int|
            0 <= i < rows.len() && (#[trigger] rows[i]).tool_name@ == checks.last().0);
    } else {
        assert(unchecked(checks) =~= checks.filter(off).map_values(name));
    }
}

/// The settings of a cleanup are what the options say, with the tools skipped
/// whose check is off, 2000 bytes for commands and searches, 3000 for files, and
/// 10 000 for attachments.
pub proof fn law_settings_follow_the_options(
    config: CleanConfig,
    options: CleanupOptions,
    checks: Seq<(Seq<char>, bool)>,
)
    requires
        is_config_of(config, options, checks),
    ensures
        config.keep_last_n_dialogs == options.keep_last_n,
        config.remove_large_images == options.remove_large_images,
        config.strip_tool_inputs == options.strip_tool_inputs,
        config.strip_tool_output == options.strip_tool_output,
        config.remove_tool_only_messages == options.remove_tool_only_messages,
        config.fix_redacted_thinking == options.fix_redacted_thinking,
        config.terminal_limit == 2000 && config.search_limit == 2000,
        config.read_file_limit == 3000 && config.large_image_threshold == 10_000,
        config.skip_tool_names@.len() == checks.filter(|e: (Seq<char>, bool)| !e.1).len(),
        forall|i: int|
            0 <= i < config.skip_tool_names@.len() ==> (#[trigger] config.skip_tool_names@[i])@
                == checks.filter(|e: (Seq<char>, bool)| !e.1)[i].0,
{
    law_checks_by_row(checks, Seq::empty(), arbitrary());
    let views = crate::duplicate::seq_views(config.skip_tool_names@);
    let off = checks.filter(|e: (Seq<char>, bool)| !e.1);
    assert(views.len() == off.len());
    assert forall|i: int| 0 <= i < config.skip_tool_names@.len() implies (
    #[trigger] config.skip_tool_names@[i])@ == off[i].0 by {
        assert(views[i] == config.skip_tool_names@[i]@);
    }
}

/// A cleanup goes ahead exactly if a thread is selected, with its text, its data
/// type and its value; otherwise the first that is missing is named.
pub proof fn law_what_a_cleanup_needs(
    id: Option<Seq<char>>,
    json: Option<Seq<char>>,
    data_type: Option<Seq<char>>,
    thread: Option<ThreadModel>,
)
    ensures
        missing_for_cleanup(id, json, data_type, thread) is None <==> id is Some && json is Some
            && data_type is Some && thread is Some,
        missing_for_cleanup(None, json, data_type, thread) == Some("No thread selected."@),
        id is Some ==> missing_for_cleanup(id, None, data_type, thread) == Some(
            "No thread data loaded."@,
        ),
        id is Some && json is Some ==> missing_for_cleanup(id, json, None, thread) == Some(
            "No data type information."@,
        ),
        id is Some && json is Some && data_type is Some ==> missing_for_cleanup(
            id,
            json,
            data_type,
            None,
        ) == Some("No thread loaded."@),
{
}

/// Which dialog is open after an event, and what is done. A dialog opens by its
/// own event alone and closes by being confirmed or dismissed; what ends a work
/// is shown with its figures or its message.
pub proof fn law_dialogs_by_event(
    state: DialogModel,
    event: EventModel,
    selected: Option<Seq<char>>,
)
    ensures
        ({
            let (next, action) = after_event(state, event, selected);
            let idle = event is PickBackup && !(state is RestoreList && selected is Some) || event
                is Proceed && !(state is ConfirmCleanup || state is ConfirmRestore) || event
                is Dismiss && state is Processing;
            &&& idle ==> next == state && action is Nothing
            &&& next is ConfirmCleanup && !idle <==> event is AskCleanup
            &&& next is RestoreList && !idle <==> event is AskRestore
            &&& next is Processing && !idle <==> event is Started
            &&& next is ConfirmRestore && !idle <==> event is PickBackup && !idle
            &&& next is Closed && !idle <==> (event is Proceed || event is Dismiss) && !idle
            &&& next is CleanupError && !idle <==> event is Failed || event is Crashed || event
                is NotSaved
            &&& next is CleanupResult && !idle <==> event is Saved
            &&& next is RestoreResult && !idle <==> event is Restored
            &&& action is ListBackups <==> event is AskRestore
            &&& action is StartCleanup <==> state is ConfirmCleanup && event is Proceed
            &&& action is Restore <==> state is ConfirmRestore && event is Proceed
            &&& event matches EventModel::PickBackup { file_name } ==> (idle || next == (
            DialogModel::ConfirmRestore { file_name, thread_id: selected->0 }))
            &&& event is Proceed ==> (state matches DialogModel::ConfirmRestore {
                file_name,
                thread_id,
            } ==> action == (ActionModel::Restore { file_name, thread_id }))
            &&& event matches EventModel::Failed { message } ==> next == (
            DialogModel::CleanupError { message })
            &&& event is Crashed ==> next == (DialogModel::CleanupError {
                message: "Cleanup thread crashed unexpectedly."@,
            })
            &&& event matches EventModel::NotSaved { error } ==> next == (
            DialogModel::CleanupError { message: "Failed to save: "@ + error })
            &&& event matches EventModel::Saved { old_size, new_size, backup_file, thread_id }
                ==> next == (DialogModel::CleanupResult {
                old_size,
                new_size,
                backup_file,
                thread_id,
            })
            &&& event matches EventModel::Restored { size } ==> next == (
            DialogModel::RestoreResult {
                message: "Restored from backup ("@ + size_label(size as nat)
                    + ").\nYou can now open Zed. Context window size will update after the first message."@,
            })
        }),
{
}

/// Background work is asked for its result from the next frame on, and while
/// its dialog is open only after that was shown for one second. What is saved
/// and what is left make up the old size, and a tool with nothing to save is
/// shown as protected.
pub proof fn law_work_and_savings(
    state: DialogModel,
    ms: nat,
    started: bool,
    old_size: nat,
    new_size: nat,
)
    ensures
        may_poll(state, ms, started) <==> !started && (ms >= 1000 || !(state is Processing)),
        old_size >= new_size ==> saved(old_size, new_size) + new_size == old_size,
        old_size <= new_size ==> saved(old_size, new_size) == 0,
        category_size(old_size, 0) == size_label(old_size) + " (protected)"@,
        new_size > 0 ==> category_size(old_size, new_size) == size_label(old_size) + " ("@
            + size_label(new_size) + ")"@,
{
}

/// Where a thread has an id, exactly one is the first that has it, and none
/// before it does.
pub proof fn law_the_first_with_an_id(list: Seq<ThreadMeta>, id: Seq<char>, i: int, j: int)
    ensures
        is_first_with_id(list, id, i) ==> 0 <= i < list.len() && list[i].id@ == id,
        is_first_with_id(list, id, i) && 0 <= j < list.len() && list[j].id@ == id ==> i <= j,
        0 <= j < list.len() && list[j].id@ == id ==> exists|k: int|
            0 <= k <= j && #[trigger] is_first_with_id(list, id, k),
    decreases j,
{
    if 0 <= j < list.len() && list[j].id@ == id && !is_first_with_id(list, id, j) {
        let k = choose|k: int| 0 <= k < j && (#[trigger] list[k]).id@ == id;
        law_the_first_with_an_id(list, id, i, k);
    }
}

/// A UUID stands for itself. Any other query is found where one title holds it,
/// letter case aside, is not found where none does, and is ambiguous where two
/// do; the places of an ambiguous one are those of the titles, in order.
pub proof fn law_what_queries_stand_for(
    r: Resolution,
    query: Seq<char>,
    threads: Seq<ThreadMeta>,
    i: int,
    j: int,
)
    requires
        stands_for(r, query, threads),
        threads.len() <= usize::MAX,
        i < j,
    ensures
        has_uuid_form(query) ==> r is Id && r->Id_0@ == query,
        !has_uuid_form(query) ==> {
            let here = 0 <= i < threads.len() && occurs(
                lowercase(threads[i].summary@),
                lowercase(query),
            );
            let there = 0 <= j < threads.len() && occurs(
                lowercase(threads[j].summary@),
                lowercase(query),
            );
            &&& !(r is Id)
            &&& threads.len() == 0 ==> r is NotFound
            &&& here && there ==> r is Ambiguous
            &&& here || there ==> !(r is NotFound)
            &&& r matches Resolution::Found { place, id } ==> place < threads.len() && id@
                == threads[place as int].id@ && here == (place == i) && there == (place == j)
            &&& r matches Resolution::Ambiguous { places, .. } ==> {
                &&& 0 <= i < threads.len() ==> (here <==> places@.contains(i as usize))
                &&& 0 <= j < threads.len() ==> (there <==> places@.contains(j as usize))
                &&& places@.len() >= 2 && places@[0] < places@[1]
            }
        },
{
    assert(has_title_at(threads, query, i) == (0 <= i < threads.len() && occurs(
        lowercase(threads[i].summary@),
        lowercase(query),
    )));
    assert(has_title_at(threads, query, j) == (0 <= j < threads.len() && occurs(
        lowercase(threads[j].summary@),
        lowercase(query),
    )));
    if let Resolution::Ambiguous { places, .. } = r {
        assert(forall|n: usize| #[trigger] places@.contains(n) ==> has_title_at(
            threads,
            query,
            n as int,
        ));
        if !has_uuid_form(query) {
            assert(has_title_at(threads, query, places@[0] as int));
            assert(places@.contains(i as usize) || !has_title_at(threads, query, i));
            assert(places@.contains(j as usize) || !has_title_at(threads, query, j));
        }
    }
}

/// The size that a list gives for a thread is that of an entry with its id
/// before which no other has it, and zero where no entry has it.
pub proof fn law_stored_sizes_by_id(size: usize, list: Seq<ThreadMeta>, id: Seq<char>, i: int)
    requires
        is_stored_size(size, list, id),
    ensures
        0 <= i < list.len() && list[i].id@ == id && (forall|j: int|
            0 <= j < i ==> (#[trigger] list[j]).id@ != id) ==> size == list[i].data_size,
        (forall|j: int| 0 <= j < list.len() ==> (#[trigger] list[j]).id@ != id) ==> size == 0,
{
    if 0 <= i < list.len() && list[i].id@ == id && (forall|j: int|
        0 <= j < i ==> (#[trigger] list[j]).id@ != id) {
        assert(is_first_with_id(list, id, i));
    }
}

/// A cleanup that is made ready works on just what was given: the thread that is
/// selected, its text, its type and its value, with the settings of the dialog.
pub proof fn law_cleanups_work_on_what_was_given(
    r: Result<CleanupJob, String>,
    id: Option<Seq<char>>,
    json: Option<Seq<char>>,
    data_type: Option<Seq<char>>,
    thread: Option<ThreadModel>,
    options: CleanupOptions,
    checks: Seq<(Seq<char>, bool)>,
)
    requires
        is_cleanup_plan(r, id, json, data_type, thread, options, checks),
    ensures
        r is Ok <==> id is Some && json is Some && data_type is Some && thread is Some,
        r matches Ok(job) ==> {
            &&& job.thread_id@ == id->0
            &&& job.raw_json@ == json->0
            &&& job.data_type@ == data_type->0
            &&& job.thread@ == thread->0
            &&& job.config.keep_last_n_dialogs == options.keep_last_n
            &&& job.config.remove_large_images == options.remove_large_images
            &&& job.config.strip_tool_inputs == options.strip_tool_inputs
            &&& job.config.strip_tool_output == options.strip_tool_output
            &&& job.config.remove_tool_only_messages == options.remove_tool_only_messages
            &&& job.config.fix_redacted_thinking == options.fix_redacted_thinking
        },
        r matches Err(e) ==> missing_for_cleanup(id, json, data_type, thread) == Some(e@),
{
}

} // verus!
