//! What holds of every cleanup, stated over the models that the contracts of
//! the executable functions use.
use crate::agent::{cleaned_block, cleaned_blocks, cleaned_results, has_text, without_redacted};
use crate::analysis::{categorizes, category, figure_bytes, has_figure, ResultFigure};
use crate::chars::{lowercase, occurs};
use crate::clean::{
    cleaned_messages, cleaned_thread, law_user_messages_stay, message_after, messages_after,
    usage_of, user_id_list, user_ids,
};
use crate::cli::title_hits;
use crate::config::{byte_limit, is_preserved_tool, CleanConfig};
use crate::dedup::{file_reads, is_superseded, superseded_ids, FileRead};
use crate::json::Json;
use crate::measure::{block_sizes, thread_sizes};
use crate::protect::{dialogs_from, is_dialog, is_kept_dialog, is_protected, protected_zone};
use crate::session::{is_listed, listed_places, thread_type, ThreadFilter};
use crate::stats::{agent_count, counts_names, occurrences, user_count};
use crate::str_map::{has_key, keys_distinct};
use crate::text::{byte_count, char_width, fitting_chars, truncated, truncation_notice};
use crate::tool_results::{cleaned_result, content_text, duplicate_notice, rewrapped};
use crate::types::{
    AgentContentModel, CategoryModel, MessageModel, ThreadMeta, ThreadModel, TokenUsage,
    ToolResultModel, ToolUseModel,
};
use crate::usage::{kept_usage, totals_record, usage_totals};
use vstd::prelude::*;
use vstd::utf8::*;

verus! {

/// What becomes of the message at `i` of a thread in a cleanup: `None` where
/// it is removed.
pub open spec fn outcome(m: Seq<MessageModel>, config: CleanConfig, i: int) -> Option<
    MessageModel,
> {
    let zone = protected_zone(m, config.keep_last_n_dialogs as nat);
    message_after(m, i, zone, config, superseded_ids(file_reads(m, zone)))
}

/// Number of messages before `i` that a cleanup keeps.
pub open spec fn survivors(m: Seq<MessageModel>, config: CleanConfig, i: int) -> nat {
    let zone = protected_zone(m, config.keep_last_n_dialogs as nat);
    messages_after(m, i, zone, config, superseded_ids(file_reads(m, zone))).len()
}

proof fn lemma_survivor_position(
    m: Seq<MessageModel>,
    zone: Set<usize>,
    config: CleanConfig,
    dups: Set<Seq<char>>,
    i: int,
    n: int,
)
    requires
        0 <= i < n <= m.len(),
        message_after(m, i, zone, config, dups) is Some,
    ensures
        messages_after(m, i, zone, config, dups).len() < messages_after(
            m,
            n,
            zone,
            config,
            dups,
        ).len(),
        Some(
            messages_after(m, n, zone, config, dups)[messages_after(
                m,
                i,
                zone,
                config,
                dups,
            ).len() as int],
        ) == message_after(m, i, zone, config, dups),
    decreases n,
{
    if i < n - 1 {
        lemma_survivor_position(m, zone, config, dups, i, n - 1);
    }
}

/// A message that a cleanup keeps stands in the cleaned thread behind those
/// kept before it: the order of the messages stays.
pub proof fn law_order_stays(m: Seq<MessageModel>, config: CleanConfig, i: int)
    requires
        0 <= i < m.len(),
        outcome(m, config, i) is Some,
    ensures
        survivors(m, config, i) < cleaned_messages(m, config).len(),
        Some(cleaned_messages(m, config)[survivors(m, config, i) as int]) == outcome(m, config, i),
{
    let zone = protected_zone(m, config.keep_last_n_dialogs as nat);
    let dups = superseded_ids(file_reads(m, zone));
    lemma_survivor_position(m, zone, config, dups, i, m.len() as int);
}

proof fn lemma_all_survive(
    m: Seq<MessageModel>,
    zone: Set<usize>,
    config: CleanConfig,
    dups: Set<Seq<char>>,
    n: int,
)
    requires
        0 <= n <= m.len(),
        !config.remove_tool_only_messages,
    ensures
        messages_after(m, n, zone, config, dups).len() == n,
    decreases n,
{
    if n > 0 {
        lemma_all_survive(m, zone, config, dups, n - 1);
    }
}

/// Unless tool-only messages are removed, a cleanup keeps every message in its
/// place and of its kind.
pub proof fn law_every_message_keeps_its_place(m: Seq<MessageModel>, config: CleanConfig, i: int)
    requires
        0 <= i < m.len(),
        !config.remove_tool_only_messages,
    ensures
        cleaned_messages(m, config).len() == m.len(),
        Some(cleaned_messages(m, config)[i]) == outcome(m, config, i),
        cleaned_messages(m, config)[i] is User <==> m[i] is User,
        cleaned_messages(m, config)[i] is Agent <==> m[i] is Agent,
{
    let zone = protected_zone(m, config.keep_last_n_dialogs as nat);
    let dups = superseded_ids(file_reads(m, zone));
    lemma_all_survive(m, zone, config, dups, m.len() as int);
    lemma_all_survive(m, zone, config, dups, i);
    lemma_survivor_position(m, zone, config, dups, i, m.len() as int);
}

/// A message is removed only where it is an Agent message without text outside
/// the protected zone and the settings say so.
pub proof fn law_only_tool_only_messages_go(m: Seq<MessageModel>, config: CleanConfig, i: int)
    requires
        0 <= i < m.len() <= usize::MAX,
    ensures
        outcome(m, config, i) is None <==> {
            &&& config.remove_tool_only_messages
            &&& !is_protected(m, config.keep_last_n_dialogs as nat, i)
            &&& m[i] matches MessageModel::Agent(a)
            &&& !has_text(a.content)
        },
{
    let zone = protected_zone(m, config.keep_last_n_dialogs as nat);
    assert(zone.contains(i as usize) == is_protected(m, config.keep_last_n_dialogs as nat, i));
}

/// The messages of the last dialogs stay as they are, unless redacted thinking
/// is removed everywhere.
pub proof fn law_protected_messages_stay(m: Seq<MessageModel>, config: CleanConfig, i: int)
    requires
        0 <= i < m.len() <= usize::MAX,
        is_protected(m, config.keep_last_n_dialogs as nat, i),
        !config.fix_redacted_thinking,
    ensures
        survivors(m, config, i) < cleaned_messages(m, config).len(),
        cleaned_messages(m, config)[survivors(m, config, i) as int] == m[i],
{
    let zone = protected_zone(m, config.keep_last_n_dialogs as nat);
    assert(zone.contains(i as usize));
    assert(outcome(m, config, i) == Some(m[i]));
    law_order_stays(m, config, i);
}

/// Messages that are neither from the user nor from the agent stay as they
/// are.
pub proof fn law_other_messages_stay(m: Seq<MessageModel>, config: CleanConfig, i: int)
    requires
        0 <= i < m.len(),
        m[i] is Other,
    ensures
        survivors(m, config, i) < cleaned_messages(m, config).len(),
        cleaned_messages(m, config)[survivors(m, config, i) as int] == m[i],
{
    assert(outcome(m, config, i) == Some(m[i]));
    law_order_stays(m, config, i);
}

/// The text blocks of a list of blocks.
pub open spec fn texts(c: Seq<AgentContentModel>) -> Seq<AgentContentModel>
    decreases c.len(),
{
    if c.len() == 0 {
        Seq::empty()
    } else if c.last() is Text {
        texts(c.drop_last()).push(c.last())
    } else {
        texts(c.drop_last())
    }
}

proof fn lemma_cleaned_blocks(c: Seq<AgentContentModel>, strip: bool)
    ensures
        forall|k: int|
            0 <= k < cleaned_blocks(c, strip).len() ==> (#[trigger] cleaned_blocks(c, strip)[k])
                is Text || cleaned_blocks(c, strip)[k] is ToolUse,
        texts(cleaned_blocks(c, strip)) == texts(c),
        cleaned_blocks(cleaned_blocks(c, strip), strip) == cleaned_blocks(c, strip),
    decreases c.len(),
{
    if c.len() > 0 {
        lemma_cleaned_blocks(c.drop_last(), strip);
        let after = cleaned_blocks(c, strip);
        if let Some(block) = cleaned_block(c.last(), strip) {
            assert(after.drop_last() =~= cleaned_blocks(c.drop_last(), strip));
            assert(after.last() == block);
            assert(cleaned_block(block, strip) == Some(block));
        }
    }
}

/// Outside the protected zone an Agent message that is kept has neither
/// thinking nor redacted thinking nor reasoning details left, and all its text.
pub proof fn law_thinking_goes(m: Seq<MessageModel>, config: CleanConfig, i: int, k: int)
    requires
        0 <= i < m.len() <= usize::MAX,
        m[i] is Agent,
        !is_protected(m, config.keep_last_n_dialogs as nat, i),
        outcome(m, config, i) is Some,
    ensures
        cleaned_messages(m, config)[survivors(m, config, i) as int] matches MessageModel::Agent(a)
            && {
            &&& a.reasoning_details is None
            &&& 0 <= k < a.content.len() ==> a.content[k] is Text || a.content[k] is ToolUse
            &&& texts(a.content) == texts(m[i]->Agent_0.content)
        },
{
    let zone = protected_zone(m, config.keep_last_n_dialogs as nat);
    assert(!zone.contains(i as usize));
    law_order_stays(m, config, i);
    lemma_cleaned_blocks(m[i]->Agent_0.content, config.strip_tool_inputs);
}

proof fn lemma_without_redacted(c: Seq<AgentContentModel>)
    ensures
        forall|k: int|
            0 <= k < without_redacted(c).len() ==> !((#[trigger] without_redacted(c)[k])
                is RedactedThinking),
    decreases c.len(),
{
    if c.len() > 0 {
        lemma_without_redacted(c.drop_last());
    }
}

proof fn lemma_no_redacted_after(
    m: Seq<MessageModel>,
    zone: Set<usize>,
    config: CleanConfig,
    dups: Set<Seq<char>>,
    n: int,
    j: int,
)
    requires
        0 <= n <= m.len(),
        config.fix_redacted_thinking,
        0 <= j < messages_after(m, n, zone, config, dups).len(),
    ensures
        messages_after(m, n, zone, config, dups)[j] matches MessageModel::Agent(a) ==> forall|
            k: int,
        |
            0 <= k < a.content.len() ==> !((#[trigger] a.content[k]) is RedactedThinking),
    decreases n,
{
    if n > 0 {
        let before = messages_after(m, n - 1, zone, config, dups);
        if j < before.len() {
            lemma_no_redacted_after(m, zone, config, dups, n - 1, j);
        } else if let MessageModel::Agent(a) = m[n - 1] {
            lemma_without_redacted(a.content);
            lemma_cleaned_blocks(a.content, config.strip_tool_inputs);
        }
    }
}

/// Where redacted thinking is removed everywhere, no Agent message of the
/// cleaned thread has any, protected or not.
pub proof fn law_redacted_thinking_goes_everywhere(
    m: Seq<MessageModel>,
    config: CleanConfig,
    j: int,
    k: int,
)
    requires
        config.fix_redacted_thinking,
        0 <= j < cleaned_messages(m, config).len(),
    ensures
        cleaned_messages(m, config)[j] matches MessageModel::Agent(a) ==> 0 <= k < a.content.len()
            ==> !(a.content[k] is RedactedThinking),
{
    let zone = protected_zone(m, config.keep_last_n_dialogs as nat);
    lemma_no_redacted_after(
        m,
        zone,
        config,
        superseded_ids(file_reads(m, zone)),
        m.len() as int,
        j,
    );
}

/// A tool call stays a tool call, and nothing but its input can go: its id, its
/// name and its thought signature among the rest stay.
pub proof fn law_calls_keep_all_but_their_input(t: ToolUseModel, strip: bool)
    ensures
        cleaned_block(AgentContentModel::ToolUse(t), strip) matches Some(block) && {
            &&& block matches AgentContentModel::ToolUse(u) && u == (ToolUseModel {
                raw_input: u.raw_input,
                input: u.input,
                ..t
            })
            &&& !strip ==> block == AgentContentModel::ToolUse(t)
        },
{
}

/// Cleaning the blocks of an Agent message again changes nothing.
pub proof fn law_blocks_are_clean_once(c: Seq<AgentContentModel>, strip: bool)
    ensures
        cleaned_blocks(cleaned_blocks(c, strip), strip) == cleaned_blocks(c, strip),
{
    lemma_cleaned_blocks(c, strip);
}

/// A tool result keeps its id, its tool and whether it is an error, and the
/// results of a message stay under their keys.
pub proof fn law_results_keep_their_identity(
    results: Seq<(Seq<char>, ToolResultModel)>,
    config: CleanConfig,
    dups: Set<Seq<char>>,
    i: int,
)
    requires
        0 <= i < results.len(),
    ensures
        cleaned_results(results, config, dups).len() == results.len(),
        cleaned_results(results, config, dups)[i].0 == results[i].0,
        cleaned_results(results, config, dups)[i].1.tool_use_id == results[i].1.tool_use_id,
        cleaned_results(results, config, dups)[i].1.tool_name == results[i].1.tool_name,
        cleaned_results(results, config, dups)[i].1.is_error == results[i].1.is_error,
{
}

/// The results of a tool in the skip list are left untouched.
pub proof fn law_skipped_tools_are_untouched(
    r: ToolResultModel,
    config: CleanConfig,
    dups: Set<Seq<char>>,
)
    requires
        config.skips(r.tool_name),
    ensures
        cleaned_result(r, config, dups) == r,
{
}

/// The content of a preserved tool is kept in full, unless the result has the
/// id of a superseded file read; only the output goes, where outputs are
/// stripped.
pub proof fn law_preserved_tools_keep_their_content(
    r: ToolResultModel,
    config: CleanConfig,
    dups: Set<Seq<char>>,
)
    requires
        is_preserved_tool(r.tool_name),
        !dups.contains(r.tool_use_id),
    ensures
        cleaned_result(r, config, dups).content == r.content,
        !config.strip_tool_output ==> cleaned_result(r, config, dups) == r,
{
}

/// The text of a result that is cut down is the truncated text of the result,
/// whatever shape its content has; a plain text that fits stays as it is.
pub proof fn law_results_are_cut_at_the_limit(
    r: ToolResultModel,
    config: CleanConfig,
    dups: Set<Seq<char>>,
)
    requires
        !config.skips(r.tool_name),
        !dups.contains(r.tool_use_id),
        r.content is Some,
        content_text(r.content->0) is Some,
        byte_limit(r.tool_name, config) is Some,
    ensures
        ({
            let text = content_text(r.content->0)->0;
            let limit = byte_limit(r.tool_name, config)->0 as nat;
            &&& cleaned_result(r, config, dups).content matches Some(v) && content_text(v) == Some(
                truncated(text, limit),
            )
            &&& r.content->0 is Text && byte_count(text) <= limit ==> cleaned_result(
                r,
                config,
                dups,
            ).content == r.content
        }),
{
    let v = r.content->0;
    let t = truncated(content_text(v)->0, byte_limit(r.tool_name, config)->0 as nat);
    let w = rewrapped(v, t);
    assert(cleaned_result(r, config, dups).content == Some(w));
    if v.member("Text"@) is Some {
        assert(w.member("Text"@) == Some(Json::Text(t)));
    }
}

/// Where outputs are stripped, only skipped tools keep theirs.
pub proof fn law_outputs_are_stripped(
    r: ToolResultModel,
    config: CleanConfig,
    dups: Set<Seq<char>>,
)
    requires
        config.strip_tool_output,
        !config.skips(r.tool_name),
    ensures
        cleaned_result(r, config, dups).output is None,
{
}

/// Every file that is read is read a last time, and that read is the only one
/// of the file that no other supersedes.
pub proof fn law_one_read_per_path_stays(reads: Seq<FileRead>, i: int)
    requires
        0 <= i < reads.len(),
    ensures
        exists|j: int|
            i <= j < reads.len() && (#[trigger] reads[j]).0 == reads[i].0 && !is_superseded(
                reads,
                j,
            ),
        forall|j: int|
            0 <= j < reads.len() && j != i && (#[trigger] reads[j]).0 == reads[i].0
                && !is_superseded(reads, j) ==> is_superseded(reads, i),
    decreases reads.len() - i,
{
    if is_superseded(reads, i) {
        let j = choose|j: int| i < j < reads.len() && (#[trigger] reads[j]).0 == reads[i].0;
        law_one_read_per_path_stays(reads, j);
        let k = choose|k: int|
            j <= k < reads.len() && (#[trigger] reads[k]).0 == reads[j].0 && !is_superseded(
                reads,
                k,
            );
        assert(reads[k].0 == reads[i].0);
    } else {
        assert(reads[i].0 == reads[i].0);
        assert forall|j: int|
            0 <= j < reads.len() && j != i && (#[trigger] reads[j]).0 == reads[i].0
                && !is_superseded(reads, j) implies is_superseded(reads, i) by {
            if j < i {
                assert(reads[i].0 == reads[j].0);
            }
        }
    }
}

/// Where no two reads have one id, a result is replaced by the notice exactly
/// if a later read of the same file follows.
pub proof fn law_superseded_reads_go(reads: Seq<FileRead>, i: int)
    requires
        0 <= i < reads.len(),
        forall|j: int, k: int|
            0 <= j < k < reads.len() ==> (#[trigger] reads[j]).1 != (#[trigger] reads[k]).1,
    ensures
        superseded_ids(reads).contains(reads[i].1) <==> is_superseded(reads, i),
{
    if superseded_ids(reads).contains(reads[i].1) {
        let j = choose|j: int|
            0 <= j < reads.len() && (#[trigger] reads[j]).1 == reads[i].1 && is_superseded(
                reads,
                j,
            );
        assert(reads[j].1 == reads[i].1);
    }
}

/// The result of a superseded file read holds the notice and no output.
pub proof fn law_superseded_results_hold_the_notice(
    r: ToolResultModel,
    config: CleanConfig,
    dups: Set<Seq<char>>,
)
    requires
        dups.contains(r.tool_use_id),
        !config.skips(r.tool_name),
    ensures
        cleaned_result(r, config, dups).content == Some(Json::Text(duplicate_notice())),
        cleaned_result(r, config, dups).output is None,
{
}

proof fn lemma_kept_usage(usage: Seq<(Seq<char>, TokenUsage)>, ids: Set<Seq<char>>)
    ensures
        forall|k: int|
            0 <= k < kept_usage(usage, ids).len() ==> ids.contains(
                (#[trigger] kept_usage(usage, ids)[k]).0,
            ) && usage.contains(kept_usage(usage, ids)[k]),
        forall|i: int|
            0 <= i < usage.len() && ids.contains((#[trigger] usage[i]).0) ==> kept_usage(
                usage,
                ids,
            ).contains(usage[i]),
    decreases usage.len(),
{
    if usage.len() > 0 {
        let rest = usage.drop_last();
        let before = kept_usage(rest, ids);
        let kept = kept_usage(usage, ids);
        lemma_kept_usage(rest, ids);
        assert forall|k: int| 0 <= k < kept.len() implies ids.contains((#[trigger] kept[k]).0)
            && usage.contains(kept[k]) by {
            if k < before.len() {
                assert(before[k] == kept[k]);
                let i = choose|i: int| 0 <= i < rest.len() && rest[i] == kept[k];
                assert(usage[i] == kept[k]);
            } else {
                assert(usage[usage.len() - 1] == kept[k]);
            }
        }
        assert forall|i: int| 0 <= i < usage.len() && ids.contains((#[trigger] usage[i]).0) implies
            kept.contains(usage[i]) by {
            if i < rest.len() {
                assert(rest[i] == usage[i]);
                let k = choose|k: int| 0 <= k < before.len() && before[k] == usage[i];
                assert(kept[k] == usage[i]);
            } else {
                assert(kept[kept.len() - 1] == usage[i]);
            }
        }
    }
}

/// The token usage that a cleanup keeps is that of the requests whose User
/// message the thread has, and the cumulative usage is its sum; neither is
/// ever absent.
pub proof fn law_usage_is_that_of_the_messages(t: ThreadModel, config: CleanConfig, e: (
    Seq<char>,
    TokenUsage,
))
    ensures
        cleaned_thread(t, config).request_token_usage matches Some(usage) && {
            &&& usage.contains(e) <==> {
                &&& t.request_token_usage is Some
                &&& t.request_token_usage->0.contains(e)
                &&& user_ids(t.messages).contains(e.0)
            }
            &&& cleaned_thread(t, config).cumulative_token_usage == Some(
                totals_record(usage_totals(usage)),
            )
        },
{
    law_user_messages_stay(t.messages, config);
    let ids = user_ids(t.messages);
    let kept = usage_of(t, cleaned_messages(t.messages, config));
    if let Some(usage) = t.request_token_usage {
        assert(kept == kept_usage(usage, ids));
        lemma_kept_usage(usage, ids);
        if kept.contains(e) {
            let k = choose|k: int| 0 <= k < kept.len() && kept[k] == e;
            assert(ids.contains(kept[k].0));
        }
        if usage.contains(e) && ids.contains(e.0) {
            let i = choose|i: int| 0 <= i < usage.len() && usage[i] == e;
            assert(kept.contains(usage[i]));
        }
    }
}

/// A cleanup drops the project snapshot and leaves the rest of the thread's
/// data, beside the messages and the token usage, as it was.
pub proof fn law_other_fields_stay(t: ThreadModel, config: CleanConfig)
    ensures
        cleaned_thread(t, config).initial_project_snapshot is None,
        cleaned_thread(t, config) == (ThreadModel {
            messages: cleaned_thread(t, config).messages,
            initial_project_snapshot: None,
            cumulative_token_usage: cleaned_thread(t, config).cumulative_token_usage,
            request_token_usage: cleaned_thread(t, config).request_token_usage,
            ..t
        }),
{
}

proof fn lemma_fitting(s: Seq<char>, max: int)
    requires
        0 <= max < byte_count(s),
    ensures
        fitting_chars(s, max) < s.len(),
        byte_count(s.take(fitting_chars(s, max) as int)) <= max,
        byte_count(s.take(fitting_chars(s, max) as int + 1)) > max,
    decreases s.len(),
{
    let w = char_width(s[0]) as int;
    let rest = s.drop_first();
    assert(s.len() > 0);
    if w > max {
        assert(s.take(0) =~= Seq::<char>::empty());
        assert(s.take(1).drop_first() =~= Seq::<char>::empty());
        assert(s.take(1)[0] == s[0]);
    } else {
        lemma_fitting(rest, max - w);
        let k = fitting_chars(rest, max - w) as int;
        assert(s.take(k + 1).drop_first() =~= rest.take(k));
        assert(s.take(k + 1)[0] == s[0]);
        assert(s.take(k + 2).drop_first() =~= rest.take(k + 1));
        assert(s.take(k + 2)[0] == s[0]);
    }
}

/// A text that fits stays as it is. Of a longer one the longest prefix of
/// whole characters that fits is kept, and the notice gives the number of
/// bytes that are missing.
pub proof fn law_truncation_keeps_the_longest_prefix(s: Seq<char>, max: nat)
    ensures
        byte_count(s) <= max ==> truncated(s, max) == s,
        byte_count(s) > max ==> {
            let k = fitting_chars(s, max as int) as int;
            &&& 0 <= k < s.len()
            &&& byte_count(s.take(k)) <= max < byte_count(s.take(k + 1))
            &&& truncated(s, max) == s.take(k) + truncation_notice(
                (byte_count(s) - byte_count(s.take(k))) as nat,
            )
        },
{
    if byte_count(s) > max {
        lemma_fitting(s, max as int);
    }
}

/// A truncated text is longer than the limit by its notice at most.
pub proof fn law_truncation_bounds_the_size(s: Seq<char>, max: nat)
    requires
        byte_count(s) > max,
    ensures
        byte_count(truncated(s, max)) <= max + byte_count(
            truncation_notice(
                (byte_count(s) - byte_count(s.take(fitting_chars(s, max as int) as int))) as nat,
            ),
        ),
{
    lemma_fitting(s, max as int);
    let kept = s.take(fitting_chars(s, max as int) as int);
    crate::text::lemma_encode_concat(
        kept,
        truncation_notice((byte_count(s) - byte_count(kept)) as nat),
    );
}

/// Keeping more dialogs protects at least the same messages.
pub proof fn law_more_kept_dialogs_protect_more(m: Seq<MessageModel>, few: nat, many: nat)
    requires
        few <= many,
    ensures
        protected_zone(m, few).subset_of(protected_zone(m, many)),
{
}

/// Where no dialog is kept, no message is protected.
pub proof fn law_nothing_kept_protects_nothing(m: Seq<MessageModel>)
    ensures
        protected_zone(m, 0) == Set::<usize>::empty(),
{
    assert(protected_zone(m, 0) =~= Set::<usize>::empty());
}

/// A protected message stands in a pair of a User message and the Agent
/// message right behind it, both of which are protected.
pub proof fn law_protected_messages_come_in_pairs(m: Seq<MessageModel>, keep: nat, i: int)
    requires
        is_protected(m, keep, i),
    ensures
        m[i] is User ==> is_protected(m, keep, i + 1) && m[i + 1] is Agent,
        m[i] is Agent ==> is_protected(m, keep, i - 1) && m[i - 1] is User,
        m[i] is User || m[i] is Agent,
{
    if is_kept_dialog(m, keep, i) {
        assert(is_kept_dialog(m, keep, (i + 1) - 1));
    } else {
        assert(is_kept_dialog(m, keep, i - 1));
    }
}

/// The protected dialogs are the last ones: behind a protected dialog each
/// dialog is protected too.
pub proof fn law_protected_dialogs_are_the_last(
    m: Seq<MessageModel>,
    keep: nat,
    i: int,
    j: int,
)
    requires
        is_kept_dialog(m, keep, i),
        i <= j,
        is_dialog(m, j),
    ensures
        is_kept_dialog(m, keep, j),
    decreases j - i,
{
    lemma_dialogs_shrink(m, i, j);
}

proof fn lemma_dialogs_shrink(m: Seq<MessageModel>, i: int, j: int)
    requires
        i <= j,
    ensures
        dialogs_from(m, j) <= dialogs_from(m, i),
    decreases j - i,
{
    if i < j {
        lemma_dialogs_shrink(m, i + 1, j);
    }
}

/// The sum of a figure over a list of names.
pub open spec fn sum_over(names: Seq<Seq<char>>, figure: spec_fn(Seq<char>) -> nat) -> nat
    decreases names.len(),
{
    if names.len() == 0 {
        0
    } else {
        sum_over(names.drop_last(), figure) + figure(names.last())
    }
}

/// The names of a list of entries.
pub open spec fn names_of<T>(s: Seq<(Seq<char>, T)>) -> Seq<Seq<char>> {
    Seq::new(s.len(), |i: int| s[i].0)
}

proof fn lemma_sum_same(
    names: Seq<Seq<char>>,
    f: spec_fn(Seq<char>) -> nat,
    g: spec_fn(Seq<char>) -> nat,
)
    requires
        forall|i: int| 0 <= i < names.len() ==> f(#[trigger] names[i]) == g(names[i]),
    ensures
        sum_over(names, f) == sum_over(names, g),
    decreases names.len(),
{
    if names.len() > 0 {
        assert forall|i: int| 0 <= i < names.len() - 1 implies f(
            #[trigger] names.drop_last()[i],
        ) == g(names.drop_last()[i]) by {
            assert(names.drop_last()[i] == names[i]);
        }
        lemma_sum_same(names.drop_last(), f, g);
        assert(names[names.len() - 1] == names.last());
    }
}

/// A figure that is larger at one name only makes the sum larger by as much.
proof fn lemma_sum_one_larger(
    names: Seq<Seq<char>>,
    f: spec_fn(Seq<char>) -> nat,
    g: spec_fn(Seq<char>) -> nat,
    at: int,
    by: nat,
)
    requires
        0 <= at < names.len(),
        names.no_duplicates(),
        forall|i: int|
            0 <= i < names.len() && i != at ==> f(#[trigger] names[i]) == g(names[i]),
        g(names[at]) == f(names[at]) + by,
    ensures
        sum_over(names, g) == sum_over(names, f) + by,
    decreases names.len(),
{
    let rest = names.drop_last();
    assert forall|i: int| 0 <= i < rest.len() && i != at implies f(#[trigger] rest[i]) == g(
        rest[i],
    ) by {
        assert(rest[i] == names[i]);
    }
    if at == names.len() - 1 {
        lemma_sum_same(rest, f, g);
    } else {
        assert(rest[at] == names[at]);
        assert(rest.no_duplicates());
        lemma_sum_one_larger(rest, f, g, at, by);
        assert(names[names.len() - 1] == names.last());
    }
}

proof fn lemma_figures_add_up(names: Seq<Seq<char>>, f: Seq<ResultFigure>)
    requires
        names.no_duplicates(),
        forall|tool: Seq<char>| #[trigger] has_figure(f, tool) ==> names.contains(tool),
    ensures
        sum_over(names, |tool: Seq<char>| category(f, tool).total_bytes) == figure_bytes(f),
        sum_over(names, |tool: Seq<char>| category(f, tool).count) == f.len(),
    decreases f.len(),
{
    let bytes = |tool: Seq<char>| category(f, tool).total_bytes;
    let count = |tool: Seq<char>| category(f, tool).count;
    if f.len() == 0 {
        let zero = |tool: Seq<char>| 0nat;
        lemma_sum_same(names, bytes, zero);
        lemma_sum_same(names, count, zero);
        lemma_sum_zero(names);
    } else {
        let rest = f.drop_last();
        let x = f.last();
        assert forall|tool: Seq<char>| #[trigger] has_figure(rest, tool) implies names.contains(
            tool,
        ) by {
            let i = choose|i: int| 0 <= i < rest.len() && (#[trigger] rest[i]).tool == tool;
            assert(f[i].tool == tool);
            assert(has_figure(f, tool));
        }
        lemma_figures_add_up(names, rest);
        assert(f[f.len() - 1].tool == x.tool);
        assert(has_figure(f, x.tool));
        let at = choose|at: int| 0 <= at < names.len() && names[at] == x.tool;
        lemma_sum_one_larger(
            names,
            |tool: Seq<char>| category(rest, tool).total_bytes,
            bytes,
            at,
            x.bytes,
        );
        lemma_sum_one_larger(
            names,
            |tool: Seq<char>| category(rest, tool).count,
            count,
            at,
            1,
        );
    }
}

proof fn lemma_sum_zero(names: Seq<Seq<char>>)
    ensures
        sum_over(names, |name: Seq<char>| 0nat) == 0,
    decreases names.len(),
{
    if names.len() > 0 {
        lemma_sum_zero(names.drop_last());
    }
}

proof fn lemma_names_distinct<T>(s: Seq<(Seq<char>, T)>)
    requires
        keys_distinct(s),
    ensures
        names_of(s).no_duplicates(),
{
    assert forall|i: int, j: int|
        0 <= i < names_of(s).len() && 0 <= j < names_of(s).len() && i != j implies names_of(s)[i]
        != names_of(s)[j] by {
        if i < j {
            assert(s[i].0 != s[j].0);
        } else {
            assert(s[j].0 != s[i].0);
        }
    }
}

/// The rows of an analysis add up: their sizes give the size of all tool
/// results, and their counts the number of tool results.
pub proof fn law_categories_add_up(
    rows: Seq<(Seq<char>, CategoryModel)>,
    f: Seq<ResultFigure>,
)
    requires
        categorizes(rows, f),
    ensures
        sum_over(names_of(rows), |tool: Seq<char>| category(f, tool).total_bytes) == figure_bytes(
            f,
        ),
        sum_over(names_of(rows), |tool: Seq<char>| category(f, tool).count) == f.len(),
{
    lemma_names_distinct(rows);
    assert forall|tool: Seq<char>| #[trigger] has_figure(f, tool) implies names_of(rows).contains(
        tool,
    ) by {
        assert(has_key(rows, tool));
        let i = choose|i: int| 0 <= i < rows.len() && (#[trigger] rows[i]).0 == tool;
        assert(names_of(rows)[i] == tool);
    }
    lemma_figures_add_up(names_of(rows), f);
}

/// Within one tool, no result is larger than all together and no more results
/// are protected than there are. Where all are protected, a cleanup saves
/// nothing.
pub proof fn law_category_figures_agree(f: Seq<ResultFigure>, tool: Seq<char>)
    ensures
        category(f, tool).max_bytes <= category(f, tool).total_bytes,
        category(f, tool).in_protected <= category(f, tool).count,
        category(f, tool).in_protected == category(f, tool).count ==> category(
            f,
            tool,
        ).cleanable_bytes == 0,
        category(f, tool).count > 0 <==> has_figure(f, tool),
    decreases f.len(),
{
    if f.len() > 0 {
        let rest = f.drop_last();
        law_category_figures_agree(rest, tool);
        if f.last().tool == tool {
            assert(f[f.len() - 1].tool == tool);
        }
        if has_figure(rest, tool) {
            let i = choose|i: int| 0 <= i < rest.len() && (#[trigger] rest[i]).tool == tool;
            assert(f[i].tool == tool);
        }
        if has_figure(f, tool) && f.last().tool != tool {
            let i = choose|i: int| 0 <= i < f.len() && (#[trigger] f[i]).tool == tool;
            assert(rest[i].tool == tool);
        }
    }
}

proof fn lemma_calls_add_up(distinct: Seq<Seq<char>>, names: Seq<Seq<char>>)
    requires
        distinct.no_duplicates(),
        forall|name: Seq<char>| #[trigger] names.contains(name) ==> distinct.contains(name),
    ensures
        sum_over(distinct, |name: Seq<char>| occurrences(names, name)) == names.len(),
    decreases names.len(),
{
    let count = |name: Seq<char>| occurrences(names, name);
    if names.len() == 0 {
        lemma_sum_same(distinct, count, |name: Seq<char>| 0nat);
        lemma_sum_zero(distinct);
    } else {
        let rest = names.drop_last();
        assert forall|name: Seq<char>| #[trigger] rest.contains(name) implies distinct.contains(
            name,
        ) by {
            let i = choose|i: int| 0 <= i < rest.len() && rest[i] == name;
            assert(names[i] == name);
            assert(names.contains(name));
        }
        lemma_calls_add_up(distinct, rest);
        assert(names[names.len() - 1] == names.last());
        assert(names.contains(names.last()));
        let at = choose|at: int| 0 <= at < distinct.len() && distinct[at] == names.last();
        lemma_sum_one_larger(
            distinct,
            |name: Seq<char>| occurrences(rest, name),
            count,
            at,
            1,
        );
    }
}

/// The counts of the tool calls add up to the number of tool calls.
pub proof fn law_call_counts_add_up(counts: Seq<(Seq<char>, nat)>, names: Seq<Seq<char>>)
    requires
        counts_names(counts, names),
    ensures
        sum_over(names_of(counts), |name: Seq<char>| occurrences(names, name)) == names.len(),
{
    lemma_names_distinct(counts);
    assert forall|name: Seq<char>| #[trigger] names.contains(name) implies names_of(
        counts,
    ).contains(name) by {
        assert(has_key(counts, name));
        let i = choose|i: int| 0 <= i < counts.len() && (#[trigger] counts[i]).0 == name;
        assert(names_of(counts)[i] == name);
    }
    lemma_calls_add_up(names_of(counts), names);
}

/// User and Agent messages together never exceed the messages, and each User
/// message has its id.
pub proof fn law_message_counts_agree(m: Seq<MessageModel>)
    ensures
        user_count(m) + agent_count(m) <= m.len(),
        user_count(m) == user_id_list(m).len(),
    decreases m.len(),
{
    if m.len() > 0 {
        law_message_counts_agree(m.drop_last());
    }
}

/// A cleanup does not change the type of a thread.
pub proof fn law_the_type_stays(t: ThreadModel, config: CleanConfig)
    ensures
        thread_type(cleaned_thread(t, config)) == thread_type(t),
{
}

/// A thread is listed exactly if it passes search and filter, and the order of
/// the list is that of the threads.
pub proof fn law_the_list_shows_what_passes(
    threads: Seq<ThreadMeta>,
    search: Seq<char>,
    filter: ThreadFilter,
    cache: Seq<(Seq<char>, Seq<char>)>,
)
    requires
        threads.len() <= usize::MAX,
    ensures
        forall|i: usize|
            #![trigger listed_places(threads, search, filter, cache).contains(i)]
            listed_places(threads, search, filter, cache).contains(i) <==> i < threads.len()
                && is_listed(threads[i as int], search, filter, cache),
        forall|k: int, l: int|
            0 <= k < l < listed_places(threads, search, filter, cache).len() ==> listed_places(
                threads,
                search,
                filter,
                cache,
            )[k] < listed_places(threads, search, filter, cache)[l],
    decreases threads.len(),
{
    let places = listed_places(threads, search, filter, cache);
    if threads.len() > 0 {
        let rest = threads.drop_last();
        let before = listed_places(rest, search, filter, cache);
        let last = (threads.len() - 1) as usize;
        law_the_list_shows_what_passes(rest, search, filter, cache);
        assert forall|i: usize| #[trigger] places.contains(i) <==> i < threads.len() && is_listed(
            threads[i as int],
            search,
            filter,
            cache,
        ) by {
            if before.contains(i) {
                let k = choose|k: int| 0 <= k < before.len() && before[k] == i;
                assert(places[k] == i);
                assert(rest[i as int] == threads[i as int]);
            }
            if places.contains(i) {
                let k = choose|k: int| 0 <= k < places.len() && places[k] == i;
                if k < before.len() {
                    assert(before[k] == i);
                    assert(before.contains(i));
                }
            }
            if i < last {
                assert(rest[i as int] == threads[i as int]);
            }
            if i == last && is_listed(threads[last as int], search, filter, cache) {
                assert(places[places.len() - 1] == last);
            }
        }
        assert forall|k: int, l: int| 0 <= k < l < places.len() implies places[k] < places[l] by {
            assert(places[k] == before[k]);
            assert(before.contains(before[k]));
            if l < before.len() {
                assert(places[l] == before[l]);
            }
        }
    }
}

/// A title means exactly the threads that have the query in their title,
/// letter case aside, in the order of the threads.
pub proof fn law_a_title_means_what_matches(threads: Seq<ThreadMeta>, query: Seq<char>)
    requires
        threads.len() <= usize::MAX,
    ensures
        forall|i: usize|
            #![trigger title_hits(threads, query).contains(i)]
            title_hits(threads, query).contains(i) <==> i < threads.len() && occurs(
                lowercase(threads[i as int].summary@),
                lowercase(query),
            ),
        forall|k: int, l: int|
            0 <= k < l < title_hits(threads, query).len() ==> title_hits(threads, query)[k]
                < title_hits(threads, query)[l],
    decreases threads.len(),
{
    let hits = title_hits(threads, query);
    if threads.len() > 0 {
        let rest = threads.drop_last();
        let before = title_hits(rest, query);
        let last = (threads.len() - 1) as usize;
        law_a_title_means_what_matches(rest, query);
        assert forall|i: usize| #[trigger] hits.contains(i) <==> i < threads.len() && occurs(
            lowercase(threads[i as int].summary@),
            lowercase(query),
        ) by {
            if before.contains(i) {
                let k = choose|k: int| 0 <= k < before.len() && before[k] == i;
                assert(hits[k] == i);
                assert(rest[i as int] == threads[i as int]);
            }
            if hits.contains(i) {
                let k = choose|k: int| 0 <= k < hits.len() && hits[k] == i;
                if k < before.len() {
                    assert(before[k] == i);
                    assert(before.contains(i));
                }
            }
            if i < last {
                assert(rest[i as int] == threads[i as int]);
            }
            if i == last && occurs(lowercase(threads[last as int].summary@), lowercase(query)) {
                assert(hits[hits.len() - 1] == last);
            }
        }
        assert forall|k: int, l: int| 0 <= k < l < hits.len() implies hits[k] < hits[l] by {
            assert(hits[k] == before[k]);
            assert(before.contains(before[k]));
            if l < before.len() {
                assert(hits[l] == before[l]);
            }
        }
    }
}

proof fn lemma_same_kinds_same_dialogs(a: Seq<MessageModel>, b: Seq<MessageModel>, i: int)
    requires
        a.len() == b.len(),
        forall|j: int|
            0 <= j < a.len() ==> ((#[trigger] a[j]) is User <==> b[j] is User) && (a[j] is Agent
                <==> b[j] is Agent),
    ensures
        is_dialog(a, i) <==> is_dialog(b, i),
        i >= 0 ==> dialogs_from(a, i) == dialogs_from(b, i),
    decreases a.len() - i,
{
    if 0 <= i && i + 1 < a.len() {
        assert(a[i] is User <==> b[i] is User);
        assert(a[i + 1] is Agent <==> b[i + 1] is Agent);
    }
    if 0 <= i < a.len() {
        lemma_same_kinds_same_dialogs(a, b, i + 1);
    }
}

/// Unless tool-only messages are removed, the same messages are protected in
/// the cleaned thread.
pub proof fn law_the_protected_zone_stays(m: Seq<MessageModel>, config: CleanConfig, keep: nat)
    requires
        !config.remove_tool_only_messages,
    ensures
        protected_zone(cleaned_messages(m, config), keep) == protected_zone(m, keep),
{
    let after = cleaned_messages(m, config);
    let zone = protected_zone(m, config.keep_last_n_dialogs as nat);
    let dups = superseded_ids(file_reads(m, zone));
    lemma_all_survive(m, zone, config, dups, m.len() as int);
    assert forall|j: int| 0 <= j < after.len() implies ((#[trigger] after[j]) is User <==> m[j]
        is User) && (after[j] is Agent <==> m[j] is Agent) by {
        law_every_message_keeps_its_place(m, config, j);
    }
    assert forall|i: usize|
        protected_zone(after, keep).contains(i) == protected_zone(m, keep).contains(i) by {
        lemma_same_kinds_same_dialogs(after, m, i as int);
        lemma_same_kinds_same_dialogs(after, m, i - 1);
    }
    assert(protected_zone(after, keep) =~= protected_zone(m, keep));
}

/// A cleanup does not change the number of User messages.
pub proof fn law_user_counts_stay(m: Seq<MessageModel>, config: CleanConfig)
    ensures
        user_count(cleaned_messages(m, config)) == user_count(m),
{
    law_message_counts_agree(m);
    law_message_counts_agree(cleaned_messages(m, config));
    law_user_messages_stay(m, config);
}

proof fn lemma_no_thinking_in_blocks(c: Seq<AgentContentModel>, strip: bool)
    ensures
        block_sizes(cleaned_blocks(c, strip)).thinking == 0,
    decreases c.len(),
{
    if c.len() > 0 {
        lemma_no_thinking_in_blocks(c.drop_last(), strip);
        if let Some(block) = cleaned_block(c.last(), strip) {
            let after = cleaned_blocks(c, strip);
            assert(after.drop_last() =~= cleaned_blocks(c.drop_last(), strip));
            assert(after.last() == block);
        }
    }
}

proof fn lemma_no_thinking_after(
    m: Seq<MessageModel>,
    config: CleanConfig,
    dups: Set<Seq<char>>,
    n: int,
)
    requires
        0 <= n <= m.len(),
    ensures
        thread_sizes(messages_after(m, n, Set::empty(), config, dups)).thinking == 0,
    decreases n,
{
    if n > 0 {
        lemma_no_thinking_after(m, config, dups, n - 1);
        let before = messages_after(m, n - 1, Set::empty(), config, dups);
        let after = messages_after(m, n, Set::empty(), config, dups);
        if let Some(x) = message_after(m, n - 1, Set::empty(), config, dups) {
            assert(after.drop_last() =~= before);
            assert(after.last() == x);
            if let MessageModel::Agent(a) = m[n - 1] {
                lemma_no_thinking_in_blocks(a.content, config.strip_tool_inputs);
            }
        }
    }
}

/// Where no dialog is kept, the statistics of the cleaned thread find no byte
/// of thinking.
pub proof fn law_no_thinking_is_counted_after(m: Seq<MessageModel>, config: CleanConfig)
    requires
        config.keep_last_n_dialogs == 0,
    ensures
        thread_sizes(cleaned_messages(m, config)).thinking == 0,
{
    law_nothing_kept_protects_nothing(m);
    lemma_no_thinking_after(m, config, superseded_ids(file_reads(m, Set::empty())), m.len() as int);
}

proof fn lemma_text_sizes_stay(c: Seq<AgentContentModel>, strip: bool)
    ensures
        block_sizes(cleaned_blocks(c, strip)).text == block_sizes(c).text,
        block_sizes(without_redacted(c)).text == block_sizes(c).text,
    decreases c.len(),
{
    if c.len() > 0 {
        lemma_text_sizes_stay(c.drop_last(), strip);
        if let Some(block) = cleaned_block(c.last(), strip) {
            let after = cleaned_blocks(c, strip);
            assert(after.drop_last() =~= cleaned_blocks(c.drop_last(), strip));
            assert(after.last() == block);
        }
        if !(c.last() is RedactedThinking) {
            let after = without_redacted(c);
            assert(after.drop_last() =~= without_redacted(c.drop_last()));
            assert(after.last() == c.last());
        }
    }
}

proof fn lemma_no_text_no_size(c: Seq<AgentContentModel>)
    requires
        !has_text(c),
    ensures
        block_sizes(c).text == 0,
    decreases c.len(),
{
    if c.len() > 0 {
        assert(!(c[c.len() - 1] is Text));
        if has_text(c.drop_last()) {
            let i = choose|i: int| 0 <= i < c.len() - 1 && (#[trigger] c.drop_last()[i]) is Text;
            assert(c[i] is Text);
        }
        lemma_no_text_no_size(c.drop_last());
    }
}

proof fn lemma_agent_text_after(
    m: Seq<MessageModel>,
    zone: Set<usize>,
    config: CleanConfig,
    dups: Set<Seq<char>>,
    n: int,
)
    requires
        0 <= n <= m.len(),
    ensures
        thread_sizes(messages_after(m, n, zone, config, dups)).agent_text == thread_sizes(
            m.take(n),
        ).agent_text,
    decreases n,
{
    if n == 0 {
        assert(m.take(0) =~= Seq::<MessageModel>::empty());
    } else {
        lemma_agent_text_after(m, zone, config, dups, n - 1);
        let before = messages_after(m, n - 1, zone, config, dups);
        let after = messages_after(m, n, zone, config, dups);
        assert(m.take(n).drop_last() =~= m.take(n - 1));
        assert(m.take(n).last() == m[n - 1]);
        if let Some(x) = message_after(m, n - 1, zone, config, dups) {
            assert(after.drop_last() =~= before);
            assert(after.last() == x);
        }
        if let MessageModel::Agent(a) = m[n - 1] {
            lemma_text_sizes_stay(a.content, config.strip_tool_inputs);
            if !has_text(a.content) {
                lemma_no_text_no_size(a.content);
            }
        }
    }
}

/// The agent's text takes as many bytes after a cleanup as before: what is
/// removed holds none.
pub proof fn law_agent_text_stays(m: Seq<MessageModel>, config: CleanConfig)
    ensures
        thread_sizes(cleaned_messages(m, config)).agent_text == thread_sizes(m).agent_text,
{
    let zone = protected_zone(m, config.keep_last_n_dialogs as nat);
    lemma_agent_text_after(
        m,
        zone,
        config,
        superseded_ids(file_reads(m, zone)),
        m.len() as int,
    );
    assert(m.take(m.len() as int) =~= m);
}

} // verus!
