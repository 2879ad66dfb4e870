//! The cleanup of a whole thread.
use crate::agent::{
    clean_agent_message, cleaned_agent, drop_redacted_thinking, has_text, responds_with_text,
    without_redacted,
};
use crate::attachments::{clean_user_message, cleaned_user};
use crate::config::CleanConfig;
use crate::dedup::{compute_duplicate_read_file_ids, file_reads, superseded_ids};
use crate::duplicate::{duplicate_opt, opt_view, seq_views, Duplicate};
use crate::protect::{compute_protected_indices, protected_zone};
use crate::str_map::StrMap;
use crate::types::{AgentModel, DbThread, Message, MessageModel, ThreadModel, TokenUsage};
use crate::usage::{
    filter_usage, kept_usage, recalculate_cumulative, sum_usage, totals_record, usage_totals,
};
use std::collections::HashSet;
use vstd::hash_set::StringHashSet;
use vstd::prelude::*;

verus! {

/// A protected message after cleanup: as it was, but for redacted thinking
/// where the settings remove it everywhere.
pub open spec fn kept_message(m: MessageModel, config: CleanConfig) -> MessageModel {
    match m {
        MessageModel::Agent(a) => if config.fix_redacted_thinking {
            MessageModel::Agent(AgentModel { content: without_redacted(a.content), ..a })
        } else {
            m
        },
        _ => m,
    }
}

/// A message outside the protected zone after cleanup, or `None` where it is
/// removed.
pub open spec fn cleaned_message(
    m: MessageModel,
    config: CleanConfig,
    dups: Set<Seq<char>>,
) -> Option<MessageModel> {
    match m {
        MessageModel::User(u) => if config.remove_large_images {
            Some(MessageModel::User(cleaned_user(u, config.large_image_threshold as nat)))
        } else {
            Some(m)
        },
        MessageModel::Agent(a) => if config.remove_tool_only_messages && !has_text(a.content) {
            None
        } else {
            Some(MessageModel::Agent(cleaned_agent(a, config, dups)))
        },
        MessageModel::Other(_) => Some(m),
    }
}

/// The message at `i` of a thread after cleanup.
pub open spec fn message_after(
    m: Seq<MessageModel>,
    i: int,
    zone: Set<usize>,
    config: CleanConfig,
    dups: Set<Seq<char>>,
) -> Option<MessageModel> {
    if zone.contains(i as usize) {
        Some(kept_message(m[i], config))
    } else {
        cleaned_message(m[i], config, dups)
    }
}

/// The first `n` messages of a thread after cleanup.
pub open spec fn messages_after(
    m: Seq<MessageModel>,
    n: int,
    zone: Set<usize>,
    config: CleanConfig,
    dups: Set<Seq<char>>,
) -> Seq<MessageModel>
    decreases n,
{
    if n <= 0 {
        Seq::empty()
    } else {
        let before = messages_after(m, n - 1, zone, config, dups);
        match message_after(m, n - 1, zone, config, dups) {
            Some(x) => before.push(x),
            None => before,
        }
    }
}

/// The ids of the User messages.
pub open spec fn user_ids(m: Seq<MessageModel>) -> Set<Seq<char>> {
    Set::new(
        |id: Seq<char>|
            exists|i: int|
                0 <= i < m.len() && (#[trigger] m[i]) is User && m[i]->User_0.id == id,
    )
}

/// The ids of the User messages, in order.
pub open spec fn user_id_list(m: Seq<MessageModel>) -> Seq<Seq<char>>
    decreases m.len(),
{
    if m.len() == 0 {
        Seq::empty()
    } else {
        match m.last() {
            MessageModel::User(u) => user_id_list(m.drop_last()).push(u.id),
            _ => user_id_list(m.drop_last()),
        }
    }
}

/// The messages of a thread after cleanup.
pub open spec fn cleaned_messages(m: Seq<MessageModel>, config: CleanConfig) -> Seq<MessageModel> {
    let zone = protected_zone(m, config.keep_last_n_dialogs as nat);
    messages_after(m, m.len() as int, zone, config, superseded_ids(file_reads(m, zone)))
}

/// The token usage of the requests that have a User message among `m`.
pub open spec fn usage_of(t: ThreadModel, m: Seq<MessageModel>) -> Seq<(Seq<char>, TokenUsage)> {
    match t.request_token_usage {
        Some(usage) => kept_usage(usage, user_ids(m)),
        None => Seq::empty(),
    }
}

/// Whether the token usage that a cleanup sums up fits in 64 bits.
pub open spec fn usage_fits(t: ThreadModel) -> bool {
    usage_totals(usage_of(t, t.messages)).fits()
}

/// A thread after cleanup.
pub open spec fn cleaned_thread(t: ThreadModel, config: CleanConfig) -> ThreadModel {
    let messages = cleaned_messages(t.messages, config);
    let usage = usage_of(t, messages);
    ThreadModel {
        messages,
        initial_project_snapshot: None,
        cumulative_token_usage: Some(totals_record(usage_totals(usage))),
        request_token_usage: Some(usage),
        ..t
    }
}

fn clean_message(msg: &Message, config: &CleanConfig, duplicate_ids: &StringHashSet) -> (r: Option<
    Message,
>)
    ensures
        opt_view(r) == cleaned_message(msg@, *config, duplicate_ids@),
{
    match msg {
        Message::User { user } => {
            if config.remove_large_images {
                Some(Message::User { user: clean_user_message(user, config) })
            } else {
                Some(msg.duplicate())
            }
        },
        Message::Agent { agent } => {
            if config.remove_tool_only_messages && !responds_with_text(agent) {
                None
            } else {
                Some(Message::Agent { agent: clean_agent_message(agent, config, duplicate_ids) })
            }
        },
        Message::Other(_) => Some(msg.duplicate()),
    }
}

fn keep_message(msg: &Message, config: &CleanConfig) -> (r: Message)
    ensures
        r@ == kept_message(msg@, *config),
{
    match msg {
        Message::Agent { agent } => {
            if config.fix_redacted_thinking {
                Message::Agent { agent: drop_redacted_thinking(agent) }
            } else {
                msg.duplicate()
            }
        },
        _ => msg.duplicate(),
    }
}

fn clean_messages(
    messages: &Vec<Message>,
    protected: &HashSet<usize>,
    config: &CleanConfig,
    duplicate_ids: &StringHashSet,
) -> (r: Vec<Message>)
    ensures
        seq_views(r@) == messages_after(
            seq_views(messages@),
            messages@.len() as int,
            protected@,
            *config,
            duplicate_ids@,
        ),
{
    broadcast use vstd::std_specs::hash::group_hash_axioms;

    let ghost m = seq_views(messages@);
    let mut out: Vec<Message> = Vec::new();
    let mut i: usize = 0;
    assert(seq_views(out@) =~= Seq::<MessageModel>::empty());
    while i < messages.len()
        invariant
            i <= messages@.len(),
            m == seq_views(messages@),
            seq_views(out@) == messages_after(m, i as int, protected@, *config, duplicate_ids@),
        decreases messages@.len() - i,
    {
        let ghost before = out@;
        assert(m[i as int] == messages@[i as int]@);
        if protected.contains(&i) {
            out.push(keep_message(&messages[i], config));
            assert(seq_views(out@) =~= seq_views(before).push(out@.last()@));
        } else {
            if let Some(msg) = clean_message(&messages[i], config, duplicate_ids) {
                out.push(msg);
                assert(seq_views(out@) =~= seq_views(before).push(msg@));
            }
        }
        i += 1;
    }
    out
}

/// The ids of the User messages.
pub fn collect_user_ids(messages: &Vec<Message>) -> (r: StringHashSet)
    ensures
        r@ == user_ids(seq_views(messages@)),
{
    let ghost m = seq_views(messages@);
    let mut ids = StringHashSet::new();
    let mut i: usize = 0;
    while i < messages.len()
        invariant
            i <= messages@.len(),
            m == seq_views(messages@),
            forall|id: Seq<char>| #[trigger]
                ids@.contains(id) <==> exists|j: int|
                    0 <= j < i && (#[trigger] m[j]) is User && m[j]->User_0.id == id,
        decreases messages@.len() - i,
    {
        let ghost before = ids@;
        assert(m[i as int] == messages@[i as int]@);
        if let Message::User { user } = &messages[i] {
            ids.insert(user.id.clone());
            assert(ids@ == before.insert(m[i as int]->User_0.id));
        }
        assert forall|id: Seq<char>| #[trigger] ids@.contains(id) <==> exists|j: int|
            0 <= j < i + 1 && (#[trigger] m[j]) is User && m[j]->User_0.id == id by {
            if before.contains(id) {
                let j = choose|j: int|
                    0 <= j < i && (#[trigger] m[j]) is User && m[j]->User_0.id == id;
                assert(m[j] is User && m[j]->User_0.id == id);
            } else if ids@.contains(id) {
                assert(m[i as int] is User && m[i as int]->User_0.id == id);
            }
        }
        i += 1;
    }
    assert(ids@ =~= user_ids(m));
    ids
}

proof fn lemma_user_ids_of_list(m: Seq<MessageModel>)
    ensures
        user_ids(m) == user_id_list(m).to_set(),
    decreases m.len(),
{
    let list = user_id_list(m);
    if m.len() > 0 {
        lemma_user_ids_of_list(m.drop_last());
        let before = user_id_list(m.drop_last());
        assert forall|id: Seq<char>| user_ids(m).contains(id) <==> list.contains(id) by {
            if user_ids(m).contains(id) {
                let i = choose|i: int|
                    0 <= i < m.len() && (#[trigger] m[i]) is User && m[i]->User_0.id == id;
                if i < m.len() - 1 {
                    assert(m.drop_last()[i] is User);
                    assert(user_ids(m.drop_last()).contains(id));
                    assert(before.to_set().contains(id));
                    let k = choose|k: int| 0 <= k < before.len() && before[k] == id;
                    assert(list[k] == id);
                } else {
                    assert(list[list.len() - 1] == id);
                }
            }
            if list.contains(id) {
                let k = choose|k: int| 0 <= k < list.len() && list[k] == id;
                if k < before.len() {
                    assert(before[k] == id);
                    assert(before.to_set().contains(id));
                    assert(user_ids(m.drop_last()).contains(id));
                    let i = choose|i: int|
                        0 <= i < m.len() - 1 && (#[trigger] m.drop_last()[i]) is User
                            && m.drop_last()[i]->User_0.id == id;
                    assert(m[i] is User && m[i]->User_0.id == id);
                } else {
                    assert(m[m.len() - 1] is User && m[m.len() - 1]->User_0.id == id);
                }
            }
        }
    } else {
        assert(forall|id: Seq<char>| !list.contains(id));
    }
    assert(user_ids(m) =~= list.to_set());
}

proof fn lemma_user_list_after(
    m: Seq<MessageModel>,
    n: int,
    zone: Set<usize>,
    config: CleanConfig,
    dups: Set<Seq<char>>,
)
    requires
        0 <= n <= m.len(),
    ensures
        user_id_list(messages_after(m, n, zone, config, dups)) == user_id_list(m.take(n)),
    decreases n,
{
    if n > 0 {
        lemma_user_list_after(m, n - 1, zone, config, dups);
        assert(m.take(n).drop_last() =~= m.take(n - 1));
        assert(m.take(n).last() == m[n - 1]);
        let before = messages_after(m, n - 1, zone, config, dups);
        let after = messages_after(m, n, zone, config, dups);
        if let Some(x) = message_after(m, n - 1, zone, config, dups) {
            assert(after.drop_last() =~= before);
            assert(after.last() == x);
        }
    }
}

/// A cleanup neither removes nor reorders User messages.
pub proof fn law_user_messages_stay(m: Seq<MessageModel>, config: CleanConfig)
    ensures
        user_id_list(cleaned_messages(m, config)) == user_id_list(m),
        user_ids(cleaned_messages(m, config)) == user_ids(m),
{
    let zone = protected_zone(m, config.keep_last_n_dialogs as nat);
    let dups = superseded_ids(file_reads(m, zone));
    lemma_user_list_after(m, m.len() as int, zone, config, dups);
    assert(m.take(m.len() as int) =~= m);
    lemma_user_ids_of_list(m);
    lemma_user_ids_of_list(cleaned_messages(m, config));
}

/// The token usage of the requests that have a User message among `messages`.
fn usage_of_messages(thread: &DbThread, messages: &Vec<Message>) -> (r: StrMap<TokenUsage>)
    ensures
        r@ == usage_of(thread@, seq_views(messages@)),
{
    match &thread.request_token_usage {
        Some(usage) => filter_usage(usage, &collect_user_ids(messages)),
        None => StrMap::new(),
    }
}

/// Cleans a thread: the last dialogs stay, everything before them is cut down
/// as the settings say, and the token usage is summed up anew.
pub fn clean_thread(thread: &DbThread, config: &CleanConfig) -> (r: DbThread)
    requires
        usage_fits(thread@),
    ensures
        r@ == cleaned_thread(thread@, *config),
{
    let protected = compute_protected_indices(
        thread.messages.as_slice(),
        config.keep_last_n_dialogs,
    );
    let duplicate_ids = compute_duplicate_read_file_ids(thread.messages.as_slice(), &protected);
    let messages = clean_messages(&thread.messages, &protected, config, &duplicate_ids);
    let usage = usage_of_messages(thread, &messages);
    proof {
        law_user_messages_stay(thread@.messages, *config);
    }
    let cumulative = recalculate_cumulative(&usage);
    DbThread {
        title: duplicate_opt(&thread.title),
        version: duplicate_opt(&thread.version),
        updated_at: duplicate_opt(&thread.updated_at),
        messages,
        detailed_summary: duplicate_opt(&thread.detailed_summary),
        initial_project_snapshot: None,
        cumulative_token_usage: Some(cumulative),
        request_token_usage: Some(usage),
        model: duplicate_opt(&thread.model),
        profile: duplicate_opt(&thread.profile),
        subagent_context: duplicate_opt(&thread.subagent_context),
        imported: duplicate_opt(&thread.imported),
        speed: duplicate_opt(&thread.speed),
        thinking_enabled: duplicate_opt(&thread.thinking_enabled),
        thinking_effort: duplicate_opt(&thread.thinking_effort),
        draft_prompt: duplicate_opt(&thread.draft_prompt),
        ui_scroll_position: duplicate_opt(&thread.ui_scroll_position),
    }
}

/// Cleans a thread, or returns `None` where the token usage that is left does
/// not fit in 64 bits.
pub fn try_clean_thread(thread: &DbThread, config: &CleanConfig) -> (r: Option<DbThread>)
    ensures
        r is Some <==> usage_fits(thread@),
        r matches Some(t) ==> t@ == cleaned_thread(thread@, *config),
{
    match sum_usage(&usage_of_messages(thread, &thread.messages)) {
        Some(_) => Some(clean_thread(thread, config)),
        None => None,
    }
}

} // verus!
