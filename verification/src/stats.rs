//! Statistics of a thread.
use crate::duplicate::seq_views;
use crate::measure::{measure_messages, thread_sizes};
use crate::rank::{
    insert_ranked, is_descending, lemma_list_nothing, lemma_list_one_more, lists_entries,
};
use crate::str_map::{
    has_key, inserted, key_index, keys_distinct, lemma_inserted, lemma_key_index, lookup, StrMap,
};
use crate::text::{byte_count, byte_len};
use crate::types::{
    count_views, AgentContent, AgentContentModel, DbThread, Message, MessageModel, ThreadStats,
};
use vstd::arithmetic::overflow::CheckedUsize;
use vstd::prelude::*;

verus! {

/// The names of the tools that a list of blocks calls, in order.
pub open spec fn block_calls(c: Seq<AgentContentModel>) -> Seq<Seq<char>>
    decreases c.len(),
{
    if c.len() == 0 {
        Seq::empty()
    } else {
        match c.last() {
            AgentContentModel::ToolUse(t) => block_calls(c.drop_last()).push(t.name),
            _ => block_calls(c.drop_last()),
        }
    }
}

/// The names of the tools that a thread calls, in order.
pub open spec fn tool_calls(m: Seq<MessageModel>) -> Seq<Seq<char>>
    decreases m.len(),
{
    if m.len() == 0 {
        Seq::empty()
    } else {
        match m.last() {
            MessageModel::Agent(a) => tool_calls(m.drop_last()) + block_calls(a.content),
            _ => tool_calls(m.drop_last()),
        }
    }
}

/// How often a name occurs in a list.
pub open spec fn occurrences(names: Seq<Seq<char>>, name: Seq<char>) -> nat
    decreases names.len(),
{
    if names.len() == 0 {
        0
    } else {
        occurrences(names.drop_last(), name) + if names.last() == name {
            1nat
        } else {
            0nat
        }
    }
}

/// Number of User messages.
pub open spec fn user_count(m: Seq<MessageModel>) -> nat
    decreases m.len(),
{
    if m.len() == 0 {
        0
    } else {
        user_count(m.drop_last()) + if m.last() is User {
            1nat
        } else {
            0nat
        }
    }
}

/// Number of Agent messages.
pub open spec fn agent_count(m: Seq<MessageModel>) -> nat
    decreases m.len(),
{
    if m.len() == 0 {
        0
    } else {
        agent_count(m.drop_last()) + if m.last() is Agent {
            1nat
        } else {
            0nat
        }
    }
}

/// A list of names, each once with the number of times it occurs in `names`.
pub open spec fn counts_names(counts: Seq<(Seq<char>, nat)>, names: Seq<Seq<char>>) -> bool {
    &&& keys_distinct(counts)
    &&& forall|i: int|
        0 <= i < counts.len() ==> (#[trigger] counts[i]).1 == occurrences(names, counts[i].0)
            && names.contains(counts[i].0)
    &&& forall|name: Seq<char>| #[trigger] names.contains(name) ==> has_key(counts, name)
}

/// Whether the figures of a thread's statistics can be held.
pub open spec fn stats_fit(m: Seq<MessageModel>) -> bool {
    let sizes = thread_sizes(m);
    &&& sizes.user_text + sizes.agent_text <= usize::MAX
    &&& sizes.thinking <= usize::MAX
    &&& sizes.results <= usize::MAX
    &&& forall|name: Seq<char>| #[trigger] occurrences(tool_calls(m), name) <= usize::MAX
}

/// The statistics of a thread.
pub open spec fn is_stats_of(
    stats: ThreadStats,
    m: Seq<MessageModel>,
    uncompressed: nat,
    compressed: nat,
) -> bool {
    let sizes = thread_sizes(m);
    &&& stats.total_messages == m.len()
    &&& stats.user_messages == user_count(m)
    &&& stats.agent_messages == agent_count(m)
    &&& stats.compressed_size == compressed
    &&& stats.uncompressed_size == uncompressed
    &&& stats.thinking_bytes == sizes.thinking
    &&& stats.tool_results_bytes == sizes.results
    &&& stats.text_bytes == sizes.user_text + sizes.agent_text
    &&& counts_names(count_views(stats.tool_call_counts@), tool_calls(m))
    &&& is_descending(
        Seq::new(stats.tool_call_counts@.len(), |i: int| stats.tool_call_counts@[i].1),
    )
}

proof fn lemma_occurrences_contains(names: Seq<Seq<char>>, name: Seq<char>)
    ensures
        occurrences(names, name) > 0 <==> names.contains(name),
    decreases names.len(),
{
    if names.len() > 0 {
        lemma_occurrences_contains(names.drop_last(), name);
        if names.contains(name) {
            let i = choose|i: int| 0 <= i < names.len() && names[i] == name;
            if i < names.len() - 1 {
                assert(names.drop_last()[i] == name);
            }
        }
        if names.drop_last().contains(name) {
            let i = choose|i: int| 0 <= i < names.len() - 1 && names.drop_last()[i] == name;
            assert(names[i] == name);
        }
        if names.last() == name {
            assert(names[names.len() - 1] == name);
        }
    }
}

/// Counting one more name keeps the counts right.
proof fn lemma_count_one(counts: Seq<(Seq<char>, nat)>, names: Seq<Seq<char>>, name: Seq<char>)
    requires
        counts_names(counts, names),
    ensures
        counts_names(
            inserted(
                counts,
                name,
                (match lookup(counts, name) {
                    Some(n) => n,
                    None => 0,
                }) + 1,
            ),
            names.push(name),
        ),
{
    let n = match lookup(counts, name) {
        Some(n) => n,
        None => 0,
    } + 1;
    let more = names.push(name);
    let t = inserted(counts, name, n);
    lemma_inserted(counts, name, n, name);
    assert(more.drop_last() =~= names);
    assert(occurrences(more, name) == n) by {
        lemma_occurrences_contains(names, name);
        if has_key(counts, name) {
            let k = key_index(counts, name);
            assert(counts[k].0 == name);
        } else {
            assert(!names.contains(name));
        }
    }
    assert(more[names.len() as int] == name);
    assert forall|i: int| 0 <= i < t.len() implies (#[trigger] t[i]).1 == occurrences(more, t[i].0)
        && more.contains(t[i].0) by {
        if t[i].0 == name {
            lemma_key_index(t, i);
        } else {
            assert(t[i] == counts[i]);
            let j = choose|j: int| 0 <= j < names.len() && names[j] == counts[i].0;
            assert(more[j] == counts[i].0);
        }
    }
    assert forall|x: Seq<char>| #[trigger] more.contains(x) implies has_key(t, x) by {
        if x != name {
            let j = choose|j: int| 0 <= j < more.len() && more[j] == x;
            assert(names[j] == x);
            assert(names.contains(x));
            lemma_inserted(counts, name, n, x);
            assert(lookup(counts, x) is Some);
        }
    }
}

/// Adds the tool calls of a list of blocks to the counts.
fn count_block_calls(
    content: &Vec<AgentContent>,
    counts: &mut StrMap<CheckedUsize>,
    names: Ghost<Seq<Seq<char>>>,
)
    requires
        counts_names(old(counts)@, names@),
    ensures
        counts_names(final(counts)@, names@ + block_calls(seq_views(content@))),
{
    let ghost c = seq_views(content@);
    let mut i: usize = 0;
    assert(c.take(0) =~= Seq::<AgentContentModel>::empty());
    assert(names@ + block_calls(c.take(0)) =~= names@);
    while i < content.len()
        invariant
            i <= content@.len(),
            c == seq_views(content@),
            counts_names(counts@, names@ + block_calls(c.take(i as int))),
        decreases content@.len() - i,
    {
        let ghost so_far = names@ + block_calls(c.take(i as int));
        assert(c.take(i + 1).drop_last() =~= c.take(i as int));
        assert(c.take(i + 1).last() == content@[i as int]@);
        if let AgentContent::ToolUse(tu) = &content[i] {
            proof {
                lemma_count_one(counts@, so_far, tu.name@);
                assert(names@ + block_calls(c.take(i + 1)) =~= so_far.push(tu.name@));
            }
            let n = match counts.get(tu.name.as_str()) {
                Some(n) => n.add_value(1),
                None => CheckedUsize::new(1),
            };
            counts.insert(tu.name.clone(), n);
        }
        i += 1;
    }
    assert(c.take(i as int) =~= c);
}

/// Counts how often a thread calls each tool.
fn count_tool_calls(messages: &Vec<Message>) -> (r: StrMap<CheckedUsize>)
    ensures
        counts_names(r@, tool_calls(seq_views(messages@))),
{
    let ghost m = seq_views(messages@);
    let mut counts: StrMap<CheckedUsize> = StrMap::new();
    let mut i: usize = 0;
    assert(m.take(0) =~= Seq::<MessageModel>::empty());
    while i < messages.len()
        invariant
            i <= messages@.len(),
            m == seq_views(messages@),
            counts_names(counts@, tool_calls(m.take(i as int))),
        decreases messages@.len() - i,
    {
        assert(m.take(i + 1).drop_last() =~= m.take(i as int));
        assert(m.take(i + 1).last() == messages@[i as int]@);
        if let Message::Agent { agent } = &messages[i] {
            count_block_calls(&agent.content, &mut counts, Ghost(tool_calls(m.take(i as int))));
        }
        i += 1;
    }
    assert(m.take(i as int) =~= m);
    counts
}

/// The counts with the most frequent names first, where each can be held.
fn rank_counts(counts: &StrMap<CheckedUsize>) -> (r: Option<Vec<(String, usize)>>)
    ensures
        r is Some <==> forall|i: int|
            0 <= i < counts@.len() ==> (#[trigger] counts@[i]).1 <= usize::MAX,
        r matches Some(v) ==> {
            &&& lists_entries(count_views(v@), counts@, counts@.len() as int)
            &&& is_descending(Seq::new(v@.len(), |i: int| v@[i].1))
        },
{
    let ghost all = counts@;
    let mut rows: Vec<(String, usize)> = Vec::new();
    let mut ranks: Vec<usize> = Vec::new();
    let len: usize = counts.len();
    let mut i: usize = 0;
    proof {
        lemma_list_nothing(count_views(rows@), all);
    }
    while i < len
        invariant
            i <= len,
            all == counts@,
            len == all.len(),
            keys_distinct(all),
            rows@.len() == ranks@.len(),
            is_descending(ranks@),
            forall|k: int| 0 <= k < rows@.len() ==> (#[trigger] rows@[k]).1 == ranks@[k],
            forall|j: int| 0 <= j < i ==> (#[trigger] all[j]).1 <= usize::MAX,
            lists_entries(count_views(rows@), all, i as int),
        decreases len - i,
    {
        match counts.value_at(i).to_option() {
            Some(n) => {
                let key = counts.key_at(i).clone();
                let ghost before = rows@;
                let pos: usize = insert_ranked(&mut rows, &mut ranks, (key, n), n);
                proof {
                    lemma_list_one_more(count_views(before), all, i as int, pos as int);
                    assert(count_views(rows@) =~= count_views(before).insert(
                        pos as int,
                        all[i as int],
                    ));
                    assert forall|k: int| 0 <= k < rows@.len() implies (#[trigger] rows@[k]).1
                        == ranks@[k] by {
                        if k < pos {
                            assert(rows@[k] == before[k]);
                        } else if k > pos {
                            assert(rows@[k] == before[k - 1]);
                        }
                    }
                }
            },
            None => {
                assert(all[i as int].1 > usize::MAX);
                return None;
            },
        }
        i += 1;
    }
    assert(Seq::new(rows@.len(), |i: int| rows@[i].1) =~= ranks@);
    Some(rows)
}

proof fn lemma_counts_of_list(
    s: Seq<(Seq<char>, nat)>,
    all: Seq<(Seq<char>, nat)>,
    names: Seq<Seq<char>>,
)
    requires
        counts_names(all, names),
        lists_entries(s, all, all.len() as int),
    ensures
        counts_names(s, names),
{
    reveal(lists_entries);
    assert forall|k: int| 0 <= k < s.len() implies (#[trigger] s[k]).1 == occurrences(
        names,
        s[k].0,
    ) && names.contains(s[k].0) by {
        let j = choose|j: int| 0 <= j < all.len() && all[j] == s[k];
        assert(all[j] == s[k]);
    }
    assert forall|name: Seq<char>| #[trigger] names.contains(name) implies has_key(s, name) by {
        let j = key_index(all, name);
        assert(has_key(all, name));
        assert(all[j].0 == name);
        let k = choose|k: int| 0 <= k < s.len() && s[k] == all[j];
        assert(s[k].0 == name);
    }
}

proof fn lemma_counts_fit(counts: Seq<(Seq<char>, nat)>, names: Seq<Seq<char>>)
    requires
        counts_names(counts, names),
    ensures
        (forall|i: int| 0 <= i < counts.len() ==> (#[trigger] counts[i]).1 <= usize::MAX) <==> (
        forall|name: Seq<char>| #[trigger] occurrences(names, name) <= usize::MAX),
{
    if forall|i: int| 0 <= i < counts.len() ==> (#[trigger] counts[i]).1 <= usize::MAX {
        assert forall|name: Seq<char>| #[trigger] occurrences(names, name) <= usize::MAX by {
            lemma_occurrences_contains(names, name);
            if names.contains(name) {
                let j = key_index(counts, name);
                assert(has_key(counts, name));
                assert(counts[j].0 == name);
            }
        }
    }
    if forall|name: Seq<char>| #[trigger] occurrences(names, name) <= usize::MAX {
        assert forall|i: int| 0 <= i < counts.len() implies (#[trigger] counts[i]).1
            <= usize::MAX by {
            assert(occurrences(names, counts[i].0) <= usize::MAX);
        }
    }
}

/// Number of User messages and of Agent messages.
fn count_messages(messages: &Vec<Message>) -> (r: (usize, usize))
    ensures
        r.0 == user_count(seq_views(messages@)),
        r.1 == agent_count(seq_views(messages@)),
{
    let ghost m = seq_views(messages@);
    let mut users: usize = 0;
    let mut agents: usize = 0;
    let mut i: usize = 0;
    assert(m.take(0) =~= Seq::<MessageModel>::empty());
    while i < messages.len()
        invariant
            i <= messages@.len(),
            m == seq_views(messages@),
            users <= i,
            agents <= i,
            users == user_count(m.take(i as int)),
            agents == agent_count(m.take(i as int)),
        decreases messages@.len() - i,
    {
        assert(m.take(i + 1).drop_last() =~= m.take(i as int));
        assert(m.take(i + 1).last() == messages@[i as int]@);
        match &messages[i] {
            Message::User { .. } => {
                users += 1;
            },
            Message::Agent { .. } => {
                agents += 1;
            },
            Message::Other(_) => {},
        }
        i += 1;
    }
    assert(m.take(i as int) =~= m);
    (users, agents)
}

/// The statistics of a thread, where all its figures can be held.
fn gather_stats(thread: &DbThread, raw_json: &str, compressed_size: usize) -> (r: Option<
    ThreadStats,
>)
    ensures
        r is Some <==> stats_fit(thread@.messages),
        r matches Some(stats) ==> is_stats_of(
            stats,
            thread@.messages,
            byte_count(raw_json@),
            compressed_size as nat,
        ),
{
    let sizes = measure_messages(&thread.messages);
    let counts = count_tool_calls(&thread.messages);
    proof {
        lemma_counts_fit(counts@, tool_calls(thread@.messages));
    }
    let rows = match rank_counts(&counts) {
        Some(rows) => rows,
        None => {
            return None;
        },
    };
    proof {
        lemma_counts_of_list(count_views(rows@), counts@, tool_calls(thread@.messages));
    }
    match (
        sizes.thinking.to_option(),
        sizes.results.to_option(),
        sizes.user_text.add_checked(&sizes.agent_text).to_option(),
    ) {
        (Some(thinking_bytes), Some(tool_results_bytes), Some(text_bytes)) => {
            let (user_messages, agent_messages) = count_messages(&thread.messages);
            Some(
                ThreadStats {
                    total_messages: thread.messages.len(),
                    user_messages,
                    agent_messages,
                    compressed_size,
                    uncompressed_size: byte_len(raw_json),
                    thinking_bytes,
                    tool_results_bytes,
                    text_bytes,
                    tool_call_counts: rows,
                },
            )
        },
        _ => None,
    }
}

/// Computes the statistics of a thread, given its JSON text and the size that
/// it takes in the database.
pub fn compute_stats(thread: &DbThread, raw_json: &str, compressed_size: usize) -> (r: ThreadStats)
    requires
        stats_fit(thread@.messages),
    ensures
        is_stats_of(r, thread@.messages, byte_count(raw_json@), compressed_size as nat),
{
    gather_stats(thread, raw_json, compressed_size).unwrap()
}

/// Computes the statistics of a thread, or returns `None` where a figure
/// cannot be held.
pub fn try_compute_stats(thread: &DbThread, raw_json: &str, compressed_size: usize) -> (r: Option<
    ThreadStats,
>)
    ensures
        r is Some <==> stats_fit(thread@.messages),
        r matches Some(stats) ==> is_stats_of(
            stats,
            thread@.messages,
            byte_count(raw_json@),
            compressed_size as nat,
        ),
{
    if gather_stats(thread, raw_json, compressed_size).is_some() {
        Some(compute_stats(thread, raw_json, compressed_size))
    } else {
        None
    }
}

} // verus!
