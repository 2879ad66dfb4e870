//! What the sizes, counts, previews and analyses of a thread add up.
use crate::analysis::{
    analysis_fits, analyzed_size, category, figure_bytes, figures, grand_total, has_figure,
    is_analysis_of, thread_figures, ResultFigure,
};
use crate::config::{byte_limit, default_limit, CleanConfig};
use crate::dedup::{file_reads, superseded_ids};
use crate::duplicate::seq_views;
use crate::json::{compact_text, Json};
use crate::measure::{
    block_sizes, opt_json_size, result_sizes, results_of, thread_sizes, user_content_sizes,
};
use crate::preview::{
    is_preview, preview_totals, previewed, thinking_count, with_results, PreviewTotals,
};
use crate::protect::{is_protected, protected_count, protected_zone};
use crate::stats::{
    agent_count, block_calls, is_stats_of, occurrences, stats_fit, tool_calls, user_count,
};
use crate::str_map::has_key;
use crate::text::{byte_count, truncated};
use crate::tool_results::{cleaned_result, content_size, content_text};
use crate::types::{
    count_views, AgentContentModel, CategoryModel, CleanupPreview, MessageModel, ThreadAnalysis,
    ThreadStats, ToolResultModel, UserContentModel,
};
use vstd::prelude::*;

verus! {

/// The sum of a size over a list.
pub open spec fn total_of<A>(s: Seq<A>, size: spec_fn(A) -> nat) -> nat
    decreases s.len(),
{
    if s.len() == 0 {
        0
    } else {
        total_of(s.drop_last(), size) + size(s.last())
    }
}

proof fn lemma_total_of_both<A>(a: Seq<A>, b: Seq<A>, size: spec_fn(A) -> nat)
    ensures
        total_of(a + b, size) == total_of(a, size) + total_of(b, size),
    decreases b.len(),
{
    if b.len() == 0 {
        assert(a + b =~= a);
    } else {
        assert((a + b).drop_last() =~= a + b.drop_last());
        lemma_total_of_both(a, b.drop_last(), size);
    }
}

/// The blocks of the Agent messages among the first `n` that are not in
/// `zone`, in order.
pub open spec fn blocks_outside(m: Seq<MessageModel>, n: nat, zone: Set<usize>) -> Seq<
    AgentContentModel,
> {
    Seq::new(
        n,
        |i: int|
            if m[i] is Agent && !zone.contains(i as usize) {
                m[i]->Agent_0.content
            } else {
                Seq::empty()
            },
    ).flatten_alt()
}

/// The tool results of the Agent messages among the first `n` that are not in
/// `zone`, in order.
pub open spec fn results_outside(m: Seq<MessageModel>, n: nat, zone: Set<usize>) -> Seq<
    (Seq<char>, ToolResultModel),
> {
    Seq::new(
        n,
        |i: int|
            if m[i] is Agent && !zone.contains(i as usize) && m[i]->Agent_0.tool_results is Some {
                m[i]->Agent_0.tool_results->0
            } else {
                Seq::empty()
            },
    ).flatten_alt()
}

/// The content of the User messages among the first `n`, in order.
pub open spec fn user_blocks(m: Seq<MessageModel>, n: nat) -> Seq<UserContentModel> {
    Seq::new(
        n,
        |i: int|
            if m[i] is User {
                m[i]->User_0.content
            } else {
                Seq::empty()
            },
    ).flatten_alt()
}

proof fn lemma_one_more(m: Seq<MessageModel>, n: nat, zone: Set<usize>)
    requires
        0 < n <= m.len(),
    ensures
        blocks_outside(m, n, zone) == blocks_outside(m, (n - 1) as nat, zone) + (if m[n
            - 1] is Agent && !zone.contains((n - 1) as usize) {
            m[n - 1]->Agent_0.content
        } else {
            Seq::empty()
        }),
        results_outside(m, n, zone) == results_outside(m, (n - 1) as nat, zone) + (if m[n
            - 1] is Agent && !zone.contains((n - 1) as usize) {
            results_of(m[n - 1]->Agent_0)
        } else {
            Seq::empty()
        }),
        user_blocks(m, n) == user_blocks(m, (n - 1) as nat) + (if m[n - 1] is User {
            m[n - 1]->User_0.content
        } else {
            Seq::empty()
        }),
{
    let less = (n - 1) as nat;
    let b = |i: int|
        if m[i] is Agent && !zone.contains(i as usize) {
            m[i]->Agent_0.content
        } else {
            Seq::empty()
        };
    assert(Seq::new(n, b).drop_last() =~= Seq::new(less, b));
    let r = |i: int|
        if m[i] is Agent && !zone.contains(i as usize) && m[i]->Agent_0.tool_results is Some {
            m[i]->Agent_0.tool_results->0
        } else {
            Seq::empty()
        };
    assert(Seq::new(n, r).drop_last() =~= Seq::new(less, r));
    let u = |i: int|
        if m[i] is User {
            m[i]->User_0.content
        } else {
            Seq::empty()
        };
    assert(Seq::new(n, u).drop_last() =~= Seq::new(less, u));
}

/// The text of a content value, and its size, by its shape: a string is its
/// own text, whether it stands alone or under `Text`, and any other value but
/// `null` has its JSON text. The analysis counts the same bytes; of `null` it
/// counts the JSON text.
pub proof fn law_content_sizes_by_shape(v: Json)
    ensures
        v matches Json::Text(s) ==> content_text(v) == Some(s) && content_size(v) == byte_count(s)
            && analyzed_size(Some(v)) == byte_count(s),
        v matches Json::Object(o) ==> (if o.contains_key("Text"@) && o["Text"@] is Text {
            let s = o["Text"@]->Text_0;
            &&& content_text(v) == Some(s)
            &&& content_size(v) == byte_count(s)
            &&& analyzed_size(Some(v)) == byte_count(s)
            &&& analyzed_size(Some(v)) == analyzed_size(Some(Json::Text(s)))
        } else {
            &&& content_text(v) == Some(compact_text(v))
            &&& content_size(v) == byte_count(compact_text(v))
            &&& analyzed_size(Some(v)) == byte_count(compact_text(v))
        }),
        v is Bool || v is Num || v is Array ==> content_text(v) == Some(compact_text(v))
            && content_size(v) == byte_count(compact_text(v)) && analyzed_size(Some(v))
            == byte_count(compact_text(v)),
        v is Null ==> content_text(v) is None && content_size(v) == 0 && analyzed_size(Some(v))
            == byte_count(compact_text(v)),
        analyzed_size(None) == 0,
{
}

/// Two contents with the same text have the same size, in the analysis, in the
/// statistics and in the preview.
pub proof fn law_the_same_text_has_the_same_size(v: Json, w: Json)
    requires
        content_text(v) is Some,
        content_text(v) == content_text(w),
    ensures
        analyzed_size(Some(v)) == analyzed_size(Some(w)),
        content_size(v) == content_size(w),
        analyzed_size(Some(v)) == content_size(w),
{
}

/// The sizes of blocks: the text of the text blocks, the raw input of the
/// calls, and the text, signature or data of thinking.
pub proof fn law_sizes_of_blocks(c: Seq<AgentContentModel>)
    ensures
        block_sizes(c).text == total_of(
            c,
            |b: AgentContentModel|
                match b {
                    AgentContentModel::Text(s) => byte_count(s),
                    _ => 0,
                },
        ),
        block_sizes(c).raw_input == total_of(
            c,
            |b: AgentContentModel|
                if b is ToolUse && b->ToolUse_0.raw_input is Some {
                    byte_count(b->ToolUse_0.raw_input->0)
                } else {
                    0
                },
        ),
        block_sizes(c).thinking == total_of(
            c,
            |b: AgentContentModel|
                match b {
                    AgentContentModel::Thinking(t) => match t.signature {
                        Some(s) => byte_count(t.text) + byte_count(s),
                        None => byte_count(t.text),
                    },
                    AgentContentModel::RedactedThinking(Json::Object(o)) => if o.contains_key(
                        "data"@,
                    ) && o["data"@] is Text {
                        byte_count(o["data"@]->Text_0)
                    } else {
                        0
                    },
                    _ => 0,
                },
        ),
        thinking_count(c) == c.filter(
            |b: AgentContentModel| b is Thinking || b is RedactedThinking,
        ).len(),
        block_calls(c) == c.filter(|b: AgentContentModel| b is ToolUse).map_values(
            |b: AgentContentModel| b->ToolUse_0.name,
        ),
    decreases c.len(),
{
    reveal(Seq::filter);
    if c.len() > 0 {
        law_sizes_of_blocks(c.drop_last());
        let calls = c.drop_last().filter(|b: AgentContentModel| b is ToolUse);
        let name = |b: AgentContentModel| b->ToolUse_0.name;
        if c.last() is ToolUse {
            assert(calls.push(c.last()).map_values(name) =~= calls.map_values(name).push(
                name(c.last()),
            ));
        }
    } else {
        assert(block_calls(c) =~= c.filter(|b: AgentContentModel| b is ToolUse).map_values(
            |b: AgentContentModel| b->ToolUse_0.name,
        ));
    }
}

/// The size of User content is that of its texts and of the JSON texts of the
/// rest.
pub proof fn law_sizes_of_user_content(c: Seq<UserContentModel>)
    ensures
        user_content_sizes(c) == total_of(
            c,
            |b: UserContentModel|
                match b {
                    UserContentModel::Text(s) => byte_count(s),
                    UserContentModel::Other(v) => byte_count(compact_text(v)),
                },
        ),
    decreases c.len(),
{
    if c.len() > 0 {
        law_sizes_of_user_content(c.drop_last());
    }
}

/// The size of tool results is that of their contents and of the JSON texts of
/// their outputs.
pub proof fn law_sizes_of_results(c: Seq<(Seq<char>, ToolResultModel)>)
    ensures
        result_sizes(c) == total_of(
            c,
            |e: (Seq<char>, ToolResultModel)|
                match e.1.content {
                    Some(v) => content_size(v),
                    None => 0,
                },
        ) + total_of(
            c,
            |e: (Seq<char>, ToolResultModel)|
                match e.1.output {
                    Some(v) => byte_count(compact_text(v)),
                    None => 0,
                },
        ),
    decreases c.len(),
{
    if c.len() > 0 {
        law_sizes_of_results(c.drop_last());
    }
}

proof fn lemma_block_sizes_of_both(a: Seq<AgentContentModel>, b: Seq<AgentContentModel>)
    ensures
        block_sizes(a + b).text == block_sizes(a).text + block_sizes(b).text,
        block_sizes(a + b).raw_input == block_sizes(a).raw_input + block_sizes(b).raw_input,
        block_sizes(a + b).thinking == block_sizes(a).thinking + block_sizes(b).thinking,
        thinking_count(a + b) == thinking_count(a) + thinking_count(b),
        block_calls(a + b) == block_calls(a) + block_calls(b),
    decreases b.len(),
{
    if b.len() == 0 {
        assert(a + b =~= a);
        assert(block_calls(a) + block_calls(b) =~= block_calls(a));
    } else {
        assert((a + b).drop_last() =~= a + b.drop_last());
        lemma_block_sizes_of_both(a, b.drop_last());
        assert(block_calls(a + b) =~= block_calls(a) + block_calls(b));
    }
}

proof fn lemma_result_sizes_of_both(
    a: Seq<(Seq<char>, ToolResultModel)>,
    b: Seq<(Seq<char>, ToolResultModel)>,
)
    ensures
        result_sizes(a + b) == result_sizes(a) + result_sizes(b),
    decreases b.len(),
{
    if b.len() == 0 {
        assert(a + b =~= a);
    } else {
        assert((a + b).drop_last() =~= a + b.drop_last());
        lemma_result_sizes_of_both(a, b.drop_last());
    }
}

proof fn lemma_user_sizes_of_both(a: Seq<UserContentModel>, b: Seq<UserContentModel>)
    ensures
        user_content_sizes(a + b) == user_content_sizes(a) + user_content_sizes(b),
    decreases b.len(),
{
    if b.len() == 0 {
        assert(a + b =~= a);
    } else {
        assert((a + b).drop_last() =~= a + b.drop_last());
        lemma_user_sizes_of_both(a, b.drop_last());
    }
}

proof fn lemma_thread_sizes(m: Seq<MessageModel>, n: nat)
    requires
        n <= m.len(),
    ensures
        ({
            let sizes = thread_sizes(m.take(n as int));
            let blocks = block_sizes(blocks_outside(m, n, Set::empty()));
            &&& sizes.agent_text == blocks.text
            &&& sizes.raw_input == blocks.raw_input
            &&& sizes.thinking == blocks.thinking + total_of(
                m.take(n as int),
                |x: MessageModel|
                    if x is Agent && x->Agent_0.reasoning_details is Some {
                        byte_count(compact_text(x->Agent_0.reasoning_details->0))
                    } else {
                        0
                    },
            )
            &&& sizes.results == result_sizes(results_outside(m, n, Set::empty()))
            &&& sizes.user_text == user_content_sizes(user_blocks(m, n))
            &&& tool_calls(m.take(n as int)) == block_calls(blocks_outside(m, n, Set::empty()))
            &&& user_count(m.take(n as int)) == m.take(n as int).filter(
                |x: MessageModel| x is User,
            ).len()
            &&& agent_count(m.take(n as int)) == m.take(n as int).filter(
                |x: MessageModel| x is Agent,
            ).len()
        }),
    decreases n,
{
    reveal(Seq::filter);
    if n > 0 {
        let less = (n - 1) as nat;
        lemma_thread_sizes(m, less);
        lemma_one_more(m, n, Set::empty());
        assert(m.take(n as int).drop_last() =~= m.take(less as int));
        assert(m.take(n as int).last() == m[n - 1]);
        match m[n - 1] {
            MessageModel::Agent(a) => {
                lemma_block_sizes_of_both(blocks_outside(m, less, Set::empty()), a.content);
                lemma_result_sizes_of_both(results_outside(m, less, Set::empty()), results_of(a));
                assert(user_blocks(m, n) =~= user_blocks(m, less));
            },
            MessageModel::User(u) => {
                assert(blocks_outside(m, n, Set::empty()) =~= blocks_outside(
                    m,
                    less,
                    Set::empty(),
                ));
                assert(results_outside(m, n, Set::empty()) =~= results_outside(
                    m,
                    less,
                    Set::empty(),
                ));
                lemma_user_sizes_of_both(user_blocks(m, less), u.content);
            },
            MessageModel::Other(_) => {
                assert(blocks_outside(m, n, Set::empty()) =~= blocks_outside(
                    m,
                    less,
                    Set::empty(),
                ));
                assert(results_outside(m, n, Set::empty()) =~= results_outside(
                    m,
                    less,
                    Set::empty(),
                ));
                assert(user_blocks(m, n) =~= user_blocks(m, less));
            },
        }
    }
}

/// The sizes of a thread are those of all its blocks, tool results and User
/// content together, with the JSON text of its reasoning details; the calls
/// and the messages that are counted are those that stand in it.
pub proof fn law_sizes_of_a_thread(m: Seq<MessageModel>)
    ensures
        ({
            let sizes = thread_sizes(m);
            let all = blocks_outside(m, m.len(), Set::empty());
            &&& sizes.agent_text == block_sizes(all).text
            &&& sizes.raw_input == block_sizes(all).raw_input
            &&& sizes.thinking == block_sizes(all).thinking + total_of(
                m,
                |x: MessageModel|
                    if x is Agent && x->Agent_0.reasoning_details is Some {
                        byte_count(compact_text(x->Agent_0.reasoning_details->0))
                    } else {
                        0
                    },
            )
            &&& sizes.results == result_sizes(results_outside(m, m.len(), Set::empty()))
            &&& sizes.user_text == user_content_sizes(user_blocks(m, m.len()))
            &&& tool_calls(m) == all.filter(|b: AgentContentModel| b is ToolUse).map_values(
                |b: AgentContentModel| b->ToolUse_0.name,
            )
            &&& user_count(m) == m.filter(|x: MessageModel| x is User).len()
            &&& agent_count(m) == m.filter(|x: MessageModel| x is Agent).len()
        }),
{
    lemma_thread_sizes(m, m.len());
    assert(m.take(m.len() as int) =~= m);
    law_sizes_of_blocks(blocks_outside(m, m.len(), Set::empty()));
}

/// How often a name occurs is how many entries of the list are that name.
pub proof fn law_occurrences_are_entries(names: Seq<Seq<char>>, name: Seq<char>)
    ensures
        occurrences(names, name) == names.filter(|x: Seq<char>| x == name).len(),
    decreases names.len(),
{
    reveal(Seq::filter);
    if names.len() > 0 {
        law_occurrences_are_entries(names.drop_last(), name);
    }
}

/// What the statistics of a thread say: the sizes that were given, the numbers
/// of messages, the bytes of thinking, results and text, and each tool that is
/// called once with the number of its calls, the most called first.
pub proof fn law_what_statistics_say(
    stats: ThreadStats,
    m: Seq<MessageModel>,
    uncompressed: nat,
    compressed: nat,
    i: int,
    j: int,
    tool: Seq<char>,
)
    requires
        is_stats_of(stats, m, uncompressed, compressed),
    ensures
        ({
            let rows = stats.tool_call_counts@;
            let all = blocks_outside(m, m.len(), Set::empty());
            &&& stats.total_messages == m.len()
            &&& stats.user_messages == m.filter(|x: MessageModel| x is User).len()
            &&& stats.agent_messages == m.filter(|x: MessageModel| x is Agent).len()
            &&& stats.uncompressed_size == uncompressed
            &&& stats.compressed_size == compressed
            &&& stats.thinking_bytes == thread_sizes(m).thinking
            &&& stats.tool_results_bytes == thread_sizes(m).results
            &&& stats.text_bytes == thread_sizes(m).user_text + thread_sizes(m).agent_text
            &&& 0 <= i < rows.len() && rows[i].0@ == tool ==> rows[i].1 == all.filter(
                |b: AgentContentModel| b is ToolUse,
            ).map_values(|b: AgentContentModel| b->ToolUse_0.name).filter(
                |x: Seq<char>| x == tool,
            ).len()
            &&& 0 <= i < j < rows.len() ==> rows[i].0@ != rows[j].0@ && rows[i].1 >= rows[j].1
            &&& (exists|k: int| 0 <= k < rows.len() && (#[trigger] rows[k]).0@ == tool) <==> (
            exists|p: int|
                0 <= p < all.len() && (#[trigger] all[p]) is ToolUse && all[p]->ToolUse_0.name
                    == tool)
        }),
{
    law_sizes_of_a_thread(m);
    let rows = stats.tool_call_counts@;
    let views = count_views(rows);
    let all = blocks_outside(m, m.len(), Set::empty());
    let calls = tool_calls(m);
    let pick = |b: AgentContentModel| b is ToolUse;
    if 0 <= i < rows.len() {
        assert(views[i].0 == rows[i].0@);
        law_occurrences_are_entries(calls, tool);
        if i < j < rows.len() {
            assert(views[j].0 == rows[j].0@);
            let figures = Seq::new(rows.len(), |k: int| rows[k].1);
            assert(figures[i] == rows[i].1 && figures[j] == rows[j].1);
        }
    }
    if exists|k: int| 0 <= k < rows.len() && (#[trigger] rows[k]).0@ == tool {
        let k = choose|k: int| 0 <= k < rows.len() && (#[trigger] rows[k]).0@ == tool;
        assert(views[k].0 == tool);
        assert(calls.contains(tool));
        let q = choose|q: int| 0 <= q < calls.len() && calls[q] == tool;
        let picked = all.filter(pick);
        assert(picked[q]->ToolUse_0.name == tool);
        assert(picked.contains(picked[q]));
        all.lemma_filter_contains_rev(pick, picked[q]);
        all.lemma_filter_pred(pick, q);
        let p = choose|p: int| 0 <= p < all.len() && all[p] == picked[q];
        assert(all[p] is ToolUse && all[p]->ToolUse_0.name == tool);
    }
    if exists|p: int|
        0 <= p < all.len() && (#[trigger] all[p]) is ToolUse && all[p]->ToolUse_0.name == tool {
        let p = choose|p: int|
            0 <= p < all.len() && (#[trigger] all[p]) is ToolUse && all[p]->ToolUse_0.name == tool;
        all.lemma_filter_contains(pick, p);
        let picked = all.filter(pick);
        let q = choose|q: int| 0 <= q < picked.len() && picked[q] == all[p];
        assert(calls[q] == tool);
        assert(calls.contains(tool));
        assert(has_key(views, tool));
        let k = choose|k: int| 0 <= k < views.len() && (#[trigger] views[k]).0 == tool;
        assert(rows[k].0@ == tool);
    }
}

/// By how many bytes the text of a result's content is over the limit of its
/// tool; zero where it is not over, has no text or no limit, or where the
/// result is a superseded read.
pub open spec fn bytes_over(
    r: ToolResultModel,
    config: CleanConfig,
    superseded: Set<Seq<char>>,
) -> nat {
    if superseded.contains(r.tool_use_id) || r.content is None || content_text(
        r.content->0,
    ) is None || byte_limit(r.tool_name, config) is None {
        0
    } else {
        let n = byte_count(content_text(r.content->0)->0);
        let l = byte_limit(r.tool_name, config)->0;
        if n > l {
            (n - l) as nat
        } else {
            0
        }
    }
}

/// The bytes of the text of a superseded read.
pub open spec fn bytes_superseded(r: ToolResultModel, superseded: Set<Seq<char>>) -> nat {
    if superseded.contains(r.tool_use_id) && r.content is Some && content_text(
        r.content->0,
    ) is Some {
        byte_count(content_text(r.content->0)->0)
    } else {
        0
    }
}

proof fn lemma_preview_of_results(
    t: PreviewTotals,
    rs: Seq<(Seq<char>, ToolResultModel)>,
    config: CleanConfig,
    superseded: Set<Seq<char>>,
)
    ensures
        ({
            let after = with_results(t, rs, config, superseded);
            &&& after.thinking_blocks == t.thinking_blocks
            &&& after.results_truncated == t.results_truncated + rs.filter(
                |e: (Seq<char>, ToolResultModel)| bytes_over(e.1, config, superseded) > 0,
            ).len()
            &&& after.bytes_to_truncate == t.bytes_to_truncate + total_of(
                rs,
                |e: (Seq<char>, ToolResultModel)| bytes_over(e.1, config, superseded),
            )
            &&& after.duplicates == t.duplicates + rs.filter(
                |e: (Seq<char>, ToolResultModel)| superseded.contains(e.1.tool_use_id),
            ).len()
            &&& after.bytes_to_remove == t.bytes_to_remove + total_of(
                rs,
                |e: (Seq<char>, ToolResultModel)| bytes_superseded(e.1, superseded),
            )
        }),
    decreases rs.len(),
{
    reveal(Seq::filter);
    if rs.len() > 0 {
        lemma_preview_of_results(t, rs.drop_last(), config, superseded);
    }
}

proof fn lemma_previewed(
    m: Seq<MessageModel>,
    n: nat,
    zone: Set<usize>,
    config: CleanConfig,
    superseded: Set<Seq<char>>,
)
    requires
        n <= m.len(),
    ensures
        ({
            let t = previewed(m, n as int, zone, config, superseded);
            let rs = results_outside(m, n, zone);
            let blocks = blocks_outside(m, n, zone);
            &&& t.thinking_blocks == thinking_count(blocks)
            &&& t.results_truncated == rs.filter(
                |e: (Seq<char>, ToolResultModel)| bytes_over(e.1, config, superseded) > 0,
            ).len()
            &&& t.bytes_to_truncate == total_of(
                rs,
                |e: (Seq<char>, ToolResultModel)| bytes_over(e.1, config, superseded),
            )
            &&& t.duplicates == rs.filter(
                |e: (Seq<char>, ToolResultModel)| superseded.contains(e.1.tool_use_id),
            ).len()
            &&& t.bytes_to_remove == block_sizes(blocks).thinking + total_of(
                Seq::new(n, |i: int| i),
                |i: int|
                    if m[i] is Agent && !zone.contains(i as usize)
                        && m[i]->Agent_0.reasoning_details is Some {
                        byte_count(compact_text(m[i]->Agent_0.reasoning_details->0))
                    } else {
                        0
                    },
            ) + total_of(
                rs,
                |e: (Seq<char>, ToolResultModel)| bytes_superseded(e.1, superseded),
            )
        }),
    decreases n,
{
    let over = |e: (Seq<char>, ToolResultModel)| bytes_over(e.1, config, superseded) > 0;
    let dup = |e: (Seq<char>, ToolResultModel)| superseded.contains(e.1.tool_use_id);
    let cut = |e: (Seq<char>, ToolResultModel)| bytes_over(e.1, config, superseded);
    let gone = |e: (Seq<char>, ToolResultModel)| bytes_superseded(e.1, superseded);
    if n == 0 {
        reveal(Seq::filter);
    } else {
        let less = (n - 1) as nat;
        lemma_previewed(m, less, zone, config, superseded);
        lemma_one_more(m, n, zone);
        assert(Seq::new(n, |i: int| i).drop_last() =~= Seq::new(less, |i: int| i));
        assert(Seq::new(n, |i: int| i).last() == n - 1);
        let before = previewed(m, less as int, zone, config, superseded);
        let rs = results_outside(m, less, zone);
        if m[n - 1] is Agent && !zone.contains((n - 1) as usize) {
            let a = m[n - 1]->Agent_0;
            let added = results_of(a);
            lemma_block_sizes_of_both(blocks_outside(m, less, zone), a.content);
            lemma_preview_of_results(
                before.with_thinking(
                    thinking_count(a.content),
                    block_sizes(a.content).thinking + opt_json_size(a.reasoning_details),
                ),
                added,
                config,
                superseded,
            );
            Seq::filter_distributes_over_add(rs, added, over);
            Seq::filter_distributes_over_add(rs, added, dup);
            lemma_total_of_both(rs, added, cut);
            lemma_total_of_both(rs, added, gone);
        } else {
            assert(results_outside(m, n, zone) =~= rs);
            assert(blocks_outside(m, n, zone) =~= blocks_outside(m, less, zone));
        }
    }
}

/// What the preview of a cleanup says of the messages outside the protected
/// zone. The truncated results are those whose content has a text of more
/// bytes than the limit of their tool, whatever shape the content has, with
/// the bytes that are over. The duplicates are the superseded reads. Removed
/// are all thinking, redacted or not, with the reasoning details, and the texts
/// of the superseded reads.
pub proof fn law_what_a_preview_says(m: Seq<MessageModel>, config: CleanConfig)
    ensures
        ({
            let zone = protected_zone(m, config.keep_last_n_dialogs as nat);
            let superseded = superseded_ids(file_reads(m, zone));
            let rs = results_outside(m, m.len(), zone);
            let blocks = blocks_outside(m, m.len(), zone);
            let t = preview_totals(m, config);
            &&& t.thinking_blocks == blocks.filter(
                |b: AgentContentModel| b is Thinking || b is RedactedThinking,
            ).len()
            &&& t.results_truncated == rs.filter(
                |e: (Seq<char>, ToolResultModel)| bytes_over(e.1, config, superseded) > 0,
            ).len()
            &&& t.bytes_to_truncate == total_of(
                rs,
                |e: (Seq<char>, ToolResultModel)| bytes_over(e.1, config, superseded),
            )
            &&& t.duplicates == rs.filter(
                |e: (Seq<char>, ToolResultModel)| superseded.contains(e.1.tool_use_id),
            ).len()
            &&& t.bytes_to_remove == block_sizes(blocks).thinking + total_of(
                Seq::new(m.len(), |i: int| i),
                |i: int|
                    if m[i] is Agent && !zone.contains(i as usize)
                        && m[i]->Agent_0.reasoning_details is Some {
                        byte_count(compact_text(m[i]->Agent_0.reasoning_details->0))
                    } else {
                        0
                    },
            ) + total_of(
                rs,
                |e: (Seq<char>, ToolResultModel)| bytes_superseded(e.1, superseded),
            )
        }),
{
    let zone = protected_zone(m, config.keep_last_n_dialogs as nat);
    lemma_previewed(m, m.len(), zone, config, superseded_ids(file_reads(m, zone)));
    law_sizes_of_blocks(blocks_outside(m, m.len(), zone));
}

/// A preview hands on the figures that it counted and the two sizes it was given.
pub proof fn law_a_preview_hands_its_figures_on(
    p: CleanupPreview,
    t: PreviewTotals,
    original_size: nat,
    new_size: nat,
)
    requires
        is_preview(p, t, original_size, new_size),
    ensures
        p.bytes_to_remove == t.bytes_to_remove,
        p.bytes_to_truncate == t.bytes_to_truncate,
        p.thinking_blocks_removed == t.thinking_blocks,
        p.tool_results_truncated == t.results_truncated,
        p.duplicate_read_file_removed == t.duplicates,
        p.original_size == original_size,
        p.estimated_new_size == new_size,
{
}

/// Two results of one tool whose contents have the same text count alike in a
/// preview, whatever shape the contents have: truncated exactly if the text
/// takes more bytes than the limit, by the bytes that are over.
pub proof fn law_the_preview_counts_texts(
    t: PreviewTotals,
    r: ToolResultModel,
    config: CleanConfig,
    superseded: Set<Seq<char>>,
    key: Seq<char>,
    s: Seq<char>,
    l: usize,
)
    requires
        !superseded.contains(r.tool_use_id),
        r.content is Some,
        content_text(r.content->0) == Some(s),
        byte_limit(r.tool_name, config) == Some(l),
    ensures
        ({
            let alone = ToolResultModel { content: Some(Json::Text(s)), ..r };
            let after = with_results(t, seq![(key, r)], config, superseded);
            &&& after == with_results(t, seq![(key, alone)], config, superseded)
            &&& byte_count(s) <= l ==> after == t
            &&& byte_count(s) > l ==> after.results_truncated == t.results_truncated + 1
                && after.bytes_to_truncate == t.bytes_to_truncate + byte_count(s) - l
                && after.bytes_to_remove == t.bytes_to_remove && after.duplicates == t.duplicates
                && after.thinking_blocks == t.thinking_blocks
        }),
{
    let alone = ToolResultModel { content: Some(Json::Text(s)), ..r };
    assert(seq![(key, r)].drop_last() =~= Seq::empty());
    assert(seq![(key, alone)].drop_last() =~= Seq::empty());
    reveal_with_fuel(with_results, 2);
}

proof fn lemma_figures(m: Seq<MessageModel>, n: nat, keep: nat)
    requires
        n <= m.len() <= usize::MAX,
    ensures
        figures(m, n as int, protected_zone(m, keep)) == Seq::new(
            n,
            |i: int|
                if m[i] is Agent && m[i]->Agent_0.tool_results is Some {
                    let rs = m[i]->Agent_0.tool_results->0;
                    Seq::new(
                        rs.len(),
                        |p: int|
                            ResultFigure {
                                tool: rs[p].1.tool_name,
                                bytes: analyzed_size(rs[p].1.content),
                                output_bytes: match rs[p].1.output {
                                    Some(v) => byte_count(compact_text(v)),
                                    None => 0,
                                },
                                protected: is_protected(m, keep, i),
                            },
                    )
                } else {
                    Seq::empty()
                },
        ).flatten_alt(),
    decreases n,
{
    if n > 0 {
        let less = (n - 1) as nat;
        lemma_figures(m, less, keep);
        let of = |i: int|
            if m[i] is Agent && m[i]->Agent_0.tool_results is Some {
                let rs = m[i]->Agent_0.tool_results->0;
                Seq::new(
                    rs.len(),
                    |p: int|
                        ResultFigure {
                            tool: rs[p].1.tool_name,
                            bytes: analyzed_size(rs[p].1.content),
                            output_bytes: match rs[p].1.output {
                                Some(v) => byte_count(compact_text(v)),
                                None => 0,
                            },
                            protected: is_protected(m, keep, i),
                        },
                )
            } else {
                Seq::empty()
            };
        assert(Seq::new(n, of).drop_last() =~= Seq::new(less, of));
        assert(Seq::new(n, of).last() == of(n - 1));
        assert(protected_zone(m, keep).contains((n - 1) as usize) == is_protected(m, keep, n - 1));
        if let MessageModel::Agent(a) = m[n - 1] {
            assert(of(n - 1) =~= crate::analysis::figures_of(
                results_of(a),
                is_protected(m, keep, n - 1),
            ));
        }
        assert(figures(m, n as int, protected_zone(m, keep)) =~= Seq::new(n, of).flatten_alt());
    }
}

/// An analysis counts every tool result of a thread, in order, with the name
/// of its tool, the size of its content, the size of its output's JSON text,
/// and whether its message is protected.
pub proof fn law_every_result_is_analyzed(m: Seq<MessageModel>, keep: nat)
    requires
        m.len() <= usize::MAX,
    ensures
        thread_figures(m, keep) == Seq::new(
            m.len(),
            |i: int|
                if m[i] is Agent && m[i]->Agent_0.tool_results is Some {
                    let rs = m[i]->Agent_0.tool_results->0;
                    Seq::new(
                        rs.len(),
                        |p: int|
                            ResultFigure {
                                tool: rs[p].1.tool_name,
                                bytes: analyzed_size(rs[p].1.content),
                                output_bytes: match rs[p].1.output {
                                    Some(v) => byte_count(compact_text(v)),
                                    None => 0,
                                },
                                protected: is_protected(m, keep, i),
                            },
                    )
                } else {
                    Seq::empty()
                },
        ).flatten_alt(),
{
    lemma_figures(m, m.len(), keep);
}

/// The figures of one tool are over its results alone: how many there are, how
/// many of them are protected, the bytes of all and of the largest, and what a
/// default cleanup saves on those that are not protected, which is what content
/// is over the limit of the tool and output over half of it.
pub proof fn law_figures_of_a_tool(f: Seq<ResultFigure>, tool: Seq<char>)
    ensures
        ({
            let c = category(f, tool);
            let own = f.filter(|x: ResultFigure| x.tool == tool);
            &&& c.count == own.len()
            &&& c.in_protected == own.filter(|x: ResultFigure| x.protected).len()
            &&& c.total_bytes == total_of(own, |x: ResultFigure| x.bytes)
            &&& forall|i: int| 0 <= i < own.len() ==> (#[trigger] own[i]).bytes <= c.max_bytes
            &&& own.len() == 0 ==> c.max_bytes == 0
            &&& own.len() > 0 ==> exists|i: int|
                0 <= i < own.len() && (#[trigger] own[i]).bytes == c.max_bytes
            &&& c.cleanable_bytes == total_of(
                own,
                |x: ResultFigure|
                    if x.protected || default_limit(tool) is None {
                        0
                    } else {
                        let l = default_limit(tool)->0 as int;
                        ((if x.bytes > l {
                            x.bytes - l
                        } else {
                            0
                        }) + (if x.output_bytes > l / 2 {
                            x.output_bytes - l / 2
                        } else {
                            0
                        })) as nat
                    },
            )
        }),
    decreases f.len(),
{
    reveal(Seq::filter);
    if f.len() > 0 {
        law_figures_of_a_tool(f.drop_last(), tool);
        let own = f.filter(|x: ResultFigure| x.tool == tool);
        let before = f.drop_last().filter(|x: ResultFigure| x.tool == tool);
        let was = category(f.drop_last(), tool);
        let last = f.last();
        if last.tool == tool {
            assert(own == before.push(last));
            assert(own.drop_last() =~= before);
            assert(own[own.len() - 1] == last);
            if last.bytes <= was.max_bytes && before.len() > 0 {
                let i = choose|i: int|
                    0 <= i < before.len() && (#[trigger] before[i]).bytes == was.max_bytes;
                assert(own[i].bytes == was.max_bytes);
            }
            assert forall|i: int| 0 <= i < own.len() implies (#[trigger] own[i]).bytes <= category(
                f,
                tool,
            ).max_bytes by {
                if i < before.len() {
                    assert(own[i] == before[i]);
                }
            }
        }
    }
}

/// The bytes of all results together.
pub proof fn law_bytes_of_all_results(f: Seq<ResultFigure>)
    ensures
        figure_bytes(f) == total_of(f, |x: ResultFigure| x.bytes),
    decreases f.len(),
{
    if f.len() > 0 {
        law_bytes_of_all_results(f.drop_last());
    }
}

/// What an analysis says: one row for each tool that has a result, with the
/// figures of that tool, the row with the most bytes first; the bytes of
/// results, texts, inputs and User content, and all four together; and how many
/// messages there are and how many are protected.
pub proof fn law_what_an_analysis_says(
    r: ThreadAnalysis,
    m: Seq<MessageModel>,
    keep: nat,
    i: int,
    j: int,
    tool: Seq<char>,
)
    requires
        is_analysis_of(r, m, keep),
    ensures
        ({
            let f = thread_figures(m, keep);
            let rows = r.categories@;
            &&& 0 <= i < rows.len() ==> {
                let c = category(f, rows[i].tool_name@);
                &&& rows[i].count == c.count
                &&& rows[i].total_bytes == c.total_bytes
                &&& rows[i].max_bytes == c.max_bytes
                &&& rows[i].in_protected == c.in_protected
                &&& rows[i].cleanable_bytes == c.cleanable_bytes
            }
            &&& 0 <= i < j < rows.len() ==> rows[i].tool_name@ != rows[j].tool_name@
                && rows[i].total_bytes >= rows[j].total_bytes
            &&& (exists|k: int| 0 <= k < rows.len() && (#[trigger] rows[k]).tool_name@ == tool)
                <==> (exists|p: int| 0 <= p < f.len() && (#[trigger] f[p]).tool == tool)
            &&& r.total_tool_result_bytes == total_of(f, |x: ResultFigure| x.bytes)
            &&& r.total_agent_text_bytes == thread_sizes(m).agent_text
            &&& r.total_tool_use_bytes == thread_sizes(m).raw_input
            &&& r.total_user_bytes == thread_sizes(m).user_text
            &&& r.grand_total_bytes == r.total_tool_result_bytes + r.total_agent_text_bytes
                + r.total_tool_use_bytes + r.total_user_bytes
            &&& r.grand_total_bytes == grand_total(m, keep)
            &&& r.message_count == m.len()
            &&& r.protected_message_count == protected_count(m, keep)
        }),
{
    let f = thread_figures(m, keep);
    let rows = r.categories@;
    let views = seq_views(rows);
    law_bytes_of_all_results(f);
    if 0 <= i < rows.len() {
        assert(views[i] == rows[i]@);
        if i < j < rows.len() {
            assert(views[j] == rows[j]@);
            let bytes = Seq::new(rows.len(), |k: int| rows[k].total_bytes);
            assert(bytes[i] == rows[i].total_bytes && bytes[j] == rows[j].total_bytes);
        }
    }
    if exists|k: int| 0 <= k < rows.len() && (#[trigger] rows[k]).tool_name@ == tool {
        let k = choose|k: int| 0 <= k < rows.len() && (#[trigger] rows[k]).tool_name@ == tool;
        assert(views[k] == rows[k]@);
        assert(has_figure(f, tool));
    }
    if exists|p: int| 0 <= p < f.len() && (#[trigger] f[p]).tool == tool {
        assert(has_figure(f, tool));
        assert(has_key(views, tool));
        let k = choose|k: int| 0 <= k < views.len() && (#[trigger] views[k]).0 == tool;
        assert(views[k] == rows[k]@);
        assert(rows[k].tool_name@ == tool);
    }
}

/// What one more result adds to the figures of a tool, whatever its limit: one
/// to the count, and one to the protected or the bytes over the limit and over
/// half of it to what can be saved.
pub proof fn law_one_more_result(
    c: CategoryModel,
    bytes: nat,
    output_bytes: nat,
    protected: bool,
    l: usize,
)
    ensures
        ({
            let none = CategoryModel::zero();
            let after = c.with_result(bytes, output_bytes, protected, Some(l));
            let whole = c.with_result(bytes, output_bytes, protected, None);
            &&& none.count == 0 && none.total_bytes == 0 && none.max_bytes == 0
            &&& none.in_protected == 0 && none.cleanable_bytes == 0
            &&& after.count == c.count + 1 && whole.count == c.count + 1
            &&& after.total_bytes == c.total_bytes + bytes
            &&& whole.total_bytes == after.total_bytes
            &&& after.max_bytes >= bytes && after.max_bytes >= c.max_bytes
            &&& after.max_bytes == bytes || after.max_bytes == c.max_bytes
            &&& whole.max_bytes == after.max_bytes
            &&& protected ==> after.in_protected == c.in_protected + 1
            &&& !protected ==> after.in_protected == c.in_protected
            &&& whole.in_protected == after.in_protected
            &&& whole.cleanable_bytes == c.cleanable_bytes
            &&& protected ==> after.cleanable_bytes == c.cleanable_bytes
            &&& !protected ==> {
                let more = after.cleanable_bytes - c.cleanable_bytes;
                let half = l as int / 2;
                &&& bytes <= l && output_bytes <= half ==> more == 0
                &&& bytes <= l && output_bytes >= half ==> more + half == output_bytes
                &&& bytes >= l && output_bytes <= half ==> more + l == bytes
                &&& bytes >= l && output_bytes >= half ==> more + l + half == bytes + output_bytes
            }
        }),
{
}

/// What one more result and the thinking of one more message add to a preview,
/// given the size of the content and the limit.
pub proof fn law_one_more_previewed(
    t: PreviewTotals,
    n: nat,
    limit: Option<usize>,
    blocks: nat,
    bytes: nat,
)
    ensures
        ({
            let none = PreviewTotals::zero();
            &&& none.bytes_to_remove == 0 && none.bytes_to_truncate == 0
            &&& none.thinking_blocks == 0 && none.results_truncated == 0 && none.duplicates == 0
        }),
        t.with_thinking(blocks, bytes) == (PreviewTotals {
            bytes_to_remove: t.bytes_to_remove + bytes,
            bytes_to_truncate: t.bytes_to_truncate,
            thinking_blocks: t.thinking_blocks + blocks,
            results_truncated: t.results_truncated,
            duplicates: t.duplicates,
        }),
        t.with_result(true, Some(n), limit) == (PreviewTotals {
            bytes_to_remove: t.bytes_to_remove + n,
            bytes_to_truncate: t.bytes_to_truncate,
            thinking_blocks: t.thinking_blocks,
            results_truncated: t.results_truncated,
            duplicates: t.duplicates + 1,
        }),
        t.with_result(true, None, limit) == t.with_result(true, Some(0), limit),
        t.with_result(false, None, limit) == t,
        t.with_result(false, Some(n), None) == t,
        limit matches Some(l) ==> {
            &&& n <= l ==> t.with_result(false, Some(n), limit) == t
            &&& n > l ==> t.with_result(false, Some(n), limit) == (PreviewTotals {
                bytes_to_remove: t.bytes_to_remove,
                bytes_to_truncate: (t.bytes_to_truncate + n - l) as nat,
                thinking_blocks: t.thinking_blocks,
                results_truncated: t.results_truncated + 1,
                duplicates: t.duplicates,
            })
        },
{
}

/// The results that a preview counts as truncated are those whose text the
/// cleanup cuts: of a result that is not skipped and not superseded, the text
/// of the content after the cleanup is the text before, cut at the limit of the
/// tool where it has one, and it is the same text where nothing is over.
pub proof fn law_the_preview_agrees_with_the_cleanup(
    r: ToolResultModel,
    config: CleanConfig,
    superseded: Set<Seq<char>>,
    s: Seq<char>,
)
    requires
        !config.skips(r.tool_name),
        !superseded.contains(r.tool_use_id),
        r.content is Some,
        content_text(r.content->0) == Some(s),
    ensures
        ({
            let after = cleaned_result(r, config, superseded).content;
            let over = bytes_over(r, config, superseded);
            &&& after is Some
            &&& over == 0 ==> content_text(after->0) == Some(s)
            &&& over > 0 ==> {
                let l = byte_limit(r.tool_name, config)->0;
                &&& byte_limit(r.tool_name, config) is Some
                &&& byte_count(s) == l + over
                &&& content_text(after->0) == Some(truncated(s, l as nat))
            }
        }),
{
}

/// When the figures of statistics, analyses and previews can be held: each of
/// them is no larger than a machine word.
pub proof fn law_figures_that_can_be_held(
    m: Seq<MessageModel>,
    keep: nat,
    config: CleanConfig,
    tool: Seq<char>,
)
    ensures
        stats_fit(m) ==> {
            let sizes = thread_sizes(m);
            &&& sizes.user_text + sizes.agent_text <= usize::MAX
            &&& sizes.thinking <= usize::MAX
            &&& sizes.results <= usize::MAX
            &&& occurrences(tool_calls(m), tool) <= usize::MAX
        },
        ({
            let sizes = thread_sizes(m);
            sizes.user_text + sizes.agent_text <= usize::MAX && sizes.thinking <= usize::MAX
                && sizes.results <= usize::MAX && tool_calls(m).len() <= usize::MAX
        }) ==> stats_fit(m),
        analysis_fits(m, keep) ==> {
            let c = category(thread_figures(m, keep), tool);
            &&& grand_total(m, keep) <= usize::MAX
            &&& c.count <= usize::MAX && c.total_bytes <= usize::MAX && c.max_bytes <= usize::MAX
            &&& c.in_protected <= usize::MAX && c.cleanable_bytes <= usize::MAX
        },
        ({
            &&& grand_total(m, keep) <= usize::MAX
            &&& forall|x: Seq<char>|
                {
                    let c = #[trigger] category(thread_figures(m, keep), x);
                    c.count <= usize::MAX && c.total_bytes <= usize::MAX && c.max_bytes
                        <= usize::MAX && c.in_protected <= usize::MAX && c.cleanable_bytes
                        <= usize::MAX
                }
        }) ==> analysis_fits(m, keep),
        ({
            let t = preview_totals(m, config);
            t.fits() <==> t.bytes_to_remove <= usize::MAX && t.bytes_to_truncate <= usize::MAX
                && t.thinking_blocks <= usize::MAX && t.results_truncated <= usize::MAX
                && t.duplicates <= usize::MAX
        }),
{
    assert forall|name: Seq<char>| #[trigger] occurrences(tool_calls(m), name) <= tool_calls(
        m,
    ).len() by {
        law_occurrences_are_entries(tool_calls(m), name);
        tool_calls(m).lemma_filter_len(|x: Seq<char>| x == name);
    }
    if analysis_fits(m, keep) {
        assert(category(thread_figures(m, keep), tool).fits());
    }
}

} // verus!
