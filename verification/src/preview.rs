//! What a cleanup would remove from a thread.
use crate::clean::{clean_thread, cleaned_thread, try_clean_thread, usage_fits};
use crate::config::{byte_limit, tool_byte_limit, CleanConfig};
use crate::dedup::{compute_duplicate_read_file_ids, file_reads, superseded_ids};
use crate::duplicate::seq_views;
use crate::json::Json;
use crate::json_form::{compact_len, compact_size};
use crate::measure::{block_sizes, measure_blocks, opt_json_len, opt_json_size, results_of};
use crate::protect::{compute_protected_indices, protected_zone};
use crate::text::{byte_count, byte_len};
use crate::tool_results::{content_size, content_value_len};
use crate::types::{
    AgentContent, AgentContentModel, AgentMessage, AgentModel, CleanupPreview, DbThread, Message,
    MessageModel, ToolResultModel,
};
use vstd::arithmetic::overflow::CheckedUsize;
use vstd::hash_set::StringHashSet;
use vstd::prelude::*;

verus! {

/// What a cleanup removes, counted up.
pub struct PreviewTotals {
    pub bytes_to_remove: nat,
    pub bytes_to_truncate: nat,
    pub thinking_blocks: nat,
    pub results_truncated: nat,
    pub duplicates: nat,
}

impl PreviewTotals {
    /// Nothing.
    pub open spec fn zero() -> PreviewTotals {
        PreviewTotals {
            bytes_to_remove: 0,
            bytes_to_truncate: 0,
            thinking_blocks: 0,
            results_truncated: 0,
            duplicates: 0,
        }
    }

    /// Whether each figure can be held.
    pub open spec fn fits(self) -> bool {
        &&& self.bytes_to_remove <= usize::MAX
        &&& self.bytes_to_truncate <= usize::MAX
        &&& self.thinking_blocks <= usize::MAX
        &&& self.results_truncated <= usize::MAX
        &&& self.duplicates <= usize::MAX
    }

    /// With the thinking of one message: `blocks` blocks of `bytes` bytes together.
    pub open spec fn with_thinking(self, blocks: nat, bytes: nat) -> PreviewTotals {
        PreviewTotals {
            thinking_blocks: self.thinking_blocks + blocks,
            bytes_to_remove: self.bytes_to_remove + bytes,
            ..self
        }
    }

    /// With one tool result, given the size of its content and the byte limit
    /// of its tool. A superseded file read goes as a whole; any other result
    /// over its limit loses what is over.
    pub open spec fn with_result(
        self,
        is_duplicate: bool,
        content: Option<nat>,
        limit: Option<usize>,
    ) -> PreviewTotals {
        if is_duplicate {
            PreviewTotals {
                duplicates: self.duplicates + 1,
                bytes_to_remove: self.bytes_to_remove + match content {
                    Some(n) => n,
                    None => 0,
                },
                ..self
            }
        } else {
            match (content, limit) {
                (Some(n), Some(lim)) => if n > lim {
                    PreviewTotals {
                        results_truncated: self.results_truncated + 1,
                        bytes_to_truncate: self.bytes_to_truncate + (n - lim) as nat,
                        ..self
                    }
                } else {
                    self
                },
                _ => self,
            }
        }
    }
}

/// Size of an optional content value.
pub open spec fn opt_content_size(o: Option<Json>) -> Option<nat> {
    match o {
        Some(v) => Some(content_size(v)),
        None => None,
    }
}

/// Number of blocks of thinking, redacted or not.
pub open spec fn thinking_count(c: Seq<AgentContentModel>) -> nat
    decreases c.len(),
{
    if c.len() == 0 {
        0
    } else {
        thinking_count(c.drop_last()) + if c.last() is Thinking || c.last() is RedactedThinking {
            1nat
        } else {
            0nat
        }
    }
}

/// With the tool results of one message.
pub open spec fn with_results(
    t: PreviewTotals,
    results: Seq<(Seq<char>, ToolResultModel)>,
    config: CleanConfig,
    dups: Set<Seq<char>>,
) -> PreviewTotals
    decreases results.len(),
{
    if results.len() == 0 {
        t
    } else {
        let r = results.last().1;
        with_results(t, results.drop_last(), config, dups).with_result(
            dups.contains(r.tool_use_id),
            opt_content_size(r.content),
            byte_limit(r.tool_name, config),
        )
    }
}

/// With one Agent message outside the protected zone.
pub open spec fn with_agent(
    t: PreviewTotals,
    a: AgentModel,
    config: CleanConfig,
    dups: Set<Seq<char>>,
) -> PreviewTotals {
    with_results(
        t.with_thinking(
            thinking_count(a.content),
            block_sizes(a.content).thinking + opt_json_size(a.reasoning_details),
        ),
        results_of(a),
        config,
        dups,
    )
}

/// What a cleanup removes from the first `n` messages.
pub open spec fn previewed(
    m: Seq<MessageModel>,
    n: int,
    zone: Set<usize>,
    config: CleanConfig,
    dups: Set<Seq<char>>,
) -> PreviewTotals
    decreases n,
{
    if n <= 0 {
        PreviewTotals::zero()
    } else {
        let before = previewed(m, n - 1, zone, config, dups);
        match m[n - 1] {
            MessageModel::Agent(a) => if zone.contains((n - 1) as usize) {
                before
            } else {
                with_agent(before, a, config, dups)
            },
            _ => before,
        }
    }
}

/// What a cleanup removes from a list of messages.
pub open spec fn preview_totals(m: Seq<MessageModel>, config: CleanConfig) -> PreviewTotals {
    let zone = protected_zone(m, config.keep_last_n_dialogs as nat);
    previewed(m, m.len() as int, zone, config, superseded_ids(file_reads(m, zone)))
}

/// The preview of a cleanup.
pub open spec fn is_preview(
    p: CleanupPreview,
    t: PreviewTotals,
    original_size: nat,
    new_size: nat,
) -> bool {
    &&& p.bytes_to_remove == t.bytes_to_remove
    &&& p.bytes_to_truncate == t.bytes_to_truncate
    &&& p.thinking_blocks_removed == t.thinking_blocks
    &&& p.tool_results_truncated == t.results_truncated
    &&& p.duplicate_read_file_removed == t.duplicates
    &&& p.original_size == original_size
    &&& p.estimated_new_size == new_size
}

/// What a cleanup removes, as it is counted up.
pub struct PreviewTally {
    bytes_to_remove: CheckedUsize,
    bytes_to_truncate: CheckedUsize,
    thinking_blocks: CheckedUsize,
    results_truncated: CheckedUsize,
    duplicates: CheckedUsize,
}

impl View for PreviewTally {
    type V = PreviewTotals;

    closed spec fn view(&self) -> PreviewTotals {
        PreviewTotals {
            bytes_to_remove: self.bytes_to_remove@,
            bytes_to_truncate: self.bytes_to_truncate@,
            thinking_blocks: self.thinking_blocks@,
            results_truncated: self.results_truncated@,
            duplicates: self.duplicates@,
        }
    }
}

impl PreviewTally {
    /// Nothing counted yet.
    pub fn new() -> (r: Self)
        ensures
            r@ == PreviewTotals::zero(),
    {
        PreviewTally {
            bytes_to_remove: CheckedUsize::new(0),
            bytes_to_truncate: CheckedUsize::new(0),
            thinking_blocks: CheckedUsize::new(0),
            results_truncated: CheckedUsize::new(0),
            duplicates: CheckedUsize::new(0),
        }
    }

    /// Counts a tool result, given the size of its content and the byte limit
    /// of its tool.
    pub fn record_result(
        &mut self,
        is_duplicate: bool,
        content: Option<usize>,
        limit: Option<usize>,
    )
        ensures
            final(self)@ == old(self)@.with_result(
                is_duplicate,
                match content {
                    Some(n) => Some(n as nat),
                    None => None,
                },
                limit,
            ),
    {
        if is_duplicate {
            self.duplicates = self.duplicates.add_value(1);
            if let Some(n) = content {
                self.bytes_to_remove = self.bytes_to_remove.add_value(n);
            }
        } else if let (Some(n), Some(lim)) = (content, limit) {
            if n > lim {
                self.results_truncated = self.results_truncated.add_value(1);
                self.bytes_to_truncate = self.bytes_to_truncate.add_value(n - lim);
            }
        }
    }

    /// The preview, where all its figures can be held.
    pub fn finish(&self, original_size: usize, new_size: usize) -> (r: Option<CleanupPreview>)
        ensures
            r is Some <==> self@.fits(),
            r matches Some(p) ==> is_preview(p, self@, original_size as nat, new_size as nat),
    {
        match (
            self.bytes_to_remove.to_option(),
            self.bytes_to_truncate.to_option(),
            self.thinking_blocks.to_option(),
            self.results_truncated.to_option(),
            self.duplicates.to_option(),
        ) {
            (Some(a), Some(b), Some(c), Some(d), Some(e)) => Some(
                CleanupPreview {
                    bytes_to_remove: a,
                    bytes_to_truncate: b,
                    thinking_blocks_removed: c,
                    tool_results_truncated: d,
                    duplicate_read_file_removed: e,
                    original_size,
                    estimated_new_size: new_size,
                },
            ),
            _ => None,
        }
    }

    fn record_agent(
        &mut self,
        agent: &AgentMessage,
        config: &CleanConfig,
        duplicate_ids: &StringHashSet,
    )
        ensures
            final(self)@ == with_agent(old(self)@, agent@, *config, duplicate_ids@),
    {
        let blocks = measure_blocks(&agent.content);
        let count: usize = count_thinking(&agent.content);
        self.thinking_blocks = self.thinking_blocks.add_value(count);
        self.bytes_to_remove =
        self.bytes_to_remove.add_checked(&blocks.thinking).add_value(
            opt_json_len(&agent.reasoning_details),
        );
        let ghost start = self@;
        assert(start == old(self)@.with_thinking(
            thinking_count(agent@.content),
            block_sizes(agent@.content).thinking + opt_json_size(agent@.reasoning_details),
        ));
        if let Some(results) = &agent.tool_results {
            let ghost all = results@;
            let len: usize = results.len();
            let mut i: usize = 0;
            assert(all.take(0) =~= Seq::<(Seq<char>, ToolResultModel)>::empty());
            while i < len
                invariant
                    i <= len,
                    all == results@,
                    len == all.len(),
                    self@ == with_results(start, all.take(i as int), *config, duplicate_ids@),
                decreases len - i,
            {
                assert(all.take(i + 1).drop_last() =~= all.take(i as int));
                assert(all.take(i + 1).last() == all[i as int]);
                let result = results.value_at(i);
                let content: Option<usize> = match &result.content {
                    Some(v) => Some(content_value_len(v)),
                    None => None,
                };
                self.record_result(
                    duplicate_ids.contains(result.tool_use_id.as_str()),
                    content,
                    tool_byte_limit(result.tool_name.as_str(), config),
                );
                i += 1;
            }
            assert(all.take(i as int) =~= all);
        }
    }
}

fn count_thinking(content: &Vec<AgentContent>) -> (r: usize)
    ensures
        r == thinking_count(seq_views(content@)),
{
    let ghost c = seq_views(content@);
    let mut count: usize = 0;
    let mut i: usize = 0;
    assert(c.take(0) =~= Seq::<AgentContentModel>::empty());
    while i < content.len()
        invariant
            i <= content@.len(),
            c == seq_views(content@),
            count <= i,
            count == thinking_count(c.take(i as int)),
        decreases content@.len() - i,
    {
        assert(c.take(i + 1).drop_last() =~= c.take(i as int));
        assert(c.take(i + 1).last() == content@[i as int]@);
        match &content[i] {
            AgentContent::Thinking(_) => {
                count += 1;
            },
            AgentContent::RedactedThinking(_) => {
                count += 1;
            },
            _ => {},
        }
        i += 1;
    }
    assert(c.take(i as int) =~= c);
    count
}

/// Counts up what a cleanup removes from a thread.
fn tally_preview(thread: &DbThread, config: &CleanConfig) -> (r: PreviewTally)
    ensures
        r@ == preview_totals(thread@.messages, *config),
{
    broadcast use vstd::std_specs::hash::group_hash_axioms;

    let protected = compute_protected_indices(
        thread.messages.as_slice(),
        config.keep_last_n_dialogs,
    );
    let duplicate_ids = compute_duplicate_read_file_ids(thread.messages.as_slice(), &protected);
    let ghost m = thread@.messages;
    let mut tally = PreviewTally::new();
    let mut i: usize = 0;
    while i < thread.messages.len()
        invariant
            i <= thread.messages@.len(),
            m == seq_views(thread.messages@),
            tally@ == previewed(m, i as int, protected@, *config, duplicate_ids@),
        decreases thread.messages@.len() - i,
    {
        assert(m[i as int] == thread.messages@[i as int]@);
        if !protected.contains(&i) {
            if let Message::Agent { agent } = &thread.messages[i] {
                tally.record_agent(agent, config, &duplicate_ids);
            }
        }
        i += 1;
    }
    tally
}

/// Previews a cleanup, given the JSON text of the thread. The new size is that
/// of the compact JSON text of the thread that the cleanup leaves.
pub fn preview_cleanup(thread: &DbThread, config: &CleanConfig, raw_json: &str) -> (r:
    CleanupPreview)
    requires
        preview_totals(thread@.messages, *config).fits(),
        usage_fits(thread@),
    ensures
        is_preview(
            r,
            preview_totals(thread@.messages, *config),
            byte_count(raw_json@),
            compact_size(cleaned_thread(thread@, *config)),
        ),
{
    let new_size: usize = compact_len(&clean_thread(thread, config));
    tally_preview(thread, config).finish(byte_len(raw_json), new_size).unwrap()
}

/// Previews a cleanup, or returns `None` where a figure cannot be held or the
/// token usage that is left does not fit in 64 bits.
pub fn try_preview_cleanup(thread: &DbThread, config: &CleanConfig, raw_json: &str) -> (r: Option<
    CleanupPreview,
>)
    ensures
        r is Some <==> preview_totals(thread@.messages, *config).fits() && usage_fits(thread@),
        r matches Some(p) ==> is_preview(
            p,
            preview_totals(thread@.messages, *config),
            byte_count(raw_json@),
            compact_size(cleaned_thread(thread@, *config)),
        ),
{
    if tally_preview(thread, config).finish(0, 0).is_some() && try_clean_thread(
        thread,
        config,
    ).is_some() {
        Some(preview_cleanup(thread, config, raw_json))
    } else {
        None
    }
}

} // verus!
