//! Analysis of a thread by tool.
use crate::config::{default_limit, tool_byte_limit, CleanConfig};
use crate::duplicate::{opt_view, seq_views};
use crate::json::{compact_text, Json, JsonValue};
use crate::measure::{
    json_len, measure_messages, opt_json_len, opt_json_size, results_of, thread_sizes,
};
use crate::protect::{compute_protected_indices, protected_count, protected_zone};
use crate::rank::{
    insert_ranked, is_descending, lemma_list_nothing, lemma_list_one_more, lists_entries,
};
use crate::str_map::{
    has_key, inserted, key_index, keys_distinct, lemma_inserted, lemma_key_index, lookup, StrMap,
};
use crate::text::{byte_count, byte_len};
use crate::tool_results::{content_text, extract_content_text};
use crate::types::{
    AgentMessage, CategoryModel, DbThread, Message, MessageModel, ThreadAnalysis, ToolCategoryStats,
    ToolResultModel,
};
use vstd::arithmetic::overflow::CheckedUsize;
use vstd::prelude::*;

verus! {

/// The figures of one tool result.
pub struct ResultFigure {
    pub tool: Seq<char>,
    pub bytes: nat,
    pub output_bytes: nat,
    pub protected: bool,
}

/// What is over a bound.
pub open spec fn excess(n: nat, bound: nat) -> nat {
    if n > bound {
        (n - bound) as nat
    } else {
        0
    }
}

/// What a cleanup saves on a result: its content is cut at the limit and its
/// output at half of it.
pub open spec fn savings(bytes: nat, output_bytes: nat, limit: Option<usize>) -> nat {
    match limit {
        Some(lim) => excess(bytes, lim as nat) + excess(output_bytes, (lim / 2) as nat),
        None => 0,
    }
}

impl CategoryModel {
    /// No results.
    pub open spec fn zero() -> CategoryModel {
        CategoryModel {
            count: 0,
            total_bytes: 0,
            max_bytes: 0,
            in_protected: 0,
            cleanable_bytes: 0,
        }
    }

    /// With one more result.
    pub open spec fn with_result(
        self,
        bytes: nat,
        output_bytes: nat,
        protected: bool,
        limit: Option<usize>,
    ) -> CategoryModel {
        CategoryModel {
            count: self.count + 1,
            total_bytes: self.total_bytes + bytes,
            max_bytes: if bytes > self.max_bytes {
                bytes
            } else {
                self.max_bytes
            },
            in_protected: self.in_protected + if protected {
                1nat
            } else {
                0nat
            },
            cleanable_bytes: self.cleanable_bytes + if protected {
                0
            } else {
                savings(bytes, output_bytes, limit)
            },
        }
    }

    /// Whether each figure can be held.
    pub open spec fn fits(self) -> bool {
        &&& self.count <= usize::MAX
        &&& self.total_bytes <= usize::MAX
        &&& self.max_bytes <= usize::MAX
        &&& self.in_protected <= usize::MAX
        &&& self.cleanable_bytes <= usize::MAX
    }
}

/// Size of the content of a tool result: that of its text, or of its JSON text
/// where it has none.
pub open spec fn analyzed_size(content: Option<Json>) -> nat {
    match content {
        Some(v) => match content_text(v) {
            Some(s) => byte_count(s),
            None => byte_count(compact_text(v)),
        },
        None => 0,
    }
}

/// The figures of one tool result.
pub open spec fn figure_of(r: ToolResultModel, protected: bool) -> ResultFigure {
    ResultFigure {
        tool: r.tool_name,
        bytes: analyzed_size(r.content),
        output_bytes: opt_json_size(r.output),
        protected,
    }
}

/// The figures of the tool results of one message.
pub open spec fn figures_of(
    results: Seq<(Seq<char>, ToolResultModel)>,
    protected: bool,
) -> Seq<ResultFigure> {
    Seq::new(results.len(), |i: int| figure_of(results[i].1, protected))
}

/// The figures of the tool results of the first `n` messages, in order.
pub open spec fn figures(m: Seq<MessageModel>, n: int, zone: Set<usize>) -> Seq<ResultFigure>
    decreases n,
{
    if n <= 0 {
        Seq::empty()
    } else {
        match m[n - 1] {
            MessageModel::Agent(a) => figures(m, n - 1, zone) + figures_of(
                results_of(a),
                zone.contains((n - 1) as usize),
            ),
            _ => figures(m, n - 1, zone),
        }
    }
}

/// The figures of the tool results of a thread.
pub open spec fn thread_figures(m: Seq<MessageModel>, keep: nat) -> Seq<ResultFigure> {
    figures(m, m.len() as int, protected_zone(m, keep))
}

/// The figures of one tool.
pub open spec fn category(f: Seq<ResultFigure>, tool: Seq<char>) -> CategoryModel
    decreases f.len(),
{
    if f.len() == 0 {
        CategoryModel::zero()
    } else {
        let before = category(f.drop_last(), tool);
        let last = f.last();
        if last.tool == tool {
            before.with_result(
                last.bytes,
                last.output_bytes,
                last.protected,
                default_limit(tool),
            )
        } else {
            before
        }
    }
}

/// Whether a tool has a result.
pub open spec fn has_figure(f: Seq<ResultFigure>, tool: Seq<char>) -> bool {
    exists|i: int| 0 <= i < f.len() && (#[trigger] f[i]).tool == tool
}

/// Size of all results together.
pub open spec fn figure_bytes(f: Seq<ResultFigure>) -> nat
    decreases f.len(),
{
    if f.len() == 0 {
        0
    } else {
        figure_bytes(f.drop_last()) + f.last().bytes
    }
}

/// One row for each tool that has a result.
pub open spec fn categorizes(
    rows: Seq<(Seq<char>, CategoryModel)>,
    f: Seq<ResultFigure>,
) -> bool {
    &&& keys_distinct(rows)
    &&& forall|i: int|
        0 <= i < rows.len() ==> (#[trigger] rows[i]).1 == category(f, rows[i].0) && has_figure(
            f,
            rows[i].0,
        )
    &&& forall|tool: Seq<char>| #[trigger] has_figure(f, tool) ==> has_key(rows, tool)
}

/// All bytes of a thread that the analysis counts.
pub open spec fn grand_total(m: Seq<MessageModel>, keep: nat) -> nat {
    let sizes = thread_sizes(m);
    figure_bytes(thread_figures(m, keep)) + sizes.agent_text + sizes.raw_input + sizes.user_text
}

/// Whether the figures of an analysis can be held.
pub open spec fn analysis_fits(m: Seq<MessageModel>, keep: nat) -> bool {
    &&& grand_total(m, keep) <= usize::MAX
    &&& forall|tool: Seq<char>| #[trigger] category(thread_figures(m, keep), tool).fits()
}

/// The analysis of a thread.
pub open spec fn is_analysis_of(r: ThreadAnalysis, m: Seq<MessageModel>, keep: nat) -> bool {
    let sizes = thread_sizes(m);
    let f = thread_figures(m, keep);
    &&& categorizes(seq_views(r.categories@), f)
    &&& is_descending(Seq::new(r.categories@.len(), |i: int| r.categories@[i].total_bytes))
    &&& r.total_tool_result_bytes == figure_bytes(f)
    &&& r.total_agent_text_bytes == sizes.agent_text
    &&& r.total_tool_use_bytes == sizes.raw_input
    &&& r.total_user_bytes == sizes.user_text
    &&& r.grand_total_bytes == grand_total(m, keep)
    &&& r.message_count == m.len()
    &&& r.protected_message_count == protected_count(m, keep)
}

/// The figures of one tool, as they are added up.
pub struct CategoryTally {
    count: CheckedUsize,
    total_bytes: CheckedUsize,
    max_bytes: usize,
    in_protected: CheckedUsize,
    cleanable_bytes: CheckedUsize,
}

impl View for CategoryTally {
    type V = CategoryModel;

    closed spec fn view(&self) -> CategoryModel {
        CategoryModel {
            count: self.count@,
            total_bytes: self.total_bytes@,
            max_bytes: self.max_bytes as nat,
            in_protected: self.in_protected@,
            cleanable_bytes: self.cleanable_bytes@,
        }
    }
}

impl CategoryTally {
    /// No results yet.
    pub fn new() -> (r: Self)
        ensures
            r@ == CategoryModel::zero(),
    {
        CategoryTally {
            count: CheckedUsize::new(0),
            total_bytes: CheckedUsize::new(0),
            max_bytes: 0,
            in_protected: CheckedUsize::new(0),
            cleanable_bytes: CheckedUsize::new(0),
        }
    }

    /// The figures with one more result, given its sizes and the byte limit
    /// of its tool.
    pub fn record(
        &self,
        bytes: usize,
        output_bytes: usize,
        protected: bool,
        limit: Option<usize>,
    ) -> (r: Self)
        ensures
            r@ == self@.with_result(bytes as nat, output_bytes as nat, protected, limit),
    {
        let in_protected = if protected {
            self.in_protected.add_value(1)
        } else {
            self.in_protected.clone()
        };
        let cleanable_bytes = match (protected, limit) {
            (false, Some(lim)) => {
                let content_savings: usize = if bytes > lim {
                    bytes - lim
                } else {
                    0
                };
                let output_savings: usize = if output_bytes > lim / 2 {
                    output_bytes - lim / 2
                } else {
                    0
                };
                self.cleanable_bytes.add_value(content_savings).add_value(output_savings)
            },
            _ => self.cleanable_bytes.clone(),
        };
        CategoryTally {
            count: self.count.add_value(1),
            total_bytes: self.total_bytes.add_value(bytes),
            max_bytes: if bytes > self.max_bytes {
                bytes
            } else {
                self.max_bytes
            },
            in_protected,
            cleanable_bytes,
        }
    }

    /// The row of a tool, where all its figures can be held.
    pub fn finish(&self, tool_name: String) -> (r: Option<ToolCategoryStats>)
        ensures
            r is Some <==> self@.fits(),
            r matches Some(row) ==> row@ == (tool_name@, self@),
    {
        match (
            self.count.to_option(),
            self.total_bytes.to_option(),
            self.in_protected.to_option(),
            self.cleanable_bytes.to_option(),
        ) {
            (Some(count), Some(total_bytes), Some(in_protected), Some(cleanable_bytes)) => Some(
                ToolCategoryStats {
                    tool_name,
                    count,
                    total_bytes,
                    max_bytes: self.max_bytes,
                    in_protected,
                    cleanable_bytes,
                },
            ),
            _ => None,
        }
    }
}

fn analyze_content(content: &Option<JsonValue>) -> (r: usize)
    ensures
        r == analyzed_size(opt_view(*content)),
{
    match content {
        Some(v) => match extract_content_text(v) {
            Some(s) => byte_len(s.as_str()),
            None => json_len(v),
        },
        None => 0,
    }
}

/// A tool without results has no figures.
proof fn lemma_no_figures(f: Seq<ResultFigure>, tool: Seq<char>)
    requires
        !has_figure(f, tool),
    ensures
        category(f, tool) == CategoryModel::zero(),
    decreases f.len(),
{
    if f.len() > 0 {
        assert(f[f.len() - 1].tool != tool);
        if has_figure(f.drop_last(), tool) {
            let i = choose|i: int|
                0 <= i < f.len() - 1 && (#[trigger] f.drop_last()[i]).tool == tool;
            assert(f[i].tool == tool);
        }
        lemma_no_figures(f.drop_last(), tool);
    }
}

/// One more result goes into the row of its tool.
proof fn lemma_categorize_one(
    rows: Seq<(Seq<char>, CategoryModel)>,
    f: Seq<ResultFigure>,
    x: ResultFigure,
)
    requires
        categorizes(rows, f),
    ensures
        categorizes(
            inserted(
                rows,
                x.tool,
                (match lookup(rows, x.tool) {
                    Some(c) => c,
                    None => CategoryModel::zero(),
                }).with_result(x.bytes, x.output_bytes, x.protected, default_limit(x.tool)),
            ),
            f.push(x),
        ),
{
    let c = (match lookup(rows, x.tool) {
        Some(c) => c,
        None => CategoryModel::zero(),
    }).with_result(x.bytes, x.output_bytes, x.protected, default_limit(x.tool));
    let g = f.push(x);
    let t = inserted(rows, x.tool, c);
    lemma_inserted(rows, x.tool, c, x.tool);
    assert(g.drop_last() =~= f);
    assert(category(g, x.tool) == c) by {
        if has_key(rows, x.tool) {
            let k = key_index(rows, x.tool);
            assert(rows[k].0 == x.tool);
        } else {
            assert(!has_figure(f, x.tool));
            lemma_no_figures(f, x.tool);
        }
    }
    assert(g[f.len() as int].tool == x.tool);
    assert forall|i: int| 0 <= i < t.len() implies (#[trigger] t[i]).1 == category(g, t[i].0)
        && has_figure(g, t[i].0) by {
        if t[i].0 == x.tool {
            lemma_key_index(t, i);
        } else {
            assert(t[i] == rows[i]);
            let j = choose|j: int| 0 <= j < f.len() && (#[trigger] f[j]).tool == rows[i].0;
            assert(g[j].tool == rows[i].0);
        }
    }
    assert forall|tool: Seq<char>| #[trigger] has_figure(g, tool) implies has_key(t, tool) by {
        if tool != x.tool {
            let j = choose|j: int| 0 <= j < g.len() && (#[trigger] g[j]).tool == tool;
            assert(f[j].tool == tool);
            assert(has_figure(f, tool));
            lemma_inserted(rows, x.tool, c, tool);
            assert(lookup(rows, tool) is Some);
        }
    }
}

/// Adds the tool results of one message to the rows. Returns the bytes of the
/// results.
fn analyze_results(
    agent: &AgentMessage,
    protected: bool,
    rows: &mut StrMap<CategoryTally>,
    before: Ghost<Seq<ResultFigure>>,
    total: CheckedUsize,
) -> (r: CheckedUsize)
    requires
        categorizes(old(rows)@, before@),
        total@ == figure_bytes(before@),
    ensures
        categorizes(final(rows)@, before@ + figures_of(results_of(agent@), protected)),
        r@ == figure_bytes(before@ + figures_of(results_of(agent@), protected)),
{
    let mut sum = total;
    match &agent.tool_results {
        Some(results) => {
            let config = CleanConfig::default();
            let ghost all = figures_of(results@, protected);
            let len: usize = results.len();
            let mut i: usize = 0;
            assert(before@ + all.take(0) =~= before@);
            while i < len
                invariant
                    i <= len,
                    len == results@.len(),
                    all == figures_of(results@, protected),
                    config.terminal_limit == 2000,
                    config.search_limit == 2000,
                    config.read_file_limit == 3000,
                    categorizes(rows@, before@ + all.take(i as int)),
                    sum@ == figure_bytes(before@ + all.take(i as int)),
                decreases len - i,
            {
                let ghost so_far = before@ + all.take(i as int);
                let result = results.value_at(i);
                let bytes: usize = analyze_content(&result.content);
                let output_bytes: usize = opt_json_len(&result.output);
                let limit = tool_byte_limit(result.tool_name.as_str(), &config);
                proof {
                    lemma_categorize_one(rows@, so_far, all[i as int]);
                    assert(before@ + all.take(i + 1) =~= so_far.push(all[i as int]));
                    assert(so_far.push(all[i as int]).drop_last() =~= so_far);
                }
                sum = sum.add_value(bytes);
                let tally = match rows.get(result.tool_name.as_str()) {
                    Some(tally) => tally.record(bytes, output_bytes, protected, limit),
                    None => CategoryTally::new().record(bytes, output_bytes, protected, limit),
                };
                rows.insert(result.tool_name.clone(), tally);
                i += 1;
            }
            assert(all.take(i as int) =~= all);
        },
        None => {
            assert(before@ + figures_of(results_of(agent@), protected) =~= before@);
        },
    }
    sum
}

/// The rows with the largest first, where all their figures can be held.
fn rank_rows(rows: &StrMap<CategoryTally>) -> (r: Option<Vec<ToolCategoryStats>>)
    ensures
        r is Some <==> forall|i: int| 0 <= i < rows@.len() ==> (#[trigger] rows@[i]).1.fits(),
        r matches Some(v) ==> {
            &&& lists_entries(seq_views(v@), rows@, rows@.len() as int)
            &&& is_descending(Seq::new(v@.len(), |i: int| v@[i].total_bytes))
        },
{
    let ghost all = rows@;
    let mut out: Vec<ToolCategoryStats> = Vec::new();
    let mut ranks: Vec<usize> = Vec::new();
    let len: usize = rows.len();
    let mut i: usize = 0;
    proof {
        lemma_list_nothing(seq_views(out@), all);
    }
    while i < len
        invariant
            i <= len,
            all == rows@,
            len == all.len(),
            keys_distinct(all),
            out@.len() == ranks@.len(),
            is_descending(ranks@),
            forall|k: int| 0 <= k < out@.len() ==> (#[trigger] out@[k]).total_bytes == ranks@[k],
            forall|j: int| 0 <= j < i ==> (#[trigger] all[j]).1.fits(),
            lists_entries(seq_views(out@), all, i as int),
        decreases len - i,
    {
        match rows.value_at(i).finish(rows.key_at(i).clone()) {
            Some(row) => {
                let ghost before = out@;
                let rank: usize = row.total_bytes;
                let pos: usize = insert_ranked(&mut out, &mut ranks, row, rank);
                proof {
                    lemma_list_one_more(seq_views(before), all, i as int, pos as int);
                    assert(seq_views(out@) =~= seq_views(before).insert(pos as int, all[i as int]));
                    assert forall|k: int| 0 <= k < out@.len() implies (
                    #[trigger] out@[k]).total_bytes == ranks@[k] by {
                        if k < pos {
                            assert(out@[k] == before[k]);
                        } else if k > pos {
                            assert(out@[k] == before[k - 1]);
                        }
                    }
                }
            },
            None => {
                assert(!all[i as int].1.fits());
                return None;
            },
        }
        i += 1;
    }
    assert(Seq::new(out@.len(), |i: int| out@[i].total_bytes) =~= ranks@);
    Some(out)
}

proof fn lemma_categories_of_list(
    s: Seq<(Seq<char>, CategoryModel)>,
    all: Seq<(Seq<char>, CategoryModel)>,
    f: Seq<ResultFigure>,
)
    requires
        categorizes(all, f),
        lists_entries(s, all, all.len() as int),
    ensures
        categorizes(s, f),
{
    reveal(lists_entries);
    assert forall|k: int| 0 <= k < s.len() implies (#[trigger] s[k]).1 == category(f, s[k].0)
        && has_figure(f, s[k].0) by {
        let j = choose|j: int| 0 <= j < all.len() && all[j] == s[k];
        assert(all[j] == s[k]);
    }
    assert forall|tool: Seq<char>| #[trigger] has_figure(f, tool) implies has_key(s, tool) by {
        let j = key_index(all, tool);
        assert(has_key(all, tool));
        assert(all[j].0 == tool);
        let k = choose|k: int| 0 <= k < s.len() && s[k] == all[j];
        assert(s[k].0 == tool);
    }
}

proof fn lemma_categories_fit(all: Seq<(Seq<char>, CategoryModel)>, f: Seq<ResultFigure>)
    requires
        categorizes(all, f),
    ensures
        (forall|i: int| 0 <= i < all.len() ==> (#[trigger] all[i]).1.fits()) <==> (forall|
            tool: Seq<char>,
        | #[trigger] category(f, tool).fits()),
{
    if forall|i: int| 0 <= i < all.len() ==> (#[trigger] all[i]).1.fits() {
        assert forall|tool: Seq<char>| #[trigger] category(f, tool).fits() by {
            if has_figure(f, tool) {
                let j = key_index(all, tool);
                assert(has_key(all, tool));
                assert(all[j].0 == tool);
            } else {
                lemma_no_figures(f, tool);
            }
        }
    }
    if forall|tool: Seq<char>| #[trigger] category(f, tool).fits() {
        assert forall|i: int| 0 <= i < all.len() implies (#[trigger] all[i]).1.fits() by {
            assert(category(f, all[i].0).fits());
        }
    }
}

/// The analysis of a thread, where all its figures can be held.
fn gather_analysis(thread: &DbThread, keep_last_n: usize) -> (r: Option<ThreadAnalysis>)
    ensures
        r is Some <==> analysis_fits(thread@.messages, keep_last_n as nat),
        r matches Some(a) ==> is_analysis_of(a, thread@.messages, keep_last_n as nat),
{
    broadcast use vstd::std_specs::hash::group_hash_axioms;

    let protected = compute_protected_indices(thread.messages.as_slice(), keep_last_n);
    let sizes = measure_messages(&thread.messages);
    let ghost m = thread@.messages;
    let mut rows: StrMap<CategoryTally> = StrMap::new();
    let mut result_bytes = CheckedUsize::new(0);
    let mut i: usize = 0;
    while i < thread.messages.len()
        invariant
            i <= thread.messages@.len(),
            m == seq_views(thread.messages@),
            categorizes(rows@, figures(m, i as int, protected@)),
            result_bytes@ == figure_bytes(figures(m, i as int, protected@)),
        decreases thread.messages@.len() - i,
    {
        assert(m[i as int] == thread.messages@[i as int]@);
        if let Message::Agent { agent } = &thread.messages[i] {
            result_bytes =
            analyze_results(
                agent,
                protected.contains(&i),
                &mut rows,
                Ghost(figures(m, i as int, protected@)),
                result_bytes,
            );
        }
        i += 1;
    }
    let ghost f = thread_figures(m, keep_last_n as nat);
    assert(categorizes(rows@, f));
    proof {
        lemma_categories_fit(rows@, f);
    }
    let categories = match rank_rows(&rows) {
        Some(categories) => categories,
        None => {
            return None;
        },
    };
    proof {
        lemma_categories_of_list(seq_views(categories@), rows@, f);
    }
    let total = result_bytes.add_checked(&sizes.agent_text).add_checked(
        &sizes.raw_input,
    ).add_checked(&sizes.user_text);
    match (
        total.to_option(),
        result_bytes.to_option(),
        sizes.agent_text.to_option(),
        sizes.raw_input.to_option(),
        sizes.user_text.to_option(),
    ) {
        (Some(grand_total_bytes), Some(a), Some(b), Some(c), Some(d)) => Some(
            ThreadAnalysis {
                categories,
                total_tool_result_bytes: a,
                total_agent_text_bytes: b,
                total_tool_use_bytes: c,
                total_user_bytes: d,
                grand_total_bytes,
                message_count: thread.messages.len(),
                protected_message_count: protected.len(),
            },
        ),
        _ => None,
    }
}

/// Analyzes a thread by tool, with the last `keep_last_n` dialogs protected.
pub fn analyze_thread(thread: &DbThread, keep_last_n: usize) -> (r: ThreadAnalysis)
    requires
        analysis_fits(thread@.messages, keep_last_n as nat),
    ensures
        is_analysis_of(r, thread@.messages, keep_last_n as nat),
{
    gather_analysis(thread, keep_last_n).unwrap()
}

/// Analyzes a thread by tool, or returns `None` where a figure cannot be held.
pub fn try_analyze_thread(thread: &DbThread, keep_last_n: usize) -> (r: Option<ThreadAnalysis>)
    ensures
        r is Some <==> analysis_fits(thread@.messages, keep_last_n as nat),
        r matches Some(a) ==> is_analysis_of(a, thread@.messages, keep_last_n as nat),
{
    if gather_analysis(thread, keep_last_n).is_some() {
        Some(analyze_thread(thread, keep_last_n))
    } else {
        None
    }
}

} // verus!
