//! The state of an interactive session: the types of the threads, which of
//! them are listed, and which tools are cleaned.
use crate::chars::{contains_text, lowercase, occurs};
use crate::duplicate::seq_views;
use crate::str_map::{has_key, inserted, key_index, keys_distinct, lemma_inserted, lookup, StrMap};
use crate::text::same_text;
use crate::types::{DbThread, ThreadMeta, ThreadModel, ToolCategoryStats};
use vstd::prelude::*;
use vstd::string::*;

verus! {

/// Filter for the thread list.
#[derive(Debug, Clone, Copy, PartialEq, Eq, Structural)]
pub enum ThreadFilter {
    All,
    Chat,
    Subagent,
}

impl ThreadFilter {
    /// The name of the filter.
    pub open spec fn name(self) -> Seq<char> {
        match self {
            ThreadFilter::All => "All"@,
            ThreadFilter::Chat => "Chat"@,
            ThreadFilter::Subagent => "Subagent"@,
        }
    }

    /// The name of the filter.
    pub fn label(&self) -> (r: &'static str)
        ensures
            r@ == self.name(),
    {
        match self {
            ThreadFilter::All => "All",
            ThreadFilter::Chat => "Chat",
            ThreadFilter::Subagent => "Subagent",
        }
    }
}

/// The type of a loaded thread: it was spawned from another thread where it has
/// a subagent context that is not `null`.
pub open spec fn thread_type(t: ThreadModel) -> Seq<char> {
    if t.subagent_context is Some && !(t.subagent_context->0 is Null) {
        "Subagent"@
    } else {
        "Chat"@
    }
}

/// The type of a loaded thread: "Subagent" or "Chat".
pub fn detect_thread_type(thread: &DbThread) -> (r: String)
    ensures
        r@ == thread_type(thread@),
{
    if let Some(ctx) = &thread.subagent_context {
        if !ctx.is_null() {
            return "Subagent".to_owned();
        }
    }
    "Chat".to_owned()
}

/// A cache of thread types after a list was loaded: each thread whose type is
/// known is entered, the others stay as they are.
pub open spec fn cached_types(
    cache: Seq<(Seq<char>, Seq<char>)>,
    list: Seq<ThreadMeta>,
) -> Seq<(Seq<char>, Seq<char>)>
    decreases list.len(),
{
    if list.len() == 0 {
        cache
    } else {
        let before = cached_types(cache, list.drop_last());
        let last = list.last();
        if last.thread_type@.len() > 0 {
            inserted(before, last.id@, last.thread_type@)
        } else {
            before
        }
    }
}

/// Enters the types of the threads of a list into the cache.
pub fn cache_types(cache: &mut StrMap<String>, list: &Vec<ThreadMeta>)
    ensures
        final(cache)@ == cached_types(old(cache)@, list@),
{
    let ghost before = cache@;
    let mut i: usize = 0;
    assert(list@.take(0) =~= Seq::<ThreadMeta>::empty());
    while i < list.len()
        invariant
            i <= list@.len(),
            cache@ == cached_types(before, list@.take(i as int)),
        decreases list@.len() - i,
    {
        assert(list@.take(i + 1).drop_last() =~= list@.take(i as int));
        assert(list@.take(i + 1).last() == list@[i as int]);
        if !list[i].thread_type.as_str().is_empty() {
            cache.insert(list[i].id.clone(), list[i].thread_type.clone());
        }
        i += 1;
    }
    assert(list@.take(i as int) =~= list@);
}

/// Whether a filter lets a thread of a cached type through; a thread of an
/// unknown type is listed only without a filter.
pub open spec fn passes(filter: ThreadFilter, cached: Option<Seq<char>>) -> bool {
    match filter {
        ThreadFilter::All => true,
        ThreadFilter::Chat => cached == Some("Chat"@),
        ThreadFilter::Subagent => cached == Some("Subagent"@),
    }
}

/// Whether a thread is listed, given its summary and the search text in lower
/// case.
pub open spec fn is_listed_given(
    summary_lower: Seq<char>,
    search: Seq<char>,
    search_lower: Seq<char>,
    filter: ThreadFilter,
    cached: Option<Seq<char>>,
) -> bool {
    (search.len() == 0 || occurs(summary_lower, search_lower)) && passes(filter, cached)
}

/// Whether a thread is listed.
pub open spec fn is_listed(
    meta: ThreadMeta,
    search: Seq<char>,
    filter: ThreadFilter,
    cache: Seq<(Seq<char>, Seq<char>)>,
) -> bool {
    is_listed_given(
        lowercase(meta.summary@),
        search,
        lowercase(search),
        filter,
        lookup(cache, meta.id@),
    )
}

/// Whether a thread is listed, given its summary and the search text in lower
/// case and its cached type.
pub fn shows_thread(
    summary_lower: &str,
    search: &str,
    search_lower: &str,
    filter: ThreadFilter,
    cached: Option<&String>,
) -> (r: bool)
    ensures
        r == is_listed_given(
            summary_lower@,
            search@,
            search_lower@,
            filter,
            match cached {
                Some(s) => Some(s@),
                None => None,
            },
        ),
{
    if !search.is_empty() && !contains_text(summary_lower, search_lower) {
        return false;
    }
    match filter {
        ThreadFilter::All => true,
        ThreadFilter::Chat => match cached {
            Some(s) => same_text(s.as_str(), "Chat"),
            None => false,
        },
        ThreadFilter::Subagent => match cached {
            Some(s) => same_text(s.as_str(), "Subagent"),
            None => false,
        },
    }
}

/// The places of the threads that are listed.
pub open spec fn listed_places(
    threads: Seq<ThreadMeta>,
    search: Seq<char>,
    filter: ThreadFilter,
    cache: Seq<(Seq<char>, Seq<char>)>,
) -> Seq<usize>
    decreases threads.len(),
{
    if threads.len() == 0 {
        Seq::empty()
    } else {
        let before = listed_places(threads.drop_last(), search, filter, cache);
        if is_listed(threads.last(), search, filter, cache) {
            before.push((threads.len() - 1) as usize)
        } else {
            before
        }
    }
}

/// The places of the threads that are listed under a search text and a filter.
pub fn visible_threads(
    threads: &Vec<ThreadMeta>,
    search: &str,
    filter: ThreadFilter,
    cache: &StrMap<String>,
) -> (r: Vec<usize>)
    ensures
        r@ == listed_places(threads@, search@, filter, cache@),
        forall|k: int| 0 <= k < r@.len() ==> #[trigger] r@[k] < threads@.len(),
{
    let search_lower = search.to_lowercase();
    let mut out: Vec<usize> = Vec::new();
    let mut i: usize = 0;
    assert(threads@.take(0) =~= Seq::<ThreadMeta>::empty());
    while i < threads.len()
        invariant
            i <= threads@.len(),
            search_lower@ == lowercase(search@),
            out@ == listed_places(threads@.take(i as int), search@, filter, cache@),
            forall|k: int| 0 <= k < out@.len() ==> #[trigger] out@[k] < i,
        decreases threads@.len() - i,
    {
        assert(threads@.take(i + 1).drop_last() =~= threads@.take(i as int));
        assert(threads@.take(i + 1).last() == threads@[i as int]);
        let summary_lower = threads[i].summary.as_str().to_lowercase();
        if shows_thread(
            summary_lower.as_str(),
            search,
            search_lower.as_str(),
            filter,
            cache.get(threads[i].id.as_str()),
        ) {
            out.push(i);
        }
        i += 1;
    }
    assert(threads@.take(i as int) =~= threads@);
    out
}

/// The thread at `i` is the first with the id.
pub open spec fn is_first_with_id(list: Seq<ThreadMeta>, id: Seq<char>, i: int) -> bool {
    &&& 0 <= i < list.len()
    &&& list[i].id@ == id
    &&& forall|j: int| 0 <= j < i ==> (#[trigger] list[j]).id@ != id
}

/// The size that a list gives for a thread: that of the first with its id, and
/// zero where none has it.
pub open spec fn is_stored_size(size: usize, list: Seq<ThreadMeta>, id: Seq<char>) -> bool {
    &&& forall|i: int| #[trigger] is_first_with_id(list, id, i) ==> size == list[i].data_size
    &&& (forall|i: int| 0 <= i < list.len() ==> (#[trigger] list[i]).id@ != id) ==> size == 0
}

/// The stored size of a thread, as the list gives it; zero where the list does
/// not have the thread.
pub fn stored_size(list: &Vec<ThreadMeta>, id: &str) -> (r: usize)
    ensures
        is_stored_size(r, list@, id@),
{
    let mut i: usize = 0;
    while i < list.len()
        invariant
            i <= list@.len(),
            forall|j: int| 0 <= j < i ==> (#[trigger] list@[j]).id@ != id@,
        decreases list@.len() - i,
    {
        if same_text(list[i].id.as_str(), id) {
            assert(list@[i as int].id@ == id@);
            return list[i].data_size;
        }
        i += 1;
    }
    0
}

/// Whether a tool is cleaned unless the user says otherwise: where more than
/// 10 000 bytes can be saved.
pub open spec fn checked_by_default(row: ToolCategoryStats) -> bool {
    row.cleanable_bytes > 10_000
}

/// The checks of the tools of an analysis: those already made stay, and the
/// other tools are checked by default or not.
pub open spec fn checks_added(
    checks: Seq<(Seq<char>, bool)>,
    rows: Seq<ToolCategoryStats>,
) -> Seq<(Seq<char>, bool)>
    decreases rows.len(),
{
    if rows.len() == 0 {
        checks
    } else {
        let before = checks_added(checks, rows.drop_last());
        let last = rows.last();
        if has_key(before, last.tool_name@) {
            before
        } else {
            before.push((last.tool_name@, checked_by_default(last)))
        }
    }
}

/// Whether an analysis has a row for a tool.
pub open spec fn has_row(rows: Seq<ToolCategoryStats>, tool: Seq<char>) -> bool {
    exists|i: int| 0 <= i < rows.len() && (#[trigger] rows[i]).tool_name@ == tool
}

/// The checks of the tools that an analysis has a row for.
pub open spec fn checks_retained(
    checks: Seq<(Seq<char>, bool)>,
    rows: Seq<ToolCategoryStats>,
) -> Seq<(Seq<char>, bool)>
    decreases checks.len(),
{
    if checks.len() == 0 {
        Seq::empty()
    } else {
        let before = checks_retained(checks.drop_last(), rows);
        if has_row(rows, checks.last().0) {
            before.push(checks.last())
        } else {
            before
        }
    }
}

/// Whether each tool is cleaned.
#[derive(Debug)]
pub struct CategoryChecks {
    checks: StrMap<bool>,
}

impl View for CategoryChecks {
    type V = Seq<(Seq<char>, bool)>;

    closed spec fn view(&self) -> Seq<(Seq<char>, bool)> {
        self.checks@
    }
}

fn row_exists(rows: &Vec<ToolCategoryStats>, tool: &str) -> (r: bool)
    ensures
        r == has_row(rows@, tool@),
{
    let mut i: usize = 0;
    while i < rows.len()
        invariant
            i <= rows@.len(),
            forall|j: int| 0 <= j < i ==> (#[trigger] rows@[j]).tool_name@ != tool@,
        decreases rows@.len() - i,
    {
        if same_text(rows[i].tool_name.as_str(), tool) {
            return true;
        }
        i += 1;
    }
    false
}

impl CategoryChecks {
    /// No tools.
    pub fn new() -> (r: Self)
        ensures
            r@ == Seq::<(Seq<char>, bool)>::empty(),
    {
        CategoryChecks { checks: StrMap::new() }
    }

    /// Whether a tool is cleaned; nothing for a tool that is not among them.
    pub fn get(&self, tool: &str) -> (r: Option<bool>)
        ensures
            r == lookup(self@, tool@),
    {
        match self.checks.get(tool) {
            Some(c) => Some(*c),
            None => None,
        }
    }

    /// Says whether a tool is cleaned.
    pub fn set(&mut self, tool: &str, enabled: bool)
        ensures
            final(self)@ == inserted(old(self)@, tool@, enabled),
    {
        self.checks.insert(tool.to_owned(), enabled);
    }

    /// Adds the tools of an analysis that are not yet among the checks.
    pub fn add_rows(&mut self, rows: &Vec<ToolCategoryStats>)
        ensures
            final(self)@ == checks_added(old(self)@, rows@),
    {
        let ghost before = self@;
        let mut i: usize = 0;
        assert(rows@.take(0) =~= Seq::<ToolCategoryStats>::empty());
        while i < rows.len()
            invariant
                i <= rows@.len(),
                self@ == checks_added(before, rows@.take(i as int)),
            decreases rows@.len() - i,
        {
            assert(rows@.take(i + 1).drop_last() =~= rows@.take(i as int));
            assert(rows@.take(i + 1).last() == rows@[i as int]);
            if !self.checks.contains_key(rows[i].tool_name.as_str()) {
                let enabled = rows[i].cleanable_bytes > 10_000;
                self.checks.insert(rows[i].tool_name.clone(), enabled);
            }
            i += 1;
        }
        assert(rows@.take(i as int) =~= rows@);
    }

    /// Removes the tools that an analysis has no row for.
    pub fn retain_rows(&mut self, rows: &Vec<ToolCategoryStats>)
        ensures
            final(self)@ == checks_retained(old(self)@, rows@),
    {
        let ghost all = self@;
        let mut out: StrMap<bool> = StrMap::new();
        let len: usize = self.checks.len();
        let mut i: usize = 0;
        assert(all.take(0) =~= Seq::<(Seq<char>, bool)>::empty());
        while i < len
            invariant
                i <= len,
                all == self@,
                len == all.len(),
                keys_distinct(all),
                out@ == checks_retained(all.take(i as int), rows@),
            decreases len - i,
        {
            assert(all.take(i + 1).drop_last() =~= all.take(i as int));
            assert(all.take(i + 1).last() == all[i as int]);
            let tool = self.checks.key_at(i);
            if row_exists(rows, tool.as_str()) {
                proof {
                    if has_key(out@, tool@) {
                        let k = key_index(out@, tool@);
                        assert(out@[k].0 == tool@);
                        lemma_retained(all.take(i as int), rows@, k);
                        let j = choose|j: int|
                            0 <= j < i && #[trigger] all.take(i as int)[j] == out@[k];
                        assert(all[j].0 == all[i as int].0);
                        assert(false);
                    }
                }
                out.insert(tool.clone(), *self.checks.value_at(i));
            }
            i += 1;
        }
        assert(all.take(i as int) =~= all);
        self.checks = out;
    }

    /// The checks of a newly loaded thread.
    pub fn of_rows(rows: &Vec<ToolCategoryStats>) -> (r: Self)
        ensures
            r@ == checks_added(Seq::empty(), rows@),
    {
        let mut checks = CategoryChecks::new();
        checks.add_rows(rows);
        checks
    }

    /// Brings the checks in line with a new analysis of the thread: the checks
    /// of the tools that it still has stay, its other tools are checked by
    /// default or not, and no others are left.
    pub fn update_rows(&mut self, rows: &Vec<ToolCategoryStats>)
        ensures
            final(self)@ == checks_retained(checks_added(old(self)@, rows@), rows@),
    {
        self.add_rows(rows);
        self.retain_rows(rows);
    }

    /// The tools that are not cleaned.
    pub fn skipped(&self) -> (r: Vec<String>)
        ensures
            seq_views(r@) == unchecked(self@),
    {
        let ghost all = self@;
        let mut out: Vec<String> = Vec::new();
        let len: usize = self.checks.len();
        let mut i: usize = 0;
        assert(all.take(0) =~= Seq::<(Seq<char>, bool)>::empty());
        assert(seq_views(out@) =~= unchecked(all.take(0)));
        while i < len
            invariant
                i <= len,
                all == self@,
                len == all.len(),
                seq_views(out@) == unchecked(all.take(i as int)),
            decreases len - i,
        {
            let ghost before = out@;
            assert(all.take(i + 1).drop_last() =~= all.take(i as int));
            assert(all.take(i + 1).last() == all[i as int]);
            if !*self.checks.value_at(i) {
                let name = self.checks.key_at(i).clone();
                out.push(name);
                assert(seq_views(out@) =~= seq_views(before).push(name@));
            }
            i += 1;
        }
        assert(all.take(i as int) =~= all);
        out
    }
}

proof fn lemma_retained(
    checks: Seq<(Seq<char>, bool)>,
    rows: Seq<ToolCategoryStats>,
    k: int,
)
    requires
        0 <= k < checks_retained(checks, rows).len(),
    ensures
        exists|i: int|
            0 <= i < checks.len() && #[trigger] checks[i] == checks_retained(checks, rows)[k],
        has_row(rows, checks_retained(checks, rows)[k].0),
    decreases checks.len(),
{
    let rest = checks_retained(checks.drop_last(), rows);
    if k < rest.len() {
        lemma_retained(checks.drop_last(), rows, k);
        let i = choose|i: int|
            0 <= i < checks.len() - 1 && #[trigger] checks.drop_last()[i] == rest[k];
        assert(checks[i] == rest[k]);
    } else {
        assert(checks[checks.len() - 1] == checks_retained(checks, rows)[k]);
    }
}

/// The tools that are not checked.
pub open spec fn unchecked(checks: Seq<(Seq<char>, bool)>) -> Seq<Seq<char>>
    decreases checks.len(),
{
    if checks.len() == 0 {
        Seq::empty()
    } else if !checks.last().1 {
        unchecked(checks.drop_last()).push(checks.last().0)
    } else {
        unchecked(checks.drop_last())
    }
}

proof fn lemma_added(
    checks: Seq<(Seq<char>, bool)>,
    rows: Seq<ToolCategoryStats>,
    tool: Seq<char>,
)
    requires
        keys_distinct(checks),
    ensures
        keys_distinct(checks_added(checks, rows)),
        has_key(checks, tool) ==> lookup(checks_added(checks, rows), tool) == lookup(checks, tool),
        has_key(checks_added(checks, rows), tool) <==> has_key(checks, tool) || has_row(rows, tool),
    decreases rows.len(),
{
    if rows.len() > 0 {
        let before = checks_added(checks, rows.drop_last());
        let after = checks_added(checks, rows);
        let last = rows.last();
        lemma_added(checks, rows.drop_last(), tool);
        assert(rows[rows.len() - 1] == last);
        if has_row(rows.drop_last(), tool) {
            let i = choose|i: int|
                0 <= i < rows.len() - 1 && (#[trigger] rows.drop_last()[i]).tool_name@ == tool;
            assert(rows[i].tool_name@ == tool);
        }
        if has_row(rows, tool) && last.tool_name@ != tool {
            let i = choose|i: int|
                0 <= i < rows.len() && (#[trigger] rows[i]).tool_name@ == tool;
            assert(rows.drop_last()[i].tool_name@ == tool);
        }
        if !has_key(before, last.tool_name@) {
            let enabled = checked_by_default(last);
            assert(after == inserted(before, last.tool_name@, enabled));
            lemma_inserted(before, last.tool_name@, enabled, tool);
            assert(has_key(after, tool) == (lookup(after, tool) is Some));
            assert(has_key(before, tool) == (lookup(before, tool) is Some));
        }
    }
}

proof fn lemma_added_default(
    checks: Seq<(Seq<char>, bool)>,
    rows: Seq<ToolCategoryStats>,
    i: int,
)
    requires
        keys_distinct(checks),
        0 <= i < rows.len(),
        forall|j: int, k: int|
            0 <= j < k < rows.len() ==> (#[trigger] rows[j]).tool_name@ != (
            #[trigger] rows[k]).tool_name@,
        !has_key(checks, rows[i].tool_name@),
    ensures
        lookup(checks_added(checks, rows), rows[i].tool_name@) == Some(checked_by_default(rows[i])),
    decreases rows.len(),
{
    let rest = rows.drop_last();
    let before = checks_added(checks, rest);
    let last = rows.last();
    let tool = rows[i].tool_name@;
    lemma_added(checks, rest, last.tool_name@);
    if i < rest.len() {
        lemma_added_default(checks, rest, i);
        assert(rest[i] == rows[i]);
        assert(rows[i].tool_name@ != rows[rows.len() - 1].tool_name@);
        if !has_key(before, last.tool_name@) {
            lemma_inserted(before, last.tool_name@, checked_by_default(last), tool);
        }
    } else {
        if has_row(rest, tool) {
            let j = choose|j: int|
                0 <= j < rest.len() && (#[trigger] rest[j]).tool_name@ == tool;
            assert(rows[j].tool_name@ != rows[i].tool_name@);
        }
        lemma_inserted(before, tool, checked_by_default(last), tool);
    }
}

proof fn lemma_retained_lookup(
    checks: Seq<(Seq<char>, bool)>,
    rows: Seq<ToolCategoryStats>,
    tool: Seq<char>,
)
    requires
        keys_distinct(checks),
    ensures
        keys_distinct(checks_retained(checks, rows)),
        lookup(checks_retained(checks, rows), tool) == if has_row(rows, tool) {
            lookup(checks, tool)
        } else {
            None
        },
    decreases checks.len(),
{
    if checks.len() == 0 {
        assert(!has_key(checks, tool));
        assert(!has_key(checks_retained(checks, rows), tool));
    } else {
        let rest = checks.drop_last();
        let last = checks.last();
        let before = checks_retained(rest, rows);
        lemma_retained_lookup(rest, rows, tool);
        assert(!has_key(rest, last.0)) by {
            if has_key(rest, last.0) {
                let i = key_index(rest, last.0);
                assert(rest[i].0 == last.0);
                assert(checks[i].0 != checks[checks.len() - 1].0);
            }
        }
        assert(checks =~= inserted(rest, last.0, last.1));
        lemma_inserted(rest, last.0, last.1, tool);
        if has_row(rows, last.0) {
            lemma_retained_lookup(rest, rows, last.0);
            assert(lookup(before, last.0) is None);
            assert(!has_key(before, last.0));
            assert(checks_retained(checks, rows) =~= inserted(before, last.0, last.1));
            lemma_inserted(before, last.0, last.1, tool);
        }
    }
}

/// After a new analysis a tool keeps the check that it had. A tool that is new
/// is checked where enough can be saved, and one that is gone has none.
pub proof fn law_checks_follow_the_analysis(
    checks: Seq<(Seq<char>, bool)>,
    rows: Seq<ToolCategoryStats>,
    i: int,
    gone: Seq<char>,
)
    requires
        keys_distinct(checks),
        0 <= i < rows.len(),
        forall|j: int, k: int|
            0 <= j < k < rows.len() ==> (#[trigger] rows[j]).tool_name@ != (
            #[trigger] rows[k]).tool_name@,
    ensures
        lookup(checks_retained(checks_added(checks, rows), rows), rows[i].tool_name@) == (
        match lookup(checks, rows[i].tool_name@) {
            Some(enabled) => Some(enabled),
            None => Some(checked_by_default(rows[i])),
        }),
        !has_row(rows, gone) ==> lookup(
            checks_retained(checks_added(checks, rows), rows),
            gone,
        ) is None,
{
    let tool = rows[i].tool_name@;
    let added = checks_added(checks, rows);
    lemma_added(checks, rows, tool);
    lemma_retained_lookup(added, rows, tool);
    lemma_retained_lookup(added, rows, gone);
    assert(has_row(rows, tool));
    if !has_key(checks, tool) {
        lemma_added_default(checks, rows, i);
    }
}

/// A cleanup skips exactly the tools whose check is off.
pub proof fn law_unchecked_tools_are_skipped(checks: Seq<(Seq<char>, bool)>, tool: Seq<char>)
    requires
        keys_distinct(checks),
    ensures
        unchecked(checks).contains(tool) <==> lookup(checks, tool) == Some(false),
    decreases checks.len(),
{
    if checks.len() == 0 {
        assert(!has_key(checks, tool));
    } else {
        let rest = checks.drop_last();
        let last = checks.last();
        law_unchecked_tools_are_skipped(rest, tool);
        assert(!has_key(rest, last.0)) by {
            if has_key(rest, last.0) {
                let i = key_index(rest, last.0);
                assert(rest[i].0 == last.0);
                assert(checks[i].0 != checks[checks.len() - 1].0);
            }
        }
        assert(checks =~= inserted(rest, last.0, last.1));
        lemma_inserted(rest, last.0, last.1, tool);
        let before = unchecked(rest);
        let after = unchecked(checks);
        if before.contains(tool) {
            let k = choose|k: int| 0 <= k < before.len() && before[k] == tool;
            assert(after[k] == tool);
        }
        if !last.1 {
            assert(after[after.len() - 1] == last.0);
        }
    }
}

} // verus!
